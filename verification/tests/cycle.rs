use mail_intake::attachments::ExtractError;
use mail_intake::cycle::{plan_writes, Action, BadMessage, Cycle, Event, Halt, Phase};
use std::collections::{BTreeMap, HashSet};

/// A mailbox and an output directory that live in memory.
struct World {
    mailbox: BTreeMap<u32, Vec<u8>>,
    marked: HashSet<u32>,
    files: Vec<(String, Vec<u8>)>,
    fail_write_number: Option<usize>,
    writes_tried: usize,
    log: Vec<String>,
}

fn world(messages: Vec<(u32, Vec<u8>)>, files: Vec<(&str, &[u8])>) -> World {
    World {
        mailbox: messages.into_iter().collect(),
        marked: HashSet::new(),
        files: files.into_iter().map(|(name, bytes)| (name.to_string(), bytes.to_vec())).collect(),
        fail_write_number: None,
        writes_tried: 0,
        log: Vec::new(),
    }
}

fn uids_of(uidset: &str) -> Vec<u32> {
    uidset.split(',').map(|uid| uid.parse().unwrap()).collect()
}

/// Carries out one action and says what came of it; `None` ends the run.
fn perform(world: &mut World, action: Action) -> Option<Event> {
    match action {
        Action::Refresh => {
            world.log.push("refresh".to_string());
            Some(Event::Refreshed)
        }
        Action::ListAll => {
            world.log.push("list".to_string());
            Some(Event::Listed(world.mailbox.keys().copied().collect()))
        }
        Action::Fetch { uidset } => {
            world.log.push("fetch".to_string());
            let mut uids = uids_of(&uidset);
            uids.sort();
            let bodies = uids.iter().map(|uid| world.mailbox[uid].clone()).collect();
            Some(Event::Fetched(bodies))
        }
        Action::ListDirectory => {
            Some(Event::DirectoryListed(world.files.iter().map(|(name, _)| name.clone()).collect()))
        }
        Action::Write { name, content } => {
            world.writes_tried += 1;
            if world.fail_write_number == Some(world.writes_tried) {
                world.log.push(format!("write {} failed", name));
                return Some(Event::Failed);
            }
            assert!(world.files.iter().all(|(taken, _)| *taken != name));
            world.log.push(format!("write {}", name));
            world.files.push((name, content));
            Some(Event::Written)
        }
        Action::MarkDeleted { uidset } => {
            world.log.push("mark".to_string());
            world.marked.extend(uids_of(&uidset));
            Some(Event::MarkedDeleted)
        }
        Action::Purge => {
            world.log.push("purge".to_string());
            for uid in world.marked.drain() {
                world.mailbox.remove(&uid);
            }
            Some(Event::Purged)
        }
        Action::AwaitMail => {
            world.log.push("wait".to_string());
            None
        }
        Action::Halt(why) => {
            world.log.push(format!("halt {:?}", why));
            None
        }
    }
}

/// Runs the machine against the world until it waits for mail or halts.
fn run_one_cycle(world: &mut World) -> Cycle {
    let (mut cycle, mut action) = Cycle::begin();
    loop {
        match perform(world, action) {
            Some(event) => {
                let (next, asked) = cycle.step(event);
                cycle = next;
                action = asked;
            }
            None => return cycle,
        }
    }
}

fn message_with(attachments: &[(&str, &str)]) -> Vec<u8> {
    let mut raw =
        String::from("Subject: files\r\nContent-Type: multipart/mixed; boundary=\"b\"\r\n\r\n");
    raw.push_str("--b\r\nContent-Type: text/plain\r\n\r\nsee attached\r\n");
    for (name, content) in attachments {
        raw.push_str(&format!(
            "--b\r\nContent-Disposition: attachment; filename=\"{}\"\r\n\r\n{}\r\n",
            name, content
        ));
    }
    raw.push_str("--b--\r\n");
    raw.into_bytes()
}

#[test]
fn the_agent_starts_with_a_refresh() {
    let (cycle, action) = Cycle::begin();
    assert_eq!(action, Action::Refresh);
    assert_eq!(cycle.phase(), Phase::Refreshing);
    let (cycle, action) = cycle.step(Event::Refreshed);
    assert_eq!(action, Action::ListAll);
    assert_eq!(cycle.phase(), Phase::Listing);
}

#[test]
fn empty_mailbox_ends_the_cycle_at_once() {
    let mut w = world(vec![], vec![("old.txt", b"old")]);
    let cycle = run_one_cycle(&mut w);
    assert_eq!(cycle.phase(), Phase::Waiting);
    assert_eq!(w.log, vec!["refresh", "list", "wait"]);
    assert_eq!(w.files.len(), 1);
}

#[test]
fn waiting_ends_with_the_next_refresh() {
    let mut w = world(vec![], vec![]);
    let cycle = run_one_cycle(&mut w);
    let (cycle, action) = cycle.step(Event::MailArrived);
    assert_eq!(action, Action::Refresh);
    assert_eq!(cycle.phase(), Phase::Refreshing);
}

#[test]
fn round_trip_saves_the_attachment_and_deletes_both_messages() {
    let plain = b"Subject: hello\r\n\r\nno attachment here\r\n".to_vec();
    let invoice = message_with(&[("invoice.pdf", "%PDF-1.7 invoice")]);
    let mut w = world(vec![(4, plain), (9, invoice)], vec![]);
    let cycle = run_one_cycle(&mut w);
    assert_eq!(cycle.phase(), Phase::Waiting);
    assert_eq!(w.files, vec![("invoice.pdf".to_string(), b"%PDF-1.7 invoice".to_vec())]);
    assert!(w.mailbox.is_empty());
    assert_eq!(
        w.log,
        vec!["refresh", "list", "fetch", "write invoice.pdf", "mark", "purge", "wait"]
    );
}

#[test]
fn failed_write_leaves_the_batch_on_the_server() {
    let mail = message_with(&[("one.txt", "1"), ("two.txt", "2"), ("three.txt", "3")]);
    let mut w = world(vec![(1, mail)], vec![]);
    w.fail_write_number = Some(2);
    let cycle = run_one_cycle(&mut w);
    assert_eq!(cycle.phase(), Phase::Stopped);
    assert_eq!(
        w.log,
        vec!["refresh", "list", "fetch", "write one.txt", "write two.txt failed", "halt ActionFailed"]
    );
    assert_eq!(w.files, vec![("one.txt".to_string(), b"1".to_vec())]);
    assert_eq!(w.mailbox.len(), 1);
    assert!(w.marked.is_empty());
}

#[test]
fn a_stopped_agent_asks_for_nothing_more() {
    let (cycle, _) = Cycle::begin();
    let (cycle, action) = cycle.step(Event::Failed);
    assert_eq!(action, Action::Halt(Halt::ActionFailed));
    assert_eq!(cycle.phase(), Phase::Stopped);
    let (cycle, action) = cycle.step(Event::Written);
    assert_eq!(action, Action::Halt(Halt::OutOfTurn));
    let (cycle, action) = cycle.step(Event::MarkedDeleted);
    assert_eq!(action, Action::Halt(Halt::OutOfTurn));
    let (cycle, action) = cycle.step(Event::Failed);
    assert_eq!(action, Action::Halt(Halt::ActionFailed));
    assert_eq!(cycle.phase(), Phase::Stopped);
}

#[test]
fn an_event_out_of_turn_stops_the_agent() {
    let (cycle, _) = Cycle::begin();
    let (cycle, action) = cycle.step(Event::Purged);
    assert_eq!(action, Action::Halt(Halt::OutOfTurn));
    assert_eq!(cycle.phase(), Phase::Stopped);
}

#[test]
fn taken_names_are_not_overwritten() {
    let first = message_with(&[("a.txt", "new a")]);
    let second = message_with(&[("a.txt", "newer a"), ("b.txt", "b")]);
    let mut w = world(vec![(1, first), (2, second)], vec![("a.txt", b"old a"), ("0-a.txt", b"older")]);
    let cycle = run_one_cycle(&mut w);
    assert_eq!(cycle.phase(), Phase::Waiting);
    assert_eq!(
        w.files,
        vec![
            ("a.txt".to_string(), b"old a".to_vec()),
            ("0-a.txt".to_string(), b"older".to_vec()),
            ("1-a.txt".to_string(), b"new a".to_vec()),
            ("2-a.txt".to_string(), b"newer a".to_vec()),
            ("b.txt".to_string(), b"b".to_vec()),
        ]
    );
    assert!(w.mailbox.is_empty());
}

#[test]
fn unsafe_names_are_skipped_and_reported() {
    let mail = message_with(&[("../evil.sh", "rm"), ("fine.txt", "ok"), ("..", "dots")]);
    let mut w = world(vec![(7, mail)], vec![]);
    let cycle = run_one_cycle(&mut w);
    assert_eq!(cycle.phase(), Phase::Waiting);
    assert_eq!(w.files, vec![("fine.txt".to_string(), b"ok".to_vec())]);
    assert_eq!(cycle.skipped(), &vec!["../evil.sh".to_string(), "..".to_string()]);
    assert!(w.mailbox.is_empty());
}

#[test]
fn a_batch_of_unsafe_names_only_is_still_deleted() {
    let mail = message_with(&[("/abs", "x")]);
    let mut w = world(vec![(7, mail)], vec![]);
    let cycle = run_one_cycle(&mut w);
    assert_eq!(cycle.phase(), Phase::Waiting);
    assert!(w.files.is_empty());
    assert!(w.mailbox.is_empty());
    assert_eq!(cycle.skipped().len(), 1);
}

#[test]
fn unreadable_message_blocks_the_deletion_of_the_batch() {
    let good = message_with(&[("kept.txt", "kept")]);
    let bad = b"\rbroken".to_vec();
    let late = message_with(&[("late.txt", "late")]);
    let mut w = world(vec![(1, good), (2, bad), (3, late)], vec![]);
    let (mut cycle, mut action) = Cycle::begin();
    let stopped_over = loop {
        if let Action::Halt(why) = action {
            break why;
        }
        let event = perform(&mut w, action).unwrap();
        let (next, asked) = cycle.step(event);
        cycle = next;
        action = asked;
    };
    assert_eq!(cycle.phase(), Phase::Stopped);
    match stopped_over {
        Halt::Unreadable(BadMessage { position, error }) => {
            assert_eq!(position, 1);
            assert!(matches!(error, ExtractError::Malformed { .. }));
        }
        other => panic!("stopped for another reason: {:?}", other),
    }
    assert_eq!(w.files, vec![("kept.txt".to_string(), b"kept".to_vec())]);
    assert_eq!(w.mailbox.len(), 3);
    assert!(!w.log.contains(&"mark".to_string()));
    assert!(!w.log.contains(&"purge".to_string()));
}

#[test]
fn plan_lists_attachments_in_the_order_of_the_messages() {
    let first = message_with(&[("a", "1"), ("b", "2")]);
    let second = b"Subject: plain\r\n\r\ntext".to_vec();
    let third = message_with(&[("a", "3")]);
    let (writes, failure) = plan_writes(&vec![first, second, third]);
    assert_eq!(failure, None);
    let names: Vec<&str> = writes.iter().map(|w| w.filename.as_str()).collect();
    assert_eq!(names, vec!["a", "b", "a"]);
    assert_eq!(writes[2].content, b"3".to_vec());
}

#[test]
fn plan_stops_at_the_first_unreadable_message() {
    let first = message_with(&[("a", "1")]);
    let second = b"\rbroken".to_vec();
    let third = message_with(&[("c", "3")]);
    let (writes, failure) = plan_writes(&vec![first, second, third]);
    assert_eq!(writes.len(), 1);
    assert_eq!(writes[0].filename, "a");
    let bad = failure.unwrap();
    assert_eq!(bad.position, 1);
    assert!(matches!(bad.error, ExtractError::Malformed { .. }));
}

#[test]
fn two_cycles_in_a_row() {
    let mut w = world(vec![(1, message_with(&[("x", "1")]))], vec![]);
    let (mut cycle, mut action) = Cycle::begin();
    let mut waits = 0;
    loop {
        let event = match perform(&mut w, action) {
            Some(event) => event,
            None => {
                waits += 1;
                if waits == 2 {
                    break;
                }
                w.mailbox.insert(2, message_with(&[("x", "2")]));
                Event::MailArrived
            }
        };
        let (next, asked) = cycle.step(event);
        cycle = next;
        action = asked;
    }
    assert_eq!(
        w.files,
        vec![("x".to_string(), b"1".to_vec()), ("0-x".to_string(), b"2".to_vec())]
    );
    assert!(w.mailbox.is_empty());
}
