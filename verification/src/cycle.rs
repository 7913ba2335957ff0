//! One polling cycle after another, as a machine that decides and never acts.
//! Whoever drives it holds the mail session and the output directory: it
//! carries out the action that the machine asks for and reports what came of
//! it as the next event. The machine asks for the deletion of a batch only
//! when every attachment of every message of the batch has been written.

use crate::attachments::{
    attachment_views, extract, extraction, Attachment, AttachmentView, ExtractError,
    ExtractFailure,
};
use crate::naming::{make_unique_file, names_of, safe_name, unique_name};
use crate::uidset::{create_uidset, serializes};
use std::collections::HashSet;
use vstd::prelude::*;

verus! {

/// What the machine is waiting to hear of.
#[derive(Clone, Copy, PartialEq, Eq, Structural, Debug)]
pub enum Phase {
    /// The session was asked to refresh.
    Refreshing,
    /// The identifiers of all messages were asked for.
    Listing,
    /// The bodies of the listed messages were asked for.
    Fetching,
    /// The names in the output directory were asked for.
    Resolving,
    /// A file is being written.
    Writing,
    /// The batch is being marked as deleted.
    Marking,
    /// The mailbox is being purged.
    Purging,
    /// The cycle is over; new mail, or a timeout, starts the next.
    Waiting,
    /// The agent has stopped for good.
    Stopped,
}

/// A message of the batch that could not be taken apart.
#[derive(Debug, PartialEq, Eq)]
pub struct BadMessage {
    /// Its position in the batch as it was fetched.
    pub position: usize,
    pub error: ExtractError,
}

pub struct BadMessageView {
    pub position: nat,
    pub error: ExtractFailure,
}

impl View for BadMessage {
    type V = BadMessageView;

    open spec fn view(&self) -> BadMessageView {
        BadMessageView { position: self.position as nat, error: self.error@ }
    }
}

/// Why the agent stops.
#[derive(Debug, PartialEq, Eq)]
pub enum Halt {
    /// The action that was asked for failed.
    ActionFailed,
    /// A message of the batch could not be taken apart. What stood before it
    /// in the batch has been written; nothing was deleted.
    Unreadable(BadMessage),
    /// The event does not answer the action that was asked for.
    OutOfTurn,
}

pub enum HaltView {
    ActionFailed,
    Unreadable(BadMessageView),
    OutOfTurn,
}

impl View for Halt {
    type V = HaltView;

    open spec fn view(&self) -> HaltView {
        match self {
            Halt::ActionFailed => HaltView::ActionFailed,
            Halt::Unreadable(bad) => HaltView::Unreadable(bad@),
            Halt::OutOfTurn => HaltView::OutOfTurn,
        }
    }
}

/// What the driver is to do next.
#[derive(Debug, PartialEq, Eq)]
pub enum Action {
    /// Have the session flush its pending state.
    Refresh,
    /// List the identifiers of all messages in the mailbox.
    ListAll,
    /// Fetch, in one request, the full body of each message in `uidset`.
    Fetch { uidset: String },
    /// List the names of the entries of the output directory.
    ListDirectory,
    /// Write `content` to a new file `name` in the output directory.
    Write { name: String, content: Vec<u8> },
    /// Mark, in one request, each message in `uidset` as deleted.
    MarkDeleted { uidset: String },
    /// Remove the messages that are marked as deleted.
    Purge,
    /// Wait until mail arrives or the wait times out.
    AwaitMail,
    /// Stop.
    Halt(Halt),
}

pub enum ActionView {
    Refresh,
    ListAll,
    Fetch { uidset: Seq<char> },
    ListDirectory,
    Write { name: Seq<char>, content: Seq<u8> },
    MarkDeleted { uidset: Seq<char> },
    Purge,
    AwaitMail,
    Halt(HaltView),
}

impl View for Action {
    type V = ActionView;

    open spec fn view(&self) -> ActionView {
        match self {
            Action::Refresh => ActionView::Refresh,
            Action::ListAll => ActionView::ListAll,
            Action::Fetch { uidset } => ActionView::Fetch { uidset: uidset@ },
            Action::ListDirectory => ActionView::ListDirectory,
            Action::Write { name, content } => ActionView::Write { name: name@, content: content@ },
            Action::MarkDeleted { uidset } => ActionView::MarkDeleted { uidset: uidset@ },
            Action::Purge => ActionView::Purge,
            Action::AwaitMail => ActionView::AwaitMail,
            Action::Halt(why) => ActionView::Halt(why@),
        }
    }
}

/// What came of the last action.
#[derive(Debug)]
pub enum Event {
    /// The session has refreshed.
    Refreshed,
    /// The mailbox holds the messages with these identifiers.
    Listed(HashSet<u32>),
    /// The raw messages of the batch, as the server returned them.
    Fetched(Vec<Vec<u8>>),
    /// The names of the entries of the output directory.
    DirectoryListed(Vec<String>),
    /// The file was written.
    Written,
    /// The batch was marked as deleted.
    MarkedDeleted,
    /// The mailbox was purged.
    Purged,
    /// Mail has arrived, or the wait has timed out.
    MailArrived,
    /// The action failed.
    Failed,
}

pub enum EventView {
    Refreshed,
    Listed(Set<u32>),
    Fetched(Seq<Seq<u8>>),
    DirectoryListed(Seq<Seq<char>>),
    Written,
    MarkedDeleted,
    Purged,
    MailArrived,
    Failed,
}

/// The raw messages of a batch as sequences of bytes.
pub open spec fn message_views(messages: Seq<Vec<u8>>) -> Seq<Seq<u8>> {
    messages.map_values(|message: Vec<u8>| message@)
}

impl View for Event {
    type V = EventView;

    open spec fn view(&self) -> EventView {
        match self {
            Event::Refreshed => EventView::Refreshed,
            Event::Listed(uids) => EventView::Listed(uids@),
            Event::Fetched(messages) => EventView::Fetched(message_views(messages@)),
            Event::DirectoryListed(dir) => EventView::DirectoryListed(names_of(dir@)),
            Event::Written => EventView::Written,
            Event::MarkedDeleted => EventView::MarkedDeleted,
            Event::Purged => EventView::Purged,
            Event::MailArrived => EventView::MailArrived,
            Event::Failed => EventView::Failed,
        }
    }
}

/// What a batch of raw messages asks for: the attachments to write, in the
/// order of the messages, and the first message that could not be taken
/// apart, if any. Nothing of a message after that one is planned.
pub struct PlanView {
    pub writes: Seq<AttachmentView>,
    pub failure: Option<BadMessageView>,
}

pub open spec fn plan(messages: Seq<Seq<u8>>) -> PlanView
    decreases messages.len(),
{
    if messages.len() == 0 {
        PlanView { writes: Seq::empty(), failure: None }
    } else {
        let before = plan(messages.drop_last());
        if before.failure is Some {
            before
        } else {
            match extraction(messages.last()) {
                Ok(found) => PlanView { writes: before.writes + found, failure: None },
                Err(error) => PlanView {
                    writes: before.writes,
                    failure: Some(
                        BadMessageView { position: (messages.len() - 1) as nat, error },
                    ),
                },
            }
        }
    }
}

/// A failure among the first messages is the failure of the whole batch.
pub proof fn lemma_plan_failure_stays(messages: Seq<Seq<u8>>, upto: int)
    requires
        0 <= upto <= messages.len(),
        plan(messages.take(upto)).failure is Some,
    ensures
        plan(messages) == plan(messages.take(upto)),
    decreases messages.len() - upto,
{
    if upto < messages.len() {
        assert(messages.take(upto + 1).drop_last() =~= messages.take(upto));
        lemma_plan_failure_stays(messages, upto + 1);
    } else {
        assert(messages.take(upto) =~= messages);
    }
}

/// The view of a message that could not be taken apart, if there is one.
pub open spec fn failure_view(failure: Option<BadMessage>) -> Option<BadMessageView> {
    match failure {
        Some(bad) => Some(bad@),
        None => None,
    }
}

/// Takes every message of a batch apart, in order, and lists the
/// attachments to write. It stops at the first message that cannot be taken
/// apart and hands that one back too.
pub fn plan_writes(messages: &Vec<Vec<u8>>) -> (planned: (Vec<Attachment>, Option<BadMessage>))
    ensures
        attachment_views(planned.0@) == plan(message_views(messages@)).writes,
        failure_view(planned.1) == plan(message_views(messages@)).failure,
{
    let ghost batch = message_views(messages@);
    let mut writes: Vec<Attachment> = Vec::new();
    let mut i: usize = 0;
    assert(batch.take(0) =~= Seq::empty());
    assert(attachment_views(writes@) =~= Seq::empty());
    while i < messages.len()
        invariant
            i <= messages.len(),
            batch == message_views(messages@),
            plan(batch.take(i as int)) == (PlanView {
                writes: attachment_views(writes@),
                failure: None,
            }),
        decreases messages.len() - i,
    {
        proof {
            assert(batch.take(i + 1).drop_last() =~= batch.take(i as int));
            assert(batch.take(i + 1).last() == messages@[i as int]@);
        }
        match extract(messages[i].as_slice()) {
            Ok(set) => {
                let ghost before = attachment_views(writes@);
                let mut found = set.into_entries();
                let ghost added = attachment_views(found@);
                writes.append(&mut found);
                assert(attachment_views(writes@) =~= before + added);
            },
            Err(error) => {
                proof {
                    lemma_plan_failure_stays(batch, i + 1);
                }
                return (writes, Some(BadMessage { position: i, error }));
            },
        }
        i = i + 1;
    }
    assert(batch.take(i as int) =~= batch);
    (writes, None)
}

/// What the proofs remember of the cycle at hand. It is no part of the
/// running agent.
pub struct Ledger {
    /// The identifiers that the mailbox was last reported to hold.
    pub listed: Set<u32>,
    /// The raw messages of the batch, as they were fetched.
    pub batch: Seq<Seq<u8>>,
    /// The attachment whose write was asked for and is not yet confirmed.
    pub writing: Option<AttachmentView>,
    /// The attachments of the batch whose write was confirmed, in order.
    pub saved: Seq<AttachmentView>,
}

/// The state of the agent between two steps.
pub struct Cycle {
    phase: Phase,
    uidset: String,
    todo: Vec<Attachment>,
    failure: Option<BadMessage>,
    skipped: Vec<String>,
    ledger: Ghost<Ledger>,
}

pub struct CycleView {
    pub phase: Phase,
    /// The identifier set of the batch, as it was sent with the fetch.
    pub uidset: Seq<char>,
    /// The attachments of the batch that are still to be written.
    pub todo: Seq<AttachmentView>,
    /// The message of the batch that could not be taken apart, if any.
    pub failure: Option<BadMessageView>,
    /// The proposed names that were refused since the batch was fetched.
    pub skipped: Seq<Seq<char>>,
    pub ledger: Ledger,
}

impl View for Cycle {
    type V = CycleView;

    closed spec fn view(&self) -> CycleView {
        CycleView {
            phase: self.phase,
            uidset: self.uidset@,
            todo: attachment_views(self.todo@),
            failure: failure_view(self.failure),
            skipped: names_of(self.skipped@),
            ledger: self.ledger@,
        }
    }
}

/// The agent stops, for the reason `why`.
pub open spec fn halted(s: CycleView, why: HaltView) -> (CycleView, ActionView) {
    (CycleView { phase: Phase::Stopped, ..s }, ActionView::Halt(why))
}

/// Nothing is left to write: the batch is deleted, unless one of its
/// messages could not be taken apart.
pub open spec fn finish(s: CycleView) -> (CycleView, ActionView) {
    match s.failure {
        Some(bad) => (
            CycleView { phase: Phase::Stopped, failure: None, ..s },
            ActionView::Halt(HaltView::Unreadable(bad)),
        ),
        None => (
            CycleView { phase: Phase::Marking, ..s },
            ActionView::MarkDeleted { uidset: s.uidset },
        ),
    }
}

/// The next attachment is due, if one is left.
pub open spec fn proceed(s: CycleView) -> (CycleView, ActionView) {
    if s.todo.len() > 0 {
        (CycleView { phase: Phase::Resolving, ..s }, ActionView::ListDirectory)
    } else {
        finish(s)
    }
}

/// With the names `taken` in the output directory: the first attachment
/// whose proposed name is safe is written under a name that is not taken;
/// those before it are refused and skipped.
pub open spec fn resolve(s: CycleView, taken: Seq<Seq<char>>) -> (CycleView, ActionView)
    decreases s.todo.len(),
{
    if s.todo.len() == 0 {
        finish(s)
    } else {
        let first = s.todo[0];
        let rest = s.todo.drop_first();
        if safe_name(first.filename) {
            (
                CycleView {
                    phase: Phase::Writing,
                    todo: rest,
                    ledger: Ledger { writing: Some(first), ..s.ledger },
                    ..s
                },
                ActionView::Write {
                    name: unique_name(taken, first.filename),
                    content: first.content,
                },
            )
        } else {
            resolve(CycleView { todo: rest, skipped: s.skipped.push(first.filename), ..s }, taken)
        }
    }
}

/// The batch has come: its attachments are planned, and the ledger starts
/// anew.
pub open spec fn fetched(s: CycleView, messages: Seq<Seq<u8>>) -> CycleView {
    CycleView {
        todo: plan(messages).writes,
        failure: plan(messages).failure,
        skipped: Seq::empty(),
        ledger: Ledger { batch: messages, writing: None, saved: Seq::empty(), ..s.ledger },
        ..s
    }
}

/// The write that was asked for is confirmed.
pub open spec fn confirmed(s: CycleView) -> CycleView {
    match s.ledger.writing {
        Some(written) => CycleView {
            ledger: Ledger { writing: None, saved: s.ledger.saved.push(written), ..s.ledger },
            ..s
        },
        None => s,
    }
}

/// The mailbox was listed, and `uidset` is the text chosen for its
/// identifier set.
pub open spec fn listed(s: CycleView, uids: Set<u32>, uidset: Seq<char>) -> CycleView {
    CycleView { uidset, ledger: Ledger { listed: uids, ..s.ledger }, ..s }
}

/// Whether `uidset` may be the text chosen at this step: where the step
/// answers a listing, it writes out the set that was listed.
pub open spec fn chosen(s: CycleView, event: EventView, uidset: Seq<char>) -> bool {
    s.phase == Phase::Listing ==> (event matches EventView::Listed(uids) ==> serializes(uidset, uids))
}

/// The step that the machine takes from the state `s` on `event`. `uidset`
/// is the text chosen for the identifier set when the event is a listing;
/// no other step looks at it.
pub open spec fn step_spec(s: CycleView, event: EventView, uidset: Seq<char>) -> (
    CycleView,
    ActionView,
) {
    match (s.phase, event) {
        (_, EventView::Failed) => halted(s, HaltView::ActionFailed),
        (Phase::Refreshing, EventView::Refreshed) => (
            CycleView { phase: Phase::Listing, ..s },
            ActionView::ListAll,
        ),
        (Phase::Listing, EventView::Listed(uids)) => if uids.is_empty() {
            (CycleView { phase: Phase::Waiting, ..listed(s, uids, uidset) }, ActionView::AwaitMail)
        } else {
            (
                CycleView { phase: Phase::Fetching, ..listed(s, uids, uidset) },
                ActionView::Fetch { uidset },
            )
        },
        (Phase::Fetching, EventView::Fetched(messages)) => proceed(fetched(s, messages)),
        (Phase::Resolving, EventView::DirectoryListed(taken)) => resolve(s, taken),
        (Phase::Writing, EventView::Written) => proceed(confirmed(s)),
        (Phase::Marking, EventView::MarkedDeleted) => (
            CycleView { phase: Phase::Purging, ..s },
            ActionView::Purge,
        ),
        (Phase::Purging, EventView::Purged) => (
            CycleView { phase: Phase::Waiting, ..s },
            ActionView::AwaitMail,
        ),
        (Phase::Waiting, EventView::MailArrived) => (
            CycleView { phase: Phase::Refreshing, ..s },
            ActionView::Refresh,
        ),
        _ => halted(s, HaltView::OutOfTurn),
    }
}

/// The state in which the agent starts: nothing fetched, nothing to write,
/// and the first refresh asked for.
pub open spec fn initial() -> CycleView {
    CycleView {
        phase: Phase::Refreshing,
        uidset: Seq::empty(),
        todo: Seq::empty(),
        failure: None,
        skipped: Seq::empty(),
        ledger: Ledger {
            listed: Set::empty(),
            batch: Seq::empty(),
            writing: None,
            saved: Seq::empty(),
        },
    }
}

impl Cycle {
    /// Starts the agent: the first cycle begins with a refresh.
    pub fn begin() -> (start: (Cycle, Action))
        ensures
            start.0@ == initial(),
            start.1@ == ActionView::Refresh,
    {
        let cycle = Cycle {
            phase: Phase::Refreshing,
            uidset: String::new(),
            todo: Vec::new(),
            failure: None,
            skipped: Vec::new(),
            ledger: Ghost(initial().ledger),
        };
        assert(cycle@.todo =~= Seq::empty());
        assert(cycle@.skipped =~= Seq::empty());
        (cycle, Action::Refresh)
    }

    /// What the machine is waiting to hear of.
    pub fn phase(&self) -> (phase: Phase)
        ensures
            phase == self@.phase,
    {
        self.phase
    }

    /// The proposed names that were refused since the batch was fetched.
    pub fn skipped(&self) -> (names: &Vec<String>)
        ensures
            names_of(names@) == self@.skipped,
    {
        &self.skipped
    }

    fn halt(self, why: Halt) -> (out: (Cycle, Action))
        ensures
            (out.0@, out.1@) == halted(self@, why@),
    {
        (Cycle { phase: Phase::Stopped, ..self }, Action::Halt(why))
    }

    fn finish(self) -> (out: (Cycle, Action))
        ensures
            (out.0@, out.1@) == finish(self@),
    {
        let Cycle { phase: _, uidset, todo, failure, skipped, ledger } = self;
        match failure {
            Some(bad) => (
                Cycle { phase: Phase::Stopped, uidset, todo, failure: None, skipped, ledger },
                Action::Halt(Halt::Unreadable(bad)),
            ),
            None => {
                let copy = uidset.clone();
                (
                    Cycle { phase: Phase::Marking, uidset, todo, failure: None, skipped, ledger },
                    Action::MarkDeleted { uidset: copy },
                )
            },
        }
    }

    fn proceed(self) -> (out: (Cycle, Action))
        ensures
            (out.0@, out.1@) == proceed(self@),
    {
        if self.todo.len() > 0 {
            (Cycle { phase: Phase::Resolving, ..self }, Action::ListDirectory)
        } else {
            self.finish()
        }
    }

    fn resolve(self, dir: &Vec<String>) -> (out: (Cycle, Action))
        ensures
            (out.0@, out.1@) == resolve(self@, names_of(dir@)),
    {
        let ghost start = self@;
        let ghost taken = names_of(dir@);
        let Cycle { phase, uidset, mut todo, failure, mut skipped, ledger } = self;
        while todo.len() > 0
            invariant
                start == self@,
                taken == names_of(dir@),
                resolve(start, taken) == resolve(
                    CycleView {
                        phase,
                        uidset: uidset@,
                        todo: attachment_views(todo@),
                        failure: failure_view(failure),
                        skipped: names_of(skipped@),
                        ledger: ledger@,
                    },
                    taken,
                ),
            decreases todo.len(),
        {
            let ghost current = CycleView {
                phase,
                uidset: uidset@,
                todo: attachment_views(todo@),
                failure: failure_view(failure),
                skipped: names_of(skipped@),
                ledger: ledger@,
            };
            let first = todo.remove(0);
            assert(attachment_views(todo@) =~= current.todo.drop_first());
            assert(current.todo[0] == first@);
            match make_unique_file(dir, first.filename.as_str()) {
                Some(name) => {
                    let cycle = Cycle {
                        phase: Phase::Writing,
                        uidset,
                        todo,
                        failure,
                        skipped,
                        ledger: Ghost(Ledger { writing: Some(first@), ..ledger@ }),
                    };
                    return (cycle, Action::Write { name, content: first.content });
                },
                None => {
                    skipped.push(first.filename);
                    assert(names_of(skipped@) =~= current.skipped.push(first@.filename));
                },
            }
        }
        (Cycle { phase, uidset, todo, failure, skipped, ledger }).finish()
    }

    /// Takes one step: from what came of the last action to the next action.
    /// Each event is expected in one phase only, and an event out of turn
    /// stops the agent, as a failed action does; once stopped, it stays so.
    pub fn step(self, event: Event) -> (out: (Cycle, Action))
        ensures
            (out.0@, out.1@) == step_spec(self@, event@, out.0@.uidset),
            chosen(self@, event@, out.0@.uidset),
    {
        match event {
            Event::Failed => self.halt(Halt::ActionFailed),
            Event::Refreshed => match self.phase {
                Phase::Refreshing => (Cycle { phase: Phase::Listing, ..self }, Action::ListAll),
                _ => self.halt(Halt::OutOfTurn),
            },
            Event::Listed(uids) => match self.phase {
                Phase::Listing => {
                    let uidset = create_uidset(&uids);
                    let ledger = Ghost(Ledger { listed: uids@, ..self.ledger@ });
                    if uids.is_empty() {
                        (
                            Cycle { phase: Phase::Waiting, uidset, ledger, ..self },
                            Action::AwaitMail,
                        )
                    } else {
                        let copy = uidset.clone();
                        (
                            Cycle { phase: Phase::Fetching, uidset, ledger, ..self },
                            Action::Fetch { uidset: copy },
                        )
                    }
                },
                _ => self.halt(Halt::OutOfTurn),
            },
            Event::Fetched(messages) => match self.phase {
                Phase::Fetching => {
                    let (todo, failure) = plan_writes(&messages);
                    let cycle = Cycle {
                        todo,
                        failure,
                        skipped: Vec::new(),
                        ledger: Ghost(fetched(self@, message_views(messages@)).ledger),
                        ..self
                    };
                    assert(cycle@.skipped =~= Seq::empty());
                    cycle.proceed()
                },
                _ => self.halt(Halt::OutOfTurn),
            },
            Event::DirectoryListed(dir) => match self.phase {
                Phase::Resolving => self.resolve(&dir),
                _ => self.halt(Halt::OutOfTurn),
            },
            Event::Written => match self.phase {
                Phase::Writing => {
                    let cycle = Cycle { ledger: Ghost(confirmed(self@).ledger), ..self };
                    cycle.proceed()
                },
                _ => self.halt(Halt::OutOfTurn),
            },
            Event::MarkedDeleted => match self.phase {
                Phase::Marking => (Cycle { phase: Phase::Purging, ..self }, Action::Purge),
                _ => self.halt(Halt::OutOfTurn),
            },
            Event::Purged => match self.phase {
                Phase::Purging => (Cycle { phase: Phase::Waiting, ..self }, Action::AwaitMail),
                _ => self.halt(Halt::OutOfTurn),
            },
            Event::MailArrived => match self.phase {
                Phase::Waiting => (Cycle { phase: Phase::Refreshing, ..self }, Action::Refresh),
                _ => self.halt(Halt::OutOfTurn),
            },
        }
    }
}

} // verus!
