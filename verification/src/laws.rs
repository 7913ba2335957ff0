//! What holds of every run of the machine, whatever the driver reports:
//! a failure ends it, an empty mailbox ends the cycle at once, no write
//! replaces a file, and a batch is deleted only when all of it is saved.

use crate::attachments::AttachmentView;
use crate::cycle::{
    chosen, confirmed, fetched, finish, initial, plan, proceed, resolve, step_spec, ActionView,
    CycleView, EventView, HaltView, Phase,
};
use crate::naming::{
    candidate, lemma_candidate_is_safe, lemma_unique_name_is_first_free, safe_name, unique_name,
};
use crate::uidset::serializes;
use vstd::prelude::*;

verus! {

/// The state after the first `n` of `events`, from the state `s`; `uidsets`
/// holds, for each step, the text chosen should the step be a listing.
pub open spec fn state_after(
    s: CycleView,
    events: Seq<EventView>,
    uidsets: Seq<Seq<char>>,
    n: nat,
) -> CycleView
    decreases n,
{
    if n == 0 {
        s
    } else {
        step_spec(
            state_after(s, events, uidsets, (n - 1) as nat),
            events[n - 1],
            uidsets[n - 1],
        ).0
    }
}

/// The action that the machine asks for in answer to `events[n]`.
pub open spec fn action_at(
    s: CycleView,
    events: Seq<EventView>,
    uidsets: Seq<Seq<char>>,
    n: nat,
) -> ActionView {
    step_spec(state_after(s, events, uidsets, n), events[n as int], uidsets[n as int]).1
}

/// Whether, in the run from `s`, each of the first `n` steps chose its text
/// as the machine does: a listing is written out as the set that was listed.
pub open spec fn well_chosen(
    s: CycleView,
    events: Seq<EventView>,
    uidsets: Seq<Seq<char>>,
    n: nat,
) -> bool {
    forall|i: nat|
        i < n ==> chosen(#[trigger] state_after(s, events, uidsets, i), events[i as int], uidsets[i as int])
}

/// Of the planned attachments `planned`, those with a safe name, in order.
pub open spec fn safe_ones(planned: Seq<AttachmentView>) -> Seq<AttachmentView>
    decreases planned.len(),
{
    if planned.len() == 0 {
        Seq::empty()
    } else if safe_name(planned.last().filename) {
        safe_ones(planned.drop_last()).push(planned.last())
    } else {
        safe_ones(planned.drop_last())
    }
}

/// The names of those of `planned` whose name is not safe, in order.
pub open spec fn refused_names(planned: Seq<AttachmentView>) -> Seq<Seq<char>>
    decreases planned.len(),
{
    if planned.len() == 0 {
        Seq::empty()
    } else if safe_name(planned.last().filename) {
        refused_names(planned.drop_last())
    } else {
        refused_names(planned.drop_last()).push(planned.last().filename)
    }
}

/// How many of the planned attachments have been dealt with: written and
/// confirmed, or refused for their name.
pub open spec fn handled(s: CycleView) -> int {
    plan(s.ledger.batch).writes.len() - s.todo.len() - if s.ledger.writing is Some {
        1int
    } else {
        0int
    }
}

/// Whether the agent is at work on a batch that it has fetched.
pub open spec fn busy(s: CycleView) -> bool {
    s.phase == Phase::Resolving || s.phase == Phase::Writing
}

/// Whether the batch is on its way out of the mailbox.
pub open spec fn leaving(s: CycleView) -> bool {
    s.phase == Phase::Marking || s.phase == Phase::Purging
}

/// Whether the state agrees with its ledger. From the fetch on, the
/// identifier set is the listed set written out, and that set is not empty.
/// While the batch is worked on, what was planned for it is, in order, what
/// has been dealt with, what is being written, and what is still to do. And
/// the batch is only on its way out when nothing of it is left.
pub open spec fn consistent(s: CycleView) -> bool {
    let planned = plan(s.ledger.batch);
    &&& s.phase == Phase::Fetching || busy(s) || leaving(s) ==> {
        &&& serializes(s.uidset, s.ledger.listed)
        &&& !s.ledger.listed.is_empty()
    }
    &&& busy(s) || leaving(s) ==> {
        &&& 0 <= handled(s)
        &&& s.ledger.saved == safe_ones(planned.writes.take(handled(s)))
        &&& s.skipped == refused_names(planned.writes.take(handled(s)))
        &&& (s.ledger.writing is Some) == (s.phase == Phase::Writing)
        &&& s.ledger.writing matches Some(written) ==> {
            &&& written == planned.writes[handled(s)]
            &&& safe_name(written.filename)
            &&& s.todo == planned.writes.skip(handled(s) + 1)
        }
        &&& s.ledger.writing is None ==> s.todo == planned.writes.skip(handled(s))
        &&& busy(s) ==> s.failure == planned.failure
        &&& s.phase == Phase::Resolving ==> s.todo.len() > 0
        &&& leaving(s) ==> s.todo.len() == 0 && planned.failure is None
    }
}

/// Whether a state between two writes accounts for all of its batch so far.
spec fn accounted(s: CycleView) -> bool {
    &&& serializes(s.uidset, s.ledger.listed)
    &&& !s.ledger.listed.is_empty()
    &&& 0 <= handled(s)
    &&& s.ledger.writing is None
    &&& s.todo == plan(s.ledger.batch).writes.skip(handled(s))
    &&& s.failure == plan(s.ledger.batch).failure
    &&& s.ledger.saved == safe_ones(plan(s.ledger.batch).writes.take(handled(s)))
    &&& s.skipped == refused_names(plan(s.ledger.batch).writes.take(handled(s)))
}

proof fn lemma_finish_keeps_consistent(s: CycleView)
    requires
        accounted(s),
        s.todo.len() == 0,
    ensures
        consistent(finish(s).0),
{
    let planned = plan(s.ledger.batch);
    assert(planned.writes.skip(handled(s)) =~= s.todo);
}

proof fn lemma_proceed_keeps_consistent(s: CycleView)
    requires
        accounted(s),
    ensures
        consistent(proceed(s).0),
{
    if s.todo.len() == 0 {
        lemma_finish_keeps_consistent(s);
    }
}

proof fn lemma_resolve_keeps_consistent(s: CycleView, taken: Seq<Seq<char>>)
    requires
        accounted(s),
    ensures
        consistent(resolve(s, taken).0),
    decreases s.todo.len(),
{
    let writes = plan(s.ledger.batch).writes;
    if s.todo.len() == 0 {
        lemma_finish_keeps_consistent(s);
    } else {
        let first = s.todo[0];
        let rest = s.todo.drop_first();
        assert(first == writes[handled(s)]);
        assert(rest =~= writes.skip(handled(s) + 1));
        if safe_name(first.filename) {
            let next = resolve(s, taken).0;
            assert(handled(next) == handled(s));
        } else {
            let next = CycleView { todo: rest, skipped: s.skipped.push(first.filename), ..s };
            assert(handled(next) == handled(s) + 1);
            assert(writes.take(handled(next)).drop_last() =~= writes.take(handled(s)));
            assert(writes.take(handled(next)).last() == first);
            lemma_resolve_keeps_consistent(next, taken);
        }
    }
}

/// Every step keeps the state in agreement with its ledger.
pub proof fn lemma_step_keeps_consistent(s: CycleView, event: EventView, uidset: Seq<char>)
    requires
        consistent(s),
        chosen(s, event, uidset),
    ensures
        consistent(step_spec(s, event, uidset).0),
{
    let writes = plan(s.ledger.batch).writes;
    match (s.phase, event) {
        (_, EventView::Failed) => {},
        (Phase::Fetching, EventView::Fetched(messages)) => {
            let fresh = fetched(s, messages);
            assert(handled(fresh) == 0);
            assert(plan(messages).writes.skip(0) =~= plan(messages).writes);
            assert(plan(messages).writes.take(0) =~= Seq::empty());
            lemma_proceed_keeps_consistent(fresh);
        },
        (Phase::Resolving, EventView::DirectoryListed(taken)) => {
            lemma_resolve_keeps_consistent(s, taken);
        },
        (Phase::Writing, EventView::Written) => {
            let after = confirmed(s);
            assert(handled(after) == handled(s) + 1);
            assert(writes.take(handled(after)).drop_last() =~= writes.take(handled(s)));
            assert(writes.take(handled(after)).last() == s.ledger.writing->0);
            lemma_proceed_keeps_consistent(after);
        },
        _ => {},
    }
}

/// Every state that a run from the start can reach agrees with its ledger.
pub proof fn lemma_runs_are_consistent(events: Seq<EventView>, uidsets: Seq<Seq<char>>, n: nat)
    requires
        well_chosen(initial(), events, uidsets, n),
    ensures
        consistent(state_after(initial(), events, uidsets, n)),
    decreases n,
{
    if n > 0 {
        let before = state_after(initial(), events, uidsets, (n - 1) as nat);
        lemma_runs_are_consistent(events, uidsets, (n - 1) as nat);
        assert(chosen(before, events[n - 1], uidsets[n - 1]));
        lemma_step_keeps_consistent(before, events[n - 1], uidsets[n - 1]);
    }
}

/// What answering a directory listing can lead to: a write, the deletion of
/// the batch, or a halt over an unreadable message. The identifier set and
/// the batch stay as they are.
pub proof fn lemma_resolve_outcomes(s: CycleView, taken: Seq<Seq<char>>)
    ensures
        resolve(s, taken).0.uidset == s.uidset,
        resolve(s, taken).0.ledger.batch == s.ledger.batch,
        resolve(s, taken).0.ledger.listed == s.ledger.listed,
        match resolve(s, taken).1 {
            ActionView::Write { name, content } => resolve(s, taken).0.phase == Phase::Writing,
            ActionView::MarkDeleted { uidset } => resolve(s, taken).0.phase == Phase::Marking
                && uidset == s.uidset,
            ActionView::Halt(why) => resolve(s, taken).0.phase == Phase::Stopped
                && why is Unreadable,
            _ => false,
        },
    decreases s.todo.len(),
{
    if s.todo.len() > 0 && !safe_name(s.todo[0].filename) {
        lemma_resolve_outcomes(
            CycleView {
                todo: s.todo.drop_first(),
                skipped: s.skipped.push(s.todo[0].filename),
                ..s
            },
            taken,
        );
    }
}

/// A request to mark the batch as deleted comes only out of a state that
/// was at work on the batch, leads into the phase `Marking`, and names the
/// identifier set of that state.
pub proof fn lemma_mark_deleted_ends_work(s: CycleView, event: EventView, uidset: Seq<char>)
    requires
        step_spec(s, event, uidset).1 is MarkDeleted,
    ensures
        s.phase == Phase::Fetching || busy(s),
        step_spec(s, event, uidset).0.phase == Phase::Marking,
        step_spec(s, event, uidset).0.uidset == s.uidset,
        step_spec(s, event, uidset).1 == (ActionView::MarkDeleted { uidset: s.uidset }),
{
    match (s.phase, event) {
        (Phase::Resolving, EventView::DirectoryListed(taken)) => {
            lemma_resolve_outcomes(s, taken);
        },
        _ => {},
    }
}

/// Deletion is earned. Whenever a run from the start asks for a batch to be
/// marked as deleted, the request carries the identifier set that was last
/// listed, written out, which is the text that went with the fetch; every
/// message of the batch was taken apart; every attachment of the batch with
/// a safe name has been written and the write confirmed, in order; and the
/// only attachments that were not written are those whose name was refused.
pub proof fn lemma_deletion_is_earned(events: Seq<EventView>, uidsets: Seq<Seq<char>>, n: nat)
    requires
        n < events.len(),
        well_chosen(initial(), events, uidsets, n + 1),
        action_at(initial(), events, uidsets, n) is MarkDeleted,
    ensures
        ({
            let after = state_after(initial(), events, uidsets, n + 1);
            let planned = plan(after.ledger.batch);
            &&& action_at(initial(), events, uidsets, n) == (ActionView::MarkDeleted {
                uidset: after.uidset,
            })
            &&& serializes(after.uidset, after.ledger.listed)
            &&& planned.failure is None
            &&& after.ledger.saved == safe_ones(planned.writes)
            &&& after.skipped == refused_names(planned.writes)
            &&& after.todo.len() == 0
            &&& after.ledger.writing is None
        }),
{
    let before = state_after(initial(), events, uidsets, n);
    let after = state_after(initial(), events, uidsets, n + 1);
    assert(well_chosen(initial(), events, uidsets, n));
    lemma_runs_are_consistent(events, uidsets, n);
    lemma_runs_are_consistent(events, uidsets, n + 1);
    lemma_mark_deleted_ends_work(before, events[n as int], uidsets[n as int]);
    let writes = plan(after.ledger.batch).writes;
    assert(writes.take(handled(after)) =~= writes);
}

/// The fetch asks for the set that was just listed, which is not empty.
pub proof fn lemma_fetch_asks_for_the_listed_set(s: CycleView, event: EventView, uidset: Seq<char>)
    requires
        chosen(s, event, uidset),
        step_spec(s, event, uidset).1 is Fetch,
    ensures
        event matches EventView::Listed(uids) && !uids.is_empty() && serializes(uidset, uids)
            && step_spec(s, event, uidset).1 == (ActionView::Fetch { uidset })
            && step_spec(s, event, uidset).0.uidset == uidset,
{
    if let EventView::DirectoryListed(taken) = event {
        lemma_resolve_outcomes(s, taken);
    }
}

/// No write replaces a file, and none leaves the output directory: the name
/// of every write that answers a directory listing is safe, is not among the
/// names listed, and is the first free name for one of the attachments that
/// were still to do, whose bytes it carries.
pub proof fn lemma_write_is_new(s: CycleView, taken: Seq<Seq<char>>)
    ensures
        resolve(s, taken).1 matches ActionView::Write { name, content } ==> {
            &&& !taken.contains(name)
            &&& safe_name(name)
            &&& resolve(s, taken).0.ledger.writing matches Some(written)
            &&& s.todo.contains(written)
            &&& name == unique_name(taken, written.filename)
            &&& content == written.content
        },
    decreases s.todo.len(),
{
    if s.todo.len() > 0 {
        let first = s.todo[0];
        if safe_name(first.filename) {
            lemma_unique_name_is_first_free(taken, first.filename);
            let attempt = choose|attempt: nat|
                unique_name(taken, first.filename) == #[trigger] candidate(first.filename, attempt);
            lemma_candidate_is_safe(first.filename, attempt);
        } else {
            let next = CycleView {
                todo: s.todo.drop_first(),
                skipped: s.skipped.push(first.filename),
                ..s
            };
            lemma_write_is_new(next, taken);
            if let ActionView::Write { name, content } = resolve(s, taken).1 {
                let written = resolve(s, taken).0.ledger.writing->0;
                let at = choose|i: int| 0 <= i < next.todo.len() && next.todo[i] == written;
                assert(s.todo[at + 1] == written);
            }
        }
    }
}

/// A write is asked for only in answer to a directory listing.
pub proof fn lemma_write_answers_listing(s: CycleView, event: EventView, uidset: Seq<char>)
    requires
        step_spec(s, event, uidset).1 is Write,
    ensures
        s.phase == Phase::Resolving,
        event matches EventView::DirectoryListed(taken) && step_spec(s, event, uidset) == resolve(
            s,
            taken,
        ),
{
}

/// An empty mailbox ends the cycle at once: the answer to an empty listing
/// is to wait for mail, with nothing fetched, written, deleted or purged.
pub proof fn lemma_empty_mailbox_short_circuits(s: CycleView, uidset: Seq<char>)
    requires
        s.phase == Phase::Listing,
    ensures
        step_spec(s, EventView::Listed(Set::empty()), uidset).1 == ActionView::AwaitMail,
        step_spec(s, EventView::Listed(Set::empty()), uidset).0.phase == Phase::Waiting,
{
}

/// Out of the wait between two cycles only a new cycle or a halt can come.
pub proof fn lemma_waiting_leads_to_refresh(s: CycleView, event: EventView, uidset: Seq<char>)
    requires
        s.phase == Phase::Waiting,
    ensures
        step_spec(s, event, uidset).1 == ActionView::Refresh || step_spec(s, event, uidset).1 is Halt,
{
}

/// In any run, the answer to an empty listing is to wait, and the answer to
/// whatever is reported next is the refresh that opens the next cycle, or
/// a halt: between the empty listing and the next cycle the agent asks for
/// no fetch, no write, no deletion and no purge.
pub proof fn lemma_nothing_follows_an_empty_listing(
    s: CycleView,
    events: Seq<EventView>,
    uidsets: Seq<Seq<char>>,
    n: nat,
)
    requires
        n < events.len(),
        state_after(s, events, uidsets, n).phase == Phase::Listing,
        events[n as int] == EventView::Listed(Set::<u32>::empty()),
    ensures
        action_at(s, events, uidsets, n) == ActionView::AwaitMail,
        n + 1 < events.len() ==> action_at(s, events, uidsets, n + 1) == ActionView::Refresh
            || action_at(s, events, uidsets, n + 1) is Halt,
{
    let listing = state_after(s, events, uidsets, n);
    lemma_empty_mailbox_short_circuits(listing, uidsets[n as int]);
    if n + 1 < events.len() {
        let waiting = state_after(s, events, uidsets, n + 1);
        lemma_waiting_leads_to_refresh(waiting, events[n as int + 1], uidsets[n as int + 1]);
    }
}

/// A failed action stops the agent, whatever it was doing.
pub proof fn lemma_failure_stops(s: CycleView, uidset: Seq<char>)
    ensures
        step_spec(s, EventView::Failed, uidset).0.phase == Phase::Stopped,
        step_spec(s, EventView::Failed, uidset).1 == ActionView::Halt(HaltView::ActionFailed),
{
}

/// Once stopped, the agent stays stopped and asks for nothing more.
pub proof fn lemma_stopped_is_final(
    s: CycleView,
    events: Seq<EventView>,
    uidsets: Seq<Seq<char>>,
    n: nat,
)
    requires
        s.phase == Phase::Stopped,
    ensures
        state_after(s, events, uidsets, n).phase == Phase::Stopped,
        action_at(s, events, uidsets, n) is Halt,
    decreases n,
{
    if n > 0 {
        lemma_stopped_is_final(s, events, uidsets, (n - 1) as nat);
    }
}

proof fn lemma_states_after_failure(
    s: CycleView,
    events: Seq<EventView>,
    uidsets: Seq<Seq<char>>,
    failed_at: nat,
    later: nat,
)
    requires
        failed_at < later <= events.len(),
        events[failed_at as int] == EventView::Failed,
    ensures
        state_after(s, events, uidsets, later).phase == Phase::Stopped,
    decreases later,
{
    if later > failed_at + 1 {
        lemma_states_after_failure(s, events, uidsets, failed_at, (later - 1) as nat);
    }
}

/// All or nothing: after an action has failed, be it a write, a fetch or
/// any other, no run ever asks for anything again. In particular the batch
/// is neither marked as deleted nor purged, and what was written stays.
pub proof fn lemma_no_deletion_after_failure(
    s: CycleView,
    events: Seq<EventView>,
    uidsets: Seq<Seq<char>>,
    failed_at: nat,
    later: nat,
)
    requires
        failed_at <= later < events.len(),
        events[failed_at as int] == EventView::Failed,
    ensures
        action_at(s, events, uidsets, later) is Halt,
{
    if later > failed_at {
        lemma_states_after_failure(s, events, uidsets, failed_at, later);
    }
}

} // verus!
