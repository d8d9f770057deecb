//! What the change feed keeps, hands out, and lets go.

use crate::changes::{ChangeOrigin, GenerationModel};
use crate::feed::{
    commits_of, committed_event, event_with_id, has_id, has_watermark, later, page_events, placed,
    reads, reconcile_one, ChangeFeed, ChangeFeedTransferIntent, EventModel, FeedState, JournalModel,
    RuntimeChangeEventPage, MAX_PAGE_ITEMS, MAX_UNACKED_EVENTS,
};
use crate::provider_error::{FaultModel, ProviderError};
use crate::resolutions::{ExecutionOutcome, RuntimeResolution};
use vstd::prelude::*;

verus! {

// ---------------------------------------------------------------------------
// Journals
// ---------------------------------------------------------------------------
/// A journal below the last watermark is sound exactly where it is of the first version,
/// acknowledges and counts as a baseline no more than its head, and holds one event for
/// each watermark after the acknowledged one up to the head, in order.
pub proof fn lemma_sound_journals(journal: JournalModel)
    requires
        journal.head < u64::MAX,
    ensures
        journal.sound() <==> {
            &&& journal.version == 1
            &&& journal.acknowledged_through <= journal.head
            &&& journal.baseline_through is Some ==> journal.baseline_through->0 <= journal.head
            &&& journal.events.len() == journal.head - journal.acknowledged_through
            &&& forall|i: int|
                0 <= i < journal.events.len() ==> (#[trigger] journal.events[i]).watermark
                    == journal.acknowledged_through + 1 + i
        },
{
    if journal.sound() {
        crate::feed::lemma_sound_journal_is_contiguous(journal);
    }
    if journal.events.len() > 0 {
        assert(journal.events.last() == journal.events[journal.events.len() - 1]);
    }
}

/// A feed may use a journal exactly where it is its owner's of the present epoch and the
/// journal is sound.
pub proof fn lemma_feeds_are_checked(journal: JournalModel, feed: ChangeFeed)
    ensures
        journal.refusal(feed) is None <==> journal.owner == Some(feed.owner@)
            && journal.fencing_epoch == feed.fencing_epoch && journal.sound(),
        journal.owner != Some(feed.owner@) || journal.fencing_epoch != feed.fencing_epoch
            ==> journal.refusal(feed) == Some(FaultModel::Other(ProviderError::ChangeFeedFenced)),
{
}

/// Whether two journals hold the same events and positions.
pub open spec fn same_events(left: JournalModel, right: JournalModel) -> bool {
    &&& left.events == right.events
    &&& left.head == right.head
    &&& left.acknowledged_through == right.acknowledged_through
    &&& left.baseline_through == right.baseline_through
    &&& left.version == right.version
}

/// Opening a sound journal succeeds exactly where nobody else owns it and an epoch is
/// left; the opener then owns it in a later epoch, and the events are untouched.
pub proof fn lemma_opening_takes_ownership(journal: JournalModel, owner: Seq<char>)
    requires
        journal.sound(),
    ensures
        journal.after_open(owner) is Ok <==> (journal.owner is None || journal.owner->0 == owner)
            && journal.fencing_epoch != u64::MAX,
        match journal.after_open(owner) {
            Ok(after) => {
                &&& after.owner == Some(owner)
                &&& after.fencing_epoch == journal.fencing_epoch + 1
                &&& same_events(journal, after)
                &&& after.pending_transfer == journal.pending_transfer
            },
            Err(fault) => journal.owner is Some && journal.owner->0 != owner ==> fault
                == FaultModel::Other(ProviderError::ChangeFeedOwned),
        },
{
}

/// The owner of a sound journal may acknowledge up to its head. What is acknowledged
/// never goes back, and just the events after it stay, in their order.
pub proof fn lemma_acknowledging_drops_what_was_seen(
    journal: JournalModel,
    feed: ChangeFeed,
    through: int,
)
    requires
        journal.sound(),
        journal.head < u64::MAX,
        0 <= through,
    ensures
        journal.after_ack(feed, through) is Ok <==> journal.owner == Some(feed.owner@)
            && journal.fencing_epoch == feed.fencing_epoch && through <= journal.head,
        match journal.after_ack(feed, through) {
            Ok(after) => {
                let kept = if through > journal.acknowledged_through {
                    through
                } else {
                    journal.acknowledged_through
                };
                &&& after.acknowledged_through == kept
                &&& after.head == journal.head
                &&& after.owner == journal.owner
                &&& after.fencing_epoch == journal.fencing_epoch
                &&& after.events == journal.events.skip(kept - journal.acknowledged_through)
                &&& forall|i: int|
                    0 <= i < after.events.len() ==> (#[trigger] after.events[i]).watermark > kept
            },
            Err(fault) => journal.refusal(feed) is None ==> fault == FaultModel::Other(
                ProviderError::InvalidChangeFeedAck,
            ),
        },
{
    if through <= journal.head && through > journal.acknowledged_through {
        crate::feed::lemma_acknowledgement_keeps_the_rest(journal, through);
    }
    lemma_sound_journals(journal);
    assert(journal.events.skip(0) =~= journal.events);
}

/// Committing a baseline acknowledges everything: no event is left, and the head stays.
pub proof fn lemma_baselines_start_at_the_head(journal: JournalModel)
    ensures
        ({
            let after = journal.with_baseline();
            &&& after.baseline_through == Some(journal.head)
            &&& after.acknowledged_through == journal.head
            &&& after.events.len() == 0
            &&& after.head == journal.head
            &&& after.owner == journal.owner
            &&& after.fencing_epoch == journal.fencing_epoch
        }),
        journal.baseline() == (
            journal.fencing_epoch,
            if journal.baseline_through is Some {
                journal.baseline_through->0
            } else {
                journal.head
            },
            journal.head,
        ),
{
}

/// A committed mutation that a sound journal takes in is its last event, at the
/// watermark after the head, under its own identity and commit; nothing else changes.
/// One that is known already changes nothing.
pub proof fn lemma_known_mutations_are_appended(journal: JournalModel, outcome: ExecutionOutcome)
    requires
        journal.after_known(outcome) is Ok,
    ensures
        ({
            let after = journal.after_known(outcome)->Ok_0;
            &&& outcome.change_event is Some
            &&& outcome.commit_id is Some
            &&& outcome.changes is Exact
            &&& has_id(after.events, outcome.change_event->0.id@)
            &&& has_id(journal.events, outcome.change_event->0.id@) ==> after == journal
            &&& !has_id(journal.events, outcome.change_event->0.id@) ==> {
                &&& after.events.len() == journal.events.len() + 1
                &&& after.events.drop_last() == journal.events
                &&& after.head == journal.head + 1 || journal.head == u64::MAX
                &&& after.head == outcome.change_event->0.watermark
                &&& after.events.last().watermark == outcome.change_event->0.watermark
                &&& after.events.last().id == outcome.change_event->0.id@
                &&& after.events.last().commit_id == Some(outcome.commit_id->0@)
                &&& after.events.last().changes == outcome.changes@
                &&& after.events.last().generation == outcome.generation@
                &&& after.events.last().origin == ChangeOrigin::KnownMutation
                &&& after.acknowledged_through == journal.acknowledged_through
                &&& after.owner == journal.owner
                &&& after.fencing_epoch == journal.fencing_epoch
            }
        }),
{
    let id = outcome.change_event->0.id@;
    let after = journal.after_known(outcome)->Ok_0;
    lemma_event_with_id(journal.events, id);
    lemma_event_with_id(after.events, id);
    if !has_id(journal.events, id) {
        assert(after.events.drop_last() =~= journal.events);
        assert(after.events[after.events.len() - 1].id == id);
    }
}

/// An observed change that a sound journal takes in is its last event, at the watermark
/// after the head and without a commit; an observation of no change leaves the journal.
pub proof fn lemma_observed_changes_are_appended(journal: JournalModel, event: EventModel)
    requires
        journal.after_external(event) is Ok,
    ensures
        ({
            let after = journal.after_external(event)->Ok_0;
            &&& event.changes is Nothing ==> after == journal
            &&& !(event.changes is Nothing) ==> {
                &&& after.events.len() == journal.events.len() + 1
                &&& after.events.drop_last() == journal.events
                &&& after.head == journal.head + 1 || journal.head == u64::MAX
                &&& after.head == event.watermark
                &&& after.events.last().watermark == event.watermark
                &&& after.events.last().id == event.id
                &&& after.events.last().commit_id is None
                &&& after.events.last().generation == event.generation
                &&& journal.events.len() < MAX_UNACKED_EVENTS - 1 ==> after.events.last().changes
                    == event.changes
                &&& journal.events.len() >= MAX_UNACKED_EVENTS - 1
                    ==> !(after.events.last().changes is Exact)
                &&& after.acknowledged_through == journal.acknowledged_through
            }
        }),
{
    if !(event.changes is Nothing) {
        assert(journal.after_external(event)->Ok_0.events.drop_last() =~= journal.events);
    }
}

/// No event is ever dropped for room: a full journal refuses a further one.
pub proof fn lemma_full_journals_refuse(
    journal: JournalModel,
    outcome: ExecutionOutcome,
    event: EventModel,
)
    ensures
        journal.events.len() >= MAX_UNACKED_EVENTS ==> journal.after_external(event) is Err,
        journal.events.len() >= MAX_UNACKED_EVENTS - 1 && outcome.change_event is Some && !has_id(
            journal.events,
            outcome.change_event->0.id@,
        ) ==> journal.after_known(outcome) is Err,
        journal.head < u64::MAX && event.watermark != journal.head + 1 ==> journal.after_external(
            event,
        ) is Err,
        journal.head < u64::MAX && outcome.change_event is Some && !has_id(
            journal.events,
            outcome.change_event->0.id@,
        ) && outcome.change_event->0.watermark != journal.head + 1 ==> journal.after_known(outcome)
            is Err,
{
    if outcome.change_event is Some {
        lemma_event_with_id(journal.events, outcome.change_event->0.id@);
    }
}

/// Searching events by their identity finds one exactly where there is one.
pub proof fn lemma_event_with_id(events: Seq<EventModel>, id: Seq<char>)
    ensures
        event_with_id(events, id) is Some <==> has_id(events, id),
        event_with_id(events, id) is Some ==> events.contains(event_with_id(events, id)->0)
            && event_with_id(events, id)->0.id == id,
    decreases events.len(),
{
    if events.len() > 0 {
        if events[0].id != id {
            let rest = events.drop_first();
            lemma_event_with_id(rest, id);
            if has_id(rest, id) {
                let i = choose|i: int| 0 <= i < rest.len() && (#[trigger] rest[i]).id == id;
                assert(events[i + 1].id == id);
                let k = choose|k: int| 0 <= k < rest.len() && rest[k] == event_with_id(rest, id)->0;
                assert(events[k + 1] == rest[k]);
            }
            if has_id(events, id) {
                let i = choose|i: int| 0 <= i < events.len() && (#[trigger] events[i]).id == id;
                assert(rest[i - 1].id == id);
            }
        } else {
            assert(events[0].id == id);
        }
    }
}

// ---------------------------------------------------------------------------
// Transfers
// ---------------------------------------------------------------------------
/// A transfer that was not made before is made exactly where none is pending, the
/// present owner and the acknowledged position are those that it names, and an epoch is
/// left. The next owner then holds the journal in a later epoch with the same events.
pub proof fn lemma_transfers_hand_over(journal: JournalModel, intent: ChangeFeedTransferIntent)
    requires
        journal.sound(),
        !(journal.pending_transfer is Some && journal.owner == Some(intent.next@)),
    ensures
        journal.after_transfer(intent) is Ok <==> journal.pending_transfer is None && journal.owner
            == Some(intent.current@) && journal.acknowledged_through
            == intent.expected_acked_through && journal.fencing_epoch != u64::MAX,
        match journal.after_transfer(intent) {
            Ok(after) => {
                &&& after.owner == Some(intent.next@)
                &&& after.fencing_epoch == journal.fencing_epoch + 1
                &&& same_events(journal, after)
                &&& after.pending_transfer is Some
                &&& after.pending_transfer->0.id == intent.id@
                &&& after.pending_transfer->0.current == intent.current@
                &&& after.pending_transfer->0.next == intent.next@
                &&& after.pending_transfer->0.fencing_epoch == after.fencing_epoch
            },
            Err(_) => true,
        },
{
}

/// Acknowledging the pending transfer clears it and is remembered; acknowledging any
/// other is refused, unless it was the last one acknowledged.
pub proof fn lemma_transfers_are_acknowledged(journal: JournalModel, id: Seq<char>)
    requires
        journal.sound(),
    ensures
        journal.after_transfer_ack(id) is Ok <==> (journal.pending_transfer is Some
            && journal.pending_transfer->0.id == id) || journal.last_acknowledged_transfer_id
            == Some(id),
        match journal.after_transfer_ack(id) {
            Ok(after) => {
                &&& same_events(journal, after)
                &&& after.owner == journal.owner
                &&& after.fencing_epoch == journal.fencing_epoch
                &&& after.last_acknowledged_transfer_id == Some(id)
                &&& journal.pending_transfer is Some && journal.pending_transfer->0.id == id
                    ==> after.pending_transfer is None
                &&& journal.pending_transfer is Some && journal.pending_transfer->0.id != id
                    ==> after.pending_transfer == journal.pending_transfer
            },
            Err(fault) => fault == FaultModel::Other(ProviderError::ChangeFeedTransferMismatch),
        },
{
}

// ---------------------------------------------------------------------------
// Reading
// ---------------------------------------------------------------------------
/// What the events after a position are: those with a later watermark.
pub proof fn lemma_later_events_are_later(events: Seq<EventModel>, after: int, event: EventModel)
    ensures
        later(events, after).contains(event) <==> events.contains(event) && event.watermark
            > after,
    decreases events.len(),
{
    if events.len() > 0 {
        let front = events.drop_last();
        lemma_later_events_are_later(front, after, event);
        lemma_contained_after_push(front, events.last(), event);
        assert(front.push(events.last()) =~= events);
        lemma_contained_after_push(later(front, after), events.last(), event);
    }
}

proof fn lemma_contained_after_push<A>(values: Seq<A>, last: A, value: A)
    ensures
        values.push(last).contains(value) <==> values.contains(value) || value == last,
{
    let all = values.push(last);
    if values.contains(value) {
        let i = choose|i: int| 0 <= i < values.len() && values[i] == value;
        assert(all[i] == value);
    }
    if value == last {
        assert(all[values.len() as int] == value);
    }
    if all.contains(value) {
        let i = choose|i: int| 0 <= i < all.len() && all[i] == value;
        if i < values.len() {
            assert(values[i] == value);
        }
    }
}

/// The commits that an acknowledgement settles: those of the events up to it.
pub proof fn lemma_settled_commits(events: Seq<EventModel>, through: int, commit: Seq<char>)
    ensures
        commits_of(events, through).contains(commit) <==> exists|i: int|
            0 <= i < events.len() && (#[trigger] events[i]).watermark <= through
                && events[i].commit_id == Some(commit),
    decreases events.len(),
{
    if events.len() > 0 {
        let front = events.drop_last();
        lemma_settled_commits(front, through, commit);
        if events.last().commit_id is Some {
            lemma_contained_after_push(
                commits_of(front, through),
                events.last().commit_id->0,
                commit,
            );
        }
        if exists|i: int|
            0 <= i < front.len() && (#[trigger] front[i]).watermark <= through
                && front[i].commit_id == Some(commit) {
            let i = choose|i: int|
                0 <= i < front.len() && (#[trigger] front[i]).watermark <= through
                    && front[i].commit_id == Some(commit);
            assert(events[i] == front[i]);
        }
        if exists|i: int|
            0 <= i < events.len() && (#[trigger] events[i]).watermark <= through
                && events[i].commit_id == Some(commit) {
            let i = choose|i: int|
                0 <= i < events.len() && (#[trigger] events[i]).watermark <= through
                    && events[i].commit_id == Some(commit);
            if i < front.len() {
                assert(front[i] == events[i]);
            }
        }
        assert(events[events.len() - 1] == events.last());
    }
}

/// A page is read by the owner alone, from a position that is still kept. It holds at
/// most as many events as asked for and as a page may hold, starts with the next event,
/// leaves none out, and names its last event as the place to go on from exactly where
/// events follow.
pub proof fn lemma_pages_follow_the_position(
    result: Result<RuntimeChangeEventPage, ProviderError>,
    journal: JournalModel,
    feed: ChangeFeed,
    after: Option<u64>,
    limit: usize,
)
    requires
        reads(result, journal, feed, after, limit),
        journal.head < u64::MAX,
        limit > 0,
    ensures
        ({
            let start = if after is Some {
                after->0 as int
            } else {
                journal.acknowledged_through
            };
            &&& result is Ok <==> journal.owner == Some(feed.owner@) && journal.fencing_epoch
                == feed.fencing_epoch && journal.sound() && start >= journal.acknowledged_through
            &&& result is Ok ==> {
                let page = result->Ok_0;
                &&& page.feed_head == journal.head
                &&& page.events@.len() <= limit
                &&& page.events@.len() <= MAX_PAGE_ITEMS
                &&& start >= journal.head ==> page.events@.len() == 0 && page.next is None
                &&& start < journal.head ==> page.events@.len() > 0
                &&& forall|i: int|
                    0 <= i < page.events@.len() ==> (#[trigger] page.events@[i])@.watermark
                        == start + 1 + i && page.events@[i]@ == journal.events[start + i
                        - journal.acknowledged_through]
                &&& page.next is Some <==> start + page.events@.len() < journal.head
                    && page.events@.len() > 0
                &&& page.next is Some ==> page.next->0 == start + page.events@.len()
            }
        }),
{
    let start = if after is Some {
        after->0 as int
    } else {
        journal.acknowledged_through
    };
    if result is Ok {
        let page = result->Ok_0;
        let events = page_events(journal, start, limit as int);
        lemma_sound_journals(journal);
        assert(crate::feed::event_models(page.events@) == events);
        assert(page.events@.len() == events.len());
        if start < journal.head {
            crate::feed::lemma_pages_have_no_gaps(journal, start, limit as int);
            assert(events.last() == events[events.len() - 1]);
            assert forall|i: int| 0 <= i < page.events@.len() implies (
            #[trigger] page.events@[i])@.watermark == start + 1 + i && page.events@[i]@
                == journal.events[start + i - journal.acknowledged_through] by {
                assert(crate::feed::event_models(page.events@)[i] == page.events@[i]@);
                assert(events[i].watermark == start + 1 + i);
                let all = later(journal.events, start);
                assert(events[i] == all[i]);
                lemma_later_events_are_later(journal.events, start, all[i]);
                assert(all.contains(all[i]));
                let k = choose|k: int| 0 <= k < journal.events.len() && journal.events[k] == all[i];
                assert(journal.events[k].watermark == journal.acknowledged_through + 1 + k);
            }
        }
    }
}

/// Placing an event puts it among the others without changing them, behind all that have
/// no later watermark: ascending watermarks stay ascending.
pub proof fn lemma_placed_events_stay_in_order(events: Seq<EventModel>, event: EventModel)
    requires
        forall|i: int, j: int|
            #![trigger events[i], events[j]]
            0 <= i <= j < events.len() ==> events[i].watermark <= events[j].watermark,
    ensures
        exists|at: int|
            0 <= at <= events.len() && #[trigger] events.insert(at, event) == placed(
                events,
                event,
            ) && (forall|k: int|
                0 <= k < at ==> (#[trigger] events[k]).watermark <= event.watermark) && (forall|k: int|
                at <= k < events.len() ==> (#[trigger] events[k]).watermark > event.watermark),
    decreases events.len(),
{
    if events.len() == 0 || events.last().watermark <= event.watermark {
        let at = events.len() as int;
        assert(events.insert(at, event) =~= events.push(event));
        assert forall|k: int| 0 <= k < at implies (#[trigger] events[k]).watermark
            <= event.watermark by {
            assert(events[k].watermark <= events[events.len() - 1].watermark);
        }
    } else {
        let front = events.drop_last();
        assert forall|i: int, j: int|
            #![trigger front[i], front[j]]
            0 <= i <= j < front.len() implies front[i].watermark <= front[j].watermark by {
            assert(events[i].watermark <= events[j].watermark);
        }
        lemma_placed_events_stay_in_order(front, event);
        let at = choose|at: int|
            0 <= at <= front.len() && #[trigger] front.insert(at, event) == placed(front, event)
                && (forall|k: int|
                0 <= k < at ==> (#[trigger] front[k]).watermark <= event.watermark) && (forall|
                k: int,
            |
                at <= k < front.len() ==> (#[trigger] front[k]).watermark > event.watermark);
        assert(events.insert(at, event) =~= front.insert(at, event).push(events.last()));
        assert forall|k: int| 0 <= k < at implies (#[trigger] events[k]).watermark
            <= event.watermark by {
            assert(front[k] == events[k]);
        }
        assert forall|k: int| at <= k < events.len() implies (#[trigger] events[k]).watermark
            > event.watermark by {
            if k < front.len() {
                assert(front[k] == events[k]);
            }
        }
    }
}

// ---------------------------------------------------------------------------
// Recovery
// ---------------------------------------------------------------------------
/// Recovering a committed mutation that the journal does not know adds its event, as a
/// recovery, and moves the head to it where it is later; a mutation that is known, or
/// was not committed, changes nothing.
pub proof fn lemma_recovered_mutations_are_added(state: FeedState, resolution: RuntimeResolution)
    requires
        reconcile_one(state, resolution) is Ok,
    ensures
        ({
            let after = reconcile_one(state, resolution)->Ok_0;
            match resolution {
                RuntimeResolution::Committed(mutation) => {
                    let known = has_id(state.journal.events, mutation.event_id@);
                    &&& has_id(after.journal.events, mutation.event_id@)
                    &&& known ==> after == state
                    &&& !known ==> {
                        &&& after.changed
                        &&& after.journal.events.len() == state.journal.events.len() + 1
                        &&& after.journal.head >= state.journal.head
                        &&& after.journal.head >= mutation.watermark
                        &&& after.journal.head == state.journal.head || after.journal.head
                            == mutation.watermark
                        &&& !has_watermark(state.journal.events, mutation.watermark as int)
                        &&& after.journal.acknowledged_through
                            == state.journal.acknowledged_through
                        &&& after.generation.sequence >= state.generation.sequence
                        &&& after.generation.runtime_epoch == state.generation.runtime_epoch
                    }
                },
                _ => after == state,
            }
        }),
{
    if let RuntimeResolution::Committed(mutation) = resolution {
        if !has_id(state.journal.events, mutation.event_id@) {
            let generation = state.generation.advanced(mutation.generation@);
            lemma_placed_holds(
                state.journal.events,
                committed_event(mutation, generation, ChangeOrigin::RecoveryReconciliation),
            );
        }
    }
}

proof fn lemma_placed_holds(events: Seq<EventModel>, event: EventModel)
    ensures
        placed(events, event).len() == events.len() + 1,
        has_id(placed(events, event), event.id),
    decreases events.len(),
{
    let all = placed(events, event);
    if events.len() == 0 || events.last().watermark <= event.watermark {
        assert(all[events.len() as int].id == event.id);
    } else {
        let rest = placed(events.drop_last(), event);
        lemma_placed_holds(events.drop_last(), event);
        let i = choose|i: int| 0 <= i < rest.len() && (#[trigger] rest[i]).id == event.id;
        assert(all[i].id == event.id);
    }
}

/// A committed generation of the same epoch is taken over where it is later, and one of
/// another epoch counts as the next; a generation never goes back nor changes its epoch.
pub proof fn lemma_generations_never_go_back(
    generation: GenerationModel,
    committed: GenerationModel,
)
    ensures
        ({
            let after = generation.advanced(committed);
            &&& after.sequence >= generation.sequence
            &&& after.runtime_epoch == generation.runtime_epoch
            &&& committed.runtime_epoch == generation.runtime_epoch ==> {
                &&& after.sequence >= committed.sequence
                &&& after.sequence == generation.sequence || after.sequence == committed.sequence
            }
            &&& committed.runtime_epoch != generation.runtime_epoch ==> after.sequence
                == generation.sequence + 1
        }),
{
}

/// A committed mutation with its identity, its commit and exact changes is taken in by a
/// sound journal that has room, where it comes at the next watermark under a new identity.
pub proof fn lemma_next_mutations_are_taken_in(journal: JournalModel, outcome: ExecutionOutcome)
    requires
        journal.sound(),
        journal.head < u64::MAX,
        journal.events.len() < MAX_UNACKED_EVENTS - 1,
        outcome.change_event is Some,
        outcome.commit_id is Some,
        outcome.changes is Exact,
        outcome.change_event->0.watermark == journal.head + 1,
        !has_id(journal.events, outcome.change_event->0.id@),
    ensures
        journal.after_known(outcome) is Ok,
{
    let identity = outcome.change_event->0;
    lemma_event_with_id(journal.events, identity.id@);
    let event = EventModel {
        id: identity.id@,
        watermark: identity.watermark as int,
        generation: outcome.generation@,
        changes: outcome.changes@,
        origin: ChangeOrigin::KnownMutation,
        commit_id: Some((outcome.commit_id->0)@),
    };
    crate::feed::lemma_next_event_is_accepted(journal, event);
}

/// An observed change is taken in by a sound journal that has room, where it comes at the
/// next watermark.
pub proof fn lemma_next_observations_are_taken_in(journal: JournalModel, event: EventModel)
    requires
        journal.sound(),
        journal.head < u64::MAX,
        journal.events.len() < MAX_UNACKED_EVENTS,
        event.watermark == journal.head + 1,
    ensures
        journal.after_external(event) is Ok,
{
    let kept = EventModel {
        changes: crate::feed::retained_changes(event.changes, journal.events.len() as int),
        commit_id: None,
        ..event
    };
    crate::feed::lemma_next_event_is_accepted(journal, kept);
}

} // verus!
