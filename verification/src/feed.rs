//! The durable change feed: an ordered journal of unacknowledged changes.

use crate::changes::{
    change_models, copy_changes, ChangeOrigin, ChangeSet, ChangeSetModel, CollectionGeneration,
    GenerationModel, RebuildReason,
};
use crate::provider_error::{FaultModel, ProviderError};
use crate::resolutions::{
    ChangeEventIdentity, CommittedMutation, ExecutionOutcome, RuntimeResolution,
};
use crate::text::{copy_optional, optional_text, same_text, texts};
use vstd::prelude::*;

verus! {

pub const FEED_VERSION: u32 = 1;

pub const MAX_UNACKED_EVENTS: usize = 100_000;

pub const MAX_FEED_BYTES: u64 = 67_108_864;

pub const MAX_PAGE_ITEMS: usize = 256;

// ---------------------------------------------------------------------------
// Data
// ---------------------------------------------------------------------------
/// One event of the feed.
#[derive(Debug, PartialEq, Eq)]
pub struct RuntimeChangeEvent {
    pub identity: ChangeEventIdentity,
    pub generation: CollectionGeneration,
    pub changes: ChangeSet,
    pub origin: ChangeOrigin,
    pub commit_id: Option<String>,
}

/// What an event holds.
pub struct EventModel {
    pub id: Seq<char>,
    pub watermark: int,
    pub generation: GenerationModel,
    pub changes: ChangeSetModel,
    pub origin: ChangeOrigin,
    pub commit_id: Option<Seq<char>>,
}

impl View for RuntimeChangeEvent {
    type V = EventModel;

    open spec fn view(&self) -> EventModel {
        EventModel {
            id: self.identity.id@,
            watermark: self.identity.watermark as int,
            generation: self.generation@,
            changes: self.changes@,
            origin: self.origin,
            commit_id: optional_text(self.commit_id),
        }
    }
}

impl RuntimeChangeEvent {
    pub fn copy(&self) -> (result: RuntimeChangeEvent)
        ensures
            result@ == self@,
    {
        RuntimeChangeEvent {
            identity: self.identity.copy(),
            generation: self.generation.copy(),
            changes: self.changes.copy(),
            origin: self.origin,
            commit_id: copy_optional(&self.commit_id),
        }
    }
}

pub open spec fn event_models(events: Seq<RuntimeChangeEvent>) -> Seq<EventModel> {
    Seq::new(events.len(), |i: int| events[i]@)
}

/// A transfer of the feed that its new owner has not acknowledged.
#[derive(Debug, PartialEq, Eq)]
pub struct StoredTransfer {
    pub id: String,
    pub current: String,
    pub next: String,
    pub expected_acked_through: u64,
    pub fencing_epoch: u64,
}

pub struct TransferModel {
    pub id: Seq<char>,
    pub current: Seq<char>,
    pub next: Seq<char>,
    pub expected_acked_through: int,
    pub fencing_epoch: int,
}

impl View for StoredTransfer {
    type V = TransferModel;

    open spec fn view(&self) -> TransferModel {
        TransferModel {
            id: self.id@,
            current: self.current@,
            next: self.next@,
            expected_acked_through: self.expected_acked_through as int,
            fencing_epoch: self.fencing_epoch as int,
        }
    }
}

pub open spec fn transfer_model(transfer: Option<StoredTransfer>) -> Option<TransferModel> {
    match transfer {
        Some(transfer) => Some(transfer@),
        None => None,
    }
}

/// The journal behind a change feed.
#[derive(Debug, PartialEq, Eq)]
pub struct FeedJournal {
    pub version: u32,
    pub owner: Option<String>,
    pub fencing_epoch: u64,
    pub acknowledged_through: u64,
    pub head: u64,
    pub baseline_through: Option<u64>,
    pub events: Vec<RuntimeChangeEvent>,
    pub pending_transfer: Option<StoredTransfer>,
    pub last_acknowledged_transfer_id: Option<String>,
}

/// What a journal holds.
pub struct JournalModel {
    pub version: int,
    pub owner: Option<Seq<char>>,
    pub fencing_epoch: int,
    pub acknowledged_through: int,
    pub head: int,
    pub baseline_through: Option<int>,
    pub events: Seq<EventModel>,
    pub pending_transfer: Option<TransferModel>,
    pub last_acknowledged_transfer_id: Option<Seq<char>>,
}

impl View for FeedJournal {
    type V = JournalModel;

    open spec fn view(&self) -> JournalModel {
        JournalModel {
            version: self.version as int,
            owner: optional_text(self.owner),
            fencing_epoch: self.fencing_epoch as int,
            acknowledged_through: self.acknowledged_through as int,
            head: self.head as int,
            baseline_through: match self.baseline_through {
                Some(through) => Some(through as int),
                None => None,
            },
            events: event_models(self.events@),
            pending_transfer: transfer_model(self.pending_transfer),
            last_acknowledged_transfer_id: optional_text(self.last_acknowledged_transfer_id),
        }
    }
}

/// A feed as its owner holds it.
#[derive(Debug, PartialEq, Eq)]
pub struct ChangeFeed {
    pub owner: String,
    pub fencing_epoch: u64,
}

/// Where a feed stands.
#[derive(Clone, Copy, Debug, PartialEq, Eq, Structural)]
pub struct ChangeFeedBaseline {
    pub fencing_epoch: u64,
    pub acknowledged_through: u64,
    pub feed_head: u64,
}

/// What establishing a baseline takes.
#[derive(Debug, PartialEq, Eq)]
pub struct BaselinePlan {
    pub baseline: ChangeFeedBaseline,
    pub commits: Vec<String>,
    pub needs_commit: bool,
}

/// A page of events.
#[derive(Debug, PartialEq, Eq)]
pub struct RuntimeChangeEventPage {
    pub events: Vec<RuntimeChangeEvent>,
    pub next: Option<u64>,
    pub feed_head: u64,
}

/// A request to hand the feed to another owner.
#[derive(Debug, PartialEq, Eq)]
pub struct ChangeFeedTransferIntent {
    pub id: String,
    pub current: String,
    pub next: String,
    pub expected_acked_through: u64,
}

#[derive(Debug, PartialEq, Eq)]
pub struct ChangeFeedTransferReceipt {
    pub id: String,
    pub fencing_epoch: u64,
    pub acknowledged_through: u64,
    pub feed_head: u64,
}

#[derive(Debug, PartialEq, Eq)]
pub struct ChangeFeedTransfer {
    pub feed: ChangeFeed,
    pub receipt: ChangeFeedTransferReceipt,
}

/// Where the feed stands after it was reconciled with its transactions.
#[derive(Debug, PartialEq, Eq)]
pub struct ReconciledFeed {
    pub watermark: u64,
    pub generation: CollectionGeneration,
    pub changed: bool,
}

// ---------------------------------------------------------------------------
// Soundness
// ---------------------------------------------------------------------------
pub open spec fn corrupt_fault(message: Seq<char>) -> FaultModel {
    FaultModel::Transaction { code: "change_feed_corrupt"@, message }
}

/// The next watermark; the last one is its own successor.
pub open spec fn next_watermark(watermark: int) -> int {
    if watermark < u64::MAX {
        watermark + 1
    } else {
        watermark
    }
}

/// The watermark of an event by its position after the acknowledged one.
pub open spec fn watermark_at(acknowledged: int, index: int) -> int {
    if acknowledged + 1 + index <= u64::MAX {
        acknowledged + 1 + index
    } else {
        u64::MAX as int
    }
}

impl JournalModel {
    pub open spec fn positions_are_valid(self) -> bool {
        &&& self.version == 1
        &&& self.acknowledged_through <= self.head
        &&& match self.baseline_through {
            Some(through) => through <= self.head,
            None => true,
        }
    }

    pub open spec fn events_are_ordered(self) -> bool {
        forall|i: int|
            0 <= i < self.events.len() ==> (#[trigger] self.events[i]).watermark == watermark_at(
                self.acknowledged_through,
                i,
            ) && self.events[i].watermark <= self.head
    }

    pub open spec fn head_is_retained(self) -> bool {
        if self.head > self.acknowledged_through {
            self.events.len() > 0 && self.events.last().watermark == self.head
        } else {
            self.events.len() == 0
        }
    }

    /// What is wrong with a journal, if anything is.
    pub open spec fn fault(self) -> Option<FaultModel> {
        if !self.positions_are_valid() {
            Some(corrupt_fault("invalid version or acknowledged position"@))
        } else if !self.events_are_ordered() {
            Some(corrupt_fault("event watermarks are not strictly ordered"@))
        } else if !self.head_is_retained() {
            Some(corrupt_fault("feed head is not retained in the event sequence"@))
        } else {
            None
        }
    }

    /// A journal without a fault.
    pub open spec fn sound(self) -> bool {
        self.fault() is None
    }

    /// What stands in the way of using a feed: a fence, or a fault.
    pub open spec fn refusal(self, feed: ChangeFeed) -> Option<FaultModel> {
        if self.owner != Some(feed.owner@) || self.fencing_epoch != feed.fencing_epoch {
            Some(FaultModel::Other(ProviderError::ChangeFeedFenced))
        } else {
            self.fault()
        }
    }
}

/// The journal of a feed that nothing happened to yet.
pub open spec fn empty_journal() -> JournalModel {
    JournalModel {
        version: 1,
        owner: None,
        fencing_epoch: 0,
        acknowledged_through: 0,
        head: 0,
        baseline_through: None,
        events: Seq::empty(),
        pending_transfer: None,
        last_acknowledged_transfer_id: None,
    }
}

/// In a sound journal that has not reached the last watermark, exactly the events
/// after the acknowledged position up to the head are retained, in order.
pub proof fn lemma_sound_journal_is_contiguous(journal: JournalModel)
    requires
        journal.sound(),
        journal.head < u64::MAX,
    ensures
        journal.events.len() == journal.head - journal.acknowledged_through,
        forall|i: int|
            0 <= i < journal.events.len() ==> (#[trigger] journal.events[i]).watermark
                == journal.acknowledged_through + 1 + i,
{
    let last = journal.events.len() - 1;
    if journal.events.len() > 0 {
        assert(journal.events[last].watermark == watermark_at(journal.acknowledged_through, last));
        assert forall|i: int| 0 <= i < journal.events.len() implies (
        #[trigger] journal.events[i]).watermark == journal.acknowledged_through + 1 + i by {
            assert(journal.events[i].watermark <= journal.head);
        }
    }
}

/// The size limit of a journal as it is stored.
pub fn check_size(bytes: u64) -> (result: Result<(), ProviderError>)
    ensures
        result == if bytes > MAX_FEED_BYTES {
            Err::<(), _>(ProviderError::ChangeFeedCapacityExhausted)
        } else {
            Ok(())
        },
{
    if bytes > MAX_FEED_BYTES {
        Err(ProviderError::ChangeFeedCapacityExhausted)
    } else {
        Ok(())
    }
}

fn corrupt(message: &str) -> (result: ProviderError)
    ensures
        result@ == corrupt_fault(message@),
{
    ProviderError::transaction("change_feed_corrupt", message)
}

/// Whether an optional text is a given one.
fn is_text(value: &Option<String>, text: &str) -> (result: bool)
    ensures
        result == (optional_text(*value) == Some(text@)),
{
    match value {
        Some(value) => same_text(value.as_str(), text),
        None => false,
    }
}

// ---------------------------------------------------------------------------
// Selection of events
// ---------------------------------------------------------------------------
pub open spec fn has_id(events: Seq<EventModel>, id: Seq<char>) -> bool {
    exists|i: int| 0 <= i < events.len() && (#[trigger] events[i]).id == id
}

pub open spec fn has_watermark(events: Seq<EventModel>, watermark: int) -> bool {
    exists|i: int| 0 <= i < events.len() && (#[trigger] events[i]).watermark == watermark
}

/// The first event with an identity.
pub open spec fn event_with_id(events: Seq<EventModel>, id: Seq<char>) -> Option<EventModel>
    decreases events.len(),
{
    if events.len() == 0 {
        None
    } else if events[0].id == id {
        Some(events[0])
    } else {
        event_with_id(events.drop_first(), id)
    }
}

/// The events after a watermark.
pub open spec fn later(events: Seq<EventModel>, after: int) -> Seq<EventModel>
    decreases events.len(),
{
    if events.len() == 0 {
        Seq::empty()
    } else {
        let rest = later(events.drop_last(), after);
        if events.last().watermark > after {
            rest.push(events.last())
        } else {
            rest
        }
    }
}

/// The commits of the events through a watermark.
pub open spec fn commits_of(events: Seq<EventModel>, through: int) -> Seq<Seq<char>>
    decreases events.len(),
{
    if events.len() == 0 {
        Seq::empty()
    } else {
        let rest = commits_of(events.drop_last(), through);
        match events.last().commit_id {
            Some(commit) => if events.last().watermark <= through {
                rest.push(commit)
            } else {
                rest
            },
            None => rest,
        }
    }
}

/// An event in its place by watermark, after those with the same one.
pub open spec fn placed(events: Seq<EventModel>, event: EventModel) -> Seq<EventModel>
    decreases events.len(),
{
    if events.len() == 0 || events.last().watermark <= event.watermark {
        events.push(event)
    } else {
        placed(events.drop_last(), event).push(events.last())
    }
}

proof fn lemma_placed(events: Seq<EventModel>, event: EventModel, at: int)
    requires
        0 <= at <= events.len(),
        at > 0 ==> events[at - 1].watermark <= event.watermark,
        forall|k: int| at <= k < events.len() ==> (#[trigger] events[k]).watermark
            > event.watermark,
    ensures
        placed(events, event) == events.insert(at, event),
    decreases events.len(),
{
    if at == events.len() {
        assert(events.push(event) =~= events.insert(at, event));
    } else {
        lemma_placed(events.drop_last(), event, at);
        assert(events.drop_last().insert(at, event).push(events.last()) =~= events.insert(
            at,
            event,
        ));
    }
}

fn push_text(list: &mut Vec<String>, value: String)
    ensures
        texts(final(list)@) == texts(old(list)@).push(value@),
{
    let ghost before = list@;
    list.push(value);
    proof {
        crate::text::lemma_texts_push(before, value);
    }
}

fn push_event(list: &mut Vec<RuntimeChangeEvent>, event: RuntimeChangeEvent)
    ensures
        event_models(final(list)@) == event_models(old(list)@).push(event@),
{
    let ghost before = list@;
    list.push(event);
    proof {
        assert(event_models(list@) =~= event_models(before).push(event@));
    }
}

fn place_event(list: &mut Vec<RuntimeChangeEvent>, event: RuntimeChangeEvent)
    ensures
        event_models(final(list)@) == placed(event_models(old(list)@), event@),
{
    let mut at: usize = list.len();
    while at > 0 && list[at - 1].identity.watermark > event.identity.watermark
        invariant
            at <= list@.len(),
            forall|k: int|
                at <= k < list@.len() ==> (#[trigger] event_models(list@)[k]).watermark
                    > event@.watermark,
        decreases at,
    {
        at = at - 1;
        proof {
            assert(event_models(list@)[at as int] == list@[at as int]@);
        }
    }
    let ghost before = list@;
    proof {
        if at > 0 {
            assert(event_models(before)[at - 1] == before[at - 1]@);
        }
        lemma_placed(event_models(before), event@, at as int);
    }
    list.insert(at, event);
    proof {
        assert(event_models(list@) =~= event_models(before).insert(at as int, event@));
    }
}

fn find_event<'a>(events: &'a Vec<RuntimeChangeEvent>, id: &str) -> (result: Option<
    &'a RuntimeChangeEvent,
>)
    ensures
        match result {
            Some(event) => event_with_id(event_models(events@), id@) == Some(event@) && has_id(
                event_models(events@),
                id@,
            ),
            None => event_with_id(event_models(events@), id@) is None && !has_id(
                event_models(events@),
                id@,
            ),
        },
{
    let ghost models = event_models(events@);
    proof {
        assert(models.skip(0) =~= models);
    }
    let mut i: usize = 0;
    while i < events.len()
        invariant
            i <= events@.len(),
            models == event_models(events@),
            event_with_id(models, id@) == event_with_id(models.skip(i as int), id@),
            forall|k: int| 0 <= k < i ==> (#[trigger] models[k]).id != id@,
        decreases events@.len() - i,
    {
        proof {
            assert(models[i as int] == events@[i as int]@);
            assert(models.skip(i as int)[0] == models[i as int]);
            assert(models.skip(i as int).drop_first() =~= models.skip(i + 1));
        }
        if same_text(events[i].identity.id.as_str(), id) {
            return Some(&events[i]);
        }
        i = i + 1;
    }
    None
}

fn lists_watermark(events: &Vec<RuntimeChangeEvent>, watermark: u64) -> (result: bool)
    ensures
        result == has_watermark(event_models(events@), watermark as int),
{
    let ghost models = event_models(events@);
    let mut i: usize = 0;
    while i < events.len()
        invariant
            i <= events@.len(),
            models == event_models(events@),
            forall|k: int| 0 <= k < i ==> (#[trigger] models[k]).watermark != watermark,
        decreases events@.len() - i,
    {
        proof {
            assert(models[i as int] == events@[i as int]@);
        }
        if events[i].identity.watermark == watermark {
            return true;
        }
        i = i + 1;
    }
    false
}

fn copy_events(events: &Vec<RuntimeChangeEvent>) -> (result: Vec<RuntimeChangeEvent>)
    ensures
        event_models(result@) == event_models(events@),
{
    let mut result: Vec<RuntimeChangeEvent> = Vec::new();
    let mut i: usize = 0;
    while i < events.len()
        invariant
            i <= events@.len(),
            result@.len() == i,
            forall|k: int| 0 <= k < i ==> (#[trigger] result@[k])@ == events@[k]@,
        decreases events@.len() - i,
    {
        result.push(events[i].copy());
        i = i + 1;
    }
    proof {
        assert(event_models(result@) =~= event_models(events@));
    }
    result
}

fn events_after(events: &Vec<RuntimeChangeEvent>, after: u64) -> (result: Vec<RuntimeChangeEvent>)
    ensures
        event_models(result@) == later(event_models(events@), after as int),
{
    let ghost models = event_models(events@);
    let mut result: Vec<RuntimeChangeEvent> = Vec::new();
    proof {
        assert(event_models(result@) =~= Seq::empty());
        assert(models.take(0) =~= Seq::empty());
    }
    let mut i: usize = 0;
    while i < events.len()
        invariant
            i <= events@.len(),
            models == event_models(events@),
            event_models(result@) == later(models.take(i as int), after as int),
        decreases events@.len() - i,
    {
        proof {
            assert(models.take(i + 1).drop_last() =~= models.take(i as int));
            assert(models.take(i + 1).last() == events@[i as int]@);
        }
        if events[i].identity.watermark > after {
            push_event(&mut result, events[i].copy());
        }
        i = i + 1;
    }
    proof {
        assert(models.take(i as int) =~= models);
    }
    result
}

fn event_commits(events: &Vec<RuntimeChangeEvent>, through: u64) -> (result: Vec<String>)
    ensures
        texts(result@) == commits_of(event_models(events@), through as int),
{
    let ghost models = event_models(events@);
    let mut result: Vec<String> = Vec::new();
    proof {
        assert(texts(result@) =~= Seq::empty());
        assert(models.take(0) =~= Seq::empty());
    }
    let mut i: usize = 0;
    while i < events.len()
        invariant
            i <= events@.len(),
            models == event_models(events@),
            texts(result@) == commits_of(models.take(i as int), through as int),
        decreases events@.len() - i,
    {
        proof {
            assert(models.take(i + 1).drop_last() =~= models.take(i as int));
            assert(models.take(i + 1).last() == events@[i as int]@);
        }
        if events[i].identity.watermark <= through {
            if let Some(commit) = &events[i].commit_id {
                push_text(&mut result, commit.clone());
            }
        }
        i = i + 1;
    }
    proof {
        assert(models.take(i as int) =~= models);
    }
    result
}

// ---------------------------------------------------------------------------
// Reconciliation
// ---------------------------------------------------------------------------
/// The event of a committed mutation.
pub open spec fn committed_event(
    mutation: CommittedMutation,
    generation: GenerationModel,
    origin: ChangeOrigin,
) -> EventModel {
    EventModel {
        id: mutation.event_id@,
        watermark: mutation.watermark as int,
        generation,
        changes: ChangeSetModel::Exact(change_models(mutation.changes@)),
        origin,
        commit_id: Some(mutation.commit_id@),
    }
}

/// A journal and the generation that it has reached.
pub struct FeedState {
    pub journal: JournalModel,
    pub generation: GenerationModel,
    pub changed: bool,
}

/// The state after one transaction of the collection was looked at: a committed
/// mutation that the journal lacks is added in its place.
pub open spec fn reconcile_one(state: FeedState, resolution: RuntimeResolution) -> Result<
    FeedState,
    FaultModel,
> {
    match resolution {
        RuntimeResolution::Committed(mutation) => if has_id(
            state.journal.events,
            mutation.event_id@,
        ) {
            Ok(state)
        } else if has_watermark(state.journal.events, mutation.watermark as int) {
            Err(corrupt_fault("two durable events claim one change watermark"@))
        } else if mutation.generation.runtime_epoch@ != state.generation.runtime_epoch
            && state.generation.sequence == u64::MAX {
            Err(FaultModel::Other(ProviderError::GenerationExhausted))
        } else {
            let generation = state.generation.advanced(mutation.generation@);
            Ok(
                FeedState {
                    journal: JournalModel {
                        head: if mutation.watermark > state.journal.head {
                            mutation.watermark as int
                        } else {
                            state.journal.head
                        },
                        events: placed(
                            state.journal.events,
                            committed_event(
                                mutation,
                                generation,
                                ChangeOrigin::RecoveryReconciliation,
                            ),
                        ),
                        ..state.journal
                    },
                    generation,
                    changed: true,
                },
            )
        },
        _ => Ok(state),
    }
}

/// The state after all transactions were looked at, in their order.
pub open spec fn reconcile_all(state: FeedState, resolutions: Seq<RuntimeResolution>) -> Result<
    FeedState,
    FaultModel,
>
    decreases resolutions.len(),
{
    if resolutions.len() == 0 {
        Ok(state)
    } else {
        match reconcile_all(state, resolutions.drop_last()) {
            Ok(state) => reconcile_one(state, resolutions.last()),
            Err(fault) => Err(fault),
        }
    }
}

/// The state after reconciliation. The journal is checked before and after.
pub open spec fn reconciled_feed(
    journal: JournalModel,
    generation: GenerationModel,
    resolutions: Seq<RuntimeResolution>,
    stored: bool,
) -> Result<FeedState, FaultModel> {
    match journal.fault() {
        Some(fault) => Err(fault),
        None => match reconcile_all(
            FeedState { journal, generation, changed: !stored },
            resolutions,
        ) {
            Err(fault) => Err(fault),
            Ok(state) => match state.journal.fault() {
                Some(fault) => Err(fault),
                None => Ok(state),
            },
        },
    }
}

proof fn lemma_reconcile_stops(
    state: FeedState,
    resolutions: Seq<RuntimeResolution>,
    at: int,
)
    requires
        0 <= at <= resolutions.len(),
        reconcile_all(state, resolutions.take(at)) is Err,
    ensures
        reconcile_all(state, resolutions) == reconcile_all(state, resolutions.take(at)),
    decreases resolutions.len() - at,
{
    if at < resolutions.len() {
        let next = resolutions.take(at + 1);
        assert(next.drop_last() =~= resolutions.take(at));
        lemma_reconcile_stops(state, resolutions, at + 1);
    } else {
        assert(resolutions.take(at) =~= resolutions);
    }
}

// ---------------------------------------------------------------------------
// Transitions
// ---------------------------------------------------------------------------
/// The change set that a new external event keeps: a feed with room for one event
/// only keeps that something changed.
pub open spec fn retained_changes(changes: ChangeSetModel, events: int) -> ChangeSetModel {
    match changes {
        ChangeSetModel::Exact(_) => if events >= MAX_UNACKED_EVENTS - 1 {
            ChangeSetModel::CollectionWide { reason: RebuildReason::ExternalChangeUncertain }
        } else {
            changes
        },
        other => other,
    }
}

impl JournalModel {
    /// The journal with one more event at its head.
    pub open spec fn with_event(self, event: EventModel) -> JournalModel {
        JournalModel { head: event.watermark, events: self.events.push(event), ..self }
    }

    /// The journal with everything through a watermark acknowledged.
    pub open spec fn acknowledged(self, through: int) -> JournalModel {
        JournalModel {
            acknowledged_through: through,
            events: later(self.events, through),
            ..self
        }
    }

    /// The journal with its head as baseline.
    pub open spec fn with_baseline(self) -> JournalModel {
        JournalModel {
            baseline_through: Some(self.head),
            acknowledged_through: self.head,
            events: Seq::empty(),
            ..self
        }
    }

    /// Whether a transfer is already under way as an intent asks for it.
    pub open spec fn is_transferring(self, intent: ChangeFeedTransferIntent) -> bool {
        match self.pending_transfer {
            Some(stored) => stored.id == intent.id@ && stored.current == intent.current@
                && stored.next == intent.next@ && stored.expected_acked_through
                == intent.expected_acked_through && self.owner == Some(intent.next@),
            None => false,
        }
    }

    /// Whether an intent can be carried out now.
    pub open spec fn allows_transfer(self, intent: ChangeFeedTransferIntent) -> bool {
        self.pending_transfer is None && self.owner == Some(intent.current@)
            && self.acknowledged_through == intent.expected_acked_through
    }

    /// The journal handed to the next owner.
    pub open spec fn transferred(self, intent: ChangeFeedTransferIntent) -> JournalModel {
        JournalModel {
            owner: Some(intent.next@),
            fencing_epoch: self.fencing_epoch + 1,
            pending_transfer: Some(
                TransferModel {
                    id: intent.id@,
                    current: intent.current@,
                    next: intent.next@,
                    expected_acked_through: intent.expected_acked_through as int,
                    fencing_epoch: self.fencing_epoch + 1,
                },
            ),
            ..self
        }
    }

    /// Where a feed with this journal stands.
    pub open spec fn baseline(self) -> (int, int, int) {
        (
            self.fencing_epoch,
            match self.baseline_through {
                Some(through) => through,
                None => self.head,
            },
            self.head,
        )
    }

    /// What a known mutation does to the journal: it is there already, it is
    /// refused, or it becomes the next event.
    pub open spec fn after_known(self, outcome: ExecutionOutcome) -> Result<
        JournalModel,
        FaultModel,
    > {
        match (outcome.change_event, outcome.commit_id, outcome.changes) {
            (None, _, _) => Err(
                FaultModel::Transaction {
                    code: "change_event_missing"@,
                    message: "committed mutation is missing its durable event identity"@,
                },
            ),
            (Some(_), None, _) => Err(
                FaultModel::Transaction {
                    code: "commit_identity_missing"@,
                    message: "committed mutation is missing its transaction identity"@,
                },
            ),
            (Some(identity), Some(commit), ChangeSet::Exact(changes)) => {
                let event = EventModel {
                    id: identity.id@,
                    watermark: identity.watermark as int,
                    generation: outcome.generation@,
                    changes: outcome.changes@,
                    origin: ChangeOrigin::KnownMutation,
                    commit_id: Some(commit@),
                };
                if let Some(fault) = self.fault() {
                    Err(fault)
                } else if let Some(existing) = event_with_id(self.events, identity.id@) {
                    if existing.watermark == identity.watermark && existing.commit_id == Some(
                        commit@,
                    ) {
                        Ok(self)
                    } else {
                        Err(
                            corrupt_fault(
                                "change event identity was reused with different metadata"@,
                            ),
                        )
                    }
                } else if identity.watermark != next_watermark(self.head) {
                    Err(
                        FaultModel::Transaction {
                            code: "change_feed_order_conflict"@,
                            message: "known mutation event is not the next durable watermark"@,
                        },
                    )
                } else if self.events.len() >= MAX_UNACKED_EVENTS - 1 {
                    Err(FaultModel::Other(ProviderError::ChangeFeedCapacityExhausted))
                } else {
                    match self.with_event(event).fault() {
                        Some(fault) => Err(fault),
                        None => Ok(self.with_event(event)),
                    }
                }
            },
            _ => Err(
                FaultModel::Transaction {
                    code: "known_change_set_missing"@,
                    message: "committed mutation must retain exact canonical changes"@,
                },
            ),
        }
    }

    /// What an external event does to the journal.
    pub open spec fn after_external(self, event: EventModel) -> Result<JournalModel, FaultModel> {
        let kept = EventModel {
            changes: retained_changes(event.changes, self.events.len() as int),
            commit_id: None,
            ..event
        };
        if let Some(fault) = self.fault() {
            Err(fault)
        } else if event.watermark != next_watermark(self.head) {
            Err(
                FaultModel::Transaction {
                    code: "change_feed_order_conflict"@,
                    message: "filesystem observation is not the next durable watermark"@,
                },
            )
        } else if self.events.len() >= MAX_UNACKED_EVENTS {
            Err(FaultModel::Other(ProviderError::ChangeFeedCapacityExhausted))
        } else if event.changes is Nothing {
            Ok(self)
        } else {
            match self.with_event(kept).fault() {
                Some(fault) => Err(fault),
                None => Ok(self.with_event(kept)),
            }
        }
    }

    /// What opening a feed does to the journal.
    pub open spec fn after_open(self, owner: Seq<char>) -> Result<JournalModel, FaultModel> {
        if self.owner is Some && self.owner != Some(owner) {
            Err(FaultModel::Other(ProviderError::ChangeFeedOwned))
        } else if self.fencing_epoch == u64::MAX {
            Err(FaultModel::Other(ProviderError::WatermarkExhausted))
        } else if let Some(fault) = self.fault() {
            Err(fault)
        } else {
            Ok(
                JournalModel {
                    owner: Some(owner),
                    fencing_epoch: self.fencing_epoch + 1,
                    ..self
                },
            )
        }
    }

    /// What an acknowledgement does to the journal.
    pub open spec fn after_ack(self, feed: ChangeFeed, through: int) -> Result<
        JournalModel,
        FaultModel,
    > {
        if let Some(fault) = self.refusal(feed) {
            Err(fault)
        } else if through > self.head {
            Err(FaultModel::Other(ProviderError::InvalidChangeFeedAck))
        } else if through <= self.acknowledged_through {
            Ok(self)
        } else {
            match self.acknowledged(through).fault() {
                Some(fault) => Err(fault),
                None => Ok(self.acknowledged(through)),
            }
        }
    }

    /// What a transfer does to the journal.
    pub open spec fn after_transfer(self, intent: ChangeFeedTransferIntent) -> Result<
        JournalModel,
        FaultModel,
    > {
        if self.is_transferring(intent) {
            Ok(self)
        } else if !self.allows_transfer(intent) {
            Err(FaultModel::Other(ProviderError::ChangeFeedTransferMismatch))
        } else if self.fencing_epoch == u64::MAX {
            Err(FaultModel::Other(ProviderError::WatermarkExhausted))
        } else if let Some(fault) = self.fault() {
            Err(fault)
        } else {
            Ok(self.transferred(intent))
        }
    }

    /// What acknowledging a transfer does to the journal.
    pub open spec fn after_transfer_ack(self, id: Seq<char>) -> Result<JournalModel, FaultModel> {
        match self.pending_transfer {
            Some(transfer) if transfer.id == id => match self.fault() {
                Some(fault) => Err(fault),
                None => Ok(
                    JournalModel {
                        pending_transfer: None,
                        last_acknowledged_transfer_id: Some(id),
                        ..self
                    },
                ),
            },
            _ => if self.last_acknowledged_transfer_id == Some(id) {
                Ok(self)
            } else {
                Err(FaultModel::Other(ProviderError::ChangeFeedTransferMismatch))
            },
        }
    }
}

/// Whether a transition did what its model says: the new journal on success, the
/// old one and the fault otherwise.
pub open spec fn moves<T>(
    result: Result<T, ProviderError>,
    before: JournalModel,
    after: JournalModel,
    expected: Result<JournalModel, FaultModel>,
) -> bool {
    match (result, expected) {
        (Ok(_), Ok(journal)) => after == journal,
        (Err(error), Err(fault)) => error@ == fault && after == before,
        _ => false,
    }
}

// ---------------------------------------------------------------------------
// Operations
// ---------------------------------------------------------------------------
impl FeedJournal {
    /// The journal of a feed that nothing happened to yet.
    pub fn new() -> (result: FeedJournal)
        ensures
            result@ == empty_journal(),
    {
        let events: Vec<RuntimeChangeEvent> = Vec::new();
        proof {
            assert(event_models(events@) =~= Seq::empty());
        }
        FeedJournal {
            version: FEED_VERSION,
            owner: None,
            fencing_epoch: 0,
            acknowledged_through: 0,
            head: 0,
            baseline_through: None,
            events,
            pending_transfer: None,
            last_acknowledged_transfer_id: None,
        }
    }

    /// Checks the journal.
    pub fn validate(&self) -> (result: Result<(), ProviderError>)
        ensures
            match result {
                Ok(_) => self@.sound(),
                Err(error) => self@.fault() == Some(error@),
            },
    {
        let baseline_is_valid = match self.baseline_through {
            Some(through) => through <= self.head,
            None => true,
        };
        if self.version != FEED_VERSION || self.acknowledged_through > self.head
            || !baseline_is_valid {
            return Err(corrupt("invalid version or acknowledged position"));
        }
        let ghost journal = self@;
        let mut previous: u64 = self.acknowledged_through;
        let mut i: usize = 0;
        while i < self.events.len()
            invariant
                i <= self.events@.len(),
                journal == self@,
                journal.positions_are_valid(),
                previous == watermark_at(self.acknowledged_through as int, i - 1),
                forall|k: int|
                    0 <= k < i ==> (#[trigger] journal.events[k]).watermark == watermark_at(
                        journal.acknowledged_through,
                        k,
                    ) && journal.events[k].watermark <= journal.head,
            decreases self.events@.len() - i,
        {
            let watermark: u64 = self.events[i].identity.watermark;
            let next: u64 = previous.saturating_add(1);
            proof {
                assert(journal.events[i as int] == self.events@[i as int]@);
                assert(next == watermark_at(self.acknowledged_through as int, i as int));
            }
            if watermark != next || watermark > self.head {
                proof {
                    assert(!journal.events_are_ordered());
                }
                return Err(corrupt("event watermarks are not strictly ordered"));
            }
            previous = watermark;
            i = i + 1;
        }
        let count: usize = self.events.len();
        let retained = if self.head > self.acknowledged_through {
            count > 0 && self.events[count - 1].identity.watermark == self.head
        } else {
            count == 0
        };
        proof {
            if count > 0 {
                assert(journal.events.last() == self.events@[count - 1]@);
            }
        }
        if !retained {
            return Err(corrupt("feed head is not retained in the event sequence"));
        }
        Ok(())
    }

    /// Checks that a feed may be used by its holder.
    pub fn check_feed(&self, feed: &ChangeFeed) -> (result: Result<(), ProviderError>)
        ensures
            match result {
                Ok(_) => self@.refusal(*feed) is None,
                Err(error) => self@.refusal(*feed) == Some(error@),
            },
    {
        if !is_text(&self.owner, feed.owner.as_str()) || self.fencing_epoch
            != feed.fencing_epoch {
            return Err(ProviderError::ChangeFeedFenced);
        }
        self.validate()
    }

    /// Whether one more known mutation fits, with the stored size of the journal
    /// where it is stored.
    pub fn ensure_capacity(&self, stored_bytes: Option<u64>) -> (result: Result<
        (),
        ProviderError,
    >)
        ensures
            result == if self@.events.len() >= MAX_UNACKED_EVENTS - 1 || (stored_bytes is Some
                && stored_bytes->0 >= MAX_FEED_BYTES) {
                Err::<(), _>(ProviderError::ChangeFeedCapacityExhausted)
            } else {
                Ok(())
            },
    {
        if self.events.len() >= MAX_UNACKED_EVENTS - 1 {
            return Err(ProviderError::ChangeFeedCapacityExhausted);
        }
        match stored_bytes {
            Some(bytes) => if bytes >= MAX_FEED_BYTES {
                Err(ProviderError::ChangeFeedCapacityExhausted)
            } else {
                Ok(())
            },
            None => Ok(()),
        }
    }

    /// Adds an event at the head, if the journal stays sound.
    fn append(&mut self, event: RuntimeChangeEvent) -> (result: Result<(), ProviderError>)
        ensures
            moves(
                result,
                old(self)@,
                final(self)@,
                match old(self)@.with_event(event@).fault() {
                    Some(fault) => Err(fault),
                    None => Ok(old(self)@.with_event(event@)),
                },
            ),
    {
        let ghost before = self@;
        let head: u64 = self.head;
        self.head = event.identity.watermark;
        push_event(&mut self.events, event);
        proof {
            assert(self@ == before.with_event(event@));
        }
        match self.validate() {
            Ok(_) => Ok(()),
            Err(error) => {
                let ghost pushed = self.events@;
                let _removed = self.events.pop();
                self.head = head;
                proof {
                    assert(event_models(pushed) == before.events.push(event@));
                    assert(event_models(self.events@) =~= event_models(pushed).drop_last());
                    assert(event_models(pushed).drop_last() =~= before.events);
                    assert(self@ == before);
                }
                Err(error)
            },
        }
    }

    /// Adds the event of a known mutation. One that is there already is left as it
    /// is.
    pub fn append_known(&mut self, outcome: &ExecutionOutcome) -> (result: Result<
        (),
        ProviderError,
    >)
        ensures
            moves(result, old(self)@, final(self)@, old(self)@.after_known(*outcome)),
    {
        let identity = match &outcome.change_event {
            Some(identity) => identity,
            None => {
                return Err(
                    ProviderError::transaction(
                        "change_event_missing",
                        "committed mutation is missing its durable event identity",
                    ),
                );
            },
        };
        let commit = match &outcome.commit_id {
            Some(commit) => commit,
            None => {
                return Err(
                    ProviderError::transaction(
                        "commit_identity_missing",
                        "committed mutation is missing its transaction identity",
                    ),
                );
            },
        };
        let changes = match &outcome.changes {
            ChangeSet::Exact(changes) => changes,
            _ => {
                return Err(
                    ProviderError::transaction(
                        "known_change_set_missing",
                        "committed mutation must retain exact canonical changes",
                    ),
                );
            },
        };
        if let Err(error) = self.validate() {
            return Err(error);
        }
        if let Some(existing) = find_event(&self.events, identity.id.as_str()) {
            if existing.identity.watermark == identity.watermark && is_text(
                &existing.commit_id,
                commit.as_str(),
            ) {
                return Ok(());
            }
            return Err(corrupt("change event identity was reused with different metadata"));
        }
        if identity.watermark != self.head.saturating_add(1) {
            return Err(
                ProviderError::transaction(
                    "change_feed_order_conflict",
                    "known mutation event is not the next durable watermark",
                ),
            );
        }
        if self.events.len() >= MAX_UNACKED_EVENTS - 1 {
            return Err(ProviderError::ChangeFeedCapacityExhausted);
        }
        let event = RuntimeChangeEvent {
            identity: identity.copy(),
            generation: outcome.generation.copy(),
            changes: ChangeSet::Exact(copy_changes(changes)),
            origin: ChangeOrigin::KnownMutation,
            commit_id: Some(commit.clone()),
        };
        self.append(event)
    }

    /// Adds an external event, if it changed anything.
    pub fn append_external(&mut self, event: &RuntimeChangeEvent) -> (result: Result<
        (),
        ProviderError,
    >)
        ensures
            moves(result, old(self)@, final(self)@, old(self)@.after_external(event@)),
    {
        if let Err(error) = self.validate() {
            return Err(error);
        }
        if event.identity.watermark != self.head.saturating_add(1) {
            return Err(
                ProviderError::transaction(
                    "change_feed_order_conflict",
                    "filesystem observation is not the next durable watermark",
                ),
            );
        }
        if self.events.len() >= MAX_UNACKED_EVENTS {
            return Err(ProviderError::ChangeFeedCapacityExhausted);
        }
        let changes = match &event.changes {
            ChangeSet::Exact(changes) => if self.events.len() >= MAX_UNACKED_EVENTS - 1 {
                ChangeSet::CollectionWide { reason: RebuildReason::ExternalChangeUncertain }
            } else {
                ChangeSet::Exact(copy_changes(changes))
            },
            ChangeSet::CollectionWide { reason } => ChangeSet::CollectionWide { reason: *reason },
            ChangeSet::Nothing => {
                return Ok(());
            },
        };
        let kept = RuntimeChangeEvent {
            identity: event.identity.copy(),
            generation: event.generation.copy(),
            changes,
            origin: event.origin,
            commit_id: None,
        };
        self.append(kept)
    }

    /// Opens the feed for an owner. Feeds opened before are fenced off.
    pub fn open(&mut self, owner: &str) -> (result: Result<ChangeFeed, ProviderError>)
        ensures
            moves(result, old(self)@, final(self)@, old(self)@.after_open(owner@)),
            match result {
                Ok(feed) => feed.owner@ == owner@ && feed.fencing_epoch
                    == final(self)@.fencing_epoch,
                Err(_) => true,
            },
    {
        if self.owner.is_some() && !is_text(&self.owner, owner) {
            return Err(ProviderError::ChangeFeedOwned);
        }
        let epoch: u64 = match self.fencing_epoch.checked_add(1) {
            Some(epoch) => epoch,
            None => {
                return Err(ProviderError::WatermarkExhausted);
            },
        };
        if let Err(error) = self.validate() {
            return Err(error);
        }
        self.owner = Some(owner.to_owned());
        self.fencing_epoch = epoch;
        Ok(ChangeFeed { owner: owner.to_owned(), fencing_epoch: epoch })
    }

    fn standing(&self) -> (result: ChangeFeedBaseline)
        ensures
            (
                result.fencing_epoch as int,
                result.acknowledged_through as int,
                result.feed_head as int,
            ) == self@.baseline(),
    {
        ChangeFeedBaseline {
            fencing_epoch: self.fencing_epoch,
            acknowledged_through: match self.baseline_through {
                Some(through) => through,
                None => self.head,
            },
            feed_head: self.head,
        }
    }

    /// What establishing a baseline takes: the commits to acknowledge first, and
    /// whether the journal changes.
    pub fn baseline_plan(&self, feed: &ChangeFeed) -> (result: Result<
        BaselinePlan,
        ProviderError,
    >)
        ensures
            match result {
                Ok(plan) => self@.refusal(*feed) is None && (
                    plan.baseline.fencing_epoch as int,
                    plan.baseline.acknowledged_through as int,
                    plan.baseline.feed_head as int,
                ) == self@.baseline() && texts(plan.commits@) == commits_of(
                    self@.events,
                    u64::MAX as int,
                ) && plan.needs_commit == (self@.baseline_through is None),
                Err(error) => self@.refusal(*feed) == Some(error@),
            },
    {
        if let Err(error) = self.check_feed(feed) {
            return Err(error);
        }
        Ok(
            BaselinePlan {
                baseline: self.standing(),
                commits: event_commits(&self.events, u64::MAX),
                needs_commit: self.baseline_through.is_none(),
            },
        )
    }

    /// Establishes the baseline at the head, once.
    pub fn commit_baseline(&mut self, feed: &ChangeFeed) -> (result: Result<
        ChangeFeedBaseline,
        ProviderError,
    >)
        ensures
            moves(
                result,
                old(self)@,
                final(self)@,
                match old(self)@.refusal(*feed) {
                    Some(fault) => Err(fault),
                    None => if old(self)@.baseline_through is Some {
                        Ok(old(self)@)
                    } else {
                        Ok(old(self)@.with_baseline())
                    },
                },
            ),
            match result {
                Ok(baseline) => (
                    baseline.fencing_epoch as int,
                    baseline.acknowledged_through as int,
                    baseline.feed_head as int,
                ) == old(self)@.baseline(),
                Err(_) => true,
            },
    {
        if let Err(error) = self.check_feed(feed) {
            return Err(error);
        }
        let baseline = self.standing();
        if self.baseline_through.is_none() {
            self.baseline_through = Some(self.head);
            self.acknowledged_through = self.head;
            self.events = Vec::new();
            proof {
                assert(event_models(self.events@) =~= Seq::empty());
            }
        }
        Ok(baseline)
    }

    /// Reads a page of events after a watermark, or after what was acknowledged.
    pub fn read(&self, feed: &ChangeFeed, after: Option<u64>, limit: usize) -> (result: Result<
        RuntimeChangeEventPage,
        ProviderError,
    >)
        requires
            limit > 0,
        ensures
            reads(result, self@, *feed, after, limit),
    {
        if let Err(error) = self.check_feed(feed) {
            return Err(error);
        }
        let after: u64 = match after {
            Some(after) => after,
            None => self.acknowledged_through,
        };
        if after < self.acknowledged_through {
            return Err(ProviderError::ChangeFeedRetentionGap);
        }
        if after >= self.head {
            let events: Vec<RuntimeChangeEvent> = Vec::new();
            proof {
                assert(event_models(events@) =~= Seq::empty());
            }
            return Ok(RuntimeChangeEventPage { events, next: None, feed_head: self.head });
        }
        let limit: usize = if limit < MAX_PAGE_ITEMS {
            limit
        } else {
            MAX_PAGE_ITEMS
        };
        let all = events_after(&self.events, after);
        let count: usize = if all.len() < limit {
            all.len()
        } else {
            limit
        };
        let mut events: Vec<RuntimeChangeEvent> = Vec::new();
        let mut i: usize = 0;
        while i < count
            invariant
                i <= count <= all@.len(),
                events@.len() == i,
                forall|k: int| 0 <= k < i ==> (#[trigger] events@[k])@ == all@[k]@,
            decreases count - i,
        {
            events.push(all[i].copy());
            i = i + 1;
        }
        proof {
            assert(event_models(events@) =~= event_models(all@).take(count as int));
            if all@.len() < limit {
                assert(event_models(all@).take(count as int) =~= event_models(all@));
            }
            assert(event_models(events@) == page_events(self@, after as int, limit as int));
            if count > 0 {
                assert(event_models(events@).last() == events@[count - 1]@);
            }
        }
        let next = if count > 0 && events[count - 1].identity.watermark < self.head {
            Some(events[count - 1].identity.watermark)
        } else {
            None
        };
        Ok(RuntimeChangeEventPage { events, next, feed_head: self.head })
    }

    /// Acknowledges the events through a watermark and returns their commits.
    pub fn ack(&mut self, feed: &ChangeFeed, through: u64) -> (result: Result<
        Vec<String>,
        ProviderError,
    >)
        ensures
            moves(
                result,
                old(self)@,
                final(self)@,
                old(self)@.after_ack(*feed, through as int),
            ),
            match result {
                Ok(commits) => texts(commits@) == if through
                    <= old(self)@.acknowledged_through {
                    Seq::empty()
                } else {
                    commits_of(old(self)@.events, through as int)
                },
                Err(_) => true,
            },
    {
        if let Err(error) = self.check_feed(feed) {
            return Err(error);
        }
        if through > self.head {
            return Err(ProviderError::InvalidChangeFeedAck);
        }
        if through <= self.acknowledged_through {
            let none: Vec<String> = Vec::new();
            proof {
                assert(texts(none@) =~= Seq::empty());
            }
            return Ok(none);
        }
        let ghost before = self@;
        let commits = event_commits(&self.events, through);
        let mut events = events_after(&self.events, through);
        let acknowledged: u64 = self.acknowledged_through;
        std::mem::swap(&mut self.events, &mut events);
        self.acknowledged_through = through;
        proof {
            assert(self@ == before.acknowledged(through as int));
        }
        match self.validate() {
            Ok(_) => Ok(commits),
            Err(error) => {
                std::mem::swap(&mut self.events, &mut events);
                self.acknowledged_through = acknowledged;
                proof {
                    assert(self@ == before);
                }
                Err(error)
            },
        }
    }

    /// The commits of the events through a watermark.
    pub fn commits_through(&self, feed: &ChangeFeed, through: u64) -> (result: Result<
        Vec<String>,
        ProviderError,
    >)
        ensures
            match result {
                Ok(commits) => self@.refusal(*feed) is None && through <= self@.head && texts(
                    commits@,
                ) == if through <= self@.acknowledged_through {
                    Seq::empty()
                } else {
                    commits_of(self@.events, through as int)
                },
                Err(error) => match self@.refusal(*feed) {
                    Some(fault) => error@ == fault,
                    None => error == ProviderError::InvalidChangeFeedAck && through > self@.head,
                },
            },
    {
        if let Err(error) = self.check_feed(feed) {
            return Err(error);
        }
        if through > self.head {
            return Err(ProviderError::InvalidChangeFeedAck);
        }
        if through <= self.acknowledged_through {
            let none: Vec<String> = Vec::new();
            proof {
                assert(texts(none@) =~= Seq::empty());
            }
            return Ok(none);
        }
        Ok(event_commits(&self.events, through))
    }

    fn transfer_result(&self, owner: &str, id: &str) -> (result: ChangeFeedTransfer)
        ensures
            hands_over(result, self@, owner@, id@),
    {
        ChangeFeedTransfer {
            feed: ChangeFeed { owner: owner.to_owned(), fencing_epoch: self.fencing_epoch },
            receipt: ChangeFeedTransferReceipt {
                id: id.to_owned(),
                fencing_epoch: self.fencing_epoch,
                acknowledged_through: self.acknowledged_through,
                feed_head: self.head,
            },
        }
    }

    /// Hands the feed to another owner. The same intent again gives the same
    /// transfer again.
    pub fn transfer(&mut self, intent: &ChangeFeedTransferIntent) -> (result: Result<
        ChangeFeedTransfer,
        ProviderError,
    >)
        ensures
            moves(result, old(self)@, final(self)@, old(self)@.after_transfer(*intent)),
            match result {
                Ok(transfer) => hands_over(transfer, final(self)@, intent.next@, intent.id@),
                Err(_) => true,
            },
    {
        if let Some(stored) = &self.pending_transfer {
            if same_text(stored.id.as_str(), intent.id.as_str()) && same_text(
                stored.current.as_str(),
                intent.current.as_str(),
            ) && same_text(stored.next.as_str(), intent.next.as_str())
                && stored.expected_acked_through == intent.expected_acked_through && is_text(
                &self.owner,
                intent.next.as_str(),
            ) {
                return Ok(self.transfer_result(intent.next.as_str(), intent.id.as_str()));
            }
            return Err(ProviderError::ChangeFeedTransferMismatch);
        }
        if !is_text(&self.owner, intent.current.as_str()) || self.acknowledged_through
            != intent.expected_acked_through {
            return Err(ProviderError::ChangeFeedTransferMismatch);
        }
        let epoch: u64 = match self.fencing_epoch.checked_add(1) {
            Some(epoch) => epoch,
            None => {
                return Err(ProviderError::WatermarkExhausted);
            },
        };
        if let Err(error) = self.validate() {
            return Err(error);
        }
        self.fencing_epoch = epoch;
        self.owner = Some(intent.next.clone());
        self.pending_transfer = Some(
            StoredTransfer {
                id: intent.id.clone(),
                current: intent.current.clone(),
                next: intent.next.clone(),
                expected_acked_through: intent.expected_acked_through,
                fencing_epoch: epoch,
            },
        );
        Ok(self.transfer_result(intent.next.as_str(), intent.id.as_str()))
    }

    /// Acknowledges a transfer, once or again.
    pub fn ack_transfer(&mut self, id: &str) -> (result: Result<(), ProviderError>)
        ensures
            moves(result, old(self)@, final(self)@, old(self)@.after_transfer_ack(id@)),
    {
        let pending = match &self.pending_transfer {
            Some(transfer) => same_text(transfer.id.as_str(), id),
            None => false,
        };
        if pending {
            if let Err(error) = self.validate() {
                return Err(error);
            }
            self.pending_transfer = None;
            self.last_acknowledged_transfer_id = Some(id.to_owned());
            Ok(())
        } else if is_text(&self.last_acknowledged_transfer_id, id) {
            Ok(())
        } else {
            Err(ProviderError::ChangeFeedTransferMismatch)
        }
    }

    fn reconcile_mutation(
        &mut self,
        generation: &CollectionGeneration,
        mutation: &CommittedMutation,
        was_changed: bool,
    ) -> (result: Result<(CollectionGeneration, bool), ProviderError>)
        ensures
            match result {
                Ok((next, changed)) => reconcile_one(
                    FeedState {
                        journal: old(self)@,
                        generation: generation@,
                        changed: was_changed,
                    },
                    RuntimeResolution::Committed(*mutation),
                ) == Ok::<_, FaultModel>(
                    FeedState { journal: final(self)@, generation: next@, changed },
                ),
                Err(error) => reconcile_one(
                    FeedState {
                        journal: old(self)@,
                        generation: generation@,
                        changed: was_changed,
                    },
                    RuntimeResolution::Committed(*mutation),
                ) == Err::<FeedState, _>(error@),
            },
    {
        if find_event(&self.events, mutation.event_id.as_str()).is_some() {
            return Ok((generation.copy(), was_changed));
        }
        if lists_watermark(&self.events, mutation.watermark) {
            return Err(corrupt("two durable events claim one change watermark"));
        }
        let next = match generation.advance(&mutation.generation) {
            Ok(next) => next,
            Err(error) => {
                return Err(error);
            },
        };
        if mutation.watermark > self.head {
            self.head = mutation.watermark;
        }
        let event = RuntimeChangeEvent {
            identity: ChangeEventIdentity {
                id: mutation.event_id.clone(),
                watermark: mutation.watermark,
            },
            generation: next.copy(),
            changes: ChangeSet::Exact(copy_changes(&mutation.changes)),
            origin: ChangeOrigin::RecoveryReconciliation,
            commit_id: Some(mutation.commit_id.clone()),
        };
        place_event(&mut self.events, event);
        Ok((next, true))
    }

    /// A copy of the journal.
    pub fn copy(&self) -> (result: FeedJournal)
        ensures
            result@ == self@,
    {
        FeedJournal {
            version: self.version,
            owner: copy_optional(&self.owner),
            fencing_epoch: self.fencing_epoch,
            acknowledged_through: self.acknowledged_through,
            head: self.head,
            baseline_through: self.baseline_through,
            events: copy_events(&self.events),
            pending_transfer: match &self.pending_transfer {
                Some(transfer) => Some(
                    StoredTransfer {
                        id: transfer.id.clone(),
                        current: transfer.current.clone(),
                        next: transfer.next.clone(),
                        expected_acked_through: transfer.expected_acked_through,
                        fencing_epoch: transfer.fencing_epoch,
                    },
                ),
                None => None,
            },
            last_acknowledged_transfer_id: copy_optional(&self.last_acknowledged_transfer_id),
        }
    }

    /// Adds the committed mutations that the journal lacks. `stored` says whether
    /// the journal is stored yet.
    pub fn reconcile(
        &mut self,
        generation: &CollectionGeneration,
        resolutions: &Vec<RuntimeResolution>,
        stored: bool,
    ) -> (result: Result<ReconciledFeed, ProviderError>)
        ensures
            match result {
                Ok(feed) => reconciled_feed(old(self)@, generation@, resolutions@, stored) == Ok::<
                    _,
                    FaultModel,
                >(
                    FeedState {
                        journal: final(self)@,
                        generation: feed.generation@,
                        changed: feed.changed,
                    },
                ) && feed.watermark == final(self)@.head,
                Err(error) => reconciled_feed(old(self)@, generation@, resolutions@, stored)
                    == Err::<FeedState, _>(error@) && final(self)@ == old(self)@,
            },
    {
        if let Err(error) = self.validate() {
            return Err(error);
        }
        let ghost start = FeedState {
            journal: self@,
            generation: generation@,
            changed: !stored,
        };
        let mut journal = self.copy();
        let mut current = generation.copy();
        let mut changed = !stored;
        proof {
            assert(resolutions@.take(0) =~= Seq::empty());
        }
        let mut i: usize = 0;
        while i < resolutions.len()
            invariant
                i <= resolutions@.len(),
                self@ == old(self)@,
                start == (FeedState {
                    journal: old(self)@,
                    generation: generation@,
                    changed: !stored,
                }),
                start.journal.sound(),
                reconcile_all(start, resolutions@.take(i as int)) == Ok::<_, FaultModel>(
                    FeedState { journal: journal@, generation: current@, changed },
                ),
            decreases resolutions@.len() - i,
        {
            proof {
                let next = resolutions@.take(i + 1);
                assert(next.drop_last() =~= resolutions@.take(i as int));
                assert(next.last() == resolutions@[i as int]);
            }
            if let RuntimeResolution::Committed(mutation) = &resolutions[i] {
                match journal.reconcile_mutation(&current, mutation, changed) {
                    Ok((next, now_changed)) => {
                        current = next;
                        changed = now_changed;
                    },
                    Err(error) => {
                        proof {
                            lemma_reconcile_stops(start, resolutions@, i + 1);
                        }
                        return Err(error);
                    },
                }
            }
            i = i + 1;
        }
        proof {
            assert(resolutions@.take(i as int) =~= resolutions@);
        }
        if let Err(error) = journal.validate() {
            return Err(error);
        }
        let watermark: u64 = journal.head;
        *self = journal;
        Ok(ReconciledFeed { watermark, generation: current, changed })
    }
}

/// Whether a page holds what a reader of a journal is owed.
pub open spec fn reads(
    result: Result<RuntimeChangeEventPage, ProviderError>,
    journal: JournalModel,
    feed: ChangeFeed,
    after: Option<u64>,
    limit: usize,
) -> bool {
    let start = match after {
        Some(after) => after as int,
        None => journal.acknowledged_through,
    };
    if let Some(fault) = journal.refusal(feed) {
        result is Err && result->Err_0@ == fault
    } else if start < journal.acknowledged_through {
        result is Err && result->Err_0 == ProviderError::ChangeFeedRetentionGap
    } else {
        &&& result is Ok
        &&& result->Ok_0.feed_head == journal.head
        &&& event_models(result->Ok_0.events@) == page_events(journal, start, limit as int)
        &&& next_page(result->Ok_0.next) == page_next(journal, start, limit as int)
    }
}

pub open spec fn next_page(next: Option<u64>) -> Option<int> {
    match next {
        Some(watermark) => Some(watermark as int),
        None => None,
    }
}

/// The events of one page.
pub open spec fn page_events(journal: JournalModel, after: int, limit: int) -> Seq<EventModel> {
    let all = later(journal.events, after);
    let most = if limit < MAX_PAGE_ITEMS {
        limit
    } else {
        MAX_PAGE_ITEMS as int
    };
    if after >= journal.head {
        Seq::empty()
    } else if all.len() < most {
        all
    } else {
        all.take(most)
    }
}

/// Where the page after one starts, if there is one.
pub open spec fn page_next(journal: JournalModel, after: int, limit: int) -> Option<int> {
    let events = page_events(journal, after, limit);
    if events.len() > 0 && events.last().watermark < journal.head {
        Some(events.last().watermark)
    } else {
        None
    }
}

/// Whether a transfer hands a journal's feed to an owner.
pub open spec fn hands_over(
    transfer: ChangeFeedTransfer,
    journal: JournalModel,
    owner: Seq<char>,
    id: Seq<char>,
) -> bool {
    &&& transfer.feed.owner@ == owner
    &&& transfer.feed.fencing_epoch == journal.fencing_epoch
    &&& transfer.receipt.id@ == id
    &&& transfer.receipt.fencing_epoch == journal.fencing_epoch
    &&& transfer.receipt.acknowledged_through == journal.acknowledged_through
    &&& transfer.receipt.feed_head == journal.head
}

// ---------------------------------------------------------------------------
// Laws
// ---------------------------------------------------------------------------
/// A sound journal takes the next event and stays sound.
pub proof fn lemma_next_event_is_accepted(journal: JournalModel, event: EventModel)
    requires
        journal.sound(),
        journal.head + 1 <= u64::MAX,
        event.watermark == journal.head + 1,
    ensures
        journal.with_event(event).sound(),
        journal.with_event(event).acknowledged_through == journal.acknowledged_through,
{
    lemma_sound_journal_is_contiguous(journal);
    let after = journal.with_event(event);
    assert forall|i: int| 0 <= i < after.events.len() implies (
    #[trigger] after.events[i]).watermark == watermark_at(after.acknowledged_through, i)
        && after.events[i].watermark <= after.head by {
        if i < journal.events.len() {
            assert(after.events[i] == journal.events[i]);
        }
    }
    assert(after.events.last() == event);
}

proof fn lemma_later_events(events: Seq<EventModel>, start: int, after: int)
    requires
        start <= after,
        forall|i: int|
            0 <= i < events.len() ==> (#[trigger] events[i]).watermark == start + 1 + i,
    ensures
        later(events, after) == if after - start <= events.len() {
            events.skip(after - start)
        } else {
            Seq::empty()
        },
    decreases events.len(),
{
    let count = after - start;
    if events.len() == 0 {
        if count <= 0 {
            assert(events.skip(count) =~= Seq::empty());
        }
    } else {
        let front = events.drop_last();
        assert forall|i: int| 0 <= i < front.len() implies (#[trigger] front[i]).watermark == start
            + 1 + i by {
            assert(front[i] == events[i]);
        }
        lemma_later_events(front, start, after);
        assert(events.last().watermark == start + events.len());
        if count < events.len() {
            assert(front.skip(count).push(events.last()) =~= events.skip(count));
        } else if count == events.len() {
            assert(events.skip(count) =~= Seq::empty());
        }
    }
}

/// Acknowledging through a watermark of a sound journal is always possible, keeps
/// the journal sound, and leaves exactly the later events.
pub proof fn lemma_acknowledgement_keeps_the_rest(journal: JournalModel, through: int)
    requires
        journal.sound(),
        journal.head < u64::MAX,
        journal.acknowledged_through <= through <= journal.head,
    ensures
        journal.acknowledged(through).sound(),
        journal.acknowledged(through).head == journal.head,
        journal.acknowledged(through).events == journal.events.skip(
            through - journal.acknowledged_through,
        ),
{
    lemma_sound_journal_is_contiguous(journal);
    lemma_later_events(journal.events, journal.acknowledged_through, through);
    let after = journal.acknowledged(through);
    let count = through - journal.acknowledged_through;
    assert forall|i: int| 0 <= i < after.events.len() implies (
    #[trigger] after.events[i]).watermark == watermark_at(after.acknowledged_through, i)
        && after.events[i].watermark <= after.head by {
        assert(after.events[i] == journal.events[i + count]);
    }
    if after.head > through {
        assert(after.events.last() == journal.events.last());
    }
}

/// An acknowledgement that came before one that reaches further makes no
/// difference.
pub proof fn lemma_acknowledgements_are_cumulative(
    journal: JournalModel,
    first: int,
    second: int,
)
    requires
        journal.sound(),
        journal.head < u64::MAX,
        journal.acknowledged_through <= first <= second <= journal.head,
    ensures
        journal.acknowledged(first).acknowledged(second) == journal.acknowledged(second),
{
    lemma_acknowledgement_keeps_the_rest(journal, first);
    lemma_acknowledgement_keeps_the_rest(journal, second);
    let middle = journal.acknowledged(first);
    lemma_acknowledgement_keeps_the_rest(middle, second);
    assert(middle.acknowledged(second).events =~= journal.acknowledged(second).events);
}

/// A page of a sound journal starts right after its position and has no gaps; the
/// next page starts after its last event, and without one the reader has caught
/// up.
pub proof fn lemma_pages_have_no_gaps(journal: JournalModel, after: int, limit: int)
    requires
        journal.sound(),
        journal.head < u64::MAX,
        limit > 0,
        journal.acknowledged_through <= after < journal.head,
    ensures
        page_events(journal, after, limit).len() > 0,
        forall|i: int|
            0 <= i < page_events(journal, after, limit).len() ==> (#[trigger] page_events(
                journal,
                after,
                limit,
            )[i]).watermark == after + 1 + i,
        page_next(journal, after, limit) is Some ==> page_next(journal, after, limit)->0 == after
            + page_events(journal, after, limit).len(),
        page_next(journal, after, limit) is None ==> page_events(
            journal,
            after,
            limit,
        ).last().watermark == journal.head,
{
    lemma_sound_journal_is_contiguous(journal);
    lemma_later_events(journal.events, journal.acknowledged_through, after);
    let count = after - journal.acknowledged_through;
    let all = later(journal.events, after);
    let page = page_events(journal, after, limit);
    assert(all.len() == journal.head - after);
    assert forall|i: int| 0 <= i < page.len() implies (#[trigger] page[i]).watermark == after + 1
        + i by {
        assert(page[i] == all[i]);
        assert(all[i] == journal.events[i + count]);
    }
}

/// Opening a feed and transferring it each raise the fencing epoch, so that feeds
/// held before are refused.
pub proof fn lemma_new_feeds_fence_old_ones(
    journal: JournalModel,
    owner: Seq<char>,
    intent: ChangeFeedTransferIntent,
    held: ChangeFeed,
)
    requires
        journal.refusal(held) is None,
    ensures
        match journal.after_open(owner) {
            Ok(after) => after.refusal(held) == Some(
                FaultModel::Other(ProviderError::ChangeFeedFenced),
            ),
            Err(_) => true,
        },
        match journal.after_transfer(intent) {
            Ok(after) => journal.is_transferring(intent) || after.refusal(held) == Some(
                FaultModel::Other(ProviderError::ChangeFeedFenced),
            ),
            Err(_) => true,
        },
{
}

/// Repeating a transfer, its acknowledgement, or a known mutation changes nothing.
pub proof fn lemma_repetition_changes_nothing(
    journal: JournalModel,
    intent: ChangeFeedTransferIntent,
    outcome: ExecutionOutcome,
)
    ensures
        match journal.after_transfer(intent) {
            Ok(after) => after.after_transfer(intent) == Ok::<_, FaultModel>(after),
            Err(_) => true,
        },
        match journal.after_transfer_ack(intent.id@) {
            Ok(after) => after.pending_transfer is None ==> after.after_transfer_ack(intent.id@)
                == Ok::<_, FaultModel>(after),
            Err(_) => true,
        },
        match journal.after_known(outcome) {
            Ok(after) => after.after_known(outcome) == Ok::<_, FaultModel>(after),
            Err(_) => true,
        },
{
    if let Ok(after) = journal.after_known(outcome) {
        if after != journal {
            let identity = outcome.change_event->0;
            let event = after.events.last();
            assert(after.events =~= journal.events.push(event));
            lemma_found_at_end(journal.events, event);
        }
    }
}

proof fn lemma_found_at_end(events: Seq<EventModel>, event: EventModel)
    requires
        event_with_id(events, event.id) is None,
    ensures
        event_with_id(events.push(event), event.id) == Some(event),
    decreases events.len(),
{
    if events.len() > 0 {
        lemma_found_at_end(events.drop_first(), event);
        assert(events.push(event).drop_first() =~= events.drop_first().push(event));
        assert(events.push(event)[0] == events[0]);
    } else {
        assert(events.push(event)[0] == event);
    }
}

/// A new feed is sound, and so is what every operation leaves.
pub proof fn lemma_operations_keep_the_journal_sound(
    journal: JournalModel,
    outcome: ExecutionOutcome,
    event: EventModel,
    owner: Seq<char>,
    feed: ChangeFeed,
    through: int,
    intent: ChangeFeedTransferIntent,
)
    requires
        journal.sound(),
    ensures
        empty_journal().sound(),
        journal.with_baseline().sound(),
        match journal.after_known(outcome) {
            Ok(after) => after.sound(),
            Err(_) => true,
        },
        match journal.after_external(event) {
            Ok(after) => after.sound(),
            Err(_) => true,
        },
        match journal.after_open(owner) {
            Ok(after) => after.sound(),
            Err(_) => true,
        },
        match journal.after_ack(feed, through) {
            Ok(after) => after.sound(),
            Err(_) => true,
        },
        match journal.after_transfer(intent) {
            Ok(after) => after.sound(),
            Err(_) => true,
        },
        match journal.after_transfer_ack(intent.id@) {
            Ok(after) => after.sound(),
            Err(_) => true,
        },
{
    assert(journal.with_baseline().events_are_ordered());
    if let Ok(after) = journal.after_open(owner) {
        assert(after.events_are_ordered()) by {
            assert(journal.events_are_ordered());
        }
    }
    if let Ok(after) = journal.after_transfer(intent) {
        assert(after.events_are_ordered()) by {
            assert(journal.events_are_ordered());
        }
    }
    if let Ok(after) = journal.after_transfer_ack(intent.id@) {
        assert(after.events_are_ordered()) by {
            assert(journal.events_are_ordered());
        }
    }
}

proof fn lemma_placed_keeps_ids(events: Seq<EventModel>, event: EventModel, id: Seq<char>)
    requires
        has_id(events, id) || event.id == id,
    ensures
        has_id(placed(events, event), id),
    decreases events.len(),
{
    let result = placed(events, event);
    if events.len() == 0 || events.last().watermark <= event.watermark {
        if event.id == id {
            assert(result[events.len() as int].id == id);
        } else {
            let k = choose|k: int| 0 <= k < events.len() && (#[trigger] events[k]).id == id;
            assert(result[k].id == id);
        }
    } else {
        let front = events.drop_last();
        let rest = placed(front, event);
        if events.last().id == id {
            assert(result[rest.len() as int].id == id);
        } else {
            if has_id(events, id) {
                let k = choose|k: int| 0 <= k < events.len() && (#[trigger] events[k]).id == id;
                assert(front[k].id == id);
            }
            lemma_placed_keeps_ids(front, event, id);
            let k = choose|k: int| 0 <= k < rest.len() && (#[trigger] rest[k]).id == id;
            assert(result[k].id == id);
        }
    }
}

/// Whether the events of all committed mutations are in a journal.
spec fn has_committed(events: Seq<EventModel>, resolutions: Seq<RuntimeResolution>) -> bool {
    forall|i: int|
        0 <= i < resolutions.len() ==> match #[trigger] resolutions[i] {
            RuntimeResolution::Committed(mutation) => has_id(events, mutation.event_id@),
            _ => true,
        }
}

proof fn lemma_reconciled_has_committed(state: FeedState, resolutions: Seq<RuntimeResolution>)
    requires
        reconcile_all(state, resolutions) is Ok,
    ensures
        has_committed((reconcile_all(state, resolutions)->Ok_0).journal.events, resolutions),
    decreases resolutions.len(),
{
    if resolutions.len() > 0 {
        let front = resolutions.drop_last();
        lemma_reconciled_has_committed(state, front);
        let middle = reconcile_all(state, front)->Ok_0;
        let after = reconcile_all(state, resolutions)->Ok_0;
        assert forall|i: int| 0 <= i < resolutions.len() implies match #[trigger] resolutions[i] {
            RuntimeResolution::Committed(mutation) => has_id(
                after.journal.events,
                mutation.event_id@,
            ),
            _ => true,
        } by {
            if let RuntimeResolution::Committed(mutation) = resolutions[i] {
                if i < front.len() {
                    assert(front[i] == resolutions[i]);
                }
                if let RuntimeResolution::Committed(last) = resolutions.last() {
                    if !has_id(middle.journal.events, last.event_id@) {
                        lemma_placed_keeps_ids(
                            middle.journal.events,
                            committed_event(
                                last,
                                middle.generation.advanced(last.generation@),
                                ChangeOrigin::RecoveryReconciliation,
                            ),
                            mutation.event_id@,
                        );
                    }
                }
            }
        }
    }
}

proof fn lemma_nothing_to_reconcile(state: FeedState, resolutions: Seq<RuntimeResolution>)
    requires
        has_committed(state.journal.events, resolutions),
    ensures
        reconcile_all(state, resolutions) == Ok::<_, FaultModel>(state),
    decreases resolutions.len(),
{
    if resolutions.len() > 0 {
        let front = resolutions.drop_last();
        assert forall|i: int| 0 <= i < front.len() implies match #[trigger] front[i] {
            RuntimeResolution::Committed(mutation) => has_id(
                state.journal.events,
                mutation.event_id@,
            ),
            _ => true,
        } by {
            assert(front[i] == resolutions[i]);
        }
        lemma_nothing_to_reconcile(state, front);
        assert(resolutions[resolutions.len() - 1] == resolutions.last());
    }
}

/// Reconciling a journal with the same transactions again changes nothing.
pub proof fn lemma_reconciliation_is_idempotent(
    state: FeedState,
    resolutions: Seq<RuntimeResolution>,
)
    requires
        reconcile_all(state, resolutions) is Ok,
    ensures
        reconcile_all(reconcile_all(state, resolutions)->Ok_0, resolutions) == reconcile_all(
            state,
            resolutions,
        ),
{
    lemma_reconciled_has_committed(state, resolutions);
    lemma_nothing_to_reconcile(reconcile_all(state, resolutions)->Ok_0, resolutions);
}

} // verus!
