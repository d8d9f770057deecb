//! What a runtime makes of observations, commits, and cancellations.

use crate::canonical_operation::CanonicalOperationOutcome;
use crate::changes::{ChangeModel, ChangeSetModel, RecordChangeKind, ResourceChangeKind};
use crate::diff::OperationRequest;
use crate::external::{observed_change, ObservedFaults, WatchEvent};
use crate::feed::FeedState;
use crate::filesystem::{
    answers, committed_model, finishes_commit, ingested, is_cancel_of, is_state_of, next_positions,
    request_json, touched_paths, transaction_fault, unexplained, wanted_items, without_limit,
    CancelOutcome, CommitAttempt, DurableCommitState, FilesystemRuntime, TransactionError,
};
use crate::json::{
    bool_member, lemma_lookup_without_member, member_of, text_member, unsigned_model, JsonModel,
};
use crate::operation_values::object_member;
use crate::provider_error::{FaultModel, ProviderError};
use crate::resolutions::{CommittedMutation, RuntimeResolution};
use vstd::prelude::*;

verus! {

// ---------------------------------------------------------------------------
// Observations
// ---------------------------------------------------------------------------
proof fn lemma_event_names()
    ensures
        "mdbase.record.created"@ != "mdbase.record.modified"@,
        "mdbase.record.created"@ != "mdbase.record.deleted"@,
        "mdbase.record.created"@ != "mdbase.record.renamed"@,
        "mdbase.record.modified"@ != "mdbase.record.deleted"@,
        "mdbase.record.modified"@ != "mdbase.record.renamed"@,
        "mdbase.record.deleted"@ != "mdbase.record.renamed"@,
        "mdbase.config.changed"@ != "mdbase.record.created"@,
        "mdbase.config.changed"@ != "mdbase.record.modified"@,
        "mdbase.config.changed"@ != "mdbase.record.deleted"@,
        "mdbase.config.changed"@ != "mdbase.record.renamed"@,
{
    reveal_strlit("mdbase.record.created");
    reveal_strlit("mdbase.record.modified");
    reveal_strlit("mdbase.record.deleted");
    reveal_strlit("mdbase.record.renamed");
    reveal_strlit("mdbase.config.changed");
    assert("mdbase.record.created"@[14] == 'c');
    assert("mdbase.record.modified"@[14] == 'm');
    assert("mdbase.record.deleted"@[14] == 'd');
    assert("mdbase.record.renamed"@[14] == 'r');
    assert("mdbase.config.changed"@[7] == 'c');
    assert("mdbase.record.created"@[7] == 'r' && "mdbase.record.modified"@[7] == 'r'
        && "mdbase.record.deleted"@[7] == 'r' && "mdbase.record.renamed"@[7] == 'r');
}

/// Whether nothing is wrong with the parts of an observation, and its path stands as it
/// is written.
pub open spec fn no_faults(faults: ObservedFaults) -> bool {
    faults.path is None && faults.from is None && faults.previous_revision is None
        && faults.revision is None
}

/// Whether a revision of an observation can be read: it is a text, null, or not there.
pub open spec fn revision_reads(payload: JsonModel, field: Seq<char>) -> bool {
    match member_of(payload, field) {
        None => true,
        Some(value) => value is Null || value is Text,
    }
}

/// Whether a record's revision is what an observation says.
pub open spec fn revision_is(
    found: Option<Seq<char>>,
    payload: JsonModel,
    field: Seq<char>,
) -> bool {
    match member_of(payload, field) {
        Some(JsonModel::Text(revision)) => found == Some(revision),
        _ => found is None,
    }
}

/// An observed creation is a created record at its path, with the revision said and no
/// state before; it is understood exactly where its contents, path and revision are
/// there.
pub proof fn lemma_observed_creations(event: WatchEvent, faults: ObservedFaults)
    requires
        event.event_type@ == "mdbase.record.created"@,
        no_faults(faults),
    ensures
        ({
            let payload = event.payload@;
            let found = observed_change(event, faults);
            &&& found is Some
            &&& found->0 is Ok <==> object_member(payload, "raw_after"@) is Some && text_member(
                payload,
                "path"@,
            ) is Some && revision_reads(payload, "revision"@)
            &&& found->0 is Ok ==> {
                let change = found->0->Ok_0->Record_0;
                &&& found->0->Ok_0 is Record
                &&& change.kind == RecordChangeKind::Created
                &&& change.path == text_member(payload, "path"@)->0
                &&& change.from is None
                &&& change.before_revision is None
                &&& revision_is(change.after_revision, payload, "revision"@)
                &&& change.before_types.len() == 0
                &&& change.body_changed <==> bool_member(payload, "body_changed"@) != Some(false)
            }
        }),
{
    lemma_event_names();
}

/// An observed deletion is a deleted record at its path, with the revision it had and no
/// state after.
pub proof fn lemma_observed_deletions(event: WatchEvent, faults: ObservedFaults)
    requires
        event.event_type@ == "mdbase.record.deleted"@,
        no_faults(faults),
    ensures
        ({
            let payload = event.payload@;
            let found = observed_change(event, faults);
            &&& found is Some
            &&& found->0 is Ok <==> object_member(payload, "raw_before"@) is Some && text_member(
                payload,
                "path"@,
            ) is Some && revision_reads(payload, "previous_revision"@)
            &&& found->0 is Ok ==> {
                let change = found->0->Ok_0->Record_0;
                &&& found->0->Ok_0 is Record
                &&& change.kind == RecordChangeKind::Deleted
                &&& change.path == text_member(payload, "path"@)->0
                &&& change.from is None
                &&& revision_is(change.before_revision, payload, "previous_revision"@)
                &&& change.after_revision is None
                &&& change.after_types.len() == 0
                &&& change.body_changed <==> bool_member(payload, "body_changed"@) != Some(false)
            }
        }),
{
    lemma_event_names();
}

/// Whether both contents and revisions of an observation can be read.
pub open spec fn both_states_read(payload: JsonModel) -> bool {
    object_member(payload, "raw_before"@) is Some && object_member(payload, "raw_after"@) is Some
        && revision_reads(payload, "previous_revision"@) && revision_reads(payload, "revision"@)
}

/// An observed modification is an updated record that stayed at its path, with the
/// revisions said.
pub proof fn lemma_observed_modifications(event: WatchEvent, faults: ObservedFaults)
    requires
        event.event_type@ == "mdbase.record.modified"@,
        no_faults(faults),
    ensures
        ({
            let payload = event.payload@;
            let found = observed_change(event, faults);
            &&& found is Some
            &&& found->0 is Ok <==> both_states_read(payload) && text_member(payload, "path"@)
                is Some
            &&& found->0 is Ok ==> {
                let change = found->0->Ok_0->Record_0;
                &&& found->0->Ok_0 is Record
                &&& change.kind == RecordChangeKind::Updated
                &&& change.path == text_member(payload, "path"@)->0
                &&& change.from is None
                &&& revision_is(change.before_revision, payload, "previous_revision"@)
                &&& revision_is(change.after_revision, payload, "revision"@)
                &&& change.body_changed <==> bool_member(payload, "body_changed"@) != Some(false)
            }
        }),
{
    lemma_event_names();
}

/// An observed rename is a renamed record that went from the one path to the other; its
/// body counts as changed only where the observation says so.
pub proof fn lemma_observed_renames(event: WatchEvent, faults: ObservedFaults)
    requires
        event.event_type@ == "mdbase.record.renamed"@,
        no_faults(faults),
    ensures
        ({
            let payload = event.payload@;
            let found = observed_change(event, faults);
            &&& found is Some
            &&& found->0 is Ok <==> both_states_read(payload) && text_member(payload, "to"@)
                is Some && text_member(payload, "from"@) is Some
            &&& found->0 is Ok ==> {
                let change = found->0->Ok_0->Record_0;
                &&& found->0->Ok_0 is Record
                &&& change.kind == RecordChangeKind::Renamed
                &&& change.path == text_member(payload, "to"@)->0
                &&& change.from == text_member(payload, "from"@)
                &&& revision_is(change.before_revision, payload, "previous_revision"@)
                &&& revision_is(change.after_revision, payload, "revision"@)
                &&& change.body_changed <==> bool_member(payload, "body_changed"@) == Some(true)
            }
        }),
{
    lemma_event_names();
}

/// An observed change of the configuration is one of its file, and a change of another
/// resource one of the file that it names.
pub proof fn lemma_observed_resources(event: WatchEvent, faults: ObservedFaults)
    requires
        no_faults(faults),
        revision_reads(event.payload@, "previous_revision"@),
        revision_reads(event.payload@, "revision"@),
    ensures
        event.event_type@ == "mdbase.config.changed"@ ==> {
            let found = observed_change(event, faults);
            &&& found is Some
            &&& found->0 matches Ok(ChangeModel::Resource(change))
            &&& change.kind == ResourceChangeKind::Configuration
            &&& change.path == "mdbase.yaml"@
            &&& revision_is(change.before_revision, event.payload@, "previous_revision"@)
            &&& revision_is(change.after_revision, event.payload@, "revision"@)
        },
        match observed_change(event, faults) {
            Some(Ok(ChangeModel::Resource(change))) => change.kind
                == ResourceChangeKind::Configuration || text_member(event.payload@, "path"@)
                == Some(change.path),
            _ => true,
        },
{
    lemma_event_names();
}

/// What is taken in of an observation: just the change that it stands for, or the whole
/// collection where it stands for none.
pub proof fn lemma_ingested_observations(event: WatchEvent, faults: ObservedFaults)
    ensures
        match ingested(event, faults) {
            ChangeSetModel::Exact(changes) => changes.len() == 1 && observed_change(event, faults)
                == Some(Ok::<_, Seq<char>>(changes[0])),
            ChangeSetModel::CollectionWide { .. } => match observed_change(event, faults) {
                Some(result) => result is Err,
                None => true,
            },
            ChangeSetModel::Nothing => false,
        },
{
}

/// The observations that are left after a commit: just those whose change the commit did
/// not make, in their order.
pub proof fn lemma_unexplained_observations(
    events: Seq<WatchEvent>,
    faults: Seq<ObservedFaults>,
    known: Seq<ChangeModel>,
    event: WatchEvent,
)
    requires
        events.len() <= faults.len(),
    ensures
        unexplained(events, faults, known).contains(event) <==> exists|i: int|
            0 <= i < events.len() && events[i] == event && !explains(
                known,
                #[trigger] events[i],
                faults[i],
            ),
        unexplained(events, faults, known).len() <= events.len(),
    decreases events.len(),
{
    if events.len() > 0 {
        let last = events.len() - 1;
        let front = events.drop_last();
        lemma_unexplained_observations(front, faults, known, event);
        let rest = unexplained(front, faults, known);
        let all = unexplained(events, faults, known);
        if rest.contains(event) {
            let i = choose|i: int|
                0 <= i < front.len() && front[i] == event && !explains(
                    known,
                    #[trigger] front[i],
                    faults[i],
                );
            assert(events[i] == front[i]);
            let k = choose|k: int| 0 <= k < rest.len() && rest[k] == event;
            assert(all[k] == event);
        }
        if events[last] == event && !explains(known, events[last], faults[last]) {
            assert(all[all.len() - 1] == event);
        }
        if all.contains(event) && !rest.contains(event) {
            let k = choose|k: int| 0 <= k < all.len() && all[k] == event;
            if k < rest.len() {
                assert(rest[k] == event);
            }
            assert(events[last] == event);
            assert(!explains(known, events[last], faults[last]));
        }
        if exists|i: int|
            0 <= i < events.len() && events[i] == event && !explains(
                known,
                #[trigger] events[i],
                faults[i],
            ) {
            let i = choose|i: int|
                0 <= i < events.len() && events[i] == event && !explains(
                    known,
                    #[trigger] events[i],
                    faults[i],
                );
            if i < front.len() {
                assert(front[i] == events[i]);
            }
        }
    }
}

/// Whether known changes explain an observation: it stands for one of them.
pub open spec fn explains(
    known: Seq<ChangeModel>,
    event: WatchEvent,
    faults: ObservedFaults,
) -> bool {
    match observed_change(event, faults) {
        Some(Ok(change)) => known.contains(change),
        _ => false,
    }
}

// ---------------------------------------------------------------------------
// Commits
// ---------------------------------------------------------------------------
/// The paths to look at again after changes: just those that a record is at or came
/// from.
pub proof fn lemma_touched_paths(changes: Seq<ChangeModel>, path: Seq<char>)
    ensures
        touched_paths(changes).contains(path) <==> exists|i: int|
            0 <= i < changes.len() && touches(#[trigger] changes[i], path),
    decreases changes.len(),
{
    if changes.len() > 0 {
        let front = changes.drop_last();
        lemma_touched_paths(front, path);
        let rest = touched_paths(front);
        let all = touched_paths(changes);
        let last = changes.last();
        assert(changes[changes.len() - 1] == last);
        if rest.contains(path) {
            let i = choose|i: int| 0 <= i < front.len() && touches(#[trigger] front[i], path);
            assert(changes[i] == front[i]);
            let k = choose|k: int| 0 <= k < rest.len() && rest[k] == path;
            assert(all[k] == path);
        }
        if touches(last, path) {
            let change = last->Record_0;
            if change.path == path {
                assert(all[rest.len() as int] == path);
            } else {
                assert(all[rest.len() as int + 1] == path);
            }
        }
        if all.contains(path) && !rest.contains(path) {
            let k = choose|k: int| 0 <= k < all.len() && all[k] == path;
            if k < rest.len() {
                assert(rest[k] == path);
            }
            assert(touches(last, path));
        }
        if exists|i: int| 0 <= i < changes.len() && touches(#[trigger] changes[i], path) {
            let i = choose|i: int| 0 <= i < changes.len() && touches(#[trigger] changes[i], path);
            if i < front.len() {
                assert(front[i] == changes[i]);
            }
        }
    }
}

/// Whether a change is of a record that is at a path or came from it.
pub open spec fn touches(change: ChangeModel, path: Seq<char>) -> bool {
    match change {
        ChangeModel::Record(change) => change.path == path || change.from == Some(path),
        ChangeModel::Resource(_) => false,
    }
}

/// A committed mutation is reported with its own operation, generation, exact changes,
/// commit, and event.
pub proof fn lemma_committed_outcomes(mutation: CommittedMutation)
    ensures
        ({
            let outcome = committed_model(mutation);
            &&& outcome.operation == mutation.operation@
            &&& outcome.generation == mutation.generation@
            &&& outcome.commit_id == Some(mutation.commit_id@)
            &&& outcome.change_event is Some
            &&& (outcome.change_event->0).0 == mutation.event_id@
            &&& (outcome.change_event->0).1 == mutation.watermark
            &&& outcome.changes is Exact
            &&& outcome.changes->Exact_0.len() == mutation.changes@.len()
        }),
{
}

/// Cancelling says that nothing was committed only of a transaction that was cancelled;
/// one whose commit has begun, is done, was rejected, or needs help is said to be so,
/// and one that is still prepared is an error.
pub proof fn lemma_cancellations_say_what_stands(
    result: Result<CancelOutcome, ProviderError>,
    resolution: RuntimeResolution,
)
    requires
        is_cancel_of(result, resolution),
    ensures
        result is Err <==> resolution is Prepared,
        result is Ok ==> {
            &&& result->Ok_0 is CancelledBeforeCommit <==> resolution is CancelledBeforeCommit
            &&& result->Ok_0 is AlreadyCommitStarted <==> resolution is Committing
            &&& result->Ok_0 is AlreadyCommitted <==> resolution is Committed
            &&& result->Ok_0 is AlreadyRejected <==> resolution is RejectedBeforeCommit
            &&& result->Ok_0 is NeedsManualRecovery <==> resolution is NeedsManualRecovery
        },
{
}

/// The durable state of a transaction is that of its resolution.
pub proof fn lemma_states_say_what_stands(
    state: DurableCommitState,
    resolution: RuntimeResolution,
)
    requires
        is_state_of(state, resolution),
    ensures
        state is Prepared <==> resolution is Prepared,
        state is Committing <==> resolution is Committing,
        state is Committed <==> resolution is Committed,
        state is RejectedBeforeCommit <==> resolution is RejectedBeforeCommit,
        state is CancelledBeforeCommit <==> resolution is CancelledBeforeCommit,
        state is NeedsManualRecovery <==> resolution is NeedsManualRecovery,
{
}

/// A caller is answered with an outcome exactly where the mutation was committed or
/// rejected; what is pending or needs help is an error.
pub proof fn lemma_answers(
    result: Result<CanonicalOperationOutcome, ProviderError>,
    attempt: CommitAttempt,
)
    requires
        answers(result, attempt),
    ensures
        result is Ok <==> attempt is Committed || attempt is RejectedBeforeCommit,
        attempt is Committed ==> result->Ok_0 == attempt->Committed_0.operation,
        attempt is RejectedBeforeCommit ==> result->Ok_0 == attempt->rejection.operation,
{
}

/// The positions of the next commit follow those that stand: one generation and one
/// watermark later, as long as there is one.
pub proof fn lemma_next_positions(state: FeedState)
    ensures
        next_positions(Ok(state)) is Ok <==> state.generation.sequence != u64::MAX
            && state.journal.head != u64::MAX,
        match next_positions(Ok(state)) {
            Ok((generation, watermark)) => generation.sequence == state.generation.sequence + 1
                && generation.runtime_epoch == state.generation.runtime_epoch && watermark
                == state.journal.head + 1,
            Err(_) => true,
        },
{
}

/// Finishing a commit moves the runtime to the mutation's position where that is the next
/// one, leaves it where it is already there, and refuses a position beyond; the position
/// never goes back.
pub proof fn lemma_commits_move_forward(
    result: Result<CommitAttempt, ProviderError>,
    before: FilesystemRuntime,
    after: FilesystemRuntime,
    mutation: CommittedMutation,
)
    requires
        finishes_commit(result, before, after, mutation),
    ensures
        result is Err <==> mutation.watermark > before.order.watermark + 1,
        after.order.watermark >= before.order.watermark,
        result is Ok ==> after.order.watermark >= mutation.watermark,
        mutation.watermark == before.order.watermark + 1 ==> after.order.watermark
            == mutation.watermark && after.order.generation@ == mutation.generation@,
        mutation.watermark <= before.order.watermark ==> after.order == before.order,
        result is Err ==> after.journal@ == before.journal@ && after.order == before.order,
{
}

/// Stops at the boundary of an operation stay stops; a claim that does not match and a
/// full runtime stay so too.
pub proof fn lemma_transaction_faults(error: TransactionError)
    ensures
        match error {
            TransactionError::ClaimMismatch => transaction_fault(error) == FaultModel::Other(
                ProviderError::ClaimMismatch,
            ),
            TransactionError::RuntimeCapacityExhausted => transaction_fault(error)
                == FaultModel::Other(ProviderError::RuntimeCapacityExhausted),
            TransactionError::OperationBoundary { code, message } => {
                &&& code@ == "operation_cancelled"@ <==> transaction_fault(error)
                    == FaultModel::Other(ProviderError::OperationCancelled)
                &&& code@ == "operation_deadline"@ <==> transaction_fault(error)
                    == FaultModel::Other(ProviderError::OperationDeadline)
            },
            TransactionError::Failed { code, message } => transaction_fault(error) == (
            FaultModel::Transaction { code: code@, message: message@ }),
        },
{
    reveal_strlit("operation_cancelled");
    reveal_strlit("operation_deadline");
    assert("operation_cancelled"@.len() == 19 && "operation_deadline"@.len() == 18);
}

/// A paged read runs without its limit, and everything else of it as it is; the limit is
/// the size of its pages, at most the most allowed.
pub proof fn lemma_expanded_reads(input: JsonModel, key: Seq<char>)
    ensures
        member_of(without_limit(input), "limit"@) is None,
        key != "limit"@ ==> member_of(without_limit(input), key) == member_of(input, key),
        match unsigned_model(member_of(input, "limit"@)) {
            Some(limit) => wanted_items(input) is Some && wanted_items(input)->0 <= 256 && (limit
                <= 256 ==> wanted_items(input)->0 == limit) && (limit > 256 ==> wanted_items(
                input,
            )->0 == 256),
            None => wanted_items(input) is None,
        },
{
    if let JsonModel::Object(members) = input {
        lemma_lookup_without_member(members, "limit"@, key);
    }
}

/// Requests are told apart by their operation and their input.
pub proof fn lemma_request_identity(left: OperationRequest, right: OperationRequest)
    ensures
        member_of(request_json(left), "operation"@) == Some(
            JsonModel::Text(left.operation.name()),
        ),
        member_of(request_json(left), "input"@) == Some(left.input@),
        request_json(left) == request_json(right) ==> left.input@ == right.input@
            && left.operation.name() == right.operation.name(),
{
    broadcast use crate::json::lemma_put;

    reveal_strlit("operation");
    reveal_strlit("input");
    assert("operation"@.len() == 9 && "input"@.len() == 5);
    lemma_request_members(left);
    lemma_request_members(right);
}

proof fn lemma_request_members(request: OperationRequest)
    ensures
        member_of(request_json(request), "operation"@) == Some(
            JsonModel::Text(request.operation.name()),
        ),
        member_of(request_json(request), "input"@) == Some(request.input@),
{
    reveal_strlit("operation");
    reveal_strlit("input");
    assert("operation"@.len() == 9 && "input"@.len() == 5);
    let first = crate::json::with_member(
        Seq::empty(),
        "operation"@,
        JsonModel::Text(request.operation.name()),
    );
    crate::json::lemma_lookup_with_member(
        Seq::empty(),
        "operation"@,
        JsonModel::Text(request.operation.name()),
        "operation"@,
    );
    crate::json::lemma_lookup_with_member(first, "input"@, request.input@, "operation"@);
    crate::json::lemma_lookup_with_member(first, "input"@, request.input@, "input"@);
}

/// A change of a type, a contract, a view, a schema or a lock is observed as one of that
/// kind of resource, at the path that it names.
pub proof fn lemma_observed_kinds_of_resources(event: WatchEvent, faults: ObservedFaults)
    requires
        no_faults(faults),
        revision_reads(event.payload@, "previous_revision"@),
        revision_reads(event.payload@, "revision"@),
        text_member(event.payload@, "path"@) is Some,
        event.event_type@ == "mdbase.type.changed"@ || event.event_type@
            == "mdbase.contract.changed"@ || event.event_type@ == "mdbase.view.changed"@
            || event.event_type@ == "mdbase.schema.changed"@ || event.event_type@
            == "mdbase.lock.changed"@,
    ensures
        observed_change(event, faults) matches Some(Ok(ChangeModel::Resource(change)))
            && change.path == text_member(event.payload@, "path"@)->0 && (event.event_type@
            == "mdbase.type.changed"@ <==> change.kind == ResourceChangeKind::TypeDefinition) && (
        event.event_type@ == "mdbase.contract.changed"@ <==> change.kind
            == ResourceChangeKind::Contract) && (event.event_type@ == "mdbase.view.changed"@
            <==> change.kind == ResourceChangeKind::ViewSource) && change.kind
            != ResourceChangeKind::Configuration,
{
    lemma_resource_names();
    lemma_event_names();
    assert(event.event_type@[7] != 'r');
}

proof fn lemma_resource_names()
    ensures
        "mdbase.type.changed"@ != "mdbase.contract.changed"@,
        "mdbase.type.changed"@ != "mdbase.view.changed"@,
        "mdbase.contract.changed"@ != "mdbase.view.changed"@,
        "mdbase.schema.changed"@ != "mdbase.type.changed"@,
        "mdbase.schema.changed"@ != "mdbase.contract.changed"@,
        "mdbase.schema.changed"@ != "mdbase.view.changed"@,
        "mdbase.lock.changed"@ != "mdbase.type.changed"@,
        "mdbase.lock.changed"@ != "mdbase.contract.changed"@,
        "mdbase.lock.changed"@ != "mdbase.view.changed"@,
        forall|name: Seq<char>|
            (name == "mdbase.type.changed"@ || name == "mdbase.contract.changed"@ || name
                == "mdbase.view.changed"@ || name == "mdbase.schema.changed"@ || name
                == "mdbase.lock.changed"@) ==> #[trigger] name[7] != 'r' && name
                != "mdbase.config.changed"@ && name != "mdbase.record.created"@ && name
                != "mdbase.record.modified"@ && name != "mdbase.record.deleted"@ && name
                != "mdbase.record.renamed"@,
{
    reveal_strlit("mdbase.type.changed");
    reveal_strlit("mdbase.contract.changed");
    reveal_strlit("mdbase.view.changed");
    reveal_strlit("mdbase.schema.changed");
    reveal_strlit("mdbase.lock.changed");
    reveal_strlit("mdbase.config.changed");
    reveal_strlit("mdbase.record.created");
    reveal_strlit("mdbase.record.modified");
    reveal_strlit("mdbase.record.deleted");
    reveal_strlit("mdbase.record.renamed");
    assert("mdbase.type.changed"@[7] == 't' && "mdbase.contract.changed"@[7] == 'c'
        && "mdbase.view.changed"@[7] == 'v' && "mdbase.schema.changed"@[7] == 's'
        && "mdbase.lock.changed"@[7] == 'l' && "mdbase.config.changed"@[7] == 'c');
    assert("mdbase.contract.changed"@.len() == 23 && "mdbase.config.changed"@.len() == 21);
    assert("mdbase.record.created"@[7] == 'r' && "mdbase.record.modified"@[7] == 'r'
        && "mdbase.record.deleted"@[7] == 'r' && "mdbase.record.renamed"@[7] == 'r');
}

} // verus!
