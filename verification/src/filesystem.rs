//! The state of a coordinated collection runtime and the decisions on it. What
//! reads and writes files, transactions, and watchers hands its results in.

use crate::canonical::{digest_json, json_digest};
use crate::canonical_operation::{missing_value, CanonicalOperationOutcome, OutcomeModel};
use crate::changes::{
    change_models, copy_changes, CanonicalChange, ChangeModel, ChangeOrigin, ChangeSet,
    ChangeSetModel, CollectionGeneration, GenerationModel, RebuildReason,
};
use crate::context::OperationContext;
use crate::cursor::{authenticated, entry_at, opens, turns, CursorStore, ReadCursor, ReadPage};
use crate::diff::OperationRequest;
use crate::external::{matches_known, normalize, observed_change, ObservedFaults, WatchEvent};
use crate::feed::{
    commits_of, hands_over, moves, reads, reconciled_feed, ChangeFeed, ChangeFeedBaseline,
    ChangeFeedTransfer, ChangeFeedTransferIntent, EventModel, FeedJournal, FeedState, JournalModel,
    RuntimeChangeEvent, RuntimeChangeEventPage,
};
use crate::json::{
    bool_member, drop_member, lemma_object_model, member_of, no_members, put, put_entry,
    unsigned_model, without_member, Json, JsonModel,
};
use crate::operation_values::{plain_error, typed_models, TypedDiagnostic};
use crate::provider_error::{FaultModel, ProviderError};
use crate::resolutions::{
    unchanged_outcome, ChangeEventIdentity, CommittedMutation, ExecutionModel, ExecutionOutcome,
    RuntimeResolution,
};
use crate::text::{same_text, texts};
use vstd::prelude::*;
use vstd::string::StringExecFns;

verus! {

// ---------------------------------------------------------------------------
// Data
// ---------------------------------------------------------------------------
/// A mutation that is staged and can be committed or cancelled.
#[derive(Debug, PartialEq, Eq)]
pub struct PreparedMutation {
    pub commit_id: String,
    pub claim: String,
}

#[derive(Debug, PartialEq, Eq)]
pub enum PreparationOutcome {
    NoMutation(ExecutionOutcome),
    Prepared(PreparedMutation),
}

/// What staging a transaction gave.
#[derive(Debug, PartialEq, Eq)]
pub enum RuntimePrepareOutcome {
    NoMutation(CanonicalOperationOutcome),
    Prepared(String),
    Existing,
}

/// What planning a mutation gave: an answer without one, or a staged transaction.
#[derive(Debug, PartialEq, Eq)]
pub enum RuntimePreparation {
    NoMutation(CanonicalOperationOutcome),
    Staged(RuntimePrepareOutcome),
}

#[derive(Debug, PartialEq, Eq)]
pub struct CommitRejection {
    pub operation: CanonicalOperationOutcome,
}

#[derive(Debug, PartialEq, Eq)]
pub enum CommitAttempt {
    Committed(ExecutionOutcome),
    RejectedBeforeCommit { rejection: CommitRejection },
    SettlementPending { commit_id: String },
    NeedsManualRecovery { commit_id: String },
}

/// What committing a transaction gave.
#[derive(Debug, PartialEq, Eq)]
pub enum RuntimeCommitAttempt {
    Committed(RuntimeResolution),
    RejectedBeforeCommit(RuntimeResolution),
    AlreadyCancelled,
    SettlementRequired(String),
    SettlementPending(String),
    NeedsManualRecovery(String),
}

/// What is to be done after a commit was tried.
#[derive(Debug, PartialEq, Eq)]
pub enum CommitStep {
    Done(CommitAttempt),
    Finish(RuntimeResolution),
    Settle(String),
}

#[derive(Debug, PartialEq, Eq)]
pub enum DurableCommitState {
    Prepared,
    Committing,
    Committed { outcome: ExecutionOutcome },
    RejectedBeforeCommit { rejection: CommitRejection },
    CancelledBeforeCommit,
    NeedsManualRecovery,
}

#[derive(Debug, PartialEq, Eq)]
pub enum CancelOutcome {
    CancelledBeforeCommit,
    AlreadyCommitStarted,
    AlreadyCommitted(ExecutionOutcome),
    AlreadyRejected(CommitRejection),
    NeedsManualRecovery,
}

/// Why a transaction failed.
#[derive(Debug, PartialEq, Eq)]
pub enum TransactionError {
    ClaimMismatch,
    RuntimeCapacityExhausted,
    OperationBoundary { code: String, message: String },
    Failed { code: String, message: String },
}

/// A page of a batch of changes.
#[derive(Debug, PartialEq, Eq)]
pub struct ChangePage {
    pub items: Vec<CanonicalChange>,
    pub next: Option<u64>,
}

/// The position that a runtime has reached.
#[derive(Debug, PartialEq, Eq)]
pub struct RuntimeOrder {
    pub generation: CollectionGeneration,
    pub watermark: u64,
}

/// What a rescan of the collection has to cover.
#[derive(Debug, PartialEq, Eq)]
pub struct RescanScope {
    pub paths: Vec<String>,
    pub full: bool,
}

/// A coordinated collection runtime.
pub struct FilesystemRuntime {
    pub order: RuntimeOrder,
    pub journal: FeedJournal,
    pub pending_watch: Vec<WatchEvent>,
    pub settling: Option<String>,
    pub cursors: CursorStore,
}

// ---------------------------------------------------------------------------
// Conversions of transaction states
// ---------------------------------------------------------------------------
/// The error of a runtime for the error of a transaction.
pub open spec fn transaction_fault(error: TransactionError) -> FaultModel {
    match error {
        TransactionError::ClaimMismatch => FaultModel::Other(ProviderError::ClaimMismatch),
        TransactionError::RuntimeCapacityExhausted => FaultModel::Other(
            ProviderError::RuntimeCapacityExhausted,
        ),
        TransactionError::OperationBoundary { code, message } => if code@
            == "operation_cancelled"@ {
            FaultModel::Other(ProviderError::OperationCancelled)
        } else if code@ == "operation_deadline"@ {
            FaultModel::Other(ProviderError::OperationDeadline)
        } else {
            FaultModel::Transaction { code: code@, message: message@ }
        },
        TransactionError::Failed { code, message } => FaultModel::Transaction {
            code: code@,
            message: message@,
        },
    }
}

pub fn transaction_error(error: TransactionError) -> (result: ProviderError)
    ensures
        result@ == transaction_fault(error),
{
    match error {
        TransactionError::ClaimMismatch => ProviderError::ClaimMismatch,
        TransactionError::RuntimeCapacityExhausted => ProviderError::RuntimeCapacityExhausted,
        TransactionError::OperationBoundary { code, message } => {
            if same_text(code.as_str(), "operation_cancelled") {
                ProviderError::OperationCancelled
            } else if same_text(code.as_str(), "operation_deadline") {
                ProviderError::OperationDeadline
            } else {
                ProviderError::Transaction { code, message }
            }
        },
        TransactionError::Failed { code, message } => ProviderError::Transaction { code, message },
    }
}

pub open spec fn state_fault(message: Seq<char>) -> FaultModel {
    FaultModel::Transaction { code: "transaction_state_invalid"@, message }
}

/// The outcome of a committed mutation.
pub open spec fn committed_model(mutation: CommittedMutation) -> ExecutionModel {
    ExecutionModel {
        operation: mutation.operation@,
        generation: mutation.generation@,
        changes: ChangeSetModel::Exact(change_models(mutation.changes@)),
        commit_id: Some(mutation.commit_id@),
        change_event: Some((mutation.event_id@, mutation.watermark as int)),
    }
}

fn mutation_outcome(mutation: &CommittedMutation) -> (result: ExecutionOutcome)
    ensures
        result@ == committed_model(*mutation),
        result.changes is Exact,
{
    ExecutionOutcome {
        operation: mutation.operation.copy(),
        generation: mutation.generation.copy(),
        changes: ChangeSet::Exact(copy_changes(&mutation.changes)),
        commit_id: Some(mutation.commit_id.clone()),
        change_event: Some(
            ChangeEventIdentity {
                id: mutation.event_id.clone(),
                watermark: mutation.watermark,
            },
        ),
    }
}

pub fn committed_outcome(resolution: &RuntimeResolution) -> (result: Result<
    ExecutionOutcome,
    ProviderError,
>)
    ensures
        match *resolution {
            RuntimeResolution::Committed(mutation) => result is Ok && result->Ok_0@
                == committed_model(mutation),
            _ => result is Err && result->Err_0@ == state_fault(
                "expected a committed runtime transaction"@,
            ),
        },
{
    match resolution {
        RuntimeResolution::Committed(mutation) => Ok(mutation_outcome(mutation)),
        _ => Err(
            ProviderError::transaction(
                "transaction_state_invalid",
                "expected a committed runtime transaction",
            ),
        ),
    }
}

pub fn rejected(resolution: &RuntimeResolution) -> (result: Result<CommitRejection, ProviderError>)
    ensures
        match *resolution {
            RuntimeResolution::RejectedBeforeCommit { commit_id, rejection } => result is Ok
                && result->Ok_0.operation@ == rejection@,
            _ => result is Err && result->Err_0@ == state_fault(
                "expected a rejected runtime transaction"@,
            ),
        },
{
    match resolution {
        RuntimeResolution::RejectedBeforeCommit { rejection, .. } => Ok(
            CommitRejection { operation: rejection.copy() },
        ),
        _ => Err(
            ProviderError::transaction(
                "transaction_state_invalid",
                "expected a rejected runtime transaction",
            ),
        ),
    }
}

/// Whether a durable state is that of a transaction.
pub open spec fn is_state_of(state: DurableCommitState, resolution: RuntimeResolution) -> bool {
    match (resolution, state) {
        (RuntimeResolution::Prepared { .. }, DurableCommitState::Prepared) => true,
        (RuntimeResolution::Committing { .. }, DurableCommitState::Committing) => true,
        (RuntimeResolution::Committed(mutation), DurableCommitState::Committed { outcome }) =>
        outcome@ == committed_model(mutation),
        (
            RuntimeResolution::RejectedBeforeCommit { commit_id, rejection },
            DurableCommitState::RejectedBeforeCommit { rejection: found },
        ) => found.operation@ == rejection@,
        (
            RuntimeResolution::CancelledBeforeCommit { .. },
            DurableCommitState::CancelledBeforeCommit,
        ) => true,
        (
            RuntimeResolution::NeedsManualRecovery { .. },
            DurableCommitState::NeedsManualRecovery,
        ) => true,
        _ => false,
    }
}

pub fn durable_state(resolution: &RuntimeResolution) -> (result: DurableCommitState)
    ensures
        is_state_of(result, *resolution),
{
    match resolution {
        RuntimeResolution::Prepared { .. } => DurableCommitState::Prepared,
        RuntimeResolution::Committing { .. } => DurableCommitState::Committing,
        RuntimeResolution::Committed(mutation) => DurableCommitState::Committed {
            outcome: mutation_outcome(mutation),
        },
        RuntimeResolution::RejectedBeforeCommit { rejection, .. } =>
        DurableCommitState::RejectedBeforeCommit {
            rejection: CommitRejection { operation: rejection.copy() },
        },
        RuntimeResolution::CancelledBeforeCommit { .. } =>
        DurableCommitState::CancelledBeforeCommit,
        RuntimeResolution::NeedsManualRecovery { .. } => DurableCommitState::NeedsManualRecovery,
    }
}

/// Whether a cancellation's outcome is that of a transaction.
pub open spec fn is_cancel_of(
    result: Result<CancelOutcome, ProviderError>,
    resolution: RuntimeResolution,
) -> bool {
    match resolution {
        RuntimeResolution::Prepared { .. } => result is Err && result->Err_0@ == state_fault(
            "cancel left the transaction prepared"@,
        ),
        RuntimeResolution::Committing { .. } => result == Ok::<_, ProviderError>(
            CancelOutcome::AlreadyCommitStarted,
        ),
        RuntimeResolution::Committed(mutation) => match result {
            Ok(CancelOutcome::AlreadyCommitted(outcome)) => outcome@ == committed_model(mutation),
            _ => false,
        },
        RuntimeResolution::RejectedBeforeCommit { commit_id, rejection } => match result {
            Ok(CancelOutcome::AlreadyRejected(found)) => found.operation@ == rejection@,
            _ => false,
        },
        RuntimeResolution::CancelledBeforeCommit { .. } => result == Ok::<_, ProviderError>(
            CancelOutcome::CancelledBeforeCommit,
        ),
        RuntimeResolution::NeedsManualRecovery { .. } => result == Ok::<_, ProviderError>(
            CancelOutcome::NeedsManualRecovery,
        ),
    }
}

pub fn cancel_outcome(resolution: &RuntimeResolution) -> (result: Result<
    CancelOutcome,
    ProviderError,
>)
    ensures
        is_cancel_of(result, *resolution),
{
    match resolution {
        RuntimeResolution::Prepared { .. } => Err(
            ProviderError::transaction(
                "transaction_state_invalid",
                "cancel left the transaction prepared",
            ),
        ),
        RuntimeResolution::Committing { .. } => Ok(CancelOutcome::AlreadyCommitStarted),
        RuntimeResolution::Committed(mutation) => Ok(
            CancelOutcome::AlreadyCommitted(mutation_outcome(mutation)),
        ),
        RuntimeResolution::RejectedBeforeCommit { rejection, .. } => Ok(
            CancelOutcome::AlreadyRejected(CommitRejection { operation: rejection.copy() }),
        ),
        RuntimeResolution::CancelledBeforeCommit { .. } => Ok(
            CancelOutcome::CancelledBeforeCommit,
        ),
        RuntimeResolution::NeedsManualRecovery { .. } => Ok(CancelOutcome::NeedsManualRecovery),
    }
}

// ---------------------------------------------------------------------------
// Requests
// ---------------------------------------------------------------------------
/// A request as JSON.
pub open spec fn request_json(request: OperationRequest) -> JsonModel {
    JsonModel::Object(
        put(
            put(Seq::empty(), "operation"@, Some(JsonModel::Text(request.operation.name()))),
            "input"@,
            Some(request.input@),
        ),
    )
}

/// The digest of a mutation: that of its canonical text.
pub fn mutation_digest(request: &OperationRequest) -> (result: Result<String, ProviderError>)
    ensures
        match result {
            Ok(digest) => json_digest(request_json(*request)) == Some(digest@),
            Err(error) => json_digest(request_json(*request)) is None && error@
                is InvalidChangeSet,
        },
{
    broadcast use lemma_object_model;

    let mut members = no_members();
    put_entry(&mut members, "operation", Some(Json::text(request.operation.as_str())));
    put_entry(&mut members, "input", Some(request.input.copy()));
    match digest_json(&Json::Object(members)) {
        Ok(digest) => Ok(digest),
        Err(message) => Err(ProviderError::InvalidChangeSet(message)),
    }
}

/// An input without its own limit.
pub open spec fn without_limit(input: JsonModel) -> JsonModel {
    match input {
        JsonModel::Object(members) => JsonModel::Object(without_member(members, "limit"@)),
        other => other,
    }
}

/// The number of records that an input asks for on one page; a number beyond what
/// fits a page counts as the largest.
pub open spec fn wanted_items(input: JsonModel) -> Option<usize> {
    match unsigned_model(member_of(input, "limit"@)) {
        Some(wanted) => if wanted > 256 {
            Some(256usize)
        } else {
            Some(wanted as usize)
        },
        None => None,
    }
}

/// The request behind a paged read and the page size that it asks for.
pub fn expand_read(request: &OperationRequest) -> (result: Result<
    (OperationRequest, Option<usize>),
    ProviderError,
>)
    ensures
        match result {
            Ok((expanded, items)) => !request.operation.mutates() && expanded.operation
                == request.operation && expanded.input@ == without_limit(request.input@)
                && items == wanted_items(request.input@),
            Err(error) => request.operation.mutates() && error@
                == FaultModel::UnsupportedOperation(
                "open_read requires a non-mutation operation"@,
            ),
        },
{
    broadcast use lemma_object_model;

    if request.operation.is_mutation() {
        return Err(
            ProviderError::UnsupportedOperation(
                "open_read requires a non-mutation operation".to_owned(),
            ),
        );
    }
    let items: Option<usize> = match request.input.get("limit") {
        Some(limit) => match limit.as_u64() {
            Some(wanted) => if wanted > 256 {
                Some(256)
            } else {
                Some(wanted as usize)
            },
            None => None,
        },
        None => None,
    };
    let input = match request.input.as_object() {
        Some(members) => Json::Object(drop_member(members, "limit")),
        None => request.input.copy(),
    };
    Ok((OperationRequest { operation: request.operation, input }, items))
}

/// The message for a batch that may be applied in part.
pub open spec fn partial_message() -> Seq<char> {
    "allow_partial batches are not supported by the runtime: one host claim can settle only one atomic transaction"@
}

/// The answer to a batch that may be applied in part; nothing for other batches.
pub fn refuse_partial_batch(request: &OperationRequest) -> (result: Option<
    CanonicalOperationOutcome,
>)
    requires
        request.operation.concerns_records(),
    ensures
        match result {
            Some(outcome) => bool_member(request.input@, "allow_partial"@) == Some(true)
                && outcome@ == (OutcomeModel {
                valid: false,
                value: missing_value(request.operation),
                diagnostics: seq![plain_error("invalid_request"@, partial_message())],
            }),
            None => bool_member(request.input@, "allow_partial"@) != Some(true),
        },
{
    let partial = match request.input.get_bool("allow_partial") {
        Some(partial) => partial,
        None => false,
    };
    if !partial {
        return None;
    }
    let mut diagnostics: Vec<TypedDiagnostic> = Vec::new();
    diagnostics.push(
        TypedDiagnostic::error(
            "invalid_request",
            "allow_partial batches are not supported by the runtime: one host claim can settle only one atomic transaction",
        ),
    );
    proof {
        assert(typed_models(diagnostics@) =~= seq![
            plain_error("invalid_request"@, partial_message()),
        ]);
    }
    Some(CanonicalOperationOutcome::invalid(request.operation, diagnostics))
}

/// Why a request whose commit was tried has no answer.
pub open spec fn settled_fault(attempt: CommitAttempt) -> Option<FaultModel> {
    match attempt {
        CommitAttempt::Committed(_) => None,
        CommitAttempt::RejectedBeforeCommit { .. } => None,
        CommitAttempt::SettlementPending { commit_id } => Some(
            FaultModel::Transaction {
                code: "outcome_unknown"@,
                message: "mutation settlement is pending for commit "@ + commit_id@,
            },
        ),
        CommitAttempt::NeedsManualRecovery { commit_id } => Some(
            FaultModel::Transaction {
                code: "manual_recovery_required"@,
                message: "mutation requires manual recovery for commit "@ + commit_id@,
            },
        ),
    }
}

/// Whether this is the answer to a request once its commit was tried.
pub open spec fn answers(
    result: Result<CanonicalOperationOutcome, ProviderError>,
    attempt: CommitAttempt,
) -> bool {
    match attempt {
        CommitAttempt::Committed(outcome) => result == Ok::<_, ProviderError>(outcome.operation),
        CommitAttempt::RejectedBeforeCommit { rejection } => result == Ok::<_, ProviderError>(
            rejection.operation,
        ),
        _ => result is Err && settled_fault(attempt) == Some(result->Err_0@),
    }
}

/// What happened while a request was executed.
#[derive(Debug, PartialEq, Eq)]
pub enum ExecuteEvent {
    Started,
    /// The request was run as a read.
    Read(CanonicalOperationOutcome),
    /// The mutation was prepared under a claim of its own.
    Prepared(PreparationOutcome),
    /// The prepared mutation's commit was tried.
    Attempted(CommitAttempt),
}

/// What executing a request does next.
#[derive(Debug, PartialEq, Eq)]
pub enum ExecuteAction {
    Read,
    Prepare,
    Commit(PreparedMutation),
    Done(Result<CanonicalOperationOutcome, ProviderError>),
}

// ---------------------------------------------------------------------------
// Rescans
// ---------------------------------------------------------------------------
/// The paths that the record changes of a batch touch.
pub open spec fn touched_paths(changes: Seq<ChangeModel>) -> Seq<Seq<char>>
    decreases changes.len(),
{
    if changes.len() == 0 {
        Seq::empty()
    } else {
        let rest = touched_paths(changes.drop_last());
        match changes.last() {
            ChangeModel::Record(change) => match change.from {
                Some(from) => rest.push(change.path).push(from),
                None => rest.push(change.path),
            },
            ChangeModel::Resource(_) => rest,
        }
    }
}

/// Whether a batch changes anything beside records.
pub open spec fn changes_resources(changes: Seq<ChangeModel>) -> bool {
    exists|i: int| 0 <= i < changes.len() && (#[trigger] changes[i]) is Resource
}

fn push_path(paths: &mut Vec<String>, path: &str)
    ensures
        texts(final(paths)@) == texts(old(paths)@).push(path@),
{
    let ghost before = paths@;
    let text = path.to_owned();
    paths.push(text);
    proof {
        crate::text::lemma_texts_push(before, text);
    }
}

/// What a rescan after known changes has to cover: the paths that they touch, or
/// everything where a resource changed.
pub fn rescan_scope(changes: &Vec<CanonicalChange>) -> (result: RescanScope)
    ensures
        texts(result.paths@) == touched_paths(change_models(changes@)),
        result.full == changes_resources(change_models(changes@)),
{
    let ghost models = change_models(changes@);
    let mut paths: Vec<String> = Vec::new();
    let mut full = false;
    proof {
        assert(texts(paths@) =~= Seq::empty());
        assert(models.take(0) =~= Seq::empty());
    }
    let mut i: usize = 0;
    while i < changes.len()
        invariant
            i <= changes@.len(),
            models == change_models(changes@),
            texts(paths@) == touched_paths(models.take(i as int)),
            full == exists|k: int| 0 <= k < i && (#[trigger] models[k]) is Resource,
        decreases changes@.len() - i,
    {
        proof {
            assert(models.take(i + 1).drop_last() =~= models.take(i as int));
            assert(models.take(i + 1).last() == models[i as int]);
            assert(models[i as int] == changes@[i as int]@);
        }
        match &changes[i] {
            CanonicalChange::Record(change) => {
                push_path(&mut paths, change.path.as_str());
                if let Some(from) = &change.from {
                    push_path(&mut paths, from.as_str());
                }
            },
            CanonicalChange::Resource(_) => {
                full = true;
            },
        }
        i = i + 1;
    }
    proof {
        assert(models.take(i as int) =~= models);
    }
    RescanScope { paths, full }
}

/// The observations that known changes do not account for.
pub open spec fn unexplained(
    events: Seq<WatchEvent>,
    faults: Seq<ObservedFaults>,
    known: Seq<ChangeModel>,
) -> Seq<WatchEvent>
    decreases events.len(),
{
    if events.len() == 0 || faults.len() < events.len() {
        Seq::empty()
    } else {
        let last = events.len() - 1;
        let rest = unexplained(events.drop_last(), faults, known);
        match observed_change(events[last], faults[last]) {
            Some(Ok(change)) => if known.contains(change) {
                rest
            } else {
                rest.push(events[last])
            },
            _ => rest.push(events[last]),
        }
    }
}

// ---------------------------------------------------------------------------
// The runtime
// ---------------------------------------------------------------------------
/// Whether an operation was stopped by its context.
pub open spec fn stopped<T>(result: Result<T, ProviderError>) -> bool {
    match result {
        Err(error) => error == ProviderError::OperationCancelled || error
            == ProviderError::OperationDeadline,
        Ok(_) => false,
    }
}

/// What stops a commit before it starts, or the positions that it takes.
pub open spec fn next_positions(state: Result<FeedState, FaultModel>) -> Result<
    (GenerationModel, int),
    FaultModel,
> {
    match state {
        Err(fault) => Err(fault),
        Ok(state) => if state.generation.sequence == u64::MAX {
            Err(FaultModel::Other(ProviderError::GenerationExhausted))
        } else if state.journal.head == u64::MAX {
            Err(FaultModel::Other(ProviderError::WatermarkExhausted))
        } else {
            Ok((state.generation.next(), state.journal.head + 1))
        },
    }
}

/// The changes of an observation; a malformed one may have changed anything.
pub open spec fn ingested(event: WatchEvent, faults: ObservedFaults) -> ChangeSetModel {
    match observed_change(event, faults) {
        Some(Ok(change)) => ChangeSetModel::Exact(seq![change]),
        _ => ChangeSetModel::CollectionWide { reason: RebuildReason::ExternalChangeUncertain },
    }
}

impl FilesystemRuntime {
    /// The runtime's cursors can be signed.
    pub open spec fn wf(&self) -> bool {
        self.cursors.wf()
    }

    /// Everything but the journal and the position is as it was.
    pub open spec fn same_rest(&self, other: &FilesystemRuntime) -> bool {
        self.pending_watch == other.pending_watch && self.settling == other.settling
            && self.cursors == other.cursors
    }

    /// Opens a runtime on a journal after its transactions were recovered.
    pub fn open(
        journal: FeedJournal,
        generation: CollectionGeneration,
        resolutions: &Vec<RuntimeResolution>,
        stored: bool,
    ) -> (result: Result<FilesystemRuntime, ProviderError>)
        ensures
            match result {
                Ok(runtime) => reconciled_feed(journal@, generation@, resolutions@, stored) is Ok
                    && ({
                    let state = reconciled_feed(journal@, generation@, resolutions@, stored)->Ok_0;
                    runtime.journal@ == state.journal && runtime.order.generation@
                        == state.generation && runtime.order.watermark == state.journal.head
                        && runtime.pending_watch@.len() == 0 && runtime.settling is None
                        && runtime.cursors@.entries.len() == 0 && runtime.wf()
                }),
                Err(error) => reconciled_feed(journal@, generation@, resolutions@, stored) == Err::<
                    FeedState,
                    _,
                >(error@),
            },
    {
        let mut journal = journal;
        let cursors = CursorStore::new(generation.runtime_epoch.as_str());
        match journal.reconcile(&generation, resolutions, stored) {
            Ok(feed) => Ok(
                FilesystemRuntime {
                    order: RuntimeOrder { generation: feed.generation, watermark: feed.watermark },
                    journal,
                    pending_watch: Vec::new(),
                    settling: None,
                    cursors,
                },
            ),
            Err(error) => Err(error),
        }
    }

    pub fn current_generation(&self) -> (result: CollectionGeneration)
        ensures
            result@ == self.order.generation@,
    {
        self.order.generation.copy()
    }

    /// The answer to a request that is settled.
    pub fn execute(attempt: CommitAttempt) -> (result: Result<
        CanonicalOperationOutcome,
        ProviderError,
    >)
        ensures
            answers(result, attempt),
    {
        match attempt {
            CommitAttempt::Committed(outcome) => Ok(outcome.operation),
            CommitAttempt::RejectedBeforeCommit { rejection } => Ok(rejection.operation),
            CommitAttempt::SettlementPending { commit_id } => Err(
                ProviderError::transaction(
                    "outcome_unknown",
                    "mutation settlement is pending for commit ".to_owned().concat(
                        commit_id.as_str(),
                    ).as_str(),
                ),
            ),
            CommitAttempt::NeedsManualRecovery { commit_id } => Err(
                ProviderError::transaction(
                    "manual_recovery_required",
                    "mutation requires manual recovery for commit ".to_owned().concat(
                        commit_id.as_str(),
                    ).as_str(),
                ),
            ),
        }
    }

    /// What executing a request does next, after something happened.
    pub fn execute_with_context(request: &OperationRequest, event: ExecuteEvent) -> (action:
        ExecuteAction)
        ensures
            match event {
                ExecuteEvent::Started => action == if request.operation.mutates() {
                    ExecuteAction::Prepare
                } else {
                    ExecuteAction::Read
                },
                ExecuteEvent::Read(outcome) => action == ExecuteAction::Done(Ok(outcome)),
                ExecuteEvent::Prepared(PreparationOutcome::NoMutation(outcome)) => action
                    == ExecuteAction::Done(Ok(outcome.operation)),
                ExecuteEvent::Prepared(PreparationOutcome::Prepared(mutation)) => action
                    == ExecuteAction::Commit(mutation),
                ExecuteEvent::Attempted(attempt) => match action {
                    ExecuteAction::Done(result) => answers(result, attempt),
                    _ => false,
                },
            },
    {
        match event {
            ExecuteEvent::Started => if request.operation.is_mutation() {
                ExecuteAction::Prepare
            } else {
                ExecuteAction::Read
            },
            ExecuteEvent::Read(outcome) => ExecuteAction::Done(Ok(outcome)),
            ExecuteEvent::Prepared(PreparationOutcome::NoMutation(outcome)) => ExecuteAction::Done(
                Ok(outcome.operation),
            ),
            ExecuteEvent::Prepared(PreparationOutcome::Prepared(mutation)) => ExecuteAction::Commit(
                mutation,
            ),
            ExecuteEvent::Attempted(attempt) => ExecuteAction::Done(Self::execute(attempt)),
        }
    }

    /// Binds the result of a read to the runtime's generation.
    pub fn read(&self, request: &OperationRequest, result: CanonicalOperationOutcome) -> (outcome:
        Result<ExecutionOutcome, ProviderError>)
        ensures
            match outcome {
                Ok(outcome) => !request.operation.mutates() && outcome@ == unchanged_outcome(
                    result@,
                    self.order.generation@,
                ),
                Err(error) => request.operation.mutates() && error@
                    == FaultModel::UnsupportedOperation("read requires a non-mutation operation"@),
            },
    {
        if request.operation.is_mutation() {
            return Err(
                ProviderError::UnsupportedOperation(
                    "read requires a non-mutation operation".to_owned(),
                ),
            );
        }
        Ok(ExecutionOutcome::unchanged(result, self.order.generation.copy()))
    }

    /// Opens a paged read on the result of its request without a limit.
    pub fn open_read(
        &mut self,
        request: &OperationRequest,
        result: CanonicalOperationOutcome,
        context: &OperationContext,
    ) -> (page: Result<ReadPage, ProviderError>)
        requires
            old(self).wf(),
        ensures
            final(self).wf(),
            final(self).order == old(self).order,
            final(self).journal == old(self).journal,
            final(self).pending_watch == old(self).pending_watch,
            final(self).settling == old(self).settling,
            request.operation.mutates() ==> page is Err && page->Err_0@
                == FaultModel::UnsupportedOperation(
                "open_read requires a non-mutation operation"@,
            ) && final(self).cursors == old(self).cursors,
            !request.operation.mutates() ==> opens(
                page,
                old(self).cursors@,
                final(self).cursors@,
                unchanged_outcome(result@, old(self).order.generation@),
                wanted_items(request.input@),
                context.limits_model().max_retained_bytes,
            ),
    {
        let (_, items) = match expand_read(request) {
            Ok(expanded) => expanded,
            Err(error) => {
                return Err(error);
            },
        };
        let outcome = ExecutionOutcome::unchanged(result, self.order.generation.copy());
        self.cursors.open(outcome, items, context)
    }

    /// One page of a pinned read.
    pub fn read_page(&mut self, cursor: &ReadCursor, context: &OperationContext) -> (result: Result<
        ReadPage,
        ProviderError,
    >)
        requires
            old(self).wf(),
        ensures
            final(self).wf(),
            final(self).order == old(self).order,
            final(self).journal == old(self).journal,
            final(self).pending_watch == old(self).pending_watch,
            final(self).settling == old(self).settling,
            turns(result, old(self).cursors@, final(self).cursors@, cursor.token@),
    {
        self.cursors.page(cursor, context)
    }

    /// Releases a pinned read, where there still is one, and what it retains.
    pub fn release_read(&mut self, cursor: &ReadCursor, context: &OperationContext) -> (result:
        Result<(), ProviderError>)
        requires
            old(self).wf(),
        ensures
            final(self).wf(),
            final(self).order == old(self).order,
            final(self).journal == old(self).journal,
            final(self).pending_watch == old(self).pending_watch,
            final(self).settling == old(self).settling,
            match authenticated(
                old(self).cursors@.signing_key,
                old(self).cursors@.runtime_epoch,
                cursor.token@,
            ) {
                Err(error) => (stopped(result) || result == Err::<(), _>(error))
                    && final(self).cursors@ == old(self).cursors@,
                Ok((id, _)) => {
                    let at = entry_at(old(self).cursors@.entries, id);
                    let held = at < old(self).cursors@.entries.len();
                    let after = if held {
                        old(self).cursors@.without_entry(at)
                    } else {
                        old(self).cursors@
                    };
                    if stopped(result) {
                        final(self).cursors@ == old(self).cursors@ || final(self).cursors@ == after
                    } else {
                        result == Ok::<(), ProviderError>(()) && final(self).cursors@ == after
                    }
                },
            },
    {
        if let Err(error) = context.check() {
            return Err(error);
        }
        if let Err(error) = self.cursors.release(cursor) {
            return Err(error);
        }
        context.check()
    }

    /// Checks that a mutation may be prepared.
    pub fn check_prepare(&self, request: &OperationRequest, stored_bytes: Option<u64>) -> (result:
        Result<(), ProviderError>)
        ensures
            match result {
                Ok(_) => request.operation.mutates() && self.journal.events@.len()
                    < crate::feed::MAX_UNACKED_EVENTS - 1 && (stored_bytes is None
                    || stored_bytes->0 < crate::feed::MAX_FEED_BYTES),
                Err(error) => if !request.operation.mutates() {
                    error@ == FaultModel::UnsupportedOperation(
                        "prepare requires a mutation operation"@,
                    )
                } else {
                    error == ProviderError::ChangeFeedCapacityExhausted && (
                    self.journal.events@.len() >= crate::feed::MAX_UNACKED_EVENTS - 1 || (
                    stored_bytes is Some && stored_bytes->0 >= crate::feed::MAX_FEED_BYTES))
                },
            },
    {
        if !request.operation.is_mutation() {
            return Err(
                ProviderError::UnsupportedOperation(
                    "prepare requires a mutation operation".to_owned(),
                ),
            );
        }
        proof {
            assert(self.journal@.events.len() == self.journal.events@.len());
        }
        self.journal.ensure_capacity(stored_bytes)
    }

    /// What preparing a mutation gave.
    pub fn prepare(&self, claim: &str, preparation: RuntimePreparation) -> (result: Result<
        PreparationOutcome,
        ProviderError,
    >)
        ensures
            match preparation {
                RuntimePreparation::NoMutation(outcome)
                | RuntimePreparation::Staged(RuntimePrepareOutcome::NoMutation(outcome)) =>
                match result {
                    Ok(PreparationOutcome::NoMutation(found)) => found@ == unchanged_outcome(
                        outcome@,
                        self.order.generation@,
                    ),
                    _ => false,
                },
                RuntimePreparation::Staged(RuntimePrepareOutcome::Prepared(commit_id)) =>
                match result {
                    Ok(PreparationOutcome::Prepared(mutation)) => mutation.commit_id == commit_id
                        && mutation.claim@ == claim@,
                    _ => false,
                },
                RuntimePreparation::Staged(RuntimePrepareOutcome::Existing) => result is Err
                    && result->Err_0@ == (FaultModel::Transaction {
                    code: "claim_already_finalized"@,
                    message: "host claim already resolves to a final durable state"@,
                }),
            },
    {
        match preparation {
            RuntimePreparation::NoMutation(outcome) => Ok(
                PreparationOutcome::NoMutation(
                    ExecutionOutcome::unchanged(outcome, self.order.generation.copy()),
                ),
            ),
            RuntimePreparation::Staged(RuntimePrepareOutcome::NoMutation(outcome)) => Ok(
                PreparationOutcome::NoMutation(
                    ExecutionOutcome::unchanged(outcome, self.order.generation.copy()),
                ),
            ),
            RuntimePreparation::Staged(RuntimePrepareOutcome::Prepared(commit_id)) => Ok(
                PreparationOutcome::Prepared(
                    PreparedMutation { commit_id, claim: claim.to_owned() },
                ),
            ),
            RuntimePreparation::Staged(RuntimePrepareOutcome::Existing) => Err(
                ProviderError::transaction(
                    "claim_already_finalized",
                    "host claim already resolves to a final durable state",
                ),
            ),
        }
    }

    /// A mutation that is prepared under a claim already.
    pub fn attach_prepared(claim: &str, commit_id: Option<String>) -> (result: Option<
        PreparedMutation,
    >)
        ensures
            match (commit_id, result) {
                (Some(commit_id), Some(mutation)) => mutation.commit_id == commit_id
                    && mutation.claim@ == claim@,
                (None, None) => true,
                _ => false,
            },
    {
        match commit_id {
            Some(commit_id) => Some(PreparedMutation { commit_id, claim: claim.to_owned() }),
            None => None,
        }
    }

    /// Recovers the journal and gives the position of the next commit.
    pub fn next_commit(&mut self, resolutions: &Vec<RuntimeResolution>, stored: bool) -> (result:
        Result<(CollectionGeneration, u64), ProviderError>)
        ensures
            final(self).same_rest(old(self)),
            ({
                let state = reconciled_feed(
                    old(self).journal@,
                    old(self).order.generation@,
                    resolutions@,
                    stored,
                );
                &&& match state {
                    Ok(state) => final(self).journal@ == state.journal
                        && final(self).order.generation@ == state.generation
                        && final(self).order.watermark == state.journal.head,
                    Err(_) => final(self).journal@ == old(self).journal@ && final(self).order
                        == old(self).order,
                }
                &&& match result {
                    Ok((generation, watermark)) => next_positions(state) == Ok::<_, FaultModel>(
                        (generation@, watermark as int),
                    ),
                    Err(error) => next_positions(state) == Err::<(GenerationModel, int), _>(
                        error@,
                    ),
                }
            }),
    {
        let feed = match self.journal.reconcile(&self.order.generation, resolutions, stored) {
            Ok(feed) => feed,
            Err(error) => {
                return Err(error);
            },
        };
        self.order = RuntimeOrder { generation: feed.generation, watermark: feed.watermark };
        let generation = match self.order.generation.successor() {
            Ok(generation) => generation,
            Err(error) => {
                return Err(error);
            },
        };
        match self.order.watermark.checked_add(1) {
            Some(watermark) => Ok((generation, watermark)),
            None => Err(ProviderError::WatermarkExhausted),
        }
    }

    /// What is to be done after a commit was tried.
    pub fn commit(attempt: RuntimeCommitAttempt) -> (result: Result<CommitStep, ProviderError>)
        ensures
            match attempt {
                RuntimeCommitAttempt::Committed(resolution) => result == Ok::<_, ProviderError>(
                    CommitStep::Finish(resolution),
                ),
                RuntimeCommitAttempt::RejectedBeforeCommit(
                    RuntimeResolution::RejectedBeforeCommit { commit_id, rejection },
                ) => match result {
                    Ok(
                        CommitStep::Done(
                            CommitAttempt::RejectedBeforeCommit { rejection: found },
                        ),
                    ) => found.operation@ == rejection@,
                    _ => false,
                },
                RuntimeCommitAttempt::RejectedBeforeCommit(_) => result is Err && result->Err_0@
                    == state_fault("expected a rejected runtime transaction"@),
                RuntimeCommitAttempt::AlreadyCancelled => result is Err && result->Err_0@ == (
                FaultModel::Transaction {
                    code: "commit_cancelled_before_start"@,
                    message: "prepared mutation was durably cancelled before commit"@,
                }),
                RuntimeCommitAttempt::SettlementRequired(commit_id)
                | RuntimeCommitAttempt::SettlementPending(commit_id) => result == Ok::<
                    _,
                    ProviderError,
                >(CommitStep::Settle(commit_id)),
                RuntimeCommitAttempt::NeedsManualRecovery(commit_id) => result == Ok::<
                    _,
                    ProviderError,
                >(CommitStep::Done(CommitAttempt::NeedsManualRecovery { commit_id })),
            },
    {
        match attempt {
            RuntimeCommitAttempt::Committed(resolution) => Ok(CommitStep::Finish(resolution)),
            RuntimeCommitAttempt::RejectedBeforeCommit(resolution) => match rejected(
                &resolution,
            ) {
                Ok(rejection) => Ok(
                    CommitStep::Done(CommitAttempt::RejectedBeforeCommit { rejection }),
                ),
                Err(error) => Err(error),
            },
            RuntimeCommitAttempt::AlreadyCancelled => Err(
                ProviderError::transaction(
                    "commit_cancelled_before_start",
                    "prepared mutation was durably cancelled before commit",
                ),
            ),
            RuntimeCommitAttempt::SettlementRequired(commit_id) => Ok(
                CommitStep::Settle(commit_id),
            ),
            RuntimeCommitAttempt::SettlementPending(commit_id) => Ok(
                CommitStep::Settle(commit_id),
            ),
            RuntimeCommitAttempt::NeedsManualRecovery(commit_id) => Ok(
                CommitStep::Done(CommitAttempt::NeedsManualRecovery { commit_id }),
            ),
        }
    }

    /// Starts the settlement of a commit, unless another one is under way.
    pub fn start_settlement(&mut self, commit_id: &str) -> (started: bool)
        ensures
            started == (old(self).settling is None),
            crate::text::optional_text(final(self).settling) == if started {
                Some(commit_id@)
            } else {
                crate::text::optional_text(old(self).settling)
            },
            final(self).order == old(self).order,
            final(self).journal == old(self).journal,
            final(self).pending_watch == old(self).pending_watch,
            final(self).cursors == old(self).cursors,
    {
        if self.settling.is_some() {
            return false;
        }
        self.settling = Some(commit_id.to_owned());
        true
    }

    /// Ends the settlement of a commit. Another one that is under way stays so.
    pub fn end_settlement(&mut self, commit_id: &str)
        ensures
            crate::text::optional_text(final(self).settling) == if crate::text::optional_text(
                old(self).settling,
            ) == Some(commit_id@) {
                None
            } else {
                crate::text::optional_text(old(self).settling)
            },
            final(self).order == old(self).order,
            final(self).journal == old(self).journal,
            final(self).pending_watch == old(self).pending_watch,
            final(self).cursors == old(self).cursors,
    {
        let ends = match &self.settling {
            Some(active) => same_text(active.as_str(), commit_id),
            None => false,
        };
        if ends {
            self.settling = None;
        }
    }

    /// Brings the state of a transaction into the runtime: a committed mutation
    /// takes the next position and joins the feed.
    pub fn finish_resolution(&mut self, resolution: &RuntimeResolution) -> (result: Result<
        CommitAttempt,
        ProviderError,
    >)
        ensures
            final(self).same_rest(old(self)),
            match *resolution {
                RuntimeResolution::Committed(mutation) => finishes_commit(
                    result,
                    *old(self),
                    *final(self),
                    mutation,
                ),
                RuntimeResolution::RejectedBeforeCommit { commit_id, rejection } =>
                final(self).journal@ == old(self).journal@ && final(self).order
                    == old(self).order && match result {
                    Ok(CommitAttempt::RejectedBeforeCommit { rejection: found }) =>
                    found.operation@ == rejection@,
                    _ => false,
                },
                RuntimeResolution::NeedsManualRecovery { commit_id } => final(self).journal@
                    == old(self).journal@ && final(self).order == old(self).order && match result {
                    Ok(CommitAttempt::NeedsManualRecovery { commit_id: found }) => found@
                        == commit_id@,
                    _ => false,
                },
                RuntimeResolution::Prepared { commit_id }
                | RuntimeResolution::Committing { commit_id } => final(self).journal@
                    == old(self).journal@ && final(self).order == old(self).order && match result {
                    Ok(CommitAttempt::SettlementPending { commit_id: found }) => found@
                        == commit_id@,
                    _ => false,
                },
                RuntimeResolution::CancelledBeforeCommit { commit_id } => final(self).journal@
                    == old(self).journal@ && final(self).order == old(self).order && result is Err
                    && result->Err_0@ == (FaultModel::Transaction {
                    code: "commit_cancelled_before_start"@,
                    message: "prepared mutation was durably cancelled before commit"@,
                }),
            },
    {
        match resolution {
            RuntimeResolution::Committed(mutation) => {
                let outcome = mutation_outcome(mutation);
                if mutation.watermark > self.order.watermark {
                    let next: u64 = self.order.watermark + 1;
                    if mutation.watermark != next {
                        return Err(
                            ProviderError::transaction(
                                "runtime_order_conflict",
                                "committed watermark is not the next runtime position",
                            ),
                        );
                    }
                    self.order = RuntimeOrder {
                        generation: mutation.generation.copy(),
                        watermark: mutation.watermark,
                    };
                }
                match self.journal.append_known(&outcome) {
                    Ok(_) => Ok(CommitAttempt::Committed(outcome)),
                    Err(_) => Ok(
                        CommitAttempt::SettlementPending {
                            commit_id: mutation.commit_id.clone(),
                        },
                    ),
                }
            },
            RuntimeResolution::RejectedBeforeCommit { rejection, .. } => Ok(
                CommitAttempt::RejectedBeforeCommit {
                    rejection: CommitRejection { operation: rejection.copy() },
                },
            ),
            RuntimeResolution::NeedsManualRecovery { commit_id } => Ok(
                CommitAttempt::NeedsManualRecovery { commit_id: commit_id.clone() },
            ),
            RuntimeResolution::Prepared { commit_id } => Ok(
                CommitAttempt::SettlementPending { commit_id: commit_id.clone() },
            ),
            RuntimeResolution::Committing { commit_id } => Ok(
                CommitAttempt::SettlementPending { commit_id: commit_id.clone() },
            ),
            RuntimeResolution::CancelledBeforeCommit { .. } => Err(
                ProviderError::transaction(
                    "commit_cancelled_before_start",
                    "prepared mutation was durably cancelled before commit",
                ),
            ),
        }
    }

    /// What cancelling a mutation gave.
    pub fn cancel(resolution: &RuntimeResolution) -> (result: Result<CancelOutcome, ProviderError>)
        ensures
            is_cancel_of(result, *resolution),
    {
        cancel_outcome(resolution)
    }

    /// The durable state of a commit that is known.
    pub fn resolve_commit(resolution: Option<&RuntimeResolution>) -> (result: Option<
        DurableCommitState,
    >)
        ensures
            match (resolution, result) {
                (Some(resolution), Some(state)) => is_state_of(state, *resolution),
                (None, None) => true,
                _ => false,
            },
    {
        match resolution {
            Some(resolution) => Some(durable_state(resolution)),
            None => None,
        }
    }

    /// The commit of a claim that is known, with its durable state.
    pub fn resolve_claim(found: Option<(String, RuntimeResolution)>) -> (result: Option<
        (String, DurableCommitState),
    >)
        ensures
            match (found, result) {
                (Some((commit_id, resolution)), Some((found_id, state))) => found_id == commit_id
                    && is_state_of(state, resolution),
                (None, None) => true,
                _ => false,
            },
    {
        match found {
            Some((commit_id, resolution)) => {
                let state = durable_state(&resolution);
                Some((commit_id, state))
            },
            None => None,
        }
    }

    /// A page of a batch of changes.
    pub fn change_page(
        changes: &Vec<CanonicalChange>,
        after: Option<u64>,
        limit: usize,
        context: &OperationContext,
    ) -> (result: Result<ChangePage, ProviderError>)
        requires
            limit > 0,
        ensures
            match result {
                Ok(page) => {
                    let start = match after {
                        Some(after) => after as int,
                        None => 0,
                    };
                    let size = if limit < 256 {
                        limit as int
                    } else {
                        256
                    };
                    let end = crate::cursor::page_end(changes@.len() as int, start, size);
                    &&& start <= changes@.len()
                    &&& change_models(page.items@) == change_models(changes@).subrange(start, end)
                    &&& match page.next {
                        Some(next) => next == end && end < changes@.len(),
                        None => end == changes@.len(),
                    }
                },
                Err(error) => stopped(Err::<ChangePage, _>(error)) || (error
                    == ProviderError::InvalidReadCursor && after is Some && after->0
                    > changes@.len()),
            },
    {
        if let Err(error) = context.check() {
            return Err(error);
        }
        let count: usize = changes.len();
        let start: usize = match after {
            Some(after) => {
                if after > count as u64 {
                    return Err(ProviderError::InvalidReadCursor);
                }
                after as usize
            },
            None => 0,
        };
        let size: usize = if limit < 256 {
            limit
        } else {
            256
        };
        let end: usize = if size < count - start {
            start + size
        } else {
            count
        };
        let mut items: Vec<CanonicalChange> = Vec::new();
        let mut i: usize = start;
        while i < end
            invariant
                start <= i <= end <= changes@.len(),
                items@.len() == i - start,
                forall|k: int|
                    0 <= k < i - start ==> (#[trigger] items@[k])@ == changes@[start + k]@,
            decreases end - i,
        {
            items.push(changes[i].copy());
            i = i + 1;
        }
        proof {
            assert(change_models(items@) =~= change_models(changes@).subrange(
                start as int,
                end as int,
            ));
        }
        if let Err(error) = context.check() {
            return Err(error);
        }
        let next = if end < count {
            Some(end as u64)
        } else {
            None
        };
        Ok(ChangePage { items, next })
    }

    /// Opens the change feed for an owner.
    pub fn open_change_feed(&mut self, owner: &str, context: &OperationContext) -> (result: Result<
        ChangeFeed,
        ProviderError,
    >)
        ensures
            final(self).same_rest(old(self)),
            final(self).order == old(self).order,
            (stopped(result) && final(self).journal == old(self).journal) || moves(
                result,
                old(self).journal@,
                final(self).journal@,
                old(self).journal@.after_open(owner@),
            ),
            match result {
                Ok(feed) => feed.owner@ == owner@ && feed.fencing_epoch
                    == final(self).journal@.fencing_epoch,
                Err(_) => true,
            },
    {
        if let Err(error) = context.check() {
            return Err(error);
        }
        self.journal.open(owner)
    }

    /// The commits that a baseline acknowledges first; none where it stands.
    pub fn baseline_commits(&self, feed: &ChangeFeed) -> (result: Result<
        Option<Vec<String>>,
        ProviderError,
    >)
        ensures
            match result {
                Ok(Some(commits)) => self.journal@.refusal(*feed) is None
                    && self.journal@.baseline_through is None && texts(commits@) == commits_of(
                    self.journal@.events,
                    u64::MAX as int,
                ),
                Ok(None) => self.journal@.refusal(*feed) is None && self.journal@.baseline_through
                    is Some,
                Err(error) => self.journal@.refusal(*feed) == Some(error@),
            },
    {
        match self.journal.baseline_plan(feed) {
            Ok(plan) => if plan.needs_commit {
                Ok(Some(plan.commits))
            } else {
                Ok(None)
            },
            Err(error) => Err(error),
        }
    }

    /// Establishes the baseline of a feed whose commits are acknowledged.
    pub fn establish_change_feed_baseline(
        &mut self,
        feed: &ChangeFeed,
        context: &OperationContext,
    ) -> (result: Result<ChangeFeedBaseline, ProviderError>)
        ensures
            final(self).same_rest(old(self)),
            final(self).order == old(self).order,
            (stopped(result) && final(self).journal == old(self).journal) || moves(
                result,
                old(self).journal@,
                final(self).journal@,
                match old(self).journal@.refusal(*feed) {
                    Some(fault) => Err(fault),
                    None => if old(self).journal@.baseline_through is Some {
                        Ok(old(self).journal@)
                    } else {
                        Ok(old(self).journal@.with_baseline())
                    },
                },
            ),
            match result {
                Ok(baseline) => (
                    baseline.fencing_epoch as int,
                    baseline.acknowledged_through as int,
                    baseline.feed_head as int,
                ) == old(self).journal@.baseline(),
                Err(_) => true,
            },
    {
        if let Err(error) = context.check() {
            return Err(error);
        }
        self.journal.commit_baseline(feed)
    }

    /// A page of change events.
    pub fn read_change_events(
        &self,
        feed: &ChangeFeed,
        after: Option<u64>,
        limit: usize,
        context: &OperationContext,
    ) -> (result: Result<RuntimeChangeEventPage, ProviderError>)
        requires
            limit > 0,
        ensures
            stopped(result) || reads(result, self.journal@, *feed, after, limit),
    {
        if let Err(error) = context.check() {
            return Err(error);
        }
        self.journal.read(feed, after, limit)
    }

    /// The commits to acknowledge before their events are.
    pub fn commits_to_ack(&self, feed: &ChangeFeed, through: u64) -> (result: Result<
        Vec<String>,
        ProviderError,
    >)
        ensures
            match result {
                Ok(commits) => self.journal@.refusal(*feed) is None && through
                    <= self.journal@.head && texts(commits@) == if through
                    <= self.journal@.acknowledged_through {
                    Seq::empty()
                } else {
                    commits_of(self.journal@.events, through as int)
                },
                Err(error) => match self.journal@.refusal(*feed) {
                    Some(fault) => error@ == fault,
                    None => error == ProviderError::InvalidChangeFeedAck && through
                        > self.journal@.head,
                },
            },
    {
        self.journal.commits_through(feed, through)
    }

    /// Acknowledges change events whose commits are acknowledged. Once begun, this
    /// does not stop with the operation.
    pub fn ack_change_events(&mut self, feed: &ChangeFeed, through: u64) -> (result: Result<
        (),
        ProviderError,
    >)
        ensures
            final(self).same_rest(old(self)),
            final(self).order == old(self).order,
            moves(
                result,
                old(self).journal@,
                final(self).journal@,
                old(self).journal@.after_ack(*feed, through as int),
            ),
    {
        match self.journal.ack(feed, through) {
            Ok(_) => Ok(()),
            Err(error) => Err(error),
        }
    }

    /// Hands the change feed to another owner.
    pub fn transfer_change_feed(
        &mut self,
        intent: &ChangeFeedTransferIntent,
        context: &OperationContext,
    ) -> (result: Result<ChangeFeedTransfer, ProviderError>)
        ensures
            final(self).same_rest(old(self)),
            final(self).order == old(self).order,
            (stopped(result) && final(self).journal == old(self).journal) || moves(
                result,
                old(self).journal@,
                final(self).journal@,
                old(self).journal@.after_transfer(*intent),
            ),
            match result {
                Ok(transfer) => hands_over(
                    transfer,
                    final(self).journal@,
                    intent.next@,
                    intent.id@,
                ),
                Err(_) => true,
            },
    {
        if let Err(error) = context.check() {
            return Err(error);
        }
        self.journal.transfer(intent)
    }

    /// Acknowledges a transfer of the change feed.
    pub fn ack_change_feed_transfer(&mut self, id: &str, context: &OperationContext) -> (result:
        Result<(), ProviderError>)
        ensures
            final(self).same_rest(old(self)),
            final(self).order == old(self).order,
            (stopped(result) && final(self).journal == old(self).journal) || moves(
                result,
                old(self).journal@,
                final(self).journal@,
                old(self).journal@.after_transfer_ack(id@),
            ),
    {
        if let Err(error) = context.check() {
            return Err(error);
        }
        self.journal.ack_transfer(id)
    }

    /// The next observation that waits, or else the one that the watcher gave.
    pub fn recv_timeout(&mut self, watched: Option<WatchEvent>) -> (result: Option<WatchEvent>)
        ensures
            final(self).order == old(self).order,
            final(self).journal == old(self).journal,
            final(self).settling == old(self).settling,
            final(self).cursors == old(self).cursors,
            if old(self).pending_watch@.len() > 0 {
                result == Some(old(self).pending_watch@[0]) && final(self).pending_watch@ == (
                match watched {
                    Some(event) => old(self).pending_watch@.drop_first().push(event),
                    None => old(self).pending_watch@.drop_first(),
                })
            } else {
                result == watched && final(self).pending_watch == old(self).pending_watch
            },
    {
        if self.pending_watch.len() == 0 {
            return watched;
        }
        let ghost before = self.pending_watch@;
        let event = self.pending_watch.remove(0);
        proof {
            assert(self.pending_watch@ =~= before.drop_first());
        }
        if let Some(later) = watched {
            self.pending_watch.push(later);
        }
        Some(event)
    }

    /// Brings one observation into the feed, at the next position.
    pub fn ingest_external_timeout(
        &mut self,
        observed: &WatchEvent,
        faults: &ObservedFaults,
        resolutions: &Vec<RuntimeResolution>,
        stored: bool,
        event_id: String,
    ) -> (result: Result<RuntimeChangeEvent, ProviderError>)
        ensures
            final(self).same_rest(old(self)),
            ingests(
                result,
                *old(self),
                *final(self),
                *observed,
                *faults,
                reconciled_feed(
                    old(self).journal@,
                    old(self).order.generation@,
                    resolutions@,
                    stored,
                ),
                event_id@,
            ),
    {
        let (generation, watermark) = match self.next_commit(resolutions, stored) {
            Ok(position) => position,
            Err(error) => {
                return Err(error);
            },
        };
        let changes = match normalize(observed, faults) {
            Ok(changes) => changes,
            Err(_) => ChangeSet::CollectionWide {
                reason: RebuildReason::ExternalChangeUncertain,
            },
        };
        let event = RuntimeChangeEvent {
            identity: ChangeEventIdentity { id: event_id, watermark },
            generation: generation.copy(),
            changes,
            origin: ChangeOrigin::Filesystem,
            commit_id: None,
        };
        if let Err(error) = self.journal.append_external(&event) {
            return Err(error);
        }
        self.order = RuntimeOrder { generation, watermark };
        Ok(event)
    }

    /// Keeps the observations that known changes do not account for.
    pub fn synchronize(
        &mut self,
        observed: Vec<WatchEvent>,
        faults: &Vec<ObservedFaults>,
        known: &Vec<CanonicalChange>,
    )
        requires
            observed@.len() <= faults@.len(),
        ensures
            final(self).order == old(self).order,
            final(self).journal == old(self).journal,
            final(self).settling == old(self).settling,
            final(self).cursors == old(self).cursors,
            final(self).pending_watch@ == old(self).pending_watch@ + unexplained(
                observed@,
                faults@,
                change_models(known@),
            ),
    {
        let ghost before = self.pending_watch@;
        let ghost all = observed@;
        let count: usize = observed.len();
        let mut rest = observed;
        let mut i: usize = 0;
        proof {
            assert(all.take(0) =~= Seq::empty());
            assert(all.skip(0) =~= all);
            assert(before + Seq::<WatchEvent>::empty() =~= before);
        }
        while i < count
            invariant
                i <= count,
                count == all.len(),
                count <= faults@.len(),
                rest@ == all.skip(i as int),
                self.order == old(self).order,
                self.journal == old(self).journal,
                self.settling == old(self).settling,
                self.cursors == old(self).cursors,
                self.pending_watch@ == before + unexplained(
                    all.take(i as int),
                    faults@,
                    change_models(known@),
                ),
            decreases count - i,
        {
            let ghost done = unexplained(all.take(i as int), faults@, change_models(known@));
            proof {
                assert(all.take(i + 1).drop_last() =~= all.take(i as int));
                assert(all.take(i + 1)[i as int] == all[i as int]);
                assert(rest@[0] == all[i as int]);
            }
            let ghost middle = rest@;
            let event = rest.remove(0);
            proof {
                assert(rest@ =~= all.skip(i + 1));
            }
            if !matches_known(&event, &faults[i], known) {
                self.pending_watch.push(event);
                proof {
                    assert(self.pending_watch@ =~= before + done.push(event));
                }
            }
            i = i + 1;
        }
        proof {
            assert(all.take(i as int) =~= all);
        }
    }
}

/// What a committed mutation does to a runtime.
pub open spec fn finishes_commit(
    result: Result<CommitAttempt, ProviderError>,
    before: FilesystemRuntime,
    after: FilesystemRuntime,
    mutation: CommittedMutation,
) -> bool {
    if mutation.watermark > before.order.watermark + 1 {
        &&& result is Err
        &&& result->Err_0@ == (FaultModel::Transaction {
            code: "runtime_order_conflict"@,
            message: "committed watermark is not the next runtime position"@,
        })
        &&& after.journal@ == before.journal@
        &&& after.order == before.order
    } else {
        &&& if mutation.watermark > before.order.watermark {
            after.order.watermark == mutation.watermark && after.order.generation@
                == mutation.generation@
        } else {
            after.order == before.order
        }
        &&& match result {
            Ok(CommitAttempt::Committed(outcome)) => outcome@ == committed_model(mutation)
                && before.journal@.after_known(outcome) == Ok::<_, FaultModel>(after.journal@),
            Ok(CommitAttempt::SettlementPending { commit_id }) => commit_id@
                == mutation.commit_id@ && after.journal@ == before.journal@ && refuses(
                before.journal@,
                mutation,
            ),
            _ => false,
        }
    }
}

/// Whether a journal refuses the event of a committed mutation.
pub open spec fn refuses(journal: JournalModel, mutation: CommittedMutation) -> bool {
    exists|outcome: ExecutionOutcome| outcome@ == committed_model(mutation) && (
    #[trigger] journal.after_known(outcome)) is Err
}

/// Whether a runtime stands where its reconciled feed does.
pub open spec fn stands_at(runtime: FilesystemRuntime, state: FeedState) -> bool {
    runtime.journal@ == state.journal && runtime.order.generation@ == state.generation
        && runtime.order.watermark == state.journal.head
}

/// What an observation does to a runtime.
pub open spec fn ingests(
    result: Result<RuntimeChangeEvent, ProviderError>,
    before: FilesystemRuntime,
    after: FilesystemRuntime,
    observed: WatchEvent,
    faults: ObservedFaults,
    state: Result<FeedState, FaultModel>,
    event_id: Seq<char>,
) -> bool {
    match next_positions(state) {
        Err(fault) => result is Err && result->Err_0@ == fault && match state {
            Ok(state) => stands_at(after, state),
            Err(_) => after.journal@ == before.journal@ && after.order == before.order,
        },
        Ok((generation, watermark)) => {
            let event = EventModel {
                id: event_id,
                watermark,
                generation,
                changes: ingested(observed, faults),
                origin: ChangeOrigin::Filesystem,
                commit_id: None,
            };
            match (state->Ok_0).journal.after_external(event) {
                Err(fault) => result is Err && result->Err_0@ == fault && stands_at(
                    after,
                    state->Ok_0,
                ),
                Ok(journal) => result is Ok && result->Ok_0@ == event && after.journal@ == journal
                    && after.order.generation@ == generation && after.order.watermark
                    == watermark,
            }
        },
    }
}

} // verus!
