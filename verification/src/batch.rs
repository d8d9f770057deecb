//! Preparing batches and other mutations for a durable transaction.

use crate::canonical::json_digest;
use crate::canonical_operation::{
    has_error, missing_value, BatchResult, CanonicalOperationOutcome, OutcomeModel, ValueModel,
};
use crate::changes::{change_models, CanonicalChange};
use crate::diff::{
    canonical_changes, changes_between, checked_changes, ChangeFacts, CollectionSnapshot,
    OperationRequest,
};
use crate::filesystem::{
    mutation_digest, partial_message, refuse_partial_batch, request_json, FilesystemRuntime,
    PreparationOutcome, RuntimePreparation, RuntimePrepareOutcome,
};
use crate::json::bool_member;
use crate::operation_values::{plain_error, typed_models, TypedDiagnostic};
use crate::provider_error::{FaultModel, ProviderError};
use crate::resolutions::unchanged_outcome;
use vstd::prelude::*;

verus! {

/// What a mutation's transaction is prepared from.
#[derive(Debug, PartialEq, Eq)]
pub struct TransactionInput {
    /// The digest that binds a claim to its request.
    pub mutation_digest: String,
    pub operation: CanonicalOperationOutcome,
    /// What the mutation changes in the collection.
    pub changes: Vec<CanonicalChange>,
}

/// Builds what a mutation's transaction is prepared from, given the collection
/// before and after it.
pub fn transaction_input(
    request: &OperationRequest,
    before: &CollectionSnapshot,
    after: &CollectionSnapshot,
    facts: &ChangeFacts,
    operation: CanonicalOperationOutcome,
) -> (result: Result<TransactionInput, ProviderError>)
    ensures
        match (
            result,
            json_digest(request_json(*request)),
            checked_changes(
                changes_between(*before, *after, Some(request), facts.paths@),
                *facts,
            ),
        ) {
            (Ok(input), Some(digest), Ok(changes)) => {
                &&& input.mutation_digest@ == digest
                &&& input.operation == operation
                &&& change_models(input.changes@) == changes
            },
            (Err(error), None, _) => error@ is InvalidChangeSet,
            (Err(error), Some(_), Err(message)) => error@ == FaultModel::InvalidChangeSet(message),
            _ => false,
        },
{
    let mutation_digest = match mutation_digest(request) {
        Ok(digest) => digest,
        Err(error) => {
            return Err(error);
        },
    };
    match canonical_changes(before, after, Some(request), facts) {
        Ok(changes) => Ok(TransactionInput { mutation_digest, operation, changes }),
        Err(error) => Err(error),
    }
}

/// What decoding and staging a batch gave.
#[derive(Debug, PartialEq, Eq)]
pub enum BatchPreparation {
    /// The request is no batch.
    Undecodable(Vec<TypedDiagnostic>),
    /// The batch changes nothing.
    NoMutation { result: BatchResult, diagnostics: Vec<TypedDiagnostic> },
    /// A transaction was prepared.
    Staged(RuntimePrepareOutcome),
}

/// The outcome of a batch.
pub open spec fn batch_outcome(result: BatchResult, diagnostics: Seq<TypedDiagnostic>) -> OutcomeModel {
    OutcomeModel {
        valid: result.failed == 0 && !has_error(typed_models(diagnostics)),
        value: ValueModel::Batch(Some(result@)),
        diagnostics: typed_models(diagnostics),
    }
}

/// The outcome of a request that is refused with diagnostics.
pub open spec fn refused_outcome(
    request: OperationRequest,
    diagnostics: Seq<crate::operation_values::TypedModel>,
) -> OutcomeModel {
    OutcomeModel { valid: false, value: missing_value(request.operation), diagnostics }
}

/// The outcome of a batch that is answered without a transaction, if it is.
pub open spec fn unprepared(request: OperationRequest, preparation: BatchPreparation) -> Option<
    OutcomeModel,
> {
    if bool_member(request.input@, "allow_partial"@) == Some(true) {
        Some(
            refused_outcome(request, seq![plain_error("invalid_request"@, partial_message())]),
        )
    } else {
        match preparation {
            BatchPreparation::Undecodable(diagnostics) => Some(
                refused_outcome(request, typed_models(diagnostics@)),
            ),
            BatchPreparation::NoMutation { result, diagnostics } => Some(
                batch_outcome(result, diagnostics@),
            ),
            BatchPreparation::Staged(RuntimePrepareOutcome::NoMutation(outcome)) => Some(outcome@),
            BatchPreparation::Staged(_) => None,
        }
    }
}

impl FilesystemRuntime {
    /// What preparing a batch gave. A batch that may be applied in part is refused,
    /// whatever staging it gave.
    pub fn prepare_batch(
        &self,
        request: &OperationRequest,
        claim: &str,
        preparation: BatchPreparation,
    ) -> (result: Result<PreparationOutcome, ProviderError>)
        requires
            request.operation.concerns_records(),
        ensures
            match unprepared(*request, preparation) {
                Some(outcome) => match result {
                    Ok(PreparationOutcome::NoMutation(found)) => found@ == unchanged_outcome(
                        outcome,
                        self.order.generation@,
                    ),
                    _ => false,
                },
                None => match preparation->Staged_0 {
                    RuntimePrepareOutcome::Prepared(commit_id) => match result {
                        Ok(PreparationOutcome::Prepared(mutation)) => mutation.commit_id
                            == commit_id && mutation.claim@ == claim@,
                        _ => false,
                    },
                    _ => result is Err && result->Err_0@ == (FaultModel::Transaction {
                        code: "claim_already_finalized"@,
                        message: "host claim already resolves to a final durable state"@,
                    }),
                },
            },
    {
        if let Some(outcome) = refuse_partial_batch(request) {
            return self.prepare(claim, RuntimePreparation::NoMutation(outcome));
        }
        let known = match preparation {
            BatchPreparation::Undecodable(diagnostics) => RuntimePreparation::NoMutation(
                CanonicalOperationOutcome::invalid(request.operation, diagnostics),
            ),
            BatchPreparation::NoMutation { result, diagnostics } => RuntimePreparation::NoMutation(
                CanonicalOperationOutcome::batch(result, diagnostics),
            ),
            BatchPreparation::Staged(outcome) => RuntimePreparation::Staged(outcome),
        };
        self.prepare(claim, known)
    }
}

} // verus!
