//! Outcomes of operations on a collection and states of its transactions.

use crate::canonical_operation::{CanonicalOperationOutcome, OutcomeModel};
use crate::changes::{
    CanonicalChange, ChangeSet, ChangeSetModel, CollectionGeneration, GenerationModel,
};
use crate::text::{copy_optional, optional_text};
use vstd::prelude::*;

verus! {

/// The durable identity of a change event.
#[derive(Debug, PartialEq, Eq)]
pub struct ChangeEventIdentity {
    pub id: String,
    pub watermark: u64,
}

impl ChangeEventIdentity {
    pub fn copy(&self) -> (result: ChangeEventIdentity)
        ensures
            result.id@ == self.id@,
            result.watermark == self.watermark,
    {
        ChangeEventIdentity { id: self.id.clone(), watermark: self.watermark }
    }
}

/// The outcome of an operation, bound to the generation that it saw.
#[derive(Debug, PartialEq, Eq)]
pub struct ExecutionOutcome {
    pub operation: CanonicalOperationOutcome,
    pub generation: CollectionGeneration,
    pub changes: ChangeSet,
    pub commit_id: Option<String>,
    pub change_event: Option<ChangeEventIdentity>,
}

/// What an execution outcome holds.
pub struct ExecutionModel {
    pub operation: OutcomeModel,
    pub generation: GenerationModel,
    pub changes: ChangeSetModel,
    pub commit_id: Option<Seq<char>>,
    pub change_event: Option<(Seq<char>, int)>,
}

/// What an optional event identity holds.
pub open spec fn identity_model(identity: Option<ChangeEventIdentity>) -> Option<
    (Seq<char>, int),
> {
    match identity {
        Some(identity) => Some((identity.id@, identity.watermark as int)),
        None => None,
    }
}

impl View for ExecutionOutcome {
    type V = ExecutionModel;

    open spec fn view(&self) -> ExecutionModel {
        ExecutionModel {
            operation: self.operation@,
            generation: self.generation@,
            changes: self.changes@,
            commit_id: optional_text(self.commit_id),
            change_event: identity_model(self.change_event),
        }
    }
}

/// The outcome of an operation that changed nothing.
pub open spec fn unchanged_outcome(
    operation: OutcomeModel,
    generation: GenerationModel,
) -> ExecutionModel {
    ExecutionModel {
        operation,
        generation,
        changes: ChangeSetModel::Nothing,
        commit_id: None,
        change_event: None,
    }
}

impl ExecutionOutcome {
    pub fn new(
        operation: CanonicalOperationOutcome,
        generation: CollectionGeneration,
        changes: ChangeSet,
        commit_id: Option<String>,
        change_event: Option<ChangeEventIdentity>,
    ) -> (result: ExecutionOutcome)
        ensures
            result.operation == operation,
            result.generation == generation,
            result.changes == changes,
            result.commit_id == commit_id,
            result.change_event == change_event,
    {
        ExecutionOutcome { operation, generation, changes, commit_id, change_event }
    }

    pub fn copy(&self) -> (result: ExecutionOutcome)
        ensures
            result@ == self@,
    {
        ExecutionOutcome {
            operation: self.operation.copy(),
            generation: self.generation.copy(),
            changes: self.changes.copy(),
            commit_id: copy_optional(&self.commit_id),
            change_event: match &self.change_event {
                Some(identity) => Some(identity.copy()),
                None => None,
            },
        }
    }

    /// The outcome of an operation that changed nothing.
    pub fn unchanged(
        operation: CanonicalOperationOutcome,
        generation: CollectionGeneration,
    ) -> (result: ExecutionOutcome)
        ensures
            result@ == unchanged_outcome(operation@, generation@),
            result.operation == operation,
    {
        ExecutionOutcome {
            operation,
            generation,
            changes: ChangeSet::Nothing,
            commit_id: None,
            change_event: None,
        }
    }
}

/// A committed mutation as its transaction keeps it.
#[derive(Debug, PartialEq, Eq)]
pub struct CommittedMutation {
    pub commit_id: String,
    pub operation: CanonicalOperationOutcome,
    pub generation: CollectionGeneration,
    pub watermark: u64,
    pub event_id: String,
    pub changes: Vec<CanonicalChange>,
}

/// The durable state of a transaction.
#[derive(Debug, PartialEq, Eq)]
pub enum RuntimeResolution {
    Prepared { commit_id: String },
    Committing { commit_id: String },
    Committed(CommittedMutation),
    RejectedBeforeCommit { commit_id: String, rejection: CanonicalOperationOutcome },
    CancelledBeforeCommit { commit_id: String },
    NeedsManualRecovery { commit_id: String },
}

} // verus!
