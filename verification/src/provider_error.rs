//! Errors of providers and runtimes.

use crate::context::CaptureLimitExceeded;
use vstd::prelude::*;

verus! {

/// Why a provider or runtime operation failed.
#[derive(Debug, PartialEq, Eq)]
pub enum ProviderError {
    OperationCancelled,
    OperationDeadline,
    LockPoisoned,
    CaptureLimitExceeded(CaptureLimitExceeded),
    CollectionOpen(String),
    InvalidChangeSet(String),
    Transaction { code: String, message: String },
    ChangeFeedCapacityExhausted,
    ChangeFeedOwned,
    ChangeFeedRetentionGap,
    ChangeFeedTransferMismatch,
    ChangeFeedFenced,
    InvalidChangeFeedAck,
    WatermarkExhausted,
    GenerationExhausted,
    InvalidReadCursor,
    GenerationExpired,
    CursorCapacityExhausted,
    ClaimMismatch,
    RuntimeCapacityExhausted,
    UnsupportedOperation(String),
}

/// What an error holds.
pub enum FaultModel {
    Transaction { code: Seq<char>, message: Seq<char> },
    InvalidChangeSet(Seq<char>),
    UnsupportedOperation(Seq<char>),
    CollectionOpen(Seq<char>),
    Other(ProviderError),
}

impl View for ProviderError {
    type V = FaultModel;

    open spec fn view(&self) -> FaultModel {
        match self {
            ProviderError::Transaction { code, message } => FaultModel::Transaction {
                code: code@,
                message: message@,
            },
            ProviderError::InvalidChangeSet(message) => FaultModel::InvalidChangeSet(message@),
            ProviderError::UnsupportedOperation(message) => FaultModel::UnsupportedOperation(
                message@,
            ),
            ProviderError::CollectionOpen(message) => FaultModel::CollectionOpen(message@),
            other => FaultModel::Other(*other),
        }
    }
}

impl ProviderError {
    /// Whether this is a transaction error with a code and a message.
    pub open spec fn is_transaction(&self, code: Seq<char>, message: Seq<char>) -> bool {
        match self {
            ProviderError::Transaction { code: actual, message: text } => actual@ == code && text@
                == message,
            _ => false,
        }
    }

    /// A transaction error.
    pub fn transaction(code: &str, message: &str) -> (result: ProviderError)
        ensures
            result.is_transaction(code@, message@),
            result@ == (FaultModel::Transaction { code: code@, message: message@ }),
    {
        ProviderError::Transaction { code: code.to_owned(), message: message.to_owned() }
    }
}

} // verus!
