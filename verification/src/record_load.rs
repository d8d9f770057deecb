//! Loading records from their bytes: what is read is classified once and keeps the
//! revision of its exact bytes.

use crate::context::{
    may_violate, violation, CaptureLimitExceeded, CaptureLimitKind, OperationContext,
};
use crate::digest::{digest_of, revision};
use crate::json::{Json, JsonModel};
use crate::provider_error::{FaultModel, ProviderError};
use crate::text::concat3;
use vstd::prelude::*;
use vstd::string::StringExecFns;
use vstd::utf8::{encode_utf8, valid_utf8};

verus! {

/// `String::from_utf8`: the text that bytes encode, if they encode one.
#[verifier::external_body]
pub(crate) fn decode_text(bytes: Vec<u8>) -> (result: Option<String>)
    ensures
        match result {
            Some(text) => valid_utf8(bytes@) && encode_utf8(text@) == bytes@,
            None => !valid_utf8(bytes@),
        },
{
    String::from_utf8(bytes).ok()
}

#[derive(Clone, Copy, Debug, PartialEq, Eq, Structural)]
pub enum InvalidRecordReason {
    InvalidYaml,
    NonMappingFrontmatter,
    InvalidUtf8,
}

impl InvalidRecordReason {
    pub open spec fn name(self) -> Seq<char> {
        match self {
            InvalidRecordReason::InvalidYaml => "invalid_yaml"@,
            InvalidRecordReason::NonMappingFrontmatter => "non_mapping_frontmatter"@,
            InvalidRecordReason::InvalidUtf8 => "invalid_utf8"@,
        }
    }

    pub fn as_str(self) -> (result: &'static str)
        ensures
            result@ == self.name(),
    {
        match self {
            InvalidRecordReason::InvalidYaml => "invalid_yaml",
            InvalidRecordReason::NonMappingFrontmatter => "non_mapping_frontmatter",
            InvalidRecordReason::InvalidUtf8 => "invalid_utf8",
        }
    }
}

/// The facts of a loaded file.
#[derive(Debug, PartialEq, Eq)]
pub struct RecordFileFacts {
    pub revision: String,
    pub size: u64,
    pub mtime_ns: i64,
    pub ctime_ns: Option<i64>,
}

/// The facts of a file: the revision of its bytes, their number, and its times.
pub fn facts(bytes: &Vec<u8>, modified_ns: Option<i64>, created_ns: Option<i64>) -> (result:
    RecordFileFacts)
    ensures
        result.revision@ == digest_of(bytes@),
        result.size == bytes@.len(),
        result.mtime_ns == match modified_ns {
            Some(nanos) => nanos,
            None => 0,
        },
        result.ctime_ns == created_ns,
{
    RecordFileFacts {
        revision: revision(bytes.as_slice()),
        size: bytes.len() as u64,
        mtime_ns: match modified_ns {
            Some(nanos) => nanos,
            None => 0,
        },
        ctime_ns: created_ns,
    }
}

/// What stands where a document's frontmatter should.
#[derive(Debug, PartialEq, Eq)]
pub enum FrontmatterState {
    Absent,
    Mapping(Json),
    InvalidYaml,
    Null,
    NonMapping,
}

/// The parts of a document.
#[derive(Debug, PartialEq, Eq)]
pub struct ParsedDocumentLayout {
    pub had_bom: bool,
    pub body: String,
    pub frontmatter: FrontmatterState,
}

/// What the collection says of a document.
#[derive(Debug)]
pub struct RecordAnalysis {
    pub layout: ParsedDocumentLayout,
    /// The types of the path alone, and what they make of empty frontmatter.
    pub path_types: Vec<String>,
    pub path_frontmatter: Json,
    /// The types of the record, and what they make of its frontmatter.
    pub types: Vec<String>,
    pub effective_frontmatter: Json,
}

/// What is kept of a record that is not valid.
#[derive(Debug, PartialEq, Eq)]
pub enum InvalidRecordState {
    Frontmatter {
        document: String,
        layout: ParsedDocumentLayout,
        effective_frontmatter: Json,
        reason: InvalidRecordReason,
    },
    InvalidUtf8,
}

impl InvalidRecordState {
    pub open spec fn cause(&self) -> InvalidRecordReason {
        match self {
            InvalidRecordState::Frontmatter {
                document,
                layout,
                effective_frontmatter,
                reason,
            } => *reason,
            InvalidRecordState::InvalidUtf8 => InvalidRecordReason::InvalidUtf8,
        }
    }

    pub fn reason(&self) -> (result: InvalidRecordReason)
        ensures
            result == self.cause(),
    {
        match self {
            InvalidRecordState::Frontmatter { reason, .. } => *reason,
            InvalidRecordState::InvalidUtf8 => InvalidRecordReason::InvalidUtf8,
        }
    }
}

/// A loaded record.
#[derive(Debug, PartialEq, Eq)]
pub enum RecordLoadOutcome {
    Parsed {
        path: String,
        facts: RecordFileFacts,
        document: String,
        layout: ParsedDocumentLayout,
        raw_frontmatter: Json,
        effective_frontmatter: Json,
        type_names: Vec<String>,
    },
    Invalid {
        path: String,
        facts: RecordFileFacts,
        type_names: Vec<String>,
        state: InvalidRecordState,
    },
}

/// A valid record, borrowed.
#[derive(Clone, Copy)]
pub struct ParsedRecordView<'a> {
    pub path: &'a str,
    pub facts: &'a RecordFileFacts,
    pub document: &'a str,
    pub layout: &'a ParsedDocumentLayout,
    pub raw_frontmatter: &'a Json,
    pub effective_frontmatter: &'a Json,
    pub type_names: &'a Vec<String>,
}

/// A record that is not valid, borrowed.
pub enum InvalidRecordView<'a> {
    Frontmatter {
        path: &'a str,
        facts: &'a RecordFileFacts,
        document: &'a str,
        layout: &'a ParsedDocumentLayout,
        effective_frontmatter: &'a Json,
        type_names: &'a Vec<String>,
        reason: InvalidRecordReason,
    },
    InvalidUtf8 { path: &'a str, facts: &'a RecordFileFacts, type_names: &'a Vec<String> },
}

impl RecordLoadOutcome {
    pub open spec fn path_model(&self) -> Seq<char> {
        match self {
            RecordLoadOutcome::Parsed { path, .. } => path@,
            RecordLoadOutcome::Invalid { path, .. } => path@,
        }
    }

    pub open spec fn facts_model(&self) -> RecordFileFacts {
        match self {
            RecordLoadOutcome::Parsed { facts, .. } => *facts,
            RecordLoadOutcome::Invalid { facts, .. } => *facts,
        }
    }

    pub open spec fn types_model(&self) -> Vec<String> {
        match self {
            RecordLoadOutcome::Parsed { type_names, .. } => *type_names,
            RecordLoadOutcome::Invalid { type_names, .. } => *type_names,
        }
    }

    pub open spec fn reason_model(&self) -> Option<InvalidRecordReason> {
        match self {
            RecordLoadOutcome::Parsed { .. } => None,
            RecordLoadOutcome::Invalid { state, .. } => Some(state.cause()),
        }
    }

    pub open spec fn document_model(&self) -> Option<Seq<char>> {
        match self {
            RecordLoadOutcome::Parsed { document, .. } => Some(document@),
            RecordLoadOutcome::Invalid {
                state: InvalidRecordState::Frontmatter { document, .. },
                ..
            } => Some(document@),
            RecordLoadOutcome::Invalid { state: InvalidRecordState::InvalidUtf8, .. } => None,
        }
    }

    pub open spec fn layout_model(&self) -> Option<ParsedDocumentLayout> {
        match self {
            RecordLoadOutcome::Parsed { layout, .. } => Some(*layout),
            RecordLoadOutcome::Invalid {
                state: InvalidRecordState::Frontmatter { layout, .. },
                ..
            } => Some(*layout),
            RecordLoadOutcome::Invalid { state: InvalidRecordState::InvalidUtf8, .. } => None,
        }
    }

    pub open spec fn effective_model(&self) -> Option<JsonModel> {
        match self {
            RecordLoadOutcome::Parsed { effective_frontmatter, .. } => Some(
                effective_frontmatter@,
            ),
            RecordLoadOutcome::Invalid {
                state: InvalidRecordState::Frontmatter { effective_frontmatter, .. },
                ..
            } => Some(effective_frontmatter@),
            RecordLoadOutcome::Invalid { state: InvalidRecordState::InvalidUtf8, .. } => None,
        }
    }

    pub fn path(&self) -> (result: &str)
        ensures
            result@ == self.path_model(),
    {
        match self {
            RecordLoadOutcome::Parsed { path, .. } => path.as_str(),
            RecordLoadOutcome::Invalid { path, .. } => path.as_str(),
        }
    }

    pub fn parsed(&self) -> (result: Option<ParsedRecordView<'_>>)
        ensures
            match (result, self) {
                (
                    Some(view),
                    RecordLoadOutcome::Parsed {
                        path,
                        facts,
                        document,
                        layout,
                        raw_frontmatter,
                        effective_frontmatter,
                        type_names,
                    },
                ) => view.path@ == path@ && *view.facts == *facts && view.document@ == document@
                    && *view.layout == *layout && *view.raw_frontmatter == *raw_frontmatter
                    && *view.effective_frontmatter == *effective_frontmatter && *view.type_names
                    == *type_names,
                (None, RecordLoadOutcome::Invalid { .. }) => true,
                _ => false,
            },
    {
        match self {
            RecordLoadOutcome::Parsed {
                path,
                facts,
                document,
                layout,
                raw_frontmatter,
                effective_frontmatter,
                type_names,
            } => Some(
                ParsedRecordView {
                    path: path.as_str(),
                    facts,
                    document: document.as_str(),
                    layout,
                    raw_frontmatter,
                    effective_frontmatter,
                    type_names,
                },
            ),
            RecordLoadOutcome::Invalid { .. } => None,
        }
    }

    pub fn invalid(&self) -> (result: Option<InvalidRecordView<'_>>)
        ensures
            match result {
                None => self is Parsed,
                Some(
                    InvalidRecordView::Frontmatter {
                        path,
                        facts,
                        document,
                        layout,
                        effective_frontmatter,
                        type_names,
                        reason,
                    },
                ) => self is Invalid && path@ == self.path_model() && *facts == self.facts_model()
                    && self.document_model() == Some(document@) && self.layout_model() == Some(
                    *layout,
                ) && self.effective_model() == Some(effective_frontmatter@) && *type_names
                    == self.types_model() && self.reason_model() == Some(reason),
                Some(InvalidRecordView::InvalidUtf8 { path, facts, type_names }) =>
                self.reason_model() == Some(InvalidRecordReason::InvalidUtf8) && path@
                    == self.path_model() && *facts == self.facts_model() && *type_names
                    == self.types_model() && self.document_model() is None,
            },
    {
        match self {
            RecordLoadOutcome::Parsed { .. } => None,
            RecordLoadOutcome::Invalid {
                path,
                facts,
                type_names,
                state: InvalidRecordState::Frontmatter {
                    document,
                    layout,
                    effective_frontmatter,
                    reason,
                },
            } => Some(
                InvalidRecordView::Frontmatter {
                    path: path.as_str(),
                    facts,
                    document: document.as_str(),
                    layout,
                    effective_frontmatter,
                    type_names,
                    reason: *reason,
                },
            ),
            RecordLoadOutcome::Invalid {
                path,
                facts,
                type_names,
                state: InvalidRecordState::InvalidUtf8,
            } => Some(
                InvalidRecordView::InvalidUtf8 { path: path.as_str(), facts, type_names },
            ),
        }
    }

    pub fn reason(&self) -> (result: Option<InvalidRecordReason>)
        ensures
            result == self.reason_model(),
    {
        match self {
            RecordLoadOutcome::Parsed { .. } => None,
            RecordLoadOutcome::Invalid { state, .. } => Some(state.reason()),
        }
    }

    pub fn facts(&self) -> (result: &RecordFileFacts)
        ensures
            *result == self.facts_model(),
    {
        match self {
            RecordLoadOutcome::Parsed { facts, .. } => facts,
            RecordLoadOutcome::Invalid { facts, .. } => facts,
        }
    }

    pub fn type_names(&self) -> (result: &Vec<String>)
        ensures
            *result == self.types_model(),
    {
        match self {
            RecordLoadOutcome::Parsed { type_names, .. } => type_names,
            RecordLoadOutcome::Invalid { type_names, .. } => type_names,
        }
    }

    pub fn effective_frontmatter(&self) -> (result: Option<&Json>)
        ensures
            crate::json::referenced(result) == self.effective_model(),
    {
        match self {
            RecordLoadOutcome::Parsed { effective_frontmatter, .. } => Some(
                effective_frontmatter,
            ),
            RecordLoadOutcome::Invalid {
                state: InvalidRecordState::Frontmatter { effective_frontmatter, .. },
                ..
            } => Some(effective_frontmatter),
            RecordLoadOutcome::Invalid { state: InvalidRecordState::InvalidUtf8, .. } => None,
        }
    }

    pub fn document(&self) -> (result: Option<&str>)
        ensures
            match result {
                Some(document) => self.document_model() == Some(document@),
                None => self.document_model() is None,
            },
    {
        match self {
            RecordLoadOutcome::Parsed { document, .. } => Some(document.as_str()),
            RecordLoadOutcome::Invalid {
                state: InvalidRecordState::Frontmatter { document, .. },
                ..
            } => Some(document.as_str()),
            RecordLoadOutcome::Invalid { state: InvalidRecordState::InvalidUtf8, .. } => None,
        }
    }

    pub fn body(&self) -> (result: Option<&str>)
        ensures
            match result {
                Some(body) => self.layout_model() is Some && (self.layout_model()->0).body@ == body@,
                None => self.layout_model() is None,
            },
    {
        match self {
            RecordLoadOutcome::Parsed { layout, .. } => Some(layout.body.as_str()),
            RecordLoadOutcome::Invalid {
                state: InvalidRecordState::Frontmatter { layout, .. },
                ..
            } => Some(layout.body.as_str()),
            RecordLoadOutcome::Invalid { state: InvalidRecordState::InvalidUtf8, .. } => None,
        }
    }

    pub fn had_bom(&self) -> (result: Option<bool>)
        ensures
            match result {
                Some(bom) => self.layout_model() is Some && (self.layout_model()->0).had_bom
                    == bom,
                None => self.layout_model() is None,
            },
    {
        match self {
            RecordLoadOutcome::Parsed { layout, .. } => Some(layout.had_bom),
            RecordLoadOutcome::Invalid {
                state: InvalidRecordState::Frontmatter { layout, .. },
                ..
            } => Some(layout.had_bom),
            RecordLoadOutcome::Invalid { state: InvalidRecordState::InvalidUtf8, .. } => None,
        }
    }
}

// ---------------------------------------------------------------------------
// Classification
// ---------------------------------------------------------------------------
/// Why a record is not valid, by its bytes and its frontmatter.
pub open spec fn fault_of_bytes(bytes: Seq<u8>, frontmatter: FrontmatterState) -> Option<
    InvalidRecordReason,
> {
    if !valid_utf8(bytes) {
        Some(InvalidRecordReason::InvalidUtf8)
    } else {
        match frontmatter {
            FrontmatterState::Absent => None,
            FrontmatterState::Mapping(_) => None,
            FrontmatterState::InvalidYaml => Some(InvalidRecordReason::InvalidYaml),
            FrontmatterState::Null => Some(InvalidRecordReason::NonMappingFrontmatter),
            FrontmatterState::NonMapping => Some(InvalidRecordReason::NonMappingFrontmatter),
        }
    }
}

/// The frontmatter of a valid record.
pub open spec fn raw_model(frontmatter: FrontmatterState) -> JsonModel {
    match frontmatter {
        FrontmatterState::Mapping(mapping) => mapping@,
        _ => JsonModel::Object(Seq::empty()),
    }
}

/// Whether an outcome is that of some bytes.
pub open spec fn classifies(
    outcome: RecordLoadOutcome,
    path: Seq<char>,
    bytes: Seq<u8>,
    facts: RecordFileFacts,
    analysis: RecordAnalysis,
) -> bool {
    &&& outcome.path_model() == path
    &&& outcome.facts_model() == facts
    &&& outcome.reason_model() == fault_of_bytes(bytes, analysis.layout.frontmatter)
    &&& match outcome.document_model() {
        Some(document) => encode_utf8(document) == bytes,
        None => !valid_utf8(bytes),
    }
    &&& outcome.document_model() is Some ==> outcome.layout_model() == Some(analysis.layout)
    &&& match outcome {
        RecordLoadOutcome::Parsed {
            raw_frontmatter,
            effective_frontmatter,
            type_names,
            ..
        } => raw_frontmatter@ == raw_model(analysis.layout.frontmatter) && effective_frontmatter
            == analysis.effective_frontmatter && type_names == analysis.types,
        RecordLoadOutcome::Invalid { type_names, .. } => type_names == analysis.path_types
            && match outcome.effective_model() {
            Some(effective) => effective == analysis.path_frontmatter@,
            None => !valid_utf8(bytes),
        },
    }
}

/// Classifies the bytes of a record.
pub fn classify_bytes(
    path: &str,
    bytes: Vec<u8>,
    facts: RecordFileFacts,
    analysis: RecordAnalysis,
) -> (result: RecordLoadOutcome)
    ensures
        classifies(result, path@, bytes@, facts, analysis),
{
    let document = match decode_text(bytes) {
        Some(document) => document,
        None => {
            return RecordLoadOutcome::Invalid {
                path: path.to_owned(),
                facts,
                type_names: analysis.path_types,
                state: InvalidRecordState::InvalidUtf8,
            };
        },
    };
    let reason = match &analysis.layout.frontmatter {
        FrontmatterState::Absent => None,
        FrontmatterState::Mapping(_) => None,
        FrontmatterState::InvalidYaml => Some(InvalidRecordReason::InvalidYaml),
        FrontmatterState::Null => Some(InvalidRecordReason::NonMappingFrontmatter),
        FrontmatterState::NonMapping => Some(InvalidRecordReason::NonMappingFrontmatter),
    };
    if let Some(reason) = reason {
        return RecordLoadOutcome::Invalid {
            path: path.to_owned(),
            facts,
            type_names: analysis.path_types,
            state: InvalidRecordState::Frontmatter {
                document,
                layout: analysis.layout,
                effective_frontmatter: analysis.path_frontmatter,
                reason,
            },
        };
    }
    let raw_frontmatter = match &analysis.layout.frontmatter {
        FrontmatterState::Mapping(mapping) => mapping.copy(),
        _ => Json::empty_object(),
    };
    RecordLoadOutcome::Parsed {
        path: path.to_owned(),
        facts,
        document,
        layout: analysis.layout,
        raw_frontmatter,
        effective_frontmatter: analysis.effective_frontmatter,
        type_names: analysis.types,
    }
}

// ---------------------------------------------------------------------------
// Loading
// ---------------------------------------------------------------------------
/// What was known of a file before and after it was read.
#[derive(Debug)]
pub struct ReadWitness {
    pub size_before: u64,
    pub size_after: u64,
    pub modified_before_ns: Option<i64>,
    pub modified_after_ns: Option<i64>,
    pub created_ns: Option<i64>,
}

/// Whether a file stayed the same while its bytes were read.
pub open spec fn is_stable(witness: ReadWitness, bytes: Seq<u8>) -> bool {
    witness.size_before == witness.size_after && witness.modified_before_ns
        == witness.modified_after_ns && bytes.len() == witness.size_after
}

/// The failure to read a record.
pub open spec fn read_fault(path: Seq<char>, error: Seq<char>) -> FaultModel {
    FaultModel::CollectionOpen(
        "failed to read collection record '"@ + path + "': "@ + error,
    )
}

pub fn record_provider_error(path: &str, error: &str) -> (result: ProviderError)
    ensures
        result@ == read_fault(path@, error@),
{
    ProviderError::CollectionOpen(
        concat3("failed to read collection record '", path, "': ").concat(error),
    )
}

pub fn record_open_error(path: &str, error: &str) -> (result: ProviderError)
    ensures
        result@ == FaultModel::CollectionOpen(
            "failed to open collection record '"@ + path@ + "': "@ + error@,
        ),
{
    ProviderError::CollectionOpen(
        concat3("failed to open collection record '", path, "': ").concat(error),
    )
}

/// Makes a record of the bytes that were read, unless the file changed meanwhile.
pub fn finish_open_record(
    path: &str,
    witness: &ReadWitness,
    bytes: Vec<u8>,
    analysis: RecordAnalysis,
) -> (result: Result<RecordLoadOutcome, ProviderError>)
    ensures
        match result {
            Ok(outcome) => {
                &&& is_stable(*witness, bytes@)
                &&& classifies(outcome, path@, bytes@, outcome.facts_model(), analysis)
                &&& outcome.facts_model().revision@ == digest_of(bytes@)
                &&& outcome.facts_model().size == bytes@.len()
                &&& outcome.facts_model().mtime_ns == match witness.modified_after_ns {
                    Some(nanos) => nanos,
                    None => 0,
                }
                &&& outcome.facts_model().ctime_ns == witness.created_ns
            },
            Err(error) => !is_stable(*witness, bytes@) && error@ == read_fault(
                path@,
                "record changed while it was being loaded"@,
            ),
        },
{
    let same_time = match (witness.modified_before_ns, witness.modified_after_ns) {
        (Some(before), Some(after)) => before == after,
        (None, None) => true,
        _ => false,
    };
    if witness.size_before != witness.size_after || !same_time || bytes.len() as u64
        != witness.size_after {
        return Err(record_provider_error(path, "record changed while it was being loaded"));
    }
    let known = facts(&bytes, witness.modified_after_ns, witness.created_ns);
    Ok(classify_bytes(path, bytes, known, analysis))
}

/// Whether a part of a file may be added to what was read of it: the file and the
/// operation stay within their budgets.
pub fn admit_part(context: &OperationContext, loaded: u64, part: u64) -> (result: Result<
    (),
    ProviderError,
>)
    ensures
        match result {
            Ok(_) => loaded + part <= context.limits_model().max_file_bytes && part
                <= context.limits_model().max_aggregate_bytes && part
                <= context.limits_model().max_retained_bytes,
            Err(ProviderError::CaptureLimitExceeded(error)) => if loaded + part > u64::MAX {
                error == (CaptureLimitExceeded {
                    kind: CaptureLimitKind::ArithmeticOverflow,
                    limit: u64::MAX,
                    attempted: u64::MAX,
                })
            } else if loaded + part > context.limits_model().max_file_bytes {
                violation(
                    CaptureLimitKind::FileBytes,
                    context.limits_model().max_file_bytes,
                    (loaded + part) as u64,
                ) == Some(error)
            } else {
                may_violate(
                    error,
                    CaptureLimitKind::AggregateBytes,
                    context.limits_model().max_aggregate_bytes,
                    part,
                ) || may_violate(
                    error,
                    CaptureLimitKind::RetainedBytes,
                    context.limits_model().max_retained_bytes,
                    part,
                )
            },
            Err(error) => error == ProviderError::OperationCancelled || error
                == ProviderError::OperationDeadline,
        },
{
    let attempted: u64 = match loaded.checked_add(part) {
        Some(attempted) => attempted,
        None => {
            return Err(
                ProviderError::CaptureLimitExceeded(
                    CaptureLimitExceeded {
                        kind: CaptureLimitKind::ArithmeticOverflow,
                        limit: u64::MAX,
                        attempted: u64::MAX,
                    },
                ),
            );
        },
    };
    if let Err(error) = context.check_file_bytes(attempted) {
        return Err(error);
    }
    if let Err(error) = context.charge_read(part) {
        return Err(error);
    }
    if let Err(error) = context.charge_retained(part) {
        return Err(error);
    }
    context.check()
}

/// Bytes that encode a text are kept as that text, whatever becomes of the
/// frontmatter; other bytes are never shown as text.
pub proof fn lemma_documents_are_exact(
    outcome: RecordLoadOutcome,
    path: Seq<char>,
    bytes: Seq<u8>,
    facts: RecordFileFacts,
    analysis: RecordAnalysis,
)
    requires
        classifies(outcome, path, bytes, facts, analysis),
    ensures
        valid_utf8(bytes) <==> outcome.document_model() is Some,
        outcome.document_model() is Some ==> encode_utf8(outcome.document_model()->0) == bytes,
        outcome is Parsed ==> valid_utf8(bytes),
{
    if outcome.document_model() is Some {
        vstd::utf8::encode_utf8_valid_utf8(outcome.document_model()->0);
    }
}

} // verus!
