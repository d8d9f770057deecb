//! Typed outcomes of operations and their portable envelope.

use crate::diagnostics::{optional_json, OperationModel, OperationResult};
use crate::json::{
    bool_member, copy_items, copy_members, drop_member, item_models, lemma_array_model,
    lemma_lookup_without_member, lemma_object_model, lookup, member_models, member_of, no_members,
    put, put_entry, text_member, unsigned_model, without_member, Json, JsonModel, Member,
    NumberModel,
};
use crate::operation_values::{
    all_portable, all_typed, copy_typed, diagnostics_from_json, diagnostics_json, diagnostics_of,
    diagnostics_to_json, lemma_record_members, lemma_record_roundtrip, plain_error, present_member,
    present_member_of, record_members, record_of, required_text, type_diagnostics, typed_models,
    wire_diagnostics, OperationKind, RecordDocument, RecordDocumentModel, RecordFile, Severity,
    TypedDiagnostic, TypedModel,
};
use crate::provider_error::ProviderError;
use vstd::prelude::*;

verus! {

// ---------------------------------------------------------------------------
// Values
// ---------------------------------------------------------------------------
/// Typed value of a query, kept by the runtime and by read cursors.
#[derive(Debug, PartialEq, Eq)]
pub struct CanonicalQueryValue {
    pub records: Vec<Json>,
    /// Exact total when computed; `None` when it was deferred.
    pub total_count: Option<u64>,
    pub has_more: bool,
    pub meta: Json,
    pub embedded_diagnostics: Vec<TypedDiagnostic>,
}

pub struct QueryValueModel {
    pub records: Seq<JsonModel>,
    pub total_count: Option<int>,
    pub has_more: bool,
    pub meta: JsonModel,
    pub embedded_diagnostics: Seq<TypedModel>,
}

impl View for CanonicalQueryValue {
    type V = QueryValueModel;

    open spec fn view(&self) -> QueryValueModel {
        QueryValueModel {
            records: item_models(self.records@),
            total_count: match self.total_count {
                Some(count) => Some(count as int),
                None => None,
            },
            has_more: self.has_more,
            meta: self.meta@,
            embedded_diagnostics: typed_models(self.embedded_diagnostics@),
        }
    }
}

#[derive(Debug, PartialEq, Eq)]
pub struct DeleteResult {
    pub path: String,
    pub deleted: bool,
}

#[derive(Debug, PartialEq, Eq)]
pub struct DeletePreflightResult {
    pub path: String,
    pub would_delete: bool,
    pub broken_links: Vec<Json>,
}

/// Typed result of a delete operation.
#[derive(Debug, PartialEq, Eq)]
pub enum CanonicalDeleteValue {
    Deleted(DeleteResult),
    Preflight(DeletePreflightResult),
}

pub enum DeleteModel {
    Deleted { path: Seq<char>, deleted: bool },
    Preflight { path: Seq<char>, would_delete: bool, broken_links: Seq<JsonModel> },
}

impl View for CanonicalDeleteValue {
    type V = DeleteModel;

    open spec fn view(&self) -> DeleteModel {
        match self {
            CanonicalDeleteValue::Deleted(value) => DeleteModel::Deleted {
                path: value.path@,
                deleted: value.deleted,
            },
            CanonicalDeleteValue::Preflight(value) => DeleteModel::Preflight {
                path: value.path@,
                would_delete: value.would_delete,
                broken_links: item_models(value.broken_links@),
            },
        }
    }
}

#[derive(Debug, PartialEq, Eq)]
pub struct RenameResult {
    pub from: String,
    pub to: String,
    pub document: RecordDocument,
    pub references_updated: Vec<Json>,
    pub partial_updates: Option<Json>,
}

/// Exact value of a rename that changes nothing.
#[derive(Debug, PartialEq, Eq)]
pub struct CanonicalRenamePreflightValue {
    pub from: String,
    pub to: String,
    pub dry_run: bool,
    pub would_rename: bool,
    pub references_affected: Vec<Json>,
    pub partial_updates: Option<Json>,
}

/// Typed result of a rename operation.
#[derive(Debug, PartialEq, Eq)]
pub enum CanonicalRenameValue {
    Renamed(RenameResult),
    Preflight(CanonicalRenamePreflightValue),
}

pub enum RenameModel {
    Renamed {
        from: Seq<char>,
        to: Seq<char>,
        document: RecordDocumentModel,
        references_updated: Seq<JsonModel>,
        partial_updates: Option<JsonModel>,
    },
    Preflight {
        from: Seq<char>,
        to: Seq<char>,
        dry_run: bool,
        would_rename: bool,
        references_affected: Seq<JsonModel>,
        partial_updates: Option<JsonModel>,
    },
}

impl View for CanonicalRenameValue {
    type V = RenameModel;

    open spec fn view(&self) -> RenameModel {
        match self {
            CanonicalRenameValue::Renamed(value) => RenameModel::Renamed {
                from: value.from@,
                to: value.to@,
                document: value.document@,
                references_updated: item_models(value.references_updated@),
                partial_updates: optional_json(value.partial_updates),
            },
            CanonicalRenameValue::Preflight(value) => RenameModel::Preflight {
                from: value.from@,
                to: value.to@,
                dry_run: value.dry_run,
                would_rename: value.would_rename,
                references_affected: item_models(value.references_affected@),
                partial_updates: optional_json(value.partial_updates),
            },
        }
    }
}

/// Result of one operation of a batch.
#[derive(Debug, PartialEq, Eq)]
pub enum BatchOperationResult {
    Record(RecordDocument),
    Delete(CanonicalDeleteValue),
    Rename(CanonicalRenameValue),
    Other(Json),
}

pub enum BatchOperationModel {
    Record(RecordDocumentModel),
    Delete(DeleteModel),
    Rename(RenameModel),
    Other(JsonModel),
}

impl View for BatchOperationResult {
    type V = BatchOperationModel;

    open spec fn view(&self) -> BatchOperationModel {
        match self {
            BatchOperationResult::Record(value) => BatchOperationModel::Record(value@),
            BatchOperationResult::Delete(value) => BatchOperationModel::Delete(value@),
            BatchOperationResult::Rename(value) => BatchOperationModel::Rename(value@),
            BatchOperationResult::Other(value) => BatchOperationModel::Other(value@),
        }
    }
}

/// The result of one operation of a batch, by its position.
#[derive(Debug, PartialEq, Eq)]
pub struct BatchItemResult {
    pub index: u64,
    pub kind: String,
    pub valid: bool,
    pub result: BatchOperationResult,
    pub diagnostics: Vec<TypedDiagnostic>,
}

pub struct BatchItemModel {
    pub index: int,
    pub kind: Seq<char>,
    pub valid: bool,
    pub result: BatchOperationModel,
    pub diagnostics: Seq<TypedModel>,
}

impl View for BatchItemResult {
    type V = BatchItemModel;

    open spec fn view(&self) -> BatchItemModel {
        BatchItemModel {
            index: self.index as int,
            kind: self.kind@,
            valid: self.valid,
            result: self.result@,
            diagnostics: typed_models(self.diagnostics@),
        }
    }
}

#[derive(Debug, PartialEq, Eq)]
pub struct BatchResult {
    pub operations: Vec<BatchItemResult>,
    pub succeeded: u64,
    pub failed: u64,
    pub preflight: bool,
    pub dry_run: bool,
}

pub struct BatchModel {
    pub operations: Seq<BatchItemModel>,
    pub succeeded: int,
    pub failed: int,
    pub preflight: bool,
    pub dry_run: bool,
}

pub open spec fn batch_items(items: Seq<BatchItemResult>) -> Seq<BatchItemModel> {
    Seq::new(items.len(), |i: int| items[i]@)
}

impl View for BatchResult {
    type V = BatchModel;

    open spec fn view(&self) -> BatchModel {
        BatchModel {
            operations: batch_items(self.operations@),
            succeeded: self.succeeded as int,
            failed: self.failed as int,
            preflight: self.preflight,
            dry_run: self.dry_run,
        }
    }
}

/// Members of a definition's result beside those that are typed.
#[derive(Debug, PartialEq, Eq)]
pub struct DefinitionResultExtensions(pub Vec<Member>);

/// Typed result of assessing or applying one managed type pack. Members besides
/// the two typed ones are kept as they are.
#[derive(Debug, PartialEq, Eq)]
pub struct CanonicalTypePackValue {
    pub applicable: bool,
    pub assessment_digest: String,
    pub extensions: DefinitionResultExtensions,
}

pub struct TypePackModel {
    pub applicable: bool,
    pub assessment_digest: Seq<char>,
    pub extensions: Seq<(Seq<char>, JsonModel)>,
}

impl View for CanonicalTypePackValue {
    type V = TypePackModel;

    open spec fn view(&self) -> TypePackModel {
        TypePackModel {
            applicable: self.applicable,
            assessment_digest: self.assessment_digest@,
            extensions: member_models(self.extensions.0@),
        }
    }
}

/// The result of a setup that was applied.
#[derive(Debug, PartialEq, Eq)]
pub struct CanonicalCollectionSetupAppliedValue {
    pub assessment: Json,
    pub receipt: Json,
}

/// The result of a setup that was refused, with its whole assessment.
#[derive(Debug, PartialEq, Eq)]
pub struct CanonicalCollectionSetupConflictValue {
    pub assessment: Json,
    pub conflicts: Json,
}

/// Closed result family of collection setup.
#[derive(Debug, PartialEq, Eq)]
pub enum CanonicalCollectionSetupValue {
    Applied(CanonicalCollectionSetupAppliedValue),
    Conflict(CanonicalCollectionSetupConflictValue),
    Assessment(Json),
}

pub enum SetupModel {
    Applied { assessment: JsonModel, receipt: JsonModel },
    Conflict { assessment: JsonModel, conflicts: JsonModel },
    Assessment(JsonModel),
}

impl View for CanonicalCollectionSetupValue {
    type V = SetupModel;

    open spec fn view(&self) -> SetupModel {
        match self {
            CanonicalCollectionSetupValue::Applied(applied) => SetupModel::Applied {
                assessment: applied.assessment@,
                receipt: applied.receipt@,
            },
            CanonicalCollectionSetupValue::Conflict(conflict) => SetupModel::Conflict {
                assessment: conflict.assessment@,
                conflicts: conflict.conflicts@,
            },
            CanonicalCollectionSetupValue::Assessment(value) => SetupModel::Assessment(value@),
        }
    }
}

/// Result families that have no typed form of their own.
#[derive(Debug, PartialEq, Eq)]
pub enum WireOnlyOperationValue {
    Validation(Json),
    ViewResource(Json),
    TypeResource(Json),
}

pub enum WireOnlyModel {
    Validation(JsonModel),
    ViewResource(JsonModel),
    TypeResource(JsonModel),
}

impl View for WireOnlyOperationValue {
    type V = WireOnlyModel;

    open spec fn view(&self) -> WireOnlyModel {
        match self {
            WireOnlyOperationValue::Validation(value) => WireOnlyModel::Validation(value@),
            WireOnlyOperationValue::ViewResource(value) => WireOnlyModel::ViewResource(value@),
            WireOnlyOperationValue::TypeResource(value) => WireOnlyModel::TypeResource(value@),
        }
    }
}

/// The value of an operation. A missing value means that the operation failed
/// before it had one.
#[derive(Debug, PartialEq, Eq)]
pub enum CanonicalOperationValue {
    Read(Option<RecordDocument>),
    Query(Option<CanonicalQueryValue>),
    Create(Option<RecordDocument>),
    Update(Option<RecordDocument>),
    Delete(Option<CanonicalDeleteValue>),
    Rename(Option<CanonicalRenameValue>),
    Batch(Option<BatchResult>),
    TypePack(Option<CanonicalTypePackValue>),
    CollectionSetup(Option<CanonicalCollectionSetupValue>),
    WireOnly(WireOnlyOperationValue),
    /// The untyped result of an earlier journal, kept as it was.
    LegacyRecoveredV03(OperationResult),
}

pub enum ValueModel {
    Read(Option<RecordDocumentModel>),
    Query(Option<QueryValueModel>),
    Create(Option<RecordDocumentModel>),
    Update(Option<RecordDocumentModel>),
    Delete(Option<DeleteModel>),
    Rename(Option<RenameModel>),
    Batch(Option<BatchModel>),
    TypePack(Option<TypePackModel>),
    CollectionSetup(Option<SetupModel>),
    WireOnly(WireOnlyModel),
    LegacyRecoveredV03(OperationModel),
}

pub open spec fn viewed<T: View>(value: Option<T>) -> Option<T::V> {
    match value {
        Some(value) => Some(value@),
        None => None,
    }
}

impl View for CanonicalOperationValue {
    type V = ValueModel;

    open spec fn view(&self) -> ValueModel {
        match self {
            CanonicalOperationValue::Read(value) => ValueModel::Read(viewed(*value)),
            CanonicalOperationValue::Query(value) => ValueModel::Query(viewed(*value)),
            CanonicalOperationValue::Create(value) => ValueModel::Create(viewed(*value)),
            CanonicalOperationValue::Update(value) => ValueModel::Update(viewed(*value)),
            CanonicalOperationValue::Delete(value) => ValueModel::Delete(viewed(*value)),
            CanonicalOperationValue::Rename(value) => ValueModel::Rename(viewed(*value)),
            CanonicalOperationValue::Batch(value) => ValueModel::Batch(viewed(*value)),
            CanonicalOperationValue::TypePack(value) => ValueModel::TypePack(viewed(*value)),
            CanonicalOperationValue::CollectionSetup(value) => ValueModel::CollectionSetup(
                viewed(*value),
            ),
            CanonicalOperationValue::WireOnly(value) => ValueModel::WireOnly(value@),
            CanonicalOperationValue::LegacyRecoveredV03(value) => ValueModel::LegacyRecoveredV03(
                value@,
            ),
        }
    }
}

/// The typed outcome of an operation.
#[derive(Debug, PartialEq, Eq)]
pub struct CanonicalOperationOutcome {
    pub valid: bool,
    pub value: CanonicalOperationValue,
    pub diagnostics: Vec<TypedDiagnostic>,
}

pub struct OutcomeModel {
    pub valid: bool,
    pub value: ValueModel,
    pub diagnostics: Seq<TypedModel>,
}

impl View for CanonicalOperationOutcome {
    type V = OutcomeModel;

    open spec fn view(&self) -> OutcomeModel {
        OutcomeModel {
            valid: self.valid,
            value: self.value@,
            diagnostics: typed_models(self.diagnostics@),
        }
    }
}

impl ValueModel {
    /// The operation that gives such a value.
    pub open spec fn kind(self) -> Option<OperationKind> {
        match self {
            ValueModel::Read(_) => Some(OperationKind::Read),
            ValueModel::Query(_) => Some(OperationKind::Query),
            ValueModel::Create(_) => Some(OperationKind::Create),
            ValueModel::Update(_) => Some(OperationKind::Update),
            ValueModel::Delete(_) => Some(OperationKind::Delete),
            ValueModel::Rename(_) => Some(OperationKind::Rename),
            ValueModel::Batch(_) => Some(OperationKind::Batch),
            ValueModel::TypePack(_) => Some(OperationKind::AssessTypePack),
            ValueModel::CollectionSetup(_) => Some(OperationKind::AssessCollectionSetup),
            ValueModel::WireOnly(WireOnlyModel::Validation(_)) => Some(OperationKind::Validate),
            ValueModel::WireOnly(WireOnlyModel::ViewResource(_)) => Some(
                OperationKind::ExecuteView,
            ),
            ValueModel::WireOnly(WireOnlyModel::TypeResource(_)) => Some(OperationKind::ReadType),
            ValueModel::LegacyRecoveredV03(_) => None,
        }
    }
}

impl CanonicalOperationValue {
    pub fn kind(&self) -> (result: Option<OperationKind>)
        ensures
            result == self@.kind(),
    {
        match self {
            CanonicalOperationValue::Read(_) => Some(OperationKind::Read),
            CanonicalOperationValue::Query(_) => Some(OperationKind::Query),
            CanonicalOperationValue::Create(_) => Some(OperationKind::Create),
            CanonicalOperationValue::Update(_) => Some(OperationKind::Update),
            CanonicalOperationValue::Delete(_) => Some(OperationKind::Delete),
            CanonicalOperationValue::Rename(_) => Some(OperationKind::Rename),
            CanonicalOperationValue::Batch(_) => Some(OperationKind::Batch),
            CanonicalOperationValue::TypePack(_) => Some(OperationKind::AssessTypePack),
            CanonicalOperationValue::CollectionSetup(_) => Some(
                OperationKind::AssessCollectionSetup,
            ),
            CanonicalOperationValue::WireOnly(WireOnlyOperationValue::Validation(_)) => Some(
                OperationKind::Validate,
            ),
            CanonicalOperationValue::WireOnly(WireOnlyOperationValue::ViewResource(_)) => Some(
                OperationKind::ExecuteView,
            ),
            CanonicalOperationValue::WireOnly(WireOnlyOperationValue::TypeResource(_)) => Some(
                OperationKind::ReadType,
            ),
            CanonicalOperationValue::LegacyRecoveredV03(_) => None,
        }
    }
}

// ---------------------------------------------------------------------------
// Portable form of the values
// ---------------------------------------------------------------------------
pub open spec fn bool_json(value: bool) -> Option<JsonModel> {
    Some(JsonModel::Bool(value))
}

pub open spec fn count_json(value: int) -> Option<JsonModel> {
    Some(JsonModel::Number(NumberModel::Integer(value)))
}

pub open spec fn delete_json(value: DeleteModel) -> JsonModel {
    match value {
        DeleteModel::Deleted { path, deleted } => {
            let m = put(Seq::empty(), "path"@, Some(JsonModel::Text(path)));
            JsonModel::Object(put(m, "deleted"@, bool_json(deleted)))
        },
        DeleteModel::Preflight { path, would_delete, broken_links } => {
            let m = put(Seq::empty(), "path"@, Some(JsonModel::Text(path)));
            let m = put(m, "would_delete"@, bool_json(would_delete));
            JsonModel::Object(put(m, "broken_links"@, Some(JsonModel::Array(broken_links))))
        },
    }
}

pub open spec fn array_member(value: JsonModel, key: Seq<char>) -> Option<Seq<JsonModel>> {
    match member_of(value, key) {
        Some(JsonModel::Array(items)) => Some(items),
        _ => None,
    }
}

/// The delete value of a JSON value; a preflight says what would be deleted.
pub open spec fn delete_of(value: JsonModel) -> Option<DeleteModel> {
    if member_of(value, "would_delete"@) is Some {
        match (text_member(value, "path"@), bool_member(value, "would_delete"@), array_member(
            value,
            "broken_links"@,
        )) {
            (Some(path), Some(would_delete), Some(broken_links)) => Some(
                DeleteModel::Preflight { path, would_delete, broken_links },
            ),
            _ => None,
        }
    } else {
        match (text_member(value, "path"@), bool_member(value, "deleted"@)) {
            (Some(path), Some(deleted)) => Some(DeleteModel::Deleted { path, deleted }),
            _ => None,
        }
    }
}

/// A list as JSON; an empty one is left out.
pub open spec fn some_items(items: Seq<JsonModel>) -> Option<JsonModel> {
    if items.len() == 0 {
        None
    } else {
        Some(JsonModel::Array(items))
    }
}

pub open spec fn rename_json(value: RenameModel) -> JsonModel {
    match value {
        RenameModel::Renamed { from, to, document, references_updated, partial_updates } => {
            let m = put(record_members(document), "from"@, Some(JsonModel::Text(from)));
            let m = put(m, "to"@, Some(JsonModel::Text(to)));
            let m = put(m, "references_updated"@, some_items(references_updated));
            JsonModel::Object(put(m, "partial_updates"@, partial_updates))
        },
        RenameModel::Preflight {
            from,
            to,
            dry_run,
            would_rename,
            references_affected,
            partial_updates,
        } => {
            let m = put(Seq::empty(), "from"@, Some(JsonModel::Text(from)));
            let m = put(m, "to"@, Some(JsonModel::Text(to)));
            let m = put(m, "dry_run"@, bool_json(dry_run));
            let m = put(m, "would_rename"@, bool_json(would_rename));
            let m = put(m, "references_affected"@, some_items(references_affected));
            JsonModel::Object(put(m, "partial_updates"@, partial_updates))
        },
    }
}

/// The items of a member that may be missing.
pub open spec fn optional_array(value: JsonModel, key: Seq<char>) -> Option<Seq<JsonModel>> {
    match member_of(value, key) {
        Some(JsonModel::Array(items)) => Some(items),
        Some(_) => None,
        None => Some(Seq::empty()),
    }
}

/// The rename value of a JSON value; a preflight says what would be renamed.
pub open spec fn rename_of(value: JsonModel) -> Option<RenameModel> {
    if member_of(value, "would_rename"@) is Some {
        match (text_member(value, "from"@), text_member(value, "to"@), bool_member(
            value,
            "dry_run"@,
        ), bool_member(value, "would_rename"@), optional_array(value, "references_affected"@)) {
            (Some(from), Some(to), Some(dry_run), Some(would_rename), Some(references_affected)) =>
            Some(
                RenameModel::Preflight {
                    from,
                    to,
                    dry_run,
                    would_rename,
                    references_affected,
                    partial_updates: present_member(value, "partial_updates"@),
                },
            ),
            _ => None,
        }
    } else {
        match (text_member(value, "from"@), text_member(value, "to"@), record_of(
            value,
        ), optional_array(value, "references_updated"@)) {
            (Some(from), Some(to), Some(document), Some(references_updated)) => Some(
                RenameModel::Renamed {
                    from,
                    to,
                    document,
                    references_updated,
                    partial_updates: present_member(value, "partial_updates"@),
                },
            ),
            _ => None,
        }
    }
}

pub open spec fn batch_operation_json(value: BatchOperationModel) -> JsonModel {
    match value {
        BatchOperationModel::Record(record) => JsonModel::Object(record_members(record)),
        BatchOperationModel::Delete(value) => delete_json(value),
        BatchOperationModel::Rename(value) => rename_json(value),
        BatchOperationModel::Other(value) => value,
    }
}

/// The result that a JSON value stands for: a rename, a record, a deletion, or
/// none of these.
pub open spec fn batch_operation_of(value: JsonModel) -> BatchOperationModel {
    match (rename_of(value), record_of(value), delete_of(value)) {
        (Some(rename), _, _) => BatchOperationModel::Rename(rename),
        (None, Some(record), _) => BatchOperationModel::Record(record),
        (None, None, Some(delete)) => BatchOperationModel::Delete(delete),
        (None, None, None) => BatchOperationModel::Other(value),
    }
}

pub open spec fn batch_item_json(item: BatchItemModel) -> JsonModel {
    let m = put(Seq::empty(), "index"@, count_json(item.index));
    let m = put(m, "kind"@, Some(JsonModel::Text(item.kind)));
    let m = put(m, "valid"@, bool_json(item.valid));
    let m = put(m, "result"@, Some(batch_operation_json(item.result)));
    JsonModel::Object(
        put(m, "diagnostics"@, Some(diagnostics_json(all_portable(item.diagnostics)))),
    )
}

pub open spec fn batch_item_of(value: JsonModel) -> Option<BatchItemModel> {
    match (unsigned_model(member_of(value, "index"@)), text_member(value, "kind"@), bool_member(
        value,
        "valid"@,
    ), member_of(value, "result"@), embedded_of(value)) {
        (Some(index), Some(kind), Some(valid), Some(result), Some(diagnostics)) => Some(
            BatchItemModel {
                index,
                kind,
                valid,
                result: batch_operation_of(result),
                diagnostics,
            },
        ),
        _ => None,
    }
}

pub open spec fn batch_items_json(items: Seq<BatchItemModel>) -> JsonModel {
    JsonModel::Array(Seq::new(items.len(), |i: int| batch_item_json(items[i])))
}

pub open spec fn batch_items_of(items: Seq<JsonModel>) -> Option<Seq<BatchItemModel>> {
    if forall|i: int| 0 <= i < items.len() ==> batch_item_of(#[trigger] items[i]) is Some {
        Some(Seq::new(items.len(), |i: int| batch_item_of(items[i])->0))
    } else {
        None
    }
}

pub open spec fn batch_json(value: BatchModel) -> JsonModel {
    let m = put(Seq::empty(), "operations"@, Some(batch_items_json(value.operations)));
    let m = put(m, "succeeded"@, count_json(value.succeeded));
    let m = put(m, "failed"@, count_json(value.failed));
    let m = put(m, "preflight"@, bool_json(value.preflight));
    JsonModel::Object(put(m, "dry_run"@, bool_json(value.dry_run)))
}

pub open spec fn batch_operations_of(value: JsonModel) -> Option<Seq<BatchItemModel>> {
    match array_member(value, "operations"@) {
        Some(items) => batch_items_of(items),
        None => None,
    }
}

pub open spec fn batch_of(value: JsonModel) -> Option<BatchModel> {
    match (batch_operations_of(value), unsigned_model(
        member_of(value, "succeeded"@),
    ), unsigned_model(member_of(value, "failed"@)), bool_member(value, "preflight"@), bool_member(
        value,
        "dry_run"@,
    )) {
        (Some(operations), Some(succeeded), Some(failed), Some(preflight), Some(dry_run)) => Some(
            BatchModel { operations, succeeded, failed, preflight, dry_run },
        ),
        _ => None,
    }
}

pub open spec fn type_pack_json(value: TypePackModel) -> JsonModel {
    let m = put(value.extensions, "applicable"@, bool_json(value.applicable));
    JsonModel::Object(
        put(m, "assessment_digest"@, Some(JsonModel::Text(value.assessment_digest))),
    )
}

pub open spec fn type_pack_of(value: JsonModel) -> Option<TypePackModel> {
    match (value, bool_member(value, "applicable"@), text_member(value, "assessment_digest"@)) {
        (JsonModel::Object(members), Some(applicable), Some(assessment_digest)) => Some(
            TypePackModel {
                applicable,
                assessment_digest,
                extensions: without_member(
                    without_member(members, "assessment_digest"@),
                    "applicable"@,
                ),
            },
        ),
        _ => None,
    }
}

pub open spec fn setup_json(value: SetupModel) -> JsonModel {
    match value {
        SetupModel::Applied { assessment, receipt } => JsonModel::Object(
            put(put(Seq::empty(), "assessment"@, Some(assessment)), "receipt"@, Some(receipt)),
        ),
        SetupModel::Conflict { assessment, conflicts } => JsonModel::Object(
            put(put(Seq::empty(), "assessment"@, Some(assessment)), "conflicts"@, Some(conflicts)),
        ),
        SetupModel::Assessment(value) => value,
    }
}

/// The setup value of a JSON value: an assessment with a receipt, one with
/// conflicts, or the assessment itself.
pub open spec fn setup_of(value: JsonModel) -> Option<SetupModel> {
    match (member_of(value, "assessment"@), member_of(value, "receipt"@), member_of(
        value,
        "conflicts"@,
    )) {
        (Some(assessment), Some(receipt), _) => Some(SetupModel::Applied { assessment, receipt }),
        (Some(assessment), None, Some(conflicts)) => Some(
            SetupModel::Conflict { assessment, conflicts },
        ),
        _ => if value is Object {
            Some(SetupModel::Assessment(value))
        } else {
            None
        },
    }
}

/// The metadata of a query with its total and whether there is more.
pub open spec fn query_meta(value: QueryValueModel) -> Seq<(Seq<char>, JsonModel)> {
    let m = match value.meta {
        JsonModel::Object(members) => members,
        _ => Seq::empty(),
    };
    let m = match value.total_count {
        Some(count) => put(m, "total_count"@, count_json(count)),
        None => without_member(m, "total_count"@),
    };
    put(m, "has_more"@, bool_json(value.has_more))
}

pub open spec fn query_json(value: QueryValueModel) -> JsonModel {
    let m = put(Seq::empty(), "results"@, Some(JsonModel::Array(value.records)));
    let m = put(m, "meta"@, Some(JsonModel::Object(query_meta(value))));
    JsonModel::Object(
        put(
            m,
            "diagnostics"@,
            Some(diagnostics_json(all_portable(value.embedded_diagnostics))),
        ),
    )
}

pub open spec fn query_meta_of(value: JsonModel) -> JsonModel {
    match member_of(value, "meta"@) {
        Some(meta) => meta,
        None => JsonModel::Object(Seq::empty()),
    }
}

/// The total of a query: as counted, or the number of records unless the total
/// was deferred.
pub open spec fn total_of(meta: JsonModel, records: int) -> Option<int> {
    match unsigned_model(member_of(meta, "total_count"@)) {
        Some(count) => Some(count),
        None => if member_of(meta, "total_count_outcome"@) is None {
            Some(records)
        } else {
            None
        },
    }
}

pub open spec fn embedded_of(value: JsonModel) -> Option<Seq<TypedModel>> {
    match member_of(value, "diagnostics"@) {
        Some(list) => match diagnostics_of(list) {
            Some(list) => Some(all_typed(list)),
            None => None,
        },
        None => Some(Seq::empty()),
    }
}

pub open spec fn query_of(value: JsonModel) -> Option<QueryValueModel> {
    match (array_member(value, "results"@), embedded_of(value)) {
        (Some(records), Some(embedded_diagnostics)) => Some(
            QueryValueModel {
                records,
                total_count: total_of(query_meta_of(value), records.len() as int),
                has_more: bool_member(query_meta_of(value), "has_more"@) == Some(true),
                meta: query_meta_of(value),
                embedded_diagnostics,
            },
        ),
        _ => None,
    }
}

pub open spec fn is_empty_object(value: JsonModel) -> bool {
    value == JsonModel::Object(Seq::empty())
}

pub open spec fn wire_only_value(value: WireOnlyModel) -> JsonModel {
    match value {
        WireOnlyModel::Validation(value) => value,
        WireOnlyModel::ViewResource(value) => value,
        WireOnlyModel::TypeResource(value) => value,
    }
}

/// The portable form of a value; an empty object stands for none.
pub open spec fn value_json(value: ValueModel) -> JsonModel {
    let none = JsonModel::Object(Seq::empty());
    match value {
        ValueModel::Read(Some(record)) => JsonModel::Object(record_members(record)),
        ValueModel::Create(Some(record)) => JsonModel::Object(record_members(record)),
        ValueModel::Update(Some(record)) => JsonModel::Object(record_members(record)),
        ValueModel::Query(Some(query)) => query_json(query),
        ValueModel::Delete(Some(value)) => delete_json(value),
        ValueModel::Rename(Some(value)) => rename_json(value),
        ValueModel::Batch(Some(value)) => batch_json(value),
        ValueModel::TypePack(Some(value)) => type_pack_json(value),
        ValueModel::CollectionSetup(Some(value)) => setup_json(value),
        ValueModel::WireOnly(value) => wire_only_value(value),
        ValueModel::LegacyRecoveredV03(result) => result.result,
        _ => none,
    }
}

/// The portable envelope of an outcome.
pub open spec fn wire_of(outcome: OutcomeModel) -> OperationModel {
    match outcome.value {
        ValueModel::LegacyRecoveredV03(result) => result,
        value => OperationModel {
            valid: outcome.valid,
            result: value_json(value),
            diagnostics: all_portable(outcome.diagnostics),
        },
    }
}

impl OperationKind {
    /// Operations on validation, views, and type definitions.
    pub open spec fn wire_only(self) -> bool {
        match self {
            OperationKind::Validate
            | OperationKind::ListViews
            | OperationKind::ExecuteView
            | OperationKind::ReadViewSource
            | OperationKind::CreateViewSource
            | OperationKind::UpdateViewSource
            | OperationKind::DeleteViewSource
            | OperationKind::ListTypes
            | OperationKind::ReadType
            | OperationKind::CreateType
            | OperationKind::UpdateType => true,
            _ => false,
        }
    }

    /// Operations on type packs and collection setup.
    pub open spec fn defines(self) -> bool {
        match self {
            OperationKind::AssessTypePack
            | OperationKind::ApplyTypePack
            | OperationKind::AssessCollectionSetup
            | OperationKind::ApplyCollectionSetup => true,
            _ => false,
        }
    }
}

pub open spec fn wire_only_of(kind: OperationKind, value: JsonModel) -> WireOnlyModel {
    match kind {
        OperationKind::Validate => WireOnlyModel::Validation(value),
        OperationKind::ListTypes
        | OperationKind::ReadType
        | OperationKind::CreateType
        | OperationKind::UpdateType => WireOnlyModel::TypeResource(value),
        _ => WireOnlyModel::ViewResource(value),
    }
}

/// The value that the result of an operation stands for, by the operation alone.
pub open spec fn recovered(kind: OperationKind, result: JsonModel) -> Option<ValueModel> {
    let empty = is_empty_object(result);
    match kind {
        OperationKind::Read => if empty {
            Some(ValueModel::Read(None))
        } else {
            match record_of(result) {
                Some(value) => Some(ValueModel::Read(Some(value))),
                None => None,
            }
        },
        OperationKind::Create => if empty {
            Some(ValueModel::Create(None))
        } else {
            match record_of(result) {
                Some(value) => Some(ValueModel::Create(Some(value))),
                None => None,
            }
        },
        OperationKind::Update => if empty {
            Some(ValueModel::Update(None))
        } else {
            match record_of(result) {
                Some(value) => Some(ValueModel::Update(Some(value))),
                None => None,
            }
        },
        OperationKind::Query => if empty {
            Some(ValueModel::Query(None))
        } else {
            match query_of(result) {
                Some(value) => Some(ValueModel::Query(Some(value))),
                None => None,
            }
        },
        OperationKind::Delete => if empty {
            Some(ValueModel::Delete(None))
        } else {
            match delete_of(result) {
                Some(value) => Some(ValueModel::Delete(Some(value))),
                None => None,
            }
        },
        OperationKind::Rename => if empty {
            Some(ValueModel::Rename(None))
        } else {
            match rename_of(result) {
                Some(value) => Some(ValueModel::Rename(Some(value))),
                None => None,
            }
        },
        OperationKind::Batch => if empty {
            Some(ValueModel::Batch(None))
        } else {
            match batch_of(result) {
                Some(value) => Some(ValueModel::Batch(Some(value))),
                None => None,
            }
        },
        OperationKind::AssessTypePack | OperationKind::ApplyTypePack => if empty {
            Some(ValueModel::TypePack(None))
        } else {
            match type_pack_of(result) {
                Some(value) => Some(ValueModel::TypePack(Some(value))),
                None => None,
            }
        },
        OperationKind::AssessCollectionSetup | OperationKind::ApplyCollectionSetup => if empty {
            Some(ValueModel::CollectionSetup(None))
        } else {
            match setup_of(result) {
                Some(value) => Some(ValueModel::CollectionSetup(Some(value))),
                None => None,
            }
        },
        _ => Some(ValueModel::WireOnly(wire_only_of(kind, result))),
    }
}

/// The message for a result that is not what its operation gives.
pub open spec fn shape_message(kind: OperationKind, result: JsonModel) -> Seq<char> {
    if kind == OperationKind::Query && array_member(result, "results"@) is None {
        "query results must contain an array"@
    } else {
        "operation value has another shape"@
    }
}

// ---------------------------------------------------------------------------
// Conversions
// ---------------------------------------------------------------------------
fn array_member_of(value: &Json, key: &str) -> (result: Option<Vec<Json>>)
    ensures
        match result {
            Some(items) => array_member(value@, key@) == Some(item_models(items@)),
            None => array_member(value@, key@) is None,
        },
{
    match value.get(key) {
        Some(member) => match member.as_array() {
            Some(items) => Some(copy_items(items)),
            None => None,
        },
        None => None,
    }
}

fn count_member(value: &Json, key: &str) -> (result: Option<u64>)
    ensures
        match result {
            Some(count) => unsigned_model(member_of(value@, key@)) == Some(count as int),
            None => unsigned_model(member_of(value@, key@)) is None,
        },
{
    match value.get(key) {
        Some(member) => member.as_u64(),
        None => None,
    }
}

fn items_json(items: &Vec<Json>) -> (result: Json)
    ensures
        result@ == JsonModel::Array(item_models(items@)),
{
    broadcast use lemma_array_model;

    Json::Array(copy_items(items))
}

fn some_items_json(items: &Vec<Json>) -> (result: Option<Json>)
    ensures
        optional_json(result) == some_items(item_models(items@)),
{
    if items.len() == 0 {
        None
    } else {
        Some(items_json(items))
    }
}

fn optional_array_of(value: &Json, key: &str) -> (result: Option<Vec<Json>>)
    ensures
        match result {
            Some(items) => optional_array(value@, key@) == Some(item_models(items@)),
            None => optional_array(value@, key@) is None,
        },
{
    match value.get(key) {
        Some(member) => match member.as_array() {
            Some(items) => Some(copy_items(items)),
            None => None,
        },
        None => {
            let none: Vec<Json> = Vec::new();
            proof {
                assert(item_models(none@) =~= Seq::empty());
            }
            Some(none)
        },
    }
}

/// Reads the diagnostics of a value; missing ones are none.
fn embedded_diagnostics_of(value: &Json) -> (result: Option<Vec<TypedDiagnostic>>)
    ensures
        match result {
            Some(list) => embedded_of(value@) == Some(typed_models(list@)),
            None => embedded_of(value@) is None,
        },
{
    match value.get("diagnostics") {
        Some(list) => match diagnostics_from_json(list) {
            Some(list) => Some(type_diagnostics(&list)),
            None => None,
        },
        None => {
            let none: Vec<TypedDiagnostic> = Vec::new();
            proof {
                assert(typed_models(none@) =~= Seq::empty());
            }
            Some(none)
        },
    }
}

impl CanonicalDeleteValue {
    pub fn to_json(&self) -> (result: Json)
        ensures
            result@ == delete_json(self@),
    {
        broadcast use lemma_object_model;

        let mut members = no_members();
        match self {
            CanonicalDeleteValue::Deleted(value) => {
                put_entry(&mut members, "path", Some(Json::text(value.path.as_str())));
                put_entry(&mut members, "deleted", Some(Json::Bool(value.deleted)));
            },
            CanonicalDeleteValue::Preflight(value) => {
                put_entry(&mut members, "path", Some(Json::text(value.path.as_str())));
                put_entry(&mut members, "would_delete", Some(Json::Bool(value.would_delete)));
                put_entry(&mut members, "broken_links", Some(items_json(&value.broken_links)));
            },
        }
        Json::Object(members)
    }

    pub fn from_json(value: &Json) -> (result: Option<CanonicalDeleteValue>)
        ensures
            viewed(result) == delete_of(value@),
    {
        if value.get("would_delete").is_some() {
            match (
                required_text(value, "path"),
                value.get_bool("would_delete"),
                array_member_of(value, "broken_links"),
            ) {
                (Some(path), Some(would_delete), Some(broken_links)) => Some(
                    CanonicalDeleteValue::Preflight(
                        DeletePreflightResult { path, would_delete, broken_links },
                    ),
                ),
                _ => None,
            }
        } else {
            match (required_text(value, "path"), value.get_bool("deleted")) {
                (Some(path), Some(deleted)) => Some(
                    CanonicalDeleteValue::Deleted(DeleteResult { path, deleted }),
                ),
                _ => None,
            }
        }
    }

    pub fn copy(&self) -> (result: CanonicalDeleteValue)
        ensures
            result@ == self@,
    {
        match self {
            CanonicalDeleteValue::Deleted(value) => CanonicalDeleteValue::Deleted(
                DeleteResult { path: value.path.clone(), deleted: value.deleted },
            ),
            CanonicalDeleteValue::Preflight(value) => CanonicalDeleteValue::Preflight(
                DeletePreflightResult {
                    path: value.path.clone(),
                    would_delete: value.would_delete,
                    broken_links: copy_items(&value.broken_links),
                },
            ),
        }
    }
}

impl CanonicalRenameValue {
    pub fn to_json(&self) -> (result: Json)
        ensures
            result@ == rename_json(self@),
    {
        broadcast use lemma_object_model;

        match self {
            CanonicalRenameValue::Renamed(value) => {
                let mut members = value.document.members();
                put_entry(&mut members, "from", Some(Json::text(value.from.as_str())));
                put_entry(&mut members, "to", Some(Json::text(value.to.as_str())));
                put_entry(
                    &mut members,
                    "references_updated",
                    some_items_json(&value.references_updated),
                );
                put_entry(
                    &mut members,
                    "partial_updates",
                    crate::diagnostics::copy_optional_json(&value.partial_updates),
                );
                Json::Object(members)
            },
            CanonicalRenameValue::Preflight(value) => {
                let mut members = no_members();
                put_entry(&mut members, "from", Some(Json::text(value.from.as_str())));
                put_entry(&mut members, "to", Some(Json::text(value.to.as_str())));
                put_entry(&mut members, "dry_run", Some(Json::Bool(value.dry_run)));
                put_entry(&mut members, "would_rename", Some(Json::Bool(value.would_rename)));
                put_entry(
                    &mut members,
                    "references_affected",
                    some_items_json(&value.references_affected),
                );
                put_entry(
                    &mut members,
                    "partial_updates",
                    crate::diagnostics::copy_optional_json(&value.partial_updates),
                );
                Json::Object(members)
            },
        }
    }

    pub fn from_json(value: &Json) -> (result: Option<CanonicalRenameValue>)
        ensures
            viewed(result) == rename_of(value@),
    {
        if value.get("would_rename").is_some() {
            let references = optional_array_of(value, "references_affected");
            match (
                required_text(value, "from"),
                required_text(value, "to"),
                value.get_bool("dry_run"),
                value.get_bool("would_rename"),
                references,
            ) {
                (
                    Some(from),
                    Some(to),
                    Some(dry_run),
                    Some(would_rename),
                    Some(references_affected),
                ) => Some(
                    CanonicalRenameValue::Preflight(
                        CanonicalRenamePreflightValue {
                            from,
                            to,
                            dry_run,
                            would_rename,
                            references_affected,
                            partial_updates: present_member_of(value, "partial_updates"),
                        },
                    ),
                ),
                _ => None,
            }
        } else {
            match (
                required_text(value, "from"),
                required_text(value, "to"),
                RecordDocument::from_json(value),
                optional_array_of(value, "references_updated"),
            ) {
                (Some(from), Some(to), Some(document), Some(references_updated)) => Some(
                    CanonicalRenameValue::Renamed(
                        RenameResult {
                            from,
                            to,
                            document,
                            references_updated,
                            partial_updates: present_member_of(value, "partial_updates"),
                        },
                    ),
                ),
                _ => None,
            }
        }
    }

    pub fn copy(&self) -> (result: CanonicalRenameValue)
        ensures
            result@ == self@,
    {
        match self {
            CanonicalRenameValue::Renamed(value) => CanonicalRenameValue::Renamed(
                RenameResult {
                    from: value.from.clone(),
                    to: value.to.clone(),
                    document: value.document.copy(),
                    references_updated: copy_items(&value.references_updated),
                    partial_updates: crate::diagnostics::copy_optional_json(
                        &value.partial_updates,
                    ),
                },
            ),
            CanonicalRenameValue::Preflight(value) => CanonicalRenameValue::Preflight(
                CanonicalRenamePreflightValue {
                    from: value.from.clone(),
                    to: value.to.clone(),
                    dry_run: value.dry_run,
                    would_rename: value.would_rename,
                    references_affected: copy_items(&value.references_affected),
                    partial_updates: crate::diagnostics::copy_optional_json(
                        &value.partial_updates,
                    ),
                },
            ),
        }
    }
}

impl BatchOperationResult {
    pub fn to_json(&self) -> (result: Json)
        ensures
            result@ == batch_operation_json(self@),
    {
        match self {
            BatchOperationResult::Record(record) => record.to_json(),
            BatchOperationResult::Delete(value) => value.to_json(),
            BatchOperationResult::Rename(value) => value.to_json(),
            BatchOperationResult::Other(value) => value.copy(),
        }
    }

    pub fn from_json(value: &Json) -> (result: BatchOperationResult)
        ensures
            result@ == batch_operation_of(value@),
    {
        if let Some(rename) = CanonicalRenameValue::from_json(value) {
            return BatchOperationResult::Rename(rename);
        }
        if let Some(record) = RecordDocument::from_json(value) {
            return BatchOperationResult::Record(record);
        }
        match CanonicalDeleteValue::from_json(value) {
            Some(delete) => BatchOperationResult::Delete(delete),
            None => BatchOperationResult::Other(value.copy()),
        }
    }

    pub fn copy(&self) -> (result: BatchOperationResult)
        ensures
            result@ == self@,
    {
        match self {
            BatchOperationResult::Record(record) => BatchOperationResult::Record(record.copy()),
            BatchOperationResult::Delete(value) => BatchOperationResult::Delete(value.copy()),
            BatchOperationResult::Rename(value) => BatchOperationResult::Rename(value.copy()),
            BatchOperationResult::Other(value) => BatchOperationResult::Other(value.copy()),
        }
    }
}

impl BatchItemResult {
    pub fn to_json(&self) -> (result: Json)
        ensures
            result@ == batch_item_json(self@),
    {
        broadcast use lemma_object_model;

        let mut members = no_members();
        put_entry(&mut members, "index", Some(Json::unsigned(self.index)));
        put_entry(&mut members, "kind", Some(Json::text(self.kind.as_str())));
        put_entry(&mut members, "valid", Some(Json::Bool(self.valid)));
        put_entry(&mut members, "result", Some(self.result.to_json()));
        put_entry(
            &mut members,
            "diagnostics",
            Some(diagnostics_to_json(&wire_diagnostics(&self.diagnostics))),
        );
        Json::Object(members)
    }

    pub fn from_json(value: &Json) -> (result: Option<BatchItemResult>)
        ensures
            viewed(result) == batch_item_of(value@),
    {
        match (
            count_member(value, "index"),
            required_text(value, "kind"),
            value.get_bool("valid"),
            value.get("result"),
            embedded_diagnostics_of(value),
        ) {
            (Some(index), Some(kind), Some(valid), Some(result), Some(diagnostics)) => Some(
                BatchItemResult {
                    index,
                    kind,
                    valid,
                    result: BatchOperationResult::from_json(result),
                    diagnostics,
                },
            ),
            _ => None,
        }
    }

    pub fn copy(&self) -> (result: BatchItemResult)
        ensures
            result@ == self@,
    {
        BatchItemResult {
            index: self.index,
            kind: self.kind.clone(),
            valid: self.valid,
            result: self.result.copy(),
            diagnostics: copy_typed(&self.diagnostics),
        }
    }
}

impl BatchResult {
    pub fn to_json(&self) -> (result: Json)
        ensures
            result@ == batch_json(self@),
    {
        broadcast use lemma_object_model;

        let mut items: Vec<Json> = Vec::new();
        let mut i: usize = 0;
        while i < self.operations.len()
            invariant
                i <= self.operations@.len(),
                items@.len() == i,
                forall|k: int|
                    0 <= k < i ==> (#[trigger] items@[k])@ == batch_item_json(
                        self.operations@[k]@,
                    ),
            decreases self.operations@.len() - i,
        {
            items.push(self.operations[i].to_json());
            i = i + 1;
        }
        proof {
            lemma_array_model(items);
            let models = batch_items(self.operations@);
            assert(item_models(items@) =~= Seq::new(
                models.len(),
                |i: int| batch_item_json(models[i]),
            ));
        }
        let mut members = no_members();
        put_entry(&mut members, "operations", Some(Json::Array(items)));
        put_entry(&mut members, "succeeded", Some(Json::unsigned(self.succeeded)));
        put_entry(&mut members, "failed", Some(Json::unsigned(self.failed)));
        put_entry(&mut members, "preflight", Some(Json::Bool(self.preflight)));
        put_entry(&mut members, "dry_run", Some(Json::Bool(self.dry_run)));
        Json::Object(members)
    }

    fn operations_from(items: &Vec<Json>) -> (result: Option<Vec<BatchItemResult>>)
        ensures
            match result {
                Some(list) => batch_items_of(item_models(items@)) == Some(batch_items(list@)),
                None => batch_items_of(item_models(items@)) is None,
            },
    {
        let mut list: Vec<BatchItemResult> = Vec::new();
        let mut i: usize = 0;
        while i < items.len()
            invariant
                i <= items@.len(),
                list@.len() == i,
                forall|k: int|
                    0 <= k < i ==> batch_item_of(#[trigger] item_models(items@)[k]) == Some(
                        list@[k]@,
                    ),
            decreases items@.len() - i,
        {
            proof {
                assert(item_models(items@)[i as int] == items@[i as int]@);
            }
            match BatchItemResult::from_json(&items[i]) {
                Some(item) => list.push(item),
                None => {
                    return None;
                },
            }
            i = i + 1;
        }
        proof {
            assert(batch_items_of(item_models(items@))->0 =~= batch_items(list@));
        }
        Some(list)
    }

    pub fn from_json(value: &Json) -> (result: Option<BatchResult>)
        ensures
            viewed(result) == batch_of(value@),
    {
        let operations = match value.get("operations") {
            Some(member) => match member.as_array() {
                Some(items) => Self::operations_from(items),
                None => None,
            },
            None => None,
        };
        match (
            operations,
            count_member(value, "succeeded"),
            count_member(value, "failed"),
            value.get_bool("preflight"),
            value.get_bool("dry_run"),
        ) {
            (Some(operations), Some(succeeded), Some(failed), Some(preflight), Some(dry_run)) =>
            Some(BatchResult { operations, succeeded, failed, preflight, dry_run }),
            _ => None,
        }
    }

    pub fn copy(&self) -> (result: BatchResult)
        ensures
            result@ == self@,
    {
        let mut operations: Vec<BatchItemResult> = Vec::new();
        let mut i: usize = 0;
        while i < self.operations.len()
            invariant
                i <= self.operations@.len(),
                operations@.len() == i,
                forall|k: int|
                    0 <= k < i ==> (#[trigger] operations@[k])@ == self.operations@[k]@,
            decreases self.operations@.len() - i,
        {
            operations.push(self.operations[i].copy());
            i = i + 1;
        }
        proof {
            assert(batch_items(operations@) =~= batch_items(self.operations@));
        }
        BatchResult {
            operations,
            succeeded: self.succeeded,
            failed: self.failed,
            preflight: self.preflight,
            dry_run: self.dry_run,
        }
    }
}

impl CanonicalTypePackValue {
    pub fn to_json(&self) -> (result: Json)
        ensures
            result@ == type_pack_json(self@),
    {
        broadcast use lemma_object_model;

        let mut members = copy_members(&self.extensions.0);
        put_entry(&mut members, "applicable", Some(Json::Bool(self.applicable)));
        put_entry(
            &mut members,
            "assessment_digest",
            Some(Json::text(self.assessment_digest.as_str())),
        );
        Json::Object(members)
    }

    pub fn from_json(value: &Json) -> (result: Option<CanonicalTypePackValue>)
        ensures
            viewed(result) == type_pack_of(value@),
    {
        match (
            value.as_object(),
            value.get_bool("applicable"),
            required_text(value, "assessment_digest"),
        ) {
            (Some(members), Some(applicable), Some(assessment_digest)) => {
                let rest = drop_member(members, "assessment_digest");
                Some(
                    CanonicalTypePackValue {
                        applicable,
                        assessment_digest,
                        extensions: DefinitionResultExtensions(drop_member(&rest, "applicable")),
                    },
                )
            },
            _ => None,
        }
    }

    pub fn copy(&self) -> (result: CanonicalTypePackValue)
        ensures
            result@ == self@,
    {
        CanonicalTypePackValue {
            applicable: self.applicable,
            assessment_digest: self.assessment_digest.clone(),
            extensions: DefinitionResultExtensions(copy_members(&self.extensions.0)),
        }
    }
}

impl CanonicalCollectionSetupValue {
    pub fn to_json(&self) -> (result: Json)
        ensures
            result@ == setup_json(self@),
    {
        broadcast use lemma_object_model;

        match self {
            CanonicalCollectionSetupValue::Applied(applied) => {
                let mut members = no_members();
                put_entry(&mut members, "assessment", Some(applied.assessment.copy()));
                put_entry(&mut members, "receipt", Some(applied.receipt.copy()));
                Json::Object(members)
            },
            CanonicalCollectionSetupValue::Conflict(conflict) => {
                let mut members = no_members();
                put_entry(&mut members, "assessment", Some(conflict.assessment.copy()));
                put_entry(&mut members, "conflicts", Some(conflict.conflicts.copy()));
                Json::Object(members)
            },
            CanonicalCollectionSetupValue::Assessment(value) => value.copy(),
        }
    }

    pub fn from_json(value: &Json) -> (result: Option<CanonicalCollectionSetupValue>)
        ensures
            viewed(result) == setup_of(value@),
    {
        match (value.get("assessment"), value.get("receipt"), value.get("conflicts")) {
            (Some(assessment), Some(receipt), _) => Some(
                CanonicalCollectionSetupValue::Applied(
                    CanonicalCollectionSetupAppliedValue {
                        assessment: assessment.copy(),
                        receipt: receipt.copy(),
                    },
                ),
            ),
            (Some(assessment), None, Some(conflicts)) => Some(
                CanonicalCollectionSetupValue::Conflict(
                    CanonicalCollectionSetupConflictValue {
                        assessment: assessment.copy(),
                        conflicts: conflicts.copy(),
                    },
                ),
            ),
            _ => if value.is_object() {
                Some(CanonicalCollectionSetupValue::Assessment(value.copy()))
            } else {
                None
            },
        }
    }

    pub fn copy(&self) -> (result: CanonicalCollectionSetupValue)
        ensures
            result@ == self@,
    {
        match self {
            CanonicalCollectionSetupValue::Applied(applied) =>
            CanonicalCollectionSetupValue::Applied(
                CanonicalCollectionSetupAppliedValue {
                    assessment: applied.assessment.copy(),
                    receipt: applied.receipt.copy(),
                },
            ),
            CanonicalCollectionSetupValue::Conflict(conflict) =>
            CanonicalCollectionSetupValue::Conflict(
                CanonicalCollectionSetupConflictValue {
                    assessment: conflict.assessment.copy(),
                    conflicts: conflict.conflicts.copy(),
                },
            ),
            CanonicalCollectionSetupValue::Assessment(value) =>
            CanonicalCollectionSetupValue::Assessment(value.copy()),
        }
    }
}

impl CanonicalQueryValue {
    fn meta_members(&self) -> (result: Vec<Member>)
        ensures
            member_models(result@) == query_meta(self@),
    {
        let mut members = match self.meta.as_object() {
            Some(members) => copy_members(members),
            None => no_members(),
        };
        match self.total_count {
            Some(count) => put_entry(&mut members, "total_count", Some(Json::unsigned(count))),
            None => {
                members = drop_member(&members, "total_count");
            },
        }
        put_entry(&mut members, "has_more", Some(Json::Bool(self.has_more)));
        members
    }

    pub fn to_json(&self) -> (result: Json)
        ensures
            result@ == query_json(self@),
    {
        broadcast use lemma_object_model;

        let mut members = no_members();
        put_entry(&mut members, "results", Some(items_json(&self.records)));
        put_entry(&mut members, "meta", Some(Json::Object(self.meta_members())));
        put_entry(
            &mut members,
            "diagnostics",
            Some(diagnostics_to_json(&wire_diagnostics(&self.embedded_diagnostics))),
        );
        Json::Object(members)
    }

    pub fn from_json(value: &Json) -> (result: Option<CanonicalQueryValue>)
        ensures
            viewed(result) == query_of(value@),
    {
        let embedded = embedded_diagnostics_of(value);
        let meta = match value.get("meta") {
            Some(meta) => meta.copy(),
            None => Json::empty_object(),
        };
        match (array_member_of(value, "results"), embedded) {
            (Some(records), Some(embedded_diagnostics)) => {
                let total_count = match count_member(&meta, "total_count") {
                    Some(count) => Some(count),
                    None => if meta.get("total_count_outcome").is_none() {
                        Some(records.len() as u64)
                    } else {
                        None
                    },
                };
                let has_more = match meta.get_bool("has_more") {
                    Some(more) => more,
                    None => false,
                };
                Some(
                    CanonicalQueryValue {
                        records,
                        total_count,
                        has_more,
                        meta,
                        embedded_diagnostics,
                    },
                )
            },
            _ => None,
        }
    }

    pub fn copy(&self) -> (result: CanonicalQueryValue)
        ensures
            result@ == self@,
    {
        CanonicalQueryValue {
            records: copy_items(&self.records),
            total_count: self.total_count,
            has_more: self.has_more,
            meta: self.meta.copy(),
            embedded_diagnostics: copy_typed(&self.embedded_diagnostics),
        }
    }
}

fn recovered_wire_only(kind: OperationKind, value: Json) -> (result: WireOnlyOperationValue)
    ensures
        result@ == wire_only_of(kind, value@),
{
    match kind {
        OperationKind::Validate => WireOnlyOperationValue::Validation(value),
        OperationKind::ListTypes
        | OperationKind::ReadType
        | OperationKind::CreateType
        | OperationKind::UpdateType => WireOnlyOperationValue::TypeResource(value),
        _ => WireOnlyOperationValue::ViewResource(value),
    }
}

fn is_empty(value: &Json) -> (result: bool)
    ensures
        result == is_empty_object(value@),
{
    match value.as_object() {
        Some(members) => {
            proof {
                if members@.len() == 0 {
                    assert(member_models(members@) =~= Seq::empty());
                } else {
                    assert(member_models(members@).len() > 0);
                }
            }
            members.len() == 0
        },
        None => false,
    }
}

fn recover_value(kind: OperationKind, result: &Json) -> (value: Option<CanonicalOperationValue>)
    ensures
        viewed(value) == recovered(kind, result@),
{
    let empty = is_empty(result);
    match kind {
        OperationKind::Read => if empty {
            Some(CanonicalOperationValue::Read(None))
        } else {
            match RecordDocument::from_json(result) {
                Some(value) => Some(CanonicalOperationValue::Read(Some(value))),
                None => None,
            }
        },
        OperationKind::Create => if empty {
            Some(CanonicalOperationValue::Create(None))
        } else {
            match RecordDocument::from_json(result) {
                Some(value) => Some(CanonicalOperationValue::Create(Some(value))),
                None => None,
            }
        },
        OperationKind::Update => if empty {
            Some(CanonicalOperationValue::Update(None))
        } else {
            match RecordDocument::from_json(result) {
                Some(value) => Some(CanonicalOperationValue::Update(Some(value))),
                None => None,
            }
        },
        OperationKind::Query => if empty {
            Some(CanonicalOperationValue::Query(None))
        } else {
            match CanonicalQueryValue::from_json(result) {
                Some(value) => Some(CanonicalOperationValue::Query(Some(value))),
                None => None,
            }
        },
        OperationKind::Delete => if empty {
            Some(CanonicalOperationValue::Delete(None))
        } else {
            match CanonicalDeleteValue::from_json(result) {
                Some(value) => Some(CanonicalOperationValue::Delete(Some(value))),
                None => None,
            }
        },
        OperationKind::Rename => if empty {
            Some(CanonicalOperationValue::Rename(None))
        } else {
            match CanonicalRenameValue::from_json(result) {
                Some(value) => Some(CanonicalOperationValue::Rename(Some(value))),
                None => None,
            }
        },
        OperationKind::Batch => if empty {
            Some(CanonicalOperationValue::Batch(None))
        } else {
            match BatchResult::from_json(result) {
                Some(value) => Some(CanonicalOperationValue::Batch(Some(value))),
                None => None,
            }
        },
        OperationKind::AssessTypePack | OperationKind::ApplyTypePack => if empty {
            Some(CanonicalOperationValue::TypePack(None))
        } else {
            match CanonicalTypePackValue::from_json(result) {
                Some(value) => Some(CanonicalOperationValue::TypePack(Some(value))),
                None => None,
            }
        },
        OperationKind::AssessCollectionSetup | OperationKind::ApplyCollectionSetup => if empty {
            Some(CanonicalOperationValue::CollectionSetup(None))
        } else {
            match CanonicalCollectionSetupValue::from_json(result) {
                Some(value) => Some(CanonicalOperationValue::CollectionSetup(Some(value))),
                None => None,
            }
        },
        _ => Some(CanonicalOperationValue::WireOnly(recovered_wire_only(kind, result.copy()))),
    }
}

// ---------------------------------------------------------------------------
// Outcomes
// ---------------------------------------------------------------------------
/// The value of a failed operation.
pub open spec fn missing_value(kind: OperationKind) -> ValueModel {
    match kind {
        OperationKind::Read => ValueModel::Read(None),
        OperationKind::Query => ValueModel::Query(None),
        OperationKind::Create => ValueModel::Create(None),
        OperationKind::Update => ValueModel::Update(None),
        OperationKind::Delete => ValueModel::Delete(None),
        OperationKind::Rename => ValueModel::Rename(None),
        _ => ValueModel::Batch(None),
    }
}

impl OperationKind {
    /// Operations on records, whose values are typed throughout.
    pub open spec fn concerns_records(self) -> bool {
        match self {
            OperationKind::Read
            | OperationKind::Query
            | OperationKind::Create
            | OperationKind::Update
            | OperationKind::Delete
            | OperationKind::Rename
            | OperationKind::Batch => true,
            _ => false,
        }
    }
}

/// The value of a record mutation, where the result fits the operation.
pub open spec fn mutation_value(
    kind: OperationKind,
    result: BatchOperationModel,
) -> Option<ValueModel> {
    match (kind, result) {
        (OperationKind::Create, BatchOperationModel::Record(record)) => Some(
            ValueModel::Create(Some(record)),
        ),
        (OperationKind::Update, BatchOperationModel::Record(record)) => Some(
            ValueModel::Update(Some(record)),
        ),
        (OperationKind::Delete, BatchOperationModel::Delete(value)) => Some(
            ValueModel::Delete(Some(value)),
        ),
        (OperationKind::Rename, BatchOperationModel::Rename(value)) => Some(
            ValueModel::Rename(Some(value)),
        ),
        _ => None,
    }
}

/// Whether any diagnostic is an error.
pub open spec fn has_error(list: Seq<TypedModel>) -> bool {
    exists|i: int| 0 <= i < list.len() && (#[trigger] list[i]).severity == Severity::Error
}

/// The file of a record as it was committed.
#[derive(Debug, PartialEq, Eq)]
pub struct CommittedFileFacts {
    pub path: String,
    pub size: u64,
    pub mtime: String,
}

/// The position of the facts of a path; the number of facts without any.
pub open spec fn facts_at(facts: Seq<CommittedFileFacts>, path: Seq<char>) -> int
    decreases facts.len(),
{
    if facts.len() == 0 || facts[0].path@ == path {
        0
    } else {
        1 + facts_at(facts.drop_first(), path)
    }
}

/// A record with the facts of its committed file, where there are any.
pub open spec fn with_facts(
    record: RecordDocumentModel,
    facts: Seq<CommittedFileFacts>,
) -> RecordDocumentModel {
    let at = facts_at(facts, record.path);
    if 0 <= at < facts.len() {
        RecordDocumentModel {
            file: crate::operation_values::RecordFileModel {
                size: facts[at].size as int,
                mtime: facts[at].mtime@,
                ..record.file
            },
            ..record
        }
    } else {
        record
    }
}

pub open spec fn rename_with_facts(
    value: RenameModel,
    facts: Seq<CommittedFileFacts>,
) -> RenameModel {
    match value {
        RenameModel::Renamed { from, to, document, references_updated, partial_updates } =>
        RenameModel::Renamed {
            from,
            to,
            document: with_facts(document, facts),
            references_updated,
            partial_updates,
        },
        other => other,
    }
}

pub open spec fn operation_with_facts(
    value: BatchOperationModel,
    facts: Seq<CommittedFileFacts>,
) -> BatchOperationModel {
    match value {
        BatchOperationModel::Record(record) => BatchOperationModel::Record(
            with_facts(record, facts),
        ),
        BatchOperationModel::Rename(value) => BatchOperationModel::Rename(
            rename_with_facts(value, facts),
        ),
        other => other,
    }
}

pub open spec fn item_with_facts(
    item: BatchItemModel,
    facts: Seq<CommittedFileFacts>,
) -> BatchItemModel {
    BatchItemModel { result: operation_with_facts(item.result, facts), ..item }
}

/// A value with the facts of the files that its operation committed.
pub open spec fn value_with_facts(
    value: ValueModel,
    facts: Seq<CommittedFileFacts>,
) -> ValueModel {
    match value {
        ValueModel::Create(Some(record)) => ValueModel::Create(Some(with_facts(record, facts))),
        ValueModel::Update(Some(record)) => ValueModel::Update(Some(with_facts(record, facts))),
        ValueModel::Rename(Some(value)) => ValueModel::Rename(
            Some(rename_with_facts(value, facts)),
        ),
        ValueModel::Batch(Some(batch)) => ValueModel::Batch(
            Some(
                BatchModel {
                    operations: Seq::new(
                        batch.operations.len(),
                        |i: int| item_with_facts(batch.operations[i], facts),
                    ),
                    ..batch
                },
            ),
        ),
        other => other,
    }
}

fn find_facts(facts: &Vec<CommittedFileFacts>, path: &str) -> (result: usize)
    ensures
        result == facts_at(facts@, path@),
        result <= facts@.len(),
{
    let mut i: usize = 0;
    proof {
        assert(facts@.skip(0) =~= facts@);
    }
    while i < facts.len()
        invariant
            i <= facts@.len(),
            facts_at(facts@, path@) == i + facts_at(facts@.skip(i as int), path@),
        decreases facts@.len() - i,
    {
        proof {
            assert(facts@.skip(i as int)[0] == facts@[i as int]);
            assert(facts@.skip(i as int).drop_first() =~= facts@.skip(i + 1));
        }
        if crate::text::same_text(facts[i].path.as_str(), path) {
            return i;
        }
        i = i + 1;
    }
    i
}

fn attach(record: RecordDocument, facts: &Vec<CommittedFileFacts>) -> (result: RecordDocument)
    ensures
        result@ == with_facts(record@, facts@),
{
    let mut record = record;
    let at = find_facts(facts, record.path.as_str());
    if at < facts.len() {
        record.file = RecordFile {
            name: record.file.name,
            folder: record.file.folder,
            size: facts[at].size,
            mtime: facts[at].mtime.clone(),
        };
    }
    record
}

fn attach_rename(value: CanonicalRenameValue, facts: &Vec<CommittedFileFacts>) -> (result:
    CanonicalRenameValue)
    ensures
        result@ == rename_with_facts(value@, facts@),
{
    match value {
        CanonicalRenameValue::Renamed(value) => CanonicalRenameValue::Renamed(
            RenameResult {
                from: value.from,
                to: value.to,
                document: attach(value.document, facts),
                references_updated: value.references_updated,
                partial_updates: value.partial_updates,
            },
        ),
        CanonicalRenameValue::Preflight(value) => CanonicalRenameValue::Preflight(value),
    }
}

fn attach_item(item: &BatchItemResult, facts: &Vec<CommittedFileFacts>) -> (result: BatchItemResult)
    ensures
        result@ == item_with_facts(item@, facts@),
{
    let item = item.copy();
    let result = match item.result {
        BatchOperationResult::Record(record) => BatchOperationResult::Record(
            attach(record, facts),
        ),
        BatchOperationResult::Rename(value) => BatchOperationResult::Rename(
            attach_rename(value, facts),
        ),
        other => other,
    };
    BatchItemResult {
        index: item.index,
        kind: item.kind,
        valid: item.valid,
        result,
        diagnostics: item.diagnostics,
    }
}

fn attach_batch(batch: BatchResult, facts: &Vec<CommittedFileFacts>) -> (result: BatchResult)
    ensures
        ValueModel::Batch(Some(result@)) == value_with_facts(
            ValueModel::Batch(Some(batch@)),
            facts@,
        ),
{
    let mut operations: Vec<BatchItemResult> = Vec::new();
    let mut i: usize = 0;
    while i < batch.operations.len()
        invariant
            i <= batch.operations@.len(),
            operations@.len() == i,
            forall|k: int|
                0 <= k < i ==> (#[trigger] operations@[k])@ == item_with_facts(
                    batch.operations@[k]@,
                    facts@,
                ),
        decreases batch.operations@.len() - i,
    {
        operations.push(attach_item(&batch.operations[i], facts));
        i = i + 1;
    }
    proof {
        assert(batch_items(operations@) =~= Seq::new(
            batch@.operations.len(),
            |i: int| item_with_facts(batch@.operations[i], facts@),
        ));
    }
    BatchResult {
        operations,
        succeeded: batch.succeeded,
        failed: batch.failed,
        preflight: batch.preflight,
        dry_run: batch.dry_run,
    }
}

fn copy_record(record: &Option<RecordDocument>) -> (result: Option<RecordDocument>)
    ensures
        viewed(result) == viewed(*record),
{
    match record {
        Some(record) => Some(record.copy()),
        None => None,
    }
}

impl CanonicalOperationValue {
    pub fn copy(&self) -> (result: CanonicalOperationValue)
        ensures
            result@ == self@,
    {
        match self {
            CanonicalOperationValue::Read(record) => CanonicalOperationValue::Read(
                copy_record(record),
            ),
            CanonicalOperationValue::Query(Some(query)) => CanonicalOperationValue::Query(
                Some(query.copy()),
            ),
            CanonicalOperationValue::Query(None) => CanonicalOperationValue::Query(None),
            CanonicalOperationValue::Create(record) => CanonicalOperationValue::Create(
                copy_record(record),
            ),
            CanonicalOperationValue::Update(record) => CanonicalOperationValue::Update(
                copy_record(record),
            ),
            CanonicalOperationValue::Delete(Some(value)) => CanonicalOperationValue::Delete(
                Some(value.copy()),
            ),
            CanonicalOperationValue::Delete(None) => CanonicalOperationValue::Delete(None),
            CanonicalOperationValue::Rename(Some(value)) => CanonicalOperationValue::Rename(
                Some(value.copy()),
            ),
            CanonicalOperationValue::Rename(None) => CanonicalOperationValue::Rename(None),
            CanonicalOperationValue::Batch(Some(value)) => CanonicalOperationValue::Batch(
                Some(value.copy()),
            ),
            CanonicalOperationValue::Batch(None) => CanonicalOperationValue::Batch(None),
            CanonicalOperationValue::TypePack(Some(value)) => CanonicalOperationValue::TypePack(
                Some(value.copy()),
            ),
            CanonicalOperationValue::TypePack(None) => CanonicalOperationValue::TypePack(None),
            CanonicalOperationValue::CollectionSetup(Some(value)) =>
            CanonicalOperationValue::CollectionSetup(Some(value.copy())),
            CanonicalOperationValue::CollectionSetup(None) =>
            CanonicalOperationValue::CollectionSetup(None),
            CanonicalOperationValue::WireOnly(WireOnlyOperationValue::Validation(value)) =>
            CanonicalOperationValue::WireOnly(WireOnlyOperationValue::Validation(value.copy())),
            CanonicalOperationValue::WireOnly(WireOnlyOperationValue::ViewResource(value)) =>
            CanonicalOperationValue::WireOnly(WireOnlyOperationValue::ViewResource(value.copy())),
            CanonicalOperationValue::WireOnly(WireOnlyOperationValue::TypeResource(value)) =>
            CanonicalOperationValue::WireOnly(WireOnlyOperationValue::TypeResource(value.copy())),
            CanonicalOperationValue::LegacyRecoveredV03(wire) =>
            CanonicalOperationValue::LegacyRecoveredV03(wire.copy()),
        }
    }
}

impl CanonicalOperationOutcome {
    pub fn copy(&self) -> (result: CanonicalOperationOutcome)
        ensures
            result@ == self@,
    {
        CanonicalOperationOutcome {
            valid: self.valid,
            value: self.value.copy(),
            diagnostics: copy_typed(&self.diagnostics),
        }
    }

    pub fn read(record: RecordDocument, diagnostics: Vec<TypedDiagnostic>) -> (result: Self)
        ensures
            result@ == (OutcomeModel {
                valid: true,
                value: ValueModel::Read(Some(record@)),
                diagnostics: typed_models(diagnostics@),
            }),
    {
        CanonicalOperationOutcome {
            valid: true,
            value: CanonicalOperationValue::Read(Some(record)),
            diagnostics,
        }
    }

    /// The outcome of a query. Its diagnostics also stand in its value.
    pub fn query(
        records: Vec<Json>,
        total_count: u64,
        has_more: bool,
        meta: Json,
        diagnostics: Vec<TypedDiagnostic>,
    ) -> (result: Self)
        ensures
            result@ == (OutcomeModel {
                valid: true,
                value: ValueModel::Query(
                    Some(
                        QueryValueModel {
                            records: item_models(records@),
                            total_count: Some(total_count as int),
                            has_more,
                            meta: meta@,
                            embedded_diagnostics: typed_models(diagnostics@),
                        },
                    ),
                ),
                diagnostics: typed_models(diagnostics@),
            }),
    {
        let embedded_diagnostics = copy_typed(&diagnostics);
        CanonicalOperationOutcome {
            valid: true,
            value: CanonicalOperationValue::Query(
                Some(
                    CanonicalQueryValue {
                        records,
                        total_count: Some(total_count),
                        has_more,
                        meta,
                        embedded_diagnostics,
                    },
                ),
            ),
            diagnostics,
        }
    }

    pub fn legacy_recovered(wire: OperationResult) -> (result: Self)
        ensures
            result@ == (OutcomeModel {
                valid: wire.valid,
                value: ValueModel::LegacyRecoveredV03(wire@),
                diagnostics: all_typed(wire@.diagnostics),
            }),
    {
        CanonicalOperationOutcome {
            valid: wire.valid,
            diagnostics: type_diagnostics(&wire.diagnostics),
            value: CanonicalOperationValue::LegacyRecoveredV03(wire),
        }
    }

    /// The outcome of one mutation. A result that does not fit the operation
    /// makes the outcome invalid.
    pub fn record_mutation(
        operation: OperationKind,
        valid: bool,
        result: BatchOperationResult,
        diagnostics: Vec<TypedDiagnostic>,
    ) -> (outcome: Self)
        requires
            operation.concerns_records(),
        ensures
            outcome@ == match mutation_value(operation, result@) {
                Some(value) => OutcomeModel {
                    valid,
                    value,
                    diagnostics: typed_models(diagnostics@),
                },
                None => OutcomeModel {
                    valid: false,
                    value: missing_value(operation),
                    diagnostics: typed_models(diagnostics@),
                },
            },
    {
        let value = match (operation, result) {
            (OperationKind::Create, BatchOperationResult::Record(record)) =>
            CanonicalOperationValue::Create(Some(record)),
            (OperationKind::Update, BatchOperationResult::Record(record)) =>
            CanonicalOperationValue::Update(Some(record)),
            (OperationKind::Delete, BatchOperationResult::Delete(value)) =>
            CanonicalOperationValue::Delete(Some(value)),
            (OperationKind::Rename, BatchOperationResult::Rename(value)) =>
            CanonicalOperationValue::Rename(Some(value)),
            _ => {
                return Self::invalid(operation, diagnostics);
            },
        };
        CanonicalOperationOutcome { valid, value, diagnostics }
    }

    /// The outcome of an operation without a typed value of its own.
    pub fn wire_only(operation: OperationKind, wire: OperationResult) -> (result: Self)
        requires
            operation.wire_only() || operation.defines(),
            recovered(operation, wire.result@) is Some,
        ensures
            result@ == (OutcomeModel {
                valid: wire.valid,
                value: recovered(operation, wire.result@)->0,
                diagnostics: all_typed(wire@.diagnostics),
            }),
    {
        if let Some(value) = recover_value(operation, &wire.result) {
            return CanonicalOperationOutcome {
                valid: wire.valid,
                value,
                diagnostics: type_diagnostics(&wire.diagnostics),
            };
        }
        Self::legacy_recovered(wire)
    }

    /// The outcome of an operation on type packs or collection setup.
    pub fn definition(operation: OperationKind, wire: &OperationResult) -> (result: Result<
        Self,
        ProviderError,
    >)
        requires
            operation.defines(),
        ensures
            recovers(result, operation, wire@),
    {
        Self::recover_v03(operation, wire)
    }

    pub fn record(&self) -> (result: Option<&RecordDocument>)
        ensures
            match self.value {
                CanonicalOperationValue::Read(Some(record))
                | CanonicalOperationValue::Create(Some(record))
                | CanonicalOperationValue::Update(Some(record)) => result == Some(&record),
                _ => result is None,
            },
    {
        match &self.value {
            CanonicalOperationValue::Read(Some(record)) => Some(record),
            CanonicalOperationValue::Create(Some(record)) => Some(record),
            CanonicalOperationValue::Update(Some(record)) => Some(record),
            _ => None,
        }
    }

    /// The outcome of a batch: valid if nothing failed and nothing is an error.
    pub fn batch(result: BatchResult, diagnostics: Vec<TypedDiagnostic>) -> (outcome: Self)
        ensures
            outcome@ == (OutcomeModel {
                valid: result.failed == 0 && !has_error(typed_models(diagnostics@)),
                value: ValueModel::Batch(Some(result@)),
                diagnostics: typed_models(diagnostics@),
            }),
    {
        let mut valid = result.failed == 0;
        let mut i: usize = 0;
        while i < diagnostics.len()
            invariant
                i <= diagnostics@.len(),
                valid == (result.failed == 0 && forall|k: int|
                    0 <= k < i ==> (#[trigger] typed_models(diagnostics@)[k]).severity
                        != Severity::Error),
            decreases diagnostics@.len() - i,
        {
            proof {
                assert(typed_models(diagnostics@)[i as int] == diagnostics@[i as int]@);
            }
            if diagnostics[i].severity == Severity::Error {
                valid = false;
            }
            i = i + 1;
        }
        CanonicalOperationOutcome {
            valid,
            value: CanonicalOperationValue::Batch(Some(result)),
            diagnostics,
        }
    }

    pub fn invalid(operation: OperationKind, diagnostics: Vec<TypedDiagnostic>) -> (result: Self)
        requires
            operation.concerns_records(),
        ensures
            result@ == (OutcomeModel {
                valid: false,
                value: missing_value(operation),
                diagnostics: typed_models(diagnostics@),
            }),
    {
        let value = match operation {
            OperationKind::Read => CanonicalOperationValue::Read(None),
            OperationKind::Query => CanonicalOperationValue::Query(None),
            OperationKind::Create => CanonicalOperationValue::Create(None),
            OperationKind::Update => CanonicalOperationValue::Update(None),
            OperationKind::Delete => CanonicalOperationValue::Delete(None),
            OperationKind::Rename => CanonicalOperationValue::Rename(None),
            _ => CanonicalOperationValue::Batch(None),
        };
        CanonicalOperationOutcome { valid: false, value, diagnostics }
    }

    /// The outcome of an operation that failed with an error: the error's own
    /// diagnostics, or one that holds its text.
    pub fn failure(
        operation: OperationKind,
        diagnostics: &Vec<TypedDiagnostic>,
        error: &str,
    ) -> (result: Self)
        requires
            operation.concerns_records(),
        ensures
            result@ == (OutcomeModel {
                valid: false,
                value: missing_value(operation),
                diagnostics: if diagnostics@.len() == 0 {
                    seq![plain_error("invalid_request"@, error@)]
                } else {
                    typed_models(diagnostics@)
                },
            }),
    {
        let mut all = copy_typed(diagnostics);
        proof {
            assert(typed_models(all@).len() == typed_models(diagnostics@).len());
        }
        if all.len() == 0 {
            all.push(TypedDiagnostic::error("invalid_request", error));
            proof {
                assert(typed_models(all@) =~= seq![plain_error("invalid_request"@, error@)]);
            }
        }
        Self::invalid(operation, all)
    }

    /// Reads a portable result back, by its operation alone.
    pub fn recover_v03(operation: OperationKind, wire: &OperationResult) -> (result: Result<
        Self,
        ProviderError,
    >)
        ensures
            recovers(result, operation, wire@),
    {
        match recover_value(operation, &wire.result) {
            Some(value) => Ok(
                CanonicalOperationOutcome {
                    valid: wire.valid,
                    value,
                    diagnostics: type_diagnostics(&wire.diagnostics),
                },
            ),
            None => {
                let message = if operation == OperationKind::Query && array_member_of(
                    &wire.result,
                    "results",
                ).is_none() {
                    "query results must contain an array"
                } else {
                    "operation value has another shape"
                };
                Err(ProviderError::transaction("typed_outcome_decode_failed", message))
            },
        }
    }

    /// Reads the result of an operation that still answers with the portable
    /// envelope.
    pub fn hosted_wire_edge(operation: OperationKind, wire: &OperationResult) -> (result: Result<
        Self,
        ProviderError,
    >)
        ensures
            recovers(result, operation, wire@),
    {
        Self::recover_v03(operation, wire)
    }

    /// The portable envelope of the outcome.
    pub fn to_v03(&self) -> (result: OperationResult)
        ensures
            result@ == wire_of(self@),
    {
        let result = match &self.value {
            CanonicalOperationValue::Read(Some(record)) => record.to_json(),
            CanonicalOperationValue::Create(Some(record)) => record.to_json(),
            CanonicalOperationValue::Update(Some(record)) => record.to_json(),
            CanonicalOperationValue::Query(Some(query)) => query.to_json(),
            CanonicalOperationValue::Delete(Some(value)) => value.to_json(),
            CanonicalOperationValue::Rename(Some(value)) => value.to_json(),
            CanonicalOperationValue::Batch(Some(value)) => value.to_json(),
            CanonicalOperationValue::TypePack(Some(value)) => value.to_json(),
            CanonicalOperationValue::CollectionSetup(Some(value)) => value.to_json(),
            CanonicalOperationValue::WireOnly(WireOnlyOperationValue::Validation(value)) =>
            value.copy(),
            CanonicalOperationValue::WireOnly(WireOnlyOperationValue::ViewResource(value)) =>
            value.copy(),
            CanonicalOperationValue::WireOnly(WireOnlyOperationValue::TypeResource(value)) =>
            value.copy(),
            CanonicalOperationValue::LegacyRecoveredV03(wire) => {
                return wire.copy();
            },
            _ => Json::empty_object(),
        };
        OperationResult {
            valid: self.valid,
            result,
            diagnostics: wire_diagnostics(&self.diagnostics),
        }
    }

    /// Adds the facts of the committed files to the records of a mutation.
    pub fn attach_committed_file_facts(&mut self, facts: &Vec<CommittedFileFacts>)
        ensures
            final(self)@ == (OutcomeModel {
                value: value_with_facts(old(self)@.value, facts@),
                ..old(self)@
            }),
    {
        let mut value = CanonicalOperationValue::Read(None);
        std::mem::swap(&mut self.value, &mut value);
        self.value = match value {
            CanonicalOperationValue::Create(Some(record)) => CanonicalOperationValue::Create(
                Some(attach(record, facts)),
            ),
            CanonicalOperationValue::Update(Some(record)) => CanonicalOperationValue::Update(
                Some(attach(record, facts)),
            ),
            CanonicalOperationValue::Rename(Some(value)) => CanonicalOperationValue::Rename(
                Some(attach_rename(value, facts)),
            ),
            CanonicalOperationValue::Batch(Some(batch)) => CanonicalOperationValue::Batch(
                Some(attach_batch(batch, facts)),
            ),
            other => other,
        };
    }
}

/// What reading a portable result back gives.
pub open spec fn recovers(
    result: Result<CanonicalOperationOutcome, ProviderError>,
    operation: OperationKind,
    wire: OperationModel,
) -> bool {
    match recovered(operation, wire.result) {
        Some(value) => match result {
            Ok(outcome) => outcome@ == (OutcomeModel {
                valid: wire.valid,
                value,
                diagnostics: all_typed(wire.diagnostics),
            }),
            Err(_) => false,
        },
        None => match result {
            Ok(_) => false,
            Err(error) => error.is_transaction(
                "typed_outcome_decode_failed"@,
                shape_message(operation, wire.result),
            ),
        },
    }
}

// ---------------------------------------------------------------------------
// Laws
// ---------------------------------------------------------------------------
proof fn lemma_nonempty(members: Seq<(Seq<char>, JsonModel)>, key: Seq<char>)
    requires
        lookup(members, key) is Some,
    ensures
        !is_empty_object(JsonModel::Object(members)),
{
}

/// A delete value is read back from its JSON as it was.
pub proof fn lemma_delete_roundtrip(value: DeleteModel)
    ensures
        delete_of(delete_json(value)) == Some(value),
        !is_empty_object(delete_json(value)),
{
    broadcast use crate::json::lemma_put;

    reveal_strlit("path");
    reveal_strlit("deleted");
    reveal_strlit("would_delete");
    reveal_strlit("broken_links");
    assert("would_delete"@[0] == 'w' && "broken_links"@[0] == 'b');
    match delete_json(value) {
        JsonModel::Object(members) => {
            assert(lookup(members, "path"@) is Some);
            lemma_nonempty(members, "path"@);
        },
        _ => {},
    }
}

/// A rename value is read back from its JSON as it was.
pub proof fn lemma_rename_roundtrip(value: RenameModel)
    requires
        match value {
            RenameModel::Renamed { from, to, document, references_updated, partial_updates } =>
            document.wf() && partial_updates != Some(JsonModel::Null),
            RenameModel::Preflight {
                from,
                to,
                dry_run,
                would_rename,
                references_affected,
                partial_updates,
            } => partial_updates != Some(JsonModel::Null),
        },
    ensures
        rename_of(rename_json(value)) == Some(value),
        !is_empty_object(rename_json(value)),
{
    broadcast use crate::json::lemma_put;

    reveal_strlit("from");
    reveal_strlit("to");
    reveal_strlit("would_rename");
    match value {
        RenameModel::Renamed { from, to, document, references_updated, partial_updates } => {
            reveal_strlit("references_updated");
            reveal_strlit("partial_updates");
            reveal_strlit("path");
            reveal_strlit("revision");
            reveal_strlit("types");
            reveal_strlit("frontmatter");
            reveal_strlit("effective_frontmatter");
            reveal_strlit("body");
            reveal_strlit("document");
            reveal_strlit("file");
            let first = put(record_members(document), "from"@, Some(JsonModel::Text(from)));
            let second = put(first, "to"@, Some(JsonModel::Text(to)));
            let third = put(second, "references_updated"@, some_items(references_updated));
            let members = put(third, "partial_updates"@, partial_updates);
            lemma_record_members(members, document);
            if references_updated.len() == 0 {
                assert(references_updated =~= Seq::empty());
            }
            assert(lookup(members, "references_updated"@) == some_items(references_updated));
            assert(lookup(members, "partial_updates"@) == partial_updates);
            assert(lookup(members, "from"@) == Some(JsonModel::Text(from)));
            assert(lookup(members, "to"@) == Some(JsonModel::Text(to)));
            assert(lookup(members, "would_rename"@) is None);
            lemma_nonempty(members, "to"@);
        },
        RenameModel::Preflight {
            from,
            to,
            dry_run,
            would_rename,
            references_affected,
            partial_updates,
        } => {
            reveal_strlit("dry_run");
            reveal_strlit("references_affected");
            reveal_strlit("partial_updates");
            if let JsonModel::Object(members) = rename_json(value) {
                assert(lookup(members, "from"@) == Some(JsonModel::Text(from)));
                lemma_nonempty(members, "from"@);
                if references_affected.len() == 0 {
                    assert(references_affected =~= Seq::empty());
                }
            }
        },
    }
}

/// The result of one operation of a batch is read back from its JSON as it was.
pub proof fn lemma_batch_operation_roundtrip(value: BatchOperationModel)
    requires
        operation_is_exact(value),
    ensures
        batch_operation_of(batch_operation_json(value)) == value,
{
    broadcast use crate::json::lemma_put;

    reveal_strlit("from");
    reveal_strlit("to");
    reveal_strlit("would_rename");
    reveal_strlit("path");
    reveal_strlit("revision");
    reveal_strlit("types");
    reveal_strlit("frontmatter");
    reveal_strlit("effective_frontmatter");
    reveal_strlit("body");
    reveal_strlit("document");
    reveal_strlit("file");
    reveal_strlit("deleted");
    reveal_strlit("would_delete");
    reveal_strlit("broken_links");
    match value {
        BatchOperationModel::Record(record) => {
            lemma_record_roundtrip(record);
            assert("file"@[1] == 'i' && "from"@[1] == 'r');
            assert("body"@[0] == 'b' && "path"@[0] == 'p' && "from"@[0] == 'f');
            assert(lookup(record_members(record), "from"@) is None);
        },
        BatchOperationModel::Delete(delete) => {
            lemma_delete_roundtrip(delete);
            let json = delete_json(delete);
            assert("path"@[0] == 'p' && "from"@[0] == 'f');
            assert("would_delete"@[0] == 'w' && "broken_links"@[0] == 'b');
            assert("would_delete"@[6] == 'd' && "would_rename"@[6] == 'r');
            assert(member_of(json, "from"@) is None);
            assert(member_of(json, "revision"@) is None);
        },
        BatchOperationModel::Rename(rename) => {
            lemma_rename_roundtrip(rename);
        },
        BatchOperationModel::Other(other) => {},
    }
}

/// Results of a batch that their JSON keeps in full.
pub open spec fn operation_is_exact(value: BatchOperationModel) -> bool {
    match value {
        BatchOperationModel::Record(record) => record.wf(),
        BatchOperationModel::Delete(_) => true,
        BatchOperationModel::Rename(
            RenameModel::Renamed { from, to, document, references_updated, partial_updates },
        ) => document.wf() && partial_updates != Some(JsonModel::Null),
        BatchOperationModel::Rename(
            RenameModel::Preflight {
                from,
                to,
                dry_run,
                would_rename,
                references_affected,
                partial_updates,
            },
        ) => partial_updates != Some(JsonModel::Null),
        BatchOperationModel::Other(value) => rename_of(value) is None && record_of(value) is None
            && delete_of(value) is None,
    }
}

/// Diagnostics that their JSON keeps in full.
pub open spec fn diagnostics_are_exact(list: Seq<TypedModel>) -> bool {
    forall|i: int|
        0 <= i < list.len() ==> (#[trigger] list[i]).details != Some(JsonModel::Null)
}

pub open spec fn item_is_exact(item: BatchItemModel) -> bool {
    item.index >= 0 && operation_is_exact(item.result) && diagnostics_are_exact(item.diagnostics)
}

/// Values that their portable form keeps in full.
pub open spec fn is_exact(value: ValueModel) -> bool {
    match value {
        ValueModel::Read(Some(record)) => record.wf(),
        ValueModel::Create(Some(record)) => record.wf(),
        ValueModel::Update(Some(record)) => record.wf(),
        ValueModel::Rename(
            Some(
                RenameModel::Renamed { from, to, document, references_updated, partial_updates },
            ),
        ) => document.wf() && partial_updates != Some(JsonModel::Null),
        ValueModel::Rename(
            Some(
                RenameModel::Preflight {
                    from,
                    to,
                    dry_run,
                    would_rename,
                    references_affected,
                    partial_updates,
                },
            ),
        ) => partial_updates != Some(JsonModel::Null),
        ValueModel::Batch(Some(batch)) => batch.succeeded >= 0 && batch.failed >= 0 && forall|
            i: int,
        |
            0 <= i < batch.operations.len() ==> item_is_exact(#[trigger] batch.operations[i]),
        ValueModel::TypePack(Some(value)) => lookup(value.extensions, "applicable"@) is None
            && lookup(value.extensions, "assessment_digest"@) is None,
        ValueModel::CollectionSetup(Some(SetupModel::Assessment(value))) => value is Object
            && !is_empty_object(value) && member_of(value, "assessment"@) is None,
        ValueModel::LegacyRecoveredV03(_) => false,
        ValueModel::Query(Some(_)) => false,
        _ => true,
    }
}

proof fn lemma_diagnostics_roundtrip(list: Seq<TypedModel>)
    requires
        diagnostics_are_exact(list),
    ensures
        diagnostics_of(diagnostics_json(all_portable(list))) == Some(all_portable(list)),
        all_typed(all_portable(list)) == list,
{
    let portable = all_portable(list);
    let items = Seq::new(
        portable.len(),
        |i: int| crate::operation_values::diagnostic_json(portable[i]),
    );
    assert forall|i: int| 0 <= i < items.len() implies crate::operation_values::diagnostic_of(
        #[trigger] items[i],
    ) == Some(portable[i]) by {
        assert(list[i].details != Some(JsonModel::Null));
        crate::operation_values::lemma_diagnostic_roundtrip(portable[i]);
    }
    assert(diagnostics_of(JsonModel::Array(items))->0 =~= portable);
    lemma_typed_list(list);
}

proof fn lemma_batch_item_roundtrip(item: BatchItemModel)
    requires
        item_is_exact(item),
    ensures
        batch_item_of(batch_item_json(item)) == Some(item),
{
    broadcast use crate::json::lemma_put;

    reveal_strlit("index");
    reveal_strlit("kind");
    reveal_strlit("valid");
    reveal_strlit("result");
    reveal_strlit("diagnostics");
    assert("index"@[0] == 'i' && "valid"@[0] == 'v');
    lemma_batch_operation_roundtrip(item.result);
    lemma_diagnostics_roundtrip(item.diagnostics);
    if let JsonModel::Object(members) = batch_item_json(item) {
        assert(lookup(members, "index"@) == count_json(item.index));
        assert(lookup(members, "kind"@) == Some(JsonModel::Text(item.kind)));
        assert(lookup(members, "valid"@) == bool_json(item.valid));
        assert(lookup(members, "result"@) == Some(batch_operation_json(item.result)));
        assert(lookup(members, "diagnostics"@) == Some(
            diagnostics_json(all_portable(item.diagnostics)),
        ));
    }
}

proof fn lemma_batch_roundtrip(batch: BatchModel)
    requires
        is_exact(ValueModel::Batch(Some(batch))),
    ensures
        batch_of(batch_json(batch)) == Some(batch),
        !is_empty_object(batch_json(batch)),
{
    broadcast use crate::json::lemma_put;

    reveal_strlit("operations");
    reveal_strlit("succeeded");
    reveal_strlit("failed");
    reveal_strlit("preflight");
    reveal_strlit("dry_run");
    assert("succeeded"@[0] == 's' && "preflight"@[0] == 'p');
    let items = Seq::new(batch.operations.len(), |i: int| batch_item_json(batch.operations[i]));
    assert forall|i: int| 0 <= i < items.len() implies batch_item_of(#[trigger] items[i]) == Some(
        batch.operations[i],
    ) by {
        let item = batch.operations[i];
        assert(item_is_exact(item));
        lemma_batch_item_roundtrip(item);
    }
    assert(batch_items_of(items)->0 =~= batch.operations);
    if let JsonModel::Object(members) = batch_json(batch) {
        assert(lookup(members, "operations"@) == Some(JsonModel::Array(items)));
        assert(lookup(members, "succeeded"@) == count_json(batch.succeeded));
        assert(lookup(members, "failed"@) == count_json(batch.failed));
        assert(lookup(members, "preflight"@) == bool_json(batch.preflight));
        assert(lookup(members, "dry_run"@) == bool_json(batch.dry_run));
        lemma_nonempty(members, "failed"@);
    }
}

proof fn lemma_type_pack_roundtrip(value: TypePackModel)
    requires
        is_exact(ValueModel::TypePack(Some(value))),
    ensures
        type_pack_of(type_pack_json(value)) == Some(value),
        !is_empty_object(type_pack_json(value)),
{
    broadcast use crate::json::lemma_put;

    reveal_strlit("applicable");
    reveal_strlit("assessment_digest");
    let first = put(value.extensions, "applicable"@, bool_json(value.applicable));
    let digest = JsonModel::Text(value.assessment_digest);
    let members = put(first, "assessment_digest"@, Some(digest));
    assert("applicable"@.len() != "assessment_digest"@.len());
    assert(lookup(first, "assessment_digest"@) is None);
    crate::json::lemma_without_added(first, "assessment_digest"@, digest);
    crate::json::lemma_without_added(
        value.extensions,
        "applicable"@,
        JsonModel::Bool(value.applicable),
    );
    assert(lookup(members, "applicable"@) == bool_json(value.applicable));
    assert(lookup(members, "assessment_digest"@) == Some(digest));
    lemma_nonempty(members, "applicable"@);
}

proof fn lemma_setup_roundtrip(value: SetupModel)
    requires
        is_exact(ValueModel::CollectionSetup(Some(value))),
    ensures
        setup_of(setup_json(value)) == Some(value),
        !is_empty_object(setup_json(value)),
{
    broadcast use crate::json::lemma_put;

    reveal_strlit("assessment");
    reveal_strlit("receipt");
    reveal_strlit("conflicts");
    assert("assessment"@.len() == 10 && "receipt"@.len() == 7 && "conflicts"@.len() == 9);
    match value {
        SetupModel::Applied { assessment, receipt } => {
            if let JsonModel::Object(members) = setup_json(value) {
                assert(lookup(members, "assessment"@) == Some(assessment));
                assert(lookup(members, "receipt"@) == Some(receipt));
                lemma_nonempty(members, "receipt"@);
            }
        },
        SetupModel::Conflict { assessment, conflicts } => {
            if let JsonModel::Object(members) = setup_json(value) {
                assert(lookup(members, "assessment"@) == Some(assessment));
                assert(lookup(members, "conflicts"@) == Some(conflicts));
                assert(lookup(members, "receipt"@) is None);
                lemma_nonempty(members, "conflicts"@);
            }
        },
        SetupModel::Assessment(value) => {},
    }
}

proof fn lemma_typed_list(list: Seq<TypedModel>)
    ensures
        all_typed(all_portable(list)) == list,
{
    assert forall|i: int| 0 <= i < list.len() implies all_typed(all_portable(list))[i]
        == list[i] by {
        crate::operation_values::lemma_typed_portable(list[i]);
    }
    assert(all_typed(all_portable(list)) =~= list);
}

/// An outcome is read back from its portable envelope as it was.
pub proof fn lemma_wire_is_exact(outcome: OutcomeModel)
    requires
        is_exact(outcome.value),
    ensures
        outcome.value.kind() is Some,
        wire_of(outcome).valid == outcome.valid,
        recovered(outcome.value.kind()->0, wire_of(outcome).result) == Some(outcome.value),
        all_typed(wire_of(outcome).diagnostics) == outcome.diagnostics,
{
    broadcast use crate::json::lemma_put;

    lemma_typed_list(outcome.diagnostics);
    reveal_strlit("file");
    match outcome.value {
        ValueModel::Read(Some(record))
        | ValueModel::Create(Some(record))
        | ValueModel::Update(Some(record)) => {
            lemma_record_roundtrip(record);
            lemma_nonempty(record_members(record), "file"@);
        },
        ValueModel::Delete(Some(value)) => {
            lemma_delete_roundtrip(value);
        },
        ValueModel::Rename(Some(value)) => {
            lemma_rename_roundtrip(value);
        },
        ValueModel::Batch(Some(value)) => {
            lemma_batch_roundtrip(value);
        },
        ValueModel::TypePack(Some(value)) => {
            lemma_type_pack_roundtrip(value);
        },
        ValueModel::CollectionSetup(Some(value)) => {
            lemma_setup_roundtrip(value);
        },
        _ => {},
    }
}

/// A query is read back from its portable form with its records, its total, and
/// whether there is more. A total that was deferred stays deferred where the
/// metadata says so.
pub proof fn lemma_query_wire_is_exact(query: QueryValueModel)
    requires
        match query.total_count {
            Some(count) => count >= 0,
            None => member_of(query.meta, "total_count_outcome"@) is Some,
        },
        diagnostics_are_exact(query.embedded_diagnostics),
    ensures
        recovered(OperationKind::Query, query_json(query)) == Some(
            ValueModel::Query(
                Some(QueryValueModel { meta: JsonModel::Object(query_meta(query)), ..query }),
            ),
        ),
{
    broadcast use crate::json::lemma_put;

    reveal_strlit("results");
    reveal_strlit("meta");
    reveal_strlit("diagnostics");
    reveal_strlit("total_count");
    reveal_strlit("total_count_outcome");
    reveal_strlit("has_more");
    assert("total_count"@.len() == 11 && "has_more"@.len() == 8);
    assert("total_count_outcome"@.len() == 19);
    let json = query_json(query);
    lemma_diagnostics_roundtrip(query.embedded_diagnostics);
    if let JsonModel::Object(members) = json {
        assert(lookup(members, "results"@) == Some(JsonModel::Array(query.records)));
        assert(lookup(members, "meta"@) == Some(JsonModel::Object(query_meta(query))));
        assert(lookup(members, "diagnostics"@) == Some(
            diagnostics_json(all_portable(query.embedded_diagnostics)),
        ));
        lemma_nonempty(members, "meta"@);
    }
    let start = match query.meta {
        JsonModel::Object(members) => members,
        _ => Seq::empty(),
    };
    match query.total_count {
        Some(count) => {},
        None => {
            lemma_lookup_without_member(start, "total_count"@, "total_count_outcome"@);
        },
    }
    let meta = query_meta(query);
    assert(lookup(meta, "has_more"@) == bool_json(query.has_more));
    assert(query_meta_of(json) == JsonModel::Object(meta));
    match query.total_count {
        Some(count) => {
            assert(lookup(meta, "total_count"@) == count_json(count));
        },
        None => {
            assert(lookup(meta, "total_count"@) is None);
            assert(lookup(meta, "total_count_outcome"@) is Some);
        },
    }
}

} // verus!
