//! Typed values of operations and their portable JSON form.

use crate::diagnostics::{copy_optional_json, optional_json, Diagnostic, DiagnosticModel};
use crate::json::{
    item_models, lemma_array_model, lemma_object_model, lookup, member_models, member_of,
    no_members, put, put_entry, text_list, text_list_of, text_member, text_models, unsigned_model,
    Json, JsonModel, NumberModel,
};
use crate::text::{copy_optional, copy_texts, optional_text, texts};
use vstd::prelude::*;

verus! {

// ---------------------------------------------------------------------------
// Kinds of operations
// ---------------------------------------------------------------------------
#[derive(Clone, Copy, Debug, PartialEq, Eq, Structural)]
pub enum OperationKind {
    Read,
    Query,
    Create,
    Update,
    Delete,
    Rename,
    Batch,
    Validate,
    ListViews,
    ExecuteView,
    ReadViewSource,
    CreateViewSource,
    UpdateViewSource,
    DeleteViewSource,
    ListTypes,
    ReadType,
    CreateType,
    UpdateType,
    AssessTypePack,
    ApplyTypePack,
    AssessCollectionSetup,
    ApplyCollectionSetup,
}

impl OperationKind {
    pub open spec fn name(self) -> Seq<char> {
        match self {
            OperationKind::Read => "read"@,
            OperationKind::Query => "query"@,
            OperationKind::Create => "create"@,
            OperationKind::Update => "update"@,
            OperationKind::Delete => "delete"@,
            OperationKind::Rename => "rename"@,
            OperationKind::Batch => "batch"@,
            OperationKind::Validate => "validate"@,
            OperationKind::ListViews => "list_views"@,
            OperationKind::ExecuteView => "execute_view"@,
            OperationKind::ReadViewSource => "read_view_source"@,
            OperationKind::CreateViewSource => "create_view_source"@,
            OperationKind::UpdateViewSource => "update_view_source"@,
            OperationKind::DeleteViewSource => "delete_view_source"@,
            OperationKind::ListTypes => "list_types"@,
            OperationKind::ReadType => "read_type"@,
            OperationKind::CreateType => "create_type"@,
            OperationKind::UpdateType => "update_type"@,
            OperationKind::AssessTypePack => "assess_type_pack"@,
            OperationKind::ApplyTypePack => "apply_type_pack"@,
            OperationKind::AssessCollectionSetup => "assess_collection_setup"@,
            OperationKind::ApplyCollectionSetup => "apply_collection_setup"@,
        }
    }

    pub fn as_str(self) -> (result: &'static str)
        ensures
            result@ == self.name(),
    {
        match self {
            OperationKind::Read => "read",
            OperationKind::Query => "query",
            OperationKind::Create => "create",
            OperationKind::Update => "update",
            OperationKind::Delete => "delete",
            OperationKind::Rename => "rename",
            OperationKind::Batch => "batch",
            OperationKind::Validate => "validate",
            OperationKind::ListViews => "list_views",
            OperationKind::ExecuteView => "execute_view",
            OperationKind::ReadViewSource => "read_view_source",
            OperationKind::CreateViewSource => "create_view_source",
            OperationKind::UpdateViewSource => "update_view_source",
            OperationKind::DeleteViewSource => "delete_view_source",
            OperationKind::ListTypes => "list_types",
            OperationKind::ReadType => "read_type",
            OperationKind::CreateType => "create_type",
            OperationKind::UpdateType => "update_type",
            OperationKind::AssessTypePack => "assess_type_pack",
            OperationKind::ApplyTypePack => "apply_type_pack",
            OperationKind::AssessCollectionSetup => "assess_collection_setup",
            OperationKind::ApplyCollectionSetup => "apply_collection_setup",
        }
    }

    /// Whether the operation may change the collection.
    pub open spec fn mutates(self) -> bool {
        match self {
            OperationKind::Create
            | OperationKind::Update
            | OperationKind::Delete
            | OperationKind::Rename
            | OperationKind::Batch
            | OperationKind::CreateViewSource
            | OperationKind::UpdateViewSource
            | OperationKind::DeleteViewSource
            | OperationKind::CreateType
            | OperationKind::UpdateType
            | OperationKind::ApplyTypePack
            | OperationKind::ApplyCollectionSetup => true,
            _ => false,
        }
    }

    pub fn is_mutation(self) -> (result: bool)
        ensures
            result == self.mutates(),
    {
        match self {
            OperationKind::Create
            | OperationKind::Update
            | OperationKind::Delete
            | OperationKind::Rename
            | OperationKind::Batch
            | OperationKind::CreateViewSource
            | OperationKind::UpdateViewSource
            | OperationKind::DeleteViewSource
            | OperationKind::CreateType
            | OperationKind::UpdateType
            | OperationKind::ApplyTypePack
            | OperationKind::ApplyCollectionSetup => true,
            _ => false,
        }
    }
}

// ---------------------------------------------------------------------------
// Typed diagnostics
// ---------------------------------------------------------------------------
#[derive(Clone, Copy, Debug, PartialEq, Eq, Structural)]
pub enum Severity {
    Error,
    Warning,
    Info,
}

impl Severity {
    pub open spec fn name(self) -> Seq<char> {
        match self {
            Severity::Error => "error"@,
            Severity::Warning => "warning"@,
            Severity::Info => "info"@,
        }
    }

    /// The severity with a portable name; any other name counts as an error.
    pub open spec fn named(name: Seq<char>) -> Severity {
        if name == "warning"@ {
            Severity::Warning
        } else if name == "info"@ {
            Severity::Info
        } else {
            Severity::Error
        }
    }

    pub fn as_str(self) -> (result: &'static str)
        ensures
            result@ == self.name(),
    {
        match self {
            Severity::Error => "error",
            Severity::Warning => "warning",
            Severity::Info => "info",
        }
    }

    pub fn from_name(name: &str) -> (result: Severity)
        ensures
            result == Severity::named(name@),
    {
        if crate::text::same_text(name, "warning") {
            Severity::Warning
        } else if crate::text::same_text(name, "info") {
            Severity::Info
        } else {
            Severity::Error
        }
    }
}

/// A diagnostic with a closed severity.
#[derive(Debug, PartialEq, Eq)]
pub struct TypedDiagnostic {
    pub severity: Severity,
    pub code: String,
    pub message: String,
    pub path: Option<String>,
    pub field: Option<String>,
    pub record_type: Option<String>,
    pub schema_location: Option<String>,
    pub details: Option<Json>,
}

/// What a typed diagnostic holds.
pub struct TypedModel {
    pub severity: Severity,
    pub code: Seq<char>,
    pub message: Seq<char>,
    pub path: Option<Seq<char>>,
    pub field: Option<Seq<char>>,
    pub record_type: Option<Seq<char>>,
    pub schema_location: Option<Seq<char>>,
    pub details: Option<JsonModel>,
}

impl View for TypedDiagnostic {
    type V = TypedModel;

    open spec fn view(&self) -> TypedModel {
        TypedModel {
            severity: self.severity,
            code: self.code@,
            message: self.message@,
            path: optional_text(self.path),
            field: optional_text(self.field),
            record_type: optional_text(self.record_type),
            schema_location: optional_text(self.schema_location),
            details: optional_json(self.details),
        }
    }
}

/// The typed form of a portable diagnostic.
pub open spec fn typed(diagnostic: DiagnosticModel) -> TypedModel {
    TypedModel {
        severity: Severity::named(diagnostic.severity),
        code: diagnostic.code,
        message: diagnostic.message,
        path: diagnostic.path,
        field: diagnostic.field,
        record_type: diagnostic.record_type,
        schema_location: diagnostic.schema_location,
        details: diagnostic.details,
    }
}

/// The portable form of a typed diagnostic.
pub open spec fn portable(diagnostic: TypedModel) -> DiagnosticModel {
    DiagnosticModel {
        severity: diagnostic.severity.name(),
        code: diagnostic.code,
        message: diagnostic.message,
        path: diagnostic.path,
        field: diagnostic.field,
        record_type: diagnostic.record_type,
        schema_location: diagnostic.schema_location,
        details: diagnostic.details,
    }
}

/// The portable form keeps everything of a typed diagnostic.
pub proof fn lemma_typed_portable(diagnostic: TypedModel)
    ensures
        typed(portable(diagnostic)) == diagnostic,
{
    reveal_strlit("error");
    reveal_strlit("warning");
    reveal_strlit("info");
    assert("error"@.len() == 5 && "warning"@.len() == 7 && "info"@.len() == 4);
    assert(Severity::named(diagnostic.severity.name()) == diagnostic.severity);
}

impl TypedDiagnostic {
    pub fn from_wire(diagnostic: &Diagnostic) -> (result: TypedDiagnostic)
        ensures
            result@ == typed(diagnostic@),
    {
        TypedDiagnostic {
            severity: Severity::from_name(diagnostic.severity.as_str()),
            code: diagnostic.code.clone(),
            message: diagnostic.message.clone(),
            path: copy_optional(&diagnostic.path),
            field: copy_optional(&diagnostic.field),
            record_type: copy_optional(&diagnostic.record_type),
            schema_location: copy_optional(&diagnostic.schema_location),
            details: copy_optional_json(&diagnostic.details),
        }
    }

    /// The diagnostic in its portable form.
    pub fn wire_diagnostic(&self) -> (result: Diagnostic)
        ensures
            result@ == portable(self@),
    {
        Diagnostic {
            severity: self.severity.as_str().to_owned(),
            code: self.code.clone(),
            message: self.message.clone(),
            path: copy_optional(&self.path),
            field: copy_optional(&self.field),
            record_type: copy_optional(&self.record_type),
            schema_location: copy_optional(&self.schema_location),
            details: copy_optional_json(&self.details),
        }
    }

    pub fn copy(&self) -> (result: TypedDiagnostic)
        ensures
            result@ == self@,
    {
        TypedDiagnostic {
            severity: self.severity,
            code: self.code.clone(),
            message: self.message.clone(),
            path: copy_optional(&self.path),
            field: copy_optional(&self.field),
            record_type: copy_optional(&self.record_type),
            schema_location: copy_optional(&self.schema_location),
            details: copy_optional_json(&self.details),
        }
    }

    /// An error with a code and a message alone.
    pub fn error(code: &str, message: &str) -> (result: TypedDiagnostic)
        ensures
            result@ == plain_error(code@, message@),
    {
        TypedDiagnostic {
            severity: Severity::Error,
            code: code.to_owned(),
            message: message.to_owned(),
            path: None,
            field: None,
            record_type: None,
            schema_location: None,
            details: None,
        }
    }
}

/// An error with a code and a message alone.
pub open spec fn plain_error(code: Seq<char>, message: Seq<char>) -> TypedModel {
    TypedModel {
        severity: Severity::Error,
        code,
        message,
        path: None,
        field: None,
        record_type: None,
        schema_location: None,
        details: None,
    }
}

/// What a list of typed diagnostics holds.
pub open spec fn typed_models(list: Seq<TypedDiagnostic>) -> Seq<TypedModel> {
    Seq::new(list.len(), |i: int| list[i]@)
}

/// The typed forms of portable diagnostics.
pub open spec fn all_typed(list: Seq<DiagnosticModel>) -> Seq<TypedModel> {
    Seq::new(list.len(), |i: int| typed(list[i]))
}

/// The portable forms of typed diagnostics.
pub open spec fn all_portable(list: Seq<TypedModel>) -> Seq<DiagnosticModel> {
    Seq::new(list.len(), |i: int| portable(list[i]))
}

pub fn type_diagnostics(list: &Vec<Diagnostic>) -> (result: Vec<TypedDiagnostic>)
    ensures
        typed_models(result@) == all_typed(crate::diagnostics::diagnostic_models(list@)),
{
    let mut result: Vec<TypedDiagnostic> = Vec::new();
    let mut i: usize = 0;
    while i < list.len()
        invariant
            i <= list@.len(),
            result@.len() == i,
            forall|k: int| 0 <= k < i ==> (#[trigger] result@[k])@ == typed(list@[k]@),
        decreases list@.len() - i,
    {
        result.push(TypedDiagnostic::from_wire(&list[i]));
        i = i + 1;
    }
    proof {
        assert(typed_models(result@) =~= all_typed(crate::diagnostics::diagnostic_models(list@)));
    }
    result
}

pub fn wire_diagnostics(list: &Vec<TypedDiagnostic>) -> (result: Vec<Diagnostic>)
    ensures
        crate::diagnostics::diagnostic_models(result@) == all_portable(typed_models(list@)),
{
    let mut result: Vec<Diagnostic> = Vec::new();
    let mut i: usize = 0;
    while i < list.len()
        invariant
            i <= list@.len(),
            result@.len() == i,
            forall|k: int| 0 <= k < i ==> (#[trigger] result@[k])@ == portable(list@[k]@),
        decreases list@.len() - i,
    {
        result.push(list[i].wire_diagnostic());
        i = i + 1;
    }
    proof {
        assert(crate::diagnostics::diagnostic_models(result@) =~= all_portable(
            typed_models(list@),
        ));
    }
    result
}

pub fn copy_typed(list: &Vec<TypedDiagnostic>) -> (result: Vec<TypedDiagnostic>)
    ensures
        typed_models(result@) == typed_models(list@),
{
    let mut result: Vec<TypedDiagnostic> = Vec::new();
    let mut i: usize = 0;
    while i < list.len()
        invariant
            i <= list@.len(),
            result@.len() == i,
            forall|k: int| 0 <= k < i ==> (#[trigger] result@[k])@ == list@[k]@,
        decreases list@.len() - i,
    {
        result.push(list[i].copy());
        i = i + 1;
    }
    proof {
        assert(typed_models(result@) =~= typed_models(list@));
    }
    result
}

// ---------------------------------------------------------------------------
// Diagnostics as JSON
// ---------------------------------------------------------------------------
/// An optional text as JSON.
pub open spec fn text_value(value: Option<Seq<char>>) -> Option<JsonModel> {
    match value {
        Some(text) => Some(JsonModel::Text(text)),
        None => None,
    }
}

/// The key of a diagnostic's type.
pub open spec fn type_key() -> Seq<char> {
    "type"@ + "_name"@
}

/// A diagnostic as JSON. What it lacks is left out.
pub open spec fn diagnostic_json(diagnostic: DiagnosticModel) -> JsonModel {
    let m = put(Seq::empty(), "severity"@, Some(JsonModel::Text(diagnostic.severity)));
    let m = put(m, "code"@, Some(JsonModel::Text(diagnostic.code)));
    let m = put(m, "message"@, Some(JsonModel::Text(diagnostic.message)));
    let m = put(m, "path"@, text_value(diagnostic.path));
    let m = put(m, "field"@, text_value(diagnostic.field));
    let m = put(m, type_key(), text_value(diagnostic.record_type));
    let m = put(m, "schema_location"@, text_value(diagnostic.schema_location));
    let m = put(m, "details"@, diagnostic.details);
    JsonModel::Object(m)
}

/// The text of a member that may be missing or null; nothing if it is neither.
pub open spec fn optional_member(value: JsonModel, key: Seq<char>) -> Option<Option<Seq<char>>> {
    match member_of(value, key) {
        None | Some(JsonModel::Null) => Some(None),
        Some(JsonModel::Text(text)) => Some(Some(text)),
        Some(_) => None,
    }
}

/// The value of a member that may be missing or null.
pub open spec fn present_member(value: JsonModel, key: Seq<char>) -> Option<JsonModel> {
    match member_of(value, key) {
        Some(JsonModel::Null) => None,
        other => other,
    }
}

/// The diagnostic that a JSON value stands for.
pub open spec fn diagnostic_of(value: JsonModel) -> Option<DiagnosticModel> {
    match (text_member(value, "severity"@), text_member(value, "code"@), text_member(
        value,
        "message"@,
    ), optional_member(value, "path"@), optional_member(value, "field"@), optional_member(
        value,
        type_key(),
    ), optional_member(value, "schema_location"@)) {
        (
            Some(severity),
            Some(code),
            Some(message),
            Some(path),
            Some(field),
            Some(record_type),
            Some(schema_location),
        ) => Some(
            DiagnosticModel {
                severity,
                code,
                message,
                path,
                field,
                record_type,
                schema_location,
                details: present_member(value, "details"@),
            },
        ),
        _ => None,
    }
}

/// A diagnostic is read back from its JSON as it was.
pub proof fn lemma_diagnostic_roundtrip(diagnostic: DiagnosticModel)
    requires
        diagnostic.details != Some(JsonModel::Null),
    ensures
        diagnostic_of(diagnostic_json(diagnostic)) == Some(diagnostic),
{
    broadcast use crate::json::lemma_put;

    reveal_strlit("severity");
    reveal_strlit("code");
    reveal_strlit("message");
    reveal_strlit("path");
    reveal_strlit("field");
    reveal_strlit("type");
    reveal_strlit("_name");
    reveal_strlit("schema_location");
    reveal_strlit("details");
    assert(type_key()[0] == 't' && type_key().len() == 9);
    assert("path"@[0] == 'p' && "code"@[0] == 'c');
    assert("message"@[0] == 'm' && "details"@[0] == 'd');
}

pub fn text_entry(value: &Option<String>) -> (result: Option<Json>)
    ensures
        optional_json(result) == text_value(optional_text(*value)),
{
    match value {
        Some(value) => Some(Json::text(value.as_str())),
        None => None,
    }
}

pub fn optional_member_of(value: &Json, key: &str) -> (result: Option<Option<String>>)
    ensures
        match result {
            Some(text) => optional_member(value@, key@) == Some(optional_text(text)),
            None => optional_member(value@, key@) is None,
        },
{
    match value.get(key) {
        None | Some(Json::Null) => Some(None),
        Some(Json::Text(text)) => Some(Some(text.clone())),
        Some(_) => None,
    }
}

pub fn present_member_of(value: &Json, key: &str) -> (result: Option<Json>)
    ensures
        optional_json(result) == present_member(value@, key@),
{
    match value.get(key) {
        None | Some(Json::Null) => None,
        Some(present) => Some(present.copy()),
    }
}

pub fn required_text(value: &Json, key: &str) -> (result: Option<String>)
    ensures
        optional_text(result) == text_member(value@, key@),
{
    match value.get_str(key) {
        Some(text) => Some(text.to_owned()),
        None => None,
    }
}

pub fn diagnostic_to_json(diagnostic: &Diagnostic) -> (result: Json)
    ensures
        result@ == diagnostic_json(diagnostic@),
{
    broadcast use lemma_object_model;

    let key = "type".to_owned().concat("_name");
    let mut members = no_members();
    put_entry(&mut members, "severity", Some(Json::text(diagnostic.severity.as_str())));
    put_entry(&mut members, "code", Some(Json::text(diagnostic.code.as_str())));
    put_entry(&mut members, "message", Some(Json::text(diagnostic.message.as_str())));
    put_entry(&mut members, "path", text_entry(&diagnostic.path));
    put_entry(&mut members, "field", text_entry(&diagnostic.field));
    put_entry(&mut members, key.as_str(), text_entry(&diagnostic.record_type));
    put_entry(&mut members, "schema_location", text_entry(&diagnostic.schema_location));
    put_entry(&mut members, "details", copy_optional_json(&diagnostic.details));
    Json::Object(members)
}

pub fn diagnostic_from_json(value: &Json) -> (result: Option<Diagnostic>)
    ensures
        match result {
            Some(diagnostic) => diagnostic_of(value@) == Some(diagnostic@),
            None => diagnostic_of(value@) is None,
        },
{
    let key = "type".to_owned().concat("_name");
    match (
        required_text(value, "severity"),
        required_text(value, "code"),
        required_text(value, "message"),
        optional_member_of(value, "path"),
        optional_member_of(value, "field"),
        optional_member_of(value, key.as_str()),
        optional_member_of(value, "schema_location"),
    ) {
        (
            Some(severity),
            Some(code),
            Some(message),
            Some(path),
            Some(field),
            Some(record_type),
            Some(schema_location),
        ) => Some(
            Diagnostic {
                severity,
                code,
                message,
                path,
                field,
                record_type,
                schema_location,
                details: present_member_of(value, "details"),
            },
        ),
        _ => None,
    }
}

/// Diagnostics as a JSON array.
pub open spec fn diagnostics_json(list: Seq<DiagnosticModel>) -> JsonModel {
    JsonModel::Array(Seq::new(list.len(), |i: int| diagnostic_json(list[i])))
}

/// The diagnostics of a JSON array that holds nothing else.
pub open spec fn diagnostics_of(value: JsonModel) -> Option<Seq<DiagnosticModel>> {
    match value {
        JsonModel::Array(items) => if forall|i: int|
            0 <= i < items.len() ==> diagnostic_of(#[trigger] items[i]) is Some {
            Some(Seq::new(items.len(), |i: int| diagnostic_of(items[i])->0))
        } else {
            None
        },
        _ => None,
    }
}

pub fn diagnostics_to_json(list: &Vec<Diagnostic>) -> (result: Json)
    ensures
        result@ == diagnostics_json(crate::diagnostics::diagnostic_models(list@)),
{
    let mut items: Vec<Json> = Vec::new();
    let mut i: usize = 0;
    while i < list.len()
        invariant
            i <= list@.len(),
            items@.len() == i,
            forall|k: int| 0 <= k < i ==> (#[trigger] items@[k])@ == diagnostic_json(list@[k]@),
        decreases list@.len() - i,
    {
        items.push(diagnostic_to_json(&list[i]));
        i = i + 1;
    }
    proof {
        lemma_array_model(items);
        let models = crate::diagnostics::diagnostic_models(list@);
        assert(item_models(items@) =~= Seq::new(
            models.len(),
            |i: int| diagnostic_json(models[i]),
        ));
    }
    Json::Array(items)
}

pub fn diagnostics_from_json(value: &Json) -> (result: Option<Vec<Diagnostic>>)
    ensures
        match result {
            Some(list) => diagnostics_of(value@) == Some(
                crate::diagnostics::diagnostic_models(list@),
            ),
            None => diagnostics_of(value@) is None,
        },
{
    let items = match value.as_array() {
        Some(items) => items,
        None => {
            return None;
        },
    };
    let mut list: Vec<Diagnostic> = Vec::new();
    let mut i: usize = 0;
    while i < items.len()
        invariant
            i <= items@.len(),
            list@.len() == i,
            value@ == JsonModel::Array(item_models(items@)),
            forall|k: int|
                0 <= k < i ==> diagnostic_of(#[trigger] item_models(items@)[k]) == Some(
                    list@[k]@,
                ),
        decreases items@.len() - i,
    {
        proof {
            assert(item_models(items@)[i as int] == items@[i as int]@);
        }
        match diagnostic_from_json(&items[i]) {
            Some(diagnostic) => list.push(diagnostic),
            None => {
                return None;
            },
        }
        i = i + 1;
    }
    proof {
        assert(diagnostics_of(value@)->0 =~= crate::diagnostics::diagnostic_models(list@));
    }
    Some(list)
}

// ---------------------------------------------------------------------------
// Records
// ---------------------------------------------------------------------------
/// The facts of a record's file.
#[derive(Debug, PartialEq, Eq)]
pub struct RecordFile {
    pub name: String,
    pub folder: String,
    pub size: u64,
    pub mtime: String,
}

/// One complete record.
#[derive(Debug, PartialEq, Eq)]
pub struct RecordDocument {
    pub path: String,
    pub revision: String,
    pub types: Vec<String>,
    pub frontmatter: Json,
    pub effective_frontmatter: Json,
    pub body: String,
    pub document: Option<String>,
    pub file: RecordFile,
}

/// What the facts of a record's file hold.
pub struct RecordFileModel {
    pub name: Seq<char>,
    pub folder: Seq<char>,
    pub size: int,
    pub mtime: Seq<char>,
}

/// What a record holds.
pub struct RecordDocumentModel {
    pub path: Seq<char>,
    pub revision: Seq<char>,
    pub types: Seq<Seq<char>>,
    pub frontmatter: JsonModel,
    pub effective_frontmatter: JsonModel,
    pub body: Seq<char>,
    pub document: Option<Seq<char>>,
    pub file: RecordFileModel,
}

impl View for RecordFile {
    type V = RecordFileModel;

    open spec fn view(&self) -> RecordFileModel {
        RecordFileModel {
            name: self.name@,
            folder: self.folder@,
            size: self.size as int,
            mtime: self.mtime@,
        }
    }
}

impl View for RecordDocument {
    type V = RecordDocumentModel;

    open spec fn view(&self) -> RecordDocumentModel {
        RecordDocumentModel {
            path: self.path@,
            revision: self.revision@,
            types: texts(self.types@),
            frontmatter: self.frontmatter@,
            effective_frontmatter: self.effective_frontmatter@,
            body: self.body@,
            document: optional_text(self.document),
            file: self.file@,
        }
    }
}

impl RecordDocumentModel {
    /// A size is never negative.
    pub open spec fn wf(&self) -> bool {
        self.file.size >= 0
    }
}

/// The facts of a file as JSON.
pub open spec fn file_json(file: RecordFileModel) -> JsonModel {
    let m = put(Seq::empty(), "name"@, Some(JsonModel::Text(file.name)));
    let m = put(m, "folder"@, Some(JsonModel::Text(file.folder)));
    let m = put(m, "size"@, Some(JsonModel::Number(NumberModel::Integer(file.size))));
    let m = put(m, "mtime"@, Some(JsonModel::Text(file.mtime)));
    JsonModel::Object(m)
}

/// The members of a record as JSON.
pub open spec fn record_members(record: RecordDocumentModel) -> Seq<(Seq<char>, JsonModel)> {
    let m = put(Seq::empty(), "path"@, Some(JsonModel::Text(record.path)));
    let m = put(m, "revision"@, Some(JsonModel::Text(record.revision)));
    let m = put(m, "types"@, Some(JsonModel::Array(text_models(record.types))));
    let m = put(m, "frontmatter"@, Some(record.frontmatter));
    let m = put(m, "effective_frontmatter"@, Some(record.effective_frontmatter));
    let m = put(m, "body"@, Some(JsonModel::Text(record.body)));
    let m = put(m, "document"@, text_value(record.document));
    put(m, "file"@, Some(file_json(record.file)))
}

/// The facts of a file that a JSON value stands for.
pub open spec fn file_of(value: JsonModel) -> Option<RecordFileModel> {
    match (text_member(value, "name"@), text_member(value, "folder"@), unsigned_model(
        member_of(value, "size"@),
    ), text_member(value, "mtime"@)) {
        (Some(name), Some(folder), Some(size), Some(mtime)) => Some(
            RecordFileModel { name, folder, size, mtime },
        ),
        _ => None,
    }
}

/// An object among the members.
pub open spec fn object_member(value: JsonModel, key: Seq<char>) -> Option<JsonModel> {
    match member_of(value, key) {
        Some(JsonModel::Object(members)) => Some(JsonModel::Object(members)),
        _ => None,
    }
}

/// The facts of a file among the members.
pub open spec fn file_member(value: JsonModel) -> Option<RecordFileModel> {
    match member_of(value, "file"@) {
        Some(file) => file_of(file),
        None => None,
    }
}

/// The record that a JSON value stands for.
pub open spec fn record_of(value: JsonModel) -> Option<RecordDocumentModel> {
    match (text_member(value, "path"@), text_member(value, "revision"@), text_list(
        member_of(value, "types"@),
    ), member_of(value, "frontmatter"@), member_of(value, "effective_frontmatter"@), text_member(
        value,
        "body"@,
    ), optional_member(value, "document"@), file_member(value)) {
        (
            Some(path),
            Some(revision),
            Some(types),
            Some(frontmatter),
            Some(effective_frontmatter),
            Some(body),
            Some(document),
            Some(file),
        ) => Some(
            RecordDocumentModel {
                path,
                revision,
                types,
                frontmatter,
                effective_frontmatter,
                body,
                document,
                file,
            },
        ),
        _ => None,
    }
}

proof fn lemma_text_list(values: Seq<Seq<char>>)
    ensures
        text_list(Some(JsonModel::Array(text_models(values)))) == Some(values),
{
    let items = text_models(values);
    assert forall|i: int| 0 <= i < items.len() implies (#[trigger] items[i]) is Text by {}
    assert(text_list(Some(JsonModel::Array(items)))->0 =~= values);
}

proof fn lemma_file_roundtrip(file: RecordFileModel)
    requires
        file.size >= 0,
    ensures
        file_of(file_json(file)) == Some(file),
{
    broadcast use crate::json::lemma_put;

    reveal_strlit("name");
    reveal_strlit("folder");
    reveal_strlit("size");
    reveal_strlit("mtime");
    assert("name"@[0] == 'n' && "size"@[0] == 's');
}

/// Members that differ from those of a record do not disturb it.
pub proof fn lemma_record_members(
    members: Seq<(Seq<char>, JsonModel)>,
    record: RecordDocumentModel,
)
    requires
        record.wf(),
        forall|key: Seq<char>|
            key != "from"@ && key != "to"@ && key != "references_updated"@ && key
                != "partial_updates"@ ==> #[trigger] lookup(members, key) == lookup(
                record_members(record),
                key,
            ),
    ensures
        record_of(JsonModel::Object(members)) == Some(record),
{
    broadcast use crate::json::lemma_put;

    reveal_strlit("path");
    reveal_strlit("revision");
    reveal_strlit("types");
    reveal_strlit("frontmatter");
    reveal_strlit("effective_frontmatter");
    reveal_strlit("body");
    reveal_strlit("document");
    reveal_strlit("file");
    reveal_strlit("from");
    reveal_strlit("to");
    reveal_strlit("references_updated");
    reveal_strlit("partial_updates");
    assert("path"@[0] == 'p' && "body"@[0] == 'b' && "file"@[1] == 'i' && "from"@[1] == 'r');
    assert("revision"@[0] == 'r' && "document"@[0] == 'd');
    assert("body"@ != "from"@ && "path"@ != "from"@ && "file"@ != "from"@);
    lemma_text_list(record.types);
    lemma_file_roundtrip(record.file);
    let value = JsonModel::Object(members);
    let stored = record_members(record);
    assert(lookup(stored, "path"@) == Some(JsonModel::Text(record.path)));
    assert(lookup(stored, "revision"@) == Some(JsonModel::Text(record.revision)));
    assert(lookup(stored, "types"@) == Some(JsonModel::Array(text_models(record.types))));
    assert(lookup(stored, "frontmatter"@) == Some(record.frontmatter));
    assert(lookup(stored, "effective_frontmatter"@) == Some(record.effective_frontmatter));
    assert(lookup(stored, "body"@) == Some(JsonModel::Text(record.body)));
    assert(lookup(stored, "document"@) == text_value(record.document));
    assert(lookup(stored, "file"@) == Some(file_json(record.file)));
    assert(member_of(value, "path"@) == lookup(members, "path"@));
}

/// A record is read back from its JSON as it was.
pub proof fn lemma_record_roundtrip(record: RecordDocumentModel)
    requires
        record.wf(),
    ensures
        record_of(JsonModel::Object(record_members(record))) == Some(record),
{
    lemma_record_members(record_members(record), record);
}

impl RecordFile {
    pub fn copy(&self) -> (result: RecordFile)
        ensures
            result@ == self@,
    {
        RecordFile {
            name: self.name.clone(),
            folder: self.folder.clone(),
            size: self.size,
            mtime: self.mtime.clone(),
        }
    }

    fn to_json(&self) -> (result: Json)
        ensures
            result@ == file_json(self@),
    {
        broadcast use lemma_object_model;

        let mut members = no_members();
        put_entry(&mut members, "name", Some(Json::text(self.name.as_str())));
        put_entry(&mut members, "folder", Some(Json::text(self.folder.as_str())));
        put_entry(&mut members, "size", Some(Json::unsigned(self.size)));
        put_entry(&mut members, "mtime", Some(Json::text(self.mtime.as_str())));
        Json::Object(members)
    }

    fn from_json(value: &Json) -> (result: Option<RecordFile>)
        ensures
            match result {
                Some(file) => file_of(value@) == Some(file@),
                None => file_of(value@) is None,
            },
    {
        let size = match value.get("size") {
            Some(size) => size.as_u64(),
            None => None,
        };
        match (
            required_text(value, "name"),
            required_text(value, "folder"),
            size,
            required_text(value, "mtime"),
        ) {
            (Some(name), Some(folder), Some(size), Some(mtime)) => Some(
                RecordFile { name, folder, size, mtime },
            ),
            _ => None,
        }
    }
}

fn member_copy(value: &Json, key: &str) -> (result: Option<Json>)
    ensures
        optional_json(result) == member_of(value@, key@),
{
    match value.get(key) {
        Some(member) => Some(member.copy()),
        None => None,
    }
}

pub fn object_member_of(value: &Json, key: &str) -> (result: Option<Json>)
    ensures
        optional_json(result) == object_member(value@, key@),
{
    broadcast use lemma_object_model;

    match value.get(key) {
        Some(member) => if member.is_object() {
            Some(member.copy())
        } else {
            None
        },
        None => None,
    }
}

impl RecordDocument {
    pub open spec fn wf(&self) -> bool {
        self@.wf()
    }

    pub fn copy(&self) -> (result: RecordDocument)
        ensures
            result@ == self@,
    {
        RecordDocument {
            path: self.path.clone(),
            revision: self.revision.clone(),
            types: copy_texts(&self.types),
            frontmatter: self.frontmatter.copy(),
            effective_frontmatter: self.effective_frontmatter.copy(),
            body: self.body.clone(),
            document: copy_optional(&self.document),
            file: self.file.copy(),
        }
    }

    pub fn members(&self) -> (result: Vec<crate::json::Member>)
        ensures
            member_models(result@) == record_members(self@),
    {
        let mut members = no_members();
        put_entry(&mut members, "path", Some(Json::text(self.path.as_str())));
        put_entry(&mut members, "revision", Some(Json::text(self.revision.as_str())));
        put_entry(&mut members, "types", Some(Json::text_array(&self.types)));
        put_entry(&mut members, "frontmatter", Some(self.frontmatter.copy()));
        put_entry(
            &mut members,
            "effective_frontmatter",
            Some(self.effective_frontmatter.copy()),
        );
        put_entry(&mut members, "body", Some(Json::text(self.body.as_str())));
        put_entry(&mut members, "document", text_entry(&self.document));
        put_entry(&mut members, "file", Some(self.file.to_json()));
        members
    }

    pub fn to_json(&self) -> (result: Json)
        ensures
            result@ == JsonModel::Object(record_members(self@)),
    {
        broadcast use lemma_object_model;

        Json::Object(self.members())
    }

    pub fn from_json(value: &Json) -> (result: Option<RecordDocument>)
        ensures
            match result {
                Some(record) => record_of(value@) == Some(record@) && record.wf(),
                None => record_of(value@) is None,
            },
    {
        let file = match value.get("file") {
            Some(file) => RecordFile::from_json(file),
            None => None,
        };
        match (
            required_text(value, "path"),
            required_text(value, "revision"),
            text_list_of(value.get("types")),
            member_copy(value, "frontmatter"),
            member_copy(value, "effective_frontmatter"),
            required_text(value, "body"),
            optional_member_of(value, "document"),
            file,
        ) {
            (
                Some(path),
                Some(revision),
                Some(types),
                Some(frontmatter),
                Some(effective_frontmatter),
                Some(body),
                Some(document),
                Some(file),
            ) => Some(
                RecordDocument {
                    path,
                    revision,
                    types,
                    frontmatter,
                    effective_frontmatter,
                    body,
                    document,
                    file,
                },
            ),
            _ => None,
        }
    }
}

} // verus!
