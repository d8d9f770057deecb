//! Diagnostics, operation envelopes, and catalog errors.

use crate::json::{Json, JsonModel};
use crate::text::{copy_optional, optional_text};
use vstd::prelude::*;

verus! {

/// One diagnostic in its portable form.
#[derive(Debug, PartialEq, Eq)]
pub struct Diagnostic {
    pub severity: String,
    pub code: String,
    pub message: String,
    pub path: Option<String>,
    pub field: Option<String>,
    pub record_type: Option<String>,
    pub schema_location: Option<String>,
    pub details: Option<Json>,
}

/// What a diagnostic holds.
pub struct DiagnosticModel {
    pub severity: Seq<char>,
    pub code: Seq<char>,
    pub message: Seq<char>,
    pub path: Option<Seq<char>>,
    pub field: Option<Seq<char>>,
    pub record_type: Option<Seq<char>>,
    pub schema_location: Option<Seq<char>>,
    pub details: Option<JsonModel>,
}

/// What an optional JSON value holds.
pub open spec fn optional_json(value: Option<Json>) -> Option<JsonModel> {
    match value {
        Some(value) => Some(value@),
        None => None,
    }
}

/// A copy of an optional JSON value.
pub fn copy_optional_json(value: &Option<Json>) -> (result: Option<Json>)
    ensures
        optional_json(result) == optional_json(*value),
{
    match value {
        Some(value) => Some(value.copy()),
        None => None,
    }
}

impl View for Diagnostic {
    type V = DiagnosticModel;

    open spec fn view(&self) -> DiagnosticModel {
        DiagnosticModel {
            severity: self.severity@,
            code: self.code@,
            message: self.message@,
            path: optional_text(self.path),
            field: optional_text(self.field),
            record_type: optional_text(self.record_type),
            schema_location: optional_text(self.schema_location),
            details: optional_json(self.details),
        }
    }
}

/// What a list of diagnostics holds.
pub open spec fn diagnostic_models(list: Seq<Diagnostic>) -> Seq<DiagnosticModel> {
    Seq::new(list.len(), |i: int| list[i]@)
}

/// The diagnostic of an error: a code, a message, and the path it concerns.
pub open spec fn error_diagnostic(
    code: Seq<char>,
    message: Seq<char>,
    path: Option<Seq<char>>,
) -> DiagnosticModel {
    DiagnosticModel {
        severity: "error"@,
        code,
        message,
        path,
        field: None,
        record_type: None,
        schema_location: None,
        details: None,
    }
}

impl Diagnostic {
    pub fn error(code: &str, message: &str, path: Option<String>) -> (result: Diagnostic)
        ensures
            result@ == error_diagnostic(code@, message@, optional_text(path)),
    {
        Diagnostic {
            severity: "error".to_owned(),
            code: code.to_owned(),
            message: message.to_owned(),
            path,
            field: None,
            record_type: None,
            schema_location: None,
            details: None,
        }
    }

    /// A copy of the diagnostic.
    pub fn copy(&self) -> (result: Diagnostic)
        ensures
            result@ == self@,
    {
        Diagnostic {
            severity: self.severity.clone(),
            code: self.code.clone(),
            message: self.message.clone(),
            path: copy_optional(&self.path),
            field: copy_optional(&self.field),
            record_type: copy_optional(&self.record_type),
            schema_location: copy_optional(&self.schema_location),
            details: copy_optional_json(&self.details),
        }
    }
}

/// A copy of a list of diagnostics.
pub fn copy_diagnostics(list: &Vec<Diagnostic>) -> (result: Vec<Diagnostic>)
    ensures
        diagnostic_models(result@) == diagnostic_models(list@),
{
    let mut result: Vec<Diagnostic> = Vec::new();
    append_diagnostics(&mut result, list);
    proof {
        assert(diagnostic_models(result@) =~= diagnostic_models(list@));
    }
    result
}

/// Adds copies of diagnostics at the end of a list.
pub fn append_diagnostics(list: &mut Vec<Diagnostic>, more: &Vec<Diagnostic>)
    ensures
        diagnostic_models(final(list)@) == diagnostic_models(old(list)@) + diagnostic_models(more@),
{
    let ghost before = list@;
    let mut i: usize = 0;
    while i < more.len()
        invariant
            i <= more@.len(),
            before == old(list)@,
            list@.len() == before.len() + i,
            forall|k: int| 0 <= k < before.len() ==> (#[trigger] list@[k])@ == before[k]@,
            forall|k: int| 0 <= k < i ==> (#[trigger] list@[before.len() + k])@ == more@[k]@,
        decreases more@.len() - i,
    {
        list.push(more[i].copy());
        i = i + 1;
    }
    proof {
        let expected = diagnostic_models(before) + diagnostic_models(more@);
        assert forall|k: int| 0 <= k < expected.len() implies diagnostic_models(list@)[k]
            == expected[k] by {
            if k >= before.len() {
                assert(list@[before.len() + (k - before.len())]@ == more@[k - before.len()]@);
            }
        }
        assert(diagnostic_models(list@) =~= expected);
    }
}

/// The portable envelope of an operation's result.
#[derive(Debug, PartialEq, Eq)]
pub struct OperationResult {
    pub valid: bool,
    pub result: Json,
    pub diagnostics: Vec<Diagnostic>,
}

/// What an operation envelope holds.
pub struct OperationModel {
    pub valid: bool,
    pub result: JsonModel,
    pub diagnostics: Seq<DiagnosticModel>,
}

impl View for OperationResult {
    type V = OperationModel;

    open spec fn view(&self) -> OperationModel {
        OperationModel {
            valid: self.valid,
            result: self.result@,
            diagnostics: diagnostic_models(self.diagnostics@),
        }
    }
}

/// The envelope of a failure with one diagnostic.
pub open spec fn failed_operation(diagnostic: DiagnosticModel) -> OperationModel {
    OperationModel {
        valid: false,
        result: JsonModel::Object(Seq::empty()),
        diagnostics: seq![diagnostic],
    }
}

impl OperationResult {
    pub fn copy(&self) -> (result: OperationResult)
        ensures
            result@ == self@,
    {
        OperationResult {
            valid: self.valid,
            result: self.result.copy(),
            diagnostics: copy_diagnostics(&self.diagnostics),
        }
    }

    /// The envelope of a failure with one diagnostic.
    pub fn failed(diagnostic: Diagnostic) -> (result: OperationResult)
        ensures
            result@ == failed_operation(diagnostic@),
    {
        let mut diagnostics: Vec<Diagnostic> = Vec::new();
        diagnostics.push(diagnostic);
        proof {
            assert(diagnostic_models(diagnostics@) =~= seq![diagnostic@]);
        }
        OperationResult { valid: false, result: Json::empty_object(), diagnostics }
    }
}

/// An error of catalog work: a code and a message.
#[derive(Debug, Clone, PartialEq, Eq)]
pub struct CatalogError {
    pub code: String,
    pub message: String,
}

impl CatalogError {
    pub fn new(code: &str, message: &str) -> (result: CatalogError)
        ensures
            result.is(code@, message@),
    {
        CatalogError { code: code.to_owned(), message: message.to_owned() }
    }

    /// Whether the error has this code and this message.
    pub open spec fn is(&self, code: Seq<char>, message: Seq<char>) -> bool {
        self.code@ == code && self.message@ == message
    }

    /// The error as text: the code, a colon, and the message.
    pub fn to_text(&self) -> (result: String)
        ensures
            result@ == self.code@ + ": "@ + self.message@,
    {
        crate::text::concat3(self.code.as_str(), ": ", self.message.as_str())
    }
}

} // verus!
