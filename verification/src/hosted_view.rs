//! Planning of saved views.

use crate::canonical::{digest_json, json_digest};
use crate::diagnostics::{
    error_diagnostic, failed_operation, CatalogError, Diagnostic, OperationResult,
};
use crate::catalog::ExactRecord;
use crate::digest::digest_of;
use crate::hosted_compile::query_fault;
use crate::hosted_mutation::fault_of;
use crate::hosted_plan::HostedQueryPlan;
use crate::hosted_query::{semantic_members, CompiledCatalog, QueryFacts};
use crate::json::{lemma_object_model, no_members, put, put_entry, text_member, Json, JsonModel};
use crate::text::{concat3, copy_optional, ends_with, has_suffix, optional_text, same_text};
use vstd::prelude::*;
use vstd::string::StringExecFns;
use vstd::utf8::encode_utf8;

verus! {

/// The plan of a saved view.
#[derive(Debug)]
pub struct HostedCanonicalViewPlan {
    pub query: HostedQueryPlan,
    pub view_path: String,
    pub view_id: String,
    pub view_revision: String,
    pub context_path: Option<String>,
    pub context_revision: Option<String>,
    pub invocation_digest: String,
}

#[derive(Debug)]
pub enum HostedCanonicalViewPlanning {
    Planned { plan: HostedCanonicalViewPlan },
    Invalid { result: OperationResult },
}

/// A saved view as it was prepared for its query.
#[derive(Debug)]
pub struct PreparedView {
    pub view_path: String,
    pub view_id: String,
    pub context_path: Option<String>,
    pub query: Json,
}

/// What is known of a saved view and its context.
#[derive(Debug)]
pub struct ViewFacts {
    pub prepared: Result<PreparedView, OperationResult>,
    /// Why the context does not suit the view.
    pub context_fault: Option<OperationResult>,
    /// What is known of the view's query.
    pub query: QueryFacts,
}

/// Whether planning was refused with one diagnostic.
pub open spec fn refuses_view(
    result: Result<HostedCanonicalViewPlanning, CatalogError>,
    code: Seq<char>,
    message: Seq<char>,
    field: Seq<char>,
) -> bool {
    match result {
        Ok(HostedCanonicalViewPlanning::Invalid { result }) => result@ == failed_operation(
            error_diagnostic(code, message, Some(field)),
        ),
        _ => false,
    }
}

fn invalid(code: &str, message: &str, field: &str) -> (result: HostedCanonicalViewPlanning)
    ensures
        refuses_view(Ok::<_, CatalogError>(result), code@, message@, field@),
{
    HostedCanonicalViewPlanning::Invalid {
        result: OperationResult::failed(
            Diagnostic::error(code, message, Some(field.to_owned())),
        ),
    }
}

/// The path that an input asks for.
pub open spec fn requested_path(input: JsonModel) -> Seq<char> {
    match text_member(input, "path"@) {
        Some(path) => path,
        None => Seq::empty(),
    }
}

/// The context of a view: none, the view itself, or the supplied record.
pub enum ViewContext {
    Absent,
    Itself,
    Supplied,
    Missing,
}

pub open spec fn context_of_view(
    prepared: PreparedView,
    view: ExactRecord,
    context: Option<&ExactRecord>,
) -> ViewContext {
    match prepared.context_path {
        None => ViewContext::Absent,
        Some(path) => if path@ == view.record.path@ {
            ViewContext::Itself
        } else {
            match context {
                Some(record) => if record.record.path@ == path@ {
                    ViewContext::Supplied
                } else {
                    ViewContext::Missing
                },
                None => ViewContext::Missing,
            }
        },
    }
}

/// The revision of an exact record: that of its document's bytes.
pub open spec fn revision_of_record(record: ExactRecord) -> Seq<char> {
    digest_of(encode_utf8(record.record.document@))
}

/// The revision of a view's context.
pub open spec fn context_revision_of(
    context: ViewContext,
    view: ExactRecord,
    supplied: Option<&ExactRecord>,
) -> Option<Seq<char>> {
    match context {
        ViewContext::Itself => Some(revision_of_record(view)),
        ViewContext::Supplied => Some(revision_of_record(*supplied->0)),
        _ => None,
    }
}

/// An optional text as JSON, with null for none.
pub open spec fn text_or_null(value: Option<Seq<char>>) -> Option<JsonModel> {
    match value {
        Some(text) => Some(JsonModel::Text(text)),
        None => Some(JsonModel::Null),
    }
}

/// What identifies the invocation of a view.
pub open spec fn invocation_json(
    prepared: PreparedView,
    view_revision: Seq<char>,
    context_revision: Option<Seq<char>>,
    query_digest: Seq<char>,
) -> JsonModel {
    let m = put(
        Seq::empty(),
        "schema"@,
        Some(JsonModel::Text("mdbase.hosted-canonical-view-invocation.v1"@)),
    );
    let m = put(m, "view_path"@, Some(JsonModel::Text(prepared.view_path@)));
    let m = put(m, "view_id"@, Some(JsonModel::Text(prepared.view_id@)));
    let m = put(m, "view_revision"@, Some(JsonModel::Text(view_revision)));
    let m = put(m, "context_path"@, text_or_null(optional_text(prepared.context_path)));
    let m = put(m, "context_revision"@, text_or_null(context_revision));
    JsonModel::Object(put(m, "query_plan_digest"@, Some(JsonModel::Text(query_digest))))
}

fn null_entry(value: &Option<String>) -> (result: Option<Json>)
    ensures
        crate::diagnostics::optional_json(result) == text_or_null(optional_text(*value)),
{
    match value {
        Some(value) => Some(Json::text(value.as_str())),
        None => Some(Json::Null),
    }
}

fn invocation(
    prepared: &PreparedView,
    view_revision: &str,
    context_revision: &Option<String>,
    query_digest: &str,
) -> (result: Json)
    ensures
        result@ == invocation_json(
            *prepared,
            view_revision@,
            optional_text(*context_revision),
            query_digest@,
        ),
{
    broadcast use lemma_object_model;

    let mut members = no_members();
    put_entry(
        &mut members,
        "schema",
        Some(Json::text("mdbase.hosted-canonical-view-invocation.v1")),
    );
    put_entry(&mut members, "view_path", Some(Json::text(prepared.view_path.as_str())));
    put_entry(&mut members, "view_id", Some(Json::text(prepared.view_id.as_str())));
    put_entry(&mut members, "view_revision", Some(Json::text(view_revision)));
    put_entry(&mut members, "context_path", null_entry(&prepared.context_path));
    put_entry(&mut members, "context_revision", null_entry(context_revision));
    put_entry(&mut members, "query_plan_digest", Some(Json::text(query_digest)));
    Json::Object(members)
}

impl CompiledCatalog {
    /// Whether planning gave what a prepared view and its context call for.
    pub open spec fn plans_view(
        &self,
        result: Result<HostedCanonicalViewPlanning, CatalogError>,
        prepared: PreparedView,
        view: ExactRecord,
        context: ViewContext,
        supplied: Option<&ExactRecord>,
        facts: ViewFacts,
    ) -> bool {
        match facts.context_fault {
            Some(found) => match result {
                Ok(HostedCanonicalViewPlanning::Invalid { result }) => result@ == found@,
                _ => false,
            },
            None => match result {
                Ok(HostedCanonicalViewPlanning::Planned { plan }) => {
                    let revision = context_revision_of(context, view, supplied);
                    &&& query_fault(prepared.query@, facts.query) is None
                    &&& self.is_plan(plan.query, prepared.query@, facts.query)
                    &&& plan.view_path@ == prepared.view_path@
                    &&& plan.view_id@ == prepared.view_id@
                    &&& plan.view_revision@ == revision_of_record(view)
                    &&& optional_text(plan.context_path) == optional_text(prepared.context_path)
                    &&& optional_text(plan.context_revision) == revision
                    &&& json_digest(
                        invocation_json(
                            prepared,
                            revision_of_record(view),
                            revision,
                            plan.query.plan_digest@,
                        ),
                    ) == Some(plan.invocation_digest@)
                },
                Ok(HostedCanonicalViewPlanning::Invalid { result: found }) => match query_fault(
                    prepared.query@,
                    facts.query,
                ) {
                    Some((code, message)) => refuses_view(
                        result,
                        code,
                        message,
                        prepared.view_path@,
                    ),
                    None => found@.diagnostics.len() == 1 && !found@.valid && (
                    found@.diagnostics[0].code == "invalid_query"@ && json_digest(
                        JsonModel::Object(semantic_members(prepared.query@->Object_0)),
                    ) is None || found@.diagnostics[0].code == "invalid_hosted_query_plan"@
                        && self.has_no_digest(prepared.query@, facts.query)),
                },
                Err(error) => query_fault(prepared.query@, facts.query) is None
                    && error.code@ == "hosted_view_plan_failed"@ && exists|plan: HostedQueryPlan|
                    #[trigger]
                    self.is_plan(plan, prepared.query@, facts.query) && json_digest(
                        invocation_json(
                            prepared,
                            revision_of_record(view),
                            context_revision_of(context, view, supplied),
                            plan.plan_digest@,
                        ),
                    ) is None,
            },
        }
    }

    /// Plans a saved view: its query on its context record.
    pub fn plan_hosted_canonical_view(
        &self,
        input: &Json,
        view_record: &ExactRecord,
        context_record: Option<&ExactRecord>,
        facts: &ViewFacts,
    ) -> (result: Result<HostedCanonicalViewPlanning, CatalogError>)
        ensures
            if requested_path(input@) != view_record.record.path@ {
                refuses_view(
                    result,
                    "view_not_found"@,
                    "The requested saved view does not match the supplied exact record."@,
                    requested_path(input@),
                )
            } else if has_suffix(requested_path(input@), ".base"@) {
                refuses_view(
                    result,
                    "unsupported_hosted_view_format"@,
                    "Obsidian Base execution requires the dedicated hosted Base planner."@,
                    requested_path(input@),
                )
            } else {
                match (view_record.classification(), facts.prepared) {
                    (Err(fault), _) => result is Err && fault_of(result->Err_0) == fault,
                    (Ok(_), Err(found)) => match result {
                        Ok(HostedCanonicalViewPlanning::Invalid { result }) => result@ == found@,
                        _ => false,
                    },
                    (Ok(_), Ok(prepared)) => match context_of_view(
                        prepared,
                        *view_record,
                        context_record,
                    ) {
                        ViewContext::Missing => refuses_view(
                            result,
                            "context_not_found"@,
                            "Query context record '"@ + (prepared.context_path->0)@
                                + "' was not found."@,
                            (prepared.context_path->0)@,
                        ),
                        ViewContext::Supplied => match context_record->0.classification() {
                            Err(fault) => result is Err && fault_of(result->Err_0) == fault,
                            Ok(_) => self.plans_view(
                                result,
                                prepared,
                                *view_record,
                                ViewContext::Supplied,
                                context_record,
                                *facts,
                            ),
                        },
                        context => self.plans_view(
                            result,
                            prepared,
                            *view_record,
                            context,
                            context_record,
                            *facts,
                        ),
                    },
                }
            },
    {
        let requested = match input.get_str("path") {
            Some(path) => path.to_owned(),
            None => {
                proof {
                    reveal_strlit("");
                    assert(""@ =~= Seq::empty());
                }
                "".to_owned()
            },
        };
        if !same_text(requested.as_str(), view_record.record.path.as_str()) {
            return Ok(
                invalid(
                    "view_not_found",
                    "The requested saved view does not match the supplied exact record.",
                    requested.as_str(),
                ),
            );
        }
        if ends_with(requested.as_str(), ".base") {
            return Ok(
                invalid(
                    "unsupported_hosted_view_format",
                    "Obsidian Base execution requires the dedicated hosted Base planner.",
                    requested.as_str(),
                ),
            );
        }
        let view = match self.classify_exact(view_record) {
            Ok(view) => view,
            Err(error) => {
                return Err(error);
            },
        };
        let prepared = match &facts.prepared {
            Ok(prepared) => prepared,
            Err(found) => {
                return Ok(HostedCanonicalViewPlanning::Invalid { result: found.copy() });
            },
        };
        let context_revision = match &prepared.context_path {
            None => None,
            Some(path) => {
                if same_text(path.as_str(), view_record.record.path.as_str()) {
                    Some(view.revision.clone())
                } else {
                    let supplied = match context_record {
                        Some(exact) => if same_text(exact.record.path.as_str(), path.as_str()) {
                            Some(exact)
                        } else {
                            None
                        },
                        None => None,
                    };
                    match supplied {
                        None => {
                            return Ok(
                                invalid(
                                    "context_not_found",
                                    concat3(
                                        "Query context record '",
                                        path.as_str(),
                                        "' was not found.",
                                    ).as_str(),
                                    path.as_str(),
                                ),
                            );
                        },
                        Some(exact) => match self.classify_exact(exact) {
                            Ok(context) => Some(context.revision),
                            Err(error) => {
                                return Err(error);
                            },
                        },
                    }
                }
            },
        };
        if let Some(found) = &facts.context_fault {
            return Ok(HostedCanonicalViewPlanning::Invalid { result: found.copy() });
        }
        let query = match self.compile_hosted_query(&prepared.query, &facts.query) {
            Ok(query) => query,
            Err(error) => {
                return Ok(
                    invalid(
                        error.code.as_str(),
                        error.message.as_str(),
                        prepared.view_path.as_str(),
                    ),
                );
            },
        };
        let value = invocation(
            prepared,
            view.revision.as_str(),
            &context_revision,
            query.plan_digest.as_str(),
        );
        let invocation_digest = match digest_json(&value) {
            Ok(digest) => digest,
            Err(message) => {
                return Err(
                    CatalogError::new(
                        "hosted_view_plan_failed",
                        "Saved-view invocation could not be canonicalized: ".to_owned().concat(
                            message.as_str(),
                        ).as_str(),
                    ),
                );
            },
        };
        Ok(
            HostedCanonicalViewPlanning::Planned {
                plan: HostedCanonicalViewPlan {
                    query,
                    view_path: prepared.view_path.clone(),
                    view_id: prepared.view_id.clone(),
                    view_revision: view.revision.clone(),
                    context_path: copy_optional(&prepared.context_path),
                    context_revision,
                    invocation_digest,
                },
            },
        )
    }
}

} // verus!
