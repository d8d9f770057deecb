//! Obsidian Base plans: planning, evaluation of one record, and row order.

use crate::base_graph::{
    are_files, are_resolutions, is_neighborhood, link_pairs, link_resolutions, populate_backlinks,
    projections_of, sort_neighborhood, BasesFile, LinkResolution,
};
use crate::cache_source::{all_ascii_lower, lower_ascii_all};
use crate::canonical::{
    canonical_or_empty, canonical_text_or_empty, compact_text, digest_json, json_digest,
    to_compact_text,
};
use crate::diagnostics::{
    copy_diagnostics, diagnostic_models, error_diagnostic, failed_operation, CatalogError,
    Diagnostic, DiagnosticModel, OperationModel, OperationResult,
};
use crate::digest::{digest_of, revision};
use crate::hosted_plan::optional_count;
use crate::hosted_query::CompiledCatalog;
use crate::json::{
    copy_members, copy_or_null, find_member, item_models, lookup, member_models, or_null,
    put_member, text_models, with_member, Json, JsonModel, Member,
};
use crate::ordering::{base_order, compare_base_values};
use crate::projection::{CanonicalRecordInput, SemanticProjection};
use crate::results::{count_value, text_or_null};
use crate::sorting::{arranged, sorted_positions, stably_sorted, Comparison};
use crate::text::{
    compare_text, concat3, contains_text, copy_optional, copy_texts, ends_with,
    eq_ignore_ascii_case, has_part, has_suffix, insert_text, is_sorted_set, list_contains,
    lists_share_ignoring_case, lists_text, optional_text, same_ignoring_case, same_text,
    share_ignoring_case, sorted_distinct, text_order, texts, Order,
};
use vstd::prelude::*;
use vstd::string::StringExecFns;

verus! {

pub const HOSTED_BASE_PLAN_VERSION: u32 = 1;

pub const MAX_HOSTED_BASE_RELATED_RECORDS: usize = 4_096;

/// What a Base needs of the provider.
#[derive(Debug, Clone, Copy, PartialEq, Eq, Structural)]
pub struct HostedBaseRequirements {
    pub backlinks: bool,
    pub outgoing_relationships: bool,
    pub link_resolution: bool,
    pub query_context: bool,
    pub max_relationship_depth: u8,
}

/// A property and a direction.
#[derive(Debug)]
pub struct BaseTerm {
    pub property: String,
    pub direction: String,
}

/// One named view of a Base.
#[derive(Debug)]
pub struct BaseView {
    /// The view as it is written in the document.
    pub source: Json,
    pub order: Vec<String>,
    pub sort: Vec<BaseTerm>,
    pub group_by: Option<BaseTerm>,
    pub limit: Option<u64>,
}

/// A planned Base.
#[derive(Debug)]
pub struct HostedBasePlan {
    pub plan_version: u32,
    pub catalog_revision: String,
    pub view_path: String,
    pub view_id: String,
    pub view_revision: String,
    pub document: Json,
    pub view: BaseView,
    pub context_path: Option<String>,
    pub timezone: Option<String>,
    pub allowed_types: Vec<String>,
    pub offset: u64,
    pub suggested_page_size: Option<u64>,
    pub requirements: HostedBaseRequirements,
    pub invocation_digest: String,
}

/// What planning a Base gave.
#[derive(Debug)]
pub enum HostedBasePlanning {
    Planned { plan: Box<HostedBasePlan> },
    Invalid { result: OperationResult },
}

/// The projections that one record is evaluated with. `related` may hold records
/// that turn out not to matter, but must not lack any that do.
#[derive(Debug)]
pub struct HostedBaseRecordContext {
    pub projection: SemanticProjection,
    pub related: Vec<SemanticProjection>,
    /// Whether the provider completed its relationship lookup for this record.
    pub relationship_neighborhood_complete: bool,
    pub query_context: Option<SemanticProjection>,
}

/// One row of a Base.
#[derive(Debug)]
pub struct HostedBaseRow {
    pub path: String,
    pub file: Json,
    pub effective_frontmatter: Vec<Member>,
    pub types: Vec<String>,
    pub values: Vec<Member>,
    /// The values that rows are ordered by.
    pub sort_values: Vec<Member>,
    pub group_value: Option<Json>,
}

/// What evaluating a record gave.
#[derive(Debug)]
pub enum HostedBaseEvaluation {
    Included { row: Box<HostedBaseRow> },
    Excluded { diagnostics: Vec<Diagnostic> },
}

// ---------------------------------------------------------------------------
// The plan's digest
// ---------------------------------------------------------------------------
/// A term as a JSON value.
pub open spec fn term_value(term: BaseTerm) -> JsonModel {
    let m = with_member(Seq::empty(), "property"@, JsonModel::Text(term.property@));
    JsonModel::Object(with_member(m, "direction"@, JsonModel::Text(term.direction@)))
}

fn term_to_json(term: &BaseTerm) -> (result: Json)
    ensures
        result@ == term_value(*term),
{
    broadcast use crate::json::lemma_object_model;

    let mut m: Vec<Member> = Vec::new();
    proof {
        assert(member_models(m@) =~= Seq::empty());
    }
    put_member(&mut m, "property", Json::text(term.property.as_str()));
    put_member(&mut m, "direction", Json::text(term.direction.as_str()));
    Json::Object(m)
}

/// The values of a list of terms.
pub open spec fn term_values(terms: Seq<BaseTerm>) -> Seq<JsonModel> {
    Seq::new(terms.len(), |i: int| term_value(terms[i]))
}

fn terms_to_json(terms: &Vec<BaseTerm>) -> (result: Json)
    ensures
        result@ == JsonModel::Array(term_values(terms@)),
{
    let mut list: Vec<Json> = Vec::new();
    let mut i: usize = 0;
    while i < terms.len()
        invariant
            i <= terms@.len(),
            list@.len() == i,
            forall|k: int| 0 <= k < i ==> (#[trigger] list@[k])@ == term_value(terms@[k]),
        decreases terms@.len() - i,
    {
        list.push(term_to_json(&terms[i]));
        i = i + 1;
    }
    proof {
        crate::json::lemma_array_model(list);
        assert(item_models(list@) =~= term_values(terms@));
    }
    Json::Array(list)
}

/// A view as a JSON value.
pub open spec fn view_value(view: BaseView) -> JsonModel {
    let m = with_member(Seq::empty(), "source"@, view.source@);
    let m = with_member(m, "order"@, JsonModel::Array(text_models(texts(view.order@))));
    let m = with_member(m, "sort"@, JsonModel::Array(term_values(view.sort@)));
    let m = with_member(
        m,
        "group_by"@,
        match view.group_by {
            Some(term) => term_value(term),
            None => JsonModel::Null,
        },
    );
    JsonModel::Object(with_member(m, "limit"@, optional_count(view.limit)))
}

fn optional_count_to_json(value: Option<u64>) -> (result: Json)
    ensures
        result@ == optional_count(value),
{
    match value {
        Some(value) => Json::unsigned(value),
        None => Json::Null,
    }
}

fn view_to_json(view: &BaseView) -> (result: Json)
    ensures
        result@ == view_value(*view),
{
    broadcast use crate::json::lemma_object_model;

    let mut m: Vec<Member> = Vec::new();
    proof {
        assert(member_models(m@) =~= Seq::empty());
    }
    put_member(&mut m, "source", view.source.copy());
    put_member(&mut m, "order", Json::text_array(&view.order));
    put_member(&mut m, "sort", terms_to_json(&view.sort));
    put_member(
        &mut m,
        "group_by",
        match &view.group_by {
            Some(term) => term_to_json(term),
            None => Json::Null,
        },
    );
    put_member(&mut m, "limit", optional_count_to_json(view.limit));
    Json::Object(m)
}

/// Requirements as a JSON value.
pub open spec fn requirements_value(requirements: HostedBaseRequirements) -> JsonModel {
    let r = requirements;
    let m = with_member(Seq::empty(), "backlinks"@, JsonModel::Bool(r.backlinks));
    let m = with_member(m, "outgoing_relationships"@, JsonModel::Bool(r.outgoing_relationships));
    let m = with_member(m, "link_resolution"@, JsonModel::Bool(r.link_resolution));
    let m = with_member(m, "query_context"@, JsonModel::Bool(r.query_context));
    JsonModel::Object(
        with_member(m, "max_relationship_depth"@, count_value(r.max_relationship_depth as int)),
    )
}

fn requirements_to_json(r: &HostedBaseRequirements) -> (result: Json)
    ensures
        result@ == requirements_value(*r),
{
    broadcast use crate::json::lemma_object_model;

    let mut m: Vec<Member> = Vec::new();
    proof {
        assert(member_models(m@) =~= Seq::empty());
    }
    put_member(&mut m, "backlinks", Json::Bool(r.backlinks));
    put_member(&mut m, "outgoing_relationships", Json::Bool(r.outgoing_relationships));
    put_member(&mut m, "link_resolution", Json::Bool(r.link_resolution));
    put_member(&mut m, "query_context", Json::Bool(r.query_context));
    put_member(&mut m, "max_relationship_depth", Json::unsigned(r.max_relationship_depth as u64));
    Json::Object(m)
}

/// An optional text as a member, where there is one.
pub open spec fn with_optional(
    members: Seq<(Seq<char>, JsonModel)>,
    key: Seq<char>,
    value: Option<Seq<char>>,
) -> Seq<(Seq<char>, JsonModel)> {
    match value {
        Some(text) => with_member(members, key, JsonModel::Text(text)),
        None => members,
    }
}

fn put_optional(members: &mut Vec<Member>, key: &str, value: &Option<String>)
    ensures
        member_models(final(members)@) == with_optional(
            member_models(old(members)@),
            key@,
            optional_text(*value),
        ),
{
    if let Some(text) = value {
        put_member(members, key, Json::text(text.as_str()));
    }
}

/// The plan as a JSON value, with an empty invocation digest.
pub open spec fn unsigned_base_plan(plan: HostedBasePlan) -> JsonModel {
    let m = with_member(Seq::empty(), "plan_version"@, count_value(plan.plan_version as int));
    let m = with_member(m, "catalog_revision"@, JsonModel::Text(plan.catalog_revision@));
    let m = with_member(m, "view_path"@, JsonModel::Text(plan.view_path@));
    let m = with_member(m, "view_id"@, JsonModel::Text(plan.view_id@));
    let m = with_member(m, "view_revision"@, JsonModel::Text(plan.view_revision@));
    let m = with_member(m, "document"@, plan.document@);
    let m = with_member(m, "view"@, view_value(plan.view));
    let m = with_optional(m, "context_path"@, optional_text(plan.context_path));
    let m = with_optional(m, "timezone"@, optional_text(plan.timezone));
    let m = if plan.allowed_types@.len() > 0 {
        with_member(
            m,
            "allowed_types"@,
            JsonModel::Array(text_models(texts(plan.allowed_types@))),
        )
    } else {
        m
    };
    let m = with_member(m, "offset"@, count_value(plan.offset as int));
    let m = match plan.suggested_page_size {
        Some(size) => with_member(m, "suggested_page_size"@, count_value(size as int)),
        None => m,
    };
    let m = with_member(m, "requirements"@, requirements_value(plan.requirements));
    JsonModel::Object(with_member(m, "invocation_digest"@, JsonModel::Text(Seq::empty())))
}

/// Whether a plan carries its version and its own digest.
pub open spec fn is_sealed_base(plan: HostedBasePlan) -> bool {
    plan.plan_version == HOSTED_BASE_PLAN_VERSION && json_digest(unsigned_base_plan(plan)) == Some(
        plan.invocation_digest@,
    )
}

/// The error of a plan whose version or digest does not hold.
pub open spec fn is_integrity_error(plan: HostedBasePlan, error: CatalogError) -> bool {
    if plan.plan_version == HOSTED_BASE_PLAN_VERSION && json_digest(
        unsigned_base_plan(plan),
    ) is None {
        error.code@ == "hosted_base_plan_failed"@
    } else {
        error.is(
            "hosted_base_plan_mismatch"@,
            "Stored Obsidian Base plan failed its version or digest binding."@,
        )
    }
}

impl HostedBasePlan {
    fn unsigned_json(&self) -> (result: Json)
        ensures
            result@ == unsigned_base_plan(*self),
    {
        broadcast use crate::json::lemma_object_model;

        let empty = String::new();
        let mut m: Vec<Member> = Vec::new();
        proof {
            assert(member_models(m@) =~= Seq::empty());
        }
        put_member(&mut m, "plan_version", Json::unsigned(self.plan_version as u64));
        put_member(&mut m, "catalog_revision", Json::text(self.catalog_revision.as_str()));
        put_member(&mut m, "view_path", Json::text(self.view_path.as_str()));
        put_member(&mut m, "view_id", Json::text(self.view_id.as_str()));
        put_member(&mut m, "view_revision", Json::text(self.view_revision.as_str()));
        put_member(&mut m, "document", self.document.copy());
        put_member(&mut m, "view", view_to_json(&self.view));
        put_optional(&mut m, "context_path", &self.context_path);
        put_optional(&mut m, "timezone", &self.timezone);
        if self.allowed_types.len() > 0 {
            put_member(&mut m, "allowed_types", Json::text_array(&self.allowed_types));
        }
        put_member(&mut m, "offset", Json::unsigned(self.offset));
        if let Some(size) = self.suggested_page_size {
            put_member(&mut m, "suggested_page_size", Json::unsigned(size));
        }
        put_member(&mut m, "requirements", requirements_to_json(&self.requirements));
        put_member(&mut m, "invocation_digest", Json::text(empty.as_str()));
        Json::Object(m)
    }

    fn digest_plan(&self) -> (result: Result<String, CatalogError>)
        ensures
            match result {
                Ok(digest) => json_digest(unsigned_base_plan(*self)) == Some(digest@),
                Err(error) => json_digest(unsigned_base_plan(*self)) is None && error.code@
                    == "hosted_base_plan_failed"@,
            },
    {
        match digest_json(&self.unsigned_json()) {
            Ok(digest) => Ok(digest),
            Err(reason) => Err(
                CatalogError {
                    code: "hosted_base_plan_failed".to_owned(),
                    message: "Obsidian Base plan could not be canonicalized: ".to_owned().concat(
                        reason.as_str(),
                    ),
                },
            ),
        }
    }

    /// How many terms order the rows.
    pub fn order_arity(&self) -> (result: usize)
        ensures
            result == self.view.sort@.len(),
    {
        self.view.sort.len()
    }

    /// Checks that every field still matches the digest taken at planning.
    pub fn validate_integrity(&self) -> (result: Result<(), CatalogError>)
        ensures
            match result {
                Ok(_) => is_sealed_base(*self),
                Err(error) => !is_sealed_base(*self) && is_integrity_error(*self, error),
            },
    {
        if self.plan_version == HOSTED_BASE_PLAN_VERSION {
            match self.digest_plan() {
                Err(error) => {
                    return Err(error);
                },
                Ok(digest) => {
                    if self.invocation_digest == digest {
                        return Ok(());
                    }
                },
            }
        }
        Err(
            CatalogError::new(
                "hosted_base_plan_mismatch",
                "Stored Obsidian Base plan failed its version or digest binding.",
            ),
        )
    }
}

// ---------------------------------------------------------------------------
// Planning
// ---------------------------------------------------------------------------
/// A decoded request to execute a named view.
#[derive(Debug)]
pub struct ViewRequest {
    pub path: String,
    pub view_id: String,
    pub render: bool,
    /// The path of the context record, where the request names one.
    pub context: Option<String>,
    pub timezone: Option<String>,
    pub limit: Option<u64>,
    pub offset: Option<u64>,
}

/// A named view with what checking it gave.
#[derive(Debug)]
pub struct NamedBaseView {
    pub id: String,
    pub view: BaseView,
    /// The diagnostics of the view's expressions.
    pub diagnostics: Vec<Diagnostic>,
    pub uses_backlinks: bool,
}

/// A parsed Base.
#[derive(Debug)]
pub struct ParsedBase {
    pub document: Json,
    pub views: Vec<NamedBaseView>,
}

/// What decoding a request and parsing the Base it names gave.
#[derive(Debug)]
pub struct BaseAnalysis {
    pub request: Result<ViewRequest, String>,
    /// Whether the collection's configuration enables the Base.
    pub configured: bool,
    pub base: Result<ParsedBase, String>,
    /// The time zone of the execution.
    pub timezone: Result<Option<String>, String>,
    /// What is wrong with the time zone for Bases, if anything.
    pub base_timezone_error: Option<String>,
}

/// The position of the first view with an id; the number of views without one.
pub open spec fn view_at(views: Seq<NamedBaseView>, id: Seq<char>) -> int
    decreases views.len(),
{
    if views.len() == 0 || views[0].id@ == id {
        0
    } else {
        1 + view_at(views.drop_first(), id)
    }
}

fn find_view(views: &Vec<NamedBaseView>, id: &str) -> (result: Option<usize>)
    ensures
        match result {
            Some(i) => i < views@.len() && i == view_at(views@, id@),
            None => view_at(views@, id@) == views@.len(),
        },
{
    let mut i: usize = 0;
    proof {
        assert(views@.skip(0) =~= views@);
    }
    while i < views.len()
        invariant
            i <= views@.len(),
            view_at(views@, id@) == i + view_at(views@.skip(i as int), id@),
        decreases views@.len() - i,
    {
        proof {
            assert(views@.skip(i as int).drop_first() =~= views@.skip(i + 1));
        }
        if same_text(views[i].id.as_str(), id) {
            return Some(i);
        }
        i = i + 1;
    }
    None
}

/// Whether one of the diagnostics is an error.
pub open spec fn has_error(diagnostics: Seq<Diagnostic>) -> bool {
    exists|i: int| 0 <= i < diagnostics.len() && (#[trigger] diagnostics[i]).severity@ == "error"@
}

pub fn any_error(diagnostics: &Vec<Diagnostic>) -> (result: bool)
    ensures
        result == has_error(diagnostics@),
{
    let mut i: usize = 0;
    while i < diagnostics.len()
        invariant
            i <= diagnostics@.len(),
            forall|k: int| 0 <= k < i ==> (#[trigger] diagnostics@[k]).severity@ != "error"@,
        decreases diagnostics@.len() - i,
    {
        if same_text(diagnostics[i].severity.as_str(), "error") {
            return true;
        }
        i = i + 1;
    }
    false
}

/// The text that shows which names a Base's document, its views aside, and one
/// view use.
pub open spec fn usage_text(document: JsonModel, view: JsonModel) -> Seq<char> {
    let relevant = match document {
        JsonModel::Object(members) => JsonModel::Object(
            with_member(members, "views"@, JsonModel::Array(Seq::empty())),
        ),
        _ => document,
    };
    compact_text(JsonModel::Array(seq![relevant, view]))
}

/// Whether a Base follows links.
pub open spec fn uses_relationships(document: JsonModel, view: JsonModel) -> bool {
    let text = usage_text(document, view);
    has_part(text, "backlinks"@) || has_part(text, "file.links"@) || has_part(text, "file.embeds"@)
        || has_part(text, "asFile"@) || has_part(text, "asLink"@) || has_part(text, "file("@)
}

pub fn base_uses_relationships(document: &Json, view: &Json) -> (result: bool)
    ensures
        result == uses_relationships(document@, view@),
{
    broadcast use {crate::json::lemma_object_model, crate::json::lemma_array_model};

    let relevant = match document {
        Json::Object(members) => {
            let mut m = copy_members(members);
            let none: Vec<Json> = Vec::new();
            proof {
                assert(item_models(none@) =~= Seq::empty());
            }
            put_member(&mut m, "views", Json::Array(none));
            Json::Object(m)
        },
        _ => document.copy(),
    };
    let ghost models = seq![relevant@, view@];
    let mut pair: Vec<Json> = Vec::new();
    pair.push(relevant);
    pair.push(view.copy());
    proof {
        assert(item_models(pair@) =~= models);
    }
    let text = to_compact_text(&Json::Array(pair));
    let text = text.as_str();
    contains_text(text, "backlinks") || contains_text(text, "file.links") || contains_text(
        text,
        "file.embeds",
    ) || contains_text(text, "asFile") || contains_text(text, "asLink") || contains_text(
        text,
        "file(",
    )
}

/// The envelope of a planning error, where planning fails: the checks in the
/// order in which they are made.
pub open spec fn planning_error(
    analysis: BaseAnalysis,
    record: CanonicalRecordInput,
    allowed_types: Seq<String>,
) -> Option<OperationModel> {
    match analysis.request {
        Err(message) => Some(
            failed_operation(
                error_diagnostic(
                    "invalid_request"@,
                    "View execution input is invalid: "@ + message@,
                    None,
                ),
            ),
        ),
        Ok(request) => if request.render {
            Some(
                failed_operation(
                    error_diagnostic(
                        "unsupported_presentation"@,
                        "This provider supports headless view execution."@,
                        Some(request.path@),
                    ),
                ),
            )
        } else if request.path@ != record.path@ || !has_suffix(request.path@, ".base"@) {
            Some(
                failed_operation(
                    error_diagnostic(
                        "view_not_found"@,
                        "The requested Obsidian Base does not match the supplied exact resource."@,
                        Some(request.path@),
                    ),
                ),
            )
        } else if !analysis.configured {
            Some(
                failed_operation(
                    error_diagnostic(
                        "view_not_found"@,
                        "The requested Obsidian Base is not enabled by collection configuration."@,
                        Some(request.path@),
                    ),
                ),
            )
        } else {
            match analysis.base {
                Err(message) => Some(
                    failed_operation(
                        error_diagnostic(
                            "invalid_view"@,
                            "Could not parse Obsidian Base: "@ + message@,
                            Some(request.path@),
                        ),
                    ),
                ),
                Ok(base) => view_error(analysis, request, base, allowed_types),
            }
        },
    }
}

/// The envelope of an error with the view itself.
pub open spec fn view_error(
    analysis: BaseAnalysis,
    request: ViewRequest,
    base: ParsedBase,
    allowed_types: Seq<String>,
) -> Option<OperationModel> {
    let at = view_at(base.views@, request.view_id@);
    if at >= base.views@.len() {
        Some(
            failed_operation(
                error_diagnostic(
                    "view_not_found"@,
                    "Named view '"@ + request.view_id@ + "' was not found."@,
                    Some(request.path@),
                ),
            ),
        )
    } else if has_error(base.views@[at].diagnostics@) {
        Some(
            OperationModel {
                valid: false,
                result: JsonModel::Object(Seq::empty()),
                diagnostics: diagnostic_models(base.views@[at].diagnostics@),
            },
        )
    } else if analysis.timezone is Err {
        Some(
            failed_operation(
                error_diagnostic("invalid_timezone"@, analysis.timezone->Err_0@, None),
            ),
        )
    } else if analysis.base_timezone_error is Some {
        Some(
            failed_operation(
                error_diagnostic(
                    "invalid_config"@,
                    analysis.base_timezone_error->0@,
                    Some("mdbase.yaml"@),
                ),
            ),
        )
    } else if allowed_types.len() > 0 && uses_relationships(
        base.document@,
        base.views@[at].view.source@,
    ) {
        Some(
            failed_operation(
                error_diagnostic(
                    "scope_denied"@,
                    "Cross-record Obsidian Base traversal is unavailable to a scoped capability."@,
                    Some(request.path@),
                ),
            ),
        )
    } else {
        None
    }
}

/// What the view of a plan holds.
pub open spec fn same_view(left: BaseView, right: BaseView) -> bool {
    &&& left.source@ == right.source@
    &&& left.order@ == right.order@
    &&& left.sort@.len() == right.sort@.len()
    &&& forall|i: int|
        0 <= i < left.sort@.len() ==> (#[trigger] left.sort@[i]).property == right.sort@[i].property
            && left.sort@[i].direction == right.sort@[i].direction
    &&& left.group_by == right.group_by
    &&& left.limit == right.limit
}

fn copy_term(term: &BaseTerm) -> (result: BaseTerm)
    ensures
        result == *term,
{
    BaseTerm { property: term.property.clone(), direction: term.direction.clone() }
}

fn copy_view(view: &BaseView) -> (result: BaseView)
    ensures
        same_view(result, *view),
{
    let mut sort: Vec<BaseTerm> = Vec::new();
    let mut i: usize = 0;
    while i < view.sort.len()
        invariant
            i <= view.sort@.len(),
            sort@.len() == i,
            forall|k: int|
                0 <= k < i ==> (#[trigger] sort@[k]).property == view.sort@[k].property
                    && sort@[k].direction == view.sort@[k].direction,
        decreases view.sort@.len() - i,
    {
        sort.push(copy_term(&view.sort[i]));
        i = i + 1;
    }
    BaseView {
        source: view.source.copy(),
        order: copy_texts(&view.order),
        sort,
        group_by: match &view.group_by {
            Some(term) => Some(copy_term(term)),
            None => None,
        },
        limit: view.limit,
    }
}

/// Whether this is the plan of a request, its digest aside.
pub open spec fn is_base_draft(
    plan: HostedBasePlan,
    catalog: CompiledCatalog,
    analysis: BaseAnalysis,
    record: CanonicalRecordInput,
    allowed_types: Seq<String>,
) -> bool {
    let request = analysis.request->Ok_0;
    let base = analysis.base->Ok_0;
    let named = base.views@[view_at(base.views@, request.view_id@)];
    let relationships = uses_relationships(base.document@, named.view.source@);
    &&& plan.plan_version == HOSTED_BASE_PLAN_VERSION
    &&& plan.catalog_revision@ == catalog.resource_revision@
    &&& plan.view_path@ == request.path@
    &&& plan.view_id@ == request.view_id@
    &&& plan.view_revision@ == digest_of(vstd::utf8::encode_utf8(record.document@))
    &&& plan.document@ == base.document@
    &&& same_view(plan.view, named.view)
    &&& plan.context_path == request.context
    &&& plan.timezone == analysis.timezone->Ok_0
    &&& is_sorted_set(texts(plan.allowed_types@), all_ascii_lower(texts(allowed_types)))
    &&& plan.offset == match request.offset {
        Some(offset) => offset,
        None => 0,
    }
    &&& plan.suggested_page_size == match request.limit {
        Some(limit) => Some(limit),
        None => named.view.limit,
    }
    &&& plan.requirements == (HostedBaseRequirements {
        backlinks: named.uses_backlinks,
        outgoing_relationships: relationships,
        link_resolution: relationships,
        query_context: request.context is Some,
        max_relationship_depth: if relationships {
            1
        } else {
            0
        },
    })
}

/// Whether this is the plan of a request, with its digest.
pub open spec fn is_base_plan(
    plan: HostedBasePlan,
    catalog: CompiledCatalog,
    analysis: BaseAnalysis,
    record: CanonicalRecordInput,
    allowed_types: Seq<String>,
) -> bool {
    is_base_draft(plan, catalog, analysis, record, allowed_types) && is_sealed_base(plan)
}

/// Whether the plan of a request has no digest.
pub open spec fn base_has_no_digest(
    catalog: CompiledCatalog,
    analysis: BaseAnalysis,
    record: CanonicalRecordInput,
    allowed_types: Seq<String>,
) -> bool {
    exists|draft: HostedBasePlan| #[trigger]
        is_base_draft(draft, catalog, analysis, record, allowed_types) && json_digest(
            unsigned_base_plan(draft),
        ) is None
}

fn invalid(code: &str, message: &str, path: Option<String>) -> (result: HostedBasePlanning)
    ensures
        result is Invalid,
        result->result@ == failed_operation(
            error_diagnostic(code@, message@, optional_text(path)),
        ),
{
    HostedBasePlanning::Invalid {
        result: OperationResult::failed(Diagnostic::error(code, message, path)),
    }
}

impl CompiledCatalog {
    /// Plans one named view of an exact Base. No records are enumerated.
    pub fn plan_hosted_obsidian_base(
        &self,
        analysis: &BaseAnalysis,
        record: &CanonicalRecordInput,
        allowed_types: &Vec<String>,
    ) -> (result: Result<HostedBasePlanning, CatalogError>)
        ensures
            match result {
                Ok(HostedBasePlanning::Invalid { result }) => planning_error(
                    *analysis,
                    *record,
                    allowed_types@,
                ) == Some(result@),
                Ok(HostedBasePlanning::Planned { plan }) => planning_error(
                    *analysis,
                    *record,
                    allowed_types@,
                ) is None && is_base_plan(*plan, *self, *analysis, *record, allowed_types@),
                Err(error) => planning_error(*analysis, *record, allowed_types@) is None
                    && error.code@ == "hosted_base_plan_failed"@ && base_has_no_digest(
                    *self,
                    *analysis,
                    *record,
                    allowed_types@,
                ),
            },
    {
        let request = match &analysis.request {
            Ok(request) => request,
            Err(message) => {
                return Ok(
                    invalid(
                        "invalid_request",
                        "View execution input is invalid: ".to_owned().concat(
                            message.as_str(),
                        ).as_str(),
                        None,
                    ),
                );
            },
        };
        if request.render {
            return Ok(
                invalid(
                    "unsupported_presentation",
                    "This provider supports headless view execution.",
                    Some(request.path.clone()),
                ),
            );
        }
        if request.path != record.path || !ends_with(request.path.as_str(), ".base") {
            return Ok(
                invalid(
                    "view_not_found",
                    "The requested Obsidian Base does not match the supplied exact resource.",
                    Some(request.path.clone()),
                ),
            );
        }
        if !analysis.configured {
            return Ok(
                invalid(
                    "view_not_found",
                    "The requested Obsidian Base is not enabled by collection configuration.",
                    Some(request.path.clone()),
                ),
            );
        }
        let base = match &analysis.base {
            Ok(base) => base,
            Err(message) => {
                return Ok(
                    invalid(
                        "invalid_view",
                        "Could not parse Obsidian Base: ".to_owned().concat(
                            message.as_str(),
                        ).as_str(),
                        Some(request.path.clone()),
                    ),
                );
            },
        };
        let at = match find_view(&base.views, request.view_id.as_str()) {
            Some(at) => at,
            None => {
                return Ok(
                    invalid(
                        "view_not_found",
                        concat3(
                            "Named view '",
                            request.view_id.as_str(),
                            "' was not found.",
                        ).as_str(),
                        Some(request.path.clone()),
                    ),
                );
            },
        };
        let named = &base.views[at];
        if any_error(&named.diagnostics) {
            return Ok(
                HostedBasePlanning::Invalid {
                    result: OperationResult {
                        valid: false,
                        result: Json::empty_object(),
                        diagnostics: copy_diagnostics(&named.diagnostics),
                    },
                },
            );
        }
        let timezone = match &analysis.timezone {
            Ok(timezone) => copy_optional(timezone),
            Err(message) => {
                return Ok(invalid("invalid_timezone", message.as_str(), None));
            },
        };
        if let Some(message) = &analysis.base_timezone_error {
            return Ok(
                invalid("invalid_config", message.as_str(), Some("mdbase.yaml".to_owned())),
            );
        }
        let relationships = base_uses_relationships(&base.document, &named.view.source);
        let lowered = lower_ascii_all(allowed_types);
        let scope = sorted_distinct(&lowered);
        if allowed_types.len() > 0 && relationships {
            return Ok(
                invalid(
                    "scope_denied",
                    "Cross-record Obsidian Base traversal is unavailable to a scoped capability.",
                    Some(request.path.clone()),
                ),
            );
        }
        let suggested_page_size = match request.limit {
            Some(limit) => Some(limit),
            None => named.view.limit,
        };
        let mut plan = HostedBasePlan {
            plan_version: HOSTED_BASE_PLAN_VERSION,
            catalog_revision: self.resource_revision.clone(),
            view_path: request.path.clone(),
            view_id: request.view_id.clone(),
            view_revision: revision(record.document.as_str().as_bytes()),
            document: base.document.copy(),
            view: copy_view(&named.view),
            context_path: copy_optional(&request.context),
            timezone,
            allowed_types: scope,
            offset: match request.offset {
                Some(offset) => offset,
                None => 0,
            },
            suggested_page_size,
            requirements: HostedBaseRequirements {
                backlinks: named.uses_backlinks,
                outgoing_relationships: relationships,
                link_resolution: relationships,
                query_context: request.context.is_some(),
                max_relationship_depth: if relationships {
                    1
                } else {
                    0
                },
            },
            invocation_digest: String::new(),
        };
        match plan.digest_plan() {
            Ok(digest) => {
                let ghost before = plan;
                plan.invocation_digest = digest;
                proof {
                    assert(unsigned_base_plan(plan) == unsigned_base_plan(before));
                }
                Ok(HostedBasePlanning::Planned { plan: Box::new(plan) })
            },
            Err(error) => {
                proof {
                    assert(is_base_draft(plan, *self, *analysis, *record, allowed_types@));
                }
                Err(error)
            },
        }
    }
}

// ---------------------------------------------------------------------------
// Evaluation
// ---------------------------------------------------------------------------
/// Whether a projection belongs to the plan's catalog and has its digest.
pub open spec fn is_valid_projection(plan: HostedBasePlan, projection: SemanticProjection) -> bool {
    projection.facts.catalog_revision@ == plan.catalog_revision@
        && projection.structure.structural_digest_is_valid
}

/// Whether all the projections of a context are valid.
pub open spec fn all_valid(plan: HostedBasePlan, input: HostedBaseRecordContext) -> bool {
    &&& is_valid_projection(plan, input.projection)
    &&& forall|i: int|
        0 <= i < input.related@.len() ==> is_valid_projection(plan, #[trigger] input.related@[i])
    &&& input.query_context is Some ==> is_valid_projection(plan, input.query_context->0)
}

/// Whether a record is in the scope of a plan.
pub open spec fn in_scope(plan: HostedBasePlan, types: Seq<String>) -> bool {
    plan.allowed_types@.len() == 0 || share_ignoring_case(types, plan.allowed_types@)
}

/// Whether a plan follows links.
pub open spec fn needs_neighborhood(plan: HostedBasePlan) -> bool {
    plan.requirements.backlinks || plan.requirements.outgoing_relationships
        || plan.requirements.link_resolution
}

/// The code and message of the error that a context gives rise to, integrity of
/// the plan aside.
pub open spec fn context_error(plan: HostedBasePlan, input: HostedBaseRecordContext) -> Option<
    (Seq<char>, Seq<char>),
> {
    if input.related@.len() > MAX_HOSTED_BASE_RELATED_RECORDS {
        Some(
            (
                "hosted_base_relationship_budget_exceeded"@,
                "Obsidian Base relationship neighborhood exceeds the semantic budget."@,
            ),
        )
    } else if needs_neighborhood(plan) && !input.relationship_neighborhood_complete {
        Some(
            (
                "hosted_base_relationship_state_incomplete"@,
                "Obsidian Base relationship evaluation requires a complete bounded neighborhood."@,
            ),
        )
    } else if !all_valid(plan, input) {
        Some(
            (
                "hosted_base_projection_stale"@,
                "Obsidian Base evaluation requires a current, integrity-bound projection."@,
            ),
        )
    } else if input.query_context is Some && !in_scope(
        plan,
        input.query_context->0.facts.types@,
    ) {
        Some(
            (
                "scope_denied"@,
                "The Base context is outside this capability's record scope."@,
            ),
        )
    } else {
        None
    }
}

/// The error of a context record that is not the planned one.
pub open spec fn binding_error(plan: HostedBasePlan, input: HostedBaseRecordContext) -> Option<
    (Seq<char>, Seq<char>),
> {
    match plan.context_path {
        Some(path) => if input.query_context is Some && input.query_context->0.facts.path@
            == path@ {
            None
        } else {
            Some(
                (
                    "hosted_base_context_mismatch"@,
                    "The supplied Base context does not bind the planned context path."@,
                ),
            )
        },
        None => if input.query_context is Some {
            Some(
                (
                    "hosted_base_context_mismatch"@,
                    "An unplanned Base context was supplied."@,
                ),
            )
        } else {
            None
        },
    }
}

/// All the projections of a context: the record, its neighbors, and the context
/// record.
pub open spec fn context_projections(input: HostedBaseRecordContext) -> Seq<SemanticProjection> {
    let first = seq![input.projection] + input.related@;
    match input.query_context {
        Some(context) => first.push(context),
        None => first,
    }
}

/// What the expressions of a Base are evaluated with.
#[derive(Debug)]
pub struct BaseInputs {
    pub files: Vec<BasesFile>,
    pub link_resolutions: Vec<LinkResolution>,
    /// The position of the record's file.
    pub file: usize,
    /// The position of the context record's file.
    pub this_file: Option<usize>,
}

/// What preparing an evaluation gave.
#[derive(Debug)]
pub enum BasePreparation {
    /// The record is out of scope.
    Excluded,
    Ready(BaseInputs),
}

/// The position of the first file with a path; the number of files without one.
pub open spec fn file_at(files: Seq<BasesFile>, path: Seq<char>) -> int
    decreases files.len(),
{
    if files.len() == 0 || files[0].path@ == path {
        0
    } else {
        1 + file_at(files.drop_first(), path)
    }
}

fn find_file(files: &Vec<BasesFile>, path: &str) -> (result: Option<usize>)
    ensures
        match result {
            Some(i) => i < files@.len() && i == file_at(files@, path@),
            None => file_at(files@, path@) == files@.len(),
        },
{
    let mut i: usize = 0;
    proof {
        assert(files@.skip(0) =~= files@);
    }
    while i < files.len()
        invariant
            i <= files@.len(),
            file_at(files@, path@) == i + file_at(files@.skip(i as int), path@),
        decreases files@.len() - i,
    {
        proof {
            assert(files@.skip(i as int).drop_first() =~= files@.skip(i + 1));
        }
        if same_text(files[i].path.as_str(), path) {
            return Some(i);
        }
        i = i + 1;
    }
    None
}

/// Whether these are the files, links, and positions of a context.
pub open spec fn are_inputs(inputs: BaseInputs, input: HostedBaseRecordContext) -> bool {
    exists|projections: Seq<SemanticProjection>| #[trigger]
        is_neighborhood(projections, context_projections(input)) && {
            &&& are_files(inputs.files@, projections)
            &&& are_resolutions(
                inputs.link_resolutions@,
                link_pairs(projections, projections.len()),
            )
            &&& inputs.file < inputs.files@.len()
            &&& inputs.file == file_at(inputs.files@, input.projection.facts.path@)
            &&& match inputs.this_file {
                Some(at) => input.query_context is Some && at < inputs.files@.len() && at
                    == file_at(inputs.files@, input.query_context->0.facts.path@),
                None => input.query_context is None || file_at(
                    inputs.files@,
                    input.query_context->0.facts.path@,
                ) == inputs.files@.len(),
            }
        }
}

/// Whether no file of a context has the path of the record.
pub open spec fn lacks_file(input: HostedBaseRecordContext) -> bool {
    exists|projections: Seq<SemanticProjection>| #[trigger]
        is_neighborhood(projections, context_projections(input)) && forall|k: int|
            0 <= k < projections.len() ==> (#[trigger] projections[k]).facts.file.path@
                != input.projection.facts.path@
}

/// Files whose projections name them by the paths of their records never lack that
/// of the record.
pub proof fn lemma_record_file_is_present(input: HostedBaseRecordContext)
    requires
        forall|k: int|
            0 <= k < context_projections(input).len() ==> (#[trigger] context_projections(
                input,
            )[k]).facts.file.path@ == context_projections(input)[k].facts.path@,
    ensures
        !lacks_file(input),
{
    let all = context_projections(input);
    assert forall|projections: Seq<SemanticProjection>| #[trigger]
        is_neighborhood(projections, all) implies exists|k: int|
        0 <= k < projections.len() && (#[trigger] projections[k]).facts.file.path@
            == input.projection.facts.path@ by {
        crate::base_graph::lemma_neighborhood_keeps_paths(projections, all);
        assert(all[0] == input.projection);
        let m = choose|m: int|
            0 <= m < projections.len() && (#[trigger] projections[m]).facts.path@
                == all[0].facts.path@;
        assert(all.contains(projections[m]));
        let i = choose|i: int| 0 <= i < all.len() && all[i] == projections[m];
        assert(all[i].facts.file.path@ == all[i].facts.path@);
    }
}

proof fn lemma_file_at(files: Seq<BasesFile>, path: Seq<char>)
    ensures
        0 <= file_at(files, path) <= files.len(),
        file_at(files, path) == files.len() ==> forall|k: int|
            0 <= k < files.len() ==> (#[trigger] files[k]).path@ != path,
    decreases files.len(),
{
    if files.len() > 0 && files[0].path@ != path {
        let rest = files.drop_first();
        lemma_file_at(rest, path);
        assert forall|k: int|
            file_at(files, path) == files.len() && 0 <= k < files.len() implies (
        #[trigger] files[k]).path@ != path by {
            if k > 0 {
                assert(rest[k - 1] == files[k]);
            }
        }
    }
}

fn valid_projection(plan: &HostedBasePlan, projection: &SemanticProjection) -> (result: bool)
    ensures
        result == is_valid_projection(*plan, *projection),
{
    projection.facts.catalog_revision == plan.catalog_revision
        && projection.structure.structural_digest_is_valid
}

fn stale() -> (error: CatalogError)
    ensures
        error.is(
            "hosted_base_projection_stale"@,
            "Obsidian Base evaluation requires a current, integrity-bound projection."@,
        ),
{
    CatalogError::new(
        "hosted_base_projection_stale",
        "Obsidian Base evaluation requires a current, integrity-bound projection.",
    )
}

impl HostedBasePlan {
    fn check_context(&self, input: &HostedBaseRecordContext) -> (result: Result<(), CatalogError>)
        ensures
            match result {
                Ok(_) => context_error(*self, *input) is None,
                Err(error) => context_error(*self, *input) == Some((error.code@, error.message@)),
            },
    {
        if input.related.len() > MAX_HOSTED_BASE_RELATED_RECORDS {
            return Err(
                CatalogError::new(
                    "hosted_base_relationship_budget_exceeded",
                    "Obsidian Base relationship neighborhood exceeds the semantic budget.",
                ),
            );
        }
        if (self.requirements.backlinks || self.requirements.outgoing_relationships
            || self.requirements.link_resolution) && !input.relationship_neighborhood_complete {
            return Err(
                CatalogError::new(
                    "hosted_base_relationship_state_incomplete",
                    "Obsidian Base relationship evaluation requires a complete bounded neighborhood.",
                ),
            );
        }
        if !valid_projection(self, &input.projection) {
            return Err(stale());
        }
        let mut i: usize = 0;
        while i < input.related.len()
            invariant
                i <= input.related@.len(),
                input.related@.len() <= MAX_HOSTED_BASE_RELATED_RECORDS,
                !needs_neighborhood(*self) || input.relationship_neighborhood_complete,
                forall|k: int|
                    0 <= k < i ==> is_valid_projection(*self, #[trigger] input.related@[k]),
            decreases input.related@.len() - i,
        {
            if !valid_projection(self, &input.related[i]) {
                return Err(stale());
            }
            i = i + 1;
        }
        if let Some(context) = &input.query_context {
            if !valid_projection(self, context) {
                return Err(stale());
            }
            if self.allowed_types.len() > 0 && !lists_share_ignoring_case(
                &context.facts.types,
                &self.allowed_types,
            ) {
                return Err(
                    CatalogError::new(
                        "scope_denied",
                        "The Base context is outside this capability's record scope.",
                    ),
                );
            }
        }
        Ok(())
    }

    fn check_binding(&self, input: &HostedBaseRecordContext) -> (result: Result<(), CatalogError>)
        ensures
            match result {
                Ok(_) => binding_error(*self, *input) is None,
                Err(error) => binding_error(*self, *input) == Some((error.code@, error.message@)),
            },
    {
        match (&self.context_path, &input.query_context) {
            (Some(path), Some(context)) => if *path == context.facts.path {
                Ok(())
            } else {
                Err(
                    CatalogError::new(
                        "hosted_base_context_mismatch",
                        "The supplied Base context does not bind the planned context path.",
                    ),
                )
            },
            (Some(_), None) => Err(
                CatalogError::new(
                    "hosted_base_context_mismatch",
                    "The supplied Base context does not bind the planned context path.",
                ),
            ),
            (None, Some(_)) => Err(
                CatalogError::new(
                    "hosted_base_context_mismatch",
                    "An unplanned Base context was supplied.",
                ),
            ),
            (None, None) => Ok(()),
        }
    }

    /// Checks one record and its neighborhood, and builds what the Base's
    /// expressions are evaluated with. Whatever is missing fails closed.
    pub fn prepare_record(&self, input: &HostedBaseRecordContext) -> (result: Result<
        BasePreparation,
        CatalogError,
    >)
        ensures
            match result {
                Ok(preparation) => {
                    &&& is_sealed_base(*self)
                    &&& context_error(*self, *input) is None
                    &&& match preparation {
                        BasePreparation::Excluded => !in_scope(*self, input.projection.facts.types@),
                        BasePreparation::Ready(inputs) => {
                            &&& in_scope(*self, input.projection.facts.types@)
                            &&& binding_error(*self, *input) is None
                            &&& are_inputs(inputs, *input)
                        },
                    }
                },
                Err(error) => if !is_sealed_base(*self) {
                    is_integrity_error(*self, error)
                } else if context_error(*self, *input) is Some {
                    context_error(*self, *input) == Some((error.code@, error.message@))
                } else {
                    &&& in_scope(*self, input.projection.facts.types@)
                    &&& if binding_error(*self, *input) is Some {
                        binding_error(*self, *input) == Some((error.code@, error.message@))
                    } else {
                        lacks_file(*input) && error.is(
                            "hosted_base_projection_mismatch"@,
                            "Candidate file facts are absent from the evaluation context."@,
                        )
                    }
                },
            },
    {
        if let Err(error) = self.validate_integrity() {
            return Err(error);
        }
        if let Err(error) = self.check_context(input) {
            return Err(error);
        }
        if self.allowed_types.len() > 0 && !lists_share_ignoring_case(
            &input.projection.facts.types,
            &self.allowed_types,
        ) {
            return Ok(BasePreparation::Excluded);
        }
        if let Err(error) = self.check_binding(input) {
            return Err(error);
        }
        let mut list: Vec<&SemanticProjection> = Vec::new();
        list.push(&input.projection);
        let mut i: usize = 0;
        while i < input.related.len()
            invariant
                i <= input.related@.len(),
                list@.len() == i + 1,
                *list@[0] == input.projection,
                forall|k: int| 0 <= k < i ==> *(#[trigger] list@[k + 1]) == input.related@[k],
            decreases input.related@.len() - i,
        {
            list.push(&input.related[i]);
            i = i + 1;
        }
        let ghost before = list@;
        if let Some(context) = &input.query_context {
            list.push(context);
        }
        proof {
            let first = seq![input.projection] + input.related@;
            assert forall|k: int| 0 <= k < first.len() implies *before[k] == first[k] by {
                if k > 0 {
                    assert(*before[(k - 1) + 1] == input.related@[k - 1]);
                }
            }
            assert(projections_of(list@) =~= context_projections(*input));
        }
        let neighborhood = sort_neighborhood(list);
        let ghost projections = projections_of(neighborhood@);
        let files = populate_backlinks(&neighborhood);
        let resolutions = link_resolutions(&neighborhood);
        proof {
            assert(is_neighborhood(projections, context_projections(*input)));
            assert(projections.len() == neighborhood@.len());
        }
        match find_file(&files, input.projection.facts.path.as_str()) {
            None => {
                proof {
                    lemma_file_at(files@, input.projection.facts.path@);
                    assert forall|k: int| 0 <= k < projections.len() implies (
                    #[trigger] projections[k]).facts.file.path@ != input.projection.facts.path@ by {
                        assert(crate::base_graph::is_file_of(files@[k], projections[k]));
                    }
                }
                Err(
                    CatalogError::new(
                        "hosted_base_projection_mismatch",
                        "Candidate file facts are absent from the evaluation context.",
                    ),
                )
            },
            Some(file) => {
                let this_file = match &input.query_context {
                    Some(context) => find_file(&files, context.facts.path.as_str()),
                    None => None,
                };
                let inputs = BaseInputs { files, link_resolutions: resolutions, file, this_file };
                proof {
                    assert(are_inputs(inputs, *input));
                }
                Ok(BasePreparation::Ready(inputs))
            },
        }
    }
}

/// Why a Base expression gave no value.
#[derive(Debug)]
pub enum BaseFailure {
    WorkBudget(String),
    Cancelled(String),
    Other(String),
}

/// What evaluating one property gave.
#[derive(Debug)]
pub struct PropertyOutcome {
    pub property: String,
    pub outcome: Result<Json, BaseFailure>,
}

/// The error of a failure that ends the evaluation.
pub open spec fn fatal_error(failure: BaseFailure) -> Option<(Seq<char>, Seq<char>)> {
    match failure {
        BaseFailure::WorkBudget(message) => Some(
            ("hosted_base_operator_budget_exceeded"@, message@),
        ),
        BaseFailure::Cancelled(message) => Some(("operation_cancelled"@, message@)),
        BaseFailure::Other(_) => None,
    }
}

/// The properties that a view computes, each once and ascending.
pub open spec fn needs_property(view: BaseView, property: Seq<char>) -> bool {
    ||| lists_text(view.order@, property)
    ||| exists|i: int| 0 <= i < view.sort@.len() && (#[trigger] view.sort@[i]).property@ == property
    ||| view.group_by is Some && view.group_by->0.property@ == property
}

impl HostedBasePlan {
    /// The properties to evaluate for a record that passed the filter.
    pub fn planned_properties(&self) -> (result: Vec<String>)
        ensures
            crate::text::ascending_texts(texts(result@)),
            forall|property: Seq<char>| #[trigger]
                texts(result@).contains(property) <==> needs_property(self.view, property),
    {
        let mut result = sorted_distinct(&self.view.order);
        let ghost first = texts(result@);
        let mut i: usize = 0;
        while i < self.view.sort.len()
            invariant
                i <= self.view.sort@.len(),
                crate::text::ascending_texts(texts(result@)),
                forall|property: Seq<char>| #[trigger]
                    first.contains(property) <==> texts(self.view.order@).contains(property),
                forall|property: Seq<char>| #[trigger]
                    texts(result@).contains(property) <==> first.contains(property) || exists|
                        k: int,
                    |
                        0 <= k < i && (#[trigger] self.view.sort@[k]).property@ == property,
            decreases self.view.sort@.len() - i,
        {
            let ghost before = texts(result@);
            insert_text(&mut result, self.view.sort[i].property.clone());
            proof {
                assert forall|property: Seq<char>| #[trigger]
                    texts(result@).contains(property) <==> first.contains(property) || exists|
                        k: int,
                    |
                        0 <= k < i + 1 && (#[trigger] self.view.sort@[k]).property@ == property by {
                    assert(before.contains(property) <==> first.contains(property) || exists|
                        k: int,
                    |
                        0 <= k < i && (#[trigger] self.view.sort@[k]).property@ == property);
                    if exists|k: int|
                        0 <= k < i + 1 && (#[trigger] self.view.sort@[k]).property@ == property {
                        let k = choose|k: int|
                            0 <= k < i + 1 && (#[trigger] self.view.sort@[k]).property@ == property;
                        if k < i {
                            assert(exists|k: int|
                                0 <= k < i && (#[trigger] self.view.sort@[k]).property@
                                    == property);
                        }
                    }
                }
            }
            i = i + 1;
        }
        if let Some(group) = &self.view.group_by {
            insert_text(&mut result, group.property.clone());
        }
        proof {
            assert forall|property: Seq<char>| #[trigger]
                texts(result@).contains(property) <==> needs_property(self.view, property) by {
                crate::text::lemma_lists_text(self.view.order@, property);
            }
        }
        result
    }
}

/// The values of the properties, or the error of the first that ends the
/// evaluation. Other failures leave null.
pub open spec fn computed_values(outcomes: Seq<PropertyOutcome>) -> Result<
    Seq<(Seq<char>, JsonModel)>,
    (Seq<char>, Seq<char>),
>
    decreases outcomes.len(),
{
    if outcomes.len() == 0 {
        Ok(Seq::empty())
    } else {
        match computed_values(outcomes.drop_last()) {
            Err(error) => Err(error),
            Ok(members) => match outcomes.last().outcome {
                Ok(value) => Ok(with_member(members, outcomes.last().property@, value@)),
                Err(failure) => match fatal_error(failure) {
                    Some(error) => Err(error),
                    None => Ok(with_member(members, outcomes.last().property@, JsonModel::Null)),
                },
            },
        }
    }
}

proof fn lemma_computed_error(outcomes: Seq<PropertyOutcome>, count: int)
    requires
        0 <= count <= outcomes.len(),
        computed_values(outcomes.take(count)) is Err,
    ensures
        computed_values(outcomes) == computed_values(outcomes.take(count)),
    decreases outcomes.len(),
{
    if count < outcomes.len() {
        assert(outcomes.drop_last().take(count) =~= outcomes.take(count));
        lemma_computed_error(outcomes.drop_last(), count);
    } else {
        assert(outcomes.take(count) =~= outcomes);
    }
}

fn fatal(failure: &BaseFailure) -> (result: Option<CatalogError>)
    ensures
        match result {
            Some(error) => fatal_error(*failure) == Some((error.code@, error.message@)),
            None => fatal_error(*failure) is None,
        },
{
    match failure {
        BaseFailure::WorkBudget(message) => Some(
            CatalogError::new("hosted_base_operator_budget_exceeded", message.as_str()),
        ),
        BaseFailure::Cancelled(message) => Some(
            CatalogError::new("operation_cancelled", message.as_str()),
        ),
        BaseFailure::Other(_) => None,
    }
}

fn compute_values(outcomes: &Vec<PropertyOutcome>) -> (result: Result<Vec<Member>, CatalogError>)
    ensures
        match result {
            Ok(members) => computed_values(outcomes@) == Ok::<_, (Seq<char>, Seq<char>)>(
                member_models(members@),
            ),
            Err(error) => computed_values(outcomes@) == Err::<Seq<(Seq<char>, JsonModel)>, _>(
                (error.code@, error.message@),
            ),
        },
{
    let mut members: Vec<Member> = Vec::new();
    let mut i: usize = 0;
    proof {
        assert(member_models(members@) =~= Seq::empty());
    }
    while i < outcomes.len()
        invariant
            i <= outcomes@.len(),
            computed_values(outcomes@.take(i as int)) == Ok::<_, (Seq<char>, Seq<char>)>(
                member_models(members@),
            ),
        decreases outcomes@.len() - i,
    {
        proof {
            assert(outcomes@.take(i + 1).drop_last() =~= outcomes@.take(i as int));
            assert(outcomes@.take(i + 1).last() == outcomes@[i as int]);
        }
        let property = outcomes[i].property.as_str();
        match &outcomes[i].outcome {
            Ok(value) => {
                put_member(&mut members, property, value.copy());
            },
            Err(failure) => {
                if let Some(error) = fatal(failure) {
                    proof {
                        lemma_computed_error(outcomes@, i + 1);
                    }
                    return Err(error);
                }
                put_member(&mut members, property, Json::Null);
            },
        }
        i = i + 1;
    }
    proof {
        assert(outcomes@.take(i as int) =~= outcomes@);
    }
    Ok(members)
}

/// The values of the first of some properties.
pub open spec fn picked_values(
    properties: Seq<String>,
    computed: Seq<(Seq<char>, JsonModel)>,
    count: nat,
) -> Seq<(Seq<char>, JsonModel)>
    decreases count,
{
    if count == 0 || count > properties.len() {
        Seq::empty()
    } else {
        with_member(
            picked_values(properties, computed, (count - 1) as nat),
            properties[count - 1]@,
            or_null(lookup(computed, properties[count - 1]@)),
        )
    }
}

/// The values that a row shows: those of its columns, and that of its group where
/// it is no column.
pub open spec fn shown_values(
    view: BaseView,
    computed: Seq<(Seq<char>, JsonModel)>,
) -> Seq<(Seq<char>, JsonModel)> {
    let columns = picked_values(view.order@, computed, view.order@.len());
    match view.group_by {
        Some(group) => if lists_text(view.order@, group.property@) {
            columns
        } else {
            with_member(columns, group.property@, or_null(lookup(computed, group.property@)))
        },
        None => columns,
    }
}

/// The file facts that a row shows.
pub open spec fn file_facts(file: BasesFile) -> JsonModel {
    let m = with_member(Seq::empty(), "path"@, JsonModel::Text(file.path@));
    let m = with_member(m, "name"@, JsonModel::Text(file.name@));
    let m = with_member(m, "basename"@, JsonModel::Text(file.basename@));
    let m = with_member(m, "folder"@, JsonModel::Text(file.folder@));
    let m = with_member(m, "ext"@, JsonModel::Text(file.extension@));
    let m = with_member(m, "size"@, count_value(file.size as int));
    let m = with_member(m, "mtime"@, text_or_null(optional_text(file.mtime)));
    let m = with_member(m, "ctime"@, text_or_null(optional_text(file.ctime)));
    JsonModel::Object(with_member(m, "tags"@, JsonModel::Array(text_models(texts(file.tags@)))))
}

fn optional_value(text: &Option<String>) -> (result: Json)
    ensures
        result@ == text_or_null(optional_text(*text)),
{
    match text {
        Some(text) => Json::Text(text.clone()),
        None => Json::Null,
    }
}

fn file_to_json(file: &BasesFile) -> (result: Json)
    ensures
        result@ == file_facts(*file),
{
    broadcast use crate::json::lemma_object_model;

    let mut m: Vec<Member> = Vec::new();
    proof {
        assert(member_models(m@) =~= Seq::empty());
    }
    put_member(&mut m, "path", Json::text(file.path.as_str()));
    put_member(&mut m, "name", Json::text(file.name.as_str()));
    put_member(&mut m, "basename", Json::text(file.basename.as_str()));
    put_member(&mut m, "folder", Json::text(file.folder.as_str()));
    put_member(&mut m, "ext", Json::text(file.extension.as_str()));
    put_member(&mut m, "size", Json::unsigned(file.size));
    put_member(&mut m, "mtime", optional_value(&file.mtime));
    put_member(&mut m, "ctime", optional_value(&file.ctime));
    put_member(&mut m, "tags", Json::text_array(&file.tags));
    Json::Object(m)
}

/// The diagnostic of a filter that could not be evaluated.
pub open spec fn filter_diagnostic(message: Seq<char>, path: Seq<char>) -> DiagnosticModel {
    DiagnosticModel {
        severity: "warning"@,
        code: "expression_evaluation_error"@,
        message,
        path: Some(path),
        field: Some("filters"@),
        record_type: None,
        schema_location: None,
        details: Some(
            JsonModel::Object(
                with_member(Seq::empty(), "dialect"@, JsonModel::Text("obsidian.bases"@)),
            ),
        ),
    }
}

/// Whether this is the row of a record.
pub open spec fn is_row(
    row: HostedBaseRow,
    plan: HostedBasePlan,
    input: HostedBaseRecordContext,
    file: BasesFile,
    computed: Seq<(Seq<char>, JsonModel)>,
) -> bool {
    &&& row.path@ == input.projection.facts.path@
    &&& row.file@ == file_facts(file)
    &&& member_models(row.effective_frontmatter@) == member_models(
        input.projection.facts.effective_frontmatter@,
    )
    &&& row.types@ == input.projection.facts.types@
    &&& member_models(row.values@) == shown_values(plan.view, computed)
    &&& member_models(row.sort_values@) == computed
    &&& match row.group_value {
        Some(value) => plan.view.group_by is Some && value@ == or_null(
            lookup(computed, plan.view.group_by->0.property@),
        ),
        None => plan.view.group_by is None,
    }
}

/// Whether this is the whole evaluation of a record: what stands against it, or
/// what the filter and the properties give on the file of the record.
pub open spec fn is_whole_evaluation(
    result: Result<HostedBaseEvaluation, CatalogError>,
    plan: HostedBasePlan,
    input: HostedBaseRecordContext,
    timezone_fault: Option<String>,
    filter: Result<bool, BaseFailure>,
    outcomes: Seq<PropertyOutcome>,
) -> bool {
    if !is_sealed_base(plan) {
        result is Err && is_integrity_error(plan, result->Err_0)
    } else if let Some((code, message)) = context_error(plan, input) {
        result is Err && result->Err_0.is(code, message)
    } else if !in_scope(plan, input.projection.facts.types@) {
        result is Ok && result->Ok_0 is Excluded && result->Ok_0->diagnostics@.len() == 0
    } else if let Some((code, message)) = binding_error(plan, input) {
        result is Err && result->Err_0.is(code, message)
    } else {
        ||| lacks_file(input) && result is Err && result->Err_0.is(
            "hosted_base_projection_mismatch"@,
            "Candidate file facts are absent from the evaluation context."@,
        )
        ||| exists|inputs: BaseInputs| #[trigger]
            are_inputs(inputs, input) && match timezone_fault {
                Some(message) => result is Err && result->Err_0.is(
                    "invalid_timezone"@,
                    message@,
                ),
                None => is_evaluation(
                    result,
                    plan,
                    input,
                    inputs.files@[inputs.file as int],
                    filter,
                    outcomes,
                ),
            }
    }
}

/// Whether this is the evaluation of a record, given whether the filter holds and
/// the values of its properties.
pub open spec fn is_evaluation(
    result: Result<HostedBaseEvaluation, CatalogError>,
    plan: HostedBasePlan,
    input: HostedBaseRecordContext,
    file: BasesFile,
    filter: Result<bool, BaseFailure>,
    outcomes: Seq<PropertyOutcome>,
) -> bool {
    match filter {
        Err(failure) => match fatal_error(failure) {
            Some((code, message)) => result is Err && result->Err_0.is(code, message),
            None => {
                &&& result is Ok
                &&& result->Ok_0 is Excluded
                &&& diagnostic_models(result->Ok_0->diagnostics@) == seq![
                    filter_diagnostic(failure->Other_0@, input.projection.facts.path@),
                ]
            },
        },
        Ok(false) => result is Ok && result->Ok_0 is Excluded && result->Ok_0->diagnostics@.len()
            == 0,
        Ok(true) => match computed_values(outcomes) {
            Err((code, message)) => result is Err && result->Err_0.is(code, message),
            Ok(computed) => result is Ok && result->Ok_0 is Included && is_row(
                *result->Ok_0->row,
                plan,
                input,
                file,
                computed,
            ),
        },
    }
}

impl HostedBasePlan {
    /// Evaluates one record, given why the time zone is not valid, whether the
    /// filter holds, and the values of the planned properties.
    pub fn evaluate_record(
        &self,
        input: &HostedBaseRecordContext,
        timezone_fault: Option<String>,
        filter: Result<bool, BaseFailure>,
        outcomes: &Vec<PropertyOutcome>,
    ) -> (result: Result<HostedBaseEvaluation, CatalogError>)
        ensures
            is_whole_evaluation(result, *self, *input, timezone_fault, filter, outcomes@),
    {
        let inputs = match self.prepare_record(input) {
            Ok(BasePreparation::Ready(inputs)) => inputs,
            Ok(BasePreparation::Excluded) => {
                return Ok(HostedBaseEvaluation::Excluded { diagnostics: Vec::new() });
            },
            Err(error) => {
                return Err(error);
            },
        };
        if let Some(message) = &timezone_fault {
            proof {
                assert(are_inputs(inputs, *input));
            }
            return Err(CatalogError::new("invalid_timezone", message.as_str()));
        }
        let result = self.finish_record(input, &inputs.files[inputs.file], filter, outcomes);
        proof {
            assert(are_inputs(inputs, *input));
        }
        result
    }
}

impl HostedBasePlan {
    /// Completes the evaluation of a prepared record from whether the filter
    /// holds and the values of the planned properties.
    pub fn finish_record(
        &self,
        input: &HostedBaseRecordContext,
        file: &BasesFile,
        filter: Result<bool, BaseFailure>,
        outcomes: &Vec<PropertyOutcome>,
    ) -> (result: Result<HostedBaseEvaluation, CatalogError>)
        ensures
            is_evaluation(result, *self, *input, *file, filter, outcomes@),
    {
        broadcast use crate::json::lemma_object_model;

        let matched = match filter {
            Ok(matched) => matched,
            Err(failure) => {
                if let Some(error) = fatal(&failure) {
                    return Err(error);
                }
                let message = match failure {
                    BaseFailure::WorkBudget(message) => message,
                    BaseFailure::Cancelled(message) => message,
                    BaseFailure::Other(message) => message,
                };
                let mut details: Vec<Member> = Vec::new();
                proof {
                    assert(member_models(details@) =~= Seq::empty());
                }
                put_member(&mut details, "dialect", Json::text("obsidian.bases"));
                let diagnostic = Diagnostic {
                    severity: "warning".to_owned(),
                    code: "expression_evaluation_error".to_owned(),
                    message,
                    path: Some(input.projection.facts.path.clone()),
                    field: Some("filters".to_owned()),
                    record_type: None,
                    schema_location: None,
                    details: Some(Json::Object(details)),
                };
                let ghost model = diagnostic@;
                let mut diagnostics: Vec<Diagnostic> = Vec::new();
                diagnostics.push(diagnostic);
                proof {
                    assert(diagnostic_models(diagnostics@) =~= seq![model]);
                }
                return Ok(HostedBaseEvaluation::Excluded { diagnostics });
            },
        };
        if !matched {
            return Ok(HostedBaseEvaluation::Excluded { diagnostics: Vec::new() });
        }
        let computed = match compute_values(outcomes) {
            Ok(computed) => computed,
            Err(error) => {
                return Err(error);
            },
        };
        let mut values: Vec<Member> = Vec::new();
        let mut i: usize = 0;
        proof {
            assert(member_models(values@) =~= Seq::empty());
        }
        while i < self.view.order.len()
            invariant
                i <= self.view.order@.len(),
                member_models(values@) == picked_values(
                    self.view.order@,
                    member_models(computed@),
                    i as nat,
                ),
            decreases self.view.order@.len() - i,
        {
            let property = self.view.order[i].as_str();
            put_member(&mut values, property, copy_or_null(find_member(&computed, property)));
            i = i + 1;
        }
        let group_value = match &self.view.group_by {
            Some(group) => {
                let property = group.property.as_str();
                if !list_contains(&self.view.order, property) {
                    put_member(
                        &mut values,
                        property,
                        copy_or_null(find_member(&computed, property)),
                    );
                }
                Some(copy_or_null(find_member(&computed, property)))
            },
            None => None,
        };
        Ok(
            HostedBaseEvaluation::Included {
                row: Box::new(
                    HostedBaseRow {
                        path: input.projection.facts.path.clone(),
                        file: file_to_json(file),
                        effective_frontmatter: copy_members(
                            &input.projection.facts.effective_frontmatter,
                        ),
                        types: copy_texts(&input.projection.facts.types),
                        values,
                        sort_values: computed,
                        group_value,
                    },
                ),
            },
        )
    }
}

// ---------------------------------------------------------------------------
// Row order
// ---------------------------------------------------------------------------
/// The value of a sort term in a row; null where it has none.
pub open spec fn row_value(row: HostedBaseRow, term: BaseTerm) -> JsonModel {
    or_null(lookup(member_models(row.sort_values@), term.property@))
}

/// The order of two values under a term.
pub open spec fn term_order(term: BaseTerm, left: JsonModel, right: JsonModel) -> Order {
    let order = base_order(left, right);
    if same_ignoring_case(term.direction@, "DESC"@) {
        order.spec_reverse()
    } else {
        order
    }
}

/// The order of two lists of values and paths: by the first term from `from` on
/// that tells them apart, then by ascending path.
pub open spec fn key_order(
    terms: Seq<BaseTerm>,
    left: Seq<JsonModel>,
    left_path: Seq<char>,
    right: Seq<JsonModel>,
    right_path: Seq<char>,
    from: nat,
) -> Order
    decreases terms.len() - from,
{
    if from >= terms.len() {
        text_order(left_path, right_path)
    } else {
        let order = term_order(terms[from as int], left[from as int], right[from as int]);
        if order == Order::Equal {
            key_order(terms, left, left_path, right, right_path, from + 1)
        } else {
            order
        }
    }
}

/// The values that a row is ordered by.
pub open spec fn row_key(plan: HostedBasePlan, row: HostedBaseRow) -> Seq<JsonModel> {
    Seq::new(plan.view.sort@.len(), |i: int| row_value(row, plan.view.sort@[i]))
}

/// Exchanging two keys exchanges their order.
pub proof fn lemma_key_order_reverse(
    terms: Seq<BaseTerm>,
    left: Seq<JsonModel>,
    left_path: Seq<char>,
    right: Seq<JsonModel>,
    right_path: Seq<char>,
    from: nat,
)
    ensures
        key_order(terms, right, right_path, left, left_path, from) == key_order(
            terms,
            left,
            left_path,
            right,
            right_path,
            from,
        ).spec_reverse(),
    decreases terms.len() - from,
{
    if from >= terms.len() {
        crate::text::lemma_text_order_reverse(left_path, right_path);
    } else {
        crate::ordering::lemma_base_order_reverse(left[from as int], right[from as int]);
        lemma_key_order_reverse(terms, left, left_path, right, right_path, from + 1);
    }
}

/// Rows of different paths never compare as equal, so that a boundary neither
/// repeats nor drops a row.
pub proof fn lemma_key_order_is_strict(
    terms: Seq<BaseTerm>,
    left: Seq<JsonModel>,
    left_path: Seq<char>,
    right: Seq<JsonModel>,
    right_path: Seq<char>,
    from: nat,
)
    requires
        key_order(terms, left, left_path, right, right_path, from) == Order::Equal,
    ensures
        left_path == right_path,
    decreases terms.len() - from,
{
    if from >= terms.len() {
        crate::text::lemma_text_order_equal(left_path, right_path);
    } else {
        lemma_key_order_is_strict(terms, left, left_path, right, right_path, from + 1);
    }
}

fn compare_term(term: &BaseTerm, left: &Json, right: &Json) -> (result: Order)
    ensures
        result == term_order(*term, left@, right@),
{
    let order = compare_base_values(left, right);
    if eq_ignore_ascii_case(term.direction.as_str(), "DESC") {
        order.reverse()
    } else {
        order
    }
}

impl HostedBasePlan {
    /// The values that a cursor keeps of a row.
    pub fn row_order_values(&self, row: &HostedBaseRow) -> (result: Vec<Json>)
        ensures
            item_models(result@) == row_key(*self, *row),
            result@.len() == self.view.sort@.len(),
    {
        let mut values: Vec<Json> = Vec::new();
        let mut i: usize = 0;
        while i < self.view.sort.len()
            invariant
                i <= self.view.sort@.len(),
                values@.len() == i,
                forall|k: int|
                    0 <= k < i ==> (#[trigger] values@[k])@ == row_value(*row, self.view.sort@[k]),
            decreases self.view.sort@.len() - i,
        {
            let property = self.view.sort[i].property.as_str();
            values.push(copy_or_null(find_member(&row.sort_values, property)));
            i = i + 1;
        }
        proof {
            assert(item_models(values@) =~= row_key(*self, *row));
        }
        values
    }

    /// Compares two rows.
    pub fn compare_rows(&self, left: &HostedBaseRow, right: &HostedBaseRow) -> (result: Order)
        ensures
            result == key_order(
                self.view.sort@,
                row_key(*self, *left),
                left.path@,
                row_key(*self, *right),
                right.path@,
                0,
            ),
    {
        let a = self.row_order_values(left);
        let b = self.row_order_values(right);
        self.compare_keys(&a, left.path.as_str(), &b, right.path.as_str())
    }

    fn compare_keys(
        &self,
        left: &Vec<Json>,
        left_path: &str,
        right: &Vec<Json>,
        right_path: &str,
    ) -> (result: Order)
        requires
            left@.len() == self.view.sort@.len(),
            right@.len() == self.view.sort@.len(),
        ensures
            result == key_order(
                self.view.sort@,
                item_models(left@),
                left_path@,
                item_models(right@),
                right_path@,
                0,
            ),
    {
        let ghost a = item_models(left@);
        let ghost b = item_models(right@);
        let mut i: usize = 0;
        while i < self.view.sort.len()
            invariant
                i <= self.view.sort@.len(),
                left@.len() == self.view.sort@.len(),
                right@.len() == self.view.sort@.len(),
                a == item_models(left@),
                b == item_models(right@),
                key_order(self.view.sort@, a, left_path@, b, right_path@, 0) == key_order(
                    self.view.sort@,
                    a,
                    left_path@,
                    b,
                    right_path@,
                    i as nat,
                ),
            decreases self.view.sort@.len() - i,
        {
            let order = compare_term(&self.view.sort[i], &left[i], &right[i]);
            if !order.is_eq() {
                return order;
            }
            i = i + 1;
        }
        compare_text(left_path, right_path)
    }

    /// Compares a row with the place at which a page ended.
    pub fn compare_row_to_boundary(
        &self,
        row: &HostedBaseRow,
        boundary_values: &Vec<Json>,
        boundary_path: &str,
    ) -> (result: Result<Order, CatalogError>)
        ensures
            match result {
                Ok(order) => boundary_values@.len() == self.view.sort@.len() && order == key_order(
                    self.view.sort@,
                    row_key(*self, *row),
                    row.path@,
                    item_models(boundary_values@),
                    boundary_path@,
                    0,
                ),
                Err(error) => boundary_values@.len() != self.view.sort@.len() && error.is(
                    "hosted_base_cursor_mismatch"@,
                    "Obsidian Base cursor keyset does not match its semantic plan."@,
                ),
            },
    {
        if boundary_values.len() != self.view.sort.len() {
            return Err(
                CatalogError::new(
                    "hosted_base_cursor_mismatch",
                    "Obsidian Base cursor keyset does not match its semantic plan.",
                ),
            );
        }
        let values = self.row_order_values(row);
        Ok(self.compare_keys(&values, row.path.as_str(), boundary_values, boundary_path))
    }
}

/// A row compares with the boundary that a cursor keeps of another row exactly
/// as with that row itself.
pub proof fn lemma_boundary_stands_for_row(
    plan: HostedBasePlan,
    row: HostedBaseRow,
    other: HostedBaseRow,
    boundary: Seq<Json>,
)
    requires
        item_models(boundary) == row_key(plan, other),
    ensures
        key_order(
            plan.view.sort@,
            row_key(plan, row),
            row.path@,
            item_models(boundary),
            other.path@,
            0,
        ) == key_order(
            plan.view.sort@,
            row_key(plan, row),
            row.path@,
            row_key(plan, other),
            other.path@,
            0,
        ),
{
}

// ---------------------------------------------------------------------------
// Groups
// ---------------------------------------------------------------------------
/// A group of rows: the canonical text and the value that its rows share, and how
/// many they are.
#[derive(Debug)]
pub struct BaseGroup {
    pub text: String,
    pub value: Json,
    pub count: u64,
}

/// What a group holds.
pub struct BaseGroupModel {
    pub text: Seq<char>,
    pub value: JsonModel,
    pub count: int,
}

impl View for BaseGroup {
    type V = BaseGroupModel;

    open spec fn view(&self) -> BaseGroupModel {
        BaseGroupModel { text: self.text@, value: self.value@, count: self.count as int }
    }
}

/// What a list of groups holds.
pub open spec fn base_group_models(groups: Seq<BaseGroup>) -> Seq<BaseGroupModel> {
    Seq::new(groups.len(), |i: int| groups[i]@)
}

/// The position of a text among ascending texts.
pub open spec fn text_position(groups: Seq<BaseGroupModel>, text: Seq<char>) -> int
    decreases groups.len(),
{
    if groups.len() == 0 || text_order(groups[0].text, text) != Order::Less {
        0
    } else {
        1 + text_position(groups.drop_first(), text)
    }
}

proof fn lemma_text_position(groups: Seq<BaseGroupModel>, text: Seq<char>)
    ensures
        0 <= text_position(groups, text) <= groups.len(),
    decreases groups.len(),
{
    if groups.len() > 0 {
        lemma_text_position(groups.drop_first(), text);
    }
}

/// The groups with one more row.
pub open spec fn with_row(groups: Seq<BaseGroupModel>, value: JsonModel) -> Seq<BaseGroupModel> {
    let text = canonical_or_empty(value);
    let at = text_position(groups, text);
    if at < groups.len() && groups[at].text == text {
        groups.update(
            at,
            BaseGroupModel {
                text,
                value: groups[at].value,
                count: crate::hosted_reduction::one_more(groups[at].count),
            },
        )
    } else {
        groups.insert(at, BaseGroupModel { text, value, count: 1 })
    }
}

/// The group value of a row; null without one.
pub open spec fn group_value_of(row: HostedBaseRow) -> JsonModel {
    match row.group_value {
        Some(value) => value@,
        None => JsonModel::Null,
    }
}

/// The groups of the first rows, by ascending canonical text.
pub open spec fn groups_of_rows(rows: Seq<HostedBaseRow>, count: nat) -> Seq<BaseGroupModel>
    decreases count,
{
    if count == 0 || count > rows.len() {
        Seq::empty()
    } else {
        with_row(groups_of_rows(rows, (count - 1) as nat), group_value_of(rows[count - 1]))
    }
}

fn add_row(groups: &mut Vec<BaseGroup>, value: Json)
    ensures
        base_group_models(final(groups)@) == with_row(base_group_models(old(groups)@), value@),
{
    let ghost all = base_group_models(groups@);
    let text = canonical_text_or_empty(&value);
    let mut at: usize = 0;
    proof {
        assert(all.skip(0) =~= all);
    }
    while at < groups.len() && compare_text(groups[at].text.as_str(), text.as_str()).is_lt()
        invariant
            at <= groups@.len(),
            groups@ == old(groups)@,
            all == base_group_models(groups@),
            text_position(all, text@) == at + text_position(all.skip(at as int), text@),
        decreases groups@.len() - at,
    {
        proof {
            assert(all.skip(at as int).drop_first() =~= all.skip(at + 1));
            assert(all.skip(at as int)[0] == groups@[at as int]@);
        }
        at = at + 1;
    }
    proof {
        if at < groups@.len() {
            assert(all.skip(at as int)[0] == groups@[at as int]@);
        }
        assert(text_position(all, text@) == at);
    }
    if at < groups.len() && groups[at].text == text {
        let first = groups[at].value.copy();
        let count = groups[at].count.saturating_add(1);
        groups.set(at, BaseGroup { text, value: first, count });
    } else {
        groups.insert(at, BaseGroup { text, value, count: 1 });
    }
    proof {
        assert(base_group_models(groups@) =~= with_row(all, value@));
    }
}

/// How the groups at two positions compare.
pub open spec fn order_of_base_groups(groups: Seq<BaseGroupModel>) -> spec_fn(int, int) -> Order {
    |i: int, j: int| base_order(groups[i].value, groups[j].value)
}

struct BaseGroupOrder<'a> {
    groups: &'a Vec<BaseGroup>,
}

impl<'a> Comparison for BaseGroupOrder<'a> {
    closed spec fn count(&self) -> nat {
        self.groups@.len()
    }

    closed spec fn order(&self) -> spec_fn(int, int) -> Order {
        order_of_base_groups(base_group_models(self.groups@))
    }

    fn size(&self) -> (result: usize) {
        self.groups.len()
    }

    fn compare(&self, left: usize, right: usize) -> (result: Order) {
        compare_base_values(&self.groups[left].value, &self.groups[right].value)
    }
}

/// A group as a JSON value.
pub open spec fn base_group_value(property: Seq<char>, group: BaseGroupModel) -> JsonModel {
    let m = with_member(
        Seq::empty(),
        "values"@,
        JsonModel::Object(with_member(Seq::empty(), property, group.value)),
    );
    let m = with_member(m, "count"@, count_value(group.count));
    JsonModel::Object(with_member(m, "summaries"@, JsonModel::Object(Seq::empty())))
}

fn base_group_to_json(property: &str, group: &BaseGroup) -> (result: Json)
    ensures
        result@ == base_group_value(property@, group@),
{
    broadcast use crate::json::lemma_object_model;

    let mut values: Vec<Member> = Vec::new();
    let mut m: Vec<Member> = Vec::new();
    proof {
        assert(member_models(values@) =~= Seq::empty());
        assert(member_models(m@) =~= Seq::empty());
    }
    put_member(&mut values, property, group.value.copy());
    put_member(&mut m, "values", Json::Object(values));
    put_member(&mut m, "count", Json::unsigned(group.count));
    put_member(&mut m, "summaries", Json::empty_object());
    Json::Object(m)
}

/// Whether these are the groups of rows: in stable value order, reversed when
/// descending.
pub open spec fn are_base_groups(
    result: Seq<JsonModel>,
    rows: Seq<HostedBaseRow>,
    term: BaseTerm,
) -> bool {
    let groups = groups_of_rows(rows, rows.len());
    let descending = same_ignoring_case(term.direction@, "DESC"@);
    exists|positions: Seq<usize>| #[trigger]
        stably_sorted(groups.len(), order_of_base_groups(groups), positions)
            && lists_base_groups(
            result,
            arranged(groups, crate::query::directed_positions(positions, descending)),
            term,
        )
}

/// Whether these are the given groups.
pub open spec fn lists_base_groups(
    result: Seq<JsonModel>,
    ordered: Seq<BaseGroupModel>,
    term: BaseTerm,
) -> bool {
    result == Seq::new(ordered.len(), |i: int| base_group_value(term.property@, ordered[i]))
}

impl HostedBasePlan {
    /// The groups of some rows, where the view groups them.
    pub fn groups(&self, rows: &Vec<HostedBaseRow>) -> (result: Option<Vec<Json>>)
        ensures
            match result {
                Some(groups) => self.view.group_by is Some && are_base_groups(
                    item_models(groups@),
                    rows@,
                    self.view.group_by->0,
                ),
                None => self.view.group_by is None,
            },
    {
        let term = match &self.view.group_by {
            Some(term) => term,
            None => {
                return None;
            },
        };
        let mut groups: Vec<BaseGroup> = Vec::new();
        let mut i: usize = 0;
        proof {
            assert(base_group_models(groups@) =~= Seq::empty());
        }
        while i < rows.len()
            invariant
                i <= rows@.len(),
                base_group_models(groups@) == groups_of_rows(rows@, i as nat),
            decreases rows@.len() - i,
        {
            let value = match &rows[i].group_value {
                Some(value) => value.copy(),
                None => Json::Null,
            };
            add_row(&mut groups, value);
            i = i + 1;
        }
        let ghost models = base_group_models(groups@);
        let context = BaseGroupOrder { groups: &groups };
        let positions = sorted_positions(&context);
        let descending = eq_ignore_ascii_case(term.direction.as_str(), "DESC");
        let ghost directed = crate::query::directed_positions(positions@, descending);
        let ghost ordered = arranged(models, directed);
        proof {
            assert(stably_sorted(models.len(), order_of_base_groups(models), positions@));
        }
        let count = positions.len();
        let mut result: Vec<Json> = Vec::new();
        let mut k: usize = 0;
        while k < count
            invariant
                k <= count,
                count == positions@.len(),
                count == groups@.len(),
                models == base_group_models(groups@),
                directed == crate::query::directed_positions(positions@, descending),
                ordered == arranged(models, directed),
                forall|m: int| 0 <= m < count ==> (#[trigger] positions@[m]) < count,
                result@.len() == k,
                forall|m: int|
                    0 <= m < k ==> (#[trigger] result@[m])@ == base_group_value(
                        term.property@,
                        ordered[m],
                    ),
            decreases count - k,
        {
            let at = if descending {
                positions[count - 1 - k]
            } else {
                positions[k]
            };
            proof {
                assert(directed[k as int] == at);
                assert(ordered[k as int] == groups@[at as int]@);
            }
            result.push(base_group_to_json(term.property.as_str(), &groups[at]));
            k = k + 1;
        }
        proof {
            assert(item_models(result@) =~= Seq::new(
                ordered.len(),
                |i: int| base_group_value(term.property@, ordered[i]),
            ));
            assert(lists_base_groups(item_models(result@), ordered, *term));
        }
        Some(result)
    }
}

} // verus!
