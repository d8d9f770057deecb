//! Judging records by a hosted plan: candidate verdicts, the residual of
//! retained records, and the order of results.

use crate::canonical::{digest_json, json_digest};
use crate::catalog::ExactRecord;
use crate::diagnostics::{diagnostic_models, CatalogError, Diagnostic, OperationResult};
use crate::diff::SnapshotModel;
use crate::execute::{
    append_candidate_diagnostics, candidate_diagnostics, is_selected, EvaluatedCandidate,
    StageFault,
};
use crate::expressions::Expr;
use crate::hosted_compile::{
    filter_expression, join_messages, joined, lemma_parts_are_no_controls, lowered_filter,
    query_fault,
};
use crate::hosted_mutation::{fault, fault_of, CatalogFault};
use crate::hosted_plan::{
    is_sealed, unsigned_plan, CandidateField, FieldModel, HostedOrder, HostedQueryPlan,
    HOSTED_QUERY_PLAN_VERSION,
};
use crate::hosted_query::{
    lemma_semantic_lookup, plan_condition, type_condition, CompiledCatalog, QueryEnvelope,
    QueryFacts,
};
use crate::json::{
    array_texts, copy_members, copy_or_null, item_models, lemma_lookup_with_member, lookup,
    member_models, member_of, nested_member, or_null, put_member, text_member, text_models,
    texts_of, with_member, Json, JsonModel,
};
use crate::lowering::{
    evaluate_predicate, find_below, is_canonical, lemma_lowering_is_sound, lemma_pair_truth,
    predicate_truth, value_below, Truth,
};
use crate::ordering::{compare_hosted_values, value_order};
use crate::projection::{CanonicalRecordInput, ProjectionFormat, SemanticProjection};
use crate::query_envelope::{decoded_envelope, EnvelopeModel};
use crate::text::{
    compare_text, concat3, copy_optional, copy_texts, has_wanted_type, is_wanted, lists_text,
    lower_case, merge_texts, merged_texts, optional_text, same_ignoring_case, text_order, texts,
    Order,
};
use vstd::prelude::*;
use vstd::string::StringExecFns;
use vstd::utf8::encode_utf8;

verus! {

#[derive(Debug, Clone, Copy, PartialEq, Eq, Structural)]
pub enum ProjectionAvailability {
    Current,
    Stale,
    Absent,
}

#[derive(Debug, Clone, Copy, PartialEq, Eq, Structural)]
pub enum CandidateVerdict {
    Retain,
    Reject,
    CanonicalRequired,
}

/// Whether a projection is complete, in the current format, and made by the
/// engine and under the catalog of the plan.
pub open spec fn is_current(
    plan: HostedQueryPlan,
    projection: SemanticProjection,
    format: ProjectionFormat,
) -> bool {
    &&& projection.facts.semantic_complete
    &&& projection.facts.schema_version@ == format.projection_schema@
    &&& projection.facts.format_version == format.format_version
    &&& projection.facts.semantic_engine_version@ == plan.semantic_engine_version@
    &&& projection.facts.catalog_revision@ == plan.catalog_revision@
    &&& projection.structure.schema_version@ == format.structure_schema@
    &&& projection.structure.path@ == projection.facts.path@
    &&& projection.structure.structural_digest_is_valid
}

pub fn projection_is_current_for_plan(
    plan: &HostedQueryPlan,
    projection: &SemanticProjection,
    format: &ProjectionFormat,
) -> (result: bool)
    ensures
        result == is_current(*plan, *projection, *format),
{
    projection.facts.semantic_complete && projection.facts.schema_version
        == format.projection_schema && projection.facts.format_version == format.format_version
        && projection.facts.semantic_engine_version == plan.semantic_engine_version
        && projection.facts.catalog_revision == plan.catalog_revision
        && projection.structure.schema_version == format.structure_schema
        && projection.structure.path == projection.facts.path
        && projection.structure.structural_digest_is_valid
}

/// Whether a plan still carries its own digest.
pub open spec fn is_intact(plan: HostedQueryPlan) -> bool {
    json_digest(unsigned_plan(plan)) == Some(plan.plan_digest@)
}

/// What may be done with a record, going by its projection alone.
pub open spec fn verdict(
    plan: HostedQueryPlan,
    projection: Option<SemanticProjection>,
    availability: ProjectionAvailability,
    format: ProjectionFormat,
) -> CandidateVerdict {
    match projection {
        Some(projection) => if !is_intact(plan) || availability != ProjectionAvailability::Current
            || !is_current(plan, projection, format) {
            CandidateVerdict::CanonicalRequired
        } else {
            match predicate_truth(plan.candidate@, projection) {
                Truth::True => if plan.residual.filter_fully_projected {
                    CandidateVerdict::Retain
                } else {
                    CandidateVerdict::CanonicalRequired
                },
                Truth::Unknown => CandidateVerdict::CanonicalRequired,
                Truth::False => if plan.requirements.diagnostic_type_matchers {
                    CandidateVerdict::CanonicalRequired
                } else {
                    CandidateVerdict::Reject
                },
            }
        },
        None => CandidateVerdict::CanonicalRequired,
    }
}

/// A record is rejected only on a current projection and an intact plan whose
/// condition is false of it; stale, absent, or incomplete projections always
/// reach the canonical evaluation.
pub proof fn lemma_rejection_needs_proof(
    plan: HostedQueryPlan,
    projection: Option<SemanticProjection>,
    availability: ProjectionAvailability,
    format: ProjectionFormat,
)
    ensures
        verdict(plan, projection, availability, format) == CandidateVerdict::Reject ==> {
            &&& availability == ProjectionAvailability::Current
            &&& projection is Some
            &&& is_intact(plan)
            &&& is_current(plan, projection->0, format)
            &&& predicate_truth(plan.candidate@, projection->0) == Truth::False
            &&& !plan.requirements.diagnostic_type_matchers
        },
{
}

/// A record that a compiled plan rejects cannot match its query: it has none of
/// the query's types, or the filter does not hold of it, whatever the canonical
/// evaluator makes of the parts of the filter that were not lowered.
pub proof fn lemma_rejected_records_cannot_match(
    catalog: CompiledCatalog,
    plan: HostedQueryPlan,
    input: JsonModel,
    facts: QueryFacts,
    projection: SemanticProjection,
    availability: ProjectionAvailability,
    format: ProjectionFormat,
    meaning: spec_fn(Expr) -> Truth,
)
    requires
        catalog.is_plan(plan, input, facts),
        verdict(plan, Some(projection), availability, format) == CandidateVerdict::Reject,
        is_canonical(meaning, projection),
    ensures
        ({
            let envelope = decoded_envelope(input)->0;
    let types = envelope.types;
            let filter = filter_expression(envelope, facts);
            ||| types.len() > 0 && forall|i: int|
                0 <= i < types.len() ==> !lists_text(
                    projection.facts.types@,
                    lower_case(#[trigger] types[i]),
                )
            ||| filter is Some && meaning(filter->0) != Truth::True
        }),
{
    let envelope = decoded_envelope(input)->0;
    let types = envelope.types;
    let filter = filter_expression(envelope, facts);
    let lowered = lowered_filter(envelope, facts);
    assert(plan.candidate@ == plan_condition(types, lowered));
    assert(predicate_truth(plan.candidate@, projection) == Truth::False);
    let condition = type_condition(types);
    let terms = condition->Or_0;
    if lowered is Some {
        lemma_lowering_is_sound(filter->0, meaning, projection);
    }
    if predicate_truth(condition, projection) == Truth::False {
        assert forall|i: int| 0 <= i < types.len() implies !lists_text(
            projection.facts.types@,
            lower_case(#[trigger] types[i]),
        ) by {
            assert(terms[i] == crate::hosted_plan::PredicateModel::HasType(
                lower_case(types[i]),
            ));
            assert(predicate_truth(terms[i], projection) != Truth::True);
        }
    }
    match lowered {
        Some((filter_condition, _)) => {
            if types.len() > 0 {
                let both = seq![condition, filter_condition];
                lemma_pair_truth(both, projection);
            }
        },
        None => {},
    }
}

/// The value of a term; null where a list has none.
pub open spec fn value_at(values: Seq<Json>, term: int) -> JsonModel {
    if 0 <= term < values.len() {
        values[term]@
    } else {
        JsonModel::Null
    }
}

/// The order of two results: by the first term from `from` on that tells them
/// apart, then by ascending path.
pub open spec fn result_order(
    terms: Seq<HostedOrder>,
    left: Seq<Json>,
    left_path: Seq<char>,
    right: Seq<Json>,
    right_path: Seq<char>,
    from: nat,
) -> Order
    decreases terms.len() - from,
{
    if from >= terms.len() {
        text_order(left_path, right_path)
    } else {
        let order = terms[from as int].direction.directed(
            value_order(value_at(left, from as int), value_at(right, from as int)),
        );
        if order == Order::Equal {
            result_order(terms, left, left_path, right, right_path, from + 1)
        } else {
            order
        }
    }
}

/// Exchanging two results exchanges their order.
pub proof fn lemma_result_order_reverse(
    terms: Seq<HostedOrder>,
    left: Seq<Json>,
    left_path: Seq<char>,
    right: Seq<Json>,
    right_path: Seq<char>,
    from: nat,
)
    ensures
        result_order(terms, right, right_path, left, left_path, from) == result_order(
            terms,
            left,
            left_path,
            right,
            right_path,
            from,
        ).spec_reverse(),
    decreases terms.len() - from,
{
    if from >= terms.len() {
        crate::text::lemma_text_order_reverse(left_path, right_path);
    } else {
        crate::ordering::lemma_value_order_reverse(
            value_at(left, from as int),
            value_at(right, from as int),
        );
        lemma_result_order_reverse(terms, left, left_path, right, right_path, from + 1);
    }
}

/// Distinct paths are never tied, so pages can be cut at any result.
pub proof fn lemma_result_order_is_strict(
    terms: Seq<HostedOrder>,
    left: Seq<Json>,
    left_path: Seq<char>,
    right: Seq<Json>,
    right_path: Seq<char>,
    from: nat,
)
    requires
        left_path != right_path,
    ensures
        result_order(terms, left, left_path, right, right_path, from) != Order::Equal,
    decreases terms.len() - from,
{
    if from >= terms.len() {
        crate::text::lemma_text_order_equal(left_path, right_path);
    } else {
        lemma_result_order_is_strict(terms, left, left_path, right, right_path, from + 1);
    }
}

impl HostedQueryPlan {
    /// Judges a record by its projection. Only a proven mismatch rejects it.
    pub fn candidate_verdict(
        &self,
        projection: Option<&SemanticProjection>,
        availability: ProjectionAvailability,
        format: &ProjectionFormat,
    ) -> (result: CandidateVerdict)
        ensures
            result == verdict(
                *self,
                match projection {
                    Some(projection) => Some(*projection),
                    None => None,
                },
                availability,
                *format,
            ),
    {
        match self.integrity_digest() {
            Ok(digest) => {
                if digest != self.plan_digest {
                    return CandidateVerdict::CanonicalRequired;
                }
            },
            Err(_) => {
                return CandidateVerdict::CanonicalRequired;
            },
        }
        if availability != ProjectionAvailability::Current {
            return CandidateVerdict::CanonicalRequired;
        }
        match projection {
            None => CandidateVerdict::CanonicalRequired,
            Some(projection) => {
                if !projection_is_current_for_plan(self, projection, format) {
                    return CandidateVerdict::CanonicalRequired;
                }
                match evaluate_predicate(&self.candidate, projection) {
                    Truth::True => if self.residual.filter_fully_projected {
                        CandidateVerdict::Retain
                    } else {
                        CandidateVerdict::CanonicalRequired
                    },
                    Truth::Unknown => CandidateVerdict::CanonicalRequired,
                    Truth::False => if self.requirements.diagnostic_type_matchers {
                        CandidateVerdict::CanonicalRequired
                    } else {
                        CandidateVerdict::Reject
                    },
                }
            },
        }
    }

    /// Compares two results by their order values; the path is the last,
    /// ascending tie-break.
    pub fn compare_order_values(
        &self,
        left_values: &Vec<Json>,
        left_path: &str,
        right_values: &Vec<Json>,
        right_path: &str,
    ) -> (result: Order)
        ensures
            result == result_order(
                self.order@,
                left_values@,
                left_path@,
                right_values@,
                right_path@,
                0,
            ),
    {
        let null = Json::Null;
        let mut i: usize = 0;
        while i < self.order.len()
            invariant
                i <= self.order@.len(),
                null@ == JsonModel::Null,
                result_order(
                    self.order@,
                    left_values@,
                    left_path@,
                    right_values@,
                    right_path@,
                    0,
                ) == result_order(
                    self.order@,
                    left_values@,
                    left_path@,
                    right_values@,
                    right_path@,
                    i as nat,
                ),
            decreases self.order@.len() - i,
        {
            let a = if i < left_values.len() {
                &left_values[i]
            } else {
                &null
            };
            let b = if i < right_values.len() {
                &right_values[i]
            } else {
                &null
            };
            let order = compare_hosted_values(a, b, self.order[i].direction);
            if !order.is_eq() {
                return order;
            }
            i = i + 1;
        }
        compare_text(left_path, right_path)
    }
}

// ---------------------------------------------------------------------------
// Residuals
// ---------------------------------------------------------------------------
/// A matched record, as the operators of a plan read it.
#[derive(Debug)]
pub struct HostedCandidate {
    pub path: String,
    pub types: Vec<String>,
    pub raw: Json,
    pub effective: Json,
    pub file: Json,
}

/// The value that a matched record has for a field; null where it has none.
pub open spec fn candidate_value(candidate: HostedCandidate, field: FieldModel) -> JsonModel {
    match field {
        FieldModel::Path => JsonModel::Text(candidate.path@),
        FieldModel::Types => JsonModel::Array(text_models(texts(candidate.types@))),
        FieldModel::File(name) => or_null(member_of(candidate.file@, name)),
        FieldModel::PersistedFrontmatter(path) => or_null(value_below(candidate.raw@, path)),
        FieldModel::EffectiveFrontmatter(path) => or_null(value_below(candidate.effective@, path)),
        FieldModel::BodyTags => or_null(member_of(candidate.file@, "tags"@)),
    }
}

pub fn hosted_candidate_value(candidate: &HostedCandidate, field: &CandidateField) -> (result: Json)
    ensures
        result@ == candidate_value(*candidate, field@),
{
    match field {
        CandidateField::Path => Json::text(candidate.path.as_str()),
        CandidateField::Types => Json::text_array(&candidate.types),
        CandidateField::File(name) => copy_or_null(candidate.file.get(name.as_str())),
        CandidateField::PersistedFrontmatter(path) => {
            proof {
                assert(texts(path@).skip(0) =~= texts(path@));
            }
            copy_or_null(find_below(&candidate.raw, path, 0))
        },
        CandidateField::EffectiveFrontmatter(path) => {
            proof {
                assert(texts(path@).skip(0) =~= texts(path@));
            }
            copy_or_null(find_below(&candidate.effective, path, 0))
        },
        CandidateField::BodyTags => copy_or_null(candidate.file.get("tags")),
    }
}

/// The values that the order terms of a plan read from a record.
pub open spec fn order_inputs(plan: HostedQueryPlan, candidate: HostedCandidate) -> Seq<JsonModel> {
    Seq::new(
        plan.order@.len(),
        |i: int| candidate_value(candidate, plan.order@[i].field@),
    )
}

/// The values that the group terms of a plan read from a record.
pub open spec fn group_inputs(plan: HostedQueryPlan, candidate: HostedCandidate) -> Seq<JsonModel> {
    Seq::new(
        plan.groups@.len(),
        |i: int| candidate_value(candidate, plan.groups@[i].field@),
    )
}

/// The values that the summaries of a plan read from a record.
pub open spec fn aggregate_inputs(plan: HostedQueryPlan, candidate: HostedCandidate) -> Seq<
    JsonModel,
> {
    Seq::new(
        plan.aggregates@.len(),
        |i: int| candidate_value(candidate, plan.aggregates@[i].field@),
    )
}

/// What judging one retained record gave.
#[derive(Debug)]
pub struct HostedResidualEvaluation {
    pub matched: bool,
    pub record: Option<Json>,
    pub diagnostics: Vec<Diagnostic>,
    pub order_values: Vec<Json>,
    pub group_values: Vec<Json>,
    pub aggregate_values: Vec<Json>,
}

/// Whether this is the evaluation of a record that matched.
pub open spec fn is_match(
    evaluation: HostedResidualEvaluation,
    plan: HostedQueryPlan,
    candidate: HostedCandidate,
    serialized: JsonModel,
) -> bool {
    &&& evaluation.matched
    &&& evaluation.record is Some
    &&& evaluation.record->0@ == serialized
    &&& item_models(evaluation.order_values@) == order_inputs(plan, candidate)
    &&& item_models(evaluation.group_values@) == group_inputs(plan, candidate)
    &&& item_models(evaluation.aggregate_values@) == aggregate_inputs(plan, candidate)
}

/// Whether this is the evaluation of a record that did not match.
pub open spec fn is_mismatch(evaluation: HostedResidualEvaluation) -> bool {
    &&& !evaluation.matched
    &&& evaluation.record is None
    &&& evaluation.order_values@.len() == 0
    &&& evaluation.group_values@.len() == 0
    &&& evaluation.aggregate_values@.len() == 0
}

fn unmatched(diagnostics: Vec<Diagnostic>) -> (result: HostedResidualEvaluation)
    ensures
        is_mismatch(result),
        result.diagnostics == diagnostics,
{
    HostedResidualEvaluation {
        matched: false,
        record: None,
        diagnostics,
        order_values: Vec::new(),
        group_values: Vec::new(),
        aggregate_values: Vec::new(),
    }
}

fn matched(
    plan: &HostedQueryPlan,
    candidate: &HostedCandidate,
    serialized: &Json,
    diagnostics: Vec<Diagnostic>,
) -> (result: HostedResidualEvaluation)
    ensures
        is_match(result, *plan, *candidate, serialized@),
        result.diagnostics == diagnostics,
{
    let mut order_values: Vec<Json> = Vec::new();
    let mut i: usize = 0;
    while i < plan.order.len()
        invariant
            i <= plan.order@.len(),
            order_values@.len() == i,
            forall|k: int|
                0 <= k < i ==> (#[trigger] order_values@[k])@ == candidate_value(
                    *candidate,
                    plan.order@[k].field@,
                ),
        decreases plan.order@.len() - i,
    {
        order_values.push(hosted_candidate_value(candidate, &plan.order[i].field));
        i = i + 1;
    }
    let mut group_values: Vec<Json> = Vec::new();
    let mut i: usize = 0;
    while i < plan.groups.len()
        invariant
            i <= plan.groups@.len(),
            group_values@.len() == i,
            forall|k: int|
                0 <= k < i ==> (#[trigger] group_values@[k])@ == candidate_value(
                    *candidate,
                    plan.groups@[k].field@,
                ),
        decreases plan.groups@.len() - i,
    {
        group_values.push(hosted_candidate_value(candidate, &plan.groups[i].field));
        i = i + 1;
    }
    let mut aggregate_values: Vec<Json> = Vec::new();
    let mut i: usize = 0;
    while i < plan.aggregates.len()
        invariant
            i <= plan.aggregates@.len(),
            aggregate_values@.len() == i,
            forall|k: int|
                0 <= k < i ==> (#[trigger] aggregate_values@[k])@ == candidate_value(
                    *candidate,
                    plan.aggregates@[k].field@,
                ),
        decreases plan.aggregates@.len() - i,
    {
        aggregate_values.push(hosted_candidate_value(candidate, &plan.aggregates[i].field));
        i = i + 1;
    }
    proof {
        assert(item_models(order_values@) =~= order_inputs(*plan, *candidate));
        assert(item_models(group_values@) =~= group_inputs(*plan, *candidate));
        assert(item_models(aggregate_values@) =~= aggregate_inputs(*plan, *candidate));
    }
    HostedResidualEvaluation {
        matched: true,
        record: Some(serialized.copy()),
        diagnostics,
        order_values,
        group_values,
        aggregate_values,
    }
}

/// What preparing a residual query found.
#[derive(Debug)]
pub struct ResidualFacts {
    pub has_projections: bool,
    pub has_selections: bool,
    pub link_graph: bool,
    /// The path of the context record, where the query needs one.
    pub context_path: Option<String>,
}

/// What preparing a residual query gave: the messages of its errors, or its facts.
#[derive(Debug)]
pub enum ResidualAnalysis {
    Unprepared(Vec<String>),
    Ready(ResidualFacts),
}

/// What is known of the clock that the expressions of a query are evaluated with.
#[derive(Debug)]
pub struct ClockFacts {
    /// What is wrong with the time zone, if anything.
    pub timezone_error: Option<String>,
    /// Why there is no clock, if there is none.
    pub clock_error: Option<StageFault>,
}

/// What evaluating a residual query on an exact record gave, with the record's
/// frontmatter with defaults and computed fields applied, and the facts of its file.
#[derive(Debug)]
pub struct ResidualEvidence {
    pub effective: Json,
    pub file: Json,
    pub evaluated: EvaluatedCandidate,
}

/// A record supplied as the context of a query, with what reading it gave.
#[derive(Debug)]
pub struct ContextRecord {
    pub record: CanonicalRecordInput,
    pub read: OperationResult,
}

/// What the expressions of a query see of its context record.
#[derive(Debug)]
pub struct QueryContext {
    pub path: String,
    pub effective: Json,
    pub persisted: Json,
    pub types: Vec<String>,
    pub body: Option<String>,
    pub file_size: u64,
    pub file_mtime: Option<String>,
}

/// The parts of a plan's residual query.
pub open spec fn residual_query(plan: HostedQueryPlan) -> Option<EnvelopeModel> {
    decoded_envelope(plan.residual.query@)
}

/// The error of a residual query that could not be read back.
pub open spec fn residual_error(plan: HostedQueryPlan, analysis: ResidualAnalysis) -> Option<
    (Seq<char>, Seq<char>),
> {
    match residual_query(plan) {
        None => Some(
            (
                "invalid_query"@,
                "Query could not be decoded: a member has an unexpected shape."@,
            ),
        ),
        Some(_) => match analysis {
            ResidualAnalysis::Unprepared(messages) => Some(
                ("invalid_query"@, joined(messages@, messages@.len())),
            ),
            ResidualAnalysis::Ready(_) => None,
        },
    }
}

impl CompiledCatalog {
    /// Whether a plan was made under this catalog and is intact.
    pub open spec fn binds(&self, plan: HostedQueryPlan) -> bool {
        &&& is_sealed(plan)
        &&& plan.catalog_revision@ == self.resource_revision@
        &&& plan.semantic_engine_version@ == self.engine_version@
    }

    /// The error of a plan that is not bound to this catalog.
    pub open spec fn is_binding_error(&self, plan: HostedQueryPlan, error: CatalogError) -> bool {
        if plan.version == HOSTED_QUERY_PLAN_VERSION && plan.catalog_revision@
            == self.resource_revision@ && plan.semantic_engine_version@ == self.engine_version@
            && json_digest(unsigned_plan(plan)) is None {
            error.code@ == "invalid_hosted_query_plan"@
        } else {
            error.is(
                "hosted_query_plan_mismatch"@,
                "Hosted query plan is not bound to the current semantic catalog."@,
            )
        }
    }

    /// Checks that a plan was made under this catalog and is intact.
    pub fn check_binding(&self, plan: &HostedQueryPlan) -> (result: Result<(), CatalogError>)
        ensures
            match result {
                Ok(_) => self.binds(*plan),
                Err(error) => !self.binds(*plan) && self.is_binding_error(*plan, error),
            },
    {
        if plan.version == HOSTED_QUERY_PLAN_VERSION && plan.catalog_revision
            == self.resource_revision && plan.semantic_engine_version == self.engine_version {
            match plan.integrity_digest() {
                Err(error) => {
                    return Err(error);
                },
                Ok(digest) => {
                    if digest == plan.plan_digest {
                        return Ok(());
                    }
                },
            }
        }
        Err(
            CatalogError::new(
                "hosted_query_plan_mismatch",
                "Hosted query plan is not bound to the current semantic catalog.",
            ),
        )
    }

    /// Whether the residual query has the digest that the plan was made with.
    pub open spec fn residual_intact(plan: HostedQueryPlan) -> bool {
        json_digest(plan.residual.query@) == Some(plan.canonical_query_digest@)
    }

    /// Whether a record is the context that a residual query needs.
    pub open spec fn context_supplied(
        facts: ResidualFacts,
        context: Option<ContextRecord>,
    ) -> bool {
        match facts.context_path {
            None => true,
            Some(path) => context is Some && context->0.record.path@ == path@,
        }
    }

    /// Judges one retained exact record by a plan. `context` is the record that the
    /// query names as its context, `analysis` what preparing the residual query gave,
    /// `clock` what is known of the operation's clock, and `evidence` what evaluating
    /// the query on the record gave.
    pub fn evaluate_hosted_residual_with_context(
        &self,
        plan: &HostedQueryPlan,
        exact: &ExactRecord,
        context: Option<&ContextRecord>,
        analysis: &ResidualAnalysis,
        clock: &ClockFacts,
        evidence: ResidualEvidence,
    ) -> (result: Result<HostedResidualEvaluation, CatalogError>)
        ensures
            self.judges_record(
                result,
                *plan,
                *exact,
                match context {
                    Some(context) => Some(*context),
                    None => None,
                },
                *analysis,
                *clock,
                evidence,
            ),
    {
        if let Err(error) = self.check_binding(plan) {
            return Err(error);
        }
        match digest_json(&plan.residual.query) {
            Err(reason) => {
                return Err(
                    CatalogError {
                        code: "invalid_query".to_owned(),
                        message: "Residual query could not be canonicalized: ".to_owned().concat(
                            reason.as_str(),
                        ),
                    },
                );
            },
            Ok(digest) => {
                if digest != plan.canonical_query_digest {
                    return Err(
                        CatalogError::new(
                            "hosted_query_plan_mismatch",
                            "Residual query digest does not match its compiled plan.",
                        ),
                    );
                }
            },
        }
        let (query, facts) = match ready_query(plan, analysis) {
            Ok(found) => found,
            Err(error) => {
                return Err(error);
            },
        };
        if facts.link_graph {
            return Err(
                CatalogError::new(
                    "hosted_collection_context_required",
                    "This query requires a bounded relationship-graph residual.",
                ),
            );
        }
        if let Some(expected) = &facts.context_path {
            let supplied = match context {
                Some(context) => if context.record.path == *expected {
                    Some(context)
                } else {
                    None
                },
                None => None,
            };
            match supplied {
                None => {
                    return Err(
                        CatalogError::new(
                            "context_not_found",
                            concat3(
                                "Query context record '",
                                expected.as_str(),
                                "' was not supplied.",
                            ).as_str(),
                        ),
                    );
                },
                Some(context) => {
                    if let Err(error) = hosted_query_context(&context.record, &context.read) {
                        return Err(error);
                    }
                },
            }
        }
        let classified = match self.classify_exact(exact) {
            Ok(classified) => classified,
            Err(error) => {
                return Err(error);
            },
        };
        let evaluated = evidence.evaluated;
        if has_wanted_type(&evaluated.types, &query.types) {
            if let Err(error) = check_clock(clock) {
                return Err(error);
            }
        }
        let mut diagnostics: Vec<Diagnostic> = Vec::new();
        let selected = append_candidate_diagnostics(&mut diagnostics, &evaluated, &query.types);
        proof {
            assert(diagnostic_models(diagnostics@) =~= candidate_diagnostics(
                evaluated,
                query@.types,
            ));
        }
        if selected {
            let candidate = HostedCandidate {
                path: exact.record.path.clone(),
                types: copy_texts(&evaluated.types),
                raw: classified.frontmatter,
                effective: evidence.effective,
                file: evidence.file,
            };
            proof {
                assert(is_exact_candidate(candidate, *exact, evidence));
            }
            Ok(matched(plan, &candidate, &evaluated.serialized, diagnostics))
        } else {
            Ok(unmatched(diagnostics))
        }
    }

    /// Judges one retained exact record by a plan whose query names no context.
    pub fn evaluate_hosted_residual(
        &self,
        plan: &HostedQueryPlan,
        exact: &ExactRecord,
        analysis: &ResidualAnalysis,
        clock: &ClockFacts,
        evidence: ResidualEvidence,
    ) -> (result: Result<HostedResidualEvaluation, CatalogError>)
        ensures
            self.judges_record(result, *plan, *exact, None, *analysis, *clock, evidence),
    {
        self.evaluate_hosted_residual_with_context(
            plan,
            exact,
            None,
            analysis,
            clock,
            evidence,
        )
    }

    /// Whether this is the judgement of one exact record.
    pub open spec fn judges_record(
        &self,
        result: Result<HostedResidualEvaluation, CatalogError>,
        plan: HostedQueryPlan,
        exact: ExactRecord,
        context: Option<ContextRecord>,
        analysis: ResidualAnalysis,
        clock: ClockFacts,
        evidence: ResidualEvidence,
    ) -> bool {
        let facts = analysis->Ready_0;
        let wanted = residual_query(plan)->0.types;
        let evaluated = evidence.evaluated;
        if !self.binds(plan) {
            result is Err && self.is_binding_error(plan, result->Err_0)
        } else if json_digest(plan.residual.query@) is None {
            result is Err && result->Err_0.code@ == "invalid_query"@
        } else if !Self::residual_intact(plan) {
            result is Err && result->Err_0.is(
                "hosted_query_plan_mismatch"@,
                "Residual query digest does not match its compiled plan."@,
            )
        } else if let Some((code, message)) = residual_error(plan, analysis) {
            result is Err && result->Err_0.is(code, message)
        } else if facts.link_graph {
            result is Err && result->Err_0.is(
                "hosted_collection_context_required"@,
                "This query requires a bounded relationship-graph residual."@,
            )
        } else if !Self::context_supplied(facts, context) {
            result is Err && result->Err_0.is(
                "context_not_found"@,
                "Query context record '"@ + facts.context_path->0@ + "' was not supplied."@,
            )
        } else if facts.context_path is Some && !context->0.read.valid {
            result is Err && result->Err_0.is(
                "context_invalid"@,
                "Query context record '"@ + facts.context_path->0@
                    + "' is not canonically readable."@,
            )
        } else if exact.classification() is Err {
            result is Err && exact.classification() == Err::<SnapshotModel, _>(
                fault_of(result->Err_0),
            )
        } else if is_wanted(evaluated.types@, wanted) && clock_fault(clock) is Some {
            result is Err && clock_fault(clock) == Some(fault_of(result->Err_0))
        } else {
            &&& result is Ok
            &&& diagnostic_models(result->Ok_0.diagnostics@) == candidate_diagnostics(
                evaluated,
                wanted,
            )
            &&& if is_selected(evaluated, wanted) {
                exists|candidate: HostedCandidate| #[trigger]
                    is_exact_candidate(candidate, exact, evidence) && is_match(
                        result->Ok_0,
                        plan,
                        candidate,
                        evaluated.serialized@,
                    )
            } else {
                is_mismatch(result->Ok_0)
            }
        }
    }

    /// Whether a plan can be judged by projections alone.
    pub open spec fn projection_suffices(plan: HostedQueryPlan) -> bool {
        !plan.requirements.exact_document && !plan.requirements.body_prose
            && !plan.requirements.structural_body_facts && !plan.requirements.collection_context
    }

    /// Whether a residual query can be judged by projections alone.
    pub open spec fn facts_suffice(query: EnvelopeModel, facts: ResidualFacts) -> bool {
        !facts.has_projections && !facts.has_selections && !query.include_body
            && facts.context_path is None && !facts.link_graph
    }

    /// Judges one record by its projection, without its exact text, where plan
    /// and projection prove that this is enough. `file` holds the facts of its file
    /// without what the projection adds, `filter` what the filter gave, where the
    /// query has one, and `serialized` the record as a row of the result. Facts of the
    /// file that the row has are replaced by those that the projection completes.
    pub fn evaluate_hosted_projection_residual(
        &self,
        plan: &HostedQueryPlan,
        projection: &SemanticProjection,
        format: &ProjectionFormat,
        analysis: &ResidualAnalysis,
        clock: &ClockFacts,
        file: Json,
        filter: Option<Result<Json, Diagnostic>>,
        serialized: &Json,
    ) -> (result: Result<HostedResidualEvaluation, CatalogError>)
        ensures
            self.judges_projection(
                result,
                *plan,
                *projection,
                *format,
                *analysis,
                *clock,
                file@,
                filter,
                serialized@,
            ),
    {
        if let Err(error) = self.check_binding(plan) {
            return Err(error);
        }
        if plan.requirements.exact_document || plan.requirements.body_prose
            || plan.requirements.structural_body_facts || plan.requirements.collection_context
            || !projection_is_current_for_plan(plan, projection, format) {
            return Err(
                CatalogError::new(
                    "hosted_exact_residual_required",
                    "This query or projection requires exact canonical evaluation.",
                ),
            );
        }
        let (query, facts) = match ready_query(plan, analysis) {
            Ok(found) => found,
            Err(error) => {
                return Err(error);
            },
        };
        if facts.has_projections || facts.has_selections || query.include_body
            || facts.context_path.is_some() || facts.link_graph {
            return Err(
                CatalogError::new(
                    "hosted_exact_residual_required",
                    "This query requires an exact or collection-context residual.",
                ),
            );
        }
        if !has_wanted_type(&projection.facts.types, &query.types) {
            return Ok(unmatched(Vec::new()));
        }
        if let Err(error) = check_clock(clock) {
            return Err(error);
        }
        let mut diagnostics: Vec<Diagnostic> = Vec::new();
        proof {
            assert(diagnostic_models(diagnostics@) =~= Seq::empty());
        }
        let passes = match filter {
            None => true,
            Some(Ok(Json::Bool(value))) => value,
            Some(Ok(_)) => false,
            Some(Err(diagnostic)) => {
                diagnostics.push(diagnostic);
                proof {
                    assert(diagnostic_models(diagnostics@) =~= seq![diagnostic@]);
                }
                false
            },
        };
        if passes {
            let candidate = projection_candidate(projection, file);
            let row = with_file(serialized, &candidate.file);
            Ok(matched(plan, &candidate, &row, diagnostics))
        } else {
            Ok(unmatched(diagnostics))
        }
    }

    /// Whether this is the judgement of one record by its projection.
    pub open spec fn judges_projection(
        &self,
        result: Result<HostedResidualEvaluation, CatalogError>,
        plan: HostedQueryPlan,
        projection: SemanticProjection,
        format: ProjectionFormat,
        analysis: ResidualAnalysis,
        clock: ClockFacts,
        file: JsonModel,
        filter: Option<Result<Json, Diagnostic>>,
        serialized: JsonModel,
    ) -> bool {
        let facts = analysis->Ready_0;
        if !self.binds(plan) {
            result is Err && self.is_binding_error(plan, result->Err_0)
        } else if !Self::projection_suffices(plan) || !is_current(plan, projection, format) {
            result is Err && result->Err_0.is(
                "hosted_exact_residual_required"@,
                "This query or projection requires exact canonical evaluation."@,
            )
        } else if let Some((code, message)) = residual_error(plan, analysis) {
            result is Err && result->Err_0.is(code, message)
        } else if !Self::facts_suffice(residual_query(plan)->0, facts) {
            result is Err && result->Err_0.is(
                "hosted_exact_residual_required"@,
                "This query requires an exact or collection-context residual."@,
            )
        } else if !is_wanted(projection.facts.types@, residual_query(plan)->0.types) {
            result is Ok && is_mismatch(result->Ok_0) && result->Ok_0.diagnostics@.len() == 0
        } else if clock_fault(clock) is Some {
            result is Err && clock_fault(clock) == Some(fault_of(result->Err_0))
        } else {
            &&& result is Ok
            &&& diagnostic_models(result->Ok_0.diagnostics@) == match filter {
                Some(Err(diagnostic)) => seq![diagnostic@],
                _ => Seq::empty(),
            }
            &&& if filter_passes(filter) {
                exists|candidate: HostedCandidate| #[trigger]
                    is_projection_candidate(candidate, projection, file) && is_match(
                        result->Ok_0,
                        plan,
                        candidate,
                        row_with_file(serialized, candidate.file@),
                    )
            } else {
                is_mismatch(result->Ok_0)
            }
        }
    }
}

/// A row whose facts of the file are replaced, where it has any.
pub open spec fn row_with_file(row: JsonModel, file: JsonModel) -> JsonModel {
    match row {
        JsonModel::Object(members) => if lookup(members, "file"@) is Some {
            JsonModel::Object(with_member(members, "file"@, file))
        } else {
            row
        },
        _ => row,
    }
}

fn with_file(row: &Json, file: &Json) -> (result: Json)
    ensures
        result@ == row_with_file(row@, file@),
{
    broadcast use crate::json::lemma_object_model;

    match row {
        Json::Object(members) => if row.get("file").is_some() {
            let mut members = copy_members(members);
            put_member(&mut members, "file", file.copy());
            Json::Object(members)
        } else {
            row.copy()
        },
        _ => row.copy(),
    }
}

/// Whether a filter lets a record pass: there is none, or it gave `true`.
pub open spec fn filter_passes(filter: Option<Result<Json, Diagnostic>>) -> bool {
    match filter {
        None => true,
        Some(Ok(value)) => value@ == JsonModel::Bool(true),
        Some(Err(_)) => false,
    }
}

/// Whether a candidate is what an exact record gave.
pub open spec fn is_exact_candidate(
    candidate: HostedCandidate,
    exact: ExactRecord,
    evidence: ResidualEvidence,
) -> bool {
    &&& candidate.path@ == exact.record.path@
    &&& texts(candidate.types@) == texts(evidence.evaluated.types@)
    &&& candidate.raw@ == exact.parsed.frontmatter@
    &&& candidate.effective == evidence.effective
    &&& candidate.file == evidence.file
}

/// Whether a candidate is what a projection and the facts of a file gave.
pub open spec fn is_projection_candidate(
    candidate: HostedCandidate,
    projection: SemanticProjection,
    file: JsonModel,
) -> bool {
    &&& candidate.path@ == projection.facts.path@
    &&& texts(candidate.types@) == texts(projection.facts.types@)
    &&& candidate.raw@ == JsonModel::Object(member_models(projection.facts.persisted_frontmatter@))
    &&& candidate.effective@ == JsonModel::Object(
        member_models(projection.facts.effective_frontmatter@),
    )
    &&& candidate.file@ == completed_file(file, candidate.effective@, projection)
}

fn projection_candidate(projection: &SemanticProjection, file: Json) -> (result: HostedCandidate)
    ensures
        is_projection_candidate(result, *projection, file@),
{
    broadcast use crate::json::lemma_object_model;

    let effective = Json::Object(copy_members(&projection.facts.effective_frontmatter));
    HostedCandidate {
        path: projection.facts.path.clone(),
        types: copy_texts(&projection.facts.types),
        raw: Json::Object(copy_members(&projection.facts.persisted_frontmatter)),
        file: complete_file_value_from_projection(file, &effective, projection),
        effective,
    }
}

/// The size of a record's file: the stored one, or that of its text where none is
/// stored.
pub open spec fn file_size_of(record: CanonicalRecordInput) -> int {
    if record.file_size == 0 {
        encode_utf8(record.document@).len() as u64 as int
    } else {
        record.file_size as int
    }
}

/// Reads a context record: what the expressions of a query see of it.
pub fn hosted_query_context(record: &CanonicalRecordInput, read: &OperationResult) -> (result:
    Result<QueryContext, CatalogError>)
    ensures
        match result {
            Ok(context) => {
                &&& read.valid
                &&& context.path@ == record.path@
                &&& context.effective@ == object_or_empty(read.result@, "effective_frontmatter"@)
                &&& context.persisted@ == object_or_empty(read.result@, "frontmatter"@)
                &&& texts(context.types@) == array_texts(member_of(read.result@, "types"@))
                &&& optional_text(context.body) == text_member(read.result@, "body"@)
                &&& context.file_size == file_size_of(*record)
                &&& context.file_mtime == record.file_mtime
            },
            Err(error) => !read.valid && error.is(
                "context_invalid"@,
                "Query context record '"@ + record.path@ + "' is not canonically readable."@,
            ),
        },
{
    if !read.valid {
        return Err(
            CatalogError::new(
                "context_invalid",
                concat3(
                    "Query context record '",
                    record.path.as_str(),
                    "' is not canonically readable.",
                ).as_str(),
            ),
        );
    }
    Ok(
        QueryContext {
            path: record.path.clone(),
            effective: member_or_empty(&read.result, "effective_frontmatter"),
            persisted: member_or_empty(&read.result, "frontmatter"),
            types: texts_of(read.result.get("types")),
            body: match read.result.get_str("body") {
                Some(body) => Some(body.to_owned()),
                None => None,
            },
            file_size: if record.file_size == 0 {
                record.document.as_str().as_bytes().len() as u64
            } else {
                record.file_size
            },
            file_mtime: copy_optional(&record.file_mtime),
        },
    )
}

/// The value at a key, or an empty object.
pub open spec fn object_or_empty(value: JsonModel, key: Seq<char>) -> JsonModel {
    match member_of(value, key) {
        Some(found) => found,
        None => JsonModel::Object(Seq::empty()),
    }
}

fn member_or_empty(value: &Json, key: &str) -> (result: Json)
    ensures
        result@ == object_or_empty(value@, key@),
{
    match value.get(key) {
        Some(found) => found.copy(),
        None => Json::empty_object(),
    }
}

/// What is wrong with the clock of an operation: its time zone, else the clock
/// itself.
pub open spec fn clock_fault(clock: ClockFacts) -> Option<CatalogFault> {
    match (clock.timezone_error, clock.clock_error) {
        (Some(message), _) => Some(fault("invalid_timezone"@, message@)),
        (None, Some(error)) => Some(fault(error.code@, error.message@)),
        (None, None) => None,
    }
}

fn check_clock(clock: &ClockFacts) -> (result: Result<(), CatalogError>)
    ensures
        match result {
            Ok(_) => clock_fault(*clock) is None,
            Err(error) => clock_fault(*clock) == Some(fault_of(error)),
        },
{
    if let Some(message) = &clock.timezone_error {
        return Err(CatalogError::new("invalid_timezone", message.as_str()));
    }
    match &clock.clock_error {
        Some(error) => Err(CatalogError::new(error.code.as_str(), error.message.as_str())),
        None => Ok(()),
    }
}

/// The parts of a residual query and what preparing it found.
fn ready_query<'a>(plan: &HostedQueryPlan, analysis: &'a ResidualAnalysis) -> (result: Result<
    (QueryEnvelope, &'a ResidualFacts),
    CatalogError,
>)
    ensures
        match result {
            Ok((query, facts)) => residual_query(*plan) == Some(query@) && *analysis
                == ResidualAnalysis::Ready(*facts),
            Err(error) => residual_error(*plan, *analysis) == Some((error.code@, error.message@)),
        },
{
    match (QueryEnvelope::from_json(&plan.residual.query), analysis) {
        (None, _) => Err(
            CatalogError::new(
                "invalid_query",
                "Query could not be decoded: a member has an unexpected shape.",
            ),
        ),
        (Some(_), ResidualAnalysis::Unprepared(messages)) => Err(
            CatalogError::new("invalid_query", join_messages(messages).as_str()),
        ),
        (Some(query), ResidualAnalysis::Ready(facts)) => Ok((query, facts)),
    }
}

/// A file value with the tags, links, and embeds of a projection.
pub open spec fn completed_file(
    file: JsonModel,
    effective: JsonModel,
    projection: SemanticProjection,
) -> JsonModel {
    let tags = merged_texts(
        array_texts(member_of(effective, "tags"@)),
        texts(projection.structure.body_tags@),
    );
    match file {
        JsonModel::Object(m) => {
            let m = with_member(m, "tags"@, JsonModel::Array(text_models(tags)));
            let m = with_member(
                m,
                "links"@,
                JsonModel::Array(text_models(texts(projection.structure.body_links@))),
            );
            let m = with_member(
                m,
                "embeds"@,
                JsonModel::Array(text_models(texts(projection.structure.body_embeds@))),
            );
            JsonModel::Object(m)
        },
        _ => file,
    }
}

/// Completes a file value from a projection, without the body's prose.
pub fn complete_file_value_from_projection(
    file: Json,
    effective: &Json,
    projection: &SemanticProjection,
) -> (result: Json)
    ensures
        result@ == completed_file(file@, effective@, *projection),
{
    broadcast use crate::json::lemma_object_model;

    match file {
        Json::Object(members) => {
            let mut m = members;
            let tags = merge_texts(
                texts_of(effective.get("tags")),
                &projection.structure.body_tags,
            );
            put_member(&mut m, "tags", Json::text_array(&tags));
            put_member(&mut m, "links", Json::text_array(&projection.structure.body_links));
            put_member(&mut m, "embeds", Json::text_array(&projection.structure.body_embeds));
            Json::Object(m)
        },
        _ => file,
    }
}

/// Whether two evaluations say the same.
pub open spec fn same_evaluation(
    left: HostedResidualEvaluation,
    right: HostedResidualEvaluation,
) -> bool {
    &&& left.matched == right.matched
    &&& crate::diagnostics::optional_json(left.record) == crate::diagnostics::optional_json(
        right.record,
    )
    &&& diagnostic_models(left.diagnostics@) == diagnostic_models(right.diagnostics@)
    &&& item_models(left.order_values@) == item_models(right.order_values@)
    &&& item_models(left.group_values@) == item_models(right.group_values@)
    &&& item_models(left.aggregate_values@) == item_models(right.aggregate_values@)
}

/// Whether exact evidence shows what a projection and the facts of a file do.
pub open spec fn shows_the_same(
    exact: ExactRecord,
    evidence: ResidualEvidence,
    projection: SemanticProjection,
    file: JsonModel,
    filter: Option<Result<Json, Diagnostic>>,
    serialized: JsonModel,
) -> bool {
    let effective = JsonModel::Object(member_models(projection.facts.effective_frontmatter@));
    &&& exact.record.path@ == projection.facts.path@
    &&& exact.parsed.frontmatter@ == JsonModel::Object(
        member_models(projection.facts.persisted_frontmatter@),
    )
    &&& evidence.effective@ == effective
    &&& evidence.file@ == completed_file(file, effective, projection)
    &&& evidence.evaluated.types@ == projection.facts.types@
    &&& evidence.evaluated.filter == filter
    &&& evidence.evaluated.serialized@ == row_with_file(
        serialized,
        completed_file(file, effective, projection),
    )
}

proof fn lemma_same_inputs(plan: HostedQueryPlan, left: HostedCandidate, right: HostedCandidate)
    requires
        left.path@ == right.path@,
        texts(left.types@) == texts(right.types@),
        left.raw@ == right.raw@,
        left.effective@ == right.effective@,
        left.file@ == right.file@,
    ensures
        order_inputs(plan, left) == order_inputs(plan, right),
        group_inputs(plan, left) == group_inputs(plan, right),
        aggregate_inputs(plan, left) == aggregate_inputs(plan, right),
{
    assert(order_inputs(plan, left) =~= order_inputs(plan, right));
    assert(group_inputs(plan, left) =~= group_inputs(plan, right));
    assert(aggregate_inputs(plan, left) =~= aggregate_inputs(plan, right));
}

/// Judging a record by its projection never diverges from judging its exact text:
/// where both give an evaluation of the same record, and no type expression
/// failed, the evaluations say the same.
pub proof fn lemma_projections_stand_for_records(
    catalog: CompiledCatalog,
    exact: Result<HostedResidualEvaluation, CatalogError>,
    projected: Result<HostedResidualEvaluation, CatalogError>,
    plan: HostedQueryPlan,
    record: ExactRecord,
    analysis: ResidualAnalysis,
    clock: ClockFacts,
    evidence: ResidualEvidence,
    projection: SemanticProjection,
    format: ProjectionFormat,
    file: JsonModel,
    filter: Option<Result<Json, Diagnostic>>,
    serialized: JsonModel,
)
    requires
        exact is Ok,
        projected is Ok,
        catalog.judges_record(exact, plan, record, None, analysis, clock, evidence),
        catalog.judges_projection(
            projected,
            plan,
            projection,
            format,
            analysis,
            clock,
            file,
            filter,
            serialized,
        ),
        shows_the_same(record, evidence, projection, file, filter, serialized),
        evidence.evaluated.match_diagnostics@.len() == 0,
        evidence.evaluated.projections@.len() == 0,
        evidence.evaluated.selections@.len() == 0,
    ensures
        same_evaluation(exact->Ok_0, projected->Ok_0),
{
    let facts = analysis->Ready_0;
    let left = exact->Ok_0;
    let right = projected->Ok_0;
    let none = Seq::<crate::diagnostics::DiagnosticModel>::empty();
    assert(diagnostic_models(evidence.evaluated.match_diagnostics@) =~= none);
    assert(item_models(left.order_values@).len() == left.order_values@.len());
    if is_wanted(projection.facts.types@, residual_query(plan)->0.types) {
        assert(diagnostic_models(left.diagnostics@) =~= diagnostic_models(right.diagnostics@));
        if filter_passes(filter) {
            let a = choose|candidate: HostedCandidate| #[trigger]
                is_exact_candidate(candidate, record, evidence) && is_match(
                    left,
                    plan,
                    candidate,
                    evidence.evaluated.serialized@,
                );
            let b = choose|candidate: HostedCandidate| #[trigger]
                is_projection_candidate(candidate, projection, file) && is_match(
                    right,
                    plan,
                    candidate,
                    row_with_file(serialized, candidate.file@),
                );
            lemma_same_inputs(plan, a, b);
        } else {
            assert(item_models(left.order_values@) =~= item_models(right.order_values@));
            assert(item_models(left.group_values@) =~= item_models(right.group_values@));
            assert(item_models(left.aggregate_values@) =~= item_models(right.aggregate_values@));
        }
    } else {
        assert(diagnostic_models(left.diagnostics@) =~= diagnostic_models(right.diagnostics@));
        assert(item_models(left.order_values@) =~= item_models(right.order_values@));
        assert(item_models(left.group_values@) =~= item_models(right.group_values@));
        assert(item_models(left.aggregate_values@) =~= item_models(right.aggregate_values@));
    }
}

/// Whether a type's name is the lower-case form of every name that differs from it
/// in case alone. Types are recorded in lower case.
pub open spec fn is_recorded_type(name: Seq<char>) -> bool {
    forall|wanted: Seq<char>|
        same_ignoring_case(name, wanted) ==> #[trigger] lower_case(wanted) == name
}

/// A record that is rejected by its projection does not match when its exact text
/// is judged. The projection shows the types that the record has, and the filter
/// was evaluated by its canonical meaning.
pub proof fn lemma_rejected_records_do_not_match(
    catalog: CompiledCatalog,
    plan: HostedQueryPlan,
    input: JsonModel,
    facts: QueryFacts,
    projection: SemanticProjection,
    availability: ProjectionAvailability,
    format: ProjectionFormat,
    meaning: spec_fn(Expr) -> Truth,
    result: Result<HostedResidualEvaluation, CatalogError>,
    record: ExactRecord,
    context: Option<ContextRecord>,
    analysis: ResidualAnalysis,
    clock: ClockFacts,
    evidence: ResidualEvidence,
)
    requires
        catalog.is_plan(plan, input, facts),
        verdict(plan, Some(projection), availability, format) == CandidateVerdict::Reject,
        is_canonical(meaning, projection),
        catalog.judges_record(result, plan, record, context, analysis, clock, evidence),
        result is Ok,
        query_fault(input, facts) is None,
        texts(evidence.evaluated.types@) == texts(projection.facts.types@),
        forall|i: int|
            0 <= i < projection.facts.types@.len() ==> is_recorded_type(
                (#[trigger] projection.facts.types@[i])@,
            ),
        ({
            let envelope = decoded_envelope(input)->0;
            let filter = filter_expression(envelope, facts);
            filter is Some && crate::execute::passes_filter(evidence.evaluated) ==> meaning(
                filter->0,
            ) == Truth::True
        }),
    ensures
        is_mismatch(result->Ok_0),
{
    lemma_rejected_records_cannot_match(
        catalog,
        plan,
        input,
        facts,
        projection,
        availability,
        format,
        meaning,
    );
    let types = decoded_envelope(input)->0.types;
    lemma_parts_are_no_controls();
    lemma_semantic_lookup(input->Object_0, "types"@);
    assert(residual_query(plan)->0.types == types);
    let own = evidence.evaluated.types@;
    if is_wanted(own, types) && types.len() > 0 {
        let (i, j) = choose|i: int, j: int|
            0 <= i < own.len() && 0 <= j < types.len() && same_ignoring_case(
                #[trigger] types[j],
                (#[trigger] own[i])@,
            );
        assert(texts(own).len() == texts(projection.facts.types@).len());
        assert(texts(own)[i] == texts(projection.facts.types@)[i]);
        assert(is_recorded_type(projection.facts.types@[i]@));
        assert(lower_case(types[j]) == projection.facts.types@[i]@);
        assert(lists_text(projection.facts.types@, lower_case(types[j])));
    }
}

/// The record that a projection gives has the tags, links, and embeds of the file
/// as the projection holds them: the tags of the effective frontmatter and then
/// those of the body, each once, and the links and embeds of the body.
pub proof fn lemma_projected_records_keep_body_metadata(
    catalog: CompiledCatalog,
    result: Result<HostedResidualEvaluation, CatalogError>,
    plan: HostedQueryPlan,
    projection: SemanticProjection,
    format: ProjectionFormat,
    analysis: ResidualAnalysis,
    clock: ClockFacts,
    file: JsonModel,
    filter: Option<Result<Json, Diagnostic>>,
    serialized: JsonModel,
)
    requires
        catalog.judges_projection(
            result,
            plan,
            projection,
            format,
            analysis,
            clock,
            file,
            filter,
            serialized,
        ),
        result is Ok,
        result->Ok_0.matched,
        file is Object,
        member_of(serialized, "file"@) is Some,
    ensures
        result->Ok_0.record is Some,
        ({
            let row = result->Ok_0.record->0@;
            let effective = JsonModel::Object(
                member_models(projection.facts.effective_frontmatter@),
            );
            &&& nested_member(row, "file"@, "tags"@) == Some(
                JsonModel::Array(
                    text_models(
                        merged_texts(
                            array_texts(member_of(effective, "tags"@)),
                            texts(projection.structure.body_tags@),
                        ),
                    ),
                ),
            )
            &&& nested_member(row, "file"@, "links"@) == Some(
                JsonModel::Array(text_models(texts(projection.structure.body_links@))),
            )
            &&& nested_member(row, "file"@, "embeds"@) == Some(
                JsonModel::Array(text_models(texts(projection.structure.body_embeds@))),
            )
        }),
{
    reveal_strlit("tags");
    reveal_strlit("links");
    reveal_strlit("embeds");
    assert("tags"@.len() == 4 && "links"@.len() == 5 && "embeds"@.len() == 6);
    let candidate = choose|candidate: HostedCandidate| #[trigger]
        is_projection_candidate(candidate, projection, file) && is_match(
            result->Ok_0,
            plan,
            candidate,
            row_with_file(serialized, candidate.file@),
        );
    let effective = JsonModel::Object(member_models(projection.facts.effective_frontmatter@));
    let tags = JsonModel::Array(
        text_models(
            merged_texts(
                array_texts(member_of(effective, "tags"@)),
                texts(projection.structure.body_tags@),
            ),
        ),
    );
    let links = JsonModel::Array(text_models(texts(projection.structure.body_links@)));
    let embeds = JsonModel::Array(text_models(texts(projection.structure.body_embeds@)));
    let m = file->Object_0;
    lemma_lookup_with_member(m, "tags"@, tags, "links"@);
    let first = with_member(m, "tags"@, tags);
    lemma_lookup_with_member(first, "links"@, links, "tags"@);
    let second = with_member(first, "links"@, links);
    lemma_lookup_with_member(second, "embeds"@, embeds, "tags"@);
    lemma_lookup_with_member(second, "embeds"@, embeds, "links"@);
    lemma_lookup_with_member(serialized->Object_0, "file"@, candidate.file@, "file"@);
}

/// The record that a projection gives has the tags, links, and embeds that the exact
/// record has, where the rows of exact records show the facts of their files and the
/// projection completes those facts as the record's own text does.
pub proof fn lemma_projected_files_match_exact_files(
    catalog: CompiledCatalog,
    exact: Result<HostedResidualEvaluation, CatalogError>,
    projected: Result<HostedResidualEvaluation, CatalogError>,
    plan: HostedQueryPlan,
    record: ExactRecord,
    analysis: ResidualAnalysis,
    clock: ClockFacts,
    evidence: ResidualEvidence,
    projection: SemanticProjection,
    format: ProjectionFormat,
    file: JsonModel,
    filter: Option<Result<Json, Diagnostic>>,
    serialized: JsonModel,
    key: Seq<char>,
)
    requires
        catalog.judges_record(exact, plan, record, None, analysis, clock, evidence),
        catalog.judges_projection(
            projected,
            plan,
            projection,
            format,
            analysis,
            clock,
            file,
            filter,
            serialized,
        ),
        exact is Ok && exact->Ok_0.matched,
        projected is Ok && projected->Ok_0.matched,
        file is Object,
        member_of(serialized, "file"@) is Some,
        key == "tags"@ || key == "links"@ || key == "embeds"@,
        member_of(evidence.evaluated.serialized@, "file"@) == Some(evidence.file@),
        member_of(evidence.file@, key) == member_of(
            completed_file(
                file,
                JsonModel::Object(member_models(projection.facts.effective_frontmatter@)),
                projection,
            ),
            key,
        ),
    ensures
        nested_member(projected->Ok_0.record->0@, "file"@, key) == nested_member(
            exact->Ok_0.record->0@,
            "file"@,
            key,
        ),
        nested_member(projected->Ok_0.record->0@, "file"@, key) is Some,
{
    lemma_projected_records_keep_body_metadata(
        catalog,
        projected,
        plan,
        projection,
        format,
        analysis,
        clock,
        file,
        filter,
        serialized,
    );
    let candidate = choose|candidate: HostedCandidate| #[trigger]
        is_projection_candidate(candidate, projection, file) && is_match(
            projected->Ok_0,
            plan,
            candidate,
            row_with_file(serialized, candidate.file@),
        );
    lemma_lookup_with_member(serialized->Object_0, "file"@, candidate.file@, "file"@);
    let own = choose|candidate: HostedCandidate| #[trigger]
        is_exact_candidate(candidate, record, evidence) && is_match(
            exact->Ok_0,
            plan,
            candidate,
            evidence.evaluated.serialized@,
        );
}

} // verus!
