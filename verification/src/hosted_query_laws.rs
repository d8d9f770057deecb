//! What a hosted query asks for, and which records it keeps.

use crate::catalog::ExactRecord;
use crate::collection::TypeDefinition;
use crate::diagnostics::{CatalogError, Diagnostic};
use crate::execution_laws::matches_query;
use crate::hosted_compile::{
    failing_order, failing_summary, field_requirements, plan_requirements, query_fault,
    with_summary_fields, with_terms,
};
use crate::hosted_plan::{
    FieldModel, HostedOrder, HostedQueryPlan, HostedQueryRequirements, PredicateModel,
};
use crate::hosted_query::{
    is_built_in, plan_condition, type_condition, CompiledCatalog, PreflightFacts, QueryFacts,
};
use crate::hosted_residual::{
    candidate_value, is_current, is_intact, residual_query, result_order, value_at, verdict,
    CandidateVerdict, ClockFacts, ContextRecord, HostedCandidate, HostedResidualEvaluation,
    ProjectionAvailability, ResidualAnalysis, ResidualEvidence,
};
use crate::json::{member_of, text_member, unsigned_model, Json, JsonModel};
use crate::lowering::{predicate_truth, query_field, with_expression, Truth};
use crate::lowering_laws::{
    asks_for, asks_for_all, asks_no_less, lemma_asking_more, lemma_filters_ask_for_their_fields,
};
use crate::ordering::{value_order, HostedOrderDirection};
use crate::planner::least;
use crate::projection::{ProjectionFormat, SemanticProjection};
use crate::query_envelope::{
    decoded_direction, decoded_envelope, decoded_order, EnvelopeModel, OrderModel, SummaryTermModel,
};
use crate::text::{is_wanted, lists_text, lower_case, text_order, texts, Order};
use vstd::prelude::*;

verus! {

// ---------------------------------------------------------------------------
// Verdicts
// ---------------------------------------------------------------------------
/// A record is kept without its document exactly where an intact plan, whose condition is
/// the whole filter, holds of a current projection; it is rejected exactly where the
/// condition fails of one and no type expression has to say why. In every other case the
/// document decides.
pub proof fn lemma_verdicts(
    plan: HostedQueryPlan,
    projection: Option<SemanticProjection>,
    availability: ProjectionAvailability,
    format: ProjectionFormat,
)
    ensures
        ({
            let usable = projection is Some && is_intact(plan) && availability
                == ProjectionAvailability::Current && is_current(plan, projection->0, format);
            let found = verdict(plan, projection, availability, format);
            &&& found == CandidateVerdict::Retain <==> usable && predicate_truth(
                plan.candidate@,
                projection->0,
            ) == Truth::True && plan.residual.filter_fully_projected
            &&& found == CandidateVerdict::Reject <==> usable && predicate_truth(
                plan.candidate@,
                projection->0,
            ) == Truth::False && !plan.requirements.diagnostic_type_matchers
            &&& !usable ==> found == CandidateVerdict::CanonicalRequired
        }),
{
}

/// A projection of another catalog, engine, format or path, one that is incomplete, or
/// one whose structure was tampered with is not current.
pub proof fn lemma_outdated_projections(
    plan: HostedQueryPlan,
    projection: SemanticProjection,
    format: ProjectionFormat,
)
    ensures
        projection.facts.catalog_revision@ != plan.catalog_revision@ ==> !is_current(
            plan,
            projection,
            format,
        ),
        projection.facts.semantic_engine_version@ != plan.semantic_engine_version@ ==> !is_current(
            plan,
            projection,
            format,
        ),
        projection.facts.schema_version@ != format.projection_schema@ ==> !is_current(
            plan,
            projection,
            format,
        ),
        projection.facts.format_version != format.format_version ==> !is_current(
            plan,
            projection,
            format,
        ),
        projection.structure.schema_version@ != format.structure_schema@ ==> !is_current(
            plan,
            projection,
            format,
        ),
        projection.structure.path@ != projection.facts.path@ ==> !is_current(
            plan,
            projection,
            format,
        ),
        !projection.facts.semantic_complete ==> !is_current(plan, projection, format),
        !projection.structure.structural_digest_is_valid ==> !is_current(plan, projection, format),
{
}

/// The condition of a plan. Without types and filter it always holds. With types it fails
/// of a record of none of them; with types alone it holds of a record of one of them; and
/// a filter that fails makes it fail.
pub proof fn lemma_plan_conditions(
    types: Seq<Seq<char>>,
    filter: Option<(PredicateModel, bool)>,
    projection: SemanticProjection,
)
    ensures
        ({
            let truth = predicate_truth(plan_condition(types, filter), projection);
            let of_type = exists|i: int|
                0 <= i < types.len() && lists_text(
                    projection.facts.types@,
                    lower_case(#[trigger] types[i]),
                );
            &&& types.len() == 0 && filter is None ==> truth == Truth::True
            &&& types.len() > 0 && !of_type ==> truth == Truth::False
            &&& types.len() > 0 && of_type && filter is None ==> truth == Truth::True
            &&& filter is Some && predicate_truth((filter->0).0, projection) == Truth::False
                ==> truth == Truth::False
            &&& filter is Some && (types.len() == 0 || of_type) ==> truth == predicate_truth(
                (filter->0).0,
                projection,
            )
        }),
{
    let condition = type_condition(types);
    let terms = Seq::new(
        types.len(),
        |i: int| PredicateModel::HasType(lower_case(types[i])),
    );
    assert(condition == PredicateModel::Or(terms));
    assert forall|i: int| 0 <= i < terms.len() implies (predicate_truth(
        #[trigger] terms[i],
        projection,
    ) == Truth::True <==> lists_text(projection.facts.types@, lower_case(types[i]))) && (
    predicate_truth(terms[i], projection) == Truth::True || predicate_truth(terms[i], projection)
        == Truth::False) by {}
    crate::lowering_laws::lemma_conditions_combine(terms, condition, projection);
    assert((exists|i: int|
        0 <= i < types.len() && lists_text(
            projection.facts.types@,
            lower_case(#[trigger] types[i]),
        )) <==> predicate_truth(condition, projection) == Truth::True) by {
        if exists|i: int|
            0 <= i < types.len() && lists_text(
                projection.facts.types@,
                lower_case(#[trigger] types[i]),
            ) {
            let i = choose|i: int|
                0 <= i < types.len() && lists_text(
                    projection.facts.types@,
                    lower_case(#[trigger] types[i]),
                );
            assert(predicate_truth(terms[i], projection) == Truth::True);
        }
        if predicate_truth(condition, projection) == Truth::True {
            let i = choose|i: int|
                0 <= i < terms.len() && predicate_truth(#[trigger] terms[i], projection)
                    == Truth::True;
            assert(lists_text(projection.facts.types@, lower_case(types[i])));
        }
    }
    if let Some((lowered, _)) = filter {
        let both = seq![condition, lowered];
        assert(both[0] == condition && both[1] == lowered);
        crate::lowering_laws::lemma_conditions_combine(both, condition, projection);
        if predicate_truth(condition, projection) == Truth::True {
            assert forall|i: int| 0 <= i < both.len() implies predicate_truth(
                #[trigger] both[i],
                projection,
            ) == Truth::True || both[i] == lowered by {}
        }
    }
}

// ---------------------------------------------------------------------------
// Order
// ---------------------------------------------------------------------------
/// Results stand by the first term in which their values do not stand level, the other
/// way round under a descending term, and by their paths where there is none.
pub proof fn lemma_results_stand_by_terms(
    terms: Seq<HostedOrder>,
    left: Seq<Json>,
    left_path: Seq<char>,
    right: Seq<Json>,
    right_path: Seq<char>,
    at: int,
)
    requires
        0 <= at <= terms.len(),
        forall|k: int|
            0 <= k < at ==> value_order(#[trigger] value_at(left, k), value_at(right, k))
                == Order::Equal,
    ensures
        at == terms.len() ==> result_order(terms, left, left_path, right, right_path, 0)
            == text_order(left_path, right_path),
        at < terms.len() ==> {
            let order = value_order(value_at(left, at), value_at(right, at));
            let result = result_order(terms, left, left_path, right, right_path, 0);
            &&& order != Order::Equal && terms[at].direction == HostedOrderDirection::Ascending
                ==> result == order
            &&& order == Order::Less && terms[at].direction == HostedOrderDirection::Descending
                ==> result == Order::Greater
            &&& order == Order::Greater && terms[at].direction
                == HostedOrderDirection::Descending ==> result == Order::Less
        },
{
    lemma_results_level(terms, left, left_path, right, right_path, at, 0);
}

proof fn lemma_results_level(
    terms: Seq<HostedOrder>,
    left: Seq<Json>,
    left_path: Seq<char>,
    right: Seq<Json>,
    right_path: Seq<char>,
    at: int,
    from: nat,
)
    requires
        from <= at <= terms.len(),
        forall|k: int|
            0 <= k < at ==> value_order(#[trigger] value_at(left, k), value_at(right, k))
                == Order::Equal,
    ensures
        result_order(terms, left, left_path, right, right_path, from) == result_order(
            terms,
            left,
            left_path,
            right,
            right_path,
            at as nat,
        ),
    decreases at - from,
{
    if from < at {
        assert(value_order(value_at(left, from as int), value_at(right, from as int))
            == Order::Equal);
        lemma_results_level(terms, left, left_path, right, right_path, at, from + 1);
    }
}

/// The value at a term, or null where there is none.
pub proof fn lemma_values_at(values: Seq<Json>, term: int)
    ensures
        0 <= term < values.len() ==> value_at(values, term) == values[term]@,
        term >= values.len() ==> value_at(values, term) is Null,
{
}

// ---------------------------------------------------------------------------
// Matches
// ---------------------------------------------------------------------------
/// What a record holds for a field: its path and types, a fact of its file, or the member
/// of its frontmatter as written or in effect; null where there is nothing.
pub proof fn lemma_candidate_values(candidate: HostedCandidate, name: Seq<char>)
    ensures
        candidate_value(candidate, FieldModel::Path) == JsonModel::Text(candidate.path@),
        candidate_value(candidate, FieldModel::Types) is Array,
        candidate_value(candidate, FieldModel::Types)->Array_0.len() == candidate.types@.len(),
        forall|i: int|
            0 <= i < candidate.types@.len() ==> candidate_value(
                candidate,
                FieldModel::Types,
            )->Array_0[i] == JsonModel::Text((#[trigger] candidate.types@[i])@),
        candidate_value(candidate, FieldModel::File(name)) == match member_of(
            candidate.file@,
            name,
        ) {
            Some(value) => value,
            None => JsonModel::Null,
        },
        candidate_value(candidate, FieldModel::PersistedFrontmatter(seq![name])) == match member_of(
            candidate.raw@,
            name,
        ) {
            Some(value) => value,
            None => JsonModel::Null,
        },
        candidate_value(candidate, FieldModel::EffectiveFrontmatter(seq![name])) == match member_of(
            candidate.effective@,
            name,
        ) {
            Some(value) => value,
            None => JsonModel::Null,
        },
        candidate_value(candidate, FieldModel::BodyTags) == match member_of(
            candidate.file@,
            "tags"@,
        ) {
            Some(value) => value,
            None => JsonModel::Null,
        },
{
    crate::lowering_laws::lemma_value_at_one(candidate.raw@, name);
    crate::lowering_laws::lemma_value_at_one(candidate.effective@, name);
    assert forall|i: int| 0 <= i < candidate.types@.len() implies candidate_value(
        candidate,
        FieldModel::Types,
    )->Array_0[i] == JsonModel::Text((#[trigger] candidate.types@[i])@) by {
        assert(texts(candidate.types@)[i] == candidate.types@[i]@);
    }
}

/// A record that can be judged matches exactly where it is of a wanted type and the
/// filter gave true. One that matches is given as it was written out, with a value for
/// each ordering, group and summary term; one that does not is given nowhere.
pub proof fn lemma_judged_records(
    catalog: CompiledCatalog,
    result: Result<HostedResidualEvaluation, CatalogError>,
    plan: HostedQueryPlan,
    exact: ExactRecord,
    context: Option<ContextRecord>,
    analysis: ResidualAnalysis,
    clock: ClockFacts,
    evidence: ResidualEvidence,
)
    requires
        catalog.judges_record(result, plan, exact, context, analysis, clock, evidence),
        result is Ok,
    ensures
        ({
            let found = result->Ok_0;
            &&& residual_query(plan) is Some
            &&& found.matched <==> matches_query(
                evidence.evaluated,
                residual_query(plan)->0.types,
            )
            &&& found.record is Some <==> found.matched
            &&& found.matched ==> {
                &&& found.record->0@ == evidence.evaluated.serialized@
                &&& found.order_values@.len() == plan.order@.len()
                &&& found.group_values@.len() == plan.groups@.len()
                &&& found.aggregate_values@.len() == plan.aggregates@.len()
                &&& forall|i: int|
                    0 <= i < plan.order@.len() && (#[trigger] plan.order@[i]).field@
                        == FieldModel::Path ==> found.order_values@[i]@ == JsonModel::Text(
                        exact.record.path@,
                    )
            }
            &&& !found.matched ==> found.order_values@.len() == 0 && found.group_values@.len() == 0
                && found.aggregate_values@.len() == 0
            &&& plan.catalog_revision@ == catalog.resource_revision@
            &&& plan.semantic_engine_version@ == catalog.engine_version@
            &&& !(analysis->Ready_0).link_graph
        }),
{
    let found = result->Ok_0;
    let wanted = residual_query(plan)->0.types;
    assert(matches_query(evidence.evaluated, wanted) <==> crate::execute::is_selected(
        evidence.evaluated,
        wanted,
    ));
    if found.matched {
        let candidate = choose|candidate: HostedCandidate| #[trigger]
            crate::hosted_residual::is_exact_candidate(candidate, exact, evidence)
                && crate::hosted_residual::is_match(
                found,
                plan,
                candidate,
                evidence.evaluated.serialized@,
            );
        let values = crate::json::item_models(found.order_values@);
        assert(values.len() == found.order_values@.len());
        assert(crate::json::item_models(found.group_values@).len() == found.group_values@.len());
        assert(crate::json::item_models(found.aggregate_values@).len()
            == found.aggregate_values@.len());
        assert forall|i: int|
            0 <= i < plan.order@.len() && (#[trigger] plan.order@[i]).field@
                == FieldModel::Path implies found.order_values@[i]@ == JsonModel::Text(
            exact.record.path@,
        ) by {
            assert(values[i] == found.order_values@[i]@);
        }
    }
}

/// A projection that can be judged matches exactly where it is of a wanted type and the
/// filter, where there is one, gave true; and only a current one, of a plan that needs
/// neither document nor body, can.
pub proof fn lemma_judged_projections(
    catalog: CompiledCatalog,
    result: Result<HostedResidualEvaluation, CatalogError>,
    plan: HostedQueryPlan,
    projection: SemanticProjection,
    format: ProjectionFormat,
    analysis: ResidualAnalysis,
    clock: ClockFacts,
    file: JsonModel,
    filter: Option<Result<Json, Diagnostic>>,
    serialized: JsonModel,
)
    requires
        catalog.judges_projection(
            result,
            plan,
            projection,
            format,
            analysis,
            clock,
            file,
            filter,
            serialized,
        ),
        result is Ok,
    ensures
        ({
            let found = result->Ok_0;
            &&& residual_query(plan) is Some
            &&& is_current(plan, projection, format)
            &&& !plan.requirements.exact_document && !plan.requirements.body_prose
                && !plan.requirements.structural_body_facts
                && !plan.requirements.collection_context
            &&& found.matched <==> is_wanted(
                projection.facts.types@,
                residual_query(plan)->0.types,
            ) && (filter is Some ==> filter->0 is Ok && (filter->0->Ok_0)@ == JsonModel::Bool(
                true,
            ))
            &&& found.record is Some <==> found.matched
        }),
{
}

// ---------------------------------------------------------------------------
// Plans
// ---------------------------------------------------------------------------
proof fn lemma_no_failing_order(terms: Seq<OrderModel>)
    ensures
        failing_order(terms) is None <==> forall|i: int|
            0 <= i < terms.len() ==> query_field((#[trigger] terms[i]).field) is Some,
{
    let property = |i: int| query_field(terms[i].field) is None;
    lemma_none_holds(0, terms.len(), property);
    if failing_order(terms) is None {
        assert forall|i: int| 0 <= i < terms.len() implies query_field(
            (#[trigger] terms[i]).field,
        ) is Some by {
            assert(!property(i));
        }
    }
}

/// There is no least index with a property exactly where none has it.
pub proof fn lemma_none_holds(from: nat, count: nat, property: spec_fn(int) -> bool)
    ensures
        least(from, count, property) is None <==> forall|i: int|
            from <= i < count ==> !(#[trigger] property(i)),
    decreases count - from,
{
    if from < count {
        lemma_none_holds(from + 1, count, property);
        if property(from as int) {
        } else if least(from, count, property) is None {
            assert forall|i: int| from <= i < count implies !(#[trigger] property(i)) by {}
        }
    }
}

proof fn lemma_no_failing_summary(terms: Seq<SummaryTermModel>, own: Seq<Seq<char>>)
    ensures
        failing_summary(terms, own) is None <==> forall|i: int|
            0 <= i < terms.len() ==> query_field((#[trigger] terms[i]).field) is Some
                && is_built_in(terms[i].function) && !own.contains(terms[i].function),
{
    let property = |i: int|
        crate::hosted_compile::summary_field_fails(terms[i])
            || crate::hosted_compile::summary_function_fails(terms[i], own);
    lemma_none_holds(0, terms.len(), property);
    if failing_summary(terms, own) is None {
        assert forall|i: int| 0 <= i < terms.len() implies query_field(
            (#[trigger] terms[i]).field,
        ) is Some && is_built_in(terms[i].function) && !own.contains(terms[i].function) by {
            assert(!property(i));
        }
    }
}

/// Whether a query stays within what a hosted plan can do.
pub open spec fn within_limits(envelope: EnvelopeModel) -> bool {
    &&& envelope.order_by.len() <= 16
    &&& envelope.group_by.len() <= 8
    &&& envelope.summaries.len() <= 32
    &&& envelope.limit is Some ==> envelope.limit->0 <= 1_000
    &&& envelope.offset <= 10_000
    &&& envelope.pagination is Some ==> envelope.pagination->0 == "cursor"@
}

/// Whether every ordering, group and summary term of a query has a field, and every
/// summary a function that is built in and not redefined.
pub open spec fn has_known_terms(envelope: EnvelopeModel) -> bool {
    &&& forall|i: int|
        0 <= i < envelope.order_by.len() ==> query_field((#[trigger] envelope.order_by[i]).field)
            is Some
    &&& forall|i: int|
        0 <= i < envelope.group_by.len() ==> query_field((#[trigger] envelope.group_by[i]).field)
            is Some
    &&& forall|i: int|
        0 <= i < envelope.summaries.len() ==> query_field(
            (#[trigger] envelope.summaries[i]).field,
        ) is Some && is_built_in(envelope.summaries[i].function)
            && !envelope.summary_functions.contains(envelope.summaries[i].function)
}

/// A query is refused exactly where it is no object, breaks its schema or cannot be
/// decoded, has a bad time zone or a filter that does not compile, goes beyond the limits
/// of a plan, or names a field or a function that is not known.
pub proof fn lemma_refused_queries(input: JsonModel, facts: QueryFacts)
    ensures
        query_fault(input, facts) is None <==> {
            &&& input is Object
            &&& facts.schema_errors@.len() == 0
            &&& decoded_envelope(input) is Some
            &&& facts.preflight is Ok
            &&& facts.timezone_error is None
            &&& (decoded_envelope(input)->0).filter is Some ==> facts.filter is Ok
            &&& crate::hosted_query::node_count(
                plan_condition(
                    (decoded_envelope(input)->0).types,
                    crate::hosted_compile::lowered_filter(decoded_envelope(input)->0, facts),
                ),
            ) <= 256
            &&& within_limits(decoded_envelope(input)->0)
            &&& has_known_terms(decoded_envelope(input)->0)
        },
{
    if let Some(envelope) = decoded_envelope(input) {
        lemma_no_failing_order(envelope.order_by);
        lemma_no_failing_order(envelope.group_by);
        lemma_no_failing_summary(envelope.summaries, envelope.summary_functions);
    }
}

/// A direction is ascending unless it is said to be descending.
pub proof fn lemma_directions_of_queries(value: JsonModel)
    ensures
        decoded_direction(None) == Some(HostedOrderDirection::Ascending),
        decoded_direction(Some(JsonModel::Text("asc"@))) == Some(HostedOrderDirection::Ascending),
        decoded_direction(Some(JsonModel::Text("desc"@))) == Some(
            HostedOrderDirection::Descending,
        ),
        decoded_direction(Some(value)) is Some ==> value is Text && (value->Text_0 == "asc"@
            || value->Text_0 == "desc"@),
{
    reveal_strlit("asc");
    reveal_strlit("desc");
    assert("asc"@.len() == 3 && "desc"@.len() == 4);
}

/// A query is read as it is written: its types, filter, limit and offset, and for each
/// ordering term the field and direction at its place.
pub proof fn lemma_queries_are_read(input: JsonModel)
    requires
        decoded_envelope(input) is Some,
    ensures
        ({
            let envelope = decoded_envelope(input)->0;
            &&& envelope.filter == text_member(input, "where"@)
            &&& match member_of(input, "types"@) {
                Some(JsonModel::Array(items)) => envelope.types.len() == items.len() && forall|
                    i: int,
                |
                    0 <= i < items.len() ==> #[trigger] items[i] == JsonModel::Text(
                        envelope.types[i],
                    ),
                None => envelope.types.len() == 0,
                _ => true,
            }
            &&& envelope.limit == unsigned_model(member_of(input, "limit"@))
            &&& member_of(input, "offset"@) is None ==> envelope.offset == 0
            &&& member_of(input, "offset"@) is Some ==> unsigned_model(member_of(input, "offset"@))
                == Some(envelope.offset)
            &&& envelope.include_body <==> member_of(input, "include_body"@) == Some(
                JsonModel::Bool(true),
            )
            &&& member_of(input, "order_by"@) is None ==> envelope.order_by.len() == 0
            &&& match member_of(input, "order_by"@) {
                Some(JsonModel::Array(items)) => envelope.order_by.len() == items.len() && forall|
                    i: int,
                |
                    0 <= i < items.len() ==> text_member(#[trigger] items[i], "field"@) == Some(
                        envelope.order_by[i].field,
                    ) && (envelope.order_by[i].direction == HostedOrderDirection::Descending
                        <==> text_member(items[i], "direction"@) == Some("desc"@)),
                _ => true,
            }
            &&& match member_of(input, "group_by"@) {
                Some(JsonModel::Array(items)) => envelope.group_by.len() == items.len() && forall|
                    i: int,
                |
                    0 <= i < items.len() ==> text_member(#[trigger] items[i], "field"@) == Some(
                        envelope.group_by[i].field,
                    ),
                _ => true,
            }
            &&& match member_of(input, "summaries"@) {
                Some(JsonModel::Array(items)) => envelope.summaries.len() == items.len() && forall|
                    i: int,
                |
                    0 <= i < items.len() ==> text_member(#[trigger] items[i], "field"@) == Some(
                        envelope.summaries[i].field,
                    ) && text_member(items[i], "function"@) == Some(
                        envelope.summaries[i].function,
                    ),
                _ => true,
            }
        }),
{
    let envelope = decoded_envelope(input)->0;
    match member_of(input, "order_by"@) {
        Some(JsonModel::Array(items)) => {
            assert forall|i: int| 0 <= i < items.len() implies text_member(
                #[trigger] items[i],
                "field"@,
            ) == Some(envelope.order_by[i].field) && (envelope.order_by[i].direction
                == HostedOrderDirection::Descending <==> text_member(items[i], "direction"@)
                == Some("desc"@)) by {
                reveal_strlit("asc");
                reveal_strlit("desc");
                assert("asc"@.len() == 3 && "desc"@.len() == 4);
                assert(decoded_order(items[i]) is Some);
                assert(envelope.order_by[i] == decoded_order(items[i])->0);
            }
        },
        _ => {},
    }
    match member_of(input, "group_by"@) {
        Some(JsonModel::Array(items)) => {
            assert forall|i: int| 0 <= i < items.len() implies text_member(
                #[trigger] items[i],
                "field"@,
            ) == Some(envelope.group_by[i].field) by {
                assert(decoded_order(items[i]) is Some);
            }
        },
        _ => {},
    }
    match member_of(input, "summaries"@) {
        Some(JsonModel::Array(items)) => {
            assert forall|i: int| 0 <= i < items.len() implies text_member(
                #[trigger] items[i],
                "field"@,
            ) == Some(envelope.summaries[i].field) && text_member(items[i], "function"@) == Some(
                envelope.summaries[i].function,
            ) by {
                assert(crate::query_envelope::decoded_summary(items[i]) is Some);
            }
        },
        _ => {},
    }
}

/// A plan orders, groups and summarises as the query says: by the same fields, in the
/// same directions, under the same names; its page is as long as the query's limit, or a
/// hundred records, and starts at its offset.
pub proof fn lemma_plans_follow_their_query(
    catalog: CompiledCatalog,
    plan: HostedQueryPlan,
    input: JsonModel,
    facts: QueryFacts,
)
    requires
        catalog.is_plan(plan, input, facts),
        decoded_envelope(input) is Some,
    ensures
        ({
            let envelope = decoded_envelope(input)->0;
            &&& plan.order@.len() == envelope.order_by.len()
            &&& forall|i: int|
                0 <= i < plan.order@.len() ==> query_field(envelope.order_by[i].field) == Some(
                    (#[trigger] plan.order@[i]).field@,
                ) && plan.order@[i].direction == envelope.order_by[i].direction
            &&& plan.groups@.len() == envelope.group_by.len()
            &&& forall|i: int|
                0 <= i < plan.groups@.len() ==> query_field(envelope.group_by[i].field) == Some(
                    (#[trigger] plan.groups@[i]).field@,
                ) && plan.groups@[i].direction == envelope.group_by[i].direction
                    && plan.groups@[i].output_name@ == envelope.group_by[i].field
            &&& plan.aggregates@.len() == envelope.summaries.len()
            &&& forall|i: int|
                0 <= i < plan.aggregates@.len() ==> query_field(envelope.summaries[i].field)
                    == Some((#[trigger] plan.aggregates@[i]).field@)
                    && plan.aggregates@[i].function@ == envelope.summaries[i].function && (
                envelope.summaries[i].name is Some ==> plan.aggregates@[i].output_name@
                    == envelope.summaries[i].name->0) && (envelope.summaries[i].name is None
                    ==> plan.aggregates@[i].output_name@ == envelope.summaries[i].function)
            &&& envelope.limit is Some ==> plan.page_size == envelope.limit->0
            &&& envelope.limit is None ==> plan.page_size == 100
            &&& plan.offset == envelope.offset
            &&& plan.catalog_revision@ == catalog.resource_revision@
            &&& plan.residual.filter_fully_projected <==> envelope.filter is None
        }),
{
    let envelope = decoded_envelope(input)->0;
    assert forall|i: int| 0 <= i < plan.order@.len() implies query_field(
        envelope.order_by[i].field,
    ) == Some((#[trigger] plan.order@[i]).field@) && plan.order@[i].direction
        == envelope.order_by[i].direction by {
        assert(crate::hosted_compile::is_order(
            plan.order@[i],
            envelope.order_by[i],
            envelope.types,
            catalog.collection.types@,
        ));
    }
    assert forall|i: int| 0 <= i < plan.groups@.len() implies query_field(
        envelope.group_by[i].field,
    ) == Some((#[trigger] plan.groups@[i]).field@) && plan.groups@[i].direction
        == envelope.group_by[i].direction && plan.groups@[i].output_name@
        == envelope.group_by[i].field by {
        assert(crate::hosted_compile::is_group_term(
            plan.groups@[i],
            envelope.group_by[i],
            envelope.types,
            catalog.collection.types@,
        ));
    }
    assert forall|i: int| 0 <= i < plan.aggregates@.len() implies query_field(
        envelope.summaries[i].field,
    ) == Some((#[trigger] plan.aggregates@[i]).field@) && plan.aggregates@[i].function@
        == envelope.summaries[i].function && (envelope.summaries[i].name is Some
        ==> plan.aggregates@[i].output_name@ == envelope.summaries[i].name->0) && (
    envelope.summaries[i].name is None ==> plan.aggregates@[i].output_name@
        == envelope.summaries[i].function) by {
        assert(crate::hosted_compile::is_aggregate(plan.aggregates@[i], envelope.summaries[i]));
    }
}

// ---------------------------------------------------------------------------
// Requirements
// ---------------------------------------------------------------------------
proof fn lemma_terms_ask(requirements: HostedQueryRequirements, terms: Seq<OrderModel>)
    ensures
        asks_no_less(with_terms(requirements, terms), requirements),
        forall|i: int|
            0 <= i < terms.len() && query_field((#[trigger] terms[i]).field) is Some ==> asks_for(
                with_terms(requirements, terms),
                query_field(terms[i].field)->0,
            ),
    decreases terms.len(),
{
    if terms.len() > 0 {
        let front = terms.drop_last();
        lemma_terms_ask(requirements, front);
        assert forall|i: int|
            0 <= i < terms.len() && query_field(
                (#[trigger] terms[i]).field,
            ) is Some implies asks_for(
            with_terms(requirements, terms),
            query_field(terms[i].field)->0,
        ) by {
            if i < front.len() {
                assert(front[i] == terms[i]);
            }
        }
    }
}

proof fn lemma_summaries_ask(requirements: HostedQueryRequirements, terms: Seq<SummaryTermModel>)
    ensures
        asks_no_less(with_summary_fields(requirements, terms), requirements),
        forall|i: int|
            0 <= i < terms.len() && query_field((#[trigger] terms[i]).field) is Some ==> asks_for(
                with_summary_fields(requirements, terms),
                query_field(terms[i].field)->0,
            ),
    decreases terms.len(),
{
    if terms.len() > 0 {
        let front = terms.drop_last();
        lemma_summaries_ask(requirements, front);
        assert forall|i: int|
            0 <= i < terms.len() && query_field(
                (#[trigger] terms[i]).field,
            ) is Some implies asks_for(
            with_summary_fields(requirements, terms),
            query_field(terms[i].field)->0,
        ) by {
            if i < front.len() {
                assert(front[i] == terms[i]);
            }
        }
    }
}

/// A plan asks for the facts of every field that the query's filter compares and that it
/// orders, groups or summarises by; it asks for the document where the query shows the
/// body, shapes its records, or has a filter that cannot be lowered in full.
pub proof fn lemma_plans_ask_for_what_they_read(
    envelope: EnvelopeModel,
    facts: PreflightFacts,
    filter: Option<crate::expressions::Expr>,
    types: Seq<TypeDefinition>,
)
    ensures
        ({
            let asked = plan_requirements(envelope, facts, filter, types);
            &&& forall|i: int|
                0 <= i < envelope.order_by.len() && query_field(
                    (#[trigger] envelope.order_by[i]).field,
                ) is Some ==> asks_for(asked, query_field(envelope.order_by[i].field)->0)
            &&& forall|i: int|
                0 <= i < envelope.group_by.len() && query_field(
                    (#[trigger] envelope.group_by[i]).field,
                ) is Some ==> asks_for(asked, query_field(envelope.group_by[i].field)->0)
            &&& forall|i: int|
                0 <= i < envelope.summaries.len() && query_field(
                    (#[trigger] envelope.summaries[i]).field,
                ) is Some ==> asks_for(asked, query_field(envelope.summaries[i].field)->0)
            &&& filter is Some && crate::lowering::lowered(filter->0) is Some ==> asks_for_all(
                asked,
                (crate::lowering::lowered(filter->0)->0).0,
            )
            &&& filter is Some && (crate::lowering::lowered(filter->0) is None || !(
            crate::lowering::lowered(filter->0)->0).1) ==> asked.exact_document
            &&& envelope.include_body ==> asked.exact_document && asked.body_prose
            &&& envelope.has_select || envelope.has_projections || facts.this_context
                ==> asked.exact_document
            &&& facts.link_graph ==> asked.relationships && asked.collection_context
            &&& asked.diagnostic_type_matchers <==> exists|i: int|
                0 <= i < types.len() && (#[trigger] types[i]).has_match_expression
            &&& asked.bounded_top_k <==> exists|i: int|
                0 <= i < envelope.order_by.len() && query_field(
                    (#[trigger] envelope.order_by[i]).field,
                ) != Some(FieldModel::Path)
            &&& asked.bounded_grouping <==> envelope.group_by.len() > 0 || envelope.summaries.len()
                > 0
            &&& asked.query_context <==> facts.this_context
            &&& asked.canonical_residual <==> filter is Some || facts.this_context
                || envelope.has_projections || envelope.has_select
        }),
{
    let nothing = HostedQueryRequirements::nothing();
    let first = match filter {
        Some(expression) => with_expression(nothing, expression),
        None => nothing,
    };
    let second = with_terms(first, envelope.order_by);
    let third = with_terms(second, envelope.group_by);
    let fourth = with_summary_fields(third, envelope.summaries);
    let asked = plan_requirements(envelope, facts, filter, types);
    lemma_terms_ask(first, envelope.order_by);
    lemma_terms_ask(second, envelope.group_by);
    lemma_summaries_ask(third, envelope.summaries);
    assert(field_requirements(envelope, filter) == fourth);
    assert(asks_no_less(asked, fourth));
    if let Some(expression) = filter {
        lemma_filters_ask_for_their_fields(nothing, expression);
        if let Some((predicate, _)) = crate::lowering::lowered(expression) {
            assert(asks_for_all(first, predicate));
            assert(asks_no_less(asked, first));
            lemma_asking_more(asked, first, predicate);
        }
    }
}

} // verus!
