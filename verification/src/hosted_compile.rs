//! Compiling a query to a hosted plan.

use crate::canonical::{digest_json, json_digest};
use crate::collection::TypeDefinition;
use crate::diagnostics::CatalogError;
use crate::execute::{any_match_expression, has_diagnostic_matchers};
use crate::expressions::Expr;
use crate::hosted_plan::{
    aggregate_value, aggregate_values, group_value, group_values, is_sealed, order_value,
    order_values, unsigned_plan, CandidateField, CanonicalResidual, FieldModel, HostedAggregate,
    HostedGroup, HostedOrder, HostedQueryBudgets, HostedQueryPlan, HostedQueryRequirements,
    HostedScalarKind, HostedSortSemantics, PredicateModel, HOSTED_QUERY_PLAN_VERSION, MAX_PAGE_SIZE,
};
use crate::hosted_query::{
    conjunction, hosted_scalar_kind, is_built_in, is_builtin_summary, is_control,
    lemma_semantic_lookup, node_count, plan_condition, predicate_nodes, scalar_kind,
    semantic_members, semantic_query_input, CompiledCatalog, PreflightFacts, QueryEnvelope,
    QueryFacts, QueryOrder, QuerySummary,
};
use crate::json::{lookup, member_of, Json, JsonModel};
use crate::lowering::{
    accumulate_field_requirement, lower_expression, lower_query_field, lowered, query_field,
    with_expression, with_field, LoweredPredicate,
};
use crate::ordering::HostedOrderDirection;
use crate::planner::{least, lemma_least, EvaluationError};
use crate::query_envelope::{
    decoded_envelope, order_models, summary_models, EnvelopeModel, OrderModel, SummaryTermModel,
};
use crate::text::{concat3, list_contains, lists_text, same_text, texts};
use vstd::prelude::*;
use vstd::string::StringExecFns;

verus! {

/// The first messages of a list, separated by semicolons.
pub open spec fn joined(messages: Seq<String>, count: nat) -> Seq<char>
    decreases count,
{
    if count == 0 || count > messages.len() {
        Seq::empty()
    } else if count == 1 {
        messages[0]@
    } else {
        joined(messages, (count - 1) as nat) + "; "@ + messages[count - 1]@
    }
}

pub fn join_messages(messages: &Vec<String>) -> (result: String)
    ensures
        result@ == joined(messages@, messages@.len()),
{
    if messages.len() == 0 {
        return String::new();
    }
    let mut result = messages[0].clone();
    let mut i: usize = 1;
    while i < messages.len()
        invariant
            1 <= i <= messages@.len(),
            result@ == joined(messages@, i as nat),
        decreases messages@.len() - i,
    {
        result = result.concat("; ").concat(messages[i].as_str());
        i = i + 1;
    }
    result
}

/// Whether a summary field is not projected.
pub open spec fn summary_field_fails(summary: SummaryTermModel) -> bool {
    query_field(summary.field) is None
}

/// A list holds a text where one of its strings has its characters.
proof fn lemma_lists(values: Seq<String>, value: Seq<char>)
    ensures
        texts(values).contains(value) == lists_text(values, value),
{
    if lists_text(values, value) {
        let i = choose|i: int| 0 <= i < values.len() && (#[trigger] values[i])@ == value;
        assert(texts(values)[i] == value);
    }
    if texts(values).contains(value) {
        let i = choose|i: int| 0 <= i < texts(values).len() && texts(values)[i] == value;
        assert(values[i]@ == value);
    }
}

/// Whether a summary function is the query's own, or unknown.
pub open spec fn summary_function_fails(summary: SummaryTermModel, own: Seq<Seq<char>>) -> bool {
    !is_built_in(summary.function) || own.contains(summary.function)
}

/// The first ordering term whose field projections do not hold.
pub open spec fn failing_order(terms: Seq<OrderModel>) -> Option<int> {
    least(0, terms.len(), |i: int| query_field(terms[i].field) is None)
}

/// The field of the first term whose field projections do not hold.
spec fn failing_field(terms: Seq<QueryOrder>) -> Seq<char> {
    order_models(terms)[failing_order(order_models(terms))->0].field
}

/// The first summary that providers cannot compute.
pub open spec fn failing_summary(terms: Seq<SummaryTermModel>, own: Seq<Seq<char>>) -> Option<int> {
    least(
        0,
        terms.len(),
        |i: int| summary_field_fails(terms[i]) || summary_function_fails(terms[i], own),
    )
}

/// What parsing the filter gave, where the query has one.
pub open spec fn parsed_filter(envelope: EnvelopeModel, facts: QueryFacts) -> Option<
    Result<Expr, EvaluationError>,
> {
    match envelope.filter {
        Some(_) => Some(facts.filter),
        None => None,
    }
}

/// The filter's expression, where there is one that parsed.
pub open spec fn filter_expression(envelope: EnvelopeModel, facts: QueryFacts) -> Option<Expr> {
    match parsed_filter(envelope, facts) {
        Some(Ok(expression)) => Some(expression),
        _ => None,
    }
}

/// The lowered filter, where there is one that can be lowered.
pub open spec fn lowered_filter(envelope: EnvelopeModel, facts: QueryFacts) -> Option<(
    PredicateModel,
    bool,
)> {
    match filter_expression(envelope, facts) {
        Some(expression) => lowered(expression),
        None => None,
    }
}

/// The code and message of the error that a query gives rise to, in the order in
/// which the checks are made.
pub open spec fn query_fault(input: JsonModel, facts: QueryFacts) -> Option<
    (Seq<char>, Seq<char>),
> {
    if !(input is Object) {
        Some(("invalid_query"@, "Hosted query input must be an object."@))
    } else if facts.schema_errors@.len() > 0 {
        Some(("invalid_query"@, joined(facts.schema_errors@, facts.schema_errors@.len())))
    } else {
        match decoded_envelope(input) {
            None => Some(
                (
                    "invalid_query"@,
                    "Query could not be decoded: a member has an unexpected shape."@,
                ),
            ),
            Some(envelope) => match facts.preflight {
                Err(messages) => Some(("invalid_query"@, joined(messages@, messages@.len()))),
                Ok(_) => envelope_error(envelope, facts),
            },
        }
    }
}

/// The error that a decoded and prepared query gives rise to.
pub open spec fn envelope_error(envelope: EnvelopeModel, facts: QueryFacts) -> Option<
    (Seq<char>, Seq<char>),
> {
    let filter = parsed_filter(envelope, facts);
    if facts.timezone_error is Some {
        Some(("invalid_timezone"@, facts.timezone_error->0@))
    } else if envelope.order_by.len() > 16 || envelope.group_by.len() > 8
        || envelope.summaries.len() > 32 {
        Some(
            (
                "query_operator_limit_exceeded"@,
                "Query ordering, grouping, or summary count exceeds hosted plan limits."@,
            ),
        )
    } else if filter is Some && filter->0 is Err {
        Some(
            (
                filter->0->Err_0.code@,
                "Query filter did not compile: "@ + filter->0->Err_0.message@,
            ),
        )
    } else if node_count(plan_condition(envelope.types, lowered_filter(envelope, facts))) > 256 {
        Some(
            (
                "query_operator_limit_exceeded"@,
                "Hosted candidate predicate exceeds the closed-plan node limit."@,
            ),
        )
    } else {
        operator_error(envelope)
    }
}

/// The error that a query's order, groups, summaries, or page gives rise to.
pub open spec fn operator_error(envelope: EnvelopeModel) -> Option<(Seq<char>, Seq<char>)> {
    match failing_order(envelope.order_by) {
        Some(i) => Some(
            (
                "unsupported_hosted_order"@,
                "Order field '"@ + envelope.order_by[i].field
                    + "' requires a bounded exact sorter that is not available."@,
            ),
        ),
        None => match failing_order(envelope.group_by) {
            Some(i) => Some(
                (
                    "unsupported_hosted_group"@,
                    "Group field '"@ + envelope.group_by[i].field + "' is not projection-safe."@,
                ),
            ),
            None => match failing_summary(envelope.summaries, envelope.summary_functions) {
                Some(i) => if summary_field_fails(envelope.summaries[i]) {
                    Some(
                        (
                            "unsupported_hosted_summary"@,
                            "Summary field '"@ + envelope.summaries[i].field
                                + "' is not projection-safe."@,
                        ),
                    )
                } else {
                    Some(
                        (
                            "unsupported_hosted_summary"@,
                            "Summary function '"@ + envelope.summaries[i].function
                                + "' requires a canonical bounded reducer that is not available."@,
                        ),
                    )
                },
                None => page_error(envelope),
            },
        },
    }
}

/// The error that a query's page gives rise to.
pub open spec fn page_error(envelope: EnvelopeModel) -> Option<(Seq<char>, Seq<char>)> {
    if envelope.limit is Some && envelope.limit->0 > 1_000 {
        Some(
            (
                "hosted_result_budget_exceeded"@,
                "Requested limit exceeds the hosted page maximum of 1000."@,
            ),
        )
    } else if envelope.offset > 10_000 {
        Some(
            (
                "hosted_offset_budget_exceeded"@,
                "Requested offset exceeds the hosted maximum of 10000."@,
            ),
        )
    } else if envelope.pagination is Some && envelope.pagination->0 != "cursor"@ {
        Some(("invalid_query"@, "Hosted query pagination must be 'cursor'."@))
    } else {
        None
    }
}

/// The requirements with those of reading the fields of some terms.
pub open spec fn with_terms(
    requirements: HostedQueryRequirements,
    terms: Seq<OrderModel>,
) -> HostedQueryRequirements
    decreases terms.len(),
{
    if terms.len() == 0 {
        requirements
    } else {
        let rest = with_terms(requirements, terms.drop_last());
        match query_field(terms.last().field) {
            Some(field) => with_field(rest, field),
            None => rest,
        }
    }
}

/// The requirements with those of reading the fields of some summaries.
pub open spec fn with_summary_fields(
    requirements: HostedQueryRequirements,
    terms: Seq<SummaryTermModel>,
) -> HostedQueryRequirements
    decreases terms.len(),
{
    if terms.len() == 0 {
        requirements
    } else {
        let rest = with_summary_fields(requirements, terms.drop_last());
        match query_field(terms.last().field) {
            Some(field) => with_field(rest, field),
            None => rest,
        }
    }
}

/// Whether some term orders by anything but the path.
pub open spec fn orders_beyond_path(terms: Seq<OrderModel>) -> bool {
    exists|i: int|
        0 <= i < terms.len() && query_field((#[trigger] terms[i]).field) != Some(FieldModel::Path)
}

/// What the fields that a query reads require.
pub open spec fn field_requirements(
    envelope: EnvelopeModel,
    filter: Option<Expr>,
) -> HostedQueryRequirements {
    let nothing = HostedQueryRequirements::nothing();
    let r = match filter {
        Some(expression) => with_expression(nothing, expression),
        None => nothing,
    };
    let r = with_terms(r, envelope.order_by);
    let r = with_terms(r, envelope.group_by);
    with_summary_fields(r, envelope.summaries)
}

/// Whether a filter cannot be judged by projections alone.
pub open spec fn filter_needs_document(filter: Option<Expr>) -> bool {
    match filter {
        Some(expression) => match lowered(expression) {
            Some((_, complete)) => !complete,
            None => true,
        },
        None => false,
    }
}

/// What a compiled query requires of the provider.
pub open spec fn plan_requirements(
    envelope: EnvelopeModel,
    facts: PreflightFacts,
    filter: Option<Expr>,
    types: Seq<TypeDefinition>,
) -> HostedQueryRequirements {
    let fields = field_requirements(envelope, filter);
    let structural = fields.structural_body_facts || facts.file_body_metadata;
    let matchers = any_match_expression(types);
    let shaped = facts.this_context || envelope.has_projections || envelope.has_select;
    HostedQueryRequirements {
        exact_document: filter_needs_document(filter) || envelope.include_body || shaped
            || structural || matchers,
        body_prose: envelope.include_body,
        structural_body_facts: structural,
        relationships: facts.link_graph,
        persisted_frontmatter: fields.persisted_frontmatter,
        effective_frontmatter: fields.effective_frontmatter,
        diagnostics: true,
        diagnostic_type_matchers: matchers,
        canonical_residual: filter is Some || shaped,
        bounded_top_k: orders_beyond_path(envelope.order_by),
        bounded_grouping: envelope.group_by.len() > 0 || envelope.summaries.len() > 0,
        collection_context: facts.this_context || facts.link_graph,
        query_context: facts.this_context,
    }
}

/// Whether a plan's order term is that of a query.
pub open spec fn is_order(
    order: HostedOrder,
    term: OrderModel,
    selected: Seq<Seq<char>>,
    types: Seq<TypeDefinition>,
) -> bool {
    &&& query_field(term.field) == Some(order.field@)
    &&& order.direction == term.direction
    &&& order.canonical_path_tiebreak
    &&& order.semantics == HostedSortSemantics::CanonicalV03
    &&& order.value_kind == scalar_kind(order.field@, selected, types)
}

/// Whether a plan's group term is that of a query.
pub open spec fn is_group_term(
    group: HostedGroup,
    term: OrderModel,
    selected: Seq<Seq<char>>,
    types: Seq<TypeDefinition>,
) -> bool {
    &&& query_field(term.field) == Some(group.field@)
    &&& group.output_name@ == term.field
    &&& group.direction == term.direction
    &&& group.value_kind == scalar_kind(group.field@, selected, types)
}

/// Whether a plan's summary is that of a query.
pub open spec fn is_aggregate(aggregate: HostedAggregate, term: SummaryTermModel) -> bool {
    &&& query_field(term.field) == Some(aggregate.field@)
    &&& aggregate.function@ == term.function
    &&& aggregate.output_name@ == match term.name {
        Some(name) => name,
        None => term.function,
    }
    &&& aggregate.provider_safe
}

impl CompiledCatalog {
    /// Whether this is the plan of a query under this catalog, its digest aside.
    pub open spec fn is_draft(
        &self,
        plan: HostedQueryPlan,
        input: JsonModel,
        facts: QueryFacts,
    ) -> bool {
        let envelope = decoded_envelope(input)->0;
        let semantic = JsonModel::Object(semantic_members(input->Object_0));
        let types = self.collection.types@;
        &&& plan.version == HOSTED_QUERY_PLAN_VERSION
        &&& plan.semantic_engine_version@ == self.engine_version@
        &&& plan.catalog_revision@ == self.resource_revision@
        &&& json_digest(semantic) == Some(plan.canonical_query_digest@)
        &&& plan.candidate@ == plan_condition(envelope.types, lowered_filter(envelope, facts))
        &&& plan.residual.query@ == semantic
        &&& plan.residual.filter_fully_projected == (envelope.filter is None)
        &&& plan.order@.len() == envelope.order_by.len()
        &&& forall|i: int|
            0 <= i < plan.order@.len() ==> is_order(
                #[trigger] plan.order@[i],
                envelope.order_by[i],
                envelope.types,
                types,
            )
        &&& plan.groups@.len() == envelope.group_by.len()
        &&& forall|i: int|
            0 <= i < plan.groups@.len() ==> is_group_term(
                #[trigger] plan.groups@[i],
                envelope.group_by[i],
                envelope.types,
                types,
            )
        &&& plan.aggregates@.len() == envelope.summaries.len()
        &&& forall|i: int|
            0 <= i < plan.aggregates@.len() ==> is_aggregate(
                #[trigger] plan.aggregates@[i],
                envelope.summaries[i],
            )
        &&& plan.page_size == match envelope.limit {
            Some(limit) => limit,
            None => 100,
        }
        &&& envelope.limit == match plan.requested_limit {
            Some(limit) => Some(limit as int),
            None => None,
        }
        &&& plan.offset == envelope.offset
        &&& plan.requirements == plan_requirements(
            envelope,
            facts.preflight->Ok_0,
            filter_expression(envelope, facts),
            types,
        )
        &&& plan.budgets == HostedQueryBudgets::standard()
    }

    /// Whether this is the plan of a query, with its digest.
    pub open spec fn is_plan(
        &self,
        plan: HostedQueryPlan,
        input: JsonModel,
        facts: QueryFacts,
    ) -> bool {
        self.is_draft(plan, input, facts) && is_sealed(plan)
    }

    /// Whether the plan of a query has no digest.
    pub open spec fn has_no_digest(&self, input: JsonModel, facts: QueryFacts) -> bool {
        exists|draft: HostedQueryPlan| #[trigger]
            self.is_draft(draft, input, facts) && json_digest(unsigned_plan(draft)) is None
    }

    fn compile_order(
        &self,
        terms: &Vec<QueryOrder>,
        selected: &Vec<String>,
        requirements: &mut HostedQueryRequirements,
    ) -> (result: Result<Vec<HostedOrder>, CatalogError>)
        ensures
            match result {
                Ok(order) => {
                    &&& failing_order(order_models(terms@)) is None
                    &&& order@.len() == terms@.len()
                    &&& forall|i: int|
                        0 <= i < order@.len() ==> is_order(
                            #[trigger] order@[i],
                            terms@[i]@,
                            texts(selected@),
                            self.collection.types@,
                        )
                    &&& *final(requirements) == with_terms(*old(requirements), order_models(terms@))
                },
                Err(error) => failing_order(order_models(terms@)) is Some && error.is(
                    "unsupported_hosted_order"@,
                    "Order field '"@ + failing_field(terms@)
                        + "' requires a bounded exact sorter that is not available."@,
                ),
            },
    {
        let ghost models = order_models(terms@);
        let ghost fails = |i: int| query_field(models[i].field) is None;
        let mut order: Vec<HostedOrder> = Vec::new();
        let mut i: usize = 0;
        while i < terms.len()
            invariant
                i <= terms@.len(),
                models == order_models(terms@),
                fails == |i: int| query_field(models[i].field) is None,
                forall|k: int| 0 <= k < i ==> !(#[trigger] fails(k)),
                order@.len() == i,
                forall|k: int|
                    0 <= k < i ==> is_order(
                        #[trigger] order@[k],
                        terms@[k]@,
                        texts(selected@),
                        self.collection.types@,
                    ),
                *requirements == with_terms(*old(requirements), models.take(i as int)),
            decreases terms@.len() - i,
        {
            proof {
                assert(models.take(i + 1).drop_last() =~= models.take(i as int));
                assert(models.take(i + 1).last() == terms@[i as int]@);
            }
            match lower_query_field(terms[i].field.as_str()) {
                None => {
                    proof {
                        lemma_least(0, models.len(), fails, i as int);
                    }
                    let message = concat3(
                        "Order field '",
                        terms[i].field.as_str(),
                        "' requires a bounded exact sorter that is not available.",
                    );
                    return Err(CatalogError::new("unsupported_hosted_order", message.as_str()));
                },
                Some(field) => {
                    accumulate_field_requirement(&field, requirements);
                    let value_kind = hosted_scalar_kind(&field, selected, &self.collection.types);
                    order.push(
                        HostedOrder {
                            field,
                            direction: terms[i].direction,
                            canonical_path_tiebreak: true,
                            semantics: HostedSortSemantics::CanonicalV03,
                            value_kind,
                        },
                    );
                },
            }
            i = i + 1;
        }
        proof {
            lemma_least(0, models.len(), fails, terms@.len() as int);
            assert(models.take(i as int) =~= models);
        }
        Ok(order)
    }

    fn compile_groups(
        &self,
        terms: &Vec<QueryOrder>,
        selected: &Vec<String>,
        requirements: &mut HostedQueryRequirements,
    ) -> (result: Result<Vec<HostedGroup>, CatalogError>)
        ensures
            match result {
                Ok(groups) => {
                    &&& failing_order(order_models(terms@)) is None
                    &&& groups@.len() == terms@.len()
                    &&& forall|i: int|
                        0 <= i < groups@.len() ==> is_group_term(
                            #[trigger] groups@[i],
                            terms@[i]@,
                            texts(selected@),
                            self.collection.types@,
                        )
                    &&& *final(requirements) == with_terms(*old(requirements), order_models(terms@))
                },
                Err(error) => failing_order(order_models(terms@)) is Some && error.is(
                    "unsupported_hosted_group"@,
                    "Group field '"@ + failing_field(terms@)
                        + "' is not projection-safe."@,
                ),
            },
    {
        let ghost models = order_models(terms@);
        let ghost fails = |i: int| query_field(models[i].field) is None;
        let mut groups: Vec<HostedGroup> = Vec::new();
        let mut i: usize = 0;
        while i < terms.len()
            invariant
                i <= terms@.len(),
                models == order_models(terms@),
                fails == |i: int| query_field(models[i].field) is None,
                forall|k: int| 0 <= k < i ==> !(#[trigger] fails(k)),
                groups@.len() == i,
                forall|k: int|
                    0 <= k < i ==> is_group_term(
                        #[trigger] groups@[k],
                        terms@[k]@,
                        texts(selected@),
                        self.collection.types@,
                    ),
                *requirements == with_terms(*old(requirements), models.take(i as int)),
            decreases terms@.len() - i,
        {
            proof {
                assert(models.take(i + 1).drop_last() =~= models.take(i as int));
                assert(models.take(i + 1).last() == terms@[i as int]@);
            }
            match lower_query_field(terms[i].field.as_str()) {
                None => {
                    proof {
                        lemma_least(0, models.len(), fails, i as int);
                    }
                    let message = concat3(
                        "Group field '",
                        terms[i].field.as_str(),
                        "' is not projection-safe.",
                    );
                    return Err(CatalogError::new("unsupported_hosted_group", message.as_str()));
                },
                Some(field) => {
                    accumulate_field_requirement(&field, requirements);
                    let value_kind = hosted_scalar_kind(&field, selected, &self.collection.types);
                    groups.push(
                        HostedGroup {
                            field,
                            output_name: terms[i].field.clone(),
                            direction: terms[i].direction,
                            value_kind,
                        },
                    );
                },
            }
            i = i + 1;
        }
        proof {
            lemma_least(0, models.len(), fails, terms@.len() as int);
            assert(models.take(i as int) =~= models);
        }
        Ok(groups)
    }
}

/// The error of a summary that providers cannot compute.
pub open spec fn is_summary_error(error: CatalogError, summary: SummaryTermModel) -> bool {
    if summary_field_fails(summary) {
        error.is(
            "unsupported_hosted_summary"@,
            "Summary field '"@ + summary.field + "' is not projection-safe."@,
        )
    } else {
        error.is(
            "unsupported_hosted_summary"@,
            "Summary function '"@ + summary.function
                + "' requires a canonical bounded reducer that is not available."@,
        )
    }
}

fn compile_summaries(
    terms: &Vec<QuerySummary>,
    own: &Vec<String>,
    requirements: &mut HostedQueryRequirements,
) -> (result: Result<Vec<HostedAggregate>, CatalogError>)
    ensures
        match result {
            Ok(aggregates) => {
                &&& failing_summary(summary_models(terms@), texts(own@)) is None
                &&& aggregates@.len() == terms@.len()
                &&& forall|i: int|
                    0 <= i < aggregates@.len() ==> is_aggregate(
                        #[trigger] aggregates@[i],
                        terms@[i]@,
                    )
                &&& *final(requirements) == with_summary_fields(*old(requirements), summary_models(terms@))
            },
            Err(error) => match failing_summary(summary_models(terms@), texts(own@)) {
                Some(i) => is_summary_error(error, summary_models(terms@)[i]),
                None => false,
            },
        },
{
    let ghost models = summary_models(terms@);
    let ghost fails = |i: int|
        summary_field_fails(models[i]) || summary_function_fails(models[i], texts(own@));
    let mut aggregates: Vec<HostedAggregate> = Vec::new();
    let mut i: usize = 0;
    while i < terms.len()
        invariant
            i <= terms@.len(),
            models == summary_models(terms@),
            fails == |i: int|
                summary_field_fails(models[i]) || summary_function_fails(models[i], texts(own@)),
            forall|k: int| 0 <= k < i ==> !(#[trigger] fails(k)),
            aggregates@.len() == i,
            forall|k: int|
                0 <= k < i ==> is_aggregate(#[trigger] aggregates@[k], terms@[k]@),
            *requirements == with_summary_fields(*old(requirements), models.take(i as int)),
        decreases terms@.len() - i,
    {
        proof {
            assert(models.take(i + 1).drop_last() =~= models.take(i as int));
            assert(models.take(i + 1).last() == terms@[i as int]@);
        }
        let function = terms[i].function.as_str();
        proof {
            lemma_lists(own@, function@);
        }
        match lower_query_field(terms[i].field.as_str()) {
            None => {
                proof {
                    lemma_least(0, models.len(), fails, i as int);
                }
                let message = concat3(
                    "Summary field '",
                    terms[i].field.as_str(),
                    "' is not projection-safe.",
                );
                return Err(CatalogError::new("unsupported_hosted_summary", message.as_str()));
            },
            Some(field) => {
                if !is_builtin_summary(function) || list_contains(own, function) {
                    proof {
                        lemma_least(0, models.len(), fails, i as int);
                    }
                    let message = concat3(
                        "Summary function '",
                        function,
                        "' requires a canonical bounded reducer that is not available.",
                    );
                    return Err(CatalogError::new("unsupported_hosted_summary", message.as_str()));
                }
                accumulate_field_requirement(&field, requirements);
                let output_name = match &terms[i].name {
                    Some(name) => name.clone(),
                    None => terms[i].function.clone(),
                };
                aggregates.push(
                    HostedAggregate {
                        field,
                        function: terms[i].function.clone(),
                        output_name,
                        provider_safe: true,
                    },
                );
            },
        }
        i = i + 1;
    }
    proof {
        lemma_least(0, models.len(), fails, terms@.len() as int);
        assert(models.take(i as int) =~= models);
    }
    Ok(aggregates)
}

fn check_page(envelope: &QueryEnvelope) -> (result: Result<(), CatalogError>)
    ensures
        match result {
            Ok(_) => page_error(envelope@) is None,
            Err(error) => page_error(envelope@) == Some((error.code@, error.message@)),
        },
{
    if let Some(limit) = envelope.limit {
        if limit > MAX_PAGE_SIZE {
            return Err(
                CatalogError::new(
                    "hosted_result_budget_exceeded",
                    "Requested limit exceeds the hosted page maximum of 1000.",
                ),
            );
        }
    }
    if envelope.offset > 10_000 {
        return Err(
            CatalogError::new(
                "hosted_offset_budget_exceeded",
                "Requested offset exceeds the hosted maximum of 10000.",
            ),
        );
    }
    if let Some(pagination) = &envelope.pagination {
        if !same_text(pagination.as_str(), "cursor") {
            return Err(
                CatalogError::new("invalid_query", "Hosted query pagination must be 'cursor'."),
            );
        }
    }
    Ok(())
}

fn any_beyond_path(order: &Vec<HostedOrder>, Ghost(terms): Ghost<Seq<OrderModel>>) -> (result: bool)
    requires
        order@.len() == terms.len(),
        forall|i: int|
            0 <= i < terms.len() ==> query_field((#[trigger] terms[i]).field) == Some(
                order@[i].field@,
            ),
    ensures
        result == orders_beyond_path(terms),
{
    let mut i: usize = 0;
    while i < order.len()
        invariant
            i <= order@.len(),
            order@.len() == terms.len(),
            forall|k: int|
                0 <= k < terms.len() ==> query_field((#[trigger] terms[k]).field) == Some(
                    order@[k].field@,
                ),
            forall|k: int| 0 <= k < i ==> (#[trigger] order@[k]).field@ == FieldModel::Path,
        decreases order@.len() - i,
    {
        match &order[i].field {
            CandidateField::Path => {},
            _ => {
                proof {
                    assert(query_field(terms[i as int].field) != Some(FieldModel::Path));
                }
                return true;
            },
        }
        i = i + 1;
    }
    proof {
        assert forall|k: int| 0 <= k < terms.len() implies query_field((#[trigger] terms[k]).field)
            == Some(FieldModel::Path) by {
            assert(order@[k].field@ == FieldModel::Path);
        }
    }
    false
}

impl CompiledCatalog {
    /// Compiles a query to a closed plan. What cannot be lowered makes the
    /// candidate condition broader, never narrower; the canonical query remains
    /// the residual.
    pub fn compile_hosted_query(&self, input: &Json, facts: &QueryFacts) -> (result: Result<
        HostedQueryPlan,
        CatalogError,
    >)
        ensures
            match result {
                Ok(plan) => query_fault(input@, *facts) is None && self.is_plan(
                    plan,
                    input@,
                    *facts,
                ),
                Err(error) => match query_fault(input@, *facts) {
                    Some((code, message)) => error.is(code, message),
                    None => (error.code@ == "invalid_query"@ && json_digest(
                        JsonModel::Object(semantic_members(input@->Object_0)),
                    ) is None) || (error.code@ == "invalid_hosted_query_plan"@
                        && self.has_no_digest(input@, *facts)),
                },
            },
    {
        let semantic = match semantic_query_input(input) {
            Ok(semantic) => semantic,
            Err(error) => {
                return Err(error);
            },
        };
        if facts.schema_errors.len() > 0 {
            return Err(
                CatalogError::new(
                    "invalid_query",
                    join_messages(&facts.schema_errors).as_str(),
                ),
            );
        }
        let envelope = match QueryEnvelope::from_json(input) {
            Some(envelope) => envelope,
            None => {
                return Err(
                    CatalogError::new(
                        "invalid_query",
                        "Query could not be decoded: a member has an unexpected shape.",
                    ),
                );
            },
        };
        let found = match &facts.preflight {
            Ok(found) => *found,
            Err(messages) => {
                return Err(
                    CatalogError::new("invalid_query", join_messages(messages).as_str()),
                );
            },
        };
        if let Some(message) = &facts.timezone_error {
            return Err(CatalogError::new("invalid_timezone", message.as_str()));
        }
        if envelope.order_by.len() > 16 || envelope.group_by.len() > 8 || envelope.summaries.len()
            > 32 {
            return Err(
                CatalogError::new(
                    "query_operator_limit_exceeded",
                    "Query ordering, grouping, or summary count exceeds hosted plan limits.",
                ),
            );
        }
        let mut requirements = HostedQueryRequirements::default();
        let mut needs_document = false;
        let mut filtered = false;
        let mut lowered_filter: Option<LoweredPredicate> = None;
        if envelope.filter.is_some() {
            match &facts.filter {
                Err(error) => {
                    return Err(
                        CatalogError {
                            code: error.code.clone(),
                            message: "Query filter did not compile: ".to_owned().concat(
                                error.message.as_str(),
                            ),
                        },
                    );
                },
                Ok(expression) => {
                    filtered = true;
                    lowered_filter = lower_expression(expression, &mut requirements);
                    needs_document =
                    match &lowered_filter {
                        Some(lowered) => !lowered.complete,
                        None => true,
                    };
                },
            }
        }
        let candidate = conjunction(&envelope.types, lowered_filter);
        if predicate_nodes(&candidate) > 256 {
            return Err(
                CatalogError::new(
                    "query_operator_limit_exceeded",
                    "Hosted candidate predicate exceeds the closed-plan node limit.",
                ),
            );
        }
        let order = match self.compile_order(
            &envelope.order_by,
            &envelope.types,
            &mut requirements,
        ) {
            Ok(order) => order,
            Err(error) => {
                return Err(error);
            },
        };
        let bounded_top_k = any_beyond_path(&order, Ghost(order_models(envelope.order_by@)));
        let groups = match self.compile_groups(
            &envelope.group_by,
            &envelope.types,
            &mut requirements,
        ) {
            Ok(groups) => groups,
            Err(error) => {
                return Err(error);
            },
        };
        let aggregates = match compile_summaries(
            &envelope.summaries,
            &envelope.summary_functions,
            &mut requirements,
        ) {
            Ok(aggregates) => aggregates,
            Err(error) => {
                return Err(error);
            },
        };
        if let Err(error) = check_page(&envelope) {
            return Err(error);
        }
        let structural = requirements.structural_body_facts || found.file_body_metadata;
        let matchers = has_diagnostic_matchers(&self.collection.types);
        let shaped = found.this_context || envelope.has_projections || envelope.has_select;
        let requirements = HostedQueryRequirements {
            exact_document: needs_document || envelope.include_body || shaped || structural
                || matchers,
            body_prose: envelope.include_body,
            structural_body_facts: structural,
            relationships: found.link_graph,
            persisted_frontmatter: requirements.persisted_frontmatter,
            effective_frontmatter: requirements.effective_frontmatter,
            diagnostics: true,
            diagnostic_type_matchers: matchers,
            canonical_residual: filtered || shaped,
            bounded_top_k,
            bounded_grouping: groups.len() > 0 || envelope.summaries.len() > 0,
            collection_context: found.this_context || found.link_graph,
            query_context: found.this_context,
        };
        let canonical_query_digest = match digest_json(&semantic) {
            Ok(digest) => digest,
            Err(reason) => {
                return Err(
                    CatalogError {
                        code: "invalid_query".to_owned(),
                        message: "Query could not be canonicalized: ".to_owned().concat(
                            reason.as_str(),
                        ),
                    },
                );
            },
        };
        let page_size: u64 = match envelope.limit {
            Some(limit) => limit,
            None => 100,
        };
        let mut plan = HostedQueryPlan {
            version: HOSTED_QUERY_PLAN_VERSION,
            semantic_engine_version: self.engine_version.clone(),
            catalog_revision: self.resource_revision.clone(),
            canonical_query_digest,
            plan_digest: String::new(),
            candidate,
            residual: CanonicalResidual { query: semantic, filter_fully_projected: !filtered },
            order,
            groups,
            aggregates,
            page_size,
            requested_limit: envelope.limit,
            offset: envelope.offset,
            requirements,
            budgets: HostedQueryBudgets::default(),
        };
        match plan.integrity_digest() {
            Ok(digest) => {
                let ghost before = plan;
                plan.plan_digest = digest;
                proof {
                    assert(unsigned_plan(plan) == unsigned_plan(before));
                }
                Ok(plan)
            },
            Err(error) => {
                proof {
                    assert(self.is_draft(plan, input@, *facts));
                }
                Err(error)
            },
        }
    }
}

// ---------------------------------------------------------------------------
// Transport controls
// ---------------------------------------------------------------------------
/// What a plan computes, page and position aside.
pub struct PlanMeaning {
    pub canonical_query_digest: Seq<char>,
    pub query: JsonModel,
    pub filter_fully_projected: bool,
    pub candidate: PredicateModel,
    pub order: Seq<OrderMeaning>,
    pub groups: Seq<GroupMeaning>,
    pub aggregates: Seq<AggregateMeaning>,
    pub requirements: HostedQueryRequirements,
    pub budgets: HostedQueryBudgets,
}

/// What an order term of a plan holds.
pub struct OrderMeaning {
    pub field: FieldModel,
    pub direction: HostedOrderDirection,
    pub canonical_path_tiebreak: bool,
    pub semantics: HostedSortSemantics,
    pub value_kind: Option<HostedScalarKind>,
}

/// What a group term of a plan holds.
pub struct GroupMeaning {
    pub field: FieldModel,
    pub output_name: Seq<char>,
    pub direction: HostedOrderDirection,
    pub value_kind: Option<HostedScalarKind>,
}

/// What a summary of a plan holds.
pub struct AggregateMeaning {
    pub field: FieldModel,
    pub function: Seq<char>,
    pub output_name: Seq<char>,
    pub provider_safe: bool,
}

pub open spec fn order_meaning(order: HostedOrder) -> OrderMeaning {
    OrderMeaning {
        field: order.field@,
        direction: order.direction,
        canonical_path_tiebreak: order.canonical_path_tiebreak,
        semantics: order.semantics,
        value_kind: order.value_kind,
    }
}

pub open spec fn group_meaning(group: HostedGroup) -> GroupMeaning {
    GroupMeaning {
        field: group.field@,
        output_name: group.output_name@,
        direction: group.direction,
        value_kind: group.value_kind,
    }
}

pub open spec fn aggregate_meaning(aggregate: HostedAggregate) -> AggregateMeaning {
    AggregateMeaning {
        field: aggregate.field@,
        function: aggregate.function@,
        output_name: aggregate.output_name@,
        provider_safe: aggregate.provider_safe,
    }
}

pub open spec fn plan_meaning(plan: HostedQueryPlan) -> PlanMeaning {
    PlanMeaning {
        canonical_query_digest: plan.canonical_query_digest@,
        query: plan.residual.query@,
        filter_fully_projected: plan.residual.filter_fully_projected,
        candidate: plan.candidate@,
        order: Seq::new(plan.order@.len(), |i: int| order_meaning(plan.order@[i])),
        groups: Seq::new(plan.groups@.len(), |i: int| group_meaning(plan.groups@[i])),
        aggregates: Seq::new(
            plan.aggregates@.len(),
            |i: int| aggregate_meaning(plan.aggregates@[i]),
        ),
        requirements: plan.requirements,
        budgets: plan.budgets,
    }
}

/// The members that a plan's meaning is read from are no transport controls.
pub proof fn lemma_parts_are_no_controls()
    ensures
        !is_control("types"@),
        !is_control("timezone"@),
        !is_control("where"@),
        !is_control("order_by"@),
        !is_control("group_by"@),
        !is_control("summaries"@),
        !is_control("summary_functions"@),
        !is_control("include_body"@),
        !is_control("projections"@),
        !is_control("select"@),
{
    reveal_strlit("pagination");
    reveal_strlit("cursor");
    reveal_strlit("release_cursor");
    reveal_strlit("snapshot");
    reveal_strlit("limit");
    reveal_strlit("offset");
    reveal_strlit("types");
    reveal_strlit("timezone");
    reveal_strlit("where");
    reveal_strlit("order_by");
    reveal_strlit("group_by");
    reveal_strlit("summaries");
    reveal_strlit("summary_functions");
    reveal_strlit("include_body");
    reveal_strlit("projections");
    reveal_strlit("select");
    assert("pagination"@.len() == 10);
    assert("cursor"@.len() == 6);
    assert("release_cursor"@.len() == 14);
    assert("snapshot"@.len() == 8);
    assert("limit"@.len() == 5);
    assert("offset"@.len() == 6);
    assert("types"@.len() == 5);
    assert("timezone"@.len() == 8);
    assert("where"@.len() == 5);
    assert("order_by"@.len() == 8);
    assert("group_by"@.len() == 8);
    assert("summaries"@.len() == 9);
    assert("summary_functions"@.len() == 17);
    assert("include_body"@.len() == 12);
    assert("projections"@.len() == 11);
    assert("select"@.len() == 6);
    assert("types"@[0] != "limit"@[0]);
    assert("where"@[0] != "limit"@[0]);
    assert("timezone"@[0] != "snapshot"@[0]);
    assert("order_by"@[0] != "snapshot"@[0]);
    assert("group_by"@[0] != "snapshot"@[0]);
    assert("select"@[0] != "cursor"@[0]);
    assert("select"@[0] != "offset"@[0]);
}

/// A member that is no transport control is the same in queries with one
/// canonical query.
proof fn lemma_same_member(
    first: Seq<(Seq<char>, JsonModel)>,
    second: Seq<(Seq<char>, JsonModel)>,
    key: Seq<char>,
)
    requires
        semantic_members(first) == semantic_members(second),
        !is_control(key),
    ensures
        lookup(first, key) == lookup(second, key),
{
    lemma_semantic_lookup(first, key);
    lemma_semantic_lookup(second, key);
}

/// Transport controls never change what a plan computes: the plans of queries
/// that differ in their controls alone agree in their canonical query and its
/// digest, their candidates, order, groups, summaries, requirements, and budgets.
/// No control stands in the canonical query of a plan.
pub proof fn lemma_controls_do_not_change_plans(
    catalog: CompiledCatalog,
    first: Seq<(Seq<char>, JsonModel)>,
    second: Seq<(Seq<char>, JsonModel)>,
    facts: QueryFacts,
    first_plan: HostedQueryPlan,
    second_plan: HostedQueryPlan,
    control: Seq<char>,
)
    requires
        semantic_members(first) == semantic_members(second),
        query_fault(JsonModel::Object(first), facts) is None,
        query_fault(JsonModel::Object(second), facts) is None,
        catalog.is_plan(first_plan, JsonModel::Object(first), facts),
        catalog.is_plan(second_plan, JsonModel::Object(second), facts),
        is_control(control),
    ensures
        plan_meaning(first_plan) == plan_meaning(second_plan),
        member_of(first_plan.residual.query@, control) is None,
{
    lemma_parts_are_no_controls();
    lemma_same_member(first, second, "types"@);
    lemma_same_member(first, second, "timezone"@);
    lemma_same_member(first, second, "where"@);
    lemma_same_member(first, second, "order_by"@);
    lemma_same_member(first, second, "group_by"@);
    lemma_same_member(first, second, "summaries"@);
    lemma_same_member(first, second, "summary_functions"@);
    lemma_same_member(first, second, "include_body"@);
    lemma_same_member(first, second, "projections"@);
    lemma_same_member(first, second, "select"@);
    lemma_semantic_lookup(first, control);
    let a = decoded_envelope(JsonModel::Object(first))->0;
    let b = decoded_envelope(JsonModel::Object(second))->0;
    assert(a.types == b.types && a.filter == b.filter && a.order_by == b.order_by && a.group_by
        == b.group_by && a.summaries == b.summaries && a.include_body == b.include_body
        && a.has_projections == b.has_projections && a.has_select == b.has_select);
    assert(filter_expression(a, facts) == filter_expression(b, facts));
    let x = plan_meaning(first_plan);
    let y = plan_meaning(second_plan);
    assert forall|i: int| 0 <= i < x.order.len() implies x.order[i] == y.order[i] by {
        assert(is_order(
            first_plan.order@[i],
            a.order_by[i],
            a.types,
            catalog.collection.types@,
        ));
        assert(is_order(
            second_plan.order@[i],
            a.order_by[i],
            a.types,
            catalog.collection.types@,
        ));
    }
    assert(x.order =~= y.order);
    assert forall|i: int| 0 <= i < x.groups.len() implies x.groups[i] == y.groups[i] by {
        assert(is_group_term(
            first_plan.groups@[i],
            a.group_by[i],
            a.types,
            catalog.collection.types@,
        ));
        assert(is_group_term(
            second_plan.groups@[i],
            a.group_by[i],
            a.types,
            catalog.collection.types@,
        ));
    }
    assert(x.groups =~= y.groups);
    assert forall|i: int| 0 <= i < x.aggregates.len() implies x.aggregates[i]
        == y.aggregates[i] by {
        assert(is_aggregate(first_plan.aggregates@[i], a.summaries[i]));
        assert(is_aggregate(second_plan.aggregates@[i], a.summaries[i]));
    }
    assert(x.aggregates =~= y.aggregates);
}

/// A query has one plan: what compiling it gives is the same each time, with its
/// page and its digest.
pub proof fn lemma_one_query_has_one_plan(
    catalog: CompiledCatalog,
    input: Seq<(Seq<char>, JsonModel)>,
    facts: QueryFacts,
    first: HostedQueryPlan,
    second: HostedQueryPlan,
)
    requires
        query_fault(JsonModel::Object(input), facts) is None,
        catalog.is_plan(first, JsonModel::Object(input), facts),
        catalog.is_plan(second, JsonModel::Object(input), facts),
    ensures
        plan_meaning(first) == plan_meaning(second),
        first.page_size == second.page_size,
        first.requested_limit == second.requested_limit,
        first.offset == second.offset,
        unsigned_plan(first) == unsigned_plan(second),
        first.plan_digest@ == second.plan_digest@,
{
    lemma_controls_do_not_change_plans(
        catalog,
        input,
        input,
        facts,
        first,
        second,
        "limit"@,
    );
    let x = plan_meaning(first);
    let y = plan_meaning(second);
    assert forall|i: int| 0 <= i < first.order@.len() implies order_value(first.order@[i])
        == order_value(second.order@[i]) by {
        assert(x.order[i] == y.order[i]);
    }
    assert(x.order.len() == first.order@.len() && y.order.len() == second.order@.len());
    assert(order_values(first.order@) =~= order_values(second.order@));
    assert forall|i: int| 0 <= i < first.groups@.len() implies group_value(first.groups@[i])
        == group_value(second.groups@[i]) by {
        assert(x.groups[i] == y.groups[i]);
    }
    assert(x.groups.len() == first.groups@.len() && y.groups.len() == second.groups@.len());
    assert(group_values(first.groups@) =~= group_values(second.groups@));
    assert forall|i: int| 0 <= i < first.aggregates@.len() implies aggregate_value(
        first.aggregates@[i],
    ) == aggregate_value(second.aggregates@[i]) by {
        assert(x.aggregates[i] == y.aggregates[i]);
    }
    assert(x.aggregates.len() == first.aggregates@.len() && y.aggregates.len()
        == second.aggregates@.len());
    assert(aggregate_values(first.aggregates@) =~= aggregate_values(second.aggregates@));
}

} // verus!
