//! What plans are told apart by, and how they are written down.

use crate::base_graph::{key_pairs, links_to, resolution_of};
use crate::changes::{ChangeModel, ResourceChangeKind};
use crate::diff::{
    checked_changes, normal_path, resource_at, resource_change_at, visible, visible_members,
    ChangeFacts, CollectionSnapshotResource, CollectionSnapshotResourceKind,
};
use crate::hosted_base::{
    has_error, is_base_plan, planning_error, unsigned_base_plan, view_at, BaseAnalysis,
    HostedBasePlan, NamedBaseView,
};
use crate::hosted_plan::{
    aggregate_value, comparison_value, field_value, group_value, order_value, predicate_value,
    term_values, unsigned_plan, CandidateComparisonOperator, ComparisonModel, HostedAggregate,
    HostedGroup, HostedOrder, HostedQueryPlan, PredicateModel,
};
use crate::hosted_query::{node_count, nodes_among, CompiledCatalog};
use crate::json::{member_of, JsonModel, NumberModel};
use crate::ordering::HostedOrderDirection;
use crate::projection::{
    CanonicalRecordInput, ResolvedStructuralOccurrence, SemanticProjection, StructuralResolution,
};
use crate::text::{has_suffix, optional_text};
use crate::text_map::{inverted, lemma_value_with_entry, value_at, TextEntries};
use crate::value_laws::lemma_members;
use vstd::prelude::*;

verus! {

// ---------------------------------------------------------------------------
// Query plans
// ---------------------------------------------------------------------------
/// A plan is sealed over all that it says: its catalog and engine, its condition, its
/// terms, its page, and its digest of the query. What the seal is taken of holds each of
/// them under its name.
pub proof fn lemma_plans_are_sealed_whole(plan: HostedQueryPlan)
    ensures
        ({
            let json = unsigned_plan(plan);
            &&& member_of(json, "semantic_engine_version"@) == Some(
                JsonModel::Text(plan.semantic_engine_version@),
            )
            &&& member_of(json, "catalog_revision"@) == Some(
                JsonModel::Text(plan.catalog_revision@),
            )
            &&& member_of(json, "canonical_query_digest"@) == Some(
                JsonModel::Text(plan.canonical_query_digest@),
            )
            &&& member_of(json, "candidate"@) == Some(predicate_value(plan.candidate@))
            &&& member_of(json, "page_size"@) == Some(
                JsonModel::Number(NumberModel::Integer(plan.page_size as int)),
            )
            &&& member_of(json, "offset"@) == Some(
                JsonModel::Number(NumberModel::Integer(plan.offset as int)),
            )
            &&& member_of(json, "residual"@) is Some
            &&& member_of(json, "requirements"@) is Some
            &&& member_of(json, "budgets"@) is Some
            &&& member_of(json, "plan_digest"@) == Some(JsonModel::Text(Seq::<char>::empty()))
            &&& member_of(json, "order"@) is Some && member_of(json, "order"@)->0 is Array
            &&& (member_of(json, "order"@)->0)->Array_0.len() == plan.order@.len()
            &&& forall|i: int|
                0 <= i < plan.order@.len() ==> (member_of(json, "order"@)->0)->Array_0[i]
                    == order_value(#[trigger] plan.order@[i])
            &&& member_of(json, "groups"@) is Some && member_of(json, "groups"@)->0 is Array
            &&& (member_of(json, "groups"@)->0)->Array_0.len() == plan.groups@.len()
            &&& forall|i: int|
                0 <= i < plan.groups@.len() ==> (member_of(json, "groups"@)->0)->Array_0[i]
                    == group_value(#[trigger] plan.groups@[i])
            &&& member_of(json, "aggregates"@) is Some && member_of(json, "aggregates"@)->0
                is Array
            &&& (member_of(json, "aggregates"@)->0)->Array_0.len() == plan.aggregates@.len()
            &&& forall|i: int|
                0 <= i < plan.aggregates@.len() ==> (member_of(
                    json,
                    "aggregates"@,
                )->0)->Array_0[i] == aggregate_value(#[trigger] plan.aggregates@[i])
        }),
{
    lemma_members();
    reveal_strlit("version");
    reveal_strlit("semantic_engine_version");
    reveal_strlit("catalog_revision");
    reveal_strlit("canonical_query_digest");
    reveal_strlit("plan_digest");
    reveal_strlit("candidate");
    reveal_strlit("residual");
    reveal_strlit("order");
    reveal_strlit("groups");
    reveal_strlit("aggregates");
    reveal_strlit("page_size");
    reveal_strlit("requested_limit");
    reveal_strlit("offset");
    reveal_strlit("requirements");
    reveal_strlit("budgets");
    assert("version"@.len() == 7 && "semantic_engine_version"@.len() == 23
        && "catalog_revision"@.len() == 16 && "canonical_query_digest"@.len() == 22
        && "plan_digest"@.len() == 11 && "candidate"@.len() == 9 && "residual"@.len() == 8
        && "order"@.len() == 5 && "groups"@.len() == 6 && "aggregates"@.len() == 10
        && "page_size"@.len() == 9 && "requested_limit"@.len() == 15 && "offset"@.len() == 6
        && "requirements"@.len() == 12 && "budgets"@.len() == 7);
    assert("candidate"@[0] == 'c' && "page_size"@[0] == 'p' && "groups"@[0] == 'g' && "offset"@[0]
        == 'o' && "version"@[0] == 'v' && "budgets"@[0] == 'b');
}

/// An ordering term says its field and its direction.
pub proof fn lemma_terms_on_the_wire(order: HostedOrder, group: HostedGroup)
    ensures
        member_of(order_value(order), "field"@) == Some(field_value(order.field@)),
        order.direction == HostedOrderDirection::Ascending <==> member_of(
            order_value(order),
            "direction"@,
        ) == Some(JsonModel::Text("ascending"@)),
        order.direction == HostedOrderDirection::Descending <==> member_of(
            order_value(order),
            "direction"@,
        ) == Some(JsonModel::Text("descending"@)),
        member_of(group_value(group), "field"@) == Some(field_value(group.field@)),
        member_of(group_value(group), "output_name"@) == Some(JsonModel::Text(group.output_name@)),
        group.direction == HostedOrderDirection::Descending <==> member_of(
            group_value(group),
            "direction"@,
        ) == Some(JsonModel::Text("descending"@)),
{
    lemma_members();
    reveal_strlit("field");
    reveal_strlit("direction");
    reveal_strlit("canonical_path_tiebreak");
    reveal_strlit("semantics");
    reveal_strlit("value_kind");
    reveal_strlit("output_name");
    reveal_strlit("ascending");
    reveal_strlit("descending");
    assert("field"@.len() == 5 && "direction"@.len() == 9 && "canonical_path_tiebreak"@.len() == 23
        && "semantics"@.len() == 9 && "value_kind"@.len() == 10 && "output_name"@.len() == 11
        && "direction"@[0] == 'd' && "semantics"@[0] == 's' && "ascending"@.len() == 9 && "descending"@.len()
        == 10);
}

/// A summary says its field, its function, and its name.
pub proof fn lemma_summaries_on_the_wire(aggregate: HostedAggregate)
    ensures
        member_of(aggregate_value(aggregate), "field"@) == Some(field_value(aggregate.field@)),
        member_of(aggregate_value(aggregate), "function"@) == Some(
            JsonModel::Text(aggregate.function@),
        ),
        member_of(aggregate_value(aggregate), "output_name"@) == Some(
            JsonModel::Text(aggregate.output_name@),
        ),
{
    lemma_members();
    reveal_strlit("field");
    reveal_strlit("function");
    reveal_strlit("output_name");
    reveal_strlit("provider_safe");
    assert("field"@.len() == 5 && "function"@.len() == 8 && "output_name"@.len() == 11
        && "provider_safe"@.len() == 13);
}

/// A condition says which it is, and holds the conditions that it is made of, in order.
pub proof fn lemma_conditions_on_the_wire(predicate: PredicateModel)
    ensures
        ({
            let json = predicate_value(predicate);
            let op = member_of(json, "op"@);
            match predicate {
                PredicateModel::All => op == Some(JsonModel::Text("all"@)),
                PredicateModel::Nothing => op == Some(JsonModel::Text("none"@)),
                PredicateModel::And(terms) => op == Some(JsonModel::Text("and"@)) && member_of(
                    json,
                    "terms"@,
                ) == Some(
                    JsonModel::Array(Seq::new(terms.len(), |i: int| predicate_value(terms[i]))),
                ),
                PredicateModel::Or(terms) => op == Some(JsonModel::Text("or"@)) && member_of(
                    json,
                    "terms"@,
                ) == Some(
                    JsonModel::Array(Seq::new(terms.len(), |i: int| predicate_value(terms[i]))),
                ),
                PredicateModel::Not(term) => op == Some(JsonModel::Text("not"@)) && member_of(
                    json,
                    "term"@,
                ) == Some(predicate_value(*term)),
                PredicateModel::HasType(name) => op == Some(JsonModel::Text("has_type"@)),
                PredicateModel::Compare(comparison) => op == Some(JsonModel::Text("compare"@))
                    && member_of(json, "comparison"@) == Some(comparison_value(comparison)),
            }
        }),
{
    lemma_members();
    reveal_strlit("op");
    reveal_strlit("terms");
    reveal_strlit("term");
    reveal_strlit("type");
    reveal_strlit("_name");
    reveal_strlit("comparison");
    assert("op"@.len() == 2 && "terms"@.len() == 5 && "term"@.len() == 4 && "comparison"@.len()
        == 10 && "type"@.len() == 4 && "_name"@.len() == 5);
    match predicate {
        PredicateModel::And(terms) => {
            lemma_written_terms(terms, terms.len());
        },
        PredicateModel::Or(terms) => {
            lemma_written_terms(terms, terms.len());
        },
        _ => {},
    }
}

proof fn lemma_written_terms(terms: Seq<PredicateModel>, count: nat)
    requires
        count <= terms.len(),
    ensures
        term_values(terms, count) == Seq::new(count, |i: int| predicate_value(terms[i])),
    decreases count,
{
    if count > 0 {
        lemma_written_terms(terms, (count - 1) as nat);
    }
    assert(term_values(terms, count) =~= Seq::new(count, |i: int| predicate_value(terms[i])));
}

/// A comparison says its field, its operator, and the value it compares with.
pub proof fn lemma_comparisons_on_the_wire(comparison: ComparisonModel)
    ensures
        ({
            let json = comparison_value(comparison);
            &&& member_of(json, "field"@) == Some(field_value(comparison.field))
            &&& member_of(json, "value"@) == Some(comparison.value)
            &&& member_of(json, "operator"@) == Some(JsonModel::Text(comparison.operator.name()))
            &&& member_of(json, "pruning"@) == Some(JsonModel::Text(comparison.pruning.name()))
        }),
{
    lemma_members();
    reveal_strlit("field");
    reveal_strlit("operator");
    reveal_strlit("value");
    reveal_strlit("pruning");
    assert("field"@.len() == 5 && "operator"@.len() == 8 && "value"@.len() == 5 && "pruning"@.len()
        == 7 && "field"@[0] == 'f' && "value"@[0] == 'v');
}

/// Operators are told apart by their names, each of which says what the operator asks.
pub proof fn lemma_operators_have_their_names(
    left: CandidateComparisonOperator,
    right: CandidateComparisonOperator,
)
    ensures
        left.name() == right.name() ==> left == right,
        CandidateComparisonOperator::Equal.name() == "equal"@,
        CandidateComparisonOperator::NotEqual.name() == "not_equal"@,
        CandidateComparisonOperator::LessThan.name() == "less_than"@,
        CandidateComparisonOperator::GreaterThan.name() == "greater_than"@,
        CandidateComparisonOperator::LessThanOrEqual.name() == "less_than_or_equal"@,
        CandidateComparisonOperator::GreaterThanOrEqual.name() == "greater_than_or_equal"@,
        CandidateComparisonOperator::In.name() == "in"@,
        CandidateComparisonOperator::Contains.name() == "contains"@,
{
    reveal_strlit("equal");
    reveal_strlit("not_equal");
    reveal_strlit("less_than");
    reveal_strlit("less_than_or_equal");
    reveal_strlit("greater_than");
    reveal_strlit("greater_than_or_equal");
    reveal_strlit("in");
    reveal_strlit("contains");
    assert("equal"@.len() == 5 && "not_equal"@.len() == 9 && "less_than"@.len() == 9
        && "less_than_or_equal"@.len() == 18 && "greater_than"@.len() == 12
        && "greater_than_or_equal"@.len() == 21 && "in"@.len() == 2 && "contains"@.len() == 8
        && "not_equal"@[0] == 'n' && "less_than"@[0] == 'l');
}

// ---------------------------------------------------------------------------
// Base plans
// ---------------------------------------------------------------------------
/// A view is found by its identity: the first with it, if there is one.
pub proof fn lemma_views_are_found(views: Seq<NamedBaseView>, id: Seq<char>)
    ensures
        0 <= view_at(views, id) <= views.len(),
        view_at(views, id) < views.len() ==> views[view_at(views, id)].id@ == id,
        view_at(views, id) == views.len() <==> forall|i: int|
            0 <= i < views.len() ==> (#[trigger] views[i]).id@ != id,
    decreases views.len(),
{
    if views.len() > 0 && views[0].id@ != id {
        let rest = views.drop_first();
        lemma_views_are_found(rest, id);
        if view_at(views, id) == views.len() {
            assert forall|i: int| 0 <= i < views.len() implies (#[trigger] views[i]).id@ != id by {
                if i > 0 {
                    assert(rest[i - 1] == views[i]);
                }
            }
        }
    }
}

/// A Base can be planned only where the request is for its own file, a `.base` file that
/// is enabled, and names one of its views, without errors; and where a scoped request
/// follows no links.
pub proof fn lemma_planned_bases(
    analysis: BaseAnalysis,
    record: CanonicalRecordInput,
    allowed_types: Seq<String>,
)
    requires
        planning_error(analysis, record, allowed_types) is None,
    ensures
        analysis.request is Ok,
        analysis.base is Ok,
        analysis.configured,
        analysis.timezone is Ok,
        analysis.base_timezone_error is None,
        ({
            let request = analysis.request->Ok_0;
            let base = analysis.base->Ok_0;
            let at = view_at(base.views@, request.view_id@);
            &&& !request.render
            &&& request.path@ == record.path@
            &&& has_suffix(request.path@, ".base"@)
            &&& at < base.views@.len()
            &&& base.views@[at].id@ == request.view_id@
            &&& !has_error(base.views@[at].diagnostics@)
            &&& allowed_types.len() > 0 ==> !crate::hosted_base::uses_relationships(
                base.document@,
                base.views@[at].view.source@,
            )
        }),
{
    let request = analysis.request->Ok_0;
    let base = analysis.base->Ok_0;
    lemma_views_are_found(base.views@, request.view_id@);
}

/// A Base's plan is of the request's view, at the request's offset, with the request's
/// limit or else the view's, and under the present catalog.
pub proof fn lemma_base_plans_follow_their_request(
    plan: HostedBasePlan,
    catalog: CompiledCatalog,
    analysis: BaseAnalysis,
    record: CanonicalRecordInput,
    allowed_types: Seq<String>,
)
    requires
        is_base_plan(plan, catalog, analysis, record, allowed_types),
        analysis.request is Ok,
        analysis.base is Ok,
    ensures
        ({
            let request = analysis.request->Ok_0;
            let base = analysis.base->Ok_0;
            let named = base.views@[view_at(base.views@, request.view_id@)];
            &&& plan.view_id@ == request.view_id@
            &&& plan.view_path@ == request.path@
            &&& plan.catalog_revision@ == catalog.resource_revision@
            &&& request.offset is Some ==> plan.offset == request.offset->0
            &&& request.offset is None ==> plan.offset == 0
            &&& request.limit is Some ==> plan.suggested_page_size == request.limit
            &&& request.limit is None ==> plan.suggested_page_size == named.view.limit
            &&& plan.requirements.backlinks == named.uses_backlinks
            &&& plan.requirements.query_context <==> request.context is Some
            &&& plan.view.sort@.len() == named.view.sort@.len()
            &&& plan.view.order@ == named.view.order@
        }),
{
}

/// The plan of a Base is sealed over all that it says.
pub proof fn lemma_base_plans_are_sealed_whole(plan: HostedBasePlan)
    ensures
        ({
            let json = unsigned_base_plan(plan);
            &&& member_of(json, "catalog_revision"@) == Some(
                JsonModel::Text(plan.catalog_revision@),
            )
            &&& member_of(json, "view_path"@) == Some(JsonModel::Text(plan.view_path@))
            &&& member_of(json, "view_id"@) == Some(JsonModel::Text(plan.view_id@))
            &&& member_of(json, "view_revision"@) == Some(JsonModel::Text(plan.view_revision@))
            &&& member_of(json, "document"@) == Some(plan.document@)
            &&& plan.context_path is Some ==> member_of(json, "context_path"@) == Some(
                JsonModel::Text((plan.context_path->0)@),
            )
            &&& plan.context_path is None ==> member_of(json, "context_path"@) is None
            &&& plan.allowed_types@.len() > 0 <==> member_of(json, "allowed_types"@) is Some
            &&& member_of(json, "offset"@) == Some(
                JsonModel::Number(NumberModel::Integer(plan.offset as int)),
            )
            &&& plan.suggested_page_size is Some ==> member_of(json, "suggested_page_size"@)
                == Some(
                JsonModel::Number(NumberModel::Integer(plan.suggested_page_size->0 as int)),
            )
        }),
{
    lemma_members();
    reveal_strlit("plan_version");
    reveal_strlit("catalog_revision");
    reveal_strlit("view_path");
    reveal_strlit("view_id");
    reveal_strlit("view_revision");
    reveal_strlit("document");
    reveal_strlit("view");
    reveal_strlit("context_path");
    reveal_strlit("timezone");
    reveal_strlit("allowed_types");
    reveal_strlit("offset");
    reveal_strlit("suggested_page_size");
    reveal_strlit("requirements");
    reveal_strlit("invocation_digest");
    assert("plan_version"@.len() == 12 && "catalog_revision"@.len() == 16 && "view_path"@.len() == 9
        && "view_id"@.len() == 7 && "view_revision"@.len() == 13 && "document"@.len() == 8
        && "view"@.len() == 4 && "context_path"@.len() == 12 && "timezone"@.len() == 8
        && "allowed_types"@.len() == 13 && "offset"@.len() == 6 && "suggested_page_size"@.len()
        == 19 && "requirements"@.len() == 12 && "invocation_digest"@.len() == 17);
    assert("plan_version"@[0] == 'p' && "context_path"@[0] == 'c' && "requirements"@[0] == 'r'
        && "document"@[0] == 'd' && "timezone"@[0] == 't' && "view_revision"@[0] == 'v'
        && "allowed_types"@[0] == 'a');
}

// ---------------------------------------------------------------------------
// Links of Bases
// ---------------------------------------------------------------------------
/// What a link was resolved to: what the last occurrence of its target that is not left
/// open says; nothing where none does.
pub proof fn lemma_resolutions(
    occurrences: Seq<ResolvedStructuralOccurrence>,
    last: ResolvedStructuralOccurrence,
    target: Seq<char>,
)
    ensures
        last.raw_target@ == target && last.resolution == StructuralResolution::Resolved
            ==> resolution_of(occurrences.push(last), target) == Some(
            optional_text(last.target_path),
        ),
        last.raw_target@ != target || last.resolution == StructuralResolution::Unresolved
            ==> resolution_of(occurrences.push(last), target) == resolution_of(
            occurrences,
            target,
        ),
        last.raw_target@ == target && last.resolution != StructuralResolution::Unresolved
            && last.resolution != StructuralResolution::Resolved ==> resolution_of(
            occurrences.push(last),
            target,
        ) == Some(None::<Seq<char>>),
        resolution_of(Seq::empty(), target) is None,
{
    assert(occurrences.push(last).drop_last() =~= occurrences);
}

/// Links keep the order of their targets, each with what it was resolved to.
pub proof fn lemma_links_of_files(
    targets: Seq<String>,
    occurrences: Seq<ResolvedStructuralOccurrence>,
    i: int,
)
    requires
        0 <= i < targets.len(),
    ensures
        links_to(targets, occurrences).len() == targets.len(),
        links_to(targets, occurrences)[i].path == targets[i]@,
        links_to(targets, occurrences)[i].resolved_path == resolution_of(
            occurrences,
            targets[i]@,
        ),
{
}

/// A record can be linked to by each of its keys, as written and in lower case.
pub proof fn lemma_keys_of_records(projection: SemanticProjection, count: nat, i: int)
    requires
        0 <= i < count,
        count <= projection.facts.resolution_keys@.len(),
    ensures
        ({
            let value = projection.facts.resolution_keys@[i].value@;
            let path = projection.facts.path@;
            &&& key_pairs(projection, count).contains((value, path))
            &&& key_pairs(projection, count).contains((crate::text::ascii_lower(value), path))
        }),
    decreases count,
{
    let value = projection.facts.resolution_keys@[i].value@;
    let path = projection.facts.path@;
    let all = key_pairs(projection, count);
    let rest = key_pairs(projection, (count - 1) as nat);
    if i == count - 1 {
        assert(all[rest.len() as int] == (value, path));
        assert(all[rest.len() as int + 1] == (crate::text::ascii_lower(value), path));
    } else {
        lemma_keys_of_records(projection, (count - 1) as nat, i);
        let a = choose|k: int| 0 <= k < rest.len() && rest[k] == (value, path);
        let b = choose|k: int|
            0 <= k < rest.len() && rest[k] == (crate::text::ascii_lower(value), path);
        assert(all[a] == (value, path));
        assert(all[b] == (crate::text::ascii_lower(value), path));
    }
}

// ---------------------------------------------------------------------------
// Maps and resources
// ---------------------------------------------------------------------------
/// Turning a map round: a value leads back to a key that had it.
pub proof fn lemma_turned_maps(entries: TextEntries, key: Seq<char>, value: Seq<char>)
    ensures
        value_at(inverted(entries), value) == Some(key) ==> exists|i: int|
            0 <= i < entries.len() && #[trigger] entries[i] == (key, value),
        (exists|i: int| 0 <= i < entries.len() && (#[trigger] entries[i]).1 == value)
            <==> value_at(inverted(entries), value) is Some,
    decreases entries.len(),
{
    if entries.len() > 0 {
        let front = entries.drop_last();
        let last = entries.last();
        lemma_turned_maps(front, key, value);
        lemma_value_with_entry(inverted(front), last.1, last.0, value);
        assert(entries[entries.len() - 1] == last);
        if value_at(inverted(entries), value) == Some(key) {
            if last.1 == value {
                assert(entries[entries.len() - 1] == (key, value));
            } else {
                let i = choose|i: int| 0 <= i < front.len() && #[trigger] front[i] == (key, value);
                assert(entries[i] == (key, value));
            }
        }
        if exists|i: int| 0 <= i < front.len() && (#[trigger] front[i]).1 == value {
            let i = choose|i: int| 0 <= i < front.len() && (#[trigger] front[i]).1 == value;
            assert(entries[i].1 == value);
        }
        if exists|i: int| 0 <= i < entries.len() && (#[trigger] entries[i]).1 == value {
            let i = choose|i: int| 0 <= i < entries.len() && (#[trigger] entries[i]).1 == value;
            if i < front.len() {
                assert(front[i].1 == value);
            }
        }
    }
}

/// Whether a kind of change is the one of a kind of resource.
pub open spec fn is_kind_of(
    change: ResourceChangeKind,
    resource: CollectionSnapshotResourceKind,
) -> bool {
    &&& change == ResourceChangeKind::Configuration <==> resource
        == CollectionSnapshotResourceKind::Configuration
    &&& change == ResourceChangeKind::TypeDefinition <==> resource
        == CollectionSnapshotResourceKind::Type
    &&& change == ResourceChangeKind::Contract <==> resource
        == CollectionSnapshotResourceKind::Contract
    &&& change == ResourceChangeKind::ViewSource <==> resource
        == CollectionSnapshotResourceKind::View
}

/// A resource is changed exactly where its revision is another, or it is there only before
/// or only after; the change holds both revisions.
pub proof fn lemma_changed_resources(
    before: Seq<CollectionSnapshotResource>,
    after: Seq<CollectionSnapshotResource>,
    path: Seq<char>,
)
    ensures
        ({
            let old_state = resource_at(before, path);
            let new_state = resource_at(after, path);
            match resource_change_at(before, after, path) {
                Some(ChangeModel::Resource(change)) => {
                    &&& change.path == path
                    &&& change.before_revision is Some <==> old_state is Some
                    &&& change.after_revision is Some <==> new_state is Some
                    &&& old_state is Some ==> change.before_revision == Some(
                        old_state->0.revision@,
                    )
                    &&& new_state is Some ==> change.after_revision == Some(
                        new_state->0.revision@,
                    )
                    &&& change.before_revision != change.after_revision
                    &&& is_kind_of(
                        change.kind,
                        if new_state is Some {
                            new_state->0.kind
                        } else {
                            old_state->0.kind
                        },
                    )
                },
                Some(_) => false,
                None => match (old_state, new_state) {
                    (None, None) => true,
                    (Some(a), Some(b)) => a.revision@ == b.revision@,
                    _ => false,
                },
            }
        }),
{
}

/// Changes that were checked are the same changes, with their paths in normal form and
/// their kinds and revisions kept.
pub proof fn lemma_checked_changes_keep(changes: Seq<ChangeModel>, facts: ChangeFacts)
    requires
        checked_changes(changes, facts) is Ok,
    ensures
        checked_changes(changes, facts)->Ok_0.len() == changes.len(),
        forall|i: int|
            0 <= i < changes.len() ==> match (
                #[trigger] changes[i],
                checked_changes(changes, facts)->Ok_0[i],
            ) {
                (ChangeModel::Record(a), ChangeModel::Record(b)) => a.kind == b.kind && a.from
                    == b.from && a.before_revision == b.before_revision && a.after_revision
                    == b.after_revision && a.changed_fields == b.changed_fields && a.body_changed
                    == b.body_changed && normal_path(facts.paths@, a.path) == Ok::<_, Seq<char>>(
                    b.path,
                ),
                (ChangeModel::Resource(a), ChangeModel::Resource(b)) => a.kind == b.kind
                    && a.before_revision == b.before_revision && a.after_revision
                    == b.after_revision && normal_path(facts.paths@, a.path) == Ok::<_, Seq<char>>(
                    b.path,
                ),
                _ => false,
            },
    decreases changes.len(),
{
    if changes.len() > 0 {
        let front = changes.drop_last();
        lemma_checked_changes_keep(front, facts);
        let rest = checked_changes(front, facts)->Ok_0;
        assert forall|i: int| 0 <= i < changes.len() implies match (
            #[trigger] changes[i],
            checked_changes(changes, facts)->Ok_0[i],
        ) {
            (ChangeModel::Record(a), ChangeModel::Record(b)) => a.kind == b.kind && a.from
                == b.from && a.before_revision == b.before_revision && a.after_revision
                == b.after_revision && a.changed_fields == b.changed_fields && a.body_changed
                == b.body_changed && normal_path(facts.paths@, a.path) == Ok::<_, Seq<char>>(
                b.path,
            ),
            (ChangeModel::Resource(a), ChangeModel::Resource(b)) => a.kind == b.kind
                && a.before_revision == b.before_revision && a.after_revision == b.after_revision
                && normal_path(facts.paths@, a.path) == Ok::<_, Seq<char>>(b.path),
            _ => false,
        } by {
            if i < front.len() {
                assert(front[i] == changes[i]);
                assert(checked_changes(changes, facts)->Ok_0[i] == rest[i]);
            }
        }
    }
}

/// The fields of a value: of an object those of its members, of any other value the one it
/// stands at.
pub proof fn lemma_visible_fields(
    members: Seq<(Seq<char>, JsonModel)>,
    pointer: Seq<char>,
    found: Seq<char>,
)
    requires
        members.len() > 0,
    ensures
        visible(JsonModel::Object(members), pointer).contains(found) <==> exists|i: int|
            0 <= i < members.len() && visible(
                (#[trigger] members[i]).1,
                crate::diff::child_of(pointer, members[i].0),
            ).contains(found),
        forall|value: JsonModel|
            !(value is Object) && pointer.len() > 0 ==> #[trigger] visible(value, pointer) == seq![
                pointer,
            ],
{
    lemma_visible_members(members, pointer, members.len(), found);
}

proof fn lemma_visible_members(
    members: Seq<(Seq<char>, JsonModel)>,
    pointer: Seq<char>,
    count: nat,
    found: Seq<char>,
)
    requires
        count <= members.len(),
    ensures
        visible_members(members, pointer, count).contains(found) <==> exists|i: int|
            0 <= i < count && visible(
                (#[trigger] members[i]).1,
                crate::diff::child_of(pointer, members[i].0),
            ).contains(found),
    decreases count,
{
    if count > 0 {
        lemma_visible_members(members, pointer, (count - 1) as nat, found);
        let last = members[count - 1];
        crate::change_laws::lemma_contained_in_sum(
            visible_members(members, pointer, (count - 1) as nat),
            visible(last.1, crate::diff::child_of(pointer, last.0)),
            found,
        );
    }
}

/// A condition counts itself and the conditions that it is made of.
pub proof fn lemma_counted_conditions(terms: Seq<PredicateModel>, term: PredicateModel)
    ensures
        node_count(PredicateModel::And(terms.push(term))) == node_count(PredicateModel::And(terms))
            + node_count(term),
        node_count(PredicateModel::Or(terms.push(term))) == node_count(PredicateModel::Or(terms))
            + node_count(term),
        node_count(PredicateModel::And(Seq::empty())) == 1,
        node_count(PredicateModel::Or(Seq::empty())) == 1,
        node_count(PredicateModel::Not(Box::new(term))) == 1 + node_count(term),
        node_count(PredicateModel::All) == 1,
        node_count(PredicateModel::Nothing) == 1,
{
    let all = terms.push(term);
    assert(all.take(terms.len() as int) =~= terms);
    lemma_counted_start(terms, all, terms.len());
    assert(nodes_among(all, all.len()) == nodes_among(all, terms.len()) + node_count(term));
    let none = Seq::<PredicateModel>::empty();
    assert(nodes_among(none, 0) == 0);
    assert(node_count(PredicateModel::And(none)) == 1 + nodes_among(none, none.len()));
    assert(node_count(PredicateModel::Or(none)) == 1 + nodes_among(none, none.len()));
}

proof fn lemma_counted_start(terms: Seq<PredicateModel>, all: Seq<PredicateModel>, count: nat)
    requires
        count <= terms.len() <= all.len(),
        all.take(terms.len() as int) == terms,
    ensures
        nodes_among(terms, count) == nodes_among(all, count),
    decreases count,
{
    if count > 0 {
        lemma_counted_start(terms, all, (count - 1) as nat);
        assert(all.take(terms.len() as int)[count - 1] == all[count - 1]);
    }
}

} // verus!
