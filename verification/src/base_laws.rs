//! What the rows of a Base view show, how they stand, and how they are grouped.

use crate::base_graph::{
    are_backlinks, are_files, frontmatter_tags, is_file_of, is_linked_from, links_to_path,
    occurrence_pairs, BasesFile,
};
use crate::canonical::canonical_or_empty;
use crate::diagnostics::CatalogError;
use crate::hosted_base::{
    are_base_groups, base_group_value, computed_values, group_value_of, groups_of_rows, in_scope,
    is_evaluation, is_row, is_sealed_base, is_valid_projection, is_whole_evaluation, key_order,
    lists_base_groups, needs_property, order_of_base_groups, picked_values, row_key, row_value,
    shown_values, term_order, text_position, usage_text, uses_relationships, with_row, BaseFailure,
    BaseGroupModel, BaseTerm, BaseView, HostedBaseEvaluation, HostedBasePlan,
    HostedBaseRecordContext, HostedBaseRow, PropertyOutcome,
};
use crate::json::{
    lemma_lookup_with_member, lookup, member_models, member_of, or_null, JsonModel, NumberModel,
};
use crate::numbers::number_order;
use crate::ordering::base_order;
use crate::projection::SemanticProjection;
use crate::query::directed_positions;
use crate::sorting::{arranged, lemma_covers_each, may_precede, stably_sorted};
use crate::text::{
    lemma_text_order_equal, lemma_text_order_reverse, lemma_text_order_transitive,
    lists_ignoring_case, lists_text, optional_text, same_ignoring_case, text_order, trimmed_start,
    Order,
};
use crate::value_laws::{
    is_within, lemma_members, lemma_parts_of_texts, lemma_texts_stand_in_dictionary_order,
    stands_before,
};
use vstd::prelude::*;

verus! {

// ---------------------------------------------------------------------------
// Row order
// ---------------------------------------------------------------------------
/// How two rows of a view compare.
pub open spec fn rows_order(
    plan: HostedBasePlan,
    left: HostedBaseRow,
    right: HostedBaseRow,
) -> Order {
    key_order(
        plan.view.sort@,
        row_key(plan, left),
        left.path@,
        row_key(plan, right),
        right.path@,
        0,
    )
}

proof fn lemma_descending_names()
    ensures
        !same_ignoring_case("ASC"@, "DESC"@),
        same_ignoring_case("DESC"@, "DESC"@),
{
    reveal_strlit("ASC");
    reveal_strlit("DESC");
    assert(crate::text::ascii_lower("ASC"@).len() == 3);
    assert(crate::text::ascii_lower("DESC"@).len() == 4);
}

/// Under an ascending term a smaller number stands before a greater one, a text before
/// those after it in dictionary order, false before true, and null last; under a
/// descending term it is the other way round.
pub proof fn lemma_terms_direct_values(term: BaseTerm, left: JsonModel, right: JsonModel)
    ensures
        term.direction@ == "ASC"@ ==> {
            &&& left is Number && right is Number ==> term_order(term, left, right)
                == number_order(left->Number_0, right->Number_0)
            &&& left is Text && right is Text ==> {
                &&& term_order(term, left, right) == Order::Less <==> stands_before(
                    left->Text_0,
                    right->Text_0,
                )
                &&& term_order(term, left, right) == Order::Equal <==> left->Text_0
                    == right->Text_0
            }
            &&& left is Bool && right is Bool ==> (term_order(term, left, right) == Order::Less
                <==> !left->Bool_0 && right->Bool_0)
            &&& !(left is Null) && right is Null ==> term_order(term, left, right) == Order::Less
            &&& left is Null && !(right is Null) ==> term_order(term, left, right)
                == Order::Greater
        },
        term.direction@ == "DESC"@ ==> {
            &&& left is Number && right is Number ==> {
                &&& term_order(term, left, right) == Order::Greater <==> number_order(
                    left->Number_0,
                    right->Number_0,
                ) == Order::Less
                &&& term_order(term, left, right) == Order::Less <==> number_order(
                    left->Number_0,
                    right->Number_0,
                ) == Order::Greater
            }
            &&& left is Text && right is Text ==> {
                &&& term_order(term, left, right) == Order::Greater <==> stands_before(
                    left->Text_0,
                    right->Text_0,
                )
                &&& term_order(term, left, right) == Order::Equal <==> left->Text_0
                    == right->Text_0
            }
            &&& left is Bool && right is Bool ==> (term_order(term, left, right) == Order::Less
                <==> left->Bool_0 && !right->Bool_0)
            &&& !(left is Null) && right is Null ==> term_order(term, left, right)
                == Order::Greater
            &&& left is Null && !(right is Null) ==> term_order(term, left, right) == Order::Less
        },
{
    lemma_descending_names();
    crate::value_laws::lemma_values_stand_in_order(left, right);
    if left is Text && right is Text {
        lemma_texts_stand_in_dictionary_order(left->Text_0, right->Text_0);
    }
}

/// Terms of opposite directions order any two values in opposite ways.
pub proof fn lemma_opposite_directions(
    ascending: BaseTerm,
    descending: BaseTerm,
    left: JsonModel,
    right: JsonModel,
)
    requires
        !same_ignoring_case(ascending.direction@, "DESC"@),
        same_ignoring_case(descending.direction@, "DESC"@),
    ensures
        term_order(ascending, left, right) == Order::Less <==> term_order(descending, left, right)
            == Order::Greater,
        term_order(ascending, left, right) == Order::Greater <==> term_order(
            descending,
            left,
            right,
        ) == Order::Less,
        term_order(ascending, left, right) == base_order(left, right),
{
}

/// Under a view with one ascending term, a row whose value is the smaller number, or
/// the text before in dictionary order, stands before; under a view with one descending
/// term it stands after. Rows whose values stand level stand by their paths.
pub proof fn lemma_rows_stand_by_one_term(
    plan: HostedBasePlan,
    left: HostedBaseRow,
    right: HostedBaseRow,
)
    requires
        plan.view.sort@.len() == 1,
    ensures
        ({
            let term = plan.view.sort@[0];
            let a = row_value(left, term);
            let b = row_value(right, term);
            let order = rows_order(plan, left, right);
            let before = (a is Number && b is Number && number_order(a->Number_0, b->Number_0)
                == Order::Less) || (a is Text && b is Text && stands_before(
                a->Text_0,
                b->Text_0,
            ));
            &&& before && term.direction@ == "ASC"@ ==> order == Order::Less
            &&& before && term.direction@ == "DESC"@ ==> order == Order::Greater
            &&& base_order(a, b) == Order::Equal ==> order == text_order(left.path@, right.path@)
        }),
{
    let term = plan.view.sort@[0];
    let a = row_value(left, term);
    let b = row_value(right, term);
    lemma_terms_direct_values(term, a, b);
    lemma_descending_names();
    reveal_with_fuel(key_order, 2);
    assert(row_key(plan, left)[0] == a);
    assert(row_key(plan, right)[0] == b);
}

/// Changing the direction of a view's one term reverses the order of any two rows whose
/// values do not stand level.
pub proof fn lemma_changed_direction_reverses_rows(
    ascending: HostedBasePlan,
    descending: HostedBasePlan,
    left: HostedBaseRow,
    right: HostedBaseRow,
)
    requires
        ascending.view.sort@.len() == 1,
        descending.view.sort@.len() == 1,
        ascending.view.sort@[0].property@ == descending.view.sort@[0].property@,
        ascending.view.sort@[0].direction@ == "ASC"@,
        descending.view.sort@[0].direction@ == "DESC"@,
        base_order(
            row_value(left, ascending.view.sort@[0]),
            row_value(right, ascending.view.sort@[0]),
        ) != Order::Equal,
    ensures
        rows_order(ascending, left, right) == Order::Less <==> rows_order(descending, left, right)
            == Order::Greater,
        rows_order(ascending, left, right) == Order::Greater <==> rows_order(
            descending,
            left,
            right,
        ) == Order::Less,
        rows_order(ascending, left, right) != Order::Equal,
{
    lemma_descending_names();
    reveal_with_fuel(key_order, 2);
    assert(row_key(ascending, left)[0] == row_value(left, ascending.view.sort@[0]));
    assert(row_key(ascending, right)[0] == row_value(right, ascending.view.sort@[0]));
    assert(row_key(descending, left)[0] == row_value(left, ascending.view.sort@[0]));
    assert(row_key(descending, right)[0] == row_value(right, ascending.view.sort@[0]));
}

/// Rows stand by the first term in which their values do not stand level, and by their
/// paths where there is none.
pub proof fn lemma_rows_stand_by_first_difference(
    plan: HostedBasePlan,
    left: HostedBaseRow,
    right: HostedBaseRow,
    at: int,
)
    requires
        0 <= at <= plan.view.sort@.len(),
        forall|k: int|
            0 <= k < at ==> base_order(
                row_value(left, #[trigger] plan.view.sort@[k]),
                row_value(right, plan.view.sort@[k]),
            ) == Order::Equal,
    ensures
        at == plan.view.sort@.len() ==> rows_order(plan, left, right) == text_order(
            left.path@,
            right.path@,
        ),
        at < plan.view.sort@.len() ==> {
            let term = plan.view.sort@[at];
            let order = base_order(row_value(left, term), row_value(right, term));
            &&& order != Order::Equal && term.direction@ == "ASC"@ ==> rows_order(
                plan,
                left,
                right,
            ) == order
            &&& order == Order::Less && term.direction@ == "DESC"@ ==> rows_order(
                plan,
                left,
                right,
            ) == Order::Greater
            &&& order == Order::Greater && term.direction@ == "DESC"@ ==> rows_order(
                plan,
                left,
                right,
            ) == Order::Less
        },
{
    lemma_descending_names();
    lemma_level_terms(plan, left, right, at, 0);
    if at < plan.view.sort@.len() {
        assert(row_key(plan, left)[at] == row_value(left, plan.view.sort@[at]));
        assert(row_key(plan, right)[at] == row_value(right, plan.view.sort@[at]));
    }
}

proof fn lemma_level_terms(
    plan: HostedBasePlan,
    left: HostedBaseRow,
    right: HostedBaseRow,
    at: int,
    from: nat,
)
    requires
        from <= at <= plan.view.sort@.len(),
        forall|k: int|
            0 <= k < at ==> base_order(
                row_value(left, #[trigger] plan.view.sort@[k]),
                row_value(right, plan.view.sort@[k]),
            ) == Order::Equal,
    ensures
        key_order(
            plan.view.sort@,
            row_key(plan, left),
            left.path@,
            row_key(plan, right),
            right.path@,
            from,
        ) == key_order(
            plan.view.sort@,
            row_key(plan, left),
            left.path@,
            row_key(plan, right),
            right.path@,
            at as nat,
        ),
    decreases at - from,
{
    if from < at {
        let term = plan.view.sort@[from as int];
        assert(base_order(row_value(left, term), row_value(right, term)) == Order::Equal);
        assert(row_key(plan, left)[from as int] == row_value(left, term));
        assert(row_key(plan, right)[from as int] == row_value(right, term));
        lemma_level_terms(plan, left, right, at, from + 1);
    }
}

/// The value that a row is sorted by is its computed value of the property, or null.
pub proof fn lemma_sort_values_are_computed(row: HostedBaseRow, term: BaseTerm)
    ensures
        match lookup(member_models(row.sort_values@), term.property@) {
            Some(value) => row_value(row, term) == value,
            None => row_value(row, term) is Null,
        },
{
}

// ---------------------------------------------------------------------------
// Evaluation
// ---------------------------------------------------------------------------
/// Whether a failure ends an evaluation: the work budget or a cancellation.
pub open spec fn ends_evaluation(failure: BaseFailure) -> bool {
    failure is WorkBudget || failure is Cancelled
}

/// A record is shown exactly where the filter holds of it and no property was stopped;
/// its row is then that of its path. It is passed over exactly where the filter does not
/// hold or failed of itself, with a diagnostic in the latter case; and evaluation is
/// stopped exactly where the filter, or a property after a filter that holds, was.
pub proof fn lemma_filters_decide(
    result: Result<HostedBaseEvaluation, CatalogError>,
    plan: HostedBasePlan,
    input: HostedBaseRecordContext,
    file: BasesFile,
    filter: Result<bool, BaseFailure>,
    outcomes: Seq<PropertyOutcome>,
)
    requires
        is_evaluation(result, plan, input, file, filter, outcomes),
    ensures
        ({
            let stopped = exists|i: int|
                0 <= i < outcomes.len() && (#[trigger] outcomes[i]).outcome is Err
                    && ends_evaluation(outcomes[i].outcome->Err_0);
            &&& result is Ok && result->Ok_0 is Included <==> filter == Ok::<bool, BaseFailure>(
                true,
            ) && !stopped
            &&& result is Ok && result->Ok_0 is Excluded <==> filter == Ok::<bool, BaseFailure>(
                false,
            ) || (filter is Err && !ends_evaluation(filter->Err_0))
            &&& result is Ok && result->Ok_0 is Excluded ==> (result->Ok_0->diagnostics@.len() > 0
                <==> filter is Err)
            &&& result is Ok && result->Ok_0 is Included ==> result->Ok_0->row.path@
                == input.projection.facts.path@
        }),
{
    lemma_stopped(outcomes);
    if filter is Err && !ends_evaluation(filter->Err_0) {
        assert(crate::diagnostics::diagnostic_models(result->Ok_0->diagnostics@).len() == 1);
    }
}

proof fn lemma_stopped(outcomes: Seq<PropertyOutcome>)
    ensures
        computed_values(outcomes) is Err <==> exists|i: int|
            0 <= i < outcomes.len() && (#[trigger] outcomes[i]).outcome is Err && ends_evaluation(
                outcomes[i].outcome->Err_0,
            ),
    decreases outcomes.len(),
{
    if outcomes.len() > 0 {
        let front = outcomes.drop_last();
        lemma_stopped(front);
        if computed_values(front) is Err {
            let i = choose|i: int|
                0 <= i < front.len() && (#[trigger] front[i]).outcome is Err && ends_evaluation(
                    front[i].outcome->Err_0,
                );
            assert(outcomes[i] == front[i]);
        } else {
            assert(outcomes[outcomes.len() - 1] == outcomes.last());
            assert forall|i: int| 0 <= i < front.len() implies !((
            #[trigger] outcomes[i]).outcome is Err && ends_evaluation(
                outcomes[i].outcome->Err_0,
            )) by {
                assert(front[i] == outcomes[i]);
            }
        }
    }
}

/// The value of a property is what evaluating it gave, the last time if more than once,
/// or null where that failed of itself.
pub proof fn lemma_computed_values(outcomes: Seq<PropertyOutcome>, i: int)
    requires
        computed_values(outcomes) is Ok,
        0 <= i < outcomes.len(),
        forall|k: int|
            i < k < outcomes.len() ==> (#[trigger] outcomes[k]).property@ != outcomes[i].property@,
    ensures
        lookup(computed_values(outcomes)->Ok_0, outcomes[i].property@) == Some(
            match outcomes[i].outcome {
                Ok(value) => value@,
                Err(_) => JsonModel::Null,
            },
        ),
    decreases outcomes.len(),
{
    let front = outcomes.drop_last();
    let members = computed_values(front)->Ok_0;
    let last = outcomes.last();
    let value = match last.outcome {
        Ok(value) => value@,
        Err(_) => JsonModel::Null,
    };
    lemma_lookup_with_member(members, last.property@, value, outcomes[i].property@);
    if i < front.len() {
        assert(front[i] == outcomes[i]);
        assert(outcomes[outcomes.len() - 1].property@ != outcomes[i].property@);
        assert forall|k: int| i < k < front.len() implies (#[trigger] front[k]).property@
            != front[i].property@ by {
            assert(outcomes[k].property@ != outcomes[i].property@);
        }
        lemma_computed_values(front, i);
    }
}

/// A row shows the computed value of each of its columns and of its group, and nothing
/// else; null where there is no value.
pub proof fn lemma_rows_show_their_columns(
    view: BaseView,
    computed: Seq<(Seq<char>, JsonModel)>,
    property: Seq<char>,
)
    ensures
        ({
            let shown = lists_text(view.order@, property) || (view.group_by is Some
                && view.group_by->0.property@ == property);
            lookup(shown_values(view, computed), property) == if shown {
                Some(or_null(lookup(computed, property)))
            } else {
                None
            }
        }),
{
    lemma_picked_values(view.order@, computed, view.order@.len(), property);
    crate::text::lemma_lists_text(view.order@, property);
    assert(view.order@.take(view.order@.len() as int) =~= view.order@);
    if let Some(group) = view.group_by {
        lemma_lookup_with_member(
            picked_values(view.order@, computed, view.order@.len()),
            group.property@,
            or_null(lookup(computed, group.property@)),
            property,
        );
    }
}

proof fn lemma_picked_values(
    properties: Seq<String>,
    computed: Seq<(Seq<char>, JsonModel)>,
    count: nat,
    property: Seq<char>,
)
    requires
        count <= properties.len(),
    ensures
        lookup(picked_values(properties, computed, count), property) == if lists_text(
            properties.take(count as int),
            property,
        ) {
            Some(or_null(lookup(computed, property)))
        } else {
            None
        },
    decreases count,
{
    let listed = properties.take(count as int);
    if count > 0 {
        let fewer = properties.take(count - 1);
        lemma_picked_values(properties, computed, (count - 1) as nat, property);
        lemma_lookup_with_member(
            picked_values(properties, computed, (count - 1) as nat),
            properties[count - 1]@,
            or_null(lookup(computed, properties[count - 1]@)),
            property,
        );
        if lists_text(fewer, property) {
            let i = choose|i: int| 0 <= i < fewer.len() && (#[trigger] fewer[i])@ == property;
            assert(listed[i]@ == property);
        }
        if properties[count - 1]@ == property {
            assert(listed[count - 1]@ == property);
        }
        if lists_text(listed, property) && properties[count - 1]@ != property {
            let i = choose|i: int| 0 <= i < listed.len() && (#[trigger] listed[i])@ == property;
            assert(fewer[i]@ == property);
        }
    }
}

/// A row of a record groups under its computed value of the group's property.
pub proof fn lemma_rows_group_by_their_value(
    row: HostedBaseRow,
    plan: HostedBasePlan,
    input: HostedBaseRecordContext,
    file: BasesFile,
    computed: Seq<(Seq<char>, JsonModel)>,
)
    requires
        is_row(row, plan, input, file, computed),
        plan.view.group_by is Some,
    ensures
        group_value_of(row) == or_null(lookup(computed, plan.view.group_by->0.property@)),
        lookup(member_models(row.values@), plan.view.group_by->0.property@) == Some(
            group_value_of(row),
        ),
{
    lemma_rows_show_their_columns(plan.view, computed, plan.view.group_by->0.property@);
}

/// Records are evaluated only under a sealed plan and with a fitting context: too many
/// neighbors, an incomplete neighborhood that the plan needs, a projection of another
/// catalog, or a context record that the plan does not bind are refused; and a record of
/// no allowed type is passed over.
pub proof fn lemma_contexts_that_are_refused(
    result: Result<HostedBaseEvaluation, CatalogError>,
    plan: HostedBasePlan,
    input: HostedBaseRecordContext,
    timezone_fault: Option<String>,
    filter: Result<bool, BaseFailure>,
    outcomes: Seq<PropertyOutcome>,
)
    requires
        is_whole_evaluation(result, plan, input, timezone_fault, filter, outcomes),
    ensures
        result is Ok ==> {
            &&& is_sealed_base(plan)
            &&& input.related@.len() <= crate::hosted_base::MAX_HOSTED_BASE_RELATED_RECORDS
            &&& plan.requirements.backlinks || plan.requirements.outgoing_relationships
                || plan.requirements.link_resolution ==> input.relationship_neighborhood_complete
            &&& input.projection.facts.catalog_revision@ == plan.catalog_revision@
            &&& input.projection.structure.structural_digest_is_valid
            &&& forall|i: int|
                0 <= i < input.related@.len() ==> (#[trigger] input.related@[i]).facts.catalog_revision@
                    == plan.catalog_revision@
            &&& input.query_context is Some ==> in_scope(plan, input.query_context->0.facts.types@)
        },
        result is Ok && result->Ok_0 is Included ==> {
            &&& in_scope(plan, input.projection.facts.types@)
            &&& timezone_fault is None
            &&& plan.context_path is Some <==> input.query_context is Some
            &&& plan.context_path is Some ==> input.query_context->0.facts.path@
                == plan.context_path->0@
        },
        result is Ok && !in_scope(plan, input.projection.facts.types@) ==> result->Ok_0
            is Excluded,
{
    assert forall|i: int| 0 <= i < input.related@.len() && result is Ok implies (
    #[trigger] input.related@[i]).facts.catalog_revision@ == plan.catalog_revision@ by {
        assert(is_valid_projection(plan, input.related@[i]));
    }
}

// ---------------------------------------------------------------------------
// Groups
// ---------------------------------------------------------------------------
/// The first rows whose group value has a canonical text.
pub open spec fn rows_with_text(rows: Seq<HostedBaseRow>, count: nat, text: Seq<char>) -> Seq<
    HostedBaseRow,
>
    decreases count,
{
    if count == 0 || count > rows.len() {
        Seq::empty()
    } else {
        let rest = rows_with_text(rows, (count - 1) as nat, text);
        if canonical_or_empty(group_value_of(rows[count - 1])) == text {
            rest.push(rows[count - 1])
        } else {
            rest
        }
    }
}

/// Whether groups stand by ascending text, no text twice.
pub open spec fn by_ascending_text(groups: Seq<BaseGroupModel>) -> bool {
    forall|i: int, j: int|
        #![trigger groups[i], groups[j]]
        0 <= i < j < groups.len() ==> text_order(groups[i].text, groups[j].text) == Order::Less
}

/// Whether a group is made of some rows: it counts them and has the value of the first.
pub open spec fn counts_rows(group: BaseGroupModel, rows: Seq<HostedBaseRow>) -> bool {
    &&& rows.len() > 0
    &&& group.count == rows.len()
    &&& group.value == group_value_of(rows[0])
}

proof fn lemma_text_positions(groups: Seq<BaseGroupModel>, text: Seq<char>)
    ensures
        0 <= text_position(groups, text) <= groups.len(),
        forall|k: int|
            0 <= k < text_position(groups, text) ==> text_order((#[trigger] groups[k]).text, text)
                == Order::Less,
        text_position(groups, text) < groups.len() ==> text_order(
            groups[text_position(groups, text)].text,
            text,
        ) != Order::Less,
    decreases groups.len(),
{
    if groups.len() > 0 && text_order(groups[0].text, text) == Order::Less {
        lemma_text_positions(groups.drop_first(), text);
        assert forall|k: int| 0 <= k < text_position(groups, text) implies text_order(
            (#[trigger] groups[k]).text,
            text,
        ) == Order::Less by {
            if k > 0 {
                assert(groups.drop_first()[k - 1] == groups[k]);
            }
        }
    }
}

proof fn lemma_texts_beyond(groups: Seq<BaseGroupModel>, text: Seq<char>, i: int)
    requires
        by_ascending_text(groups),
        0 <= i < groups.len(),
    ensures
        i < text_position(groups, text) ==> text_order(groups[i].text, text) == Order::Less
            && groups[i].text != text,
        i > text_position(groups, text) ==> text_order(text, groups[i].text) == Order::Less
            && groups[i].text != text,
        i == text_position(groups, text) && groups[i].text != text ==> text_order(
            text,
            groups[i].text,
        ) == Order::Less,
{
    let at = text_position(groups, text);
    lemma_text_positions(groups, text);
    lemma_text_order_equal(text, text);
    if i >= at {
        lemma_text_order_equal(groups[at].text, text);
        lemma_text_order_reverse(groups[at].text, text);
        if i > at {
            assert(text_order(groups[at].text, groups[i].text) == Order::Less);
            lemma_text_order_transitive(text, groups[at].text, groups[i].text);
            lemma_text_order_equal(text, groups[i].text);
            assert(text_order(text, groups[i].text) != Order::Equal);
        }
    }
}

proof fn lemma_row_added(groups: Seq<BaseGroupModel>, value: JsonModel)
    requires
        by_ascending_text(groups),
    ensures
        by_ascending_text(with_row(groups, value)),
{
    let text = canonical_or_empty(value);
    let at = text_position(groups, text);
    let after = with_row(groups, value);
    lemma_text_positions(groups, text);
    assert forall|i: int, j: int|
        #![trigger after[i], after[j]]
        0 <= i < j < after.len() implies text_order(after[i].text, after[j].text)
        == Order::Less by {
        if at < groups.len() && groups[at].text == text {
            assert(after[i].text == groups[i].text);
            assert(after[j].text == groups[j].text);
        } else if i < at {
            assert(after[i] == groups[i]);
            lemma_texts_beyond(groups, text, i);
            if j > at {
                assert(after[j] == groups[j - 1]);
            } else if j < at {
                assert(after[j] == groups[j]);
            }
        } else {
            assert(after[j] == groups[j - 1]);
            lemma_texts_beyond(groups, text, j - 1);
            if i > at {
                assert(after[i] == groups[i - 1]);
            }
        }
    }
}

proof fn lemma_rows_with_text_are_few(rows: Seq<HostedBaseRow>, count: nat, text: Seq<char>)
    ensures
        rows_with_text(rows, count, text).len() <= count,
    decreases count,
{
    if count > 0 && count <= rows.len() {
        lemma_rows_with_text_are_few(rows, (count - 1) as nat, text);
    }
}

/// The groups of rows: each is made of just the rows whose group values have its
/// canonical text, each row is in one, and no two groups share a text.
pub proof fn lemma_base_groups_are_made_of_their_rows(rows: Seq<HostedBaseRow>, count: nat)
    requires
        count <= rows.len(),
        count <= u64::MAX,
    ensures
        ({
            let groups = groups_of_rows(rows, count);
            &&& by_ascending_text(groups)
            &&& forall|g: int|
                0 <= g < groups.len() ==> counts_rows(
                    #[trigger] groups[g],
                    rows_with_text(rows, count, groups[g].text),
                )
            &&& forall|text: Seq<char>|
                #![trigger rows_with_text(rows, count, text)]
                rows_with_text(rows, count, text).len() > 0 ==> exists|g: int|
                    0 <= g < groups.len() && (#[trigger] groups[g]).text == text
        }),
    decreases count,
{
    if count > 0 {
        let fewer = (count - 1) as nat;
        lemma_base_groups_are_made_of_their_rows(rows, fewer);
        let before = groups_of_rows(rows, fewer);
        let after = groups_of_rows(rows, count);
        let row = rows[count - 1];
        let value = group_value_of(row);
        let text = canonical_or_empty(value);
        let at = text_position(before, text);
        lemma_text_positions(before, text);
        lemma_row_added(before, value);
        lemma_rows_with_text_are_few(rows, fewer, text);
        let known = at < before.len() && before[at].text == text;
        let old_rows = rows_with_text(rows, fewer, text);
        assert(old_rows.len() > 0 ==> known) by {
            if old_rows.len() > 0 {
                let g = choose|g: int| 0 <= g < before.len() && (#[trigger] before[g]).text == text;
                lemma_texts_beyond(before, text, g);
            }
        }
        assert forall|g: int| 0 <= g < after.len() implies counts_rows(
            #[trigger] after[g],
            rows_with_text(rows, count, after[g].text),
        ) by {
            if g == at {
                if known {
                    assert(counts_rows(before[at], rows_with_text(rows, fewer, before[at].text)));
                }
            } else {
                let old_at = if known || g < at {
                    g
                } else {
                    g - 1
                };
                assert(after[g] == before[old_at]);
                lemma_texts_beyond(before, text, old_at);
                assert(before[old_at].text != text);
                assert(counts_rows(
                    before[old_at],
                    rows_with_text(rows, fewer, before[old_at].text),
                ));
            }
        }
        assert forall|other: Seq<char>|
            #![trigger rows_with_text(rows, count, other)]
            rows_with_text(rows, count, other).len() > 0 implies exists|g: int|
            0 <= g < after.len() && (#[trigger] after[g]).text == other by {
            if other == text {
                assert(after[at].text == other);
            } else {
                assert(rows_with_text(rows, fewer, other).len() > 0);
                let g = choose|g: int|
                    0 <= g < before.len() && (#[trigger] before[g]).text == other;
                if known || g < at {
                    assert(after[g].text == other);
                } else {
                    assert(after[g + 1].text == other);
                }
            }
        }
    }
}

/// The value that a listed group shows for a property.
#[verifier::opaque]
pub open spec fn listed_value(result: JsonModel, property: Seq<char>) -> Option<JsonModel> {
    match member_of(result, "values"@) {
        Some(shown) => member_of(shown, property),
        None => None,
    }
}

/// The groups that a view lists: one for each group of the rows, the values of
/// neighbors in their order under an ascending term and the other way round under a
/// descending one.
pub proof fn lemma_listed_groups_stand_in_order(
    result: Seq<JsonModel>,
    rows: Seq<HostedBaseRow>,
    term: BaseTerm,
)
    requires
        are_base_groups(result, rows, term),
    ensures
        result.len() == groups_of_rows(rows, rows.len()).len(),
        forall|k: int|
            0 <= k < result.len() ==> listed_value(#[trigger] result[k], term.property@) is Some,
        forall|k: int, m: int|
            #![trigger result[k], result[m]]
            0 <= k && m == k + 1 && m < result.len() ==> {
                let a = listed_value(result[k], term.property@)->0;
                let b = listed_value(result[m], term.property@)->0;
                &&& term.direction@ == "ASC"@ ==> base_order(a, b) != Order::Greater
                &&& term.direction@ == "DESC"@ ==> base_order(b, a) != Order::Greater
            },
        forall|g: int|
            0 <= g < groups_of_rows(rows, rows.len()).len() ==> result.contains(
                base_group_value(term.property@, #[trigger] groups_of_rows(rows, rows.len())[g]),
            ),
{
    lemma_descending_names();
    let groups = groups_of_rows(rows, rows.len());
    let descending = same_ignoring_case(term.direction@, "DESC"@);
    let positions = choose|positions: Seq<usize>| #[trigger]
        stably_sorted(groups.len(), order_of_base_groups(groups), positions) && lists_base_groups(
            result,
            arranged(groups, directed_positions(positions, descending)),
            term,
        );
    lemma_directed_groups(groups, positions, descending);
    let ordered = arranged(groups, directed_positions(positions, descending));
    assert forall|k: int| 0 <= k < result.len() implies listed_value(
        #[trigger] result[k],
        term.property@,
    ) == Some(ordered[k].value) by {
        lemma_listed_value(term.property@, ordered[k]);
    }
    assert forall|g: int| 0 <= g < groups.len() implies result.contains(
        base_group_value(term.property@, #[trigger] groups[g]),
    ) by {
        let k = choose|k: int| 0 <= k < ordered.len() && ordered[k] == groups[g];
        assert(result[k] == base_group_value(term.property@, groups[g]));
    }
}

proof fn lemma_directed_groups(
    groups: Seq<BaseGroupModel>,
    positions: Seq<usize>,
    descending: bool,
)
    requires
        stably_sorted(groups.len(), order_of_base_groups(groups), positions),
    ensures
        ({
            let ordered = arranged(groups, directed_positions(positions, descending));
            &&& ordered.len() == groups.len()
            &&& forall|k: int, m: int|
                #![trigger ordered[k], ordered[m]]
                0 <= k && m == k + 1 && m < ordered.len() ==> if descending {
                    base_order(ordered[m].value, ordered[k].value) != Order::Greater
                } else {
                    base_order(ordered[k].value, ordered[m].value) != Order::Greater
                }
            &&& forall|g: int|
                0 <= g < groups.len() ==> ordered.contains(#[trigger] groups[g])
        }),
{
    let directed = directed_positions(positions, descending);
    let ordered = arranged(groups, directed);
    let order = order_of_base_groups(groups);
    let count = groups.len() as int;
    assert forall|k: int, m: int|
        #![trigger ordered[k], ordered[m]]
        0 <= k && m == k + 1 && m < ordered.len() implies if descending {
        base_order(ordered[m].value, ordered[k].value) != Order::Greater
    } else {
        base_order(ordered[k].value, ordered[m].value) != Order::Greater
    } by {
        crate::ordering::lemma_base_order_reverse(ordered[k].value, ordered[m].value);
        if descending {
            assert(directed[k] == positions[count - 1 - k]);
            assert(directed[m] == positions[count - 1 - m]);
            assert(may_precede(
                order,
                positions[count - 1 - m] as int,
                positions[count - 1 - k] as int,
            ));
        } else {
            assert(may_precede(order, positions[k] as int, positions[m] as int));
        }
    }
    assert forall|g: int| 0 <= g < groups.len() implies ordered.contains(#[trigger] groups[g]) by {
        let k = lemma_covers_each(positions, groups.len(), g);
        if descending {
            assert(directed[count - 1 - k] == positions[k]);
            assert(ordered[count - 1 - k] == groups[g]);
        } else {
            assert(ordered[k] == groups[g]);
        }
    }
}

proof fn lemma_listed_value(property: Seq<char>, group: BaseGroupModel)
    ensures
        listed_value(base_group_value(property, group), property) == Some(group.value),
{
    reveal(listed_value);
    lemma_group_members(property, group);
}

/// A listed group holds its value under the group's property, and how many rows it has.
pub proof fn lemma_group_members(property: Seq<char>, group: BaseGroupModel)
    ensures
        ({
            let result = base_group_value(property, group);
            &&& member_of(result, "values"@) is Some
            &&& member_of(member_of(result, "values"@)->0, property) == Some(group.value)
            &&& member_of(result, "count"@) == Some(
                JsonModel::Number(NumberModel::Integer(group.count)),
            )
        }),
{
    reveal_strlit("values");
    reveal_strlit("count");
    reveal_strlit("summaries");
    assert("values"@[0] == 'v' && "count"@[0] == 'c' && "summaries"@[0] == 's');
    lemma_members();
}

/// A record is in the scope of a plan that names types exactly where one of its types is one
/// of them, in any case of its letters; a plan that names none has every record in scope.
pub proof fn lemma_scope_of_plans(plan: HostedBasePlan, types: Seq<String>)
    ensures
        plan.allowed_types@.len() == 0 ==> in_scope(plan, types),
        plan.allowed_types@.len() > 0 ==> (in_scope(plan, types) <==> exists|i: int, j: int|
            0 <= i < types.len() && 0 <= j < plan.allowed_types@.len() && same_ignoring_case(
                (#[trigger] plan.allowed_types@[j])@,
                (#[trigger] types[i])@,
            )),
{
    let allowed = plan.allowed_types@;
    if allowed.len() > 0 && in_scope(plan, types) {
        let i = choose|i: int|
            0 <= i < types.len() && lists_ignoring_case(allowed, (#[trigger] types[i])@);
        let j = choose|j: int|
            0 <= j < allowed.len() && same_ignoring_case((#[trigger] allowed[j])@, types[i]@);
        assert(same_ignoring_case(allowed[j]@, types[i]@));
    }
    if allowed.len() > 0 && exists|i: int, j: int|
        0 <= i < types.len() && 0 <= j < allowed.len() && same_ignoring_case(
            (#[trigger] allowed[j])@,
            (#[trigger] types[i])@,
        ) {
        let (i, j) = choose|i: int, j: int|
            0 <= i < types.len() && 0 <= j < allowed.len() && same_ignoring_case(
                (#[trigger] allowed[j])@,
                (#[trigger] types[i])@,
            );
        assert(lists_ignoring_case(allowed, types[i]@));
    }
}

/// The file of a record has the facts of its projection: its path and name, its size, and
/// its frontmatter in effect as properties; its tags are those of the frontmatter and of
/// the body.
pub proof fn lemma_files_of_projections(file: BasesFile, projection: SemanticProjection)
    requires
        is_file_of(file, projection),
    ensures
        file.path@ == projection.facts.file.path@,
        file.name@ == projection.facts.file.name@,
        file.size == projection.facts.file.size,
        member_models(file.properties@) == member_models(
            projection.facts.effective_frontmatter@,
        ),
        file.links@.len() == projection.structure.body_links@.len(),
        file.embeds@.len() == projection.structure.body_embeds@.len(),
        forall|i: int|
            0 <= i < file.links@.len() ==> (#[trigger] file.links@[i]).path@
                == projection.structure.body_links@[i]@,
        forall|i: int|
            0 <= i < file.embeds@.len() ==> (#[trigger] file.embeds@[i]).path@
                == projection.structure.body_embeds@[i]@,
{
    let links = crate::base_graph::link_models(file.links@);
    let embeds = crate::base_graph::link_models(file.embeds@);
    assert(links.len() == file.links@.len());
    assert(embeds.len() == file.embeds@.len());
    assert forall|i: int| 0 <= i < file.links@.len() implies (#[trigger] file.links@[i]).path@
        == projection.structure.body_links@[i]@ by {
        assert(links[i].path == file.links@[i].path@);
    }
    assert forall|i: int| 0 <= i < file.embeds@.len() implies (#[trigger] file.embeds@[i]).path@
        == projection.structure.body_embeds@[i]@ by {
        assert(embeds[i].path == file.embeds@[i].path@);
    }
}

/// The backlinks of a file are the records with a link that leads to it, each once.
pub proof fn lemma_backlinks_of_files(
    files: Seq<BasesFile>,
    projections: Seq<SemanticProjection>,
    i: int,
    source: Seq<char>,
)
    requires
        are_files(files, projections),
        0 <= i < files.len(),
    ensures
        (exists|b: int|
            0 <= b < files[i].backlinks@.len() && (#[trigger] files[i].backlinks@[b]).path@
                == source) <==> exists|p: int, k: int|
            0 <= p < projections.len() && (#[trigger] projections[p]).facts.path@ == source && 0
                <= k < projections[p].structure.occurrences@.len() && optional_text(
                (#[trigger] projections[p].structure.occurrences@[k]).target_path,
            ) == Some(files[i].path@),
{
    let links = crate::base_graph::link_models(files[i].backlinks@);
    let paths = Seq::new(links.len(), |b: int| links[b].path);
    assert(is_file_of(files[i], projections[i]));
    assert(are_backlinks(links, projections, files[i].path@));
    assert(paths.contains(source) <==> is_linked_from(projections, files[i].path@, source));
    if exists|b: int|
        0 <= b < files[i].backlinks@.len() && (#[trigger] files[i].backlinks@[b]).path@
            == source {
        let b = choose|b: int|
            0 <= b < files[i].backlinks@.len() && (#[trigger] files[i].backlinks@[b]).path@
                == source;
        assert(paths[b] == source);
        let p = choose|p: int|
            0 <= p < projections.len() && (#[trigger] projections[p]).facts.path@ == source
                && links_to_path(projections[p], files[i].path@);
        let k = choose|k: int|
            0 <= k < projections[p].structure.occurrences@.len() && optional_text(
                (#[trigger] projections[p].structure.occurrences@[k]).target_path,
            ) == Some(files[i].path@);
        assert(projections[p].facts.path@ == source);
        assert(optional_text(projections[p].structure.occurrences@[k].target_path) == Some(
            files[i].path@,
        ));
    }
    if exists|p: int, k: int|
        0 <= p < projections.len() && (#[trigger] projections[p]).facts.path@ == source && 0 <= k
            < projections[p].structure.occurrences@.len() && optional_text(
            (#[trigger] projections[p].structure.occurrences@[k]).target_path,
        ) == Some(files[i].path@) {
        let (p, k) = choose|p: int, k: int|
            0 <= p < projections.len() && (#[trigger] projections[p]).facts.path@ == source && 0
                <= k < projections[p].structure.occurrences@.len() && optional_text(
                (#[trigger] projections[p].structure.occurrences@[k]).target_path,
            ) == Some(files[i].path@);
        assert(links_to_path(projections[p], files[i].path@));
        assert(paths.contains(source));
        let b = choose|b: int| 0 <= b < paths.len() && paths[b] == source;
        assert(files[i].backlinks@[b].path@ == source);
    }
}

/// The tags of a record's frontmatter: its one tag, or those of its tags that are texts,
/// without the signs in front of them.
pub proof fn lemma_tags_of_frontmatter(members: Seq<(Seq<char>, JsonModel)>)
    ensures
        match lookup(members, "tags"@) {
            Some(JsonModel::Text(text)) => frontmatter_tags(members).len() == 1
                && frontmatter_tags(members)[0] == trimmed_start(text, '#'),
            Some(JsonModel::Array(items)) => {
                let found = crate::json::texts_among(items);
                &&& frontmatter_tags(members).len() == found.len()
                &&& forall|i: int|
                    0 <= i < found.len() ==> #[trigger] frontmatter_tags(members)[i]
                        == trimmed_start(found[i], '#')
            },
            _ => frontmatter_tags(members).len() == 0,
        },
{
}

/// A link that was resolved can be followed by its target as it is written, and by its
/// normal form where it has one.
pub proof fn lemma_links_can_be_followed(projection: SemanticProjection, count: nat, i: int)
    requires
        0 <= i < count,
        count <= projection.structure.occurrences@.len(),
        projection.structure.occurrences@[i].target_path is Some,
    ensures
        ({
            let occurrence = projection.structure.occurrences@[i];
            let target = (occurrence.target_path->0)@;
            &&& occurrence_pairs(projection, count).contains((occurrence.raw_target@, target))
            &&& occurrence.normalized_target is Some ==> occurrence_pairs(
                projection,
                count,
            ).contains(((occurrence.normalized_target->0)@, target))
        }),
    decreases count,
{
    let occurrence = projection.structure.occurrences@[i];
    let target = (occurrence.target_path->0)@;
    let all = occurrence_pairs(projection, count);
    let rest = occurrence_pairs(projection, (count - 1) as nat);
    if i == count - 1 {
        assert(all[rest.len() as int] == (occurrence.raw_target@, target));
        if occurrence.normalized_target is Some {
            assert(all[rest.len() as int + 1] == ((occurrence.normalized_target->0)@, target));
        }
    } else {
        lemma_links_can_be_followed(projection, (count - 1) as nat, i);
        let a = choose|k: int| 0 <= k < rest.len() && rest[k] == (occurrence.raw_target@, target);
        assert(all[a] == rest[a]);
        if occurrence.normalized_target is Some {
            let b = choose|k: int|
                0 <= k < rest.len() && rest[k] == ((occurrence.normalized_target->0)@, target);
            assert(all[b] == rest[b]);
        }
    }
}

/// A view computes the properties of its columns, of its sort terms, and of its group.
pub proof fn lemma_computed_properties(view: BaseView, property: Seq<char>, i: int)
    ensures
        0 <= i < view.order@.len() && view.order@[i]@ == property ==> needs_property(
            view,
            property,
        ),
        0 <= i < view.sort@.len() && view.sort@[i].property@ == property ==> needs_property(
            view,
            property,
        ),
        view.group_by is Some && view.group_by->0.property@ == property ==> needs_property(
            view,
            property,
        ),
        needs_property(view, property) ==> lists_text(view.order@, property) || (view.group_by
            is Some && view.group_by->0.property@ == property) || exists|k: int|
            0 <= k < view.sort@.len() && (#[trigger] view.sort@[k]).property@ == property,
{
    if 0 <= i < view.order@.len() && view.order@[i]@ == property {
        assert(lists_text(view.order@, property));
    }
}

/// A Base whose document or view speaks of backlinks, links, embeds, or files of links
/// follows links.
pub proof fn lemma_bases_that_follow_links(document: JsonModel, view: JsonModel)
    ensures
        ({
            let text = usage_text(document, view);
            uses_relationships(document, view) <==> is_within("backlinks"@, text) || is_within(
                "file.links"@,
                text,
            ) || is_within("file.embeds"@, text) || is_within("asFile"@, text) || is_within(
                "asLink"@,
                text,
            ) || is_within("file("@, text)
        }),
{
    let text = usage_text(document, view);
    lemma_parts_of_texts(text, "backlinks"@);
    lemma_parts_of_texts(text, "file.links"@);
    lemma_parts_of_texts(text, "file.embeds"@);
    lemma_parts_of_texts(text, "asFile"@);
    lemma_parts_of_texts(text, "asLink"@);
    lemma_parts_of_texts(text, "file("@);
}

} // verus!
