//! What the groups and summaries of a hosted query hold.

use crate::hosted_plan::{HostedAggregate, HostedGroup, HostedQueryPlan};
use crate::hosted_reduction::{
    advanced_group, exceeds_budget, final_value, fresh_group, group_order, group_result,
    groups_after_rows, has_key, is_aligned, key_position, lemma_key_position, named_values,
    reduces_nothing, row_key, state_after, summary_members, GroupModel, HostedReductionInput,
    SummaryModel,
};
use crate::json::{lemma_lookup_with_member, lookup, member_of, or_null, JsonModel, NumberModel};
use crate::numbers::{
    float_quotient, float_sum, limit, number_order, number_value_model, whole_value,
};
use crate::ordering::value_order;
use crate::text::{
    lemma_text_order_equal, lemma_text_order_reverse, lemma_text_order_transitive, text_order,
    Order,
};
use crate::value_laws::{lemma_members, lemma_texts_stand_in_dictionary_order, stands_before};
use vstd::prelude::*;

verus! {

// ---------------------------------------------------------------------------
// Summaries
// ---------------------------------------------------------------------------
/// The numbers among some values, in their order.
pub open spec fn numbers_among(values: Seq<JsonModel>) -> Seq<NumberModel>
    decreases values.len(),
{
    if values.len() == 0 {
        Seq::empty()
    } else {
        match values.last() {
            JsonModel::Number(number) => numbers_among(values.drop_last()).push(number),
            _ => numbers_among(values.drop_last()),
        }
    }
}

/// The texts among some values, in their order.
pub open spec fn texts_among(values: Seq<JsonModel>) -> Seq<Seq<char>>
    decreases values.len(),
{
    if values.len() == 0 {
        Seq::empty()
    } else {
        match values.last() {
            JsonModel::Text(text) => texts_among(values.drop_last()).push(text),
            _ => texts_among(values.drop_last()),
        }
    }
}

/// The floating-point sum of some numbers, added one after the other; nothing once it
/// is not finite.
pub open spec fn added_up(numbers: Seq<NumberModel>) -> Option<NumberModel>
    decreases numbers.len(),
{
    if numbers.len() == 0 {
        Some(NumberModel::Integer(0))
    } else {
        match added_up(numbers.drop_last()) {
            Some(total) => float_sum(total, numbers.last()),
            None => None,
        }
    }
}

/// Whether values are numbers, with nulls between them.
pub open spec fn are_numbers(values: Seq<JsonModel>) -> bool {
    forall|i: int|
        0 <= i < values.len() ==> (#[trigger] values[i]) is Null || values[i] is Number
}

/// Whether values are texts, with nulls between them.
pub open spec fn are_texts(values: Seq<JsonModel>) -> bool {
    forall|i: int| 0 <= i < values.len() ==> (#[trigger] values[i]) is Null || values[i] is Text
}

/// Whether a function summarises numbers.
pub open spec fn is_numeric(function: Seq<char>) -> bool {
    function == "sum"@ || function == "average"@ || function == "minimum"@ || function
        == "maximum"@
}

/// The value of a summary after some values.
pub open spec fn summary_of(function: Seq<char>, values: Seq<JsonModel>) -> Result<
    JsonModel,
    Seq<char>,
> {
    final_value(state_after(function, values), function)
}

proof fn lemma_function_names()
    ensures
        "count"@ != "empty"@ && "count"@ != "filled"@,
        is_numeric("sum"@) && is_numeric("average"@) && is_numeric("minimum"@) && is_numeric(
            "maximum"@,
        ),
        !is_numeric("count"@) && !is_numeric("empty"@) && !is_numeric("filled"@) && !is_numeric(
            "earliest"@,
        ) && !is_numeric("latest"@),
        "sum"@ != "average"@ && "sum"@ != "minimum"@ && "sum"@ != "maximum"@,
        "average"@ != "minimum"@ && "average"@ != "maximum"@ && "minimum"@ != "maximum"@,
        "earliest"@ != "latest"@ && "earliest"@ != "count"@ && "earliest"@ != "empty"@
            && "earliest"@ != "filled"@,
        "latest"@ != "count"@ && "latest"@ != "empty"@ && "latest"@ != "filled"@,
        "empty"@ != "filled"@,
        forall|f: Seq<char>| #[trigger]
            is_numeric(f) ==> f != "count"@ && f != "empty"@ && f != "filled"@,
{
    reveal_strlit("count");
    reveal_strlit("empty");
    reveal_strlit("filled");
    reveal_strlit("sum");
    reveal_strlit("average");
    reveal_strlit("minimum");
    reveal_strlit("maximum");
    reveal_strlit("earliest");
    reveal_strlit("latest");
    assert("count"@[0] == 'c' && "empty"@[0] == 'e' && "filled"@[0] == 'f' && "sum"@[0] == 's'
        && "average"@[0] == 'a' && "minimum"@[1] == 'i' && "maximum"@[1] == 'a' && "minimum"@[0]
        == 'm' && "maximum"@[0] == 'm' && "earliest"@[0] == 'e' && "latest"@[0] == 'l');
    assert("empty"@.len() == 5 && "earliest"@.len() == 8);
}

proof fn lemma_number_state(function: Seq<char>, values: Seq<JsonModel>)
    requires
        is_numeric(function),
        values.len() <= u64::MAX,
    ensures
        ({
            let state = state_after(function, values);
            let numbers = numbers_among(values);
            &&& state is Number
            &&& numbers.len() <= values.len()
            &&& state->Number_count == numbers.len()
            &&& state->sum == added_up(numbers)
            &&& state->Number_invalid <==> !are_numbers(values)
            &&& numbers.len() == 0 <==> state->minimum is None
            &&& numbers.len() == 0 <==> state->maximum is None
            &&& numbers.len() > 0 ==> {
                &&& numbers.contains(state->minimum->0)
                &&& numbers.contains(state->maximum->0)
                &&& forall|i: int|
                    0 <= i < numbers.len() ==> number_order(
                        state->minimum->0,
                        #[trigger] numbers[i],
                    ) != Order::Greater && number_order(state->maximum->0, numbers[i])
                        != Order::Less
            }
        }),
    decreases values.len(),
{
    lemma_function_names();
    if values.len() > 0 {
        let front = values.drop_last();
        lemma_number_state(function, front);
        let before = state_after(function, front);
        let after = state_after(function, values);
        let numbers = numbers_among(values);
        assert(values =~= front.push(values.last()));
        assert(are_numbers(values) <==> are_numbers(front) && (values.last() is Null
            || values.last() is Number)) by {
            assert(forall|i: int| 0 <= i < front.len() ==> front[i] == values[i]);
            assert(values[values.len() - 1] == values.last());
        }
        if values.last() is Number {
            let n = values.last()->Number_0;
            let rest = numbers_among(front);
            assert(numbers == rest.push(n));
            assert(numbers.drop_last() =~= rest);
            assert(numbers[numbers.len() - 1] == n);
            if rest.len() > 0 {
                let low = choose|i: int| 0 <= i < rest.len() && rest[i] == before->minimum->0;
                let high = choose|i: int| 0 <= i < rest.len() && rest[i] == before->maximum->0;
                assert(numbers[low] == rest[low]);
                assert(numbers[high] == rest[high]);
            }
            assert forall|i: int| 0 <= i < numbers.len() implies number_order(
                after->minimum->0,
                #[trigger] numbers[i],
            ) != Order::Greater && number_order(after->maximum->0, numbers[i]) != Order::Less by {
                if i < rest.len() {
                    assert(numbers[i] == rest[i]);
                }
            }
        }
    }
}

/// The sum of numbers, with nulls between them, is their floating-point sum, and the
/// average is the floating-point quotient of that sum and how many numbers there are.
/// Of no number both are null.
pub proof fn lemma_averages_are_quotients_of_sums(values: Seq<JsonModel>)
    requires
        are_numbers(values),
        values.len() <= u64::MAX,
    ensures
        ({
            let numbers = numbers_among(values);
            let total = added_up(numbers);
            &&& numbers.len() > 0 ==> {
                &&& summary_of("sum"@, values) == Ok::<_, Seq<char>>(number_value_model(total))
                &&& total is Some ==> summary_of("average"@, values) == Ok::<_, Seq<char>>(
                    number_value_model(float_quotient(total->0, numbers.len() as u64)),
                )
                &&& total is None ==> summary_of("average"@, values) == Ok::<_, Seq<char>>(
                    JsonModel::Null,
                )
            }
            &&& numbers.len() == 0 ==> {
                &&& summary_of("sum"@, values) == Ok::<_, Seq<char>>(JsonModel::Null)
                &&& summary_of("average"@, values) == Ok::<_, Seq<char>>(JsonModel::Null)
                &&& summary_of("minimum"@, values) == Ok::<_, Seq<char>>(JsonModel::Null)
                &&& summary_of("maximum"@, values) == Ok::<_, Seq<char>>(JsonModel::Null)
            }
        }),
{
    lemma_function_names();
    lemma_number_state("sum"@, values);
    lemma_number_state("average"@, values);
    lemma_number_state("minimum"@, values);
    lemma_number_state("maximum"@, values);
}

/// The average of equal numbers divides their sum by how many they are: by as many as
/// the values that were taken in.
pub proof fn lemma_average_of_equal_numbers(number: NumberModel, count: nat)
    requires
        0 < count <= u64::MAX,
    ensures
        ({
            let values = Seq::new(count, |i: int| JsonModel::Number(number));
            let total = added_up(Seq::new(count, |i: int| number));
            &&& summary_of("sum"@, values) == Ok::<_, Seq<char>>(number_value_model(total))
            &&& total is Some ==> summary_of("average"@, values) == Ok::<_, Seq<char>>(
                number_value_model(float_quotient(total->0, count as u64)),
            )
        }),
{
    let values = Seq::new(count, |i: int| JsonModel::Number(number));
    lemma_averages_are_quotients_of_sums(values);
    lemma_numbers_of_equal(number, count);
}

proof fn lemma_numbers_of_equal(number: NumberModel, count: nat)
    ensures
        numbers_among(Seq::new(count, |i: int| JsonModel::Number(number))) == Seq::new(
            count,
            |i: int| number,
        ),
    decreases count,
{
    let values = Seq::new(count, |i: int| JsonModel::Number(number));
    let numbers = Seq::new(count, |i: int| number);
    if count == 0 {
        assert(numbers_among(values) =~= numbers);
    } else {
        let fewer = (count - 1) as nat;
        lemma_numbers_of_equal(number, fewer);
        assert(values.drop_last() =~= Seq::new(fewer, |i: int| JsonModel::Number(number)));
        assert(Seq::new(fewer, |i: int| number).push(number) =~= numbers);
    }
}

/// The smallest of numbers, with nulls between them, is one of them that none is below,
/// and the greatest one that none is above; both are given as floating-point numbers.
pub proof fn lemma_extremes_are_among_the_numbers(values: Seq<JsonModel>)
    requires
        are_numbers(values),
        values.len() <= u64::MAX,
        numbers_among(values).len() > 0,
    ensures
        exists|least: NumberModel| #[trigger]
            bounds(numbers_among(values), least, Order::Greater) && summary_of("minimum"@, values)
                == Ok::<_, Seq<char>>(
                number_value_model(float_sum(NumberModel::Integer(0), least)),
            ),
        exists|most: NumberModel| #[trigger]
            bounds(numbers_among(values), most, Order::Less) && summary_of("maximum"@, values)
                == Ok::<_, Seq<char>>(number_value_model(float_sum(NumberModel::Integer(0), most))),
{
    lemma_function_names();
    lemma_number_state("minimum"@, values);
    lemma_number_state("maximum"@, values);
    let least = state_after("minimum"@, values)->minimum->0;
    let most = state_after("maximum"@, values)->maximum->0;
    assert(bounds(numbers_among(values), least, Order::Greater));
    assert(bounds(numbers_among(values), most, Order::Less));
}

/// Whether a number is one of some numbers and never on a side of any of them.
pub open spec fn bounds(numbers: Seq<NumberModel>, bound: NumberModel, side: Order) -> bool {
    &&& numbers.contains(bound)
    &&& forall|i: int|
        0 <= i < numbers.len() ==> number_order(bound, #[trigger] numbers[i]) != side
}

/// A summary of numbers is at fault exactly where a value is neither a number nor null.
pub proof fn lemma_other_values_are_no_numbers(function: Seq<char>, values: Seq<JsonModel>)
    requires
        is_numeric(function),
        values.len() <= u64::MAX,
    ensures
        summary_of(function, values) is Err <==> !are_numbers(values),
{
    lemma_function_names();
    lemma_number_state(function, values);
}

proof fn lemma_text_state(latest: bool, values: Seq<JsonModel>)
    ensures
        ({
            let function = if latest {
                "latest"@
            } else {
                "earliest"@
            };
            let state = state_after(function, values);
            let found = texts_among(values);
            &&& state is Text
            &&& state->latest == latest
            &&& state->Text_invalid <==> !are_texts(values)
            &&& found.len() == 0 <==> state->selected is None
            &&& found.len() > 0 ==> {
                &&& found.contains(state->selected->0)
                &&& forall|i: int|
                    0 <= i < found.len() ==> text_order(state->selected->0, #[trigger] found[i])
                        != if latest {
                        Order::Less
                    } else {
                        Order::Greater
                    }
            }
        }),
    decreases values.len(),
{
    lemma_function_names();
    if values.len() > 0 {
        let function = if latest {
            "latest"@
        } else {
            "earliest"@
        };
        let front = values.drop_last();
        lemma_text_state(latest, front);
        let before = state_after(function, front);
        let after = state_after(function, values);
        let found = texts_among(values);
        assert(are_texts(values) <==> are_texts(front) && (values.last() is Null || values.last()
            is Text)) by {
            assert(forall|i: int| 0 <= i < front.len() ==> front[i] == values[i]);
            assert(values[values.len() - 1] == values.last());
        }
        if values.last() is Text {
            let text = values.last()->Text_0;
            let rest = texts_among(front);
            assert(found == rest.push(text));
            assert(found[found.len() - 1] == text);
            if rest.len() > 0 {
                let best = before->selected->0;
                let at = choose|i: int| 0 <= i < rest.len() && rest[i] == best;
                assert(found[at] == rest[at]);
                lemma_text_order_reverse(text, best);
                lemma_text_order_equal(text, text);
            } else {
                lemma_text_order_equal(text, text);
            }
            assert forall|i: int| 0 <= i < found.len() implies text_order(
                after->selected->0,
                #[trigger] found[i],
            ) != if latest {
                Order::Less
            } else {
                Order::Greater
            } by {
                if i < rest.len() {
                    assert(found[i] == rest[i]);
                    let best = before->selected->0;
                    if after->selected->0 == text && text != best {
                        lemma_text_order_reverse(best, rest[i]);
                        lemma_text_order_reverse(text, best);
                        lemma_text_order_reverse(text, rest[i]);
                        if latest {
                            lemma_text_order_transitive(rest[i], best, text);
                        } else {
                            lemma_text_order_transitive(text, best, rest[i]);
                        }
                    }
                }
            }
        }
    }
}

/// The earliest of texts, with nulls between them, is one of them that none stands
/// before, and the latest one that stands before none; of no text both are null. A
/// value that is neither a text nor null puts the summary at fault.
pub proof fn lemma_earliest_and_latest(values: Seq<JsonModel>)
    ensures
        summary_of("earliest"@, values) is Err <==> !are_texts(values),
        summary_of("latest"@, values) is Err <==> !are_texts(values),
        are_texts(values) && texts_among(values).len() == 0 ==> summary_of("earliest"@, values)
            == Ok::<_, Seq<char>>(JsonModel::Null) && summary_of("latest"@, values) == Ok::<
            _,
            Seq<char>,
        >(JsonModel::Null),
        are_texts(values) && texts_among(values).len() > 0 ==> {
            let found = texts_among(values);
            &&& summary_of("earliest"@, values) matches Ok(JsonModel::Text(first))
            &&& summary_of("latest"@, values) matches Ok(JsonModel::Text(last))
            &&& found.contains(first)
            &&& found.contains(last)
            &&& forall|i: int|
                0 <= i < found.len() ==> !stands_before(#[trigger] found[i], first)
                    && !stands_before(last, found[i])
        },
{
    lemma_function_names();
    lemma_text_state(true, values);
    lemma_text_state(false, values);
    if are_texts(values) && texts_among(values).len() > 0 {
        let found = texts_among(values);
        let first = summary_of("earliest"@, values)->Ok_0->Text_0;
        let last = summary_of("latest"@, values)->Ok_0->Text_0;
        assert forall|i: int| 0 <= i < found.len() implies !stands_before(
            #[trigger] found[i],
            first,
        ) && !stands_before(last, found[i]) by {
            lemma_texts_stand_in_dictionary_order(first, found[i]);
            lemma_texts_stand_in_dictionary_order(last, found[i]);
        }
    }
}

/// Whether a value holds nothing: null, an empty text, an empty list or an empty
/// object.
pub open spec fn holds_nothing(value: JsonModel) -> bool {
    ||| value is Null
    ||| value is Text && value->Text_0.len() == 0
    ||| value is Array && value->Array_0.len() == 0
    ||| value is Object && value->Object_0.len() == 0
}

/// A count counts all values; `empty` counts those that hold nothing and `filled` the
/// others.
pub proof fn lemma_counts(values: Seq<JsonModel>)
    requires
        values.len() <= u64::MAX,
    ensures
        ({
            let empty = values.filter(|value: JsonModel| holds_nothing(value)).len();
            &&& empty <= values.len()
            &&& summary_of("count"@, values) == Ok::<_, Seq<char>>(
                JsonModel::Number(NumberModel::Integer(values.len() as int)),
            )
            &&& summary_of("empty"@, values) == Ok::<_, Seq<char>>(
                JsonModel::Number(NumberModel::Integer(empty as int)),
            )
            &&& summary_of("filled"@, values) == Ok::<_, Seq<char>>(
                JsonModel::Number(NumberModel::Integer(values.len() - empty)),
            )
        }),
    decreases values.len(),
{
    lemma_function_names();
    lemma_count_states(values);
}

proof fn lemma_count_states(values: Seq<JsonModel>)
    requires
        values.len() <= u64::MAX,
    ensures
        ({
            let empty = values.filter(|value: JsonModel| holds_nothing(value)).len();
            &&& empty <= values.len()
            &&& state_after("count"@, values) == SummaryModel::Count(values.len() as int)
            &&& state_after("empty"@, values) == (SummaryModel::Empty {
                total: values.len() as int,
                empty: empty as int,
            })
            &&& state_after("filled"@, values) == state_after("empty"@, values)
        }),
    decreases values.len(),
{
    reveal(Seq::filter);
    lemma_function_names();
    if values.len() > 0 {
        lemma_count_states(values.drop_last());
    }
}

/// A function that is none of these is at fault, whatever the values.
pub proof fn lemma_unknown_functions(function: Seq<char>, values: Seq<JsonModel>)
    requires
        !is_numeric(function),
        function != "count"@,
        function != "empty"@,
        function != "filled"@,
        function != "earliest"@,
        function != "latest"@,
    ensures
        summary_of(function, values) is Err,
{
    lemma_unknown_state(function, values);
}

proof fn lemma_unknown_state(function: Seq<char>, values: Seq<JsonModel>)
    requires
        !is_numeric(function),
        function != "count"@,
        function != "empty"@,
        function != "filled"@,
        function != "earliest"@,
        function != "latest"@,
    ensures
        state_after(function, values) is Unknown,
    decreases values.len(),
{
    if values.len() > 0 {
        lemma_unknown_state(function, values.drop_last());
    }
}

// ---------------------------------------------------------------------------
// Groups
// ---------------------------------------------------------------------------
/// The rows among the first ones that have a key.
pub open spec fn rows_with_key(
    plan: HostedQueryPlan,
    rows: Seq<HostedReductionInput>,
    count: nat,
    key: Seq<char>,
) -> Seq<HostedReductionInput>
    decreases count,
{
    if count == 0 || count > rows.len() {
        Seq::empty()
    } else {
        let rest = rows_with_key(plan, rows, (count - 1) as nat, key);
        if row_key(plan, rows[count - 1]) == key {
            rest.push(rows[count - 1])
        } else {
            rest
        }
    }
}

/// The values of one summary in some rows.
pub open spec fn column(rows: Seq<HostedReductionInput>, i: int) -> Seq<JsonModel> {
    Seq::new(rows.len(), |k: int| rows[k].aggregate_values@[i]@)
}

/// Whether a group is made of some rows: it counts them, and each of its summaries has
/// taken in their values.
pub open spec fn made_of(
    plan: HostedQueryPlan,
    group: GroupModel,
    rows: Seq<HostedReductionInput>,
) -> bool {
    &&& rows.len() > 0
    &&& group.count == rows.len()
    &&& group.summaries.len() == plan.aggregates@.len()
    &&& forall|i: int|
        0 <= i < plan.aggregates@.len() ==> #[trigger] group.summaries[i] == state_after(
            plan.aggregates@[i].function@,
            column(rows, i),
        )
}

/// Whether groups stand by ascending key, no key twice.
pub open spec fn by_ascending_key(groups: Seq<GroupModel>) -> bool {
    forall|i: int, j: int|
        #![trigger groups[i], groups[j]]
        0 <= i < j < groups.len() ==> text_order(groups[i].key, groups[j].key) == Order::Less
}

/// The groups of rows: each group is made of just the rows with its key, each row has a
/// group, and no two groups have the same key.
pub proof fn lemma_groups_are_made_of_their_rows(
    plan: HostedQueryPlan,
    rows: Seq<HostedReductionInput>,
    count: nat,
)
    requires
        count <= rows.len(),
        count <= u64::MAX,
        !reduces_nothing(plan),
        forall|i: int| 0 <= i < rows.len() ==> is_aligned(plan, #[trigger] rows[i]),
    ensures
        ({
            let groups = groups_after_rows(plan, rows, count);
            &&& by_ascending_key(groups)
            &&& forall|g: int|
                0 <= g < groups.len() ==> made_of(
                    plan,
                    #[trigger] groups[g],
                    rows_with_key(plan, rows, count, groups[g].key),
                )
            &&& forall|i: int|
                0 <= i < count ==> has_key(groups, row_key(plan, #[trigger] rows[i]))
            &&& forall|key: Seq<char>| #[trigger]
                has_key(groups, key) <==> rows_with_key(plan, rows, count, key).len() > 0
        }),
    decreases count,
{
    if count > 0 {
        let fewer = (count - 1) as nat;
        lemma_groups_are_made_of_their_rows(plan, rows, fewer);
        let before = groups_after_rows(plan, rows, fewer);
        let row = rows[count - 1];
        let after = groups_after_rows(plan, rows, count);
        let key = row_key(plan, row);
        let at = key_position(before, key);
        assert(is_aligned(plan, row));
        lemma_key_position(before, key);
        lemma_rows_are_few(plan, rows, fewer, key);
        let old_rows = rows_with_key(plan, rows, fewer, key);
        let new_rows = rows_with_key(plan, rows, count, key);
        assert(new_rows == old_rows.push(row));
        let group = if has_key(before, key) {
            before[at]
        } else {
            fresh_group(plan, row)
        };
        let advanced = advanced_group(group, row.aggregate_values@);
        assert(made_of(plan, advanced, new_rows)) by {
            if !has_key(before, key) {
                assert(old_rows.len() == 0);
            }
            assert forall|i: int| 0 <= i < plan.aggregates@.len() implies #[trigger]
                advanced.summaries[i] == state_after(
                plan.aggregates@[i].function@,
                column(new_rows, i),
            ) by {
                assert(column(new_rows, i).drop_last() =~= column(old_rows, i));
                if has_key(before, key) {
                    assert(group.summaries[i] == state_after(
                        plan.aggregates@[i].function@,
                        column(old_rows, i),
                    ));
                } else {
                    assert(column(old_rows, i) =~= Seq::empty());
                }
            }
        }
        lemma_insertion_keeps_keys(before, at, advanced, key);
        assert forall|g: int| 0 <= g < after.len() implies made_of(
            plan,
            #[trigger] after[g],
            rows_with_key(plan, rows, count, after[g].key),
        ) by {
            if g == at {
                assert(after[g] == advanced);
            } else {
                let old_at = if has_key(before, key) || g < at {
                    g
                } else {
                    g - 1
                };
                assert(after[g] == before[old_at]);
                assert(before[old_at].key != key) by {
                    lemma_text_order_equal(key, key);
                    if has_key(before, key) {
                        if g < at {
                            assert(text_order(before[g].key, before[at].key) == Order::Less);
                        } else {
                            assert(text_order(before[at].key, before[g].key) == Order::Less);
                        }
                    } else {
                        lemma_keys_beyond(before, key, old_at);
                    }
                }
                assert(made_of(
                    plan,
                    before[old_at],
                    rows_with_key(plan, rows, fewer, before[old_at].key),
                ));
            }
        }
        assert forall|other: Seq<char>| #[trigger] has_key(after, other) <==> rows_with_key(
            plan,
            rows,
            count,
            other,
        ).len() > 0 by {
            lemma_has_key(after, other);
            lemma_has_key(before, other);
            if other == key {
                assert(after[at].key == key);
            } else if has_key(before, other) {
                let i = choose|i: int| 0 <= i < before.len() && before[i].key == other;
                if has_key(before, key) || i < at {
                    assert(after[i].key == other);
                } else {
                    assert(after[i + 1].key == other);
                }
            } else if has_key(after, other) {
                let i = choose|i: int| 0 <= i < after.len() && after[i].key == other;
                assert(i != at);
                if has_key(before, key) || i < at {
                    assert(before[i].key == other);
                } else {
                    assert(before[i - 1].key == other);
                }
            }
        }
        assert forall|i: int| 0 <= i < count implies has_key(
            after,
            row_key(plan, #[trigger] rows[i]),
        ) by {
            let other = row_key(plan, rows[i]);
            if i < count - 1 {
                assert(has_key(before, other));
            }
            assert(has_key(after, other) <==> rows_with_key(plan, rows, count, other).len() > 0);
        }
    }
}

proof fn lemma_rows_are_few(
    plan: HostedQueryPlan,
    rows: Seq<HostedReductionInput>,
    count: nat,
    key: Seq<char>,
)
    ensures
        rows_with_key(plan, rows, count, key).len() <= count,
    decreases count,
{
    if count > 0 && count <= rows.len() {
        lemma_rows_are_few(plan, rows, (count - 1) as nat, key);
    }
}

proof fn lemma_keys_beyond(groups: Seq<GroupModel>, key: Seq<char>, i: int)
    requires
        by_ascending_key(groups),
        !has_key(groups, key),
        0 <= i < groups.len(),
    ensures
        groups[i].key != key,
        i < key_position(groups, key) ==> text_order(groups[i].key, key) == Order::Less,
        i >= key_position(groups, key) ==> text_order(key, groups[i].key) == Order::Less,
{
    let at = key_position(groups, key);
    lemma_key_position(groups, key);
    lemma_text_order_equal(key, key);
    if i >= at {
        lemma_text_order_equal(groups[at].key, key);
        lemma_text_order_reverse(groups[at].key, key);
        if i > at {
            assert(text_order(groups[at].key, groups[i].key) == Order::Less);
            lemma_text_order_transitive(key, groups[at].key, groups[i].key);
            lemma_text_order_equal(key, groups[i].key);
            assert(text_order(key, groups[i].key) != Order::Equal);
        }
    }
}

proof fn lemma_insertion_keeps_keys(
    groups: Seq<GroupModel>,
    at: int,
    group: GroupModel,
    key: Seq<char>,
)
    requires
        by_ascending_key(groups),
        at == key_position(groups, key),
        group.key == key,
    ensures
        has_key(groups, key) ==> by_ascending_key(groups.update(at, group)),
        !has_key(groups, key) ==> by_ascending_key(groups.insert(at, group)),
{
    lemma_key_position(groups, key);
    if has_key(groups, key) {
        let after = groups.update(at, group);
        assert forall|i: int, j: int|
            #![trigger after[i], after[j]]
            0 <= i < j < after.len() implies text_order(after[i].key, after[j].key)
            == Order::Less by {
            assert(after[i].key == groups[i].key);
            assert(after[j].key == groups[j].key);
        }
    } else {
        let after = groups.insert(at, group);
        assert forall|i: int, j: int|
            #![trigger after[i], after[j]]
            0 <= i < j < after.len() implies text_order(after[i].key, after[j].key)
            == Order::Less by {
            if i < at {
                assert(after[i] == groups[i]);
                if j == at {
                    lemma_keys_beyond(groups, key, i);
                } else if j > at {
                    assert(after[j] == groups[j - 1]);
                }
            } else if i == at {
                assert(after[j] == groups[j - 1]);
                lemma_keys_beyond(groups, key, j - 1);
            } else {
                assert(after[i] == groups[i - 1]);
                assert(after[j] == groups[j - 1]);
            }
        }
    }
}

/// There is a group with a key exactly where one of the groups has it.
pub proof fn lemma_has_key(groups: Seq<GroupModel>, key: Seq<char>)
    requires
        by_ascending_key(groups),
    ensures
        has_key(groups, key) <==> exists|i: int| 0 <= i < groups.len() && (#[trigger] groups[i]).key == key,
{
    lemma_key_position(groups, key);
    if has_key(groups, key) {
        assert(groups[key_position(groups, key)].key == key);
    } else {
        assert forall|i: int| 0 <= i < groups.len() implies (#[trigger] groups[i]).key != key by {
            lemma_keys_beyond(groups, key, i);
        }
    }
}

/// A row's values are known by the names of the group terms, where the names differ.
pub proof fn lemma_group_values(
    terms: Seq<HostedGroup>,
    values: Seq<crate::json::Json>,
    count: nat,
    i: int,
)
    requires
        count <= terms.len(),
        count <= values.len(),
        0 <= i < count,
        forall|a: int, b: int|
            #![trigger terms[a], terms[b]]
            0 <= a < b < terms.len() ==> terms[a].output_name@ != terms[b].output_name@,
    ensures
        lookup(named_values(terms, values, count), terms[i].output_name@) == Some(values[i]@),
    decreases count,
{
    let rest = named_values(terms, values, (count - 1) as nat);
    lemma_lookup_with_member(
        rest,
        terms[count - 1].output_name@,
        values[count - 1]@,
        terms[i].output_name@,
    );
    if i < count - 1 {
        lemma_group_values(terms, values, (count - 1) as nat, i);
        assert(terms[i].output_name@ != terms[count - 1].output_name@);
    }
}

/// A group is presented by its values, how many rows it has, and for each summary its
/// value under its name, or null where the summary is at fault.
pub proof fn lemma_presented_groups(aggregates: Seq<HostedAggregate>, group: GroupModel, i: int)
    requires
        0 <= i < aggregates.len(),
        aggregates.len() == group.summaries.len(),
        forall|a: int, b: int|
            #![trigger aggregates[a], aggregates[b]]
            0 <= a < b < aggregates.len() ==> aggregates[a].output_name@
                != aggregates[b].output_name@,
    ensures
        ({
            let result = group_result(aggregates, group);
            let value = final_value(group.summaries[i], aggregates[i].function@);
            &&& member_of(result, "values"@) == Some(JsonModel::Object(group.values))
            &&& member_of(result, "count"@) == Some(
                JsonModel::Number(NumberModel::Integer(group.count)),
            )
            &&& member_of(result, "summaries"@) is Some
            &&& member_of(member_of(result, "summaries"@)->0, aggregates[i].output_name@) == Some(
                match value {
                    Ok(value) => value,
                    Err(_) => JsonModel::Null,
                },
            )
        }),
{
    reveal_strlit("values");
    reveal_strlit("count");
    reveal_strlit("summaries");
    assert("values"@[0] == 'v' && "count"@[0] == 'c' && "summaries"@[0] == 's');
    lemma_members();
    lemma_summary_members(aggregates, group.summaries, aggregates.len(), i);
}

proof fn lemma_summary_members(
    aggregates: Seq<HostedAggregate>,
    summaries: Seq<SummaryModel>,
    count: nat,
    i: int,
)
    requires
        0 <= i < count,
        count <= aggregates.len(),
        count <= summaries.len(),
        forall|a: int, b: int|
            #![trigger aggregates[a], aggregates[b]]
            0 <= a < b < aggregates.len() ==> aggregates[a].output_name@
                != aggregates[b].output_name@,
    ensures
        lookup(summary_members(aggregates, summaries, count), aggregates[i].output_name@) == Some(
            match final_value(summaries[i], aggregates[i].function@) {
                Ok(value) => value,
                Err(_) => JsonModel::Null,
            },
        ),
    decreases count,
{
    let rest = summary_members(aggregates, summaries, (count - 1) as nat);
    lemma_lookup_with_member(
        rest,
        aggregates[count - 1].output_name@,
        match final_value(summaries[count - 1], aggregates[count - 1].function@) {
            Ok(value) => value,
            Err(_) => JsonModel::Null,
        },
        aggregates[i].output_name@,
    );
    if i < count - 1 {
        lemma_summary_members(aggregates, summaries, (count - 1) as nat, i);
        assert(aggregates[i].output_name@ != aggregates[count - 1].output_name@);
    }
}

/// Groups that differ first in one term stand as its values stand, or the other way
/// round under a descending term; groups that differ in none stand level.
pub proof fn lemma_groups_stand_by_terms(
    terms: Seq<HostedGroup>,
    left: GroupModel,
    right: GroupModel,
    at: int,
)
    requires
        0 <= at <= terms.len(),
        forall|k: int|
            0 <= k < at ==> value_order(
                or_null(lookup(left.values, (#[trigger] terms[k]).output_name@)),
                or_null(lookup(right.values, terms[k].output_name@)),
            ) == Order::Equal,
    ensures
        at == terms.len() ==> group_order(terms, left, right, 0) == Order::Equal,
        at < terms.len() ==> {
            let name = terms[at].output_name@;
            let order = value_order(
                or_null(lookup(left.values, name)),
                or_null(lookup(right.values, name)),
            );
            let result = group_order(terms, left, right, 0);
            &&& order != Order::Equal && terms[at].direction
                == crate::ordering::HostedOrderDirection::Ascending ==> result == order
            &&& order == Order::Less && terms[at].direction
                == crate::ordering::HostedOrderDirection::Descending ==> result == Order::Greater
            &&& order == Order::Greater && terms[at].direction
                == crate::ordering::HostedOrderDirection::Descending ==> result == Order::Less
        },
{
    lemma_groups_stand_from(terms, left, right, at, 0);
}

proof fn lemma_groups_stand_from(
    terms: Seq<HostedGroup>,
    left: GroupModel,
    right: GroupModel,
    at: int,
    from: nat,
)
    requires
        from <= at <= terms.len(),
        forall|k: int|
            0 <= k < at ==> value_order(
                or_null(lookup(left.values, (#[trigger] terms[k]).output_name@)),
                or_null(lookup(right.values, terms[k].output_name@)),
            ) == Order::Equal,
    ensures
        group_order(terms, left, right, from) == group_order(terms, left, right, at as nat),
    decreases at - from,
{
    if from < at {
        assert(value_order(
            or_null(lookup(left.values, terms[from as int].output_name@)),
            or_null(lookup(right.values, terms[from as int].output_name@)),
        ) == Order::Equal);
        lemma_groups_stand_from(terms, left, right, at, from + 1);
    }
}

// ---------------------------------------------------------------------------
// Whole numbers
// ---------------------------------------------------------------------------
/// Whether floating-point arithmetic is exact on up to so many of a whole number: adding it
/// to a number that reads as one of its multiples reads as the next, and dividing the sum of
/// them by how many they are reads as the number again. It is so as long as no sum has more
/// than 53 bits.
pub open spec fn is_exact_on(number: int, count: nat) -> bool {
    &&& whole_value(NumberModel::Integer(0)) == Some(0int)
    &&& forall|total: NumberModel, i: int|
        #![trigger float_sum(total, NumberModel::Integer(number)), multiple(number, i)]
        0 <= i < count && whole_value(total) == Some(multiple(number, i)) ==> {
            &&& float_sum(total, NumberModel::Integer(number)) is Some
            &&& whole_value(float_sum(total, NumberModel::Integer(number))->0) == Some(
                multiple(number, i + 1),
            )
        }
    &&& forall|total: NumberModel, k: u64| #[trigger]
        float_quotient(total, k) is Some && 0 < k <= count && whole_value(total) == Some(
            multiple(number, k as int),
        ) ==> whole_value(float_quotient(total, k)->0) == Some(number)
    &&& forall|total: NumberModel, k: u64|
        0 < k <= count && whole_value(total) == Some(multiple(number, k as int))
            ==> #[trigger] float_quotient(total, k) is Some
}

/// So many of a number.
pub open spec fn multiple(number: int, count: int) -> int {
    number * count
}

proof fn lemma_sum_of_equal_whole_numbers(number: int, count: nat, most: nat)
    requires
        is_exact_on(number, most),
        count <= most,
    ensures
        ({
            let total = added_up(Seq::new(count, |i: int| NumberModel::Integer(number)));
            total is Some && whole_value(total->0) == Some(multiple(number, count as int))
        }),
    decreases count,
{
    let numbers = Seq::new(count, |i: int| NumberModel::Integer(number));
    if count == 0 {
        assert(number * 0 == 0) by (nonlinear_arith);
    } else {
        let fewer = (count - 1) as nat;
        lemma_sum_of_equal_whole_numbers(number, fewer, most);
        assert(numbers.drop_last() =~= Seq::new(fewer, |i: int| NumberModel::Integer(number)));
        let total = added_up(numbers.drop_last())->0;
        assert(whole_value(total) == Some(multiple(number, count - 1)));
        assert(float_sum(total, NumberModel::Integer(number)) is Some);
    }
}

/// The average of equal whole numbers is the number, and their sum is as many times the
/// number as there are, where floating-point arithmetic is exact on them.
pub proof fn lemma_average_of_equal_whole_numbers(number: int, count: nat)
    requires
        0 < count <= u64::MAX,
        is_exact_on(number, count),
        -limit() < number < limit(),
        -limit() < multiple(number, count as int) < limit(),
    ensures
        ({
            let values = Seq::new(count, |i: int| JsonModel::Number(NumberModel::Integer(number)));
            &&& summary_of("average"@, values) == Ok::<_, Seq<char>>(
                JsonModel::Number(NumberModel::Integer(number)),
            )
            &&& summary_of("sum"@, values) == Ok::<_, Seq<char>>(
                JsonModel::Number(NumberModel::Integer(number * count)),
            )
        }),
{
    lemma_average_of_equal_numbers(NumberModel::Integer(number), count);
    lemma_sum_of_equal_whole_numbers(number, count, count);
    let total = added_up(Seq::new(count, |i: int| NumberModel::Integer(number)))->0;
    assert(float_quotient(total, count as u64) is Some);
    assert(whole_value(float_quotient(total, count as u64)->0) == Some(number));
}

/// A row is beyond the budget exactly where it would open one group more than the most that
/// are allowed.
pub proof fn lemma_rows_beyond_the_budget(
    plan: HostedQueryPlan,
    groups: Seq<GroupModel>,
    row: HostedReductionInput,
)
    requires
        by_ascending_key(groups),
    ensures
        exceeds_budget(plan, groups, row) <==> plan.groups@.len() > 0 && groups.len()
            >= plan.budgets.max_groups && forall|g: int|
            0 <= g < groups.len() ==> (#[trigger] groups[g]).key != row_key(plan, row),
{
    lemma_has_key(groups, row_key(plan, row));
}

} // verus!
