//! Streaming groups and summaries of a hosted query.

use crate::canonical::{compact_text, to_compact_text};
use crate::diagnostics::{diagnostic_models, CatalogError, Diagnostic, DiagnosticModel};
use crate::hosted_plan::{HostedAggregate, HostedGroup, HostedQueryPlan};
use crate::json::{
    copy_members, find_member, item_models, lookup, member_models, or_null, put_member, with_member,
    Json, JsonModel, JsonNumber, Member, NumberModel,
};
use crate::numbers::{
    compare_numbers, float_quotient, float_sum, hosted_number_value, number_order, number_quotient,
    number_sum, number_value_model, optional_number, read_number, reading,
};
use crate::ordering::{compare_hosted_values, value_order};
use crate::results::{count_value, text_or_null};
use crate::sorting::{arranged, sorted_positions, stably_sorted, Comparison};
use crate::text::{
    compare_text, concat3, decimal, decimal_text, optional_text, same_text, text_order, Order,
};
use vstd::prelude::*;
use vstd::string::StringExecFns;

verus! {

/// The values of one matched record that groups and summaries take in.
#[derive(Debug)]
pub struct HostedReductionInput {
    pub group_values: Vec<Json>,
    pub aggregate_values: Vec<Json>,
}

/// The result of a reduction.
#[derive(Debug)]
pub struct HostedReduction {
    pub groups: Option<Vec<Json>>,
    pub diagnostics: Vec<Diagnostic>,
}

// ---------------------------------------------------------------------------
// Summaries
// ---------------------------------------------------------------------------
/// The running state of one summary; its size does not depend on how many values
/// it has taken in.
#[derive(Debug)]
pub enum HostedSummaryState {
    Count(u64),
    Empty { total: u64, empty: u64 },
    Number {
        count: u64,
        /// The floating-point sum; nothing once it is not finite.
        sum: Option<JsonNumber>,
        minimum: Option<JsonNumber>,
        maximum: Option<JsonNumber>,
        invalid: bool,
    },
    Text { selected: Option<String>, latest: bool, invalid: bool },
    Unknown,
}

/// What the state of a summary holds.
pub enum SummaryModel {
    Count(int),
    Empty { total: int, empty: int },
    Number {
        count: int,
        sum: Option<NumberModel>,
        minimum: Option<NumberModel>,
        maximum: Option<NumberModel>,
        invalid: bool,
    },
    Text { selected: Option<Seq<char>>, latest: bool, invalid: bool },
    Unknown,
}

impl View for HostedSummaryState {
    type V = SummaryModel;

    open spec fn view(&self) -> SummaryModel {
        match self {
            HostedSummaryState::Count(count) => SummaryModel::Count(*count as int),
            HostedSummaryState::Empty { total, empty } => SummaryModel::Empty {
                total: *total as int,
                empty: *empty as int,
            },
            HostedSummaryState::Number { count, sum, minimum, maximum, invalid } => SummaryModel::Number {
                count: *count as int,
                sum: optional_number(*sum),
                minimum: optional_number(*minimum),
                maximum: optional_number(*maximum),
                invalid: *invalid,
            },
            HostedSummaryState::Text { selected, latest, invalid } => SummaryModel::Text {
                selected: optional_text(*selected),
                latest: *latest,
                invalid: *invalid,
            },
            HostedSummaryState::Unknown => SummaryModel::Unknown,
        }
    }
}

/// The state before any value.
pub open spec fn initial_state(function: Seq<char>) -> SummaryModel {
    if function == "count"@ {
        SummaryModel::Count(0)
    } else if function == "empty"@ || function == "filled"@ {
        SummaryModel::Empty { total: 0, empty: 0 }
    } else if function == "sum"@ || function == "average"@ || function == "minimum"@ || function
        == "maximum"@ {
        SummaryModel::Number {
            count: 0,
            sum: Some(NumberModel::Integer(0)),
            minimum: None,
            maximum: None,
            invalid: false,
        }
    } else if function == "earliest"@ {
        SummaryModel::Text { selected: None, latest: false, invalid: false }
    } else if function == "latest"@ {
        SummaryModel::Text { selected: None, latest: true, invalid: false }
    } else {
        SummaryModel::Unknown
    }
}

/// One more, at most the largest machine number.
pub open spec fn one_more(count: int) -> int {
    if count < u64::MAX {
        count + 1
    } else {
        u64::MAX as int
    }
}

/// Whether a value counts as empty.
pub open spec fn is_empty_value(value: JsonModel) -> bool {
    match value {
        JsonModel::Null => true,
        JsonModel::Text(text) => text.len() == 0,
        JsonModel::Array(items) => items.len() == 0,
        JsonModel::Object(members) => members.len() == 0,
        _ => false,
    }
}

/// The number that stands first on a side.
pub open spec fn better_number(
    current: Option<NumberModel>,
    number: NumberModel,
    side: Order,
) -> Option<NumberModel> {
    match current {
        Some(best) => if number_order(number, best) == side {
            Some(number)
        } else {
            Some(best)
        },
        None => Some(number),
    }
}

/// The state after one more value.
pub open spec fn next_state(state: SummaryModel, value: JsonModel) -> SummaryModel {
    match state {
        SummaryModel::Count(count) => SummaryModel::Count(one_more(count)),
        SummaryModel::Empty { total, empty } => SummaryModel::Empty {
            total: one_more(total),
            empty: if is_empty_value(value) {
                one_more(empty)
            } else {
                empty
            },
        },
        SummaryModel::Number { count, sum, minimum, maximum, invalid } => match value {
            JsonModel::Null => state,
            JsonModel::Number(number) => SummaryModel::Number {
                count: one_more(count),
                sum: match sum {
                    Some(total) => float_sum(total, number),
                    None => None,
                },
                minimum: better_number(minimum, number, Order::Less),
                maximum: better_number(maximum, number, Order::Greater),
                invalid,
            },
            _ => SummaryModel::Number { count, sum, minimum, maximum, invalid: true },
        },
        SummaryModel::Text { selected, latest, invalid } => match value {
            JsonModel::Null => state,
            JsonModel::Text(text) => SummaryModel::Text {
                selected: match selected {
                    Some(best) => if text_order(text, best) == if latest {
                        Order::Greater
                    } else {
                        Order::Less
                    } {
                        Some(text)
                    } else {
                        Some(best)
                    },
                    None => Some(text),
                },
                latest,
                invalid,
            },
            _ => SummaryModel::Text { selected, latest, invalid: true },
        },
        SummaryModel::Unknown => state,
    }
}

/// The message of an unknown function.
pub open spec fn unknown_function(function: Seq<char>) -> Seq<char> {
    "Unknown hosted summary function '"@ + function + "'."@
}

/// The value of a summary, or the message of what is wrong with it.
pub open spec fn final_value(state: SummaryModel, function: Seq<char>) -> Result<
    JsonModel,
    Seq<char>,
> {
    match state {
        SummaryModel::Count(count) => Ok(count_value(count)),
        SummaryModel::Empty { total, empty } => Ok(
            count_value(
                if function == "empty"@ {
                    empty
                } else if empty <= total {
                    total - empty
                } else {
                    0
                },
            ),
        ),
        SummaryModel::Number { count, sum, minimum, maximum, invalid } => if invalid {
            Err("Summary '"@ + function + "' received a non-numeric value."@)
        } else if count == 0 {
            Ok(JsonModel::Null)
        } else if function == "sum"@ {
            Ok(number_value_model(sum))
        } else if function == "average"@ {
            Ok(
                number_value_model(
                    match sum {
                        Some(total) => float_quotient(total, count as u64),
                        None => None,
                    },
                ),
            )
        } else if function == "minimum"@ {
            Ok(number_value_model(optional_reading(minimum)))
        } else if function == "maximum"@ {
            Ok(number_value_model(optional_reading(maximum)))
        } else {
            Err(unknown_function(function))
        },
        SummaryModel::Text { selected, latest, invalid } => if invalid {
            Err("Summary '"@ + function + "' received a non-string value."@)
        } else {
            Ok(text_or_null(selected))
        },
        SummaryModel::Unknown => Err(unknown_function(function)),
    }
}

/// The floating-point reading of an optional number.
pub open spec fn optional_reading(number: Option<NumberModel>) -> Option<NumberModel> {
    match number {
        Some(number) => reading(number),
        None => None,
    }
}

fn read_optional(number: &Option<JsonNumber>) -> (result: Option<JsonNumber>)
    ensures
        optional_number(result) == optional_reading(optional_number(*number)),
{
    match number {
        Some(number) => read_number(number),
        None => None,
    }
}

fn choose_number(current: Option<JsonNumber>, number: &JsonNumber, side: Order) -> (result: Option<
    JsonNumber,
>)
    ensures
        optional_number(result) == better_number(optional_number(current), number@, side),
{
    match current {
        Some(best) => if compare_numbers(number, &best) == side {
            Some(number.copy())
        } else {
            Some(best)
        },
        None => Some(number.copy()),
    }
}

fn hosted_value_is_empty(value: &Json) -> (result: bool)
    ensures
        result == is_empty_value(value@),
{
    broadcast use {crate::json::lemma_object_model, crate::json::lemma_array_model};

    match value {
        Json::Null => true,
        Json::Text(text) => text.as_str().is_empty(),
        Json::Array(items) => items.len() == 0,
        Json::Object(members) => members.len() == 0,
        _ => false,
    }
}

impl HostedSummaryState {
    pub fn new(function: &str) -> (result: HostedSummaryState)
        ensures
            result@ == initial_state(function@),
    {
        if same_text(function, "count") {
            HostedSummaryState::Count(0)
        } else if same_text(function, "empty") || same_text(function, "filled") {
            HostedSummaryState::Empty { total: 0, empty: 0 }
        } else if same_text(function, "sum") || same_text(function, "average") || same_text(
            function,
            "minimum",
        ) || same_text(function, "maximum") {
            HostedSummaryState::Number {
                count: 0,
                sum: Some(JsonNumber::Unsigned(0)),
                minimum: None,
                maximum: None,
                invalid: false,
            }
        } else if same_text(function, "earliest") {
            HostedSummaryState::Text { selected: None, latest: false, invalid: false }
        } else if same_text(function, "latest") {
            HostedSummaryState::Text { selected: None, latest: true, invalid: false }
        } else {
            HostedSummaryState::Unknown
        }
    }

    /// The state after one more value.
    pub fn push(self, value: &Json) -> (result: HostedSummaryState)
        ensures
            result@ == next_state(self@, value@),
    {
        match self {
            HostedSummaryState::Count(count) => HostedSummaryState::Count(count.saturating_add(1)),
            HostedSummaryState::Empty { total, empty } => HostedSummaryState::Empty {
                total: total.saturating_add(1),
                empty: if hosted_value_is_empty(value) {
                    empty.saturating_add(1)
                } else {
                    empty
                },
            },
            HostedSummaryState::Number { count, sum, minimum, maximum, invalid } => match value {
                Json::Null => HostedSummaryState::Number { count, sum, minimum, maximum, invalid },
                Json::Number(number) => HostedSummaryState::Number {
                    count: count.saturating_add(1),
                    sum: match sum {
                        Some(total) => number_sum(&total, number),
                        None => None,
                    },
                    minimum: choose_number(minimum, number, Order::Less),
                    maximum: choose_number(maximum, number, Order::Greater),
                    invalid,
                },
                _ => HostedSummaryState::Number { count, sum, minimum, maximum, invalid: true },
            },
            HostedSummaryState::Text { selected, latest, invalid } => match value {
                Json::Null => HostedSummaryState::Text { selected, latest, invalid },
                Json::Text(text) => {
                    let selected = match selected {
                        Some(best) => {
                            let order = compare_text(text.as_str(), best.as_str());
                            if (latest && order.is_gt()) || (!latest && order.is_lt()) {
                                Some(text.clone())
                            } else {
                                Some(best)
                            }
                        },
                        None => Some(text.clone()),
                    };
                    HostedSummaryState::Text { selected, latest, invalid }
                },
                _ => HostedSummaryState::Text { selected, latest, invalid: true },
            },
            HostedSummaryState::Unknown => HostedSummaryState::Unknown,
        }
    }

    /// The value of the summary, or the message of what is wrong with it.
    pub fn finish(&self, function: &str) -> (result: Result<Json, String>)
        ensures
            match result {
                Ok(value) => final_value(self@, function@) == Ok::<_, Seq<char>>(value@),
                Err(message) => final_value(self@, function@) == Err::<JsonModel, _>(message@),
            },
    {
        match self {
            HostedSummaryState::Count(count) => Ok(Json::unsigned(*count)),
            HostedSummaryState::Empty { total, empty } => Ok(
                Json::unsigned(
                    if same_text(function, "empty") {
                        *empty
                    } else {
                        total.saturating_sub(*empty)
                    },
                ),
            ),
            HostedSummaryState::Number { count, sum, minimum, maximum, invalid } => {
                if *invalid {
                    return Err(
                        concat3("Summary '", function, "' received a non-numeric value."),
                    );
                }
                if *count == 0 {
                    return Ok(Json::Null);
                }
                if same_text(function, "sum") {
                    let total = match sum {
                        Some(total) => Some(total.copy()),
                        None => None,
                    };
                    Ok(hosted_number_value(total))
                } else if same_text(function, "average") {
                    let mean = match sum {
                        Some(total) => number_quotient(total, *count),
                        None => None,
                    };
                    Ok(hosted_number_value(mean))
                } else if same_text(function, "minimum") {
                    Ok(hosted_number_value(read_optional(minimum)))
                } else if same_text(function, "maximum") {
                    Ok(hosted_number_value(read_optional(maximum)))
                } else {
                    Err(concat3("Unknown hosted summary function '", function, "'."))
                }
            },
            HostedSummaryState::Text { selected, latest, invalid } => {
                if *invalid {
                    return Err(concat3("Summary '", function, "' received a non-string value."));
                }
                match selected {
                    Some(text) => Ok(Json::Text(text.clone())),
                    None => Ok(Json::Null),
                }
            },
            HostedSummaryState::Unknown => Err(
                concat3("Unknown hosted summary function '", function, "'."),
            ),
        }
    }
}

/// The state after a sequence of values.
pub open spec fn state_after(function: Seq<char>, values: Seq<JsonModel>) -> SummaryModel
    decreases values.len(),
{
    if values.len() == 0 {
        initial_state(function)
    } else {
        next_state(state_after(function, values.drop_last()), values.last())
    }
}

/// A `count` summary counts every value, up to the largest machine number.
pub proof fn lemma_count_summary(values: Seq<JsonModel>)
    ensures
        state_after("count"@, values) == SummaryModel::Count(
            if values.len() <= u64::MAX {
                values.len() as int
            } else {
                u64::MAX as int
            },
        ),
    decreases values.len(),
{
    if values.len() > 0 {
        lemma_count_summary(values.drop_last());
    }
}

/// Of any number of values, `empty` and `filled` count each exactly once.
pub proof fn lemma_empty_and_filled_partition(values: Seq<JsonModel>)
    requires
        values.len() <= u64::MAX,
    ensures
        ({
            let empty = state_after("empty"@, values);
            let filled = state_after("filled"@, values);
            &&& empty == filled
            &&& empty is Empty
            &&& empty->total == values.len()
            &&& 0 <= empty->empty <= values.len()
            &&& final_value(empty, "empty"@) == Ok::<_, Seq<char>>(count_value(empty->empty))
            &&& final_value(filled, "filled"@) == Ok::<_, Seq<char>>(
                count_value(values.len() - empty->empty),
            )
        }),
    decreases values.len(),
{
    reveal_strlit("count");
    reveal_strlit("empty");
    reveal_strlit("filled");
    assert("empty"@[0] == 'e' && "filled"@[0] == 'f' && "count"@[0] == 'c');
    if values.len() > 0 {
        lemma_empty_and_filled_partition(values.drop_last());
    }
}

// ---------------------------------------------------------------------------
// Groups
// ---------------------------------------------------------------------------
/// The running state of one group.
#[derive(Debug)]
pub struct HostedReductionGroupState {
    pub key: String,
    pub values: Vec<Member>,
    pub count: u64,
    pub summaries: Vec<HostedSummaryState>,
}

/// What the state of a group holds.
pub struct GroupModel {
    pub key: Seq<char>,
    pub values: Seq<(Seq<char>, JsonModel)>,
    pub count: int,
    pub summaries: Seq<SummaryModel>,
}

/// What a list of summary states holds.
pub open spec fn summary_models(states: Seq<HostedSummaryState>) -> Seq<SummaryModel> {
    Seq::new(states.len(), |i: int| states[i]@)
}

impl View for HostedReductionGroupState {
    type V = GroupModel;

    open spec fn view(&self) -> GroupModel {
        GroupModel {
            key: self.key@,
            values: member_models(self.values@),
            count: self.count as int,
            summaries: summary_models(self.summaries@),
        }
    }
}

/// What a list of groups holds.
pub open spec fn group_models(groups: Seq<HostedReductionGroupState>) -> Seq<GroupModel> {
    Seq::new(groups.len(), |i: int| groups[i]@)
}

/// The values of a row, by the names of the first group terms.
pub open spec fn named_values(
    terms: Seq<HostedGroup>,
    values: Seq<Json>,
    count: nat,
) -> Seq<(Seq<char>, JsonModel)>
    decreases count,
{
    if count == 0 || count > terms.len() || count > values.len() {
        Seq::empty()
    } else {
        with_member(
            named_values(terms, values, (count - 1) as nat),
            terms[count - 1].output_name@,
            values[count - 1]@,
        )
    }
}

fn collect_named_values(terms: &Vec<HostedGroup>, values: &Vec<Json>) -> (result: Vec<Member>)
    requires
        terms@.len() == values@.len(),
    ensures
        member_models(result@) == named_values(terms@, values@, terms@.len()),
{
    let mut members: Vec<Member> = Vec::new();
    let mut i: usize = 0;
    proof {
        assert(member_models(members@) =~= Seq::empty());
    }
    while i < terms.len()
        invariant
            i <= terms@.len(),
            terms@.len() == values@.len(),
            member_models(members@) == named_values(terms@, values@, i as nat),
        decreases terms@.len() - i,
    {
        put_member(&mut members, terms[i].output_name.as_str(), values[i].copy());
        i = i + 1;
    }
    members
}

/// The position of a key among ascending keys: that of the first key that does
/// not come before it.
pub open spec fn key_position(groups: Seq<GroupModel>, key: Seq<char>) -> int
    decreases groups.len(),
{
    if groups.len() == 0 || text_order(groups[0].key, key) != Order::Less {
        0
    } else {
        1 + key_position(groups.drop_first(), key)
    }
}

/// Whether there is a group with a key, given the position for it.
pub open spec fn has_key(groups: Seq<GroupModel>, key: Seq<char>) -> bool {
    let at = key_position(groups, key);
    at < groups.len() && groups[at].key == key
}

/// The keys before the position for a key come before it, and the key there does not.
pub proof fn lemma_key_position(groups: Seq<GroupModel>, key: Seq<char>)
    ensures
        0 <= key_position(groups, key) <= groups.len(),
        forall|k: int|
            0 <= k < key_position(groups, key) ==> text_order((#[trigger] groups[k]).key, key)
                == Order::Less,
        key_position(groups, key) < groups.len() ==> text_order(
            groups[key_position(groups, key)].key,
            key,
        ) != Order::Less,
    decreases groups.len(),
{
    if groups.len() > 0 && text_order(groups[0].key, key) == Order::Less {
        lemma_key_position(groups.drop_first(), key);
        assert forall|k: int| 0 <= k < key_position(groups, key) implies text_order(
            (#[trigger] groups[k]).key,
            key,
        ) == Order::Less by {
            if k > 0 {
                assert(groups.drop_first()[k - 1] == groups[k]);
            }
        }
    }
}

/// The summaries of a new group, before any value.
pub open spec fn fresh_summaries(aggregates: Seq<HostedAggregate>) -> Seq<SummaryModel> {
    Seq::new(aggregates.len(), |i: int| initial_state(aggregates[i].function@))
}

/// The summaries after the values of one more row.
pub open spec fn advanced_summaries(
    summaries: Seq<SummaryModel>,
    values: Seq<Json>,
) -> Seq<SummaryModel> {
    Seq::new(
        summaries.len(),
        |i: int|
            if i < values.len() {
                next_state(summaries[i], values[i]@)
            } else {
                summaries[i]
            },
    )
}

/// The group after one more row.
pub open spec fn advanced_group(group: GroupModel, values: Seq<Json>) -> GroupModel {
    GroupModel {
        key: group.key,
        values: group.values,
        count: one_more(group.count),
        summaries: advanced_summaries(group.summaries, values),
    }
}

/// The text that tells the groups of rows apart.
pub open spec fn row_key(plan: HostedQueryPlan, row: HostedReductionInput) -> Seq<char> {
    compact_text(
        JsonModel::Object(
            named_values(plan.groups@, row.group_values@, plan.groups@.len()),
        ),
    )
}

/// A group before any row.
pub open spec fn fresh_group(plan: HostedQueryPlan, row: HostedReductionInput) -> GroupModel {
    GroupModel {
        key: row_key(plan, row),
        values: named_values(plan.groups@, row.group_values@, plan.groups@.len()),
        count: 0,
        summaries: fresh_summaries(plan.aggregates@),
    }
}

/// The groups after one more row.
pub open spec fn groups_after(
    plan: HostedQueryPlan,
    groups: Seq<GroupModel>,
    row: HostedReductionInput,
) -> Seq<GroupModel> {
    let key = row_key(plan, row);
    let at = key_position(groups, key);
    if has_key(groups, key) {
        groups.update(at, advanced_group(groups[at], row.aggregate_values@))
    } else {
        groups.insert(at, advanced_group(fresh_group(plan, row), row.aggregate_values@))
    }
}

/// Whether a row has a value for each term of a plan.
pub open spec fn is_aligned(plan: HostedQueryPlan, row: HostedReductionInput) -> bool {
    row.group_values@.len() == plan.groups@.len() && row.aggregate_values@.len()
        == plan.aggregates@.len()
}

/// Whether a plan neither groups nor summarises.
pub open spec fn reduces_nothing(plan: HostedQueryPlan) -> bool {
    plan.groups@.len() == 0 && plan.aggregates@.len() == 0
}

/// Whether a row would open a group beyond the plan's budget.
pub open spec fn exceeds_budget(
    plan: HostedQueryPlan,
    groups: Seq<GroupModel>,
    row: HostedReductionInput,
) -> bool {
    !has_key(groups, row_key(plan, row)) && plan.groups@.len() > 0 && groups.len()
        >= plan.budgets.max_groups
}

/// Streaming state of one reduction: one fixed-size state per group, in
/// ascending key order, and no rows.
pub struct HostedReductionAccumulator<'a> {
    pub plan: &'a HostedQueryPlan,
    pub groups: Vec<HostedReductionGroupState>,
}

impl<'a> HostedReductionAccumulator<'a> {
    /// The groups so far.
    pub open spec fn model(&self) -> Seq<GroupModel> {
        group_models(self.groups@)
    }

    /// Every group has a state for each summary of the plan.
    pub open spec fn wf(&self) -> bool {
        forall|g: int|
            0 <= g < self.groups@.len() ==> (#[trigger] self.groups@[g]).summaries@.len()
                == self.plan.aggregates@.len()
    }

    /// Takes in one matched row. A row that does not fit the plan, or that would
    /// open a group beyond the budget, changes nothing.
    pub fn push(&mut self, row: &HostedReductionInput) -> (result: Result<(), CatalogError>)
        requires
            old(self).wf(),
        ensures
            final(self).wf(),
            final(self).plan == old(self).plan,
            match result {
                Ok(_) => {
                    &&& is_aligned(*old(self).plan, *row)
                    &&& if reduces_nothing(*old(self).plan) {
                        final(self).model() == old(self).model()
                    } else {
                        &&& !exceeds_budget(*old(self).plan, old(self).model(), *row)
                        &&& final(self).model() == groups_after(
                            *old(self).plan,
                            old(self).model(),
                            *row,
                        )
                    }
                },
                Err(error) => {
                    &&& final(self).model() == old(self).model()
                    &&& if !is_aligned(*old(self).plan, *row) {
                        error.is(
                            "hosted_query_plan_mismatch"@,
                            "Hosted reduction values do not align with the compiled plan."@,
                        )
                    } else {
                        &&& !reduces_nothing(*old(self).plan)
                        &&& exceeds_budget(*old(self).plan, old(self).model(), *row)
                        &&& error.is(
                            "hosted_group_budget_exceeded"@,
                            "Hosted grouping exceeded the maximum of "@ + decimal(
                                old(self).plan.budgets.max_groups as nat,
                            ) + " groups."@,
                        )
                    }
                },
            },
    {
        broadcast use crate::json::lemma_object_model;

        if row.group_values.len() != self.plan.groups.len() || row.aggregate_values.len()
            != self.plan.aggregates.len() {
            return Err(
                CatalogError::new(
                    "hosted_query_plan_mismatch",
                    "Hosted reduction values do not align with the compiled plan.",
                ),
            );
        }
        if self.plan.groups.len() == 0 && self.plan.aggregates.len() == 0 {
            return Ok(());
        }
        let ghost plan = *self.plan;
        let ghost before = self.model();
        let values = collect_named_values(&self.plan.groups, &row.group_values);
        let object = Json::Object(values);
        let key = to_compact_text(&object);
        let values = match object {
            Json::Object(values) => values,
            _ => Vec::new(),
        };
        let at = self.find_position(key.as_str());
        let found = at < self.groups.len() && self.groups[at].key == key;
        proof {
            lemma_key_position(before, key@);
            assert(found == has_key(before, row_key(plan, *row)));
        }
        if found {
            let group = self.groups.remove(at);
            let advanced = advance(group, &row.aggregate_values);
            self.groups.insert(at, advanced);
            proof {
                assert(self.model() =~= groups_after(plan, before, *row));
            }
            return Ok(());
        }
        if self.plan.groups.len() > 0 && self.groups.len() as u64 >= self.plan.budgets.max_groups {
            let message = concat3(
                "Hosted grouping exceeded the maximum of ",
                decimal_text(self.plan.budgets.max_groups).as_str(),
                " groups.",
            );
            return Err(CatalogError::new("hosted_group_budget_exceeded", message.as_str()));
        }
        let summaries = start_summaries(&self.plan.aggregates);
        let group = HostedReductionGroupState { key, values, count: 0, summaries };
        proof {
            assert(group@.summaries =~= fresh_summaries(plan.aggregates@));
            assert(group@ == fresh_group(plan, *row));
        }
        let advanced = advance(group, &row.aggregate_values);
        self.groups.insert(at, advanced);
        proof {
            assert(self.model() =~= groups_after(plan, before, *row));
        }
        Ok(())
    }

    fn find_position(&self, key: &str) -> (result: usize)
        ensures
            result == key_position(self.model(), key@),
            result <= self.groups@.len(),
    {
        let ghost all = self.model();
        let mut i: usize = 0;
        proof {
            assert(all.skip(0) =~= all);
        }
        while i < self.groups.len() && compare_text(self.groups[i].key.as_str(), key).is_lt()
            invariant
                i <= self.groups@.len(),
                all == self.model(),
                key_position(all, key@) == i + key_position(all.skip(i as int), key@),
            decreases self.groups@.len() - i,
        {
            proof {
                assert(all.skip(i as int).drop_first() =~= all.skip(i + 1));
                assert(all.skip(i as int)[0] == self.groups@[i as int]@);
            }
            i = i + 1;
        }
        proof {
            if i < self.groups@.len() {
                assert(all.skip(i as int)[0] == self.groups@[i as int]@);
            }
        }
        i
    }
}

fn start_summaries(aggregates: &Vec<HostedAggregate>) -> (result: Vec<HostedSummaryState>)
    ensures
        summary_models(result@) == fresh_summaries(aggregates@),
        result@.len() == aggregates@.len(),
{
    let mut summaries: Vec<HostedSummaryState> = Vec::new();
    let mut i: usize = 0;
    while i < aggregates.len()
        invariant
            i <= aggregates@.len(),
            summaries@.len() == i,
            forall|k: int|
                0 <= k < i ==> (#[trigger] summaries@[k])@ == initial_state(
                    aggregates@[k].function@,
                ),
        decreases aggregates@.len() - i,
    {
        summaries.push(HostedSummaryState::new(aggregates[i].function.as_str()));
        i = i + 1;
    }
    proof {
        assert(summary_models(summaries@) =~= fresh_summaries(aggregates@));
    }
    summaries
}

fn advance(group: HostedReductionGroupState, values: &Vec<Json>) -> (result:
    HostedReductionGroupState)
    ensures
        result@ == advanced_group(group@, values@),
        result.summaries@.len() == group.summaries@.len(),
{
    let HostedReductionGroupState { key, values: members, count, summaries } = group;
    let ghost states = summary_models(summaries@);
    let mut remaining = summaries;
    let mut reversed: Vec<HostedSummaryState> = Vec::new();
    while remaining.len() > 0
        invariant
            remaining@.len() + reversed@.len() == states.len(),
            summary_models(remaining@) == states.take(remaining@.len() as int),
            forall|k: int|
                0 <= k < reversed@.len() ==> (#[trigger] reversed@[k])@ == advanced_summaries(
                    states,
                    values@,
                )[states.len() - 1 - k],
        decreases remaining@.len(),
    {
        let at = remaining.len() - 1;
        let ghost before = remaining@;
        match remaining.pop() {
            Some(state) => {
                proof {
                    assert(summary_models(before)[at as int] == state@);
                    assert(states[at as int] == state@);
                    assert(summary_models(remaining@) =~= states.take(remaining@.len() as int));
                }
                if at < values.len() {
                    reversed.push(state.push(&values[at]));
                } else {
                    reversed.push(state);
                }
            },
            None => {},
        }
    }
    let ghost all = reversed@;
    let mut advanced: Vec<HostedSummaryState> = Vec::new();
    while reversed.len() > 0
        invariant
            reversed@.len() + advanced@.len() == states.len(),
            all.len() == states.len(),
            reversed@ == all.take(reversed@.len() as int),
            forall|k: int|
                0 <= k < all.len() ==> (#[trigger] all[k])@ == advanced_summaries(states, values@)[
                states.len() - 1 - k],
            forall|k: int|
                0 <= k < advanced@.len() ==> (#[trigger] advanced@[k])@ == advanced_summaries(
                    states,
                    values@,
                )[k],
        decreases reversed@.len(),
    {
        match reversed.pop() {
            Some(state) => {
                proof {
                    assert(reversed@ =~= all.take(reversed@.len() as int));
                    assert(state == all[reversed@.len() as int]);
                }
                advanced.push(state);
            },
            None => {},
        }
    }
    proof {
        assert(summary_models(advanced@) =~= advanced_summaries(states, values@));
    }
    HostedReductionGroupState {
        key,
        values: members,
        count: count.saturating_add(1),
        summaries: advanced,
    }
}

// ---------------------------------------------------------------------------
// Results
// ---------------------------------------------------------------------------
/// The order of two groups by the first term from `from` on that tells them
/// apart.
pub open spec fn group_order(
    terms: Seq<HostedGroup>,
    left: GroupModel,
    right: GroupModel,
    from: nat,
) -> Order
    decreases terms.len() - from,
{
    if from >= terms.len() {
        Order::Equal
    } else {
        let name = terms[from as int].output_name@;
        let order = terms[from as int].direction.directed(
            value_order(or_null(lookup(left.values, name)), or_null(lookup(right.values, name))),
        );
        if order == Order::Equal {
            group_order(terms, left, right, from + 1)
        } else {
            order
        }
    }
}

fn compare_groups(
    terms: &Vec<HostedGroup>,
    left: &HostedReductionGroupState,
    right: &HostedReductionGroupState,
) -> (result: Order)
    ensures
        result == group_order(terms@, left@, right@, 0),
{
    let null = Json::Null;
    let mut i: usize = 0;
    while i < terms.len()
        invariant
            i <= terms@.len(),
            null@ == JsonModel::Null,
            group_order(terms@, left@, right@, 0) == group_order(terms@, left@, right@, i as nat),
        decreases terms@.len() - i,
    {
        let name = terms[i].output_name.as_str();
        let a = match find_member(&left.values, name) {
            Some(value) => value,
            None => &null,
        };
        let b = match find_member(&right.values, name) {
            Some(value) => value,
            None => &null,
        };
        let order = compare_hosted_values(a, b, terms[i].direction);
        if !order.is_eq() {
            return order;
        }
        i = i + 1;
    }
    Order::Equal
}

/// How the groups at two positions compare.
pub open spec fn order_of_groups(
    terms: Seq<HostedGroup>,
    groups: Seq<GroupModel>,
) -> spec_fn(int, int) -> Order {
    |i: int, j: int| group_order(terms, groups[i], groups[j], 0)
}

struct GroupStateOrder<'a> {
    terms: &'a Vec<HostedGroup>,
    groups: &'a Vec<HostedReductionGroupState>,
}

impl<'a> Comparison for GroupStateOrder<'a> {
    closed spec fn count(&self) -> nat {
        self.groups@.len()
    }

    closed spec fn order(&self) -> spec_fn(int, int) -> Order {
        order_of_groups(self.terms@, group_models(self.groups@))
    }

    fn size(&self) -> (result: usize) {
        self.groups.len()
    }

    fn compare(&self, left: usize, right: usize) -> (result: Order) {
        compare_groups(self.terms, &self.groups[left], &self.groups[right])
    }
}

/// The summaries of a group as members; null where one is at fault.
pub open spec fn summary_members(
    aggregates: Seq<HostedAggregate>,
    summaries: Seq<SummaryModel>,
    count: nat,
) -> Seq<(Seq<char>, JsonModel)>
    decreases count,
{
    if count == 0 || count > aggregates.len() || count > summaries.len() {
        Seq::empty()
    } else {
        let aggregate = aggregates[count - 1];
        with_member(
            summary_members(aggregates, summaries, (count - 1) as nat),
            aggregate.output_name@,
            match final_value(summaries[count - 1], aggregate.function@) {
                Ok(value) => value,
                Err(_) => JsonModel::Null,
            },
        )
    }
}

/// The diagnostic of a summary at fault.
pub open spec fn summary_diagnostic(message: Seq<char>, name: Seq<char>) -> DiagnosticModel {
    DiagnosticModel {
        severity: "warning"@,
        code: "expression_evaluation_error"@,
        message,
        path: None,
        field: Some("summaries."@ + name),
        record_type: None,
        schema_location: None,
        details: Some(
            JsonModel::Object(
                with_member(Seq::empty(), "context"@, JsonModel::Text("query_summary"@)),
            ),
        ),
    }
}

/// The diagnostics of a group's summaries.
pub open spec fn summary_faults(
    aggregates: Seq<HostedAggregate>,
    summaries: Seq<SummaryModel>,
    count: nat,
) -> Seq<DiagnosticModel>
    decreases count,
{
    if count == 0 || count > aggregates.len() || count > summaries.len() {
        Seq::empty()
    } else {
        let aggregate = aggregates[count - 1];
        let rest = summary_faults(aggregates, summaries, (count - 1) as nat);
        match final_value(summaries[count - 1], aggregate.function@) {
            Ok(_) => rest,
            Err(message) => rest.push(summary_diagnostic(message, aggregate.output_name@)),
        }
    }
}

/// A group as a JSON value.
pub open spec fn group_result(aggregates: Seq<HostedAggregate>, group: GroupModel) -> JsonModel {
    let m = Seq::empty();
    let m = with_member(m, "values"@, JsonModel::Object(group.values));
    let m = with_member(m, "count"@, count_value(group.count));
    let m = with_member(
        m,
        "summaries"@,
        JsonModel::Object(summary_members(aggregates, group.summaries, aggregates.len())),
    );
    JsonModel::Object(m)
}

/// The diagnostics of all groups, in order.
pub open spec fn group_faults(
    aggregates: Seq<HostedAggregate>,
    groups: Seq<GroupModel>,
) -> Seq<DiagnosticModel>
    decreases groups.len(),
{
    if groups.len() == 0 {
        Seq::empty()
    } else {
        group_faults(aggregates, groups.drop_last()) + summary_faults(
            aggregates,
            groups.last().summaries,
            aggregates.len(),
        )
    }
}

/// Whether a reduction presents the groups in the plan's order.
pub open spec fn is_reduction(
    reduction: HostedReduction,
    plan: HostedQueryPlan,
    groups: Seq<GroupModel>,
) -> bool {
    if reduces_nothing(plan) {
        reduction.groups is None && reduction.diagnostics@.len() == 0
    } else {
        exists|positions: Seq<usize>| #[trigger]
            stably_sorted(groups.len(), order_of_groups(plan.groups@, groups), positions)
                && presents_groups(reduction, plan, arranged(groups, positions))
    }
}

/// Whether a reduction lists these groups.
pub open spec fn presents_groups(
    reduction: HostedReduction,
    plan: HostedQueryPlan,
    ordered: Seq<GroupModel>,
) -> bool {
    &&& reduction.groups is Some
    &&& item_models(reduction.groups->0@) == Seq::new(
        ordered.len(),
        |i: int| group_result(plan.aggregates@, ordered[i]),
    )
    &&& diagnostic_models(reduction.diagnostics@) == group_faults(plan.aggregates@, ordered)
}

fn build_summary_diagnostic(message: String, name: &str) -> (result: Diagnostic)
    ensures
        result@ == summary_diagnostic(message@, name@),
{
    broadcast use crate::json::lemma_object_model;

    let mut details: Vec<Member> = Vec::new();
    proof {
        assert(member_models(details@) =~= Seq::empty());
    }
    put_member(&mut details, "context", Json::text("query_summary"));
    Diagnostic {
        severity: "warning".to_owned(),
        code: "expression_evaluation_error".to_owned(),
        message,
        path: None,
        field: Some("summaries.".to_owned().concat(name)),
        record_type: None,
        schema_location: None,
        details: Some(Json::Object(details)),
    }
}

fn build_group_result(
    aggregates: &Vec<HostedAggregate>,
    group: &HostedReductionGroupState,
    diagnostics: &mut Vec<Diagnostic>,
) -> (result: Json)
    requires
        group.summaries@.len() == aggregates@.len(),
    ensures
        result@ == group_result(aggregates@, group@),
        diagnostic_models(final(diagnostics)@) == diagnostic_models(old(diagnostics)@)
            + summary_faults(aggregates@, group@.summaries, aggregates@.len()),
{
    broadcast use crate::json::lemma_object_model;

    let ghost states = group@.summaries;
    let ghost start = diagnostic_models(diagnostics@);
    let mut members: Vec<Member> = Vec::new();
    let mut i: usize = 0;
    proof {
        assert(member_models(members@) =~= Seq::empty());
        assert(diagnostic_models(diagnostics@) =~= start + summary_faults(aggregates@, states, 0));
    }
    while i < aggregates.len()
        invariant
            i <= aggregates@.len(),
            group.summaries@.len() == aggregates@.len(),
            states == summary_models(group.summaries@),
            start == diagnostic_models(old(diagnostics)@),
            member_models(members@) == summary_members(aggregates@, states, i as nat),
            diagnostic_models(diagnostics@) == start + summary_faults(
                aggregates@,
                states,
                i as nat,
            ),
        decreases aggregates@.len() - i,
    {
        let name = aggregates[i].output_name.as_str();
        proof {
            assert(states[i as int] == group.summaries@[i as int]@);
        }
        match group.summaries[i].finish(aggregates[i].function.as_str()) {
            Ok(value) => {
                put_member(&mut members, name, value);
            },
            Err(message) => {
                let ghost current = diagnostics@;
                let ghost fault = summary_diagnostic(message@, name@);
                diagnostics.push(build_summary_diagnostic(message, name));
                proof {
                    assert(diagnostic_models(diagnostics@) =~= diagnostic_models(current).push(
                        fault,
                    ));
                    assert(diagnostic_models(diagnostics@) =~= start + summary_faults(
                        aggregates@,
                        states,
                        (i + 1) as nat,
                    ));
                }
                put_member(&mut members, name, Json::Null);
            },
        }
        i = i + 1;
    }
    let mut result: Vec<Member> = Vec::new();
    proof {
        assert(member_models(result@) =~= Seq::empty());
    }
    put_member(&mut result, "values", Json::Object(copy_members(&group.values)));
    put_member(&mut result, "count", Json::unsigned(group.count));
    put_member(&mut result, "summaries", Json::Object(members));
    Json::Object(result)
}

impl<'a> HostedReductionAccumulator<'a> {
    /// The groups in the plan's order, with their summaries.
    pub fn finish(&self) -> (result: HostedReduction)
        requires
            self.wf(),
        ensures
            is_reduction(result, *self.plan, self.model()),
    {
        if self.plan.groups.len() == 0 && self.plan.aggregates.len() == 0 {
            return HostedReduction { groups: None, diagnostics: Vec::new() };
        }
        let context = GroupStateOrder { terms: &self.plan.groups, groups: &self.groups };
        let positions = sorted_positions(&context);
        let ghost models = self.model();
        let ghost ordered = arranged(models, positions@);
        proof {
            assert(stably_sorted(
                models.len(),
                order_of_groups(self.plan.groups@, models),
                positions@,
            ));
        }
        let mut list: Vec<Json> = Vec::new();
        let mut diagnostics: Vec<Diagnostic> = Vec::new();
        let mut k: usize = 0;
        proof {
            assert(diagnostic_models(diagnostics@) =~= group_faults(
                self.plan.aggregates@,
                ordered.take(0),
            ));
        }
        while k < positions.len()
            invariant
                k <= positions@.len(),
                self.wf(),
                models == self.model(),
                ordered == arranged(models, positions@),
                forall|m: int|
                    0 <= m < positions@.len() ==> (#[trigger] positions@[m]) < self.groups@.len(),
                list@.len() == k,
                forall|m: int|
                    0 <= m < k ==> (#[trigger] list@[m])@ == group_result(
                        self.plan.aggregates@,
                        ordered[m],
                    ),
                diagnostic_models(diagnostics@) == group_faults(
                    self.plan.aggregates@,
                    ordered.take(k as int),
                ),
            decreases positions@.len() - k,
        {
            proof {
                assert(ordered.take(k + 1).drop_last() =~= ordered.take(k as int));
                assert(ordered.take(k + 1).last() == ordered[k as int]);
                assert(ordered[k as int] == self.groups@[positions@[k as int] as int]@);
            }
            let group = &self.groups[positions[k]];
            let value = build_group_result(&self.plan.aggregates, group, &mut diagnostics);
            list.push(value);
            k = k + 1;
        }
        let result = HostedReduction { groups: Some(list), diagnostics };
        proof {
            assert(ordered.take(k as int) =~= ordered);
            assert(item_models(list@) =~= Seq::new(
                ordered.len(),
                |i: int| group_result(self.plan.aggregates@, ordered[i]),
            ));
            assert(presents_groups(result, *self.plan, ordered));
        }
        result
    }
}

/// The groups after the first rows.
pub open spec fn groups_after_rows(
    plan: HostedQueryPlan,
    rows: Seq<HostedReductionInput>,
    count: nat,
) -> Seq<GroupModel>
    decreases count,
{
    if count == 0 || count > rows.len() || reduces_nothing(plan) {
        Seq::empty()
    } else {
        groups_after(plan, groups_after_rows(plan, rows, (count - 1) as nat), rows[count - 1])
    }
}

/// What is wrong with a row, those before it taken in.
pub open spec fn row_fault(
    plan: HostedQueryPlan,
    rows: Seq<HostedReductionInput>,
    i: int,
) -> Option<(Seq<char>, Seq<char>)> {
    if !is_aligned(plan, rows[i]) {
        Some(
            (
                "hosted_query_plan_mismatch"@,
                "Hosted reduction values do not align with the compiled plan."@,
            ),
        )
    } else if !reduces_nothing(plan) && exceeds_budget(
        plan,
        groups_after_rows(plan, rows, i as nat),
        rows[i],
    ) {
        Some(
            (
                "hosted_group_budget_exceeded"@,
                "Hosted grouping exceeded the maximum of "@ + decimal(
                    plan.budgets.max_groups as nat,
                ) + " groups."@,
            ),
        )
    } else {
        None
    }
}

impl HostedQueryPlan {
    /// Begins a reduction.
    pub fn start_reduction(&self) -> (result: HostedReductionAccumulator<'_>)
        ensures
            result.wf(),
            *result.plan == *self,
            result.model() == Seq::<GroupModel>::empty(),
    {
        let result = HostedReductionAccumulator { plan: self, groups: Vec::new() };
        proof {
            assert(result.model() =~= Seq::empty());
        }
        result
    }

    /// Reduces a bounded list of matched rows. The first row that does not fit
    /// the plan, or that would open a group beyond the budget, is an error.
    pub fn reduce_matches(&self, rows: &Vec<HostedReductionInput>) -> (result: Result<
        HostedReduction,
        CatalogError,
    >)
        ensures
            match result {
                Ok(reduction) => {
                    &&& forall|i: int|
                        0 <= i < rows@.len() ==> #[trigger] row_fault(*self, rows@, i) is None
                    &&& is_reduction(
                        reduction,
                        *self,
                        groups_after_rows(*self, rows@, rows@.len()),
                    )
                },
                Err(error) => exists|i: int|
                    0 <= i < rows@.len() && #[trigger] row_fault(*self, rows@, i) == Some(
                        (error.code@, error.message@),
                    ) && forall|k: int| 0 <= k < i ==> #[trigger] row_fault(*self, rows@, k) is None,
            },
    {
        let mut accumulator = self.start_reduction();
        let mut i: usize = 0;
        while i < rows.len()
            invariant
                i <= rows@.len(),
                accumulator.wf(),
                *accumulator.plan == *self,
                accumulator.model() == groups_after_rows(*self, rows@, i as nat),
                forall|k: int| 0 <= k < i ==> #[trigger] row_fault(*self, rows@, k) is None,
            decreases rows@.len() - i,
        {
            if let Err(error) = accumulator.push(&rows[i]) {
                proof {
                    assert(row_fault(*self, rows@, i as int) == Some((error.code@, error.message@)));
                }
                return Err(error);
            }
            i = i + 1;
        }
        Ok(accumulator.finish())
    }
}

/// The state of a reduction is bounded: with group terms there are never more
/// groups than the budget allows, however many rows are taken in.
pub proof fn lemma_groups_are_bounded(
    plan: HostedQueryPlan,
    groups: Seq<GroupModel>,
    row: HostedReductionInput,
)
    requires
        plan.groups@.len() > 0,
        groups.len() <= plan.budgets.max_groups,
        !exceeds_budget(plan, groups, row),
    ensures
        groups_after(plan, groups, row).len() <= plan.budgets.max_groups,
{
    lemma_key_position(groups, row_key(plan, row));
}

/// The sum of the groups' counts.
pub open spec fn total_count(groups: Seq<GroupModel>) -> int
    decreases groups.len(),
{
    if groups.len() == 0 {
        0
    } else {
        total_count(groups.drop_last()) + groups.last().count
    }
}

proof fn lemma_total_update(groups: Seq<GroupModel>, at: int, group: GroupModel)
    requires
        0 <= at < groups.len(),
    ensures
        total_count(groups.update(at, group)) == total_count(groups) - groups[at].count
            + group.count,
    decreases groups.len(),
{
    let after = groups.update(at, group);
    if at < groups.len() - 1 {
        lemma_total_update(groups.drop_last(), at, group);
        assert(after.drop_last() =~= groups.drop_last().update(at, group));
    } else {
        assert(after.drop_last() =~= groups.drop_last());
    }
}

proof fn lemma_total_insert(groups: Seq<GroupModel>, at: int, group: GroupModel)
    requires
        0 <= at <= groups.len(),
    ensures
        total_count(groups.insert(at, group)) == total_count(groups) + group.count,
    decreases groups.len(),
{
    let after = groups.insert(at, group);
    if at < groups.len() {
        lemma_total_insert(groups.drop_last(), at, group);
        assert(after.drop_last() =~= groups.drop_last().insert(at, group));
    } else {
        assert(after.drop_last() =~= groups);
    }
}

/// Every row is counted in exactly one group: taking in a row raises the sum of
/// the groups' counts by one, as long as no count has reached the largest
/// machine number.
pub proof fn lemma_rows_are_counted_once(
    plan: HostedQueryPlan,
    groups: Seq<GroupModel>,
    row: HostedReductionInput,
)
    requires
        forall|g: int| 0 <= g < groups.len() ==> (#[trigger] groups[g]).count < u64::MAX,
    ensures
        total_count(groups_after(plan, groups, row)) == total_count(groups) + 1,
{
    let key = row_key(plan, row);
    let at = key_position(groups, key);
    lemma_key_position(groups, key);
    if has_key(groups, key) {
        lemma_total_update(groups, at, advanced_group(groups[at], row.aggregate_values@));
    } else {
        lemma_total_insert(
            groups,
            at,
            advanced_group(fresh_group(plan, row), row.aggregate_values@),
        );
    }
}

} // verus!
