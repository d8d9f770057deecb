//! Summaries over the values that query results have in one field.

use crate::json::{
    copy_or_null, find_member, item_models, items_contain, lists_value, lookup, member_models,
    nested_member, or_null, put_member, texts_among, with_member, Json, JsonModel, JsonNumber,
    Member, NumberModel,
};
use crate::numbers::{
    compare_numbers, float_quotient, float_sum, inner_integral, inner_whole_value, number_order,
    number_quotient, number_sum, optional_number, read_number, reading, signed_number,
};
use crate::text::{compare_text, same_text, text_order, texts, Order};
use vstd::prelude::*;

verus! {

/// The values of a frontmatter field in those results that have it.
pub open spec fn field_values(candidates: Seq<JsonModel>, field: Seq<char>) -> Seq<JsonModel>
    decreases candidates.len(),
{
    if candidates.len() == 0 {
        Seq::empty()
    } else {
        let rest = field_values(candidates.drop_last(), field);
        match nested_member(candidates.last(), "frontmatter"@, field) {
            Some(value) => rest.push(value),
            None => rest,
        }
    }
}

fn collect_values(candidates: &Vec<Json>, field: &str) -> (result: Vec<Json>)
    ensures
        item_models(result@) == field_values(item_models(candidates@), field@),
{
    let mut result: Vec<Json> = Vec::new();
    let ghost all = item_models(candidates@);
    let mut i: usize = 0;
    proof {
        assert(item_models(result@) =~= field_values(all.take(0), field@));
    }
    while i < candidates.len()
        invariant
            i <= candidates@.len(),
            all == item_models(candidates@),
            item_models(result@) == field_values(all.take(i as int), field@),
        decreases candidates@.len() - i,
    {
        proof {
            assert(all.take(i + 1).drop_last() =~= all.take(i as int));
            assert(all.take(i + 1).last() == all[i as int]);
        }
        if let Some(value) = candidates[i].get_nested("frontmatter", field) {
            let ghost before = result@;
            result.push(value.copy());
            proof {
                assert(item_models(result@) =~= item_models(before).push(value@));
            }
        }
        i = i + 1;
    }
    proof {
        assert(all.take(i as int) =~= all);
    }
    result
}

/// The numbers among the values.
pub open spec fn numbers_among(values: Seq<JsonModel>) -> Seq<NumberModel>
    decreases values.len(),
{
    if values.len() == 0 {
        Seq::empty()
    } else {
        let rest = numbers_among(values.drop_last());
        match values.last() {
            JsonModel::Number(number) => rest.push(number),
            _ => rest,
        }
    }
}

/// What a list of numbers holds.
pub open spec fn number_models(numbers: Seq<JsonNumber>) -> Seq<NumberModel> {
    Seq::new(numbers.len(), |i: int| numbers[i]@)
}

fn collect_numbers(values: &Vec<Json>) -> (result: Vec<JsonNumber>)
    ensures
        number_models(result@) == numbers_among(item_models(values@)),
{
    let mut result: Vec<JsonNumber> = Vec::new();
    let ghost all = item_models(values@);
    let mut i: usize = 0;
    proof {
        assert(number_models(result@) =~= numbers_among(all.take(0)));
    }
    while i < values.len()
        invariant
            i <= values@.len(),
            all == item_models(values@),
            number_models(result@) == numbers_among(all.take(i as int)),
        decreases values@.len() - i,
    {
        proof {
            assert(all.take(i + 1).drop_last() =~= all.take(i as int));
            assert(all.take(i + 1).last() == all[i as int]);
        }
        if let Json::Number(number) = &values[i] {
            let ghost before = result@;
            result.push(number.copy());
            proof {
                assert(number_models(result@) =~= number_models(before).push(number@));
            }
        }
        i = i + 1;
    }
    proof {
        assert(all.take(i as int) =~= all);
    }
    result
}

/// The floating-point sum, added up in order; nothing once it is not finite.
pub open spec fn sum_of(numbers: Seq<NumberModel>) -> Option<NumberModel>
    decreases numbers.len(),
{
    if numbers.len() == 0 {
        Some(NumberModel::Integer(0))
    } else {
        match sum_of(numbers.drop_last()) {
            Some(total) => float_sum(total, numbers.last()),
            None => None,
        }
    }
}

fn add_up(numbers: &Vec<JsonNumber>) -> (result: Option<JsonNumber>)
    ensures
        optional_number(result) == sum_of(number_models(numbers@)),
{
    let ghost all = number_models(numbers@);
    let mut total: Option<JsonNumber> = Some(JsonNumber::Unsigned(0));
    let mut i: usize = 0;
    while i < numbers.len()
        invariant
            i <= numbers@.len(),
            all == number_models(numbers@),
            optional_number(total) == sum_of(all.take(i as int)),
        decreases numbers@.len() - i,
    {
        proof {
            assert(all.take(i + 1).drop_last() =~= all.take(i as int));
            assert(all.take(i + 1).last() == all[i as int]);
        }
        total =
        match &total {
            Some(value) => number_sum(value, &numbers[i]),
            None => None,
        };
        i = i + 1;
    }
    proof {
        assert(all.take(i as int) =~= all);
    }
    total
}

/// The first number that no other comes before (for `Less`) or after (for
/// `Greater`).
pub open spec fn extreme(numbers: Seq<NumberModel>, side: Order) -> Option<NumberModel>
    decreases numbers.len(),
{
    if numbers.len() == 0 {
        None
    } else {
        match extreme(numbers.drop_last(), side) {
            Some(best) => if number_order(numbers.last(), best) == side {
                Some(numbers.last())
            } else {
                Some(best)
            },
            None => Some(numbers.last()),
        }
    }
}

fn find_extreme(numbers: &Vec<JsonNumber>, side: Order) -> (result: Option<JsonNumber>)
    ensures
        optional_number(result) == extreme(number_models(numbers@), side),
{
    let ghost all = number_models(numbers@);
    let mut best: Option<JsonNumber> = None;
    let mut i: usize = 0;
    while i < numbers.len()
        invariant
            i <= numbers@.len(),
            all == number_models(numbers@),
            optional_number(best) == extreme(all.take(i as int), side),
        decreases numbers@.len() - i,
    {
        proof {
            assert(all.take(i + 1).drop_last() =~= all.take(i as int));
            assert(all.take(i + 1).last() == all[i as int]);
        }
        let better = match &best {
            Some(current) => compare_numbers(&numbers[i], current) == side,
            None => true,
        };
        if better {
            best = Some(numbers[i].copy());
        }
        i = i + 1;
    }
    proof {
        assert(all.take(i as int) =~= all);
    }
    best
}

/// The first text that no other comes before (for `Less`) or after (for
/// `Greater`).
pub open spec fn extreme_text(values: Seq<Seq<char>>, side: Order) -> Option<Seq<char>>
    decreases values.len(),
{
    if values.len() == 0 {
        None
    } else {
        match extreme_text(values.drop_last(), side) {
            Some(best) => if text_order(values.last(), best) == side {
                Some(values.last())
            } else {
                Some(best)
            },
            None => Some(values.last()),
        }
    }
}

fn find_extreme_text(values: &Vec<String>, side: Order) -> (result: Option<String>)
    ensures
        match result {
            Some(text) => extreme_text(texts(values@), side) == Some(text@),
            None => extreme_text(texts(values@), side) is None,
        },
{
    let ghost all = texts(values@);
    let mut best: Option<String> = None;
    let mut i: usize = 0;
    while i < values.len()
        invariant
            i <= values@.len(),
            all == texts(values@),
            match best {
                Some(text) => extreme_text(all.take(i as int), side) == Some(text@),
                None => extreme_text(all.take(i as int), side) is None,
            },
        decreases values@.len() - i,
    {
        proof {
            assert(all.take(i + 1).drop_last() =~= all.take(i as int));
            assert(all.take(i + 1).last() == all[i as int]);
        }
        let better = match &best {
            Some(current) => compare_text(values[i].as_str(), current.as_str()) == side,
            None => true,
        };
        if better {
            best = Some(values[i].clone());
        }
        i = i + 1;
    }
    proof {
        assert(all.take(i as int) =~= all);
    }
    best
}

/// How many of the values have a property.
pub open spec fn count_where(values: Seq<JsonModel>, property: spec_fn(JsonModel) -> bool) -> nat
    decreases values.len(),
{
    if values.len() == 0 {
        0
    } else {
        count_where(values.drop_last(), property) + if property(values.last()) {
            1nat
        } else {
            0nat
        }
    }
}

fn count_bool(values: &Vec<Json>, wanted: bool) -> (result: u64)
    ensures
        result == count_where(
            item_models(values@),
            |value: JsonModel| value == JsonModel::Bool(wanted),
        ),
{
    let ghost all = item_models(values@);
    let ghost property = |value: JsonModel| value == JsonModel::Bool(wanted);
    let total: usize = values.len();
    let mut count: u64 = 0;
    let mut i: usize = 0;
    while i < values.len()
        invariant
            i <= values@.len(),
            total == values@.len(),
            count <= i,
            all == item_models(values@),
            property == |value: JsonModel| value == JsonModel::Bool(wanted),
            count == count_where(all.take(i as int), property),
        decreases values@.len() - i,
    {
        proof {
            assert(all.take(i + 1).drop_last() =~= all.take(i as int));
            assert(all.take(i + 1).last() == all[i as int]);
        }
        let matches_wanted = match &values[i] {
            Json::Bool(value) => *value == wanted,
            _ => false,
        };
        if matches_wanted {
            count = count + 1;
        }
        i = i + 1;
    }
    proof {
        assert(all.take(i as int) =~= all);
    }
    count
}

/// Whether a result has no value to speak of in a field: none, null, or an
/// empty text.
pub open spec fn is_blank(candidate: JsonModel, field: Seq<char>) -> bool {
    match nested_member(candidate, "frontmatter"@, field) {
        None => true,
        Some(JsonModel::Null) => true,
        Some(JsonModel::Text(text)) => text.len() == 0,
        Some(_) => false,
    }
}

fn blank(candidate: &Json, field: &str) -> (result: bool)
    ensures
        result == is_blank(candidate@, field@),
{
    match candidate.get_nested("frontmatter", field) {
        None => true,
        Some(Json::Null) => true,
        Some(Json::Text(text)) => text.as_str().is_empty(),
        Some(_) => false,
    }
}

fn count_blank(candidates: &Vec<Json>, field: &str, wanted: bool) -> (result: u64)
    ensures
        result == count_where(
            item_models(candidates@),
            |candidate: JsonModel| is_blank(candidate, field@) == wanted,
        ),
{
    let ghost all = item_models(candidates@);
    let ghost property = |candidate: JsonModel| is_blank(candidate, field@) == wanted;
    let total: usize = candidates.len();
    let mut count: u64 = 0;
    let mut i: usize = 0;
    while i < candidates.len()
        invariant
            i <= candidates@.len(),
            total == candidates@.len(),
            count <= i,
            all == item_models(candidates@),
            property == |candidate: JsonModel| is_blank(candidate, field@) == wanted,
            count == count_where(all.take(i as int), property),
        decreases candidates@.len() - i,
    {
        proof {
            assert(all.take(i + 1).drop_last() =~= all.take(i as int));
            assert(all.take(i + 1).last() == all[i as int]);
        }
        if blank(&candidates[i], field) == wanted {
            count = count + 1;
        }
        i = i + 1;
    }
    proof {
        assert(all.take(i as int) =~= all);
    }
    count
}

/// The values without those that equal an earlier one.
pub open spec fn distinct(values: Seq<JsonModel>) -> Seq<JsonModel>
    decreases values.len(),
{
    if values.len() == 0 {
        Seq::empty()
    } else {
        let rest = distinct(values.drop_last());
        if lists_value(rest, values.last()) {
            rest
        } else {
            rest.push(values.last())
        }
    }
}

fn count_distinct(values: &Vec<Json>) -> (result: usize)
    ensures
        result == distinct(item_models(values@)).len(),
{
    let ghost all = item_models(values@);
    let mut unique: Vec<Json> = Vec::new();
    let mut i: usize = 0;
    proof {
        assert(item_models(unique@) =~= distinct(all.take(0)));
    }
    while i < values.len()
        invariant
            i <= values@.len(),
            all == item_models(values@),
            item_models(unique@) == distinct(all.take(i as int)),
        decreases values@.len() - i,
    {
        proof {
            assert(all.take(i + 1).drop_last() =~= all.take(i as int));
            assert(all.take(i + 1).last() == all[i as int]);
        }
        if !items_contain(&unique, &values[i]) {
            let ghost before = unique@;
            unique.push(values[i].copy());
            proof {
                assert(item_models(unique@) =~= item_models(before).push(all[i as int]));
            }
        }
        i = i + 1;
    }
    proof {
        assert(all.take(i as int) =~= all);
    }
    unique.len()
}

/// Whether one of the values is a number that is not an integer by notation.
pub open spec fn has_decimal(values: Seq<JsonModel>) -> bool {
    exists|i: int|
        0 <= i < values.len() && match #[trigger] values[i] {
            JsonModel::Number(NumberModel::Decimal(_)) => true,
            _ => false,
        }
}

fn any_decimal(values: &Vec<Json>) -> (result: bool)
    ensures
        result == has_decimal(item_models(values@)),
{
    let ghost all = item_models(values@);
    let mut i: usize = 0;
    while i < values.len()
        invariant
            i <= values@.len(),
            all == item_models(values@),
            forall|k: int|
                0 <= k < i ==> match #[trigger] all[k] {
                    JsonModel::Number(NumberModel::Decimal(_)) => false,
                    _ => true,
                },
        decreases values@.len() - i,
    {
        if let Json::Number(JsonNumber::Decimal(_)) = &values[i] {
            proof {
                assert(all[i as int] == values@[i as int]@);
            }
            return true;
        }
        proof {
            assert(all[i as int] == values@[i as int]@);
        }
        i = i + 1;
    }
    false
}

/// A floating-point result as a JSON value: an integer where it is one, null
/// where it is not finite.
pub open spec fn rounded_value(number: Option<NumberModel>) -> JsonModel {
    match number {
        Some(number) => match inner_whole_value(number) {
            Some(value) => JsonModel::Number(NumberModel::Integer(value)),
            None => JsonModel::Number(number),
        },
        None => JsonModel::Null,
    }
}

fn to_rounded_value(number: Option<JsonNumber>) -> (result: Json)
    ensures
        result@ == rounded_value(optional_number(number)),
{
    match number {
        Some(number) => match inner_integral(&number) {
            Some(value) => Json::Number(signed_number(value)),
            None => Json::Number(number),
        },
        None => Json::Null,
    }
}

/// A floating-point result as a JSON value, null where it is not finite.
pub open spec fn plain_value(number: Option<NumberModel>) -> JsonModel {
    match number {
        Some(number) => JsonModel::Number(number),
        None => JsonModel::Null,
    }
}

/// The mean of the numbers, or nothing where it is not finite.
pub open spec fn mean_of(numbers: Seq<NumberModel>) -> Option<NumberModel> {
    match sum_of(numbers) {
        Some(total) => float_quotient(total, numbers.len() as u64),
        None => None,
    }
}

/// The reading of the extreme number, or nothing without one.
pub open spec fn extreme_reading(numbers: Seq<NumberModel>, side: Order) -> Option<NumberModel> {
    match extreme(numbers, side) {
        Some(number) => reading(number),
        None => None,
    }
}

/// A text as a JSON value, or null.
pub open spec fn text_or_null(text: Option<Seq<char>>) -> JsonModel {
    match text {
        Some(text) => JsonModel::Text(text),
        None => JsonModel::Null,
    }
}

/// A count as a JSON value.
pub open spec fn count_value(count: int) -> JsonModel {
    JsonModel::Number(NumberModel::Integer(count))
}

/// The value of a built-in summary.
pub open spec fn summary_value(
    kind: Seq<char>,
    candidates: Seq<JsonModel>,
    field: Seq<char>,
) -> JsonModel {
    let values = field_values(candidates, field);
    let numbers = numbers_among(values);
    if kind == "Average"@ {
        if numbers.len() == 0 {
            JsonModel::Null
        } else {
            rounded_value(mean_of(numbers))
        }
    } else if kind == "Sum"@ {
        if numbers.len() == 0 {
            count_value(0)
        } else if has_decimal(values) {
            plain_value(sum_of(numbers))
        } else {
            rounded_value(sum_of(numbers))
        }
    } else if kind == "Min"@ {
        rounded_value(extreme_reading(numbers, Order::Less))
    } else if kind == "Max"@ {
        rounded_value(extreme_reading(numbers, Order::Greater))
    } else if kind == "Earliest"@ {
        text_or_null(extreme_text(texts_among(values), Order::Less))
    } else if kind == "Latest"@ {
        text_or_null(extreme_text(texts_among(values), Order::Greater))
    } else if kind == "Checked"@ {
        count_value(
            count_where(values, |value: JsonModel| value == JsonModel::Bool(true)) as int,
        )
    } else if kind == "Unchecked"@ {
        count_value(
            count_where(values, |value: JsonModel| value == JsonModel::Bool(false)) as int,
        )
    } else if kind == "Empty"@ {
        count_value(
            count_where(candidates, |candidate: JsonModel| is_blank(candidate, field) == true)
                as int,
        )
    } else if kind == "Filled"@ {
        count_value(
            count_where(candidates, |candidate: JsonModel| is_blank(candidate, field) == false)
                as int,
        )
    } else if kind == "Unique"@ {
        count_value(distinct(values).len() as int)
    } else {
        JsonModel::Null
    }
}

/// Computes a built-in summary; null for a name that is none.
pub fn built_in_summary(kind: &str, candidates: &Vec<Json>, field: &str) -> (result: Json)
    ensures
        result@ == summary_value(kind@, item_models(candidates@), field@),
{
    let values = collect_values(candidates, field);
    let numbers = collect_numbers(&values);
    proof {
        assert(number_models(numbers@).len() == numbers@.len());
    }
    if same_text(kind, "Average") {
        if numbers.len() == 0 {
            Json::Null
        } else {
            let mean = match add_up(&numbers) {
                Some(total) => number_quotient(&total, numbers.len() as u64),
                None => None,
            };
            to_rounded_value(mean)
        }
    } else if same_text(kind, "Sum") {
        if numbers.len() == 0 {
            Json::unsigned(0)
        } else if any_decimal(&values) {
            match add_up(&numbers) {
                Some(total) => Json::Number(total),
                None => Json::Null,
            }
        } else {
            to_rounded_value(add_up(&numbers))
        }
    } else if same_text(kind, "Min") {
        let least = match find_extreme(&numbers, Order::Less) {
            Some(number) => read_number(&number),
            None => None,
        };
        to_rounded_value(least)
    } else if same_text(kind, "Max") {
        let greatest = match find_extreme(&numbers, Order::Greater) {
            Some(number) => read_number(&number),
            None => None,
        };
        to_rounded_value(greatest)
    } else if same_text(kind, "Earliest") {
        match find_extreme_text(&crate::json::collect_texts(&values), Order::Less) {
            Some(text) => Json::Text(text),
            None => Json::Null,
        }
    } else if same_text(kind, "Latest") {
        match find_extreme_text(&crate::json::collect_texts(&values), Order::Greater) {
            Some(text) => Json::Text(text),
            None => Json::Null,
        }
    } else if same_text(kind, "Checked") {
        Json::unsigned(count_bool(&values, true))
    } else if same_text(kind, "Unchecked") {
        Json::unsigned(count_bool(&values, false))
    } else if same_text(kind, "Empty") {
        Json::unsigned(count_blank(candidates, field, true))
    } else if same_text(kind, "Filled") {
        Json::unsigned(count_blank(candidates, field, false))
    } else if same_text(kind, "Unique") {
        Json::unsigned(count_distinct(&values) as u64)
    } else {
        Json::Null
    }
}

/// The summary of one field: the value of a custom summary where the kind
/// names one, the built-in summary otherwise.
pub open spec fn field_summary(
    candidates: Seq<JsonModel>,
    field: Seq<char>,
    kind: Seq<char>,
    customs: Seq<(Seq<char>, JsonModel)>,
    custom_values: Seq<(Seq<char>, JsonModel)>,
) -> JsonModel {
    match lookup(customs, kind) {
        Some(JsonModel::Text(_)) => or_null(lookup(custom_values, field)),
        _ => summary_value(kind, candidates, field),
    }
}

/// The summaries of the first of the requested fields.
pub open spec fn summaries_of(
    candidates: Seq<JsonModel>,
    requested: Seq<(Seq<char>, JsonModel)>,
    customs: Seq<(Seq<char>, JsonModel)>,
    custom_values: Seq<(Seq<char>, JsonModel)>,
) -> Seq<(Seq<char>, JsonModel)>
    decreases requested.len(),
{
    if requested.len() == 0 {
        Seq::empty()
    } else {
        let rest = summaries_of(candidates, requested.drop_last(), customs, custom_values);
        let (field, kind) = requested.last();
        match kind {
            JsonModel::Text(kind) => with_member(
                rest,
                field,
                field_summary(candidates, field, kind, customs, custom_values),
            ),
            _ => rest,
        }
    }
}

/// The summaries that `requested` asks for: a member's key is the field, its
/// text the kind of summary. The kinds that `customs` has as a text are custom
/// formulas, whose values for each field are in `custom_values`.
pub fn compute_summaries(
    candidates: &Vec<Json>,
    requested: &Vec<Member>,
    customs: &Vec<Member>,
    custom_values: &Vec<Member>,
) -> (result: Json)
    ensures
        result@ == JsonModel::Object(
            summaries_of(
                item_models(candidates@),
                member_models(requested@),
                member_models(customs@),
                member_models(custom_values@),
            ),
        ),
{
    broadcast use crate::json::lemma_object_model;

    let ghost all = member_models(requested@);
    let ghost models = item_models(candidates@);
    let mut members: Vec<Member> = Vec::new();
    let mut i: usize = 0;
    proof {
        assert(member_models(members@) =~= summaries_of(
            models,
            all.take(0),
            member_models(customs@),
            member_models(custom_values@),
        ));
    }
    while i < requested.len()
        invariant
            i <= requested@.len(),
            all == member_models(requested@),
            models == item_models(candidates@),
            member_models(members@) == summaries_of(
                models,
                all.take(i as int),
                member_models(customs@),
                member_models(custom_values@),
            ),
        decreases requested@.len() - i,
    {
        proof {
            assert(all.take(i + 1).drop_last() =~= all.take(i as int));
            assert(all.take(i + 1).last() == all[i as int]);
        }
        let field = requested[i].key.as_str();
        if let Some(kind) = requested[i].value.as_str() {
            let custom = match find_member(customs, kind) {
                Some(value) => value.as_str().is_some(),
                None => false,
            };
            let value = if custom {
                copy_or_null(find_member(custom_values, field))
            } else {
                built_in_summary(kind, candidates, field)
            };
            put_member(&mut members, field, value);
        }
        i = i + 1;
    }
    proof {
        assert(all.take(i as int) =~= all);
    }
    Json::Object(members)
}

} // verus!
