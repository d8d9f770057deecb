//! What the comparisons of values mean.

use crate::json::{
    lemma_lookup_with_member, lists_value, lookup, same_json, same_number, with_member, JsonModel,
    NumberModel,
};
use crate::numbers::{float_bits, number_order};
use crate::ordering::{base_order, value_order, HostedOrderDirection};
use crate::text::{
    ascii_lower, bool_order, has_part, has_prefix, has_suffix, int_order, lemma_text_order_equal,
    same_ignoring_case, split_on, stands_at, text_order, Order,
};
use vstd::prelude::*;

verus! {

// ---------------------------------------------------------------------------
// Texts
// ---------------------------------------------------------------------------
/// Whether two texts agree in their first characters, and the first then ends or goes
/// on with a smaller character.
pub open spec fn first_differs_at(left: Seq<char>, right: Seq<char>, at: int) -> bool {
    &&& 0 <= at <= left.len()
    &&& at < right.len()
    &&& left.take(at) == right.take(at)
    &&& at < left.len() ==> left[at] < right[at]
}

/// Whether a text comes before another in a dictionary.
#[verifier::opaque]
pub open spec fn stands_before(left: Seq<char>, right: Seq<char>) -> bool {
    exists|at: int| first_differs_at(left, right, at)
}

/// Whether a text is another with something before and something after it.
#[verifier::opaque]
pub open spec fn is_within(part: Seq<char>, whole: Seq<char>) -> bool {
    exists|before: Seq<char>, after: Seq<char>| whole == #[trigger] (before + part + after)
}

/// A text comes before another exactly where it is a beginning of it, or has the
/// smaller character at the first place where they differ. It comes after exactly
/// where the other comes before it, and the two are equal where neither does.
pub proof fn lemma_texts_stand_in_dictionary_order(left: Seq<char>, right: Seq<char>)
    ensures
        text_order(left, right) == Order::Less <==> stands_before(left, right),
        text_order(left, right) == Order::Greater <==> stands_before(right, left),
        text_order(left, right) == Order::Equal <==> left == right,
    decreases left.len(),
{
    reveal(stands_before);
    lemma_text_order_equal(left, right);
    if left.len() == 0 {
        if right.len() > 0 {
            assert(left.take(0) =~= right.take(0));
            assert(first_differs_at(left, right, 0));
        }
        assert forall|at: int| !first_differs_at(right, left, at) by {}
    } else if right.len() == 0 {
        assert(left.take(0) =~= right.take(0));
        assert(first_differs_at(right, left, 0));
        assert forall|at: int| !first_differs_at(left, right, at) by {}
    } else {
        let a = left.drop_first();
        let b = right.drop_first();
        lemma_texts_stand_in_dictionary_order(a, b);
        assert(left.take(0) =~= right.take(0));
        if left[0] < right[0] {
            assert(first_differs_at(left, right, 0));
            assert forall|at: int| !first_differs_at(right, left, at) by {
                if first_differs_at(right, left, at) && at > 0 {
                    assert(right.take(at)[0] == left.take(at)[0]);
                }
            }
        } else if right[0] < left[0] {
            assert(first_differs_at(right, left, 0));
            assert forall|at: int| !first_differs_at(left, right, at) by {
                if first_differs_at(left, right, at) && at > 0 {
                    assert(left.take(at)[0] == right.take(at)[0]);
                }
            }
        } else {
            lemma_shifted_difference(left, right);
            lemma_shifted_difference(right, left);
        }
    }
}

proof fn lemma_shifted_difference(left: Seq<char>, right: Seq<char>)
    requires
        left.len() > 0,
        right.len() > 0,
        left[0] == right[0],
    ensures
        (exists|at: int| first_differs_at(left, right, at)) <==> (exists|at: int|
            first_differs_at(left.drop_first(), right.drop_first(), at)),
{
    let a = left.drop_first();
    let b = right.drop_first();
    if exists|at: int| first_differs_at(left, right, at) {
        let at = choose|at: int| first_differs_at(left, right, at);
        assert(at > 0);
        assert(a.take(at - 1) =~= left.take(at).drop_first());
        assert(b.take(at - 1) =~= right.take(at).drop_first());
        assert(first_differs_at(a, b, at - 1));
    }
    if exists|at: int| first_differs_at(a, b, at) {
        let at = choose|at: int| first_differs_at(a, b, at);
        assert(left.take(at + 1) =~= seq![left[0]] + a.take(at));
        assert(right.take(at + 1) =~= seq![right[0]] + b.take(at));
        assert(first_differs_at(left, right, at + 1));
    }
}

/// A text has a part exactly where it is that part with something before and
/// something after it.
pub proof fn lemma_parts_of_texts(value: Seq<char>, part: Seq<char>)
    ensures
        has_part(value, part) <==> is_within(part, value),
{
    reveal(is_within);
    if has_part(value, part) {
        let at = choose|at: int| stands_at(value, part, at);
        assert(value =~= value.take(at) + part + value.skip(at + part.len()));
    }
    if is_within(part, value) {
        let (before, after) = choose|before: Seq<char>, after: Seq<char>|
            value == #[trigger] (before + part + after);
        assert(value.subrange(before.len() as int, (before.len() + part.len()) as int) =~= part);
        assert(stands_at(value, part, before.len() as int));
    }
}

/// A text has a beginning or an end exactly where it is that with something after it
/// or before it.
pub proof fn lemma_ends_of_texts(value: Seq<char>, part: Seq<char>)
    ensures
        has_prefix(value, part) <==> exists|after: Seq<char>| value == #[trigger] (part + after),
        has_suffix(value, part) <==> exists|before: Seq<char>| value == #[trigger] (before + part),
{
    if has_prefix(value, part) {
        assert(value =~= part + value.skip(part.len() as int));
    }
    if exists|after: Seq<char>| value == #[trigger] (part + after) {
        let after = choose|after: Seq<char>| value == #[trigger] (part + after);
        assert(value.subrange(0, part.len() as int) =~= part);
    }
    if has_suffix(value, part) {
        assert(value =~= value.take(value.len() - part.len()) + part);
    }
    if exists|before: Seq<char>| value == #[trigger] (before + part) {
        let before = choose|before: Seq<char>| value == #[trigger] (before + part);
        assert(value.subrange(value.len() - part.len(), value.len() as int) =~= part);
    }
}

/// Texts are the same up to the case of letters exactly where they have one length
/// and, place by place, one character or one letter of the alphabet in its two cases.
pub proof fn lemma_case_of_letters(left: Seq<char>, right: Seq<char>)
    ensures
        same_ignoring_case(left, right) <==> left.len() == right.len() && forall|i: int|
            0 <= i < left.len() ==> {
                ||| #[trigger] left[i] == right[i]
                ||| 'A' <= left[i] <= 'Z' && right[i] as int == left[i] as int + 32
                ||| 'A' <= right[i] <= 'Z' && left[i] as int == right[i] as int + 32
            },
{
    let a = ascii_lower(left);
    let b = ascii_lower(right);
    if same_ignoring_case(left, right) {
        assert(a.len() == b.len());
        assert forall|i: int| 0 <= i < left.len() implies {
            ||| #[trigger] left[i] == right[i]
            ||| 'A' <= left[i] <= 'Z' && right[i] as int == left[i] as int + 32
            ||| 'A' <= right[i] <= 'Z' && left[i] as int == right[i] as int + 32
        } by {
            assert(a[i] == b[i]);
        }
    }
    if left.len() == right.len() && forall|i: int|
        0 <= i < left.len() ==> {
            ||| #[trigger] left[i] == right[i]
            ||| 'A' <= left[i] <= 'Z' && right[i] as int == left[i] as int + 32
            ||| 'A' <= right[i] <= 'Z' && left[i] as int == right[i] as int + 32
        } {
        assert forall|i: int| 0 <= i < left.len() implies a[i] == b[i] by {
            assert(left[i] == left[i]);
        }
        assert(a =~= b);
    }
}

/// The parts of a text, with the separator between them.
pub open spec fn joined_by(parts: Seq<Seq<char>>, separator: char) -> Seq<char>
    decreases parts.len(),
{
    if parts.len() == 0 {
        Seq::empty()
    } else if parts.len() == 1 {
        parts[0]
    } else {
        joined_by(parts.drop_last(), separator) + seq![separator] + parts.last()
    }
}

/// Splitting a text gives the parts that, with the separator between them, are the
/// text again, and no part holds the separator.
pub proof fn lemma_split_parts(value: Seq<char>, separator: char)
    ensures
        split_on(value, separator).len() >= 1,
        joined_by(split_on(value, separator), separator) == value,
        forall|i: int|
            0 <= i < split_on(value, separator).len() ==> !(#[trigger] split_on(
                value,
                separator,
            )[i]).contains(separator),
    decreases value.len(),
{
    let parts = split_on(value, separator);
    if value.len() > 0 {
        let front = value.drop_last();
        let rest = split_on(front, separator);
        lemma_split_parts(front, separator);
        assert(value =~= front.push(value.last()));
        if value.last() == separator {
            assert(parts.drop_last() =~= rest);
            assert(joined_by(parts, separator) =~= value);
        } else {
            assert(parts.drop_last() =~= rest.drop_last());
            assert(joined_by(parts, separator) =~= value);
            assert forall|i: int| 0 <= i < parts.len() implies !(#[trigger] parts[i]).contains(
                separator,
            ) by {
                if i < rest.len() - 1 {
                    assert(parts[i] == rest[i]);
                } else {
                    let last = rest[rest.len() - 1];
                    assert(!last.contains(separator));
                    if parts[i].contains(separator) {
                        let k = choose|k: int|
                            0 <= k < parts[i].len() && parts[i][k] == separator;
                        assert(last[k] == separator);
                    }
                }
            }
        }
    } else {
        assert(joined_by(parts, separator) =~= value);
    }
}

// ---------------------------------------------------------------------------
// Numbers
// ---------------------------------------------------------------------------
/// Numbers stand in the order of their floating-point readings: those with a clear
/// sign bit by their bits, those with a set sign bit by their bits in reverse, and the
/// second before the first unless both are zero.
pub proof fn lemma_numbers_stand_in_order(left: NumberModel, right: NumberModel)
    ensures
        ({
            let a = float_bits(left) as int;
            let b = float_bits(right) as int;
            let sign: int = 0x8000_0000_0000_0000;
            let order = number_order(left, right);
            &&& a < sign && b < sign ==> {
                &&& order == Order::Less <==> a < b
                &&& order == Order::Greater <==> a > b
            }
            &&& a >= sign && b >= sign ==> {
                &&& order == Order::Less <==> a > b
                &&& order == Order::Greater <==> a < b
            }
            &&& a >= sign && b < sign ==> {
                &&& order == Order::Less <==> a > sign || b > 0
                &&& order != Order::Greater
            }
            &&& a < sign && b >= sign ==> {
                &&& order == Order::Greater <==> b > sign || a > 0
                &&& order != Order::Less
            }
        }),
        number_order(left, left) == Order::Equal,
{
}

/// Whole numbers and truth values stand in their natural order.
pub proof fn lemma_natural_order(left: int, right: int)
    ensures
        int_order(left, right) == Order::Less <==> left < right,
        int_order(left, right) == Order::Greater <==> left > right,
        int_order(left, right) == Order::Equal <==> left == right,
        bool_order(false, true) == Order::Less,
        bool_order(true, false) == Order::Greater,
        bool_order(true, true) == Order::Equal,
        bool_order(false, false) == Order::Equal,
{
}

// ---------------------------------------------------------------------------
// Equality
// ---------------------------------------------------------------------------
/// Whether no number in a value has a fraction or an exponent.
pub open spec fn has_no_decimals(value: JsonModel) -> bool
    decreases value,
{
    match value {
        JsonModel::Number(NumberModel::Decimal(_)) => false,
        JsonModel::Array(items) => forall|i: int|
            0 <= i < items.len() ==> has_no_decimals(#[trigger] items[i]),
        JsonModel::Object(members) => forall|i: int|
            0 <= i < members.len() ==> has_no_decimals((#[trigger] members[i]).1),
        _ => true,
    }
}

/// Values are the same exactly where they are equal; of numbers with a fraction the
/// two zeros are the same too, and nothing else that is written differently.
pub proof fn lemma_same_values(left: JsonModel, right: JsonModel)
    ensures
        left == right ==> same_json(left, right),
        has_no_decimals(left) && same_json(left, right) ==> left == right,
    decreases left,
{
    match (left, right) {
        (JsonModel::Array(a), JsonModel::Array(b)) => {
            if left == right {
                assert forall|i: int| 0 <= i < a.len() implies same_json(#[trigger] a[i], b[i]) by {
                    lemma_same_values(a[i], b[i]);
                }
            }
            if has_no_decimals(left) && same_json(left, right) {
                assert forall|i: int| 0 <= i < a.len() implies a[i] == b[i] by {
                    assert(same_json(a[i], b[i]));
                    lemma_same_values(a[i], b[i]);
                }
                assert(a =~= b);
            }
        },
        (JsonModel::Object(a), JsonModel::Object(b)) => {
            if left == right {
                assert forall|i: int| 0 <= i < a.len() implies (#[trigger] a[i]).0 == b[i].0
                    && same_json(a[i].1, b[i].1) by {
                    lemma_same_values(a[i].1, b[i].1);
                }
            }
            if has_no_decimals(left) && same_json(left, right) {
                assert forall|i: int| 0 <= i < a.len() implies a[i] == b[i] by {
                    assert(a[i].0 == b[i].0 && same_json(a[i].1, b[i].1));
                    lemma_same_values(a[i].1, b[i].1);
                }
                assert(a =~= b);
            }
        },
        _ => {},
    }
}

/// Numbers with a fraction are the same where they are written alike, or both are
/// zero.
pub proof fn lemma_same_decimals(left: Seq<char>, right: Seq<char>)
    ensures
        same_number(NumberModel::Decimal(left), NumberModel::Decimal(right)) <==> left == right || (
        (left == "0.0"@ || left == "-0.0"@) && (right == "0.0"@ || right == "-0.0"@)),
{
}

/// A list holds a value exactly where one of its items is the same; a list of texts
/// holds a text exactly where it is among them.
pub proof fn lemma_listed_values(items: Seq<JsonModel>, value: JsonModel)
    ensures
        items.contains(value) ==> lists_value(items, value),
        has_no_decimals(value) ==> (lists_value(items, value) <==> items.contains(value)),
{
    if items.contains(value) {
        let i = choose|i: int| 0 <= i < items.len() && items[i] == value;
        lemma_same_values(items[i], value);
    }
    if lists_value(items, value) && has_no_decimals(value) {
        let i = choose|i: int| 0 <= i < items.len() && same_json(#[trigger] items[i], value);
        crate::json::lemma_same_json_symmetric(items[i], value);
        lemma_same_values(value, items[i]);
    }
}

// ---------------------------------------------------------------------------
// Order of values
// ---------------------------------------------------------------------------
/// Null comes after every other value. Texts, numbers, and truth values stand in
/// their own order, in queries and in Bases alike.
pub proof fn lemma_values_stand_in_order(left: JsonModel, right: JsonModel)
    ensures
        left is Null && !(right is Null) ==> value_order(left, right) == Order::Greater
            && base_order(left, right) == Order::Greater,
        !(left is Null) && right is Null ==> value_order(left, right) == Order::Less && base_order(
            left,
            right,
        ) == Order::Less,
        left is Null && right is Null ==> value_order(left, right) == Order::Equal && base_order(
            left,
            right,
        ) == Order::Equal,
        left is Text && right is Text ==> value_order(left, right) == text_order(
            left->Text_0,
            right->Text_0,
        ) && base_order(left, right) == text_order(left->Text_0, right->Text_0),
        left is Number && right is Number ==> value_order(left, right) == number_order(
            left->Number_0,
            right->Number_0,
        ) && base_order(left, right) == number_order(left->Number_0, right->Number_0),
        left is Bool && right is Bool ==> {
            &&& value_order(left, right) == Order::Less <==> !left->Bool_0 && right->Bool_0
            &&& value_order(left, right) == Order::Greater <==> left->Bool_0 && !right->Bool_0
            &&& base_order(left, right) == value_order(left, right)
        },
        left is Array && right is Array ==> {
            &&& value_order(left, right) == Order::Less <==> left->Array_0.len()
                < right->Array_0.len()
            &&& value_order(left, right) == Order::Greater <==> left->Array_0.len()
                > right->Array_0.len()
        },
{
}

/// A descending direction reverses an order and an ascending one keeps it.
pub proof fn lemma_directions(order: Order)
    ensures
        HostedOrderDirection::Ascending.directed(order) == order,
        HostedOrderDirection::Descending.directed(order) == Order::Less <==> order
            == Order::Greater,
        HostedOrderDirection::Descending.directed(order) == Order::Greater <==> order
            == Order::Less,
{
}

// ---------------------------------------------------------------------------
// Members
// ---------------------------------------------------------------------------
/// A member that was put into an object is found there, and every other key finds what it
/// found before.
pub proof fn lemma_members()
    ensures
        forall|m: Seq<(Seq<char>, JsonModel)>,
            key: Seq<char>,
            value: JsonModel,
            other: Seq<char>,| #[trigger]
            lookup(with_member(m, key, value), other) == if other == key {
                Some(value)
            } else {
                lookup(m, other)
            },
{
    assert forall|m: Seq<(Seq<char>, JsonModel)>, key: Seq<char>, value: JsonModel, other: Seq<char>|
        #[trigger] lookup(with_member(m, key, value), other) == if other == key {
            Some(value)
        } else {
            lookup(m, other)
        } by {
        lemma_lookup_with_member(m, key, value, other);
    }
}

} // verus!
