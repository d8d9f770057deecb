//! The binary floating-point reading of JSON numbers, behind integer images.

use crate::json::{Json, JsonModel, JsonNumber, NumberModel};
use crate::text::{int_order, Order};
use vstd::prelude::*;

verus! {

/// `serde_json::Number`: carried from one call to the next, with nothing claimed of
/// what it holds.
#[verifier::external_type_specification]
#[verifier::external_body]
pub struct ExNumber(serde_json::Number);

/// `serde_json::Number::from` for integers and `serde_json::Number::from_f64`
/// for decimals: turns a number into that crate's form. A notation that is no
/// finite decimal becomes zero.
#[verifier::external_body]
pub(crate) fn outside_number(number: &JsonNumber) -> serde_json::Number {
    match number {
        JsonNumber::Unsigned(value) => serde_json::Number::from(*value),
        JsonNumber::Negative(value) => serde_json::Number::from(*value),
        JsonNumber::Decimal(value) => value.parse().ok().and_then(
            serde_json::Number::from_f64,
        ).unwrap_or_else(|| serde_json::Number::from(0u8)),
    }
}

/// The bits of the binary floating-point reading of a number.
pub uninterp spec fn float_bits(number: NumberModel) -> u64;

/// The floating-point sum of two numbers; nothing where it is not finite.
pub uninterp spec fn float_sum(left: NumberModel, right: NumberModel) -> Option<NumberModel>;

/// The floating-point quotient of a number and a count; nothing where it is
/// not finite.
pub uninterp spec fn float_quotient(total: NumberModel, count: u64) -> Option<NumberModel>;

/// The nearest whole number to the floating-point reading, in decimal notation.
pub uninterp spec fn rounded_text(number: NumberModel) -> Seq<char>;

/// `serde_json::Number::as_f64`: the bits depend on the number alone.
#[verifier::external_body]
pub(crate) fn number_bits(number: &JsonNumber) -> (result: u64)
    ensures
        result == float_bits(number@),
{
    outside_number(number).as_f64().unwrap_or_default().to_bits()
}

/// `serde_json::Number::from_f64` on the sum of two `as_f64` readings: the
/// result depends on the two numbers alone, and is a decimal.
#[verifier::external_body]
pub(crate) fn number_sum(left: &JsonNumber, right: &JsonNumber) -> (result: Option<JsonNumber>)
    ensures
        match result {
            Some(number) => float_sum(left@, right@) == Some(number@),
            None => float_sum(left@, right@) is None,
        },
{
    let left = outside_number(left).as_f64().unwrap_or_default();
    let right = outside_number(right).as_f64().unwrap_or_default();
    serde_json::Number::from_f64(left + right).map(|sum| JsonNumber::Decimal(sum.to_string()))
}

/// `serde_json::Number::from_f64` on the quotient of two `as_f64` readings:
/// the result depends on the number and the count alone.
#[verifier::external_body]
pub(crate) fn number_quotient(total: &JsonNumber, count: u64) -> (result: Option<JsonNumber>)
    ensures
        match result {
            Some(number) => float_quotient(total@, count) == Some(number@),
            None => float_quotient(total@, count) is None,
        },
{
    let total = outside_number(total).as_f64().unwrap_or_default();
    let count = serde_json::Number::from(count).as_f64().unwrap_or_default();
    serde_json::Number::from_f64(total / count).map(|mean| JsonNumber::Decimal(mean.to_string()))
}

/// Formatting an `as_f64` reading without fraction digits: the text depends on
/// the number alone.
#[verifier::external_body]
pub(crate) fn whole_text(number: &JsonNumber) -> (result: String)
    ensures
        result@ == rounded_text(number@),
{
    format!("{:.0}", outside_number(number).as_f64().unwrap_or_default())
}

/// An integer that orders finite floating-point bits as their values are
/// ordered; both zeros have the same.
pub open spec fn bits_key(bits: u64) -> int {
    if bits < 0x8000_0000_0000_0000 {
        bits as int
    } else {
        0x8000_0000_0000_0000 - bits as int
    }
}

/// An integer that orders numbers by their floating-point readings.
pub open spec fn number_key(number: NumberModel) -> int {
    bits_key(float_bits(number))
}

/// The order of two numbers by their floating-point readings.
pub open spec fn number_order(left: NumberModel, right: NumberModel) -> Order {
    int_order(number_key(left), number_key(right))
}

fn order_bits(left: u64, right: u64) -> (result: Order)
    ensures
        result == int_order(bits_key(left), bits_key(right)),
{
    let sign: u64 = 0x8000_0000_0000_0000;
    if left < sign && right < sign {
        crate::text::order_u64(left, right)
    } else if left >= sign && right >= sign {
        crate::text::order_u64(right, left)
    } else if left < sign {
        if left == 0 && right == sign {
            Order::Equal
        } else {
            Order::Greater
        }
    } else {
        if left == sign && right == 0 {
            Order::Equal
        } else {
            Order::Less
        }
    }
}

pub fn compare_numbers(left: &JsonNumber, right: &JsonNumber) -> (result: Order)
    ensures
        result == number_order(left@, right@),
{
    order_bits(number_bits(left), number_bits(right))
}

/// The value of the first digits of a text, as long as it stays in range.
pub open spec fn digits_value(digits: Seq<char>) -> Option<int>
    decreases digits.len(),
{
    if digits.len() == 0 {
        Some(0)
    } else if '0' <= digits.last() <= '9' {
        match digits_value(digits.drop_last()) {
            Some(value) => Some(value * 10 + (digits.last() as int - '0' as int)),
            None => None,
        }
    } else {
        None
    }
}

/// The integer that a decimal notation with an optional minus sign denotes.
pub open spec fn integer_value(text: Seq<char>) -> Option<int> {
    if text.len() > 0 && text[0] == '-' {
        match digits_value(text.drop_first()) {
            Some(value) => Some(-value),
            None => None,
        }
    } else {
        digits_value(text)
    }
}

/// Two to the power of 63.
pub open spec fn limit() -> int {
    0x8000_0000_0000_0000
}

proof fn lemma_digits_prefix(digits: Seq<char>, count: int)
    requires
        0 <= count <= digits.len(),
        digits_value(digits) is Some,
    ensures
        digits_value(digits.take(count)) is Some,
        0 <= digits_value(digits.take(count))->0 <= digits_value(digits)->0,
    decreases digits.len(),
{
    if count < digits.len() {
        lemma_digits_prefix(digits.drop_last(), count);
        assert(digits.drop_last().take(count) =~= digits.take(count));
    } else {
        assert(digits.take(count) =~= digits);
        if digits.len() > 0 {
            lemma_digits_prefix(digits.drop_last(), digits.len() - 1);
            assert(digits.drop_last().take(digits.len() - 1) =~= digits.drop_last());
        }
    }
}

/// The value of digits up to two to the power of 63.
fn parse_digits(chars: &Vec<char>, from: usize) -> (result: Option<u64>)
    requires
        from <= chars@.len(),
    ensures
        match result {
            Some(value) => digits_value(chars@.skip(from as int)) == Some(value as int) && value
                <= limit(),
            None => digits_value(chars@.skip(from as int)) is Some ==> digits_value(
                chars@.skip(from as int),
            )->0 > limit(),
        },
{
    let ghost digits = chars@.skip(from as int);
    let mut value: u64 = 0;
    let mut i: usize = from;
    while i < chars.len()
        invariant
            from <= i <= chars@.len(),
            digits == chars@.skip(from as int),
            digits_value(digits.take(i - from)) == Some(value as int),
            value <= limit(),
        decreases chars@.len() - i,
    {
        let c = chars[i];
        proof {
            assert(digits.take(i - from + 1).drop_last() =~= digits.take(i - from));
            assert(digits.take(i - from + 1).last() == c);
            if digits_value(digits) is Some {
                lemma_digits_prefix(digits, i - from + 1);
            }
        }
        if !('0' <= c && c <= '9') {
            return None;
        }
        let digit = (c as u8 - 48u8) as u64;
        if value > 922337203685477580 || (value == 922337203685477580 && digit > 8) {
            return None;
        }
        value = value * 10 + digit;
        i = i + 1;
    }
    proof {
        assert(digits.take(i - from) =~= digits);
    }
    Some(value)
}

/// The integer with the same floating-point reading as a number, if there is
/// one of at most two to the power of 63 in size.
pub open spec fn whole_value(number: NumberModel) -> Option<int> {
    match integer_value(rounded_text(number)) {
        Some(value) => if -limit() <= value <= limit() && number_key(NumberModel::Integer(value))
            == number_key(number) {
            Some(value)
        } else {
            None
        },
        None => None,
    }
}

/// The whole value as an integer of 64 bits; the one that is too large by one
/// is taken down to the largest.
pub open spec fn integral_value(number: NumberModel) -> Option<int> {
    match whole_value(number) {
        Some(value) => Some(
            if value == limit() {
                limit() - 1
            } else {
                value
            },
        ),
        None => None,
    }
}

/// The whole value where it is less than two to the power of 63 in size.
pub open spec fn inner_whole_value(number: NumberModel) -> Option<int> {
    match whole_value(number) {
        Some(value) => if -limit() < value < limit() {
            Some(value)
        } else {
            None
        },
        None => None,
    }
}

/// A number, as an integer where its floating-point reading is one.
pub open spec fn shortest_number(number: NumberModel) -> NumberModel {
    match integral_value(number) {
        Some(value) => NumberModel::Integer(value),
        None => number,
    }
}

fn whole(number: &JsonNumber) -> (result: Option<i128>)
    ensures
        match result {
            Some(value) => whole_value(number@) == Some(value as int) && -limit() <= value
                <= limit(),
            None => whole_value(number@) is None,
        },
{
    let text = whole_text(number);
    let chars = crate::text::chars_of(text.as_str());
    let negative = chars.len() > 0 && chars[0] == '-';
    let start: usize = if negative {
        1
    } else {
        0
    };
    proof {
        assert(chars@.skip(0) =~= chars@);
        if negative {
            assert(chars@.skip(1) =~= chars@.drop_first());
        }
    }
    match parse_digits(&chars, start) {
        None => None,
        Some(magnitude) => {
            let bound: u64 = 0x8000_0000_0000_0000;
            let same = if !negative {
                JsonNumber::Unsigned(magnitude)
            } else if magnitude == bound {
                JsonNumber::Negative(i64::MIN)
            } else {
                JsonNumber::Negative(-(magnitude as i64))
            };
            if !compare_numbers(&same, number).is_eq() {
                return None;
            }
            if negative {
                Some(-(magnitude as i128))
            } else {
                Some(magnitude as i128)
            }
        },
    }
}

/// The integer of 64 bits with the same floating-point reading, if there is one.
pub fn integral(number: &JsonNumber) -> (result: Option<i64>)
    ensures
        match result {
            Some(value) => integral_value(number@) == Some(value as int),
            None => integral_value(number@) is None,
        },
{
    match whole(number) {
        Some(value) => if value == 0x8000_0000_0000_0000 {
            Some(i64::MAX)
        } else {
            Some(value as i64)
        },
        None => None,
    }
}

/// The integer with the same floating-point reading, if there is one well
/// within 64 bits.
pub fn inner_integral(number: &JsonNumber) -> (result: Option<i64>)
    ensures
        match result {
            Some(value) => inner_whole_value(number@) == Some(value as int),
            None => inner_whole_value(number@) is None,
        },
{
    match whole(number) {
        Some(value) => if -0x8000_0000_0000_0000 < value && value < 0x8000_0000_0000_0000 {
            Some(value as i64)
        } else {
            None
        },
        None => None,
    }
}

/// An integer as a JSON number.
pub fn signed_number(value: i64) -> (result: JsonNumber)
    ensures
        result@ == NumberModel::Integer(value as int),
{
    if value >= 0 {
        JsonNumber::Unsigned(value as u64)
    } else {
        JsonNumber::Negative(value)
    }
}

/// A JSON value for a floating-point result, as an integer where it is one;
/// null where the result is not finite.
pub open spec fn number_value_model(number: Option<NumberModel>) -> JsonModel {
    match number {
        Some(number) => JsonModel::Number(shortest_number(number)),
        None => JsonModel::Null,
    }
}

pub fn hosted_number_value(number: Option<JsonNumber>) -> (result: Json)
    ensures
        result@ == number_value_model(optional_number(number)),
{
    match number {
        None => Json::Null,
        Some(number) => match integral(&number) {
            Some(value) => Json::Number(signed_number(value)),
            None => Json::Number(number),
        },
    }
}

/// The floating-point reading of a number, as a decimal.
pub open spec fn reading(number: NumberModel) -> Option<NumberModel> {
    float_sum(NumberModel::Integer(0), number)
}

/// The floating-point reading of a number, as a decimal.
pub fn read_number(number: &JsonNumber) -> (result: Option<JsonNumber>)
    ensures
        match result {
            Some(value) => reading(number@) == Some(value@),
            None => reading(number@) is None,
        },
{
    number_sum(&JsonNumber::Unsigned(0), number)
}

/// What an optional number holds.
pub open spec fn optional_number(number: Option<JsonNumber>) -> Option<NumberModel> {
    match number {
        Some(number) => Some(number@),
        None => None,
    }
}

} // verus!
