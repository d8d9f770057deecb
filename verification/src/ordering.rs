//! How JSON values are ordered when records are sorted.

use crate::canonical::{canonical_or_empty, canonical_text_or_empty};
use crate::json::{Json, JsonModel};
use crate::numbers::{compare_numbers, number_order};
use crate::text::{bool_order, compare_text, int_order, order_bool, order_usize, text_order, Order};
use vstd::prelude::*;

verus! {

#[derive(Clone, Copy, Debug, PartialEq, Eq, Structural)]
pub enum HostedOrderDirection {
    Ascending,
    Descending,
}

impl HostedOrderDirection {
    /// A comparison, reversed when the direction is descending.
    pub open spec fn directed(self, order: Order) -> Order {
        match self {
            HostedOrderDirection::Ascending => order,
            HostedOrderDirection::Descending => order.spec_reverse(),
        }
    }

    pub fn direct(self, order: Order) -> (result: Order)
        ensures
            result == self.directed(order),
    {
        match self {
            HostedOrderDirection::Ascending => order,
            HostedOrderDirection::Descending => order.reverse(),
        }
    }
}

/// The ascending order of two values: null comes last; numbers, texts, and
/// truth values have their natural order; arrays and objects compare by
/// length; values of unlike kinds compare as equal.
pub open spec fn value_order(left: JsonModel, right: JsonModel) -> Order {
    match (left, right) {
        (JsonModel::Null, JsonModel::Null) => Order::Equal,
        (JsonModel::Null, _) => Order::Greater,
        (_, JsonModel::Null) => Order::Less,
        (JsonModel::Number(a), JsonModel::Number(b)) => number_order(a, b),
        (JsonModel::Text(a), JsonModel::Text(b)) => text_order(a, b),
        (JsonModel::Bool(a), JsonModel::Bool(b)) => bool_order(a, b),
        (JsonModel::Array(a), JsonModel::Array(b)) => int_order(a.len() as int, b.len() as int),
        (JsonModel::Object(a), JsonModel::Object(b)) => int_order(a.len() as int, b.len() as int),
        _ => Order::Equal,
    }
}

/// Exchanging the values exchanges the result.
pub proof fn lemma_value_order_reverse(left: JsonModel, right: JsonModel)
    ensures
        value_order(right, left) == value_order(left, right).spec_reverse(),
{
    match (left, right) {
        (JsonModel::Text(a), JsonModel::Text(b)) => {
            crate::text::lemma_text_order_reverse(a, b);
        },
        _ => {},
    }
}

pub fn compare_values(left: &Json, right: &Json) -> (result: Order)
    ensures
        result == value_order(left@, right@),
{
    broadcast use {crate::json::lemma_array_model, crate::json::lemma_object_model};

    match (left, right) {
        (Json::Null, Json::Null) => Order::Equal,
        (Json::Null, _) => Order::Greater,
        (_, Json::Null) => Order::Less,
        (Json::Number(a), Json::Number(b)) => compare_numbers(a, b),
        (Json::Text(a), Json::Text(b)) => compare_text(a.as_str(), b.as_str()),
        (Json::Bool(a), Json::Bool(b)) => order_bool(*a, *b),
        (Json::Array(a), Json::Array(b)) => order_usize(a.len(), b.len()),
        (Json::Object(a), Json::Object(b)) => order_usize(a.len(), b.len()),
        _ => Order::Equal,
    }
}

/// The order of two values in one direction.
pub fn compare_hosted_values(
    left: &Json,
    right: &Json,
    direction: HostedOrderDirection,
) -> (result: Order)
    ensures
        result == direction.directed(value_order(left@, right@)),
{
    direction.direct(compare_values(left, right))
}

/// The order of two Base values: null comes last; numbers, texts, and truth
/// values have their natural order; all else compares by canonical text.
pub open spec fn base_order(left: JsonModel, right: JsonModel) -> Order {
    match (left, right) {
        (JsonModel::Null, JsonModel::Null) => Order::Equal,
        (JsonModel::Null, _) => Order::Greater,
        (_, JsonModel::Null) => Order::Less,
        (JsonModel::Number(a), JsonModel::Number(b)) => number_order(a, b),
        (JsonModel::Text(a), JsonModel::Text(b)) => text_order(a, b),
        (JsonModel::Bool(a), JsonModel::Bool(b)) => bool_order(a, b),
        _ => text_order(canonical_or_empty(left), canonical_or_empty(right)),
    }
}

/// Exchanging the values exchanges the result.
pub proof fn lemma_base_order_reverse(left: JsonModel, right: JsonModel)
    ensures
        base_order(right, left) == base_order(left, right).spec_reverse(),
{
    match (left, right) {
        (JsonModel::Text(a), JsonModel::Text(b)) => {
            crate::text::lemma_text_order_reverse(a, b);
        },
        _ => {
            crate::text::lemma_text_order_reverse(
                canonical_or_empty(left),
                canonical_or_empty(right),
            );
        },
    }
}

pub fn compare_base_values(left: &Json, right: &Json) -> (result: Order)
    ensures
        result == base_order(left@, right@),
{
    match (left, right) {
        (Json::Null, Json::Null) => Order::Equal,
        (Json::Null, _) => Order::Greater,
        (_, Json::Null) => Order::Less,
        (Json::Number(a), Json::Number(b)) => compare_numbers(a, b),
        (Json::Text(a), Json::Text(b)) => compare_text(a.as_str(), b.as_str()),
        (Json::Bool(a), Json::Bool(b)) => order_bool(*a, *b),
        _ => compare_text(
            canonical_text_or_empty(left).as_str(),
            canonical_text_or_empty(right).as_str(),
        ),
    }
}

} // verus!
