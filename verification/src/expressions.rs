//! The expression tree, and what can be read off it without evaluating it.

use crate::json::{Json, JsonModel, JsonNumber, NumberModel};
use crate::numbers::{compare_numbers, number_order};
use crate::text::{same_text, Order};
use vstd::prelude::*;
use vstd::string::StringExecFns;

verus! {

#[derive(Clone, Copy, Debug, PartialEq, Eq, Structural)]
pub enum BinOp {
    Add,
    Sub,
    Mul,
    Div,
    Mod,
    Eq,
    Neq,
    Lt,
    Gt,
    Lte,
    Gte,
    And,
    Or,
    In,
}

#[derive(Clone, Copy, Debug, PartialEq, Eq, Structural)]
pub enum UnaryOp {
    Not,
    Neg,
}

/// A parsed expression. Numbers are finite.
#[derive(Debug)]
pub enum Expr {
    Null,
    Bool(bool),
    Number(JsonNumber),
    Str(String),
    Ident(String),
    Dot(Box<Expr>, String),
    Index(Box<Expr>, Box<Expr>),
    BinOp(Box<Expr>, BinOp, Box<Expr>),
    UnaryOp(UnaryOp, Box<Expr>),
    NullCoalesce(Box<Expr>, Box<Expr>),
    Call(Box<Expr>, Vec<Expr>),
    Conditional(Box<Expr>, Box<Expr>, Box<Expr>),
    Array(Vec<Expr>),
}

/// Whether an expression is one identifier.
pub open spec fn is_ident(expression: Expr, name: Seq<char>) -> bool {
    match expression {
        Expr::Ident(actual) => actual@ == name,
        _ => false,
    }
}

/// Whether an expression selects a field with this name.
pub open spec fn selects(expression: Expr, name: Seq<char>) -> bool {
    match expression {
        Expr::Dot(_, field) => field@ == name,
        _ => false,
    }
}

fn ident_is(expression: &Expr, name: &str) -> (result: bool)
    ensures
        result == is_ident(*expression, name@),
{
    match expression {
        Expr::Ident(actual) => same_text(actual.as_str(), name),
        _ => false,
    }
}

fn selects_field(expression: &Expr, name: &str) -> (result: bool)
    ensures
        result == selects(*expression, name@),
{
    match expression {
        Expr::Dot(_, field) => same_text(field.as_str(), name),
        _ => false,
    }
}

/// Whether evaluating an expression may follow links between records: it
/// reads `file.backlinks` or calls a method `asFile`.
pub open spec fn uses_link_graph(expression: Expr) -> bool
    decreases expression,
{
    match expression {
        Expr::Dot(object, field) => (field@ == "backlinks"@ && is_ident(*object, "file"@))
            || uses_link_graph(*object),
        Expr::Index(object, index) => uses_link_graph(*object) || uses_link_graph(*index),
        Expr::BinOp(left, _, right) => uses_link_graph(*left) || uses_link_graph(*right),
        Expr::UnaryOp(_, inner) => uses_link_graph(*inner),
        Expr::NullCoalesce(left, right) => uses_link_graph(*left) || uses_link_graph(*right),
        Expr::Call(function, arguments) => selects(*function, "asFile"@) || uses_link_graph(
            *function,
        ) || exists|i: int| 0 <= i < arguments@.len() && uses_link_graph(#[trigger] arguments@[i]),
        Expr::Conditional(condition, positive, negative) => uses_link_graph(*condition)
            || uses_link_graph(*positive) || uses_link_graph(*negative),
        Expr::Array(items) => exists|i: int|
            0 <= i < items@.len() && uses_link_graph(#[trigger] items@[i]),
        _ => false,
    }
}

pub fn expr_uses_link_graph(expression: &Expr) -> (result: bool)
    ensures
        result == uses_link_graph(*expression),
    decreases expression,
{
    match expression {
        Expr::Dot(object, field) => {
            (same_text(field.as_str(), "backlinks") && ident_is(object, "file"))
                || expr_uses_link_graph(object)
        },
        Expr::Index(object, index) => expr_uses_link_graph(object) || expr_uses_link_graph(index),
        Expr::BinOp(left, _, right) => expr_uses_link_graph(left) || expr_uses_link_graph(right),
        Expr::UnaryOp(_, inner) => expr_uses_link_graph(inner),
        Expr::NullCoalesce(left, right) => {
            expr_uses_link_graph(left) || expr_uses_link_graph(right)
        },
        Expr::Call(function, arguments) => {
            selects_field(function, "asFile") || expr_uses_link_graph(function)
                || any_uses_link_graph(arguments)
        },
        Expr::Conditional(condition, positive, negative) => {
            expr_uses_link_graph(condition) || expr_uses_link_graph(positive)
                || expr_uses_link_graph(negative)
        },
        Expr::Array(items) => any_uses_link_graph(items),
        _ => false,
    }
}

fn any_uses_link_graph(items: &Vec<Expr>) -> (result: bool)
    ensures
        result == exists|i: int| 0 <= i < items@.len() && uses_link_graph(#[trigger] items@[i]),
    decreases items,
{
    let mut i: usize = 0;
    while i < items.len()
        invariant
            i <= items@.len(),
            forall|k: int| 0 <= k < i ==> !uses_link_graph(#[trigger] items@[k]),
        decreases items@.len() - i,
    {
        if expr_uses_link_graph(&items[i]) {
            return true;
        }
        i = i + 1;
    }
    false
}

/// The dotted path that an expression spells, if it spells one.
pub open spec fn path_of(expression: Expr) -> Option<Seq<char>>
    decreases expression,
{
    match expression {
        Expr::Ident(name) => Some(name@),
        Expr::Dot(parent, field) => match path_of(*parent) {
            Some(path) => Some(path + "."@ + field@),
            None => None,
        },
        Expr::Index(parent, index) => match *index {
            Expr::Str(field) => match path_of(*parent) {
                Some(path) => Some(path + "."@ + field@),
                None => None,
            },
            _ => None,
        },
        _ => None,
    }
}

pub fn expression_path(expression: &Expr) -> (result: Option<String>)
    ensures
        match result {
            Some(path) => path_of(*expression) == Some(path@),
            None => path_of(*expression) is None,
        },
    decreases expression,
{
    match expression {
        Expr::Ident(name) => Some(name.clone()),
        Expr::Dot(parent, field) => match expression_path(parent) {
            Some(path) => Some(path.concat(".").concat(field.as_str())),
            None => None,
        },
        Expr::Index(parent, index) => match &**index {
            Expr::Str(field) => match expression_path(parent) {
                Some(path) => Some(path.concat(".").concat(field.as_str())),
                None => None,
            },
            _ => None,
        },
        _ => None,
    }
}

/// The JSON value that an expression writes out literally.
pub open spec fn literal_model(expression: Expr) -> Option<JsonModel>
    decreases expression,
{
    match expression {
        Expr::Null => Some(JsonModel::Null),
        Expr::Bool(value) => Some(JsonModel::Bool(value)),
        Expr::Number(number) => Some(JsonModel::Number(number@)),
        Expr::Str(text) => Some(JsonModel::Text(text@)),
        Expr::Array(items) => if forall|i: int|
            0 <= i < items@.len() ==> literal_model(#[trigger] items@[i]) is Some {
            Some(
                JsonModel::Array(
                    Seq::new(
                        items@.len(),
                        |i: int|
                            if 0 <= i < items@.len() {
                                literal_model(items@[i])->0
                            } else {
                                JsonModel::Null
                            },
                    ),
                ),
            )
        } else {
            None
        },
        _ => None,
    }
}

pub fn literal(expression: &Expr) -> (result: Option<Json>)
    ensures
        match result {
            Some(value) => literal_model(*expression) == Some(value@),
            None => literal_model(*expression) is None,
        },
    decreases expression,
{
    broadcast use crate::json::lemma_array_model;

    match expression {
        Expr::Null => Some(Json::Null),
        Expr::Bool(value) => Some(Json::Bool(*value)),
        Expr::Number(number) => Some(Json::Number(number.copy())),
        Expr::Str(text) => Some(Json::Text(text.clone())),
        Expr::Array(items) => match literals(items) {
            Some(values) => {
                proof {
                    assert(literal_model(*expression)->0->Array_0 =~= crate::json::item_models(
                        values@,
                    ));
                }
                Some(Json::Array(values))
            },
            None => None,
        },
        _ => None,
    }
}

fn literals(items: &Vec<Expr>) -> (result: Option<Vec<Json>>)
    ensures
        match result {
            Some(values) => values@.len() == items@.len() && forall|i: int|
                0 <= i < items@.len() ==> literal_model(#[trigger] items@[i]) == Some(values@[i]@),
            None => exists|i: int|
                0 <= i < items@.len() && literal_model(#[trigger] items@[i]) is None,
        },
    decreases items,
{
    let mut values: Vec<Json> = Vec::new();
    let mut i: usize = 0;
    while i < items.len()
        invariant
            i <= items@.len(),
            values@.len() == i,
            forall|k: int|
                0 <= k < i ==> literal_model(#[trigger] items@[k]) == Some(values@[k]@),
        decreases items@.len() - i,
    {
        match literal(&items[i]) {
            Some(value) => {
                values.push(value);
            },
            None => {
                return None;
            },
        }
        i = i + 1;
    }
    Some(values)
}

/// Whether an expression divides by a literal zero somewhere.
pub open spec fn divides_by_literal_zero(expression: Expr) -> bool
    decreases expression,
{
    match expression {
        Expr::BinOp(left, operator, right) => {
            ||| (operator == BinOp::Div || operator == BinOp::Mod) && literal_zero(*right)
            ||| divides_by_literal_zero(*left)
            ||| divides_by_literal_zero(*right)
        },
        Expr::UnaryOp(_, inner) => divides_by_literal_zero(*inner),
        Expr::NullCoalesce(left, right) => divides_by_literal_zero(*left)
            || divides_by_literal_zero(*right),
        Expr::Call(base, arguments) => divides_by_literal_zero(*base) || exists|i: int|
            0 <= i < arguments@.len() && divides_by_literal_zero(#[trigger] arguments@[i]),
        Expr::Conditional(condition, positive, negative) => divides_by_literal_zero(*condition)
            || divides_by_literal_zero(*positive) || divides_by_literal_zero(*negative),
        Expr::Dot(inner, _) => divides_by_literal_zero(*inner),
        Expr::Index(left, right) => divides_by_literal_zero(*left) || divides_by_literal_zero(
            *right,
        ),
        Expr::Array(items) => exists|i: int|
            0 <= i < items@.len() && divides_by_literal_zero(#[trigger] items@[i]),
        _ => false,
    }
}

/// Whether an expression is a number literal that reads as zero.
pub open spec fn literal_zero(expression: Expr) -> bool {
    match expression {
        Expr::Number(number) => number_order(number@, NumberModel::Integer(0)) == Order::Equal,
        _ => false,
    }
}

fn is_literal_zero(expression: &Expr) -> (result: bool)
    ensures
        result == literal_zero(*expression),
{
    match expression {
        Expr::Number(number) => compare_numbers(number, &JsonNumber::Unsigned(0)).is_eq(),
        _ => false,
    }
}

pub fn has_literal_div_by_zero(expression: &Expr) -> (result: bool)
    ensures
        result == divides_by_literal_zero(*expression),
    decreases expression,
{
    match expression {
        Expr::BinOp(left, operator, right) => {
            ((*operator == BinOp::Div || *operator == BinOp::Mod) && is_literal_zero(right))
                || has_literal_div_by_zero(left) || has_literal_div_by_zero(right)
        },
        Expr::UnaryOp(_, inner) => has_literal_div_by_zero(inner),
        Expr::NullCoalesce(left, right) => {
            has_literal_div_by_zero(left) || has_literal_div_by_zero(right)
        },
        Expr::Call(base, arguments) => {
            has_literal_div_by_zero(base) || any_literal_div_by_zero(arguments)
        },
        Expr::Conditional(condition, positive, negative) => {
            has_literal_div_by_zero(condition) || has_literal_div_by_zero(positive)
                || has_literal_div_by_zero(negative)
        },
        Expr::Dot(inner, _) => has_literal_div_by_zero(inner),
        Expr::Index(left, right) => {
            has_literal_div_by_zero(left) || has_literal_div_by_zero(right)
        },
        Expr::Array(items) => any_literal_div_by_zero(items),
        _ => false,
    }
}

fn any_literal_div_by_zero(items: &Vec<Expr>) -> (result: bool)
    ensures
        result == exists|i: int|
            0 <= i < items@.len() && divides_by_literal_zero(#[trigger] items@[i]),
    decreases items,
{
    let mut i: usize = 0;
    while i < items.len()
        invariant
            i <= items@.len(),
            forall|k: int| 0 <= k < i ==> !divides_by_literal_zero(#[trigger] items@[k]),
        decreases items@.len() - i,
    {
        if has_literal_div_by_zero(&items[i]) {
            return true;
        }
        i = i + 1;
    }
    false
}

/// The formula that this node itself names, as `formula.name` or
/// `formula["name"]`.
pub open spec fn named_formula(expression: Expr) -> Option<Seq<char>> {
    match expression {
        Expr::Dot(object, field) => if is_ident(*object, "formula"@) {
            Some(field@)
        } else {
            None
        },
        Expr::Index(object, index) => match *index {
            Expr::Str(field) => if is_ident(*object, "formula"@) {
                Some(field@)
            } else {
                None
            },
            _ => None,
        },
        _ => None,
    }
}

/// Whether a formula name occurs anywhere in an expression.
pub open spec fn refers_to(expression: Expr, name: Seq<char>) -> bool
    decreases expression,
{
    named_formula(expression) == Some(name) || match expression {
        Expr::Dot(object, _) => refers_to(*object, name),
        Expr::Index(object, index) => refers_to(*object, name) || refers_to(*index, name),
        Expr::BinOp(left, _, right) => refers_to(*left, name) || refers_to(*right, name),
        Expr::UnaryOp(_, inner) => refers_to(*inner, name),
        Expr::NullCoalesce(left, right) => refers_to(*left, name) || refers_to(*right, name),
        Expr::Call(base, arguments) => refers_to(*base, name) || exists|i: int|
            0 <= i < arguments@.len() && refers_to(#[trigger] arguments@[i], name),
        Expr::Conditional(condition, positive, negative) => refers_to(*condition, name)
            || refers_to(*positive, name) || refers_to(*negative, name),
        Expr::Array(items) => exists|i: int|
            0 <= i < items@.len() && refers_to(#[trigger] items@[i], name),
        _ => false,
    }
}

} // verus!
