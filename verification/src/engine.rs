//! Query execution over evaluated records: filters, order, groups, and pages.

use crate::collection::{field_at, find_field, find_type, type_at, TypeDefinition};
use crate::expressions::{expr_uses_link_graph, uses_link_graph, Expr};
use crate::json::{
    array_texts, copy_or_null, item_models, key_at, member_index, member_models, member_of,
    nested_member, or_null, texts_of, Json, JsonModel,
};
use crate::ordering::{compare_values, value_order};
use crate::planner::{EvaluationError, QueryError};
use crate::results::count_value;
use crate::sorting::{arranged, arrangement, sorted_positions, stably_sorted, Comparison};
use crate::text::{
    after_prefix, compare_text, contains_text, has_part, has_prefix, int_order, order_usize,
    same_text, split_first, split_once, starts_with, strip_prefix, text_order, texts, Order,
};
use vstd::prelude::*;
use vstd::string::StringExecFns;

verus! {

/// A record as it was loaded: its frontmatter as written and with defaults
/// applied, its body, its types, and its file facts.
#[derive(Debug)]
pub struct FileRecord {
    pub rel_path: String,
    pub raw_frontmatter: Json,
    pub effective_frontmatter: Json,
    pub body: String,
    pub type_names: Vec<String>,
    pub file_size: u64,
    pub file_mtime_iso: Option<String>,
    pub file_ctime_iso: Option<String>,
}

/// The result of evaluating one formula on a record.
#[derive(Debug)]
pub struct FormulaResult {
    pub name: String,
    pub outcome: Result<Json, EvaluationError>,
}

/// A record with what evaluating the query's expressions on it gave: the
/// effective frontmatter with computed fields, the formulas, which expressions of
/// the filter hold, and what its body links to.
#[derive(Debug)]
pub struct EvaluatedRecord {
    pub record: FileRecord,
    pub effective: Json,
    pub formulas: Vec<FormulaResult>,
    pub truths: Vec<ExpressionTruth>,
    pub body_tags: Vec<String>,
    pub body_links: Vec<String>,
    pub body_embeds: Vec<String>,
}

/// An expression of a filter: its source, its parse result, and the error of
/// evaluating it without a record, if that gave one.
#[derive(Debug)]
pub struct FilterExpression {
    pub source: String,
    pub parsed: Result<Expr, String>,
    pub static_error: Option<EvaluationError>,
}

/// Whether an expression of a filter holds for one record.
#[derive(Debug)]
pub struct ExpressionTruth {
    pub source: String,
    pub holds: bool,
}

// ---------------------------------------------------------------------------
// Filters
// ---------------------------------------------------------------------------
/// Whether the value at a key is an array.
pub open spec fn array_at(members: Seq<(Seq<char>, JsonModel)>, key: Seq<char>) -> bool {
    0 <= key_at(members, key) < members.len() && members[key_at(members, key)].1 is Array
}

/// Whether there is a value at a key.
pub open spec fn value_at(members: Seq<(Seq<char>, JsonModel)>, key: Seq<char>) -> bool {
    0 <= key_at(members, key) < members.len()
}

/// Whether a filter holds, given which of its expressions do: a text is an
/// expression; `and`, `or`, and `not` combine filters; nothing else holds.
pub open spec fn filter_holds(filter: JsonModel, truth: spec_fn(Seq<char>) -> bool) -> bool
    decreases filter,
{
    match filter {
        JsonModel::Text(source) => truth(source),
        JsonModel::Object(members) => if array_at(members, "and"@) {
            let clauses = members[key_at(members, "and"@)].1->Array_0;
            forall|i: int| 0 <= i < clauses.len() ==> filter_holds(#[trigger] clauses[i], truth)
        } else if array_at(members, "or"@) {
            let clauses = members[key_at(members, "or"@)].1->Array_0;
            exists|i: int| 0 <= i < clauses.len() && filter_holds(#[trigger] clauses[i], truth)
        } else if value_at(members, "not"@) {
            !filter_holds(members[key_at(members, "not"@)].1, truth)
        } else {
            false
        },
        _ => false,
    }
}

/// Whether a source is listed as holding.
pub open spec fn listed_truth(truths: Seq<ExpressionTruth>, source: Seq<char>) -> bool
    decreases truths.len(),
{
    if truths.len() == 0 {
        false
    } else if truths[0].source@ == source {
        truths[0].holds
    } else {
        listed_truth(truths.drop_first(), source)
    }
}

/// What a list says of each expression.
pub open spec fn truths_in(truths: Seq<ExpressionTruth>) -> spec_fn(Seq<char>) -> bool {
    |source: Seq<char>| listed_truth(truths, source)
}

fn find_truth(truths: &Vec<ExpressionTruth>, source: &str) -> (result: bool)
    ensures
        result == listed_truth(truths@, source@),
{
    let mut i: usize = 0;
    proof {
        assert(truths@.skip(0) =~= truths@);
    }
    while i < truths.len()
        invariant
            i <= truths@.len(),
            listed_truth(truths@, source@) == listed_truth(truths@.skip(i as int), source@),
        decreases truths@.len() - i,
    {
        proof {
            assert(truths@.skip(i as int).drop_first() =~= truths@.skip(i + 1));
        }
        if same_text(truths[i].source.as_str(), source) {
            return truths[i].holds;
        }
        i = i + 1;
    }
    false
}

/// Evaluates a filter from the truth of its expressions. An expression that is
/// not listed does not hold.
pub fn evaluate_where(filter: &Json, truths: &Vec<ExpressionTruth>) -> (result: bool)
    ensures
        result == filter_holds(filter@, truths_in(truths@)),
    decreases filter,
{
    broadcast use {crate::json::lemma_object_model, crate::json::lemma_array_model};

    match filter {
        Json::Text(source) => find_truth(truths, source.as_str()),
        Json::Object(members) => {
            let ghost all = member_models(members@);
            if let Some(i) = member_index(members, "and") {
                if let Json::Array(clauses) = &members[i].value {
                    let result = all_hold(clauses, truths);
                    proof {
                        assert(all[i as int].1 == members@[i as int].value@);
                        assert(item_models(clauses@) == all[key_at(all, "and"@)].1->Array_0);
                    }
                    return result;
                }
                proof {
                    assert(all[i as int].1 == members@[i as int].value@);
                }
            }
            if let Some(i) = member_index(members, "or") {
                if let Json::Array(clauses) = &members[i].value {
                    let result = any_holds(clauses, truths);
                    proof {
                        assert(all[i as int].1 == members@[i as int].value@);
                        assert(item_models(clauses@) == all[key_at(all, "or"@)].1->Array_0);
                    }
                    return result;
                }
                proof {
                    assert(all[i as int].1 == members@[i as int].value@);
                }
            }
            if let Some(i) = member_index(members, "not") {
                proof {
                    assert(all[i as int].1 == members@[i as int].value@);
                }
                return !evaluate_where(&members[i].value, truths);
            }
            false
        },
        _ => false,
    }
}

fn all_hold(clauses: &Vec<Json>, truths: &Vec<ExpressionTruth>) -> (result: bool)
    ensures
        result == forall|i: int|
            0 <= i < clauses@.len() ==> filter_holds(
                #[trigger] item_models(clauses@)[i],
                truths_in(truths@),
            ),
    decreases clauses,
{
    let ghost truth = truths_in(truths@);
    let ghost all = item_models(clauses@);
    let mut i: usize = 0;
    while i < clauses.len()
        invariant
            i <= clauses@.len(),
            all == item_models(clauses@),
            truth == truths_in(truths@),
            forall|k: int| 0 <= k < i ==> filter_holds(#[trigger] all[k], truth),
        decreases clauses@.len() - i,
    {
        if !evaluate_where(&clauses[i], truths) {
            proof {
                assert(!filter_holds(all[i as int], truth));
            }
            return false;
        }
        i = i + 1;
    }
    true
}

fn any_holds(clauses: &Vec<Json>, truths: &Vec<ExpressionTruth>) -> (result: bool)
    ensures
        result == exists|i: int|
            0 <= i < clauses@.len() && filter_holds(
                #[trigger] item_models(clauses@)[i],
                truths_in(truths@),
            ),
    decreases clauses,
{
    let ghost truth = truths_in(truths@);
    let ghost all = item_models(clauses@);
    let mut i: usize = 0;
    while i < clauses.len()
        invariant
            i <= clauses@.len(),
            all == item_models(clauses@),
            truth == truths_in(truths@),
            forall|k: int| 0 <= k < i ==> !filter_holds(#[trigger] all[k], truth),
        decreases clauses@.len() - i,
    {
        if evaluate_where(&clauses[i], truths) {
            proof {
                assert(filter_holds(all[i as int], truth));
            }
            return true;
        }
        i = i + 1;
    }
    false
}

/// The position of the expression with a source; the number of expressions
/// without one.
pub open spec fn source_at(expressions: Seq<FilterExpression>, source: Seq<char>) -> int
    decreases expressions.len(),
{
    if expressions.len() == 0 || expressions[0].source@ == source {
        0
    } else {
        1 + source_at(expressions.drop_first(), source)
    }
}

fn find_source(expressions: &Vec<FilterExpression>, source: &str) -> (result: Option<usize>)
    ensures
        match result {
            Some(i) => i < expressions@.len() && i == source_at(expressions@, source@),
            None => source_at(expressions@, source@) == expressions@.len(),
        },
{
    let mut i: usize = 0;
    proof {
        assert(expressions@.skip(0) =~= expressions@);
    }
    while i < expressions.len()
        invariant
            i <= expressions@.len(),
            source_at(expressions@, source@) == i + source_at(
                expressions@.skip(i as int),
                source@,
            ),
        decreases expressions@.len() - i,
    {
        proof {
            assert(expressions@.skip(i as int).drop_first() =~= expressions@.skip(i + 1));
        }
        if same_text(expressions[i].source.as_str(), source) {
            return Some(i);
        }
        i = i + 1;
    }
    None
}

/// Whether an expression may follow links. One that does not parse is searched
/// for the texts that would.
pub open spec fn source_uses_link_graph(
    expressions: Seq<FilterExpression>,
    source: Seq<char>,
) -> bool {
    let at = source_at(expressions, source);
    if at < expressions.len() && expressions[at].parsed is Ok {
        uses_link_graph(expressions[at].parsed->Ok_0)
    } else {
        has_part(source, ".asFile("@) || has_part(source, "file.backlinks"@)
    }
}

pub fn where_expr_uses_link_graph(
    expressions: &Vec<FilterExpression>,
    source: &str,
) -> (result: bool)
    ensures
        result == source_uses_link_graph(expressions@, source@),
{
    if let Some(i) = find_source(expressions, source) {
        if let Ok(expression) = &expressions[i].parsed {
            return expr_uses_link_graph(expression);
        }
    }
    contains_text(source, ".asFile(") || contains_text(source, "file.backlinks")
}

/// Whether any clause of an array under a key has a property.
pub open spec fn filter_uses_link_graph(
    filter: JsonModel,
    property: spec_fn(Seq<char>) -> bool,
) -> bool
    decreases filter,
{
    match filter {
        JsonModel::Text(source) => property(source),
        JsonModel::Object(members) => {
            ||| array_at(members, "and"@) && {
                let clauses = members[key_at(members, "and"@)].1->Array_0;
                exists|i: int|
                    0 <= i < clauses.len() && filter_uses_link_graph(
                        #[trigger] clauses[i],
                        property,
                    )
            }
            ||| array_at(members, "or"@) && {
                let clauses = members[key_at(members, "or"@)].1->Array_0;
                exists|i: int|
                    0 <= i < clauses.len() && filter_uses_link_graph(
                        #[trigger] clauses[i],
                        property,
                    )
            }
            ||| value_at(members, "not"@) && filter_uses_link_graph(
                members[key_at(members, "not"@)].1,
                property,
            )
        },
        _ => false,
    }
}

/// Whether any expression of a filter may follow links.
pub fn where_clause_uses_link_graph(
    filter: &Json,
    expressions: &Vec<FilterExpression>,
) -> (result: bool)
    ensures
        result == filter_uses_link_graph(
            filter@,
            |source: Seq<char>| source_uses_link_graph(expressions@, source),
        ),
    decreases filter,
{
    broadcast use {crate::json::lemma_object_model, crate::json::lemma_array_model};

    match filter {
        Json::Text(source) => where_expr_uses_link_graph(expressions, source.as_str()),
        Json::Object(members) => {
            let ghost all = member_models(members@);
            if let Some(i) = member_index(members, "and") {
                proof {
                    assert(all[i as int].1 == members@[i as int].value@);
                }
                if let Json::Array(clauses) = &members[i].value {
                    if any_uses_link_graph(clauses, expressions) {
                        proof {
                            assert(item_models(clauses@) == all[key_at(all, "and"@)].1->Array_0);
                        }
                        return true;
                    }
                }
            }
            if let Some(i) = member_index(members, "or") {
                proof {
                    assert(all[i as int].1 == members@[i as int].value@);
                }
                if let Json::Array(clauses) = &members[i].value {
                    if any_uses_link_graph(clauses, expressions) {
                        proof {
                            assert(item_models(clauses@) == all[key_at(all, "or"@)].1->Array_0);
                        }
                        return true;
                    }
                }
            }
            if let Some(i) = member_index(members, "not") {
                proof {
                    assert(all[i as int].1 == members@[i as int].value@);
                }
                return where_clause_uses_link_graph(&members[i].value, expressions);
            }
            false
        },
        _ => false,
    }
}

fn any_uses_link_graph(clauses: &Vec<Json>, expressions: &Vec<FilterExpression>) -> (result: bool)
    ensures
        result == exists|i: int|
            0 <= i < clauses@.len() && filter_uses_link_graph(
                #[trigger] item_models(clauses@)[i],
                |source: Seq<char>| source_uses_link_graph(expressions@, source),
            ),
    decreases clauses,
{
    let ghost property = |source: Seq<char>| source_uses_link_graph(expressions@, source);
    let ghost all = item_models(clauses@);
    let mut i: usize = 0;
    while i < clauses.len()
        invariant
            i <= clauses@.len(),
            all == item_models(clauses@),
            property == |source: Seq<char>| source_uses_link_graph(expressions@, source),
            forall|k: int| 0 <= k < i ==> !filter_uses_link_graph(#[trigger] all[k], property),
        decreases clauses@.len() - i,
    {
        if where_clause_uses_link_graph(&clauses[i], expressions) {
            proof {
                assert(filter_uses_link_graph(all[i as int], property));
            }
            return true;
        }
        i = i + 1;
    }
    false
}

/// Whether a message speaks of an extension function.
pub open spec fn about_extension(message: Seq<char>) -> bool {
    has_part(message, "ext."@) || has_part(message, "ext::"@) || has_part(message, "extension"@)
}

/// The code and message of the error that an expression gives rise to before
/// any record is looked at. Unknown extension functions are no error.
pub open spec fn expression_error(
    expressions: Seq<FilterExpression>,
    source: Seq<char>,
) -> Option<(Seq<char>, Seq<char>)> {
    let at = source_at(expressions, source);
    if at >= expressions.len() {
        None
    } else {
        match expressions[at].parsed {
            Err(message) => Some(
                (
                    if has_part(message@, "expression_depth_exceeded"@) {
                        "expression_depth_exceeded"@
                    } else {
                        "invalid_expression"@
                    },
                    message@,
                ),
            ),
            Ok(_) => match expressions[at].static_error {
                None => None,
                Some(error) => if error.code@ == "wrong_argument_count"@ || error.code@
                    == "expression_depth_exceeded"@ || (error.code@ == "unknown_function"@
                    && !about_extension(error.message@)) {
                    Some((error.code@, error.message@))
                } else {
                    None
                },
            },
        }
    }
}

/// The error of each expression.
pub open spec fn errors_in(expressions: Seq<FilterExpression>) -> spec_fn(Seq<char>) -> Option<
    (Seq<char>, Seq<char>),
> {
    |source: Seq<char>| expression_error(expressions, source)
}

/// Checks one expression before any record is looked at.
pub fn validate_single_expr(expressions: &Vec<FilterExpression>, source: &str) -> (result: Result<
    (),
    QueryError,
>)
    ensures
        match result {
            Ok(_) => expression_error(expressions@, source@) is None,
            Err(error) => expression_error(expressions@, source@) == Some(
                (error.code@, error.message@),
            ),
        },
{
    if let Some(i) = find_source(expressions, source) {
        match &expressions[i].parsed {
            Err(message) => {
                let code = if contains_text(message.as_str(), "expression_depth_exceeded") {
                    "expression_depth_exceeded"
                } else {
                    "invalid_expression"
                };
                return Err(QueryError { code: code.to_owned(), message: message.clone() });
            },
            Ok(_) => {
                if let Some(error) = &expressions[i].static_error {
                    let code = error.code.as_str();
                    let message = error.message.as_str();
                    let extension = contains_text(message, "ext.") || contains_text(
                        message,
                        "ext::",
                    ) || contains_text(message, "extension");
                    if same_text(code, "wrong_argument_count") || same_text(
                        code,
                        "expression_depth_exceeded",
                    ) || (same_text(code, "unknown_function") && !extension) {
                        return Err(
                            QueryError { code: error.code.clone(), message: error.message.clone() },
                        );
                    }
                }
            },
        }
    }
    Ok(())
}

/// The first error among some of the clauses.
pub open spec fn first_clause_error(
    clauses: Seq<JsonModel>,
    from: nat,
    error: spec_fn(Seq<char>) -> Option<(Seq<char>, Seq<char>)>,
) -> Option<(Seq<char>, Seq<char>)>
    decreases clauses, clauses.len() - from,
{
    if from >= clauses.len() {
        None
    } else {
        match filter_error(clauses[from as int], error) {
            Some(error) => Some(error),
            None => first_clause_error(clauses, from + 1, error),
        }
    }
}

/// The error of a filter's first faulty expression: those under `and` come
/// first, then those under `or`, then the one under `not`.
pub open spec fn filter_error(
    filter: JsonModel,
    error: spec_fn(Seq<char>) -> Option<(Seq<char>, Seq<char>)>,
) -> Option<(Seq<char>, Seq<char>)>
    decreases filter, 0nat,
{
    match filter {
        JsonModel::Text(source) => error(source),
        JsonModel::Object(members) => {
            let first = if array_at(members, "and"@) {
                first_clause_error(members[key_at(members, "and"@)].1->Array_0, 0, error)
            } else {
                None
            };
            let second = if array_at(members, "or"@) {
                first_clause_error(members[key_at(members, "or"@)].1->Array_0, 0, error)
            } else {
                None
            };
            if first is Some {
                first
            } else if second is Some {
                second
            } else if value_at(members, "not"@) {
                filter_error(members[key_at(members, "not"@)].1, error)
            } else {
                None
            }
        },
        _ => None,
    }
}

/// Checks a filter before any record is looked at.
pub fn validate_where_clause(filter: &Json, expressions: &Vec<FilterExpression>) -> (result: Result<
    (),
    QueryError,
>)
    ensures
        match result {
            Ok(_) => filter_error(
                filter@,
                errors_in(expressions@),
            ) is None,
            Err(error) => filter_error(
                filter@,
                errors_in(expressions@),
            ) == Some((error.code@, error.message@)),
        },
    decreases filter,
{
    broadcast use {crate::json::lemma_object_model, crate::json::lemma_array_model};

    match filter {
        Json::Text(source) => validate_single_expr(expressions, source.as_str()),
        Json::Object(members) => {
            let ghost all = member_models(members@);
            if let Some(i) = member_index(members, "and") {
                proof {
                    assert(all[i as int].1 == members@[i as int].value@);
                }
                if let Json::Array(clauses) = &members[i].value {
                    if let Err(error) = validate_clauses(clauses, expressions) {
                        return Err(error);
                    }
                }
            }
            if let Some(i) = member_index(members, "or") {
                proof {
                    assert(all[i as int].1 == members@[i as int].value@);
                }
                if let Json::Array(clauses) = &members[i].value {
                    if let Err(error) = validate_clauses(clauses, expressions) {
                        return Err(error);
                    }
                }
            }
            if let Some(i) = member_index(members, "not") {
                proof {
                    assert(all[i as int].1 == members@[i as int].value@);
                }
                return validate_where_clause(&members[i].value, expressions);
            }
            Ok(())
        },
        _ => Ok(()),
    }
}

fn validate_clauses(clauses: &Vec<Json>, expressions: &Vec<FilterExpression>) -> (result: Result<
    (),
    QueryError,
>)
    ensures
        match result {
            Ok(_) => first_clause_error(
                item_models(clauses@),
                0,
                errors_in(expressions@),
            ) is None,
            Err(error) => first_clause_error(
                item_models(clauses@),
                0,
                errors_in(expressions@),
            ) == Some((error.code@, error.message@)),
        },
    decreases clauses,
{
    let ghost property = errors_in(expressions@);
    let ghost all = item_models(clauses@);
    let mut i: usize = 0;
    while i < clauses.len()
        invariant
            i <= clauses@.len(),
            all == item_models(clauses@),
            property == errors_in(expressions@),
            first_clause_error(all, 0, property) == first_clause_error(all, i as nat, property),
        decreases clauses@.len() - i,
    {
        if let Err(error) = validate_where_clause(&clauses[i], expressions) {
            return Err(error);
        }
        i = i + 1;
    }
    Ok(())
}

// ---------------------------------------------------------------------------
// Sort values
// ---------------------------------------------------------------------------
/// The number of bytes of a text.
pub open spec fn byte_length(value: Seq<char>) -> int {
    (vstd::utf8::encode_utf8(value).len() as usize) as int
}

/// The value by which a result entry is sorted under a field: `formula.` names a
/// formula, `file.` a file fact or its length, all else a frontmatter field.
pub open spec fn sort_value(entry: JsonModel, field: Seq<char>) -> JsonModel {
    match after_prefix(field, "formula."@) {
        Some(name) => or_null(nested_member(entry, "formulas"@, name)),
        None => match after_prefix(field, "file."@) {
            Some(fact) => match member_of(entry, "file"@) {
                Some(file) => match split_first(fact, '.') {
                    Some((property, part)) => if part == "length"@ {
                        match member_of(file, property) {
                            Some(JsonModel::Array(items)) => count_value(items.len() as int),
                            Some(JsonModel::Text(text)) => count_value(byte_length(text)),
                            _ => count_value(0),
                        }
                    } else {
                        JsonModel::Null
                    },
                    None => or_null(member_of(file, fact)),
                },
                None => JsonModel::Null,
            },
            None => or_null(nested_member(entry, "frontmatter"@, field)),
        },
    }
}

pub fn get_sort_value(entry: &Json, field: &str) -> (result: Json)
    ensures
        result@ == sort_value(entry@, field@),
{
    broadcast use crate::json::lemma_array_model;

    if let Some(name) = strip_prefix(field, "formula.") {
        return copy_or_null(entry.get_nested("formulas", name.as_str()));
    }
    if let Some(fact) = strip_prefix(field, "file.") {
        return match entry.get("file") {
            Some(file) => match split_once(fact.as_str(), '.') {
                Some((property, part)) => if same_text(part.as_str(), "length") {
                    match file.get(property.as_str()) {
                        Some(Json::Array(items)) => Json::unsigned(items.len() as u64),
                        Some(Json::Text(text)) => Json::unsigned(text.as_str().len() as u64),
                        _ => Json::unsigned(0),
                    }
                } else {
                    Json::Null
                },
                None => copy_or_null(file.get(fact.as_str())),
            },
            None => Json::Null,
        };
    }
    copy_or_null(entry.get_nested("frontmatter", field))
}

/// The values of the first enumeration field with this name among the types.
pub open spec fn enum_values(
    field: Seq<char>,
    names: Seq<Seq<char>>,
    types: Seq<TypeDefinition>,
) -> Option<Seq<String>>
    decreases names.len(),
{
    if names.len() == 0 {
        None
    } else {
        let t = type_at(types, names[0]);
        let f = field_at(types[t].fields@, field);
        if t < types.len() && f < types[t].fields@.len() && types[t].fields@[f].field_type@
            == "enum"@ && types[t].fields@[f].values is Some {
            Some(types[t].fields@[f].values->0@)
        } else {
            enum_values(field, names.drop_first(), types)
        }
    }
}

pub fn get_enum_values_for_field<'a>(
    field: &str,
    entry: &Json,
    types: &'a Vec<TypeDefinition>,
) -> (result: Option<&'a Vec<String>>)
    ensures
        match result {
            Some(values) => enum_values(field@, array_texts(member_of(entry@, "types"@)), types@)
                == Some(values@),
            None => enum_values(
                field@,
                array_texts(member_of(entry@, "types"@)),
                types@,
            ) is None,
        },
{
    let names = texts_of(entry.get("types"));
    let ghost all = texts(names@);
    let mut i: usize = 0;
    proof {
        assert(all.skip(0) =~= all);
    }
    while i < names.len()
        invariant
            i <= names@.len(),
            all == texts(names@),
            all == array_texts(member_of(entry@, "types"@)),
            enum_values(field@, all, types@) == enum_values(field@, all.skip(i as int), types@),
        decreases names@.len() - i,
    {
        proof {
            assert(all.skip(i as int).drop_first() =~= all.skip(i + 1));
            assert(all.skip(i as int)[0] == names@[i as int]@);
        }
        if let Some(t) = find_type(types, names[i].as_str()) {
            if let Some(f) = find_field(&types[t].fields, field) {
                if same_text(types[t].fields[f].field_type.as_str(), "enum") {
                    if let Some(values) = &types[t].fields[f].values {
                        return Some(values);
                    }
                }
            }
        }
        i = i + 1;
    }
    None
}

/// The position of a text in a list; the largest machine number without one.
pub open spec fn rank_in(values: Seq<String>, text: Seq<char>) -> int
    decreases values.len(),
{
    if values.len() == 0 {
        usize::MAX as int
    } else if values[0]@ == text {
        0
    } else {
        let rest = rank_in(values.drop_first(), text);
        if rest == usize::MAX {
            rest
        } else {
            1 + rest
        }
    }
}

proof fn lemma_rank_in(values: Seq<String>, text: Seq<char>)
    ensures
        0 <= rank_in(values, text) < values.len() || rank_in(values, text) == usize::MAX,
    decreases values.len(),
{
    if values.len() > 0 && values[0]@ != text {
        lemma_rank_in(values.drop_first(), text);
    }
}

fn find_rank(values: &Vec<String>, text: &str) -> (result: usize)
    ensures
        result == rank_in(values@, text@),
{
    let length: usize = values.len();
    let mut i: usize = 0;
    proof {
        assert(values@.skip(0) =~= values@);
    }
    while i < length
        invariant
            i <= values@.len(),
            length == values@.len(),
            rank_in(values@, text@) == if rank_in(values@.skip(i as int), text@) == usize::MAX {
                usize::MAX as int
            } else {
                i + rank_in(values@.skip(i as int), text@)
            },
        decreases values@.len() - i,
    {
        proof {
            assert(values@.skip(i as int).drop_first() =~= values@.skip(i + 1));
            lemma_rank_in(values@.skip(i + 1), text@);
        }
        if same_text(values[i].as_str(), text) {
            return i;
        }
        i = i + 1;
    }
    usize::MAX
}

/// The text of a value, or an empty text.
pub open spec fn text_or_empty(value: JsonModel) -> Seq<char> {
    match value {
        JsonModel::Text(text) => text,
        _ => Seq::empty(),
    }
}

/// Whether a field is one of the record's own, not a formula or a file fact.
pub open spec fn is_record_field(field: Seq<char>) -> bool {
    !has_prefix(field, "formula."@) && !has_prefix(field, "file."@)
}

/// The order of two sort values under a field. Null comes last; where the types
/// of the first entry make the field an enumeration, its values rank the texts.
pub open spec fn sort_order(
    left: JsonModel,
    right: JsonModel,
    field: Seq<char>,
    names: Seq<Seq<char>>,
    types: Seq<TypeDefinition>,
) -> Order {
    if left is Null || right is Null || !is_record_field(field) || enum_values(
        field,
        names,
        types,
    ) is None {
        value_order(left, right)
    } else {
        let values = enum_values(field, names, types)->0;
        int_order(rank_in(values, text_or_empty(left)), rank_in(values, text_or_empty(right)))
    }
}

pub fn compare_sort_values(
    left: &Json,
    right: &Json,
    field: &str,
    left_entry: &Json,
    types: &Vec<TypeDefinition>,
) -> (result: Order)
    ensures
        result == sort_order(
            left@,
            right@,
            field@,
            array_texts(member_of(left_entry@, "types"@)),
            types@,
        ),
{
    if left.is_null() || right.is_null() {
        return compare_values(left, right);
    }
    if !starts_with(field, "formula.") && !starts_with(field, "file.") {
        if let Some(values) = get_enum_values_for_field(field, left_entry, types) {
            let a = match left.as_str() {
                Some(text) => find_rank(values, text),
                None => find_rank(values, String::new().as_str()),
            };
            let b = match right.as_str() {
                Some(text) => find_rank(values, text),
                None => find_rank(values, String::new().as_str()),
            };
            return order_usize(a, b);
        }
    }
    compare_values(left, right)
}

/// One term of an order: a field, and whether it ascends.
#[derive(Debug)]
pub struct SortTerm {
    pub field: String,
    pub ascending: bool,
}

/// What sort terms hold.
pub open spec fn term_models(terms: Seq<SortTerm>) -> Seq<(Seq<char>, bool)> {
    Seq::new(terms.len(), |i: int| (terms[i].field@, terms[i].ascending))
}

/// The text of an optional value, or another text.
pub open spec fn text_or(value: Option<JsonModel>, other: Seq<char>) -> Seq<char> {
    match value {
        Some(JsonModel::Text(text)) => text,
        _ => other,
    }
}

/// The sort term that a clause of an order spells out. Any direction other than
/// `asc` descends.
pub open spec fn term_of(clause: JsonModel) -> (Seq<char>, bool) {
    (
        text_or(member_of(clause, "field"@), Seq::empty()),
        text_or(member_of(clause, "direction"@), "asc"@) == "asc"@,
    )
}

/// The sort terms that a query's `order_by` spells out.
pub open spec fn terms_of(order_by: Option<JsonModel>) -> Seq<(Seq<char>, bool)> {
    match order_by {
        Some(JsonModel::Array(clauses)) => Seq::new(clauses.len(), |i: int| term_of(clauses[i])),
        _ => Seq::empty(),
    }
}

/// The text of an optional member, or another text.
pub(crate) fn member_text_or(value: &Json, key: &str, other: &str) -> (result: String)
    ensures
        result@ == text_or(member_of(value@, key@), other@),
{
    match value.get_str(key) {
        Some(text) => text.to_owned(),
        None => other.to_owned(),
    }
}

pub(crate) fn sort_terms(order_by: Option<&Json>) -> (result: Vec<SortTerm>)
    ensures
        term_models(result@) == terms_of(
            match order_by {
                Some(value) => Some(value@),
                None => None,
            },
        ),
{
    let mut terms: Vec<SortTerm> = Vec::new();
    if let Some(value) = order_by {
        if let Some(clauses) = value.as_array() {
            let ghost all = item_models(clauses@);
            let mut i: usize = 0;
            while i < clauses.len()
                invariant
                    i <= clauses@.len(),
                    all == item_models(clauses@),
                    terms@.len() == i,
                    forall|k: int|
                        0 <= k < i ==> ((#[trigger] terms@[k]).field@, terms@[k].ascending)
                            == term_of(all[k]),
                decreases clauses@.len() - i,
            {
                let empty = String::new();
                let field = member_text_or(&clauses[i], "field", empty.as_str());
                let direction = member_text_or(&clauses[i], "direction", "asc");
                let ascending = same_text(direction.as_str(), "asc");
                terms.push(SortTerm { field, ascending });
                i = i + 1;
            }
            proof {
                assert(term_models(terms@) =~= terms_of(Some(value@)));
            }
            return terms;
        }
    }
    proof {
        assert(term_models(terms@) =~= Seq::empty());
    }
    terms
}

/// The path of a result entry, or an empty text.
pub open spec fn entry_path(entry: JsonModel) -> Seq<char> {
    text_or(member_of(entry, "path"@), Seq::empty())
}

/// The order of two entries under one term.
pub open spec fn term_order(
    left: JsonModel,
    right: JsonModel,
    term: (Seq<char>, bool),
    types: Seq<TypeDefinition>,
) -> Order {
    let order = sort_order(
        sort_value(left, term.0),
        sort_value(right, term.0),
        term.0,
        array_texts(member_of(left, "types"@)),
        types,
    );
    if term.1 {
        order
    } else {
        order.spec_reverse()
    }
}

/// The order of two entries: by the first term from `from` on that tells them
/// apart, then by ascending path.
pub open spec fn entry_order(
    left: JsonModel,
    right: JsonModel,
    terms: Seq<(Seq<char>, bool)>,
    types: Seq<TypeDefinition>,
    from: nat,
) -> Order
    decreases terms.len() - from,
{
    if from >= terms.len() {
        text_order(entry_path(left), entry_path(right))
    } else {
        let order = term_order(left, right, terms[from as int], types);
        if order == Order::Equal {
            entry_order(left, right, terms, types, from + 1)
        } else {
            order
        }
    }
}

fn compare_entries(
    left: &Json,
    right: &Json,
    terms: &Vec<SortTerm>,
    types: &Vec<TypeDefinition>,
) -> (result: Order)
    ensures
        result == entry_order(left@, right@, term_models(terms@), types@, 0),
{
    let ghost all = term_models(terms@);
    let mut i: usize = 0;
    while i < terms.len()
        invariant
            i <= terms@.len(),
            all == term_models(terms@),
            entry_order(left@, right@, all, types@, 0) == entry_order(
                left@,
                right@,
                all,
                types@,
                i as nat,
            ),
        decreases terms@.len() - i,
    {
        let field = terms[i].field.as_str();
        let a = get_sort_value(left, field);
        let b = get_sort_value(right, field);
        let order = compare_sort_values(&a, &b, field, left, types);
        let directed = if terms[i].ascending {
            order
        } else {
            order.reverse()
        };
        proof {
            assert(all[i as int] == (terms@[i as int].field@, terms@[i as int].ascending));
        }
        if !directed.is_eq() {
            return directed;
        }
        i = i + 1;
    }
    let empty = String::new();
    let a = member_text_or(left, "path", empty.as_str());
    let b = member_text_or(right, "path", empty.as_str());
    compare_text(a.as_str(), b.as_str())
}

struct EntryOrder<'a> {
    entries: &'a Vec<Json>,
    terms: &'a Vec<SortTerm>,
    types: &'a Vec<TypeDefinition>,
}

/// How the entries at two positions compare.
pub open spec fn order_among(
    entries: Seq<JsonModel>,
    terms: Seq<(Seq<char>, bool)>,
    types: Seq<TypeDefinition>,
) -> spec_fn(int, int) -> Order {
    |i: int, j: int| entry_order(entries[i], entries[j], terms, types, 0)
}

impl<'a> Comparison for EntryOrder<'a> {
    closed spec fn count(&self) -> nat {
        self.entries@.len()
    }

    closed spec fn order(&self) -> spec_fn(int, int) -> Order {
        order_among(item_models(self.entries@), term_models(self.terms@), self.types@)
    }

    fn size(&self) -> (result: usize) {
        self.entries.len()
    }

    fn compare(&self, left: usize, right: usize) -> (result: Order) {
        compare_entries(&self.entries[left], &self.entries[right], self.terms, self.types)
    }
}

/// Copies of the values at the given positions.
fn arrange(items: &Vec<Json>, positions: &Vec<usize>) -> (result: Vec<Json>)
    requires
        forall|k: int| 0 <= k < positions@.len() ==> (#[trigger] positions@[k]) < items@.len(),
    ensures
        item_models(result@) == arranged(item_models(items@), positions@),
{
    let mut result: Vec<Json> = Vec::new();
    let mut k: usize = 0;
    while k < positions.len()
        invariant
            k <= positions@.len(),
            result@.len() == k,
            forall|m: int| 0 <= m < positions@.len() ==> (#[trigger] positions@[m]) < items@.len(),
            forall|m: int|
                0 <= m < k ==> (#[trigger] result@[m])@ == items@[positions@[m] as int]@,
        decreases positions@.len() - k,
    {
        result.push(items[positions[k]].copy());
        k = k + 1;
    }
    proof {
        assert(item_models(result@) =~= arranged(
            item_models(items@),
            positions@,
        ));
    }
    result
}

/// Whether a list of entries is another in stable order. Where values of unlike kinds
/// leave more than one such list, it is the same one each time.
pub open spec fn is_sorted_list(
    sorted: Seq<JsonModel>,
    entries: Seq<JsonModel>,
    terms: Seq<(Seq<char>, bool)>,
    types: Seq<TypeDefinition>,
) -> bool {
    let order = order_among(entries, terms, types);
    let positions = arrangement(entries.len(), order);
    stably_sorted(entries.len(), order, positions) && sorted == arranged(entries, positions)
}

/// The entries in the order that the terms ask for, then by path.
pub fn sort_entries(
    entries: &Vec<Json>,
    terms: &Vec<SortTerm>,
    types: &Vec<TypeDefinition>,
) -> (result: Vec<Json>)
    ensures
        is_sorted_list(
            item_models(result@),
            item_models(entries@),
            term_models(terms@),
            types@,
        ),
{
    let context = EntryOrder { entries, terms, types };
    let positions = sorted_positions(&context);
    proof {
        assert(stably_sorted(
            item_models(entries@).len(),
            order_among(item_models(entries@), term_models(terms@), types@),
            positions@,
        ));
    }
    arrange(entries, &positions)
}

} // verus!
