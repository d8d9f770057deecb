//! Lowering filter expressions to conditions that providers may check, and the
//! three-valued evaluation of those conditions.

use crate::calendar::{
    ambiguous_canonical_string, is_ambiguous, is_iso_date_only, is_plain_date, parses_as_date,
    parses_as_date_time, parses_as_float, parses_as_rfc3339,
};
use crate::expressions::{expression_path, literal, literal_model, path_of, BinOp, Expr, UnaryOp};
use crate::hosted_plan::{
    lemma_and_model, lemma_or_model, predicate_models, CandidateComparison,
    CandidateComparisonOperator, CandidateComparisonPruning, CandidateField, CandidatePredicate,
    ComparisonModel, FieldModel, HostedQueryRequirements, PredicateModel,
};
use crate::json::{
    find_member, item_models, items_contain, lists_value, member_models, member_of, same_json, Json,
    JsonModel, Member,
};
use crate::numbers::{compare_numbers, number_order};
use crate::projection::SemanticProjection;
use crate::text::{
    compare_text, contains_text, has_part, list_contains, lists_text, same_text, split_on,
    split_text, text_order, texts, Order,
};
use crate::value_laws::{
    is_within, lemma_numbers_stand_in_order, lemma_parts_of_texts,
    lemma_texts_stand_in_dictionary_order, stands_before,
};
use vstd::prelude::*;

verus! {

// ---------------------------------------------------------------------------
// Fields
// ---------------------------------------------------------------------------
/// Names that are namespaces and never frontmatter fields of their own.
pub open spec fn is_namespace(name: Seq<char>) -> bool {
    ||| name == "record"@
    ||| name == "raw"@
    ||| name == "present"@
    ||| name == "file"@
    ||| name == "note"@
    ||| name == "projection"@
    ||| name == "this"@
    ||| name == "values"@
    ||| name == "old"@
    ||| name == "operation"@
    ||| name == "event"@
    ||| name == "workflow"@
    ||| name == "trigger"@
    ||| name == "steps"@
    ||| name == "vars"@
    ||| name == "item"@
}

pub fn is_reserved_root(name: &str) -> (result: bool)
    ensures
        result == is_namespace(name@),
{
    same_text(name, "record") || same_text(name, "raw") || same_text(name, "present") || same_text(
        name,
        "file",
    ) || same_text(name, "note") || same_text(name, "projection") || same_text(name, "this")
        || same_text(name, "values") || same_text(name, "old") || same_text(name, "operation")
        || same_text(name, "event") || same_text(name, "workflow") || same_text(name, "trigger")
        || same_text(name, "steps") || same_text(name, "vars") || same_text(name, "item")
}

/// File facts that projections hold.
pub open spec fn is_file_fact(name: Seq<char>) -> bool {
    name == "name"@ || name == "basename"@ || name == "ext"@ || name == "size"@ || name == "mtime"@
}

/// The field that the segments of a path name.
pub open spec fn segments_field(segments: Seq<Seq<char>>) -> Option<FieldModel> {
    let root = segments[0];
    if segments.len() == 1 && root == "types"@ {
        Some(FieldModel::Types)
    } else if root == "record"@ || root == "note"@ {
        Some(FieldModel::EffectiveFrontmatter(segments.drop_first()))
    } else if root == "raw"@ {
        Some(FieldModel::PersistedFrontmatter(segments.drop_first()))
    } else if segments.len() == 2 && root == "file"@ && segments[1] == "tags"@ {
        Some(FieldModel::BodyTags)
    } else if segments.len() == 2 && root == "file"@ && segments[1] == "path"@ {
        Some(FieldModel::Path)
    } else if segments.len() == 2 && root == "file"@ && is_file_fact(segments[1]) {
        Some(FieldModel::File(segments[1]))
    } else if segments.len() == 1 && !is_namespace(root) {
        Some(FieldModel::EffectiveFrontmatter(segments))
    } else {
        None
    }
}

/// The field that a dotted path names, where projections hold it.
pub open spec fn query_field(path: Seq<char>) -> Option<FieldModel> {
    segments_field(split_on(path, '.'))
}

fn rest_of(segments: &Vec<String>) -> (result: Vec<String>)
    requires
        segments@.len() >= 1,
    ensures
        texts(result@) == texts(segments@).drop_first(),
{
    let mut result: Vec<String> = Vec::new();
    let mut i: usize = 1;
    while i < segments.len()
        invariant
            1 <= i <= segments@.len(),
            result@.len() == i - 1,
            forall|k: int| 0 <= k < i - 1 ==> (#[trigger] result@[k])@ == segments@[k + 1]@,
        decreases segments@.len() - i,
    {
        result.push(segments[i].clone());
        i = i + 1;
    }
    proof {
        assert(texts(result@) =~= texts(segments@).drop_first());
    }
    result
}

pub fn lower_query_field(path: &str) -> (result: Option<CandidateField>)
    ensures
        match result {
            Some(field) => query_field(path@) == Some(field@),
            None => query_field(path@) is None,
        },
{
    let segments = split_text(path, '.');
    let ghost all = texts(segments@);
    let root = segments[0].as_str();
    proof {
        assert(all.len() == segments@.len());
        assert(all[0] == segments@[0]@);
        if segments@.len() == 2 {
            assert(all[1] == segments@[1]@);
        }
    }
    if segments.len() == 1 && same_text(root, "types") {
        return Some(CandidateField::Types);
    }
    if same_text(root, "record") || same_text(root, "note") {
        return Some(CandidateField::EffectiveFrontmatter(rest_of(&segments)));
    }
    if same_text(root, "raw") {
        return Some(CandidateField::PersistedFrontmatter(rest_of(&segments)));
    }
    if segments.len() == 2 && same_text(root, "file") {
        let name = segments[1].as_str();
        if same_text(name, "tags") {
            return Some(CandidateField::BodyTags);
        }
        if same_text(name, "path") {
            return Some(CandidateField::Path);
        }
        if same_text(name, "name") || same_text(name, "basename") || same_text(name, "ext")
            || same_text(name, "size") || same_text(name, "mtime") {
            return Some(CandidateField::File(segments[1].clone()));
        }
    }
    if segments.len() == 1 && !is_reserved_root(root) {
        return Some(CandidateField::EffectiveFrontmatter(segments));
    }
    None
}

/// The field that an expression reads, where projections hold it.
pub open spec fn field_of(expression: Expr) -> Option<FieldModel> {
    match path_of(expression) {
        Some(path) => query_field(path),
        None => None,
    }
}

pub fn lower_field(expression: &Expr) -> (result: Option<CandidateField>)
    ensures
        match result {
            Some(field) => field_of(*expression) == Some(field@),
            None => field_of(*expression) is None,
        },
{
    match expression_path(expression) {
        Some(path) => lower_query_field(path.as_str()),
        None => None,
    }
}

/// Adds what reading a field requires.
pub open spec fn with_field(
    requirements: HostedQueryRequirements,
    field: FieldModel,
) -> HostedQueryRequirements {
    match field {
        FieldModel::PersistedFrontmatter(_) => HostedQueryRequirements {
            persisted_frontmatter: true,
            ..requirements
        },
        FieldModel::EffectiveFrontmatter(_) => HostedQueryRequirements {
            effective_frontmatter: true,
            ..requirements
        },
        FieldModel::BodyTags => HostedQueryRequirements {
            structural_body_facts: true,
            ..requirements
        },
        _ => requirements,
    }
}

pub fn accumulate_field_requirement(
    field: &CandidateField,
    requirements: &mut HostedQueryRequirements,
)
    ensures
        *final(requirements) == with_field(*old(requirements), field@),
{
    match field {
        CandidateField::PersistedFrontmatter(_) => {
            requirements.persisted_frontmatter = true;
        },
        CandidateField::EffectiveFrontmatter(_) => {
            requirements.effective_frontmatter = true;
        },
        CandidateField::BodyTags => {
            requirements.structural_body_facts = true;
        },
        _ => {},
    }
}

// ---------------------------------------------------------------------------
// Pruning
// ---------------------------------------------------------------------------
/// Scalars that JSON equality treats as the canonical evaluator does.
pub open spec fn is_exact_scalar(value: JsonModel) -> bool {
    match value {
        JsonModel::Null => true,
        JsonModel::Bool(_) => true,
        JsonModel::Text(text) => !is_ambiguous(text),
        _ => false,
    }
}

fn exact_scalar(value: &Json) -> (result: bool)
    ensures
        result == is_exact_scalar(value@),
{
    match value {
        Json::Null => true,
        Json::Bool(_) => true,
        Json::Text(text) => !ambiguous_canonical_string(text.as_str()),
        _ => false,
    }
}

/// Whether an operator orders its operands.
pub open spec fn is_ordering(operator: CandidateComparisonOperator) -> bool {
    operator == CandidateComparisonOperator::LessThan || operator
        == CandidateComparisonOperator::LessThanOrEqual || operator
        == CandidateComparisonOperator::GreaterThan || operator
        == CandidateComparisonOperator::GreaterThanOrEqual
}

/// Whether every value is an exact scalar.
pub open spec fn all_exact(items: Seq<JsonModel>) -> bool {
    forall|i: int| 0 <= i < items.len() ==> is_exact_scalar(#[trigger] items[i])
}

fn all_exact_scalars(items: &Vec<Json>) -> (result: bool)
    ensures
        result == all_exact(item_models(items@)),
{
    let ghost all = item_models(items@);
    let mut i: usize = 0;
    while i < items.len()
        invariant
            i <= items@.len(),
            all == item_models(items@),
            forall|k: int| 0 <= k < i ==> is_exact_scalar(#[trigger] all[k]),
        decreases items@.len() - i,
    {
        if !exact_scalar(&items[i]) {
            proof {
                assert(!is_exact_scalar(all[i as int]));
            }
            return false;
        }
        i = i + 1;
    }
    true
}

/// How far a comparison with a literal may narrow candidates.
pub open spec fn pruning_of(
    operator: CandidateComparisonOperator,
    value: JsonModel,
) -> CandidateComparisonPruning {
    let equality = operator == CandidateComparisonOperator::Equal || operator
        == CandidateComparisonOperator::NotEqual;
    let date = match value {
        JsonModel::Text(text) => is_plain_date(text),
        _ => false,
    };
    let exact = if is_ordering(operator) {
        match value {
            JsonModel::Number(_) => true,
            JsonModel::Text(text) => !is_ambiguous(text),
            _ => false,
        }
    } else if operator == CandidateComparisonOperator::In {
        match value {
            JsonModel::Array(items) => all_exact(items),
            _ => false,
        }
    } else {
        is_exact_scalar(value)
    };
    if date && (equality || is_ordering(operator)) {
        CandidateComparisonPruning::IsoDateOnlyString
    } else if exact {
        CandidateComparisonPruning::ExactJson
    } else {
        CandidateComparisonPruning::Conservative
    }
}

pub fn comparison_pruning(operator: CandidateComparisonOperator, value: &Json) -> (result:
    CandidateComparisonPruning)
    ensures
        result == pruning_of(operator, value@),
{
    broadcast use crate::json::lemma_array_model;

    let ordering = operator == CandidateComparisonOperator::LessThan || operator
        == CandidateComparisonOperator::LessThanOrEqual || operator
        == CandidateComparisonOperator::GreaterThan || operator
        == CandidateComparisonOperator::GreaterThanOrEqual;
    let equality = operator == CandidateComparisonOperator::Equal || operator
        == CandidateComparisonOperator::NotEqual;
    let date = match value {
        Json::Text(text) => is_iso_date_only(text.as_str()),
        _ => false,
    };
    if date && (equality || ordering) {
        return CandidateComparisonPruning::IsoDateOnlyString;
    }
    let exact = if ordering {
        match value {
            Json::Number(_) => true,
            Json::Text(text) => !ambiguous_canonical_string(text.as_str()),
            _ => false,
        }
    } else if operator == CandidateComparisonOperator::In {
        match value {
            Json::Array(items) => all_exact_scalars(items),
            _ => false,
        }
    } else {
        exact_scalar(value)
    };
    if exact {
        CandidateComparisonPruning::ExactJson
    } else {
        CandidateComparisonPruning::Conservative
    }
}

// ---------------------------------------------------------------------------
// Lowering
// ---------------------------------------------------------------------------
/// The comparison that an operator makes, with the field on its left or, when
/// reversed, on its right.
pub open spec fn operator_of(operator: BinOp, reversed: bool) -> Option<
    CandidateComparisonOperator,
> {
    match operator {
        BinOp::Eq => Some(CandidateComparisonOperator::Equal),
        BinOp::Neq => Some(CandidateComparisonOperator::NotEqual),
        BinOp::Lt => Some(
            if reversed {
                CandidateComparisonOperator::GreaterThan
            } else {
                CandidateComparisonOperator::LessThan
            },
        ),
        BinOp::Lte => Some(
            if reversed {
                CandidateComparisonOperator::GreaterThanOrEqual
            } else {
                CandidateComparisonOperator::LessThanOrEqual
            },
        ),
        BinOp::Gt => Some(
            if reversed {
                CandidateComparisonOperator::LessThan
            } else {
                CandidateComparisonOperator::GreaterThan
            },
        ),
        BinOp::Gte => Some(
            if reversed {
                CandidateComparisonOperator::LessThanOrEqual
            } else {
                CandidateComparisonOperator::GreaterThanOrEqual
            },
        ),
        BinOp::In => Some(
            if reversed {
                CandidateComparisonOperator::Contains
            } else {
                CandidateComparisonOperator::In
            },
        ),
        _ => None,
    }
}

fn to_operator(operator: BinOp, reversed: bool) -> (result: Option<CandidateComparisonOperator>)
    ensures
        result == operator_of(operator, reversed),
{
    match operator {
        BinOp::Eq => Some(CandidateComparisonOperator::Equal),
        BinOp::Neq => Some(CandidateComparisonOperator::NotEqual),
        BinOp::Lt => Some(
            if reversed {
                CandidateComparisonOperator::GreaterThan
            } else {
                CandidateComparisonOperator::LessThan
            },
        ),
        BinOp::Lte => Some(
            if reversed {
                CandidateComparisonOperator::GreaterThanOrEqual
            } else {
                CandidateComparisonOperator::LessThanOrEqual
            },
        ),
        BinOp::Gt => Some(
            if reversed {
                CandidateComparisonOperator::LessThan
            } else {
                CandidateComparisonOperator::GreaterThan
            },
        ),
        BinOp::Gte => Some(
            if reversed {
                CandidateComparisonOperator::LessThanOrEqual
            } else {
                CandidateComparisonOperator::GreaterThanOrEqual
            },
        ),
        BinOp::In => Some(
            if reversed {
                CandidateComparisonOperator::Contains
            } else {
                CandidateComparisonOperator::In
            },
        ),
        _ => None,
    }
}

/// A comparison of a field with a literal.
pub open spec fn comparison_of(
    field: FieldModel,
    operator: CandidateComparisonOperator,
    value: JsonModel,
) -> ComparisonModel {
    ComparisonModel { field, operator, value, pruning: pruning_of(operator, value) }
}

/// The comparison that a binary expression makes between a field and a literal,
/// on whichever side they stand.
pub open spec fn binary_comparison(left: Expr, operator: BinOp, right: Expr) -> Option<
    ComparisonModel,
> {
    let forward = field_of(left) is Some && literal_model(right) is Some;
    let backward = field_of(right) is Some && literal_model(left) is Some;
    if forward {
        match operator_of(operator, false) {
            Some(lowered) => Some(
                comparison_of(field_of(left)->0, lowered, literal_model(right)->0),
            ),
            None => None,
        }
    } else if backward {
        match operator_of(operator, true) {
            Some(lowered) => Some(
                comparison_of(field_of(right)->0, lowered, literal_model(left)->0),
            ),
            None => None,
        }
    } else {
        None
    }
}

/// The comparison that a call of `contains` on a field makes.
pub open spec fn call_comparison(function: Expr, arguments: Seq<Expr>) -> Option<ComparisonModel> {
    match function {
        Expr::Dot(receiver, method) => if arguments.len() == 1 && method@ == "contains"@ {
            match (field_of(*receiver), literal_model(arguments[0])) {
                (Some(field), Some(value)) => Some(
                    comparison_of(field, CandidateComparisonOperator::Contains, value),
                ),
                _ => None,
            }
        } else {
            None
        },
        _ => None,
    }
}

/// The comparison that an expression is, where it is one.
pub open spec fn atom(expression: Expr) -> Option<ComparisonModel> {
    match expression {
        Expr::BinOp(left, operator, right) => if operator == BinOp::And || operator == BinOp::Or {
            None
        } else {
            binary_comparison(*left, operator, *right)
        },
        Expr::Call(function, arguments) => call_comparison(*function, arguments@),
        _ => None,
    }
}

/// The condition that an expression lowers to, and whether it is complete. One
/// side of a conjunction is still a necessary condition when the other cannot
/// be lowered; a disjunction or a negation needs complete operands.
pub open spec fn lowered(expression: Expr) -> Option<(PredicateModel, bool)>
    decreases expression,
{
    match expression {
        Expr::Bool(true) => Some((PredicateModel::All, true)),
        Expr::Bool(false) => Some((PredicateModel::Nothing, true)),
        Expr::BinOp(left, operator, right) => if operator == BinOp::And {
            match (lowered(*left), lowered(*right)) {
                (Some((a, first)), Some((b, second))) => Some(
                    (PredicateModel::And(seq![a, b]), first && second),
                ),
                (Some((a, _)), None) => Some((a, false)),
                (None, Some((b, _))) => Some((b, false)),
                (None, None) => None,
            }
        } else if operator == BinOp::Or {
            match (lowered(*left), lowered(*right)) {
                (Some((a, true)), Some((b, true))) => Some(
                    (PredicateModel::Or(seq![a, b]), true),
                ),
                _ => None,
            }
        } else {
            match atom(expression) {
                Some(comparison) => Some((PredicateModel::Compare(comparison), true)),
                None => None,
            }
        },
        Expr::UnaryOp(UnaryOp::Not, inner) => match lowered(*inner) {
            Some((a, true)) => Some((PredicateModel::Not(Box::new(a)), true)),
            _ => None,
        },
        Expr::Call(_, _) => match atom(expression) {
            Some(comparison) => Some((PredicateModel::Compare(comparison), true)),
            None => None,
        },
        _ => None,
    }
}

/// The requirements with those of the comparisons that lowering meets. The right
/// side of a disjunction is met only where the left side lowers.
pub open spec fn with_expression(
    requirements: HostedQueryRequirements,
    expression: Expr,
) -> HostedQueryRequirements
    decreases expression,
{
    match expression {
        Expr::BinOp(left, operator, right) => if operator == BinOp::And {
            with_expression(with_expression(requirements, *left), *right)
        } else if operator == BinOp::Or {
            if lowered(*left) is Some {
                with_expression(with_expression(requirements, *left), *right)
            } else {
                with_expression(requirements, *left)
            }
        } else {
            match atom(expression) {
                Some(comparison) => with_field(requirements, comparison.field),
                None => requirements,
            }
        },
        Expr::UnaryOp(UnaryOp::Not, inner) => with_expression(requirements, *inner),
        Expr::Call(_, _) => match atom(expression) {
            Some(comparison) => with_field(requirements, comparison.field),
            None => requirements,
        },
        _ => requirements,
    }
}

/// A lowered condition, and whether it says all that its expression does.
#[derive(Debug)]
pub struct LoweredPredicate {
    pub predicate: CandidatePredicate,
    pub complete: bool,
}

/// What an optional lowered condition holds.
pub open spec fn lowered_model(value: Option<LoweredPredicate>) -> Option<(PredicateModel, bool)> {
    match value {
        Some(value) => Some((value.predicate@, value.complete)),
        None => None,
    }
}

fn compare_with(
    field: CandidateField,
    operator: CandidateComparisonOperator,
    value: Json,
    requirements: &mut HostedQueryRequirements,
) -> (result: LoweredPredicate)
    ensures
        result.predicate@ == PredicateModel::Compare(comparison_of(field@, operator, value@)),
        result.complete,
        *final(requirements) == with_field(*old(requirements), field@),
{
    accumulate_field_requirement(&field, requirements);
    let pruning = comparison_pruning(operator, &value);
    LoweredPredicate {
        predicate: CandidatePredicate::Compare {
            comparison: CandidateComparison { field, operator, value, pruning },
        },
        complete: true,
    }
}

fn pair_of(left: CandidatePredicate, right: CandidatePredicate) -> (result: Vec<CandidatePredicate>)
    ensures
        predicate_models(result@) == seq![left@, right@],
{
    let mut terms: Vec<CandidatePredicate> = Vec::new();
    terms.push(left);
    terms.push(right);
    proof {
        assert(predicate_models(terms@) =~= seq![left@, right@]);
    }
    terms
}

/// Lowers an expression to a condition whose falsity rules a match out.
pub fn lower_expression(
    expression: &Expr,
    requirements: &mut HostedQueryRequirements,
) -> (result: Option<LoweredPredicate>)
    ensures
        lowered_model(result) == lowered(*expression),
        *final(requirements) == with_expression(*old(requirements), *expression),
    decreases expression,
{
    match expression {
        Expr::Bool(value) => if *value {
            Some(LoweredPredicate { predicate: CandidatePredicate::All, complete: true })
        } else {
            Some(LoweredPredicate { predicate: CandidatePredicate::Nothing, complete: true })
        },
        Expr::BinOp(left, operator, right) => {
            if *operator == BinOp::And {
                let first = lower_expression(left, requirements);
                let second = lower_expression(right, requirements);
                match (first, second) {
                    (Some(a), Some(b)) => {
                        let complete = a.complete && b.complete;
                        let terms = pair_of(a.predicate, b.predicate);
                        proof {
                            lemma_and_model(terms);
                        }
                        Some(
                            LoweredPredicate {
                                predicate: CandidatePredicate::And { terms },
                                complete,
                            },
                        )
                    },
                    (Some(safe), None) => Some(
                        LoweredPredicate { predicate: safe.predicate, complete: false },
                    ),
                    (None, Some(safe)) => Some(
                        LoweredPredicate { predicate: safe.predicate, complete: false },
                    ),
                    (None, None) => None,
                }
            } else if *operator == BinOp::Or {
                match lower_expression(left, requirements) {
                    None => None,
                    Some(a) => match lower_expression(right, requirements) {
                        None => None,
                        Some(b) => if a.complete && b.complete {
                            let terms = pair_of(a.predicate, b.predicate);
                            proof {
                                lemma_or_model(terms);
                            }
                            Some(
                                LoweredPredicate {
                                    predicate: CandidatePredicate::Or { terms },
                                    complete: true,
                                },
                            )
                        } else {
                            None
                        },
                    },
                }
            } else {
                if let Some(field) = lower_field(left) {
                    if let Some(value) = literal(right) {
                        return match to_operator(*operator, false) {
                            Some(lowered) => Some(compare_with(field, lowered, value, requirements)),
                            None => None,
                        };
                    }
                }
                if let Some(field) = lower_field(right) {
                    if let Some(value) = literal(left) {
                        return match to_operator(*operator, true) {
                            Some(lowered) => Some(compare_with(field, lowered, value, requirements)),
                            None => None,
                        };
                    }
                }
                None
            }
        },
        Expr::UnaryOp(operator, inner) => match operator {
            UnaryOp::Not => match lower_expression(inner, requirements) {
                Some(lowered) => if lowered.complete {
                    Some(
                        LoweredPredicate {
                            predicate: CandidatePredicate::Not { term: Box::new(lowered.predicate) },
                            complete: true,
                        },
                    )
                } else {
                    None
                },
                None => None,
            },
            UnaryOp::Neg => None,
        },
        Expr::Call(function, arguments) => {
            if arguments.len() == 1 {
                if let Expr::Dot(receiver, method) = &**function {
                    if same_text(method.as_str(), "contains") {
                        if let Some(field) = lower_field(receiver) {
                            if let Some(value) = literal(&arguments[0]) {
                                return Some(
                                    compare_with(
                                        field,
                                        CandidateComparisonOperator::Contains,
                                        value,
                                        requirements,
                                    ),
                                );
                            }
                        }
                    }
                }
            }
            None
        },
        _ => None,
    }
}

// ---------------------------------------------------------------------------
// Evaluation
// ---------------------------------------------------------------------------
#[derive(Debug, Clone, Copy, PartialEq, Eq, Structural)]
pub enum Truth {
    True,
    False,
    Unknown,
}

/// The truth of a settled question.
pub open spec fn truth_of(value: bool) -> Truth {
    if value {
        Truth::True
    } else {
        Truth::False
    }
}

pub fn bool_truth(value: bool) -> (result: Truth)
    ensures
        result == truth_of(value),
{
    if value {
        Truth::True
    } else {
        Truth::False
    }
}

/// The negation of a truth.
pub open spec fn negated(truth: Truth) -> Truth {
    match truth {
        Truth::True => Truth::False,
        Truth::False => Truth::True,
        Truth::Unknown => Truth::Unknown,
    }
}

/// The value at a path below a value.
pub open spec fn value_below(value: JsonModel, path: Seq<Seq<char>>) -> Option<JsonModel>
    decreases path.len(),
{
    if path.len() == 0 {
        Some(value)
    } else {
        match member_of(value, path[0]) {
            Some(inner) => value_below(inner, path.drop_first()),
            None => None,
        }
    }
}

pub fn find_below<'a>(value: &'a Json, path: &Vec<String>, from: usize) -> (result: Option<
    &'a Json,
>)
    requires
        from <= path@.len(),
    ensures
        match result {
            Some(found) => value_below(value@, texts(path@).skip(from as int)) == Some(found@),
            None => value_below(value@, texts(path@).skip(from as int)) is None,
        },
    decreases path@.len() - from,
{
    if from == path.len() {
        return Some(value);
    }
    proof {
        assert(texts(path@).skip(from as int).drop_first() =~= texts(path@).skip(from + 1));
        assert(texts(path@).skip(from as int)[0] == path@[from as int]@);
    }
    match value.get(path[from].as_str()) {
        Some(inner) => find_below(inner, path, from + 1),
        None => None,
    }
}

/// The value at a path below some members; nothing for an empty path.
pub open spec fn member_below(
    members: Seq<(Seq<char>, JsonModel)>,
    path: Seq<Seq<char>>,
) -> Option<JsonModel> {
    if path.len() == 0 {
        None
    } else {
        value_below(JsonModel::Object(members), path)
    }
}

pub fn nested<'a>(members: &'a Vec<Member>, path: &Vec<String>) -> (result: Option<&'a Json>)
    ensures
        match result {
            Some(found) => member_below(member_models(members@), texts(path@)) == Some(found@),
            None => member_below(member_models(members@), texts(path@)) is None,
        },
{
    if path.len() == 0 {
        return None;
    }
    proof {
        assert(texts(path@).drop_first() =~= texts(path@).skip(1));
        assert(texts(path@)[0] == path@[0]@);
    }
    match find_member(members, path[0].as_str()) {
        Some(value) => find_below(value, path, 1),
        None => None,
    }
}

/// The value that a projection holds for a field, where a comparison may rely on
/// it.
pub open spec fn projected_value(projection: SemanticProjection, field: FieldModel) -> Option<
    JsonModel,
> {
    match field {
        FieldModel::PersistedFrontmatter(path) => member_below(
            member_models(projection.facts.persisted_frontmatter@),
            path,
        ),
        FieldModel::EffectiveFrontmatter(path) => member_below(
            member_models(projection.facts.effective_frontmatter@),
            path,
        ),
        _ => None,
    }
}

pub fn projection_value<'a>(projection: &'a SemanticProjection, field: &CandidateField) -> (result:
    Option<&'a Json>)
    ensures
        match result {
            Some(value) => projected_value(*projection, field@) == Some(value@),
            None => projected_value(*projection, field@) is None,
        },
{
    match field {
        CandidateField::PersistedFrontmatter(path) => nested(
            &projection.facts.persisted_frontmatter,
            path,
        ),
        CandidateField::EffectiveFrontmatter(path) => nested(
            &projection.facts.effective_frontmatter,
            path,
        ),
        _ => None,
    }
}

/// Whether an order meets an ordering operator.
pub open spec fn order_meets(order: Order, operator: CandidateComparisonOperator) -> bool {
    match operator {
        CandidateComparisonOperator::LessThan => order == Order::Less,
        CandidateComparisonOperator::LessThanOrEqual => order != Order::Greater,
        CandidateComparisonOperator::GreaterThan => order == Order::Greater,
        _ => order != Order::Less,
    }
}

/// The truth of a value being among the items of a list.
#[verifier::opaque]
pub open spec fn membership(value: JsonModel, list: JsonModel) -> Truth {
    match list {
        JsonModel::Array(items) => truth_of(lists_value(items, value)),
        _ => Truth::Unknown,
    }
}

/// The truth of a list or a text containing a value.
#[verifier::opaque]
pub open spec fn containment(whole: JsonModel, part: JsonModel) -> Truth {
    match (whole, part) {
        (JsonModel::Array(items), _) => truth_of(lists_value(items, part)),
        (JsonModel::Text(a), JsonModel::Text(b)) => truth_of(has_part(a, b)),
        _ => Truth::Unknown,
    }
}

/// The truth of an ordering of two texts or two numbers.
#[verifier::opaque]
pub open spec fn ordering_truth(
    left: JsonModel,
    operator: CandidateComparisonOperator,
    right: JsonModel,
) -> Truth {
    match (left, right) {
        (JsonModel::Text(a), JsonModel::Text(b)) => truth_of(
            order_meets(text_order(a, b), operator),
        ),
        (JsonModel::Number(a), JsonModel::Number(b)) => truth_of(
            order_meets(number_order(a, b), operator),
        ),
        _ => Truth::Unknown,
    }
}

/// The truth of comparing a projected value with a literal.
pub open spec fn compared(
    left: JsonModel,
    operator: CandidateComparisonOperator,
    right: JsonModel,
) -> Truth {
    match operator {
        CandidateComparisonOperator::Equal => truth_of(same_json(left, right)),
        CandidateComparisonOperator::NotEqual => truth_of(!same_json(left, right)),
        CandidateComparisonOperator::In => membership(left, right),
        CandidateComparisonOperator::Contains => containment(left, right),
        _ => ordering_truth(left, operator, right),
    }
}

fn meets(order: Order, operator: CandidateComparisonOperator) -> (result: bool)
    ensures
        result == order_meets(order, operator),
{
    match operator {
        CandidateComparisonOperator::LessThan => order.is_lt(),
        CandidateComparisonOperator::LessThanOrEqual => !order.is_gt(),
        CandidateComparisonOperator::GreaterThan => order.is_gt(),
        _ => !order.is_lt(),
    }
}

fn compare_membership(value: &Json, list: &Json) -> (result: Truth)
    ensures
        result == membership(value@, list@),
{
    broadcast use crate::json::lemma_array_model;

    proof {
        reveal(membership);
    }
    match list {
        Json::Array(items) => bool_truth(items_contain(items, value)),
        _ => Truth::Unknown,
    }
}

fn compare_containment(whole: &Json, part: &Json) -> (result: Truth)
    ensures
        result == containment(whole@, part@),
{
    broadcast use crate::json::lemma_array_model;

    proof {
        reveal(containment);
    }
    match (whole, part) {
        (Json::Array(items), _) => bool_truth(items_contain(items, part)),
        (Json::Text(a), Json::Text(b)) => bool_truth(contains_text(a.as_str(), b.as_str())),
        _ => Truth::Unknown,
    }
}

fn compare_ordering(left: &Json, operator: CandidateComparisonOperator, right: &Json) -> (result:
    Truth)
    ensures
        result == ordering_truth(left@, operator, right@),
{
    proof {
        reveal(ordering_truth);
    }
    match (left, right) {
        (Json::Text(a), Json::Text(b)) => bool_truth(
            meets(compare_text(a.as_str(), b.as_str()), operator),
        ),
        (Json::Number(a), Json::Number(b)) => bool_truth(meets(compare_numbers(a, b), operator)),
        _ => Truth::Unknown,
    }
}

pub fn compare(left: &Json, operator: CandidateComparisonOperator, right: &Json) -> (result: Truth)
    ensures
        result == compared(left@, operator, right@),
{
    match operator {
        CandidateComparisonOperator::Equal => bool_truth(left.same(right)),
        CandidateComparisonOperator::NotEqual => bool_truth(!left.same(right)),
        CandidateComparisonOperator::In => compare_membership(left, right),
        CandidateComparisonOperator::Contains => compare_containment(left, right),
        _ => compare_ordering(left, operator, right),
    }
}

/// The truth of a comparison on a projection. Only an exact comparison of a
/// value that is there is settled.
pub open spec fn comparison_truth(
    comparison: ComparisonModel,
    projection: SemanticProjection,
) -> Truth {
    if comparison.pruning != CandidateComparisonPruning::ExactJson {
        Truth::Unknown
    } else {
        match projected_value(projection, comparison.field) {
            Some(value) => compared(value, comparison.operator, comparison.value),
            None => Truth::Unknown,
        }
    }
}

/// The truth of a condition on a projection.
pub open spec fn predicate_truth(
    predicate: PredicateModel,
    projection: SemanticProjection,
) -> Truth
    decreases predicate,
{
    match predicate {
        PredicateModel::All => Truth::True,
        PredicateModel::Nothing => Truth::False,
        PredicateModel::And(terms) => if exists|i: int|
            0 <= i < terms.len() && predicate_truth(#[trigger] terms[i], projection)
                == Truth::False {
            Truth::False
        } else if exists|i: int|
            0 <= i < terms.len() && predicate_truth(#[trigger] terms[i], projection)
                == Truth::Unknown {
            Truth::Unknown
        } else {
            Truth::True
        },
        PredicateModel::Or(terms) => if exists|i: int|
            0 <= i < terms.len() && predicate_truth(#[trigger] terms[i], projection)
                == Truth::True {
            Truth::True
        } else if exists|i: int|
            0 <= i < terms.len() && predicate_truth(#[trigger] terms[i], projection)
                == Truth::Unknown {
            Truth::Unknown
        } else {
            Truth::False
        },
        PredicateModel::Not(term) => negated(predicate_truth(*term, projection)),
        PredicateModel::HasType(name) => truth_of(lists_text(projection.facts.types@, name)),
        PredicateModel::Compare(comparison) => comparison_truth(comparison, projection),
    }
}

/// Which truths occur among conditions.
struct Tally {
    has_true: bool,
    has_false: bool,
    has_unknown: bool,
}

/// Whether some condition has a truth.
spec fn occurs(models: Seq<PredicateModel>, projection: SemanticProjection, truth: Truth) -> bool {
    exists|i: int|
        0 <= i < models.len() && predicate_truth(#[trigger] models[i], projection) == truth
}

fn tally(terms: &Vec<CandidatePredicate>, projection: &SemanticProjection) -> (result: Tally)
    ensures
        result.has_true == occurs(predicate_models(terms@), *projection, Truth::True),
        result.has_false == occurs(predicate_models(terms@), *projection, Truth::False),
        result.has_unknown == occurs(predicate_models(terms@), *projection, Truth::Unknown),
    decreases terms,
{
    let ghost all = predicate_models(terms@);
    let mut has_true = false;
    let mut has_false = false;
    let mut has_unknown = false;
    let mut i: usize = 0;
    while i < terms.len()
        invariant
            i <= terms@.len(),
            all == predicate_models(terms@),
            has_true == exists|k: int|
                0 <= k < i && predicate_truth(#[trigger] all[k], *projection) == Truth::True,
            has_false == exists|k: int|
                0 <= k < i && predicate_truth(#[trigger] all[k], *projection) == Truth::False,
            has_unknown == exists|k: int|
                0 <= k < i && predicate_truth(#[trigger] all[k], *projection) == Truth::Unknown,
        decreases terms@.len() - i,
    {
        let truth = evaluate_predicate(&terms[i], projection);
        proof {
            assert(predicate_truth(all[i as int], *projection) == truth);
        }
        match truth {
            Truth::True => {
                has_true = true;
            },
            Truth::False => {
                has_false = true;
            },
            Truth::Unknown => {
                has_unknown = true;
            },
        }
        i = i + 1;
    }
    Tally { has_true, has_false, has_unknown }
}

pub fn evaluate_predicate(predicate: &CandidatePredicate, projection: &SemanticProjection) -> (result:
    Truth)
    ensures
        result == predicate_truth(predicate@, *projection),
    decreases predicate,
{
    match predicate {
        CandidatePredicate::All => Truth::True,
        CandidatePredicate::Nothing => Truth::False,
        CandidatePredicate::And { terms } => {
            let counts = tally(terms, projection);
            proof {
                lemma_and_model(*terms);
                assert(predicate@ == PredicateModel::And(predicate_models(terms@)));
            }
            if counts.has_false {
                Truth::False
            } else if counts.has_unknown {
                Truth::Unknown
            } else {
                Truth::True
            }
        },
        CandidatePredicate::Or { terms } => {
            let counts = tally(terms, projection);
            proof {
                lemma_or_model(*terms);
                assert(predicate@ == PredicateModel::Or(predicate_models(terms@)));
            }
            if counts.has_true {
                Truth::True
            } else if counts.has_unknown {
                Truth::Unknown
            } else {
                Truth::False
            }
        },
        CandidatePredicate::Not { term } => match evaluate_predicate(term, projection) {
            Truth::True => Truth::False,
            Truth::False => Truth::True,
            Truth::Unknown => Truth::Unknown,
        },
        CandidatePredicate::HasType { record_type } => bool_truth(
            list_contains(&projection.facts.types, record_type.as_str()),
        ),
        CandidatePredicate::Compare { comparison } => {
            if comparison.pruning == CandidateComparisonPruning::ExactJson {
                match projection_value(projection, &comparison.field) {
                    Some(value) => compare(value, comparison.operator, &comparison.value),
                    None => Truth::Unknown,
                }
            } else {
                Truth::Unknown
            }
        },
    }
}

// ---------------------------------------------------------------------------
// Soundness
// ---------------------------------------------------------------------------
/// Whether a value comes before another: a text in dictionary order, a number by its
/// reading. Nothing is said of other values.
pub open spec fn precedes(left: JsonModel, right: JsonModel) -> Option<bool> {
    match (left, right) {
        (JsonModel::Text(a), JsonModel::Text(b)) => Some(stands_before(a, b)),
        (JsonModel::Number(a), JsonModel::Number(b)) => Some(number_order(a, b) == Order::Less),
        _ => None,
    }
}

pub open spec fn opposite(value: Option<bool>) -> Option<bool> {
    match value {
        Some(value) => Some(!value),
        None => None,
    }
}

/// What an operator says of two values, where their kinds settle it.
#[verifier::opaque]
pub open spec fn stated(left: JsonModel, operator: BinOp, right: JsonModel) -> Option<bool> {
    match operator {
        BinOp::Eq => Some(same_json(left, right)),
        BinOp::Neq => Some(!same_json(left, right)),
        BinOp::Lt => precedes(left, right),
        BinOp::Gt => precedes(right, left),
        BinOp::Lte => opposite(precedes(right, left)),
        BinOp::Gte => opposite(precedes(left, right)),
        BinOp::In => match (left, right) {
            (_, JsonModel::Array(items)) => Some(lists_value(items, left)),
            (JsonModel::Text(part), JsonModel::Text(whole)) => Some(is_within(part, whole)),
            _ => None,
        },
        _ => None,
    }
}

/// Whether a literal is compared as it is written: a text that could be read as a
/// number or a date is not.
pub open spec fn is_plain_literal(value: JsonModel) -> bool {
    match value {
        JsonModel::Null => true,
        JsonModel::Bool(_) => true,
        JsonModel::Text(text) => !parses_as_float(text) && !parses_as_date(text)
            && !parses_as_date_time(text) && !parses_as_rfc3339(text),
        _ => false,
    }
}

/// Whether a comparison with a literal on one side is settled by the values as they
/// are written.
#[verifier::opaque]
pub open spec fn is_settled_by(operator: BinOp, literal: JsonModel, literal_first: bool) -> bool {
    match operator {
        BinOp::Eq | BinOp::Neq => is_plain_literal(literal),
        BinOp::Lt | BinOp::Lte | BinOp::Gt | BinOp::Gte => literal is Number || (literal is Text
            && is_plain_literal(literal)),
        BinOp::In => if literal_first {
            is_plain_literal(literal)
        } else {
            match literal {
                JsonModel::Array(items) => forall|i: int|
                    0 <= i < items.len() ==> is_plain_literal(#[trigger] items[i]),
                _ => false,
            }
        },
        _ => false,
    }
}

/// The value of a side of a comparison on a projection: a literal's own, or that of
/// the field that it reads.
pub open spec fn side_value(expression: Expr, projection: SemanticProjection) -> Option<JsonModel> {
    match field_of(expression) {
        Some(field) => projected_value(projection, field),
        None => literal_model(expression),
    }
}

/// Whether a field is compared with a literal that settles it.
pub open spec fn is_settled(left: Expr, operator: BinOp, right: Expr) -> bool {
    ||| field_of(left) is Some && literal_model(right) is Some && is_settled_by(
        operator,
        literal_model(right)->0,
        false,
    )
    ||| field_of(right) is Some && literal_model(left) is Some && is_settled_by(
        operator,
        literal_model(left)->0,
        true,
    )
}

/// What a comparison of a field with a literal says on a projection, where the
/// values settle it.
pub open spec fn binary_meaning(
    left: Expr,
    operator: BinOp,
    right: Expr,
    projection: SemanticProjection,
) -> Option<bool> {
    match (side_value(left, projection), side_value(right, projection)) {
        (Some(a), Some(b)) => if is_settled(left, operator, right) {
            stated(a, operator, b)
        } else {
            None
        },
        _ => None,
    }
}

/// What a call of `contains` on a field says on a projection, where the values settle
/// it: that the argument is in the field's value.
pub open spec fn call_meaning(
    function: Expr,
    arguments: Seq<Expr>,
    projection: SemanticProjection,
) -> Option<bool> {
    match function {
        Expr::Dot(receiver, method) => if method@ == "contains"@ && arguments.len() == 1 {
            binary_meaning(arguments[0], BinOp::In, *receiver, projection)
        } else {
            None
        },
        _ => None,
    }
}

/// Whether a truth does not contradict what was said.
pub open spec fn agrees(truth: Truth, said: Option<bool>) -> bool {
    match said {
        Some(true) => truth != Truth::False,
        Some(false) => truth != Truth::True,
        None => true,
    }
}

/// Canonical truths of expressions on one record that respect the connectives
/// and the literals, and that never contradict what settled comparisons say of the
/// values. A truth of `Unknown` stands for an evaluation error or a value that is no
/// truth.
pub open spec fn is_canonical(
    meaning: spec_fn(Expr) -> Truth,
    projection: SemanticProjection,
) -> bool {
    &&& meaning(Expr::Bool(true)) != Truth::False
    &&& meaning(Expr::Bool(false)) != Truth::True
    &&& forall|left: Box<Expr>, right: Box<Expr>| #[trigger]
        meaning(Expr::BinOp(left, BinOp::And, right)) == Truth::True ==> meaning(*left)
            == Truth::True && meaning(*right) == Truth::True
    &&& forall|left: Box<Expr>, right: Box<Expr>| #[trigger]
        meaning(Expr::BinOp(left, BinOp::And, right)) == Truth::False ==> meaning(*left)
            == Truth::False || meaning(*right) == Truth::False
    &&& forall|left: Box<Expr>, right: Box<Expr>| #[trigger]
        meaning(Expr::BinOp(left, BinOp::Or, right)) == Truth::True ==> meaning(*left)
            == Truth::True || meaning(*right) == Truth::True
    &&& forall|left: Box<Expr>, right: Box<Expr>| #[trigger]
        meaning(Expr::BinOp(left, BinOp::Or, right)) == Truth::False ==> meaning(*left)
            == Truth::False && meaning(*right) == Truth::False
    &&& forall|inner: Box<Expr>| #[trigger]
        meaning(Expr::UnaryOp(UnaryOp::Not, inner)) == Truth::True ==> meaning(*inner)
            == Truth::False
    &&& forall|inner: Box<Expr>| #[trigger]
        meaning(Expr::UnaryOp(UnaryOp::Not, inner)) == Truth::False ==> meaning(*inner)
            == Truth::True
    &&& forall|left: Box<Expr>, operator: BinOp, right: Box<Expr>|
        operator != BinOp::And && operator != BinOp::Or ==> agrees(
            #[trigger] meaning(Expr::BinOp(left, operator, right)),
            binary_meaning(*left, operator, *right, projection),
        )
    &&& forall|function: Box<Expr>, arguments: Vec<Expr>|
        agrees(
            #[trigger] meaning(Expr::Call(function, arguments)),
            call_meaning(*function, arguments@, projection),
        )
}

/// Equality holds of two values exactly where they are the same, and inequality
/// exactly where they are not.
pub proof fn lemma_equality_means_what_it_says(left: JsonModel, right: JsonModel)
    ensures
        compared(left, CandidateComparisonOperator::Equal, right) == Truth::True <==> same_json(
            left,
            right,
        ),
        compared(left, CandidateComparisonOperator::Equal, right) == Truth::False <==> !same_json(
            left,
            right,
        ),
        compared(left, CandidateComparisonOperator::NotEqual, right) == Truth::True
            <==> !same_json(left, right),
        compared(left, CandidateComparisonOperator::NotEqual, right) == Truth::False
            <==> same_json(left, right),
        compared(left, CandidateComparisonOperator::NotEqual, right) == negated(
            compared(left, CandidateComparisonOperator::Equal, right),
        ),
{
}

/// The orderings hold of two texts or two numbers by which of them comes first, and
/// settle nothing of other values. Exchanging the sides exchanges them.
pub proof fn lemma_orderings_mean_what_they_say(left: JsonModel, right: JsonModel)
    ensures
        compared(left, CandidateComparisonOperator::LessThan, right) == truth_said(
            precedes(left, right),
        ),
        compared(left, CandidateComparisonOperator::GreaterThan, right) == truth_said(
            precedes(right, left),
        ),
        compared(left, CandidateComparisonOperator::LessThanOrEqual, right) == truth_said(
            opposite(precedes(right, left)),
        ),
        compared(left, CandidateComparisonOperator::GreaterThanOrEqual, right) == truth_said(
            opposite(precedes(left, right)),
        ),
{
    reveal(ordering_truth);
    match (left, right) {
        (JsonModel::Text(a), JsonModel::Text(b)) => {
            lemma_texts_stand_in_dictionary_order(a, b);
        },
        (JsonModel::Number(a), JsonModel::Number(b)) => {
            lemma_numbers_stand_in_order(a, b);
        },
        _ => {},
    }
}

/// A value is in a list exactly where one of the items is the same, and a text holds
/// another exactly where that is a part of it.
pub proof fn lemma_membership_means_what_it_says(left: JsonModel, right: JsonModel)
    ensures
        right is Array ==> compared(left, CandidateComparisonOperator::In, right) == truth_said(
            stated(left, BinOp::In, right),
        ),
        !(right is Array) ==> compared(left, CandidateComparisonOperator::In, right)
            == Truth::Unknown,
        compared(left, CandidateComparisonOperator::Contains, right) == truth_said(
            stated(right, BinOp::In, left),
        ),
{
    reveal(membership);
    reveal(containment);
    reveal(stated);
    match (left, right) {
        (JsonModel::Text(a), JsonModel::Text(b)) => {
            lemma_parts_of_texts(a, b);
        },
        _ => {},
    }
}

/// The truth of what was said.
pub open spec fn truth_said(said: Option<bool>) -> Truth {
    match said {
        Some(true) => Truth::True,
        Some(false) => Truth::False,
        None => Truth::Unknown,
    }
}

/// The condition that an expression lowers to.
pub open spec fn condition_of(expression: Expr) -> PredicateModel {
    match lowered(expression) {
        Some((condition, _)) => condition,
        None => PredicateModel::All,
    }
}

/// Whether an expression lowers completely.
pub open spec fn is_complete(expression: Expr) -> bool {
    match lowered(expression) {
        Some((_, complete)) => complete,
        None => false,
    }
}

/// Whether the truth of a condition is compatible with the canonical truth of
/// the expression it was lowered from.
pub open spec fn compatible(condition: Truth, complete: bool, canonical: Truth) -> bool {
    &&& condition == Truth::False ==> canonical != Truth::True
    &&& complete && condition == Truth::True ==> canonical != Truth::False
}

/// Lowering only broadens: where the lowered condition is false of a projection,
/// the expression does not hold of the record, whatever the canonical evaluator
/// makes of the parts that were not lowered. Where the lowering is complete and
/// the condition is true, the expression is not false.
pub proof fn lemma_lowering_is_sound(
    expression: Expr,
    meaning: spec_fn(Expr) -> Truth,
    projection: SemanticProjection,
)
    requires
        is_canonical(meaning, projection),
        lowered(expression) is Some,
    ensures
        compatible(
            predicate_truth(condition_of(expression), projection),
            is_complete(expression),
            meaning(expression),
        ),
    decreases expression,
{
    match expression {
        Expr::BinOp(left, operator, right) => {
            if lowered(*left) is Some {
                if operator == BinOp::And || operator == BinOp::Or {
                    lemma_lowering_is_sound(*left, meaning, projection);
                }
            }
            if lowered(*right) is Some {
                if operator == BinOp::And || operator == BinOp::Or {
                    lemma_lowering_is_sound(*right, meaning, projection);
                }
            }
            if operator == BinOp::And {
                lemma_sound_and(left, right, meaning, projection);
            } else if operator == BinOp::Or {
                lemma_sound_or(left, right, meaning, projection);
            } else {
                lemma_sound_atom(expression, meaning, projection);
            }
        },
        Expr::UnaryOp(operator, inner) => {
            lemma_lowering_is_sound(*inner, meaning, projection);
            lemma_sound_not(inner, meaning, projection);
        },
        Expr::Call(_, _) => {
            lemma_sound_atom(expression, meaning, projection);
        },
        Expr::Bool(value) => {},
        _ => {},
    }
}

proof fn lemma_sound_atom(
    expression: Expr,
    meaning: spec_fn(Expr) -> Truth,
    projection: SemanticProjection,
)
    requires
        is_canonical(meaning, projection),
        lowered(expression) is Some,
        atom(expression) is Some,
        condition_of(expression) == PredicateModel::Compare(atom(expression)->0),
    ensures
        compatible(
            predicate_truth(condition_of(expression), projection),
            is_complete(expression),
            meaning(expression),
        ),
{
    let comparison = atom(expression)->0;
    let value = projected_value(projection, comparison.field);
    if comparison.pruning == CandidateComparisonPruning::ExactJson && value is Some {
        match expression {
            Expr::BinOp(left, operator, right) => {
                lemma_sides(*left, projection);
                lemma_sides(*right, projection);
                if field_of(*left) is Some && literal_model(*right) is Some {
                    lemma_forward(operator, value->0, comparison.value);
                } else {
                    lemma_backward(operator, value->0, comparison.value);
                }
                assert(agrees(
                    meaning(expression),
                    binary_meaning(*left, operator, *right, projection),
                ));
            },
            Expr::Call(function, arguments) => {
                if let Expr::Dot(receiver, method) = *function {
                    lemma_sides(*receiver, projection);
                    lemma_sides(arguments@[0], projection);
                    lemma_backward(BinOp::In, value->0, comparison.value);
                }
                assert(agrees(
                    meaning(expression),
                    call_meaning(*function, arguments@, projection),
                ));
            },
            _ => {},
        }
    }
}

/// A comparison of a field with a literal after it says what its operator states.
proof fn lemma_forward(operator: BinOp, value: JsonModel, literal: JsonModel)
    requires
        operator_of(operator, false) is Some,
        pruning_of(operator_of(operator, false)->0, literal)
            == CandidateComparisonPruning::ExactJson,
    ensures
        is_settled_by(operator, literal, false),
        compared(value, operator_of(operator, false)->0, literal) == truth_said(
            stated(value, operator, literal),
        ),
{
    if operator == BinOp::In {
        lemma_forward_membership(value, literal);
    } else if operator == BinOp::Eq || operator == BinOp::Neq {
        lemma_forward_equality(operator, value, literal);
    } else {
        lemma_forward_ordering(operator, value, literal);
    }
}

proof fn lemma_forward_equality(operator: BinOp, value: JsonModel, literal: JsonModel)
    requires
        operator == BinOp::Eq || operator == BinOp::Neq,
        pruning_of(operator_of(operator, false)->0, literal)
            == CandidateComparisonPruning::ExactJson,
    ensures
        is_settled_by(operator, literal, false),
        compared(value, operator_of(operator, false)->0, literal) == truth_said(
            stated(value, operator, literal),
        ),
{
    reveal(stated);
    reveal(is_settled_by);
    lemma_equality_means_what_it_says(value, literal);
}

proof fn lemma_forward_ordering(operator: BinOp, value: JsonModel, literal: JsonModel)
    requires
        operator == BinOp::Lt || operator == BinOp::Lte || operator == BinOp::Gt || operator
            == BinOp::Gte,
        pruning_of(operator_of(operator, false)->0, literal)
            == CandidateComparisonPruning::ExactJson,
    ensures
        is_settled_by(operator, literal, false),
        compared(value, operator_of(operator, false)->0, literal) == truth_said(
            stated(value, operator, literal),
        ),
{
    reveal(stated);
    reveal(is_settled_by);
    lemma_orderings_mean_what_they_say(value, literal);
}

proof fn lemma_forward_membership(value: JsonModel, literal: JsonModel)
    requires
        pruning_of(CandidateComparisonOperator::In, literal)
            == CandidateComparisonPruning::ExactJson,
    ensures
        is_settled_by(BinOp::In, literal, false),
        compared(value, CandidateComparisonOperator::In, literal) == truth_said(
            stated(value, BinOp::In, literal),
        ),
{
    reveal(is_settled_by);
    lemma_membership_means_what_it_says(value, literal);
    assert(literal is Array);
    let items = literal->Array_0;
    assert(all_exact(items));
    assert forall|i: int| 0 <= i < items.len() implies is_plain_literal(#[trigger] items[i]) by {
        assert(is_exact_scalar(items[i]));
    }
}

/// A comparison of a literal with a field after it says what its operator states.
proof fn lemma_backward(operator: BinOp, value: JsonModel, literal: JsonModel)
    requires
        operator_of(operator, true) is Some,
        pruning_of(operator_of(operator, true)->0, literal)
            == CandidateComparisonPruning::ExactJson,
    ensures
        is_settled_by(operator, literal, true),
        compared(value, operator_of(operator, true)->0, literal) == truth_said(
            stated(literal, operator, value),
        ),
{
    match operator {
        BinOp::Eq | BinOp::Neq => {
            reveal(stated);
            reveal(is_settled_by);
            lemma_equality_means_what_it_says(value, literal);
            if same_json(value, literal) {
                crate::json::lemma_same_json_symmetric(value, literal);
            }
            if same_json(literal, value) {
                crate::json::lemma_same_json_symmetric(literal, value);
            }
        },
        BinOp::In => {
            reveal(is_settled_by);
            lemma_membership_means_what_it_says(value, literal);
        },
        _ => {
            reveal(stated);
            reveal(is_settled_by);
            lemma_orderings_mean_what_they_say(value, literal);
        },
    }
}

/// A literal reads no field.
proof fn lemma_sides(expression: Expr, projection: SemanticProjection)
    ensures
        literal_model(expression) is Some ==> field_of(expression) is None && side_value(
            expression,
            projection,
        ) == literal_model(expression),
{
}

proof fn lemma_sound_and(
    left: Box<Expr>,
    right: Box<Expr>,
    meaning: spec_fn(Expr) -> Truth,
    projection: SemanticProjection,
)
    requires
        is_canonical(meaning, projection),
        lowered(Expr::BinOp(left, BinOp::And, right)) is Some,
        lowered(*left) is Some ==> compatible(
            predicate_truth(condition_of(*left), projection),
            is_complete(*left),
            meaning(*left),
        ),
        lowered(*right) is Some ==> compatible(
            predicate_truth(condition_of(*right), projection),
            is_complete(*right),
            meaning(*right),
        ),
    ensures
        compatible(
            predicate_truth(condition_of(Expr::BinOp(left, BinOp::And, right)), projection),
            is_complete(Expr::BinOp(left, BinOp::And, right)),
            meaning(Expr::BinOp(left, BinOp::And, right)),
        ),
{
    let expression = Expr::BinOp(left, BinOp::And, right);
    if lowered(*left) is Some && lowered(*right) is Some {
        let terms = seq![condition_of(*left), condition_of(*right)];
        assert(condition_of(expression) == PredicateModel::And(terms));
        lemma_pair_truth(terms, projection);
    }
}

proof fn lemma_sound_or(
    left: Box<Expr>,
    right: Box<Expr>,
    meaning: spec_fn(Expr) -> Truth,
    projection: SemanticProjection,
)
    requires
        is_canonical(meaning, projection),
        lowered(Expr::BinOp(left, BinOp::Or, right)) is Some,
        compatible(
            predicate_truth(condition_of(*left), projection),
            is_complete(*left),
            meaning(*left),
        ),
        compatible(
            predicate_truth(condition_of(*right), projection),
            is_complete(*right),
            meaning(*right),
        ),
    ensures
        compatible(
            predicate_truth(condition_of(Expr::BinOp(left, BinOp::Or, right)), projection),
            is_complete(Expr::BinOp(left, BinOp::Or, right)),
            meaning(Expr::BinOp(left, BinOp::Or, right)),
        ),
{
    let expression = Expr::BinOp(left, BinOp::Or, right);
    let terms = seq![condition_of(*left), condition_of(*right)];
    assert(condition_of(expression) == PredicateModel::Or(terms));
    lemma_pair_truth(terms, projection);
}

proof fn lemma_sound_not(
    inner: Box<Expr>,
    meaning: spec_fn(Expr) -> Truth,
    projection: SemanticProjection,
)
    requires
        is_canonical(meaning, projection),
        lowered(Expr::UnaryOp(UnaryOp::Not, inner)) is Some,
        compatible(
            predicate_truth(condition_of(*inner), projection),
            is_complete(*inner),
            meaning(*inner),
        ),
    ensures
        compatible(
            predicate_truth(condition_of(Expr::UnaryOp(UnaryOp::Not, inner)), projection),
            is_complete(Expr::UnaryOp(UnaryOp::Not, inner)),
            meaning(Expr::UnaryOp(UnaryOp::Not, inner)),
        ),
{
}

/// The truth of a conjunction and of a disjunction of two conditions.
pub proof fn lemma_pair_truth(terms: Seq<PredicateModel>, projection: SemanticProjection)
    requires
        terms.len() == 2,
    ensures
        ({
            let a = predicate_truth(terms[0], projection);
            let b = predicate_truth(terms[1], projection);
            let both = predicate_truth(PredicateModel::And(terms), projection);
            let either = predicate_truth(PredicateModel::Or(terms), projection);
            &&& both == Truth::False <==> a == Truth::False || b == Truth::False
            &&& both == Truth::True <==> a == Truth::True && b == Truth::True
            &&& either == Truth::True <==> a == Truth::True || b == Truth::True
            &&& either == Truth::False <==> a == Truth::False && b == Truth::False
        }),
{
    let a = predicate_truth(terms[0], projection);
    let b = predicate_truth(terms[1], projection);
}

/// A settled comparison is decided: where a projection has the field's value, the lowered
/// comparison says of it just what the operator states of the value and the literal.
pub proof fn lemma_settled_comparisons_are_decided(
    field: FieldModel,
    operator: BinOp,
    literal: JsonModel,
    projection: SemanticProjection,
)
    requires
        operator_of(operator, false) is Some,
        is_settled_by(operator, literal, false),
        projected_value(projection, field) is Some,
    ensures
        predicate_truth(
            PredicateModel::Compare(
                comparison_of(field, operator_of(operator, false)->0, literal),
            ),
            projection,
        ) == truth_said(stated(projected_value(projection, field)->0, operator, literal)),
{
    reveal(is_settled_by);
    let lowered = operator_of(operator, false)->0;
    assert(forall|value: JsonModel| #[trigger] is_plain_literal(value) ==> is_exact_scalar(value));
    if operator == BinOp::In {
        if let JsonModel::Array(items) = literal {
            assert forall|i: int| 0 <= i < items.len() implies is_exact_scalar(
                #[trigger] items[i],
            ) by {
                assert(is_plain_literal(items[i]));
            }
        }
    }
    assert(pruning_of(lowered, literal) == CandidateComparisonPruning::ExactJson);
    lemma_forward(operator, projected_value(projection, field)->0, literal);
}

} // verus!
