//! What lowered conditions read and when they hold.

use crate::expressions::{BinOp, Expr, UnaryOp};
use crate::hosted_plan::{FieldModel, HostedQueryRequirements, PredicateModel};
use crate::json::{lookup, member_models, member_of, JsonModel};
use crate::lowering::{
    is_file_fact, is_namespace, lowered, predicate_truth, projected_value, query_field, value_below,
    with_expression, Truth,
};
use crate::projection::SemanticProjection;
use crate::text::{lemma_split_single, split_on};
use vstd::prelude::*;

verus! {

// ---------------------------------------------------------------------------
// Fields
// ---------------------------------------------------------------------------
/// Splitting at the separators of two texts joined by one gives the parts of both.
pub proof fn lemma_split_of_joined(left: Seq<char>, right: Seq<char>, separator: char)
    ensures
        split_on(left + seq![separator] + right, separator) == split_on(left, separator)
            + split_on(right, separator),
    decreases right.len(),
{
    let whole = left + seq![separator] + right;
    crate::text::lemma_split_nonempty(right, separator);
    if right.len() == 0 {
        assert(whole =~= left.push(separator));
        assert(whole.drop_last() =~= left);
        assert(split_on(whole, separator) =~= split_on(left, separator) + split_on(
            right,
            separator,
        ));
    } else {
        let front = right.drop_last();
        lemma_split_of_joined(left, front, separator);
        crate::text::lemma_split_nonempty(front, separator);
        assert(whole.drop_last() =~= left + seq![separator] + front);
        assert(whole.last() == right.last());
        assert(split_on(whole, separator) =~= split_on(left, separator) + split_on(
            right,
            separator,
        ));
    }
}

/// A text with one separator in it splits in two.
proof fn lemma_split_pair(left: Seq<char>, right: Seq<char>, separator: char)
    requires
        !left.contains(separator),
        !right.contains(separator),
    ensures
        split_on(left + seq![separator] + right, separator) == seq![left, right],
{
    lemma_split_of_joined(left, right, separator);
    lemma_split_single(left, separator);
    lemma_split_single(right, separator);
    assert(seq![left] + seq![right] =~= seq![left, right]);
}

proof fn lemma_root_names()
    ensures
        !"record"@.contains('.') && !"note"@.contains('.') && !"raw"@.contains('.')
            && !"file"@.contains('.') && !"types"@.contains('.'),
        "record"@ != "raw"@ && "record"@ != "file"@ && "record"@ != "types"@,
        "note"@ != "raw"@ && "note"@ != "file"@ && "note"@ != "types"@,
        "raw"@ != "file"@ && "raw"@ != "types"@ && "file"@ != "types"@,
        "tags"@ != "path"@ && !"tags"@.contains('.') && !"path"@.contains('.'),
        is_namespace("record"@) && is_namespace("note"@) && is_namespace("raw"@) && is_namespace(
            "file"@,
        ),
{
    reveal_strlit("record");
    reveal_strlit("note");
    reveal_strlit("raw");
    reveal_strlit("file");
    reveal_strlit("types");
    reveal_strlit("tags");
    reveal_strlit("path");
    assert("record"@.len() == 6 && "note"@.len() == 4 && "raw"@.len() == 3 && "file"@.len() == 4
        && "types"@.len() == 5 && "note"@[0] == 'n' && "file"@[0] == 'f');
    assert("tags"@[0] == 't' && "path"@[0] == 'p');
}

/// A bare name, and a name under `record` or `note`, is a field of the effective
/// frontmatter; a name under `raw` is a field as it is written in the record. Names of
/// contexts are no fields.
pub proof fn lemma_names_of_fields(name: Seq<char>)
    requires
        !name.contains('.'),
    ensures
        name != "types"@ && !is_namespace(name) ==> query_field(name) == Some(
            FieldModel::EffectiveFrontmatter(seq![name]),
        ),
        query_field("record"@ + seq!['.'] + name) == Some(
            FieldModel::EffectiveFrontmatter(seq![name]),
        ),
        query_field("note"@ + seq!['.'] + name) == Some(
            FieldModel::EffectiveFrontmatter(seq![name]),
        ),
        query_field("raw"@ + seq!['.'] + name) == Some(
            FieldModel::PersistedFrontmatter(seq![name]),
        ),
        query_field("file"@ + seq!['.'] + "path"@) == Some(FieldModel::Path),
        query_field("file"@ + seq!['.'] + "tags"@) == Some(FieldModel::BodyTags),
        is_file_fact(name) ==> query_field("file"@ + seq!['.'] + name) == Some(
            FieldModel::File(name),
        ),
        query_field("types"@) == Some(FieldModel::Types),
        is_namespace(name) && name != "record"@ && name != "note"@ && name != "raw"@
            ==> query_field(name) is None,
{
    lemma_root_names();
    lemma_split_single(name, '.');
    lemma_split_single("types"@, '.');
    lemma_split_pair("record"@, name, '.');
    lemma_split_pair("note"@, name, '.');
    lemma_split_pair("raw"@, name, '.');
    lemma_split_pair("file"@, name, '.');
    lemma_split_pair("file"@, "path"@, '.');
    lemma_split_pair("file"@, "tags"@, '.');
    let parts = seq!["record"@, name];
    assert(parts.drop_first() =~= seq![name]);
    assert(seq!["note"@, name].drop_first() =~= seq![name]);
    assert(seq!["raw"@, name].drop_first() =~= seq![name]);
    assert(is_file_fact(name) ==> name != "tags"@ && name != "path"@) by {
        reveal_strlit("name");
        reveal_strlit("basename");
        reveal_strlit("ext");
        reveal_strlit("size");
        reveal_strlit("mtime");
        reveal_strlit("tags");
        reveal_strlit("path");
        assert("name"@[0] == 'n' && "size"@[0] == 's' && "tags"@[0] == 't' && "path"@[0] == 'p'
            && "basename"@.len() == 8 && "ext"@.len() == 3 && "mtime"@.len() == 5 && "tags"@.len()
            == 4 && "path"@.len() == 4);
    }
    assert(name == "types"@ || !(name == "types"@ && is_namespace(name)));
    assert(!is_namespace("types"@)) by {
        lemma_types_is_no_namespace();
    }
}

proof fn lemma_types_is_no_namespace()
    ensures
        !is_namespace("types"@),
{
    reveal_strlit("types");
    reveal_strlit("record");
    reveal_strlit("raw");
    reveal_strlit("present");
    reveal_strlit("file");
    reveal_strlit("note");
    reveal_strlit("projection");
    reveal_strlit("this");
    reveal_strlit("values");
    reveal_strlit("old");
    reveal_strlit("operation");
    reveal_strlit("event");
    reveal_strlit("workflow");
    reveal_strlit("trigger");
    reveal_strlit("steps");
    reveal_strlit("vars");
    reveal_strlit("item");
    assert("types"@.len() == 5 && "types"@[0] == 't' && "event"@[0] == 'e' && "steps"@[0] == 's'
        && "record"@.len() == 6 && "raw"@.len() == 3 && "present"@.len() == 7 && "file"@.len() == 4
        && "note"@.len() == 4 && "projection"@.len() == 10 && "this"@.len() == 4
        && "values"@.len() == 6 && "old"@.len() == 3 && "operation"@.len() == 9
        && "workflow"@.len() == 8 && "trigger"@.len() == 7 && "vars"@.len() == 4 && "item"@.len()
        == 4);
}

/// What a projection holds for a field of one name: the member of that name in the
/// frontmatter as it is written, or as it is in effect; nothing for other fields.
pub proof fn lemma_projected_members(projection: SemanticProjection, name: Seq<char>)
    ensures
        projected_value(projection, FieldModel::PersistedFrontmatter(seq![name])) == lookup(
            member_models(projection.facts.persisted_frontmatter@),
            name,
        ),
        projected_value(projection, FieldModel::EffectiveFrontmatter(seq![name])) == lookup(
            member_models(projection.facts.effective_frontmatter@),
            name,
        ),
        projected_value(projection, FieldModel::Path) is None,
        projected_value(projection, FieldModel::Types) is None,
        projected_value(projection, FieldModel::BodyTags) is None,
        projected_value(projection, FieldModel::File(name)) is None,
{
    lemma_value_at_one(
        JsonModel::Object(member_models(projection.facts.persisted_frontmatter@)),
        name,
    );
    lemma_value_at_one(
        JsonModel::Object(member_models(projection.facts.effective_frontmatter@)),
        name,
    );
}

/// A value below a path of one name is the member of that name.
pub proof fn lemma_value_at_one(value: JsonModel, name: Seq<char>)
    ensures
        value_below(value, seq![name]) == member_of(value, name),
{
    assert(seq![name].drop_first() =~= Seq::<Seq<char>>::empty());
    reveal_with_fuel(value_below, 2);
}

/// A value below a path is found member by member: the value below a longer path is the
/// member of what is below the shorter one.
pub proof fn lemma_nested_values(value: JsonModel, path: Seq<Seq<char>>, name: Seq<char>)
    ensures
        value_below(value, Seq::<Seq<char>>::empty()) == Some(value),
        value_below(value, path.push(name)) == match value_below(value, path) {
            Some(inner) => member_of(inner, name),
            None => None,
        },
    decreases path.len(),
{
    if path.len() == 0 {
        assert(path.push(name) =~= seq![name]);
        lemma_value_at_one(value, name);
    } else {
        assert(path.push(name).drop_first() =~= path.drop_first().push(name));
        if let Some(inner) = member_of(value, path[0]) {
            lemma_nested_values(inner, path.drop_first(), name);
        }
    }
}

// ---------------------------------------------------------------------------
// Conditions
// ---------------------------------------------------------------------------
/// A conjunction holds exactly where all its terms hold and fails exactly where one
/// fails; a disjunction fails exactly where all fail and holds exactly where one holds; a
/// negation turns holding and failing round. What is left is unknown.
pub proof fn lemma_conditions_combine(
    terms: Seq<PredicateModel>,
    term: PredicateModel,
    projection: SemanticProjection,
)
    ensures
        predicate_truth(PredicateModel::And(terms), projection) == Truth::True <==> forall|i: int|
            0 <= i < terms.len() ==> predicate_truth(#[trigger] terms[i], projection)
                == Truth::True,
        predicate_truth(PredicateModel::And(terms), projection) == Truth::False <==> exists|i: int|
            0 <= i < terms.len() && predicate_truth(#[trigger] terms[i], projection)
                == Truth::False,
        predicate_truth(PredicateModel::Or(terms), projection) == Truth::False <==> forall|i: int|
            0 <= i < terms.len() ==> predicate_truth(#[trigger] terms[i], projection)
                == Truth::False,
        predicate_truth(PredicateModel::Or(terms), projection) == Truth::True <==> exists|i: int|
            0 <= i < terms.len() && predicate_truth(#[trigger] terms[i], projection)
                == Truth::True,
        predicate_truth(PredicateModel::Not(Box::new(term)), projection) == Truth::True
            <==> predicate_truth(term, projection) == Truth::False,
        predicate_truth(PredicateModel::Not(Box::new(term)), projection) == Truth::False
            <==> predicate_truth(term, projection) == Truth::True,
        predicate_truth(PredicateModel::All, projection) == Truth::True,
        predicate_truth(PredicateModel::Nothing, projection) == Truth::False,
{
    let all = predicate_truth(PredicateModel::And(terms), projection);
    let any = predicate_truth(PredicateModel::Or(terms), projection);
    assert forall|i: int| 0 <= i < terms.len() implies {
        ||| predicate_truth(#[trigger] terms[i], projection) == Truth::True
        ||| predicate_truth(terms[i], projection) == Truth::False
        ||| predicate_truth(terms[i], projection) == Truth::Unknown
    } by {}
    if all == Truth::True {
        assert forall|i: int| 0 <= i < terms.len() implies predicate_truth(
            #[trigger] terms[i],
            projection,
        ) == Truth::True by {}
    }
    if any == Truth::False {
        assert forall|i: int| 0 <= i < terms.len() implies predicate_truth(
            #[trigger] terms[i],
            projection,
        ) == Truth::False by {}
    }
}

/// A record is of a type exactly where its projection lists the type's name.
pub proof fn lemma_types_are_listed(name: Seq<char>, projection: SemanticProjection)
    ensures
        predicate_truth(PredicateModel::HasType(name), projection) == Truth::True <==> exists|
            i: int,
        |
            0 <= i < projection.facts.types@.len() && (#[trigger] projection.facts.types@[i])@
                == name,
        predicate_truth(PredicateModel::HasType(name), projection) != Truth::Unknown,
{
    crate::text::lemma_lists_text(projection.facts.types@, name);
}

// ---------------------------------------------------------------------------
// Requirements
// ---------------------------------------------------------------------------
/// Whether a field's facts are asked for.
pub open spec fn asks_for(requirements: HostedQueryRequirements, field: FieldModel) -> bool {
    match field {
        FieldModel::PersistedFrontmatter(_) => requirements.persisted_frontmatter,
        FieldModel::EffectiveFrontmatter(_) => requirements.effective_frontmatter,
        FieldModel::BodyTags => requirements.structural_body_facts,
        _ => true,
    }
}

/// Whether the facts of all fields that a condition compares are asked for.
pub open spec fn asks_for_all(
    requirements: HostedQueryRequirements,
    predicate: PredicateModel,
) -> bool
    decreases predicate,
{
    match predicate {
        PredicateModel::And(terms) => forall|i: int|
            0 <= i < terms.len() ==> asks_for_all(requirements, #[trigger] terms[i]),
        PredicateModel::Or(terms) => forall|i: int|
            0 <= i < terms.len() ==> asks_for_all(requirements, #[trigger] terms[i]),
        PredicateModel::Not(term) => asks_for_all(requirements, *term),
        PredicateModel::Compare(comparison) => asks_for(requirements, comparison.field),
        _ => true,
    }
}

/// Whether one set of requirements asks for all that another asks for.
pub open spec fn asks_no_less(
    more: HostedQueryRequirements,
    less: HostedQueryRequirements,
) -> bool {
    &&& less.persisted_frontmatter ==> more.persisted_frontmatter
    &&& less.effective_frontmatter ==> more.effective_frontmatter
    &&& less.structural_body_facts ==> more.structural_body_facts
}

/// What asks for more asks for all that a condition compares, if what asks for less does.
pub proof fn lemma_asking_more(
    more: HostedQueryRequirements,
    less: HostedQueryRequirements,
    predicate: PredicateModel,
)
    requires
        asks_no_less(more, less),
        asks_for_all(less, predicate),
    ensures
        asks_for_all(more, predicate),
    decreases predicate,
{
    match predicate {
        PredicateModel::And(terms) => {
            assert forall|i: int| 0 <= i < terms.len() implies asks_for_all(
                more,
                #[trigger] terms[i],
            ) by {
                lemma_asking_more(more, less, terms[i]);
            }
        },
        PredicateModel::Or(terms) => {
            assert forall|i: int| 0 <= i < terms.len() implies asks_for_all(
                more,
                #[trigger] terms[i],
            ) by {
                lemma_asking_more(more, less, terms[i]);
            }
        },
        PredicateModel::Not(term) => {
            lemma_asking_more(more, less, *term);
        },
        _ => {},
    }
}

proof fn lemma_expressions_ask_more(requirements: HostedQueryRequirements, expression: Expr)
    ensures
        asks_no_less(with_expression(requirements, expression), requirements),
    decreases expression,
{
    match expression {
        Expr::BinOp(left, operator, right) => {
            if operator == BinOp::And || operator == BinOp::Or {
                lemma_expressions_ask_more(requirements, *left);
                lemma_expressions_ask_more(with_expression(requirements, *left), *right);
            }
        },
        Expr::UnaryOp(UnaryOp::Not, inner) => {
            lemma_expressions_ask_more(requirements, *inner);
        },
        _ => {},
    }
}

/// A lowered filter asks for the facts of every field that its condition compares, and
/// keeps what was asked for before.
pub proof fn lemma_filters_ask_for_their_fields(
    requirements: HostedQueryRequirements,
    expression: Expr,
)
    ensures
        asks_no_less(with_expression(requirements, expression), requirements),
        match lowered(expression) {
            Some((predicate, _)) => asks_for_all(
                with_expression(requirements, expression),
                predicate,
            ),
            None => true,
        },
    decreases expression,
{
    lemma_expressions_ask_more(requirements, expression);
    match expression {
        Expr::BinOp(left, operator, right) => {
            if operator == BinOp::And || operator == BinOp::Or {
                let first = with_expression(requirements, *left);
                let second = with_expression(first, *right);
                lemma_filters_ask_for_their_fields(requirements, *left);
                lemma_filters_ask_for_their_fields(first, *right);
                if let Some((a, _)) = lowered(*left) {
                    lemma_expressions_ask_more(first, *right);
                    lemma_asking_more(second, first, a);
                    if let Some((b, _)) = lowered(*right) {
                        assert(seq![a, b][0] == a);
                        assert(seq![a, b][1] == b);
                    }
                }
            }
        },
        Expr::UnaryOp(UnaryOp::Not, inner) => {
            lemma_filters_ask_for_their_fields(requirements, *inner);
        },
        _ => {},
    }
}

/// A constant filter is lowered to the condition that always, or never, holds; and two
/// filters joined by `and` or `or` are lowered to their conditions joined alike, where
/// both can be lowered in full.
pub proof fn lemma_filters_keep_their_shape(left: Expr, right: Expr)
    requires
        lowered(left) is Some,
        lowered(right) is Some,
        (lowered(left)->0).1,
        (lowered(right)->0).1,
    ensures
        lowered(Expr::Bool(true)) == Some((PredicateModel::All, true)),
        lowered(Expr::Bool(false)) == Some((PredicateModel::Nothing, true)),
        lowered(Expr::BinOp(Box::new(left), BinOp::And, Box::new(right))) == Some(
            (PredicateModel::And(seq![(lowered(left)->0).0, (lowered(right)->0).0]), true),
        ),
        lowered(Expr::BinOp(Box::new(left), BinOp::Or, Box::new(right))) == Some(
            (PredicateModel::Or(seq![(lowered(left)->0).0, (lowered(right)->0).0]), true),
        ),
        lowered(Expr::UnaryOp(UnaryOp::Not, Box::new(left))) == Some(
            (PredicateModel::Not(Box::new((lowered(left)->0).0)), true),
        ),
{
}

} // verus!
