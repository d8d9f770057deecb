//! When the conditions of a benchmark hold, and what they read.

use crate::benchmark::{
    base_of, candidate, expression_fault, extension_of, field_value, holds, is_allowed, is_before,
    list_fault, pair_order, relationship_target, relationships_of, sorted_pairs,
    with_field_requirement, with_field_targets, with_list_requirements, with_pair,
    with_requirements, with_targets, BenchmarkProjection, CandidateExpression, CandidateTruth,
    QueryRequirements,
};
use crate::json::{lookup, member_models, same_json, Json, JsonModel};
use crate::text::{
    first_at, last_at, lemma_first_at, lemma_split_single, lemma_text_order_equal, lower_case,
    split_first, texts, Order,
};
use crate::value_laws::{is_within, lemma_parts_of_texts, stands_before};
use vstd::prelude::*;

verus! {

// ---------------------------------------------------------------------------
// Conditions
// ---------------------------------------------------------------------------
/// A condition on all of some holds where each does, one on any of them where one does,
/// and a negated one where the condition does not.
pub proof fn lemma_combined_conditions(
    expression: CandidateExpression,
    projection: BenchmarkProjection,
    body: Seq<char>,
)
    ensures
        match expression {
            CandidateExpression::All { all } => holds(expression, projection, body) <==> forall|
                i: int,
            |
                0 <= i < all@.len() ==> holds(#[trigger] all@[i], projection, body),
            CandidateExpression::Any { any } => holds(expression, projection, body) <==> exists|
                i: int,
            |
                0 <= i < any@.len() && holds(#[trigger] any@[i], projection, body),
            CandidateExpression::Not { not } => holds(expression, projection, body) <==> !holds(
                *not,
                projection,
                body,
            ),
            _ => true,
        },
{
}

/// A condition on types holds where the record is of one of them.
pub proof fn lemma_type_conditions(
    expression: CandidateExpression,
    projection: BenchmarkProjection,
    body: Seq<char>,
)
    ensures
        match expression {
            CandidateExpression::TypeIn { type_in } => holds(expression, projection, body)
                <==> exists|i: int|
                0 <= i < type_in@.len() && projection.types@.len() > 0 && texts(
                    projection.types@,
                ).contains((#[trigger] type_in@[i])@),
            _ => true,
        },
{
    if let CandidateExpression::TypeIn { type_in } = expression {
        assert forall|i: int| 0 <= i < type_in@.len() implies (crate::text::lists_text(
            projection.types@,
            (#[trigger] type_in@[i])@,
        ) <==> texts(projection.types@).contains(type_in@[i]@)) by {
            crate::text::lemma_lists_text(projection.types@, type_in@[i]@);
        }
    }
}

/// A condition on a field holds where it has the value; one on the text of a body, or of a field, where the text occurs in it in
/// any case of its letters; and one on a relationship where the record has it.
pub proof fn lemma_plain_conditions(
    projection: BenchmarkProjection,
    body: Seq<char>,
    field: String,
    value: Json,
    text: String,
)
    ensures
        holds(CandidateExpression::FieldEq { field, value }, projection, body) <==> field_value(
            projection,
            field@,
        ) is Some && same_json(field_value(projection, field@)->0, value@),
        field_value(projection, field@) is None ==> !holds(
            CandidateExpression::FieldLt { field, value },
            projection,
            body,
        ),
        field_value(projection, field@) is Some ==> (holds(
            CandidateExpression::FieldLt { field, value },
            projection,
            body,
        ) <==> is_before(field_value(projection, field@)->0, value@)),
        holds(CandidateExpression::BodyContains { text }, projection, body) <==> is_within(
            lower_case(text@),
            lower_case(body),
        ),
        holds(CandidateExpression::FieldContainsText { field, text }, projection, body)
            <==> field_value(projection, field@) is Some && field_value(projection, field@)->0
            is Text && is_within(
            lower_case(text@),
            lower_case(field_value(projection, field@)->0->Text_0),
        ),
        holds(CandidateExpression::RelationshipTargetEq { target: text }, projection, body)
            <==> exists|i: int|
            0 <= i < projection.relationships@.len() && (
            #[trigger] projection.relationships@[i]).target@ == text@,
{
    lemma_parts_of_texts(lower_case(body), lower_case(text@));
    if let Some(JsonModel::Text(found)) = field_value(projection, field@) {
        lemma_parts_of_texts(lower_case(found), lower_case(text@));
    }
}

/// A value is before another where both are numbers, texts, or truth values, and it stands
/// before it; values of different kinds are in no order.
pub proof fn lemma_values_before(left: JsonModel, right: JsonModel)
    ensures
        left is Text && right is Text ==> (is_before(left, right) <==> stands_before(
            left->Text_0,
            right->Text_0,
        )),
        left is Number && right is Number ==> (is_before(left, right)
            <==> crate::numbers::number_order(left->Number_0, right->Number_0) == Order::Less),
        left is Bool && right is Bool ==> (is_before(left, right) <==> !left->Bool_0
            && right->Bool_0),
        left is Text && !(right is Text) ==> !is_before(left, right),
        left is Number && !(right is Number) ==> !is_before(left, right),
        left is Null || right is Null ==> !is_before(left, right),
{
    if left is Text && right is Text {
        crate::value_laws::lemma_texts_stand_in_dictionary_order(left->Text_0, right->Text_0);
    }
}

/// Whether a condition reads the body.
pub open spec fn reads_body(expression: CandidateExpression) -> bool
    decreases expression,
{
    match expression {
        CandidateExpression::All { all } => exists|i: int|
            0 <= i < all@.len() && reads_body(#[trigger] all@[i]),
        CandidateExpression::Any { any } => exists|i: int|
            0 <= i < any@.len() && reads_body(#[trigger] any@[i]),
        CandidateExpression::Not { not } => reads_body(*not),
        CandidateExpression::BodyContains { text } => true,
        _ => false,
    }
}

/// What a projection says of a condition that does not read the body is final: the record
/// is possible exactly where the condition holds, whatever its body, and is never left
/// open.
pub proof fn lemma_projections_decide(
    expression: CandidateExpression,
    projection: BenchmarkProjection,
    body: Seq<char>,
)
    requires
        !reads_body(expression),
    ensures
        candidate(expression, projection) != CandidateTruth::Unknown,
        candidate(expression, projection) == CandidateTruth::Possible <==> holds(
            expression,
            projection,
            body,
        ),
    decreases expression,
{
    match expression {
        CandidateExpression::All { all } => {
            assert forall|i: int| 0 <= i < all@.len() implies candidate(
                #[trigger] all@[i],
                projection,
            ) != CandidateTruth::Unknown && (candidate(all@[i], projection)
                == CandidateTruth::Possible <==> holds(all@[i], projection, body)) by {
                assert(!reads_body(all@[i]));
                lemma_projections_decide(all@[i], projection, body);
            }
        },
        CandidateExpression::Any { any } => {
            assert forall|i: int| 0 <= i < any@.len() implies candidate(
                #[trigger] any@[i],
                projection,
            ) != CandidateTruth::Unknown && (candidate(any@[i], projection)
                == CandidateTruth::Possible <==> holds(any@[i], projection, body)) by {
                assert(!reads_body(any@[i]));
                lemma_projections_decide(any@[i], projection, body);
            }
        },
        CandidateExpression::Not { not } => {
            lemma_projections_decide(*not, projection, body);
        },
        _ => {},
    }
}

// ---------------------------------------------------------------------------
// Fields
// ---------------------------------------------------------------------------
proof fn lemma_split_first(root: Seq<char>, rest: Seq<char>)
    requires
        !root.contains('.'),
    ensures
        split_first(root + seq!['.'] + rest, '.') == Some((root, rest)),
{
    let path = root + seq!['.'] + rest;
    lemma_first_at(path, '.');
    let at = first_at(path, '.');
    assert(path[root.len() as int] == '.');
    if at < root.len() {
        assert(path[at] == root[at]);
        assert(root.contains(root[at]));
    }
    assert(at == root.len());
    assert(path.take(at) =~= root);
    assert(path.skip(at + 1) =~= rest);
}

/// A field is looked up where its first name says: among the written frontmatter, the
/// frontmatter in effect, or the facts of the file; the path and the types stand by
/// themselves.
pub proof fn lemma_fields_of_projections(projection: BenchmarkProjection, name: Seq<char>)
    requires
        !name.contains('.'),
    ensures
        field_value(projection, "path"@) == Some(JsonModel::Text(projection.path@)),
        field_value(projection, "types"@) is Some,
        field_value(projection, "persisted_frontmatter"@ + seq!['.'] + name) == lookup(
            member_models(projection.persisted_frontmatter@),
            name,
        ),
        field_value(projection, "effective_frontmatter"@ + seq!['.'] + name) == lookup(
            member_models(projection.effective_frontmatter@),
            name,
        ),
{
    reveal_strlit("path");
    reveal_strlit("types");
    reveal_strlit("persisted_frontmatter");
    reveal_strlit("effective_frontmatter");
    assert("path"@.len() == 4 && "types"@.len() == 5 && "path"@[0] == 'p' && "types"@[0] == 't'
        && "persisted_frontmatter"@.len() == 21 && "effective_frontmatter"@.len() == 21
        && "persisted_frontmatter"@[0] == 'p' && "effective_frontmatter"@[0] == 'e');
    let written = "persisted_frontmatter"@ + seq!['.'] + name;
    let effective = "effective_frontmatter"@ + seq!['.'] + name;
    assert(written.len() > 20 && effective.len() > 20);
    lemma_split_first("persisted_frontmatter"@, name);
    lemma_split_first("effective_frontmatter"@, name);
    lemma_split_single(name, '.');
    crate::lowering_laws::lemma_value_at_one(
        JsonModel::Object(member_models(projection.persisted_frontmatter@)),
        name,
    );
    crate::lowering_laws::lemma_value_at_one(
        JsonModel::Object(member_models(projection.effective_frontmatter@)),
        name,
    );
}

proof fn lemma_last_dot(base: Seq<char>, extension: Seq<char>)
    requires
        !extension.contains('.'),
    ensures
        last_at(base + seq!['.'] + extension, '.') == base.len(),
        last_at(extension, '.') == -1,
    decreases extension.len(),
{
    let name = base + seq!['.'] + extension;
    if extension.len() == 0 {
        assert(name.last() == '.');
    } else {
        let front = extension.drop_last();
        assert(extension[extension.len() - 1] != '.');
        assert(!front.contains('.')) by {
            if front.contains('.') {
                let i = choose|i: int| 0 <= i < front.len() && front[i] == '.';
                assert(extension[i] == '.');
            }
        }
        lemma_last_dot(base, front);
        assert(name.drop_last() =~= base + seq!['.'] + front);
        assert(name.last() == extension.last());
    }
}

/// A file's name is split at its last dot; a name without one has no extension.
pub proof fn lemma_parts_of_names(base: Seq<char>, extension: Seq<char>)
    requires
        !extension.contains('.'),
    ensures
        base_of(base + seq!['.'] + extension) == base,
        extension_of(base + seq!['.'] + extension) == extension,
        base_of(extension) == extension,
        extension_of(extension) == Seq::<char>::empty(),
{
    lemma_last_dot(base, extension);
    let name = base + seq!['.'] + extension;
    assert(name.take(base.len() as int) =~= base);
    assert(name.skip(base.len() as int + 1) =~= extension);
}

/// The target of a link in double brackets is what stands in them before a bar; any other
/// text is its own target.
pub proof fn lemma_relationship_targets(target: Seq<char>, alias: Seq<char>)
    requires
        !target.contains('|'),
    ensures
        relationship_target(seq!['[', '['] + target + seq![']', ']']) == target,
        relationship_target(seq!['[', '['] + target + seq!['|'] + alias + seq![']', ']']) == target,
        target.len() > 0 && target[0] != '[' ==> relationship_target(target) == target,
{
    reveal_strlit("[[");
    reveal_strlit("]]");
    assert("[["@ =~= seq!['[', '[']);
    assert("]]"@ =~= seq![']', ']']);
    let plain = seq!['[', '['] + target + seq![']', ']'];
    let named = seq!['[', '['] + target + seq!['|'] + alias + seq![']', ']'];
    assert(plain.take(2) =~= seq!['[', '[']);
    assert(plain.skip(plain.len() - 2) =~= seq![']', ']']);
    assert(named.take(2) =~= seq!['[', '[']);
    assert(named.skip(named.len() - 2) =~= seq![']', ']']);
    lemma_bracketed(plain);
    lemma_bracketed(named);
    assert(plain.subrange(2, plain.len() - 2) =~= target);
    assert(named.subrange(2, named.len() - 2) =~= target + seq!['|'] + alias);
    lemma_split_single(target, '|');
    crate::lowering_laws::lemma_split_of_joined(target, alias, '|');
    crate::text::lemma_split_nonempty(alias, '|');
    assert(crate::text::split_on(target + seq!['|'] + alias, '|')[0] == target);
    if target.len() > 0 && target[0] != '[' {
        crate::value_laws::lemma_ends_of_texts(target, "[["@);
        if crate::text::has_prefix(target, "[["@) {
            assert(target.take(2)[0] == '[');
        }
    }
}

proof fn lemma_bracketed(value: Seq<char>)
    requires
        value.len() >= 4,
        value.take(2) == seq!['[', '['],
        value.skip(value.len() - 2) == seq![']', ']'],
    ensures
        crate::text::has_prefix(value, seq!['[', '[']),
        crate::text::has_suffix(value, seq![']', ']']),
{
    crate::value_laws::lemma_ends_of_texts(value, seq!['[', '[']);
    crate::value_laws::lemma_ends_of_texts(value, seq![']', ']']);
}

// ---------------------------------------------------------------------------
// Requirements
// ---------------------------------------------------------------------------
/// Whether a requirement covers another.
pub open spec fn covers(more: QueryRequirements, less: QueryRequirements) -> bool {
    &&& less.exact_document ==> more.exact_document
    &&& less.body ==> more.body
    &&& less.persisted_frontmatter ==> more.persisted_frontmatter
    &&& less.effective_frontmatter ==> more.effective_frontmatter
    &&& less.relationships ==> more.relationships
    &&& less.file_facts ==> more.file_facts
}

proof fn lemma_requirements_grow(requirements: QueryRequirements, expression: CandidateExpression)
    ensures
        covers(with_requirements(requirements, expression), requirements),
    decreases expression, 0nat,
{
    match expression {
        CandidateExpression::All { all } => {
            lemma_list_requirements_grow(requirements, all, all@.len());
        },
        CandidateExpression::Any { any } => {
            lemma_list_requirements_grow(requirements, any, any@.len());
        },
        CandidateExpression::Not { not } => {
            lemma_requirements_grow(requirements, *not);
        },
        _ => {},
    }
}

proof fn lemma_list_requirements_grow(
    requirements: QueryRequirements,
    list: Vec<CandidateExpression>,
    count: nat,
)
    ensures
        covers(with_list_requirements(requirements, list, count), requirements),
    decreases list, count,
{
    if count > 0 && count <= list@.len() {
        lemma_list_requirements_grow(requirements, list, (count - 1) as nat);
        lemma_requirements_grow(
            with_list_requirements(requirements, list, (count - 1) as nat),
            list@[count - 1],
        );
    }
}

/// Whether what is required covers all that a condition reads.
pub open spec fn covers_reads(
    requirements: QueryRequirements,
    expression: CandidateExpression,
) -> bool
    decreases expression,
{
    match expression {
        CandidateExpression::All { all } => forall|i: int|
            0 <= i < all@.len() ==> covers_reads(requirements, #[trigger] all@[i]),
        CandidateExpression::Any { any } => forall|i: int|
            0 <= i < any@.len() ==> covers_reads(requirements, #[trigger] any@[i]),
        CandidateExpression::Not { not } => covers_reads(requirements, *not),
        CandidateExpression::TypeIn { type_in } => true,
        CandidateExpression::FieldEq { field, value } => covers_field(requirements, field@),
        CandidateExpression::FieldLt { field, value } => covers_field(requirements, field@),
        CandidateExpression::FieldIn { field, values } => covers_field(requirements, field@),
        CandidateExpression::FieldContains { field, value } => covers_field(requirements, field@),
        CandidateExpression::FieldContainsText { field, text } => covers_field(
            requirements,
            field@,
        ),
        CandidateExpression::RelationshipTargetEq { target } => requirements.relationships,
        CandidateExpression::BodyContains { text } => requirements.body
            && requirements.exact_document,
    }
}

/// Whether what is required covers a field.
pub open spec fn covers_field(requirements: QueryRequirements, field: Seq<char>) -> bool {
    let written = "persisted_frontmatter."@;
    let effective = "effective_frontmatter."@;
    let file = "file."@;
    &&& field.len() >= written.len() && field.take(written.len() as int) == written
        ==> requirements.persisted_frontmatter
    &&& field.len() >= effective.len() && field.take(effective.len() as int) == effective
        ==> requirements.effective_frontmatter
    &&& field.len() >= file.len() && field.take(file.len() as int) == file
        ==> requirements.file_facts
}

proof fn lemma_field_covered(requirements: QueryRequirements, field: Seq<char>)
    ensures
        covers_field(with_field_requirement(requirements, field), field),
{
    let written = "persisted_frontmatter."@;
    let effective = "effective_frontmatter."@;
    let file = "file."@;
    crate::value_laws::lemma_ends_of_texts(field, written);
    crate::value_laws::lemma_ends_of_texts(field, effective);
    crate::value_laws::lemma_ends_of_texts(field, file);
    reveal_strlit("persisted_frontmatter.");
    reveal_strlit("effective_frontmatter.");
    reveal_strlit("file.");
    assert(written.len() == 22 && effective.len() == 22 && file.len() == 5);
    assert(written[0] == 'p' && effective[0] == 'e' && file[0] == 'f');
    if field.len() >= 22 && field.take(22) == written {
        assert(field[0] == field.take(22)[0]);
    }
    if field.len() >= 22 && field.take(22) == effective {
        assert(field[0] == field.take(22)[0]);
    }
    if field.len() >= 5 && field.take(5) == file {
        assert(field[0] == field.take(5)[0]);
    }
}

proof fn lemma_covering_more(
    more: QueryRequirements,
    less: QueryRequirements,
    expression: CandidateExpression,
)
    requires
        covers(more, less),
        covers_reads(less, expression),
    ensures
        covers_reads(more, expression),
    decreases expression,
{
    match expression {
        CandidateExpression::All { all } => {
            assert forall|i: int| 0 <= i < all@.len() implies covers_reads(
                more,
                #[trigger] all@[i],
            ) by {
                lemma_covering_more(more, less, all@[i]);
            }
        },
        CandidateExpression::Any { any } => {
            assert forall|i: int| 0 <= i < any@.len() implies covers_reads(
                more,
                #[trigger] any@[i],
            ) by {
                lemma_covering_more(more, less, any@[i]);
            }
        },
        CandidateExpression::Not { not } => {
            lemma_covering_more(more, less, *not);
        },
        _ => {},
    }
}

/// What is required of a condition covers all that it reads: each kind of frontmatter, the
/// file, the relationships, and the body with its document.
pub proof fn lemma_requirements_cover_reads(
    requirements: QueryRequirements,
    expression: CandidateExpression,
)
    ensures
        covers_reads(with_requirements(requirements, expression), expression),
    decreases expression, 0nat,
{
    match expression {
        CandidateExpression::All { all } => {
            lemma_list_covers_reads(requirements, all, all@.len());
        },
        CandidateExpression::Any { any } => {
            lemma_list_covers_reads(requirements, any, any@.len());
        },
        CandidateExpression::Not { not } => {
            lemma_requirements_cover_reads(requirements, *not);
        },
        CandidateExpression::FieldEq { field, value } => {
            lemma_field_covered(requirements, field@);
        },
        CandidateExpression::FieldLt { field, value } => {
            lemma_field_covered(requirements, field@);
        },
        CandidateExpression::FieldIn { field, values } => {
            lemma_field_covered(requirements, field@);
        },
        CandidateExpression::FieldContains { field, value } => {
            lemma_field_covered(requirements, field@);
        },
        CandidateExpression::FieldContainsText { field, text } => {
            lemma_field_covered(requirements, field@);
        },
        _ => {},
    }
}

proof fn lemma_list_covers_reads(
    requirements: QueryRequirements,
    list: Vec<CandidateExpression>,
    count: nat,
)
    requires
        count <= list@.len(),
    ensures
        forall|i: int|
            0 <= i < count ==> covers_reads(
                with_list_requirements(requirements, list, count),
                #[trigger] list@[i],
            ),
    decreases list, count,
{
    if count > 0 {
        let before = with_list_requirements(requirements, list, (count - 1) as nat);
        let last = list@[count - 1];
        lemma_list_covers_reads(requirements, list, (count - 1) as nat);
        lemma_requirements_grow(before, last);
        lemma_requirements_cover_reads(before, last);
        assert forall|i: int| 0 <= i < count implies covers_reads(
            with_list_requirements(requirements, list, count),
            #[trigger] list@[i],
        ) by {
            if i < count - 1 {
                lemma_covering_more(with_requirements(before, last), before, list@[i]);
            }
        }
    }
}

/// A condition is accepted exactly where every field that it names may be asked for and no
/// list or text in it is empty; a combined one exactly where its parts are.
pub proof fn lemma_accepted_conditions(
    list: Vec<CandidateExpression>,
    inner: CandidateExpression,
    field: String,
    value: Json,
    text: String,
)
    ensures
        expression_fault(CandidateExpression::All { all: list }) is None <==> forall|i: int|
            0 <= i < list@.len() ==> expression_fault(#[trigger] list@[i]) is None,
        expression_fault(CandidateExpression::Any { any: list }) is None <==> forall|i: int|
            0 <= i < list@.len() ==> expression_fault(#[trigger] list@[i]) is None,
        expression_fault(CandidateExpression::Not { not: Box::new(inner) }) is None
            <==> expression_fault(inner) is None,
        expression_fault(CandidateExpression::FieldEq { field, value }) is None <==> is_allowed(
            field@,
        ),
        expression_fault(CandidateExpression::FieldLt { field, value }) is None <==> is_allowed(
            field@,
        ),
        expression_fault(CandidateExpression::BodyContains { text }) is None <==> text@.len() > 0,
        expression_fault(CandidateExpression::FieldContainsText { field, text }) is None
            <==> is_allowed(field@) && text@.len() > 0,
{
    lemma_accepted_lists(list, list@.len());
}

proof fn lemma_accepted_lists(list: Vec<CandidateExpression>, count: nat)
    requires
        count <= list@.len(),
    ensures
        list_fault(list, count) is None <==> forall|i: int|
            0 <= i < count ==> expression_fault(#[trigger] list@[i]) is None,
    decreases count,
{
    if count > 0 {
        lemma_accepted_lists(list, (count - 1) as nat);
    }
}

/// Pairs that were sorted are those that were given, each once, and stand in order.
pub proof fn lemma_sorted_pairs_hold(
    pairs: Seq<(Seq<char>, Seq<char>)>,
    pair: (Seq<char>, Seq<char>),
)
    ensures
        sorted_pairs(pairs).contains(pair) <==> pairs.contains(pair),
    decreases pairs.len(),
{
    if pairs.len() > 0 {
        let front = pairs.drop_last();
        lemma_sorted_pairs_hold(front, pair);
        lemma_added_pair(sorted_pairs(front), pairs.last(), pair);
        assert(pairs[pairs.len() - 1] == pairs.last());
        if front.contains(pair) {
            let i = choose|i: int| 0 <= i < front.len() && front[i] == pair;
            assert(pairs[i] == pair);
        }
        if pairs.contains(pair) && pair != pairs.last() {
            let i = choose|i: int| 0 <= i < pairs.len() && pairs[i] == pair;
            assert(front[i] == pair);
        }
    }
}

proof fn lemma_added_pair(
    pairs: Seq<(Seq<char>, Seq<char>)>,
    added: (Seq<char>, Seq<char>),
    pair: (Seq<char>, Seq<char>),
)
    ensures
        with_pair(pairs, added).contains(pair) <==> pairs.contains(pair) || pair == added,
    decreases pairs.len(),
{
    let result = with_pair(pairs, added);
    if pairs.len() == 0 {
        assert(result[0] == added);
    } else {
        lemma_text_order_equal(added.0, pairs[0].0);
        lemma_text_order_equal(added.1, pairs[0].1);
        match pair_order(added, pairs[0]) {
            Order::Less => {
                assert(result[0] == added);
                if pairs.contains(pair) {
                    let i = choose|i: int| 0 <= i < pairs.len() && pairs[i] == pair;
                    assert(result[i + 1] == pair);
                }
                if result.contains(pair) && pair != added {
                    let i = choose|i: int| 0 <= i < result.len() && result[i] == pair;
                    assert(pairs[i - 1] == pair);
                }
            },
            Order::Equal => {
                assert(pairs[0] == added);
            },
            Order::Greater => {
                let rest = pairs.drop_first();
                let inner = with_pair(rest, added);
                lemma_added_pair(rest, added, pair);
                assert(result[0] == pairs[0]);
                if inner.contains(pair) {
                    let i = choose|i: int| 0 <= i < inner.len() && inner[i] == pair;
                    assert(result[i + 1] == pair);
                }
                if result.contains(pair) && pair != pairs[0] {
                    let i = choose|i: int| 0 <= i < result.len() && result[i] == pair;
                    assert(inner[i - 1] == pair);
                }
                if rest.contains(pair) {
                    let i = choose|i: int| 0 <= i < rest.len() && rest[i] == pair;
                    assert(pairs[i + 1] == pair);
                }
                if pairs.contains(pair) && pair != pairs[0] {
                    let i = choose|i: int| 0 <= i < pairs.len() && pairs[i] == pair;
                    assert(rest[i - 1] == pair);
                }
            },
        }
    }
}

// ---------------------------------------------------------------------------
// Relationships
// ---------------------------------------------------------------------------
/// Whether a field of a record relates it to a target: by its text, or by one of its texts.
pub open spec fn relates_by(
    frontmatter: Seq<(Seq<char>, JsonModel)>,
    kind: Seq<char>,
    target: Seq<char>,
) -> bool {
    match lookup(frontmatter, kind) {
        Some(JsonModel::Text(text)) => relationship_target(text) == target,
        Some(JsonModel::Array(items)) => exists|i: int|
            0 <= i < items.len() && (#[trigger] items[i]) is Text && relationship_target(
                items[i]->Text_0,
            ) == target,
        _ => false,
    }
}

proof fn lemma_added_targets(
    pairs: Seq<(Seq<char>, Seq<char>)>,
    kind: Seq<char>,
    items: Seq<JsonModel>,
    pair: (Seq<char>, Seq<char>),
)
    ensures
        with_targets(pairs, kind, items).contains(pair) <==> pairs.contains(pair) || (pair.0
            == kind && exists|i: int|
            0 <= i < items.len() && (#[trigger] items[i]) is Text && relationship_target(
                items[i]->Text_0,
            ) == pair.1),
    decreases items.len(),
{
    if items.len() > 0 {
        let front = items.drop_last();
        lemma_added_targets(pairs, kind, front, pair);
        assert(items[items.len() - 1] == items.last());
        if let JsonModel::Text(text) = items.last() {
            lemma_added_pair(
                with_targets(pairs, kind, front),
                (kind, relationship_target(text)),
                pair,
            );
        }
        if exists|i: int|
            0 <= i < front.len() && (#[trigger] front[i]) is Text && relationship_target(
                front[i]->Text_0,
            ) == pair.1 {
            let i = choose|i: int|
                0 <= i < front.len() && (#[trigger] front[i]) is Text && relationship_target(
                    front[i]->Text_0,
                ) == pair.1;
            assert(items[i] == front[i]);
        }
        if exists|i: int|
            0 <= i < items.len() && (#[trigger] items[i]) is Text && relationship_target(
                items[i]->Text_0,
            ) == pair.1 {
            let i = choose|i: int|
                0 <= i < items.len() && (#[trigger] items[i]) is Text && relationship_target(
                    items[i]->Text_0,
                ) == pair.1;
            if i < front.len() {
                assert(front[i] == items[i]);
            }
        }
    }
}

proof fn lemma_added_field(
    pairs: Seq<(Seq<char>, Seq<char>)>,
    frontmatter: Seq<(Seq<char>, JsonModel)>,
    kind: Seq<char>,
    pair: (Seq<char>, Seq<char>),
)
    ensures
        with_field_targets(pairs, frontmatter, kind).contains(pair) <==> pairs.contains(pair) || (
        pair.0 == kind && relates_by(frontmatter, kind, pair.1)),
{
    match lookup(frontmatter, kind) {
        Some(JsonModel::Text(text)) => {
            lemma_added_pair(pairs, (kind, relationship_target(text)), pair);
        },
        Some(JsonModel::Array(items)) => {
            lemma_added_targets(pairs, kind, items, pair);
        },
        _ => {},
    }
}

/// The relationships of a record are those of its four relating fields, and no others.
pub proof fn lemma_relationships(
    frontmatter: Seq<(Seq<char>, JsonModel)>,
    kind: Seq<char>,
    target: Seq<char>,
)
    ensures
        relationships_of(frontmatter).contains((kind, target)) <==> (kind == "source"@ || kind
            == "request"@ || kind == "blockedBy"@ || kind == "related"@) && relates_by(
            frontmatter,
            kind,
            target,
        ),
{
    let pair = (kind, target);
    let none = Seq::<(Seq<char>, Seq<char>)>::empty();
    let first = with_field_targets(none, frontmatter, "source"@);
    let second = with_field_targets(first, frontmatter, "request"@);
    let third = with_field_targets(second, frontmatter, "blockedBy"@);
    lemma_added_field(none, frontmatter, "source"@, pair);
    lemma_added_field(first, frontmatter, "request"@, pair);
    lemma_added_field(second, frontmatter, "blockedBy"@, pair);
    lemma_added_field(third, frontmatter, "related"@, pair);
    assert(!none.contains(pair));
}

} // verus!
