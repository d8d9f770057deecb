//! What queries of a collection select, show, group, order, and summarize.

use crate::engine::{
    array_at, enum_values, filter_holds, is_record_field, rank_in, sort_order, sort_value, term_of,
    terms_of, EvaluatedRecord,
};
use crate::json::{
    array_texts, item_models, key_at, lemma_lookup_at, lookup, member_of, nested_member, or_null,
    text_models, texts_among, JsonModel, NumberModel,
};
use crate::numbers::{float_quotient, float_sum, number_order};
use crate::query::{
    are_groups, directed_positions, entries_of, entry_file, entry_of, group_entries, group_key,
    group_keys, group_order, group_text, has_group, in_folder, in_scope, is_group, is_selected,
    order_of_groups, EntryGroup,
};
use crate::results::{
    count_value, count_where, distinct, extreme, extreme_text, field_values, is_blank,
    numbers_among, plain_value, rounded_value, sum_of, summary_value, text_or_null,
};
use crate::sorting::{consistent, lemma_covers_each, lemma_sorted_pairs, stably_sorted};
use crate::text::{
    folder_of, lemma_text_order_equal, lemma_text_order_reverse, lemma_text_order_transitive,
    merged_texts, name_of, text_order, texts, trimmed_end, Order,
};
use crate::value_laws::lemma_members;
use vstd::prelude::*;

verus! {

// ---------------------------------------------------------------------------
// Filters
// ---------------------------------------------------------------------------
/// An expression alone holds where it is true.
pub proof fn lemma_expression_filters(source: Seq<char>, truth: spec_fn(Seq<char>) -> bool)
    ensures
        filter_holds(JsonModel::Text(source), truth) == truth(source),
{
}

/// A list under `and` holds exactly where each of its filters does.
pub proof fn lemma_and_filters(
    members: Seq<(Seq<char>, JsonModel)>,
    clauses: Seq<JsonModel>,
    truth: spec_fn(Seq<char>) -> bool,
)
    requires
        lookup(members, "and"@) == Some(JsonModel::Array(clauses)),
    ensures
        filter_holds(JsonModel::Object(members), truth) <==> forall|i: int|
            0 <= i < clauses.len() ==> filter_holds(#[trigger] clauses[i], truth),
{
    lemma_lookup_at(members, "and"@);
    let listed = members[key_at(members, "and"@)].1;
    assert(listed == JsonModel::Array(clauses));
    assert(array_at(members, "and"@));
    if filter_holds(JsonModel::Object(members), truth) {
        assert forall|i: int| 0 <= i < clauses.len() implies filter_holds(
            #[trigger] clauses[i],
            truth,
        ) by {
            assert(filter_holds(listed->Array_0[i], truth));
        }
    }
}

/// A list under `or` holds exactly where one of its filters does, unless there is a
/// list under `and`.
pub proof fn lemma_or_filters(
    members: Seq<(Seq<char>, JsonModel)>,
    clauses: Seq<JsonModel>,
    truth: spec_fn(Seq<char>) -> bool,
)
    requires
        lookup(members, "or"@) == Some(JsonModel::Array(clauses)),
        !(lookup(members, "and"@) matches Some(JsonModel::Array(_))),
    ensures
        filter_holds(JsonModel::Object(members), truth) <==> exists|i: int|
            0 <= i < clauses.len() && filter_holds(#[trigger] clauses[i], truth),
{
    lemma_lookup_at(members, "and"@);
    lemma_lookup_at(members, "or"@);
    let listed = members[key_at(members, "or"@)].1;
    assert(listed == JsonModel::Array(clauses));
    assert(array_at(members, "or"@) && !array_at(members, "and"@));
    if exists|i: int| 0 <= i < clauses.len() && filter_holds(#[trigger] clauses[i], truth) {
        let i = choose|i: int| 0 <= i < clauses.len() && filter_holds(#[trigger] clauses[i], truth);
        assert(filter_holds(listed->Array_0[i], truth));
    }
}

/// A filter under `not` holds exactly where that filter does not, unless there is a
/// list under `and` or `or`.
pub proof fn lemma_not_filters(
    members: Seq<(Seq<char>, JsonModel)>,
    filter: JsonModel,
    truth: spec_fn(Seq<char>) -> bool,
)
    requires
        lookup(members, "not"@) == Some(filter),
        !(lookup(members, "and"@) matches Some(JsonModel::Array(_))),
        !(lookup(members, "or"@) matches Some(JsonModel::Array(_))),
    ensures
        filter_holds(JsonModel::Object(members), truth) != filter_holds(filter, truth),
{
    lemma_lookup_at(members, "and"@);
    lemma_lookup_at(members, "or"@);
    lemma_lookup_at(members, "not"@);
}

/// What is neither an expression nor a combination of filters holds of nothing.
pub proof fn lemma_other_filters(filter: JsonModel, truth: spec_fn(Seq<char>) -> bool)
    requires
        match filter {
            JsonModel::Text(_) => false,
            JsonModel::Object(members) => {
                &&& !(lookup(members, "and"@) matches Some(JsonModel::Array(_)))
                &&& !(lookup(members, "or"@) matches Some(JsonModel::Array(_)))
                &&& lookup(members, "not"@) is None
            },
            _ => true,
        },
    ensures
        !filter_holds(filter, truth),
{
    if let JsonModel::Object(members) = filter {
        lemma_lookup_at(members, "and"@);
        lemma_lookup_at(members, "or"@);
        lemma_lookup_at(members, "not"@);
    }
}

/// Negating a conjunction negates its filters and joins them by `or`.
pub proof fn lemma_negated_conjunction(
    negation: Seq<(Seq<char>, JsonModel)>,
    conjunction: Seq<(Seq<char>, JsonModel)>,
    clauses: Seq<JsonModel>,
    truth: spec_fn(Seq<char>) -> bool,
)
    requires
        lookup(negation, "not"@) == Some(JsonModel::Object(conjunction)),
        !(lookup(negation, "and"@) matches Some(JsonModel::Array(_))),
        !(lookup(negation, "or"@) matches Some(JsonModel::Array(_))),
        lookup(conjunction, "and"@) == Some(JsonModel::Array(clauses)),
    ensures
        filter_holds(JsonModel::Object(negation), truth) <==> exists|i: int|
            0 <= i < clauses.len() && !filter_holds(#[trigger] clauses[i], truth),
{
    lemma_not_filters(negation, JsonModel::Object(conjunction), truth);
    lemma_and_filters(conjunction, clauses, truth);
}

// ---------------------------------------------------------------------------
// Scope
// ---------------------------------------------------------------------------
/// Whether a path is a folder with a slash and something more after it.
#[verifier::opaque]
pub open spec fn lies_below(path: Seq<char>, folder: Seq<char>) -> bool {
    exists|rest: Seq<char>| path == #[trigger] (folder + seq!['/'] + rest)
}

/// A path lies in a folder exactly where it is the folder, or the folder, a slash, and
/// something more.
pub proof fn lemma_folders_hold_what_lies_below(path: Seq<char>, folder: Seq<char>)
    ensures
        in_folder(path, folder) <==> path == folder || lies_below(path, folder),
{
    reveal(lies_below);
    let count = folder.len() as int;
    if in_folder(path, folder) {
        assert(path.subrange(0, count) == folder);
        if path.len() == folder.len() {
            assert(path =~= path.subrange(0, count));
        } else {
            assert(path =~= path.subrange(0, count) + seq!['/'] + path.skip(count + 1));
        }
    }
    if path == folder {
        assert(path.subrange(0, count) =~= folder);
    }
    if lies_below(path, folder) {
        let rest = choose|rest: Seq<char>| path == #[trigger] (folder + seq!['/'] + rest);
        assert(path.subrange(0, count) =~= folder);
        assert(path[count] == '/');
    }
}

/// Closing slashes of a folder do not matter, and nothing else of it is left out.
pub proof fn lemma_trimmed_ends(value: Seq<char>, c: char)
    ensures
        trimmed_end(value.push(c), c) == trimmed_end(value, c),
        trimmed_end(value, c).len() == 0 || trimmed_end(value, c).last() != c,
        trimmed_end(value, c).len() <= value.len(),
        trimmed_end(value, c) == value.take(trimmed_end(value, c).len() as int),
        forall|i: int| trimmed_end(value, c).len() <= i < value.len() ==> #[trigger] value[i] == c,
    decreases value.len(),
{
    assert(value.push(c).drop_last() =~= value);
    if value.len() > 0 && value.last() == c {
        let front = value.drop_last();
        lemma_trimmed_ends(front, c);
        assert(value.take(trimmed_end(front, c).len() as int) =~= front.take(
            trimmed_end(front, c).len() as int,
        ));
        assert forall|i: int| trimmed_end(value, c).len() <= i < value.len() implies
            #[trigger] value[i] == c by {
            if i < front.len() {
                assert(front[i] == c);
            }
        }
    } else {
        assert(value.take(value.len() as int) =~= value);
    }
}

/// A query without a folder and types has every record in its scope. Types leave in
/// those records that have one of them, and a folder those that lie in it.
pub proof fn lemma_scopes(record: EvaluatedRecord, folder: Seq<char>, types: Seq<Seq<char>>)
    ensures
        in_scope(record, None, Seq::empty()),
        types.len() > 0 ==> (in_scope(record, None, types) <==> exists|i: int, j: int|
            0 <= i < record.record.type_names@.len() && 0 <= j < types.len() && (
            #[trigger] record.record.type_names@[i])@ == #[trigger] types[j]),
        in_scope(record, Some(folder), types) <==> in_scope(record, None, types) && in_folder(
            record.record.rel_path@,
            trimmed_end(folder, '/'),
        ),
{
    let names = record.record.type_names@;
    if types.len() > 0 {
        if in_scope(record, None, types) {
            let i = choose|i: int|
                0 <= i < names.len() && types.contains((#[trigger] names[i])@);
            let j = choose|j: int| 0 <= j < types.len() && types[j] == names[i]@;
            assert(names[i]@ == types[j]);
        }
        if exists|i: int, j: int|
            0 <= i < names.len() && 0 <= j < types.len() && (#[trigger] names[i])@
                == #[trigger] types[j] {
            let (i, j) = choose|i: int, j: int|
                0 <= i < names.len() && 0 <= j < types.len() && (#[trigger] names[i])@
                    == #[trigger] types[j];
            assert(types.contains(names[i]@));
        }
    }
}

// ---------------------------------------------------------------------------
// Entries
// ---------------------------------------------------------------------------
/// Every entry is that of a record that the query selects, and every record that it
/// selects has an entry. There are as many entries as such records.
pub proof fn lemma_entries_are_the_selected_records(
    records: Seq<EvaluatedRecord>,
    folder: Option<Seq<char>>,
    types: Seq<Seq<char>>,
    filter: Option<JsonModel>,
    names: Seq<Seq<char>>,
    include_body: bool,
    i: int,
)
    requires
        entries_of(records, folder, types, filter, names, include_body) is Ok,
        0 <= i < records.len(),
    ensures
        ({
            let entries = entries_of(records, folder, types, filter, names, include_body)->Ok_0;
            let wanted = in_scope(records[i], folder, types) && is_selected(records[i], filter);
            &&& entries.len() <= records.len()
            &&& wanted ==> exists|k: int|
                0 <= k < entries.len() && member_of(#[trigger] entries[k], "path"@) == Some(
                    JsonModel::Text(records[i].record.rel_path@),
                )
            &&& forall|k: int|
                0 <= k < entries.len() ==> exists|j: int| #[trigger]
                    is_wanted_record(records, folder, types, filter, j) && member_of(
                        #[trigger] entries[k],
                        "path"@,
                    ) == Some(JsonModel::Text(records[j].record.rel_path@))
        }),
    decreases records.len(),
{
    let front = records.drop_last();
    let last = records.last();
    let entries = entries_of(records, folder, types, filter, names, include_body)->Ok_0;
    let before = entries_of(front, folder, types, filter, names, include_body)->Ok_0;
    if front.len() > 0 {
        let at = if i < front.len() {
            i
        } else {
            0
        };
        lemma_entries_are_the_selected_records(
            front,
            folder,
            types,
            filter,
            names,
            include_body,
            at,
        );
        if i < front.len() {
            assert(front[i] == records[i]);
            if in_scope(records[i], folder, types) && is_selected(records[i], filter) {
                let k = choose|k: int|
                    0 <= k < before.len() && member_of(#[trigger] before[k], "path"@) == Some(
                        JsonModel::Text(records[i].record.rel_path@),
                    );
                assert(entries[k] == before[k]);
            }
        }
    }
    let formulas = crate::query::formula_values(names, last.formulas@);
    if formulas is Ok {
        lemma_entry_members(last, formulas->Ok_0, include_body);
    }
    if in_scope(last, folder, types) && is_selected(last, filter) {
        assert(entries.last() == entry_of(last, formulas->Ok_0, include_body));
        assert(member_of(entries[entries.len() - 1], "path"@) == Some(
            JsonModel::Text(last.record.rel_path@),
        ));
        assert(is_wanted_record(records, folder, types, filter, records.len() - 1));
    }
    assert forall|k: int| 0 <= k < entries.len() implies exists|j: int| #[trigger]
        is_wanted_record(records, folder, types, filter, j) && member_of(
            #[trigger] entries[k],
            "path"@,
        ) == Some(JsonModel::Text(records[j].record.rel_path@)) by {
        if k < before.len() {
            assert(entries[k] == before[k]);
            let j = choose|j: int| #[trigger]
                is_wanted_record(front, folder, types, filter, j) && member_of(
                    before[k],
                    "path"@,
                ) == Some(JsonModel::Text(front[j].record.rel_path@));
            assert(front[j] == records[j]);
            assert(is_wanted_record(records, folder, types, filter, j));
        } else {
            assert(is_wanted_record(records, folder, types, filter, records.len() - 1));
        }
    }
}

/// Whether a record is in the scope of a query and its filter holds of it.
pub open spec fn is_wanted_record(
    records: Seq<EvaluatedRecord>,
    folder: Option<Seq<char>>,
    types: Seq<Seq<char>>,
    filter: Option<JsonModel>,
    i: int,
) -> bool {
    0 <= i < records.len() && in_scope(records[i], folder, types) && is_selected(
        records[i],
        filter,
    )
}

/// An entry shows the record's path, types, and frontmatter; its body only where it
/// was asked for; its formulas where there are any; and the facts of its file.
pub proof fn lemma_entry_members(
    record: EvaluatedRecord,
    formulas: Seq<(Seq<char>, JsonModel)>,
    include_body: bool,
)
    ensures
        ({
            let entry = entry_of(record, formulas, include_body);
            &&& member_of(entry, "path"@) == Some(JsonModel::Text(record.record.rel_path@))
            &&& member_of(entry, "types"@) == Some(
                JsonModel::Array(text_models(texts(record.record.type_names@))),
            )
            &&& member_of(entry, "frontmatter"@) == Some(record.effective@)
            &&& member_of(entry, "body"@) == if include_body {
                Some(JsonModel::Text(record.record.body@))
            } else {
                Some(JsonModel::Null)
            }
            &&& member_of(entry, "file"@) == Some(entry_file(record))
            &&& member_of(entry, "formulas"@) == if formulas.len() > 0 {
                Some(JsonModel::Object(formulas))
            } else {
                None
            }
        }),
{
    reveal_strlit("path");
    reveal_strlit("types");
    reveal_strlit("frontmatter");
    reveal_strlit("body");
    reveal_strlit("file");
    reveal_strlit("formulas");
    assert("path"@.len() == 4 && "types"@.len() == 5 && "frontmatter"@.len() == 11);
    assert("body"@.len() == 4 && "file"@.len() == 4 && "formulas"@.len() == 8);
    assert("path"@[0] == 'p' && "body"@[0] == 'b' && "file"@[0] == 'f');
    lemma_members();
}

/// The facts of an entry's file: its name and folder by its path, its size and time,
/// the tags of the frontmatter followed by those of the body, and the links and embeds
/// of the body.
pub proof fn lemma_entry_file_members(record: EvaluatedRecord)
    ensures
        ({
            let file = entry_file(record);
            &&& member_of(file, "name"@) == Some(JsonModel::Text(name_of(record.record.rel_path@)))
            &&& member_of(file, "folder"@) == Some(
                JsonModel::Text(folder_of(record.record.rel_path@)),
            )
            &&& member_of(file, "size"@) == Some(
                JsonModel::Number(NumberModel::Integer(record.record.file_size as int)),
            )
            &&& member_of(file, "mtime"@) == Some(
                JsonModel::Text(
                    match record.record.file_mtime_iso {
                        Some(text) => text@,
                        None => Seq::empty(),
                    },
                ),
            )
            &&& member_of(file, "tags"@) == Some(
                JsonModel::Array(
                    text_models(
                        merged_texts(
                            array_texts(member_of(record.effective@, "tags"@)),
                            texts(record.body_tags@),
                        ),
                    ),
                ),
            )
            &&& member_of(file, "links"@) == Some(
                JsonModel::Array(text_models(texts(record.body_links@))),
            )
            &&& member_of(file, "embeds"@) == Some(
                JsonModel::Array(text_models(texts(record.body_embeds@))),
            )
        }),
{
    reveal_strlit("name");
    reveal_strlit("folder");
    reveal_strlit("size");
    reveal_strlit("mtime");
    reveal_strlit("tags");
    reveal_strlit("links");
    reveal_strlit("embeds");
    assert("name"@.len() == 4 && "folder"@.len() == 6 && "size"@.len() == 4 && "mtime"@.len() == 5);
    assert("tags"@.len() == 4 && "links"@.len() == 5 && "embeds"@.len() == 6);
    assert("name"@[0] == 'n' && "size"@[0] == 's' && "tags"@[0] == 't');
    assert("folder"@[0] != "embeds"@[0] && "mtime"@[0] != "links"@[0]);
    lemma_members();
}

/// A merged list has the texts of the first as they stand, then those of the second
/// that are not among them, each once.
pub proof fn lemma_merged_texts(base: Seq<Seq<char>>, extra: Seq<Seq<char>>, text: Seq<char>)
    ensures
        merged_texts(base, extra).len() >= base.len(),
        merged_texts(base, extra).take(base.len() as int) == base,
        merged_texts(base, extra).contains(text) <==> base.contains(text) || extra.contains(text),
        forall|i: int, j: int|
            #![trigger merged_texts(base, extra)[i], merged_texts(base, extra)[j]]
            0 <= i < j < merged_texts(base, extra).len() && base.len() <= j ==> merged_texts(
                base,
                extra,
            )[i] != merged_texts(base, extra)[j],
    decreases extra.len(),
{
    let all = merged_texts(base, extra);
    if extra.len() > 0 {
        let front = extra.drop_last();
        let rest = merged_texts(base, front);
        lemma_merged_texts(base, front, text);
        lemma_merged_texts(base, front, extra.last());
        assert(extra =~= front.push(extra.last()));
        assert(extra.contains(text) <==> front.contains(text) || extra.last() == text) by {
            if extra.contains(text) {
                let i = choose|i: int| 0 <= i < extra.len() && extra[i] == text;
                if i < front.len() {
                    assert(front[i] == text);
                }
            }
            if front.contains(text) {
                let i = choose|i: int| 0 <= i < front.len() && front[i] == text;
                assert(extra[i] == text);
            }
            if extra.last() == text {
                assert(extra[extra.len() - 1] == text);
            }
        }
        if !rest.contains(extra.last()) {
            assert(all =~= rest.push(extra.last()));
            assert(all.take(base.len() as int) =~= rest.take(base.len() as int));
            assert(all.contains(text) <==> rest.contains(text) || extra.last() == text) by {
                if all.contains(text) {
                    let i = choose|i: int| 0 <= i < all.len() && all[i] == text;
                    if i < rest.len() {
                        assert(rest[i] == text);
                    }
                }
                if rest.contains(text) {
                    let i = choose|i: int| 0 <= i < rest.len() && rest[i] == text;
                    assert(all[i] == text);
                }
                if extra.last() == text {
                    assert(all[all.len() - 1] == text);
                }
            }
            assert forall|i: int, j: int|
                #![trigger all[i], all[j]]
                0 <= i < j < all.len() && base.len() <= j implies all[i] != all[j] by {
                assert(all[i] == rest[i]);
                if j < rest.len() {
                    assert(all[j] == rest[j]);
                } else {
                    assert(rest.contains(rest[i]));
                }
            }
        }
    } else {
        assert(all.take(base.len() as int) =~= base);
        assert(!extra.contains(text));
    }
}

// ---------------------------------------------------------------------------
// Order
// ---------------------------------------------------------------------------
/// A sort clause sorts by its field, ascending unless its direction says otherwise.
pub proof fn lemma_sort_clauses(clause: JsonModel)
    ensures
        member_of(clause, "field"@) matches Some(JsonModel::Text(field)) ==> term_of(clause).0
            == field,
        member_of(clause, "direction"@) is None ==> term_of(clause).1,
        member_of(clause, "direction"@) matches Some(JsonModel::Text(direction)) ==> (term_of(
            clause,
        ).1 <==> direction == "asc"@),
        terms_of(Some(JsonModel::Array(seq![clause]))) == seq![term_of(clause)],
{
    assert(terms_of(Some(JsonModel::Array(seq![clause]))) =~= seq![term_of(clause)]);
}

/// The value that an entry is sorted by: a formula's, a fact of the file, or that of
/// the frontmatter; null where there is none.
pub proof fn lemma_sort_values(entry: JsonModel, name: Seq<char>)
    ensures
        sort_value(entry, "formula."@ + name) == or_null(
            nested_member(entry, "formulas"@, name),
        ),
        !name.contains('.') && member_of(entry, "file"@) is Some ==> sort_value(
            entry,
            "file."@ + name,
        ) == or_null(nested_member(entry, "file"@, name)),
        is_record_field(name) ==> sort_value(entry, name) == or_null(
            nested_member(entry, "frontmatter"@, name),
        ),
{
    reveal_strlit("formula.");
    reveal_strlit("file.");
    let formula = "formula."@ + name;
    let file = "file."@ + name;
    assert(formula.subrange(0, 8) =~= "formula."@);
    assert(formula.skip(8) =~= name);
    assert(file.subrange(0, 5) =~= "file."@);
    assert(file.skip(5) =~= name);
    assert(file[1] == 'i');
    if crate::text::has_prefix(file, "formula."@) {
        assert(file.subrange(0, 8)[1] == "formula."@[1]);
    }
    lemma_no_first(name, '.');
}

proof fn lemma_no_first(value: Seq<char>, c: char)
    ensures
        !value.contains(c) ==> crate::text::first_at(value, c) == value.len(),
    decreases value.len(),
{
    if value.len() > 0 && !value.contains(c) {
        assert(value[0] != c);
        let rest = value.drop_first();
        if rest.contains(c) {
            let i = choose|i: int| 0 <= i < rest.len() && rest[i] == c;
            assert(value[i + 1] == c);
        }
        lemma_no_first(rest, c);
    }
}

/// An enumeration ranks its values by their places, and what is not among them last.
pub proof fn lemma_enumerations_rank_by_place(values: Seq<String>, at: int)
    requires
        0 <= at < values.len() <= usize::MAX,
        forall|i: int| 0 <= i < at ==> (#[trigger] values[i])@ != values[at]@,
    ensures
        rank_in(values, values[at]@) == at,
    decreases values.len(),
{
    if at > 0 {
        assert(values[0]@ != values[at]@);
        let rest = values.drop_first();
        assert forall|i: int| 0 <= i < at - 1 implies (#[trigger] rest[i])@ != rest[at - 1]@ by {
            assert(rest[i] == values[i + 1]);
        }
        lemma_enumerations_rank_by_place(rest, at - 1);
    }
}

pub proof fn lemma_unlisted_values_rank_last(values: Seq<String>, text: Seq<char>)
    requires
        forall|i: int| 0 <= i < values.len() ==> (#[trigger] values[i])@ != text,
    ensures
        rank_in(values, text) == usize::MAX,
    decreases values.len(),
{
    if values.len() > 0 {
        assert(values[0]@ != text);
        let rest = values.drop_first();
        assert forall|i: int| 0 <= i < rest.len() implies (#[trigger] rest[i])@ != text by {
            assert(rest[i] == values[i + 1]);
        }
        lemma_unlisted_values_rank_last(rest, text);
    }
}

/// Where the types make a field an enumeration, two of its values sort by their places
/// in it. Null comes after every value, and fields of no enumeration sort by value.
pub proof fn lemma_enumerated_fields_sort_by_rank(
    left: JsonModel,
    right: JsonModel,
    field: Seq<char>,
    names: Seq<Seq<char>>,
    types: Seq<crate::collection::TypeDefinition>,
)
    ensures
        left is Null && !(right is Null) ==> sort_order(left, right, field, names, types)
            == Order::Greater,
        !(left is Null) && right is Null ==> sort_order(left, right, field, names, types)
            == Order::Less,
        left is Text && right is Text && is_record_field(field) && enum_values(
            field,
            names,
            types,
        ) is Some ==> {
            let values = enum_values(field, names, types)->0;
            let a = rank_in(values, left->Text_0);
            let b = rank_in(values, right->Text_0);
            &&& sort_order(left, right, field, names, types) == Order::Less <==> a < b
            &&& sort_order(left, right, field, names, types) == Order::Greater <==> a > b
        },
        left is Text && right is Text && (!is_record_field(field) || enum_values(
            field,
            names,
            types,
        ) is None) ==> sort_order(left, right, field, names, types) == text_order(
            left->Text_0,
            right->Text_0,
        ),
        left is Number && right is Number && (!is_record_field(field) || enum_values(
            field,
            names,
            types,
        ) is None) ==> sort_order(left, right, field, names, types) == number_order(
            left->Number_0,
            right->Number_0,
        ),
{
}

// ---------------------------------------------------------------------------
// Groups
// ---------------------------------------------------------------------------
proof fn lemma_group_entries(entries: Seq<JsonModel>, property: Seq<char>, text: Seq<char>)
    ensures
        forall|k: int|
            0 <= k < entries.len() && group_text(group_key(entries[k], property)) == text
                ==> group_entries(entries, property, text).contains(#[trigger] entries[k]),
        forall|k: int|
            0 <= k < group_entries(entries, property, text).len() ==> entries.contains(
                #[trigger] group_entries(entries, property, text)[k],
            ) && group_text(group_key(group_entries(entries, property, text)[k], property)) == text,
    decreases entries.len(),
{
    if entries.len() > 0 {
        let front = entries.drop_last();
        let rest = group_entries(front, property, text);
        let all = group_entries(entries, property, text);
        lemma_group_entries(front, property, text);
        assert forall|k: int|
            0 <= k < entries.len() && group_text(group_key(entries[k], property)) == text implies
            all.contains(#[trigger] entries[k]) by {
            if k < front.len() {
                assert(front[k] == entries[k]);
                let i = choose|i: int| 0 <= i < rest.len() && rest[i] == front[k];
                assert(all[i] == rest[i]);
            } else {
                assert(all[all.len() - 1] == entries[k]);
            }
        }
        assert forall|k: int| 0 <= k < all.len() implies entries.contains(#[trigger] all[k])
            && group_text(group_key(all[k], property)) == text by {
            if k < rest.len() {
                assert(all[k] == rest[k]);
                let i = choose|i: int| 0 <= i < front.len() && front[i] == rest[k];
                assert(entries[i] == all[k]);
            } else {
                assert(entries[entries.len() - 1] == all[k]);
            }
        }
    }
}

proof fn lemma_group_keys(entries: Seq<JsonModel>, property: Seq<char>)
    ensures
        forall|k: int|
            0 <= k < entries.len() ==> has_group(
                group_keys(entries, property),
                group_text(group_key(#[trigger] entries[k], property)),
            ),
        forall|i: int, j: int|
            0 <= i < j < group_keys(entries, property).len() ==> group_text(
                #[trigger] group_keys(entries, property)[i],
            ) != group_text(#[trigger] group_keys(entries, property)[j]),
        forall|i: int|
            0 <= i < group_keys(entries, property).len() ==> exists|k: int|
                0 <= k < entries.len() && group_key(#[trigger] entries[k], property)
                    == #[trigger] group_keys(entries, property)[i],
    decreases entries.len(),
{
    if entries.len() > 0 {
        let front = entries.drop_last();
        lemma_group_keys(front, property);
        let rest = group_keys(front, property);
        let all = group_keys(entries, property);
        let key = group_key(entries.last(), property);
        assert forall|k: int| 0 <= k < entries.len() implies has_group(
            all,
            group_text(group_key(#[trigger] entries[k], property)),
        ) by {
            if k < front.len() {
                assert(front[k] == entries[k]);
                let i = choose|i: int|
                    0 <= i < rest.len() && group_text(#[trigger] rest[i]) == group_text(
                        group_key(front[k], property),
                    );
                assert(all[i] == rest[i]);
            } else if !has_group(rest, group_text(key)) {
                assert(all[all.len() - 1] == key);
            }
        }
        assert forall|i: int, j: int| 0 <= i < j < all.len() implies group_text(
            #[trigger] all[i],
        ) != group_text(#[trigger] all[j]) by {
            assert(all[i] == rest[i]);
            if j < rest.len() {
                assert(all[j] == rest[j]);
            }
        }
        assert forall|i: int| 0 <= i < all.len() implies exists|k: int|
            0 <= k < entries.len() && group_key(#[trigger] entries[k], property)
                == #[trigger] all[i] by {
            if i < rest.len() {
                assert(all[i] == rest[i]);
                let k = choose|k: int|
                    0 <= k < front.len() && group_key(#[trigger] front[k], property) == rest[i];
                assert(entries[k] == front[k]);
                assert(group_key(entries[k], property) == all[i]);
            } else {
                assert(group_key(entries[entries.len() - 1], property) == all[i]);
            }
        }
    }
}

proof fn lemma_group_order_consistent(keys: Seq<JsonModel>)
    ensures
        consistent(keys.len(), order_of_groups(keys)),
{
    let order = order_of_groups(keys);
    assert forall|a: int, b: int|
        #![trigger order(a, b)]
        0 <= a < keys.len() && 0 <= b < keys.len() implies order(b, a) == order(
        a,
        b,
    ).spec_reverse() by {
        lemma_text_order_reverse(
            crate::query::order_text(keys[a]),
            crate::query::order_text(keys[b]),
        );
    }
    assert forall|a: int, b: int, c: int|
        #![trigger order(a, b), order(b, c)]
        0 <= a < keys.len() && 0 <= b < keys.len() && 0 <= c < keys.len() && order(a, b)
            != Order::Greater && order(b, c) != Order::Greater implies order(a, c)
        != Order::Greater && (order(a, c) == Order::Equal ==> order(a, b) == Order::Equal && order(
        b,
        c,
    ) == Order::Equal) by {
        let x = crate::query::order_text(keys[a]);
        let y = crate::query::order_text(keys[b]);
        let z = crate::query::order_text(keys[c]);
        if text_order(x, y) != Order::Greater && text_order(y, z) != Order::Greater {
            lemma_text_order_transitive(x, y, z);
        }
    }
}

/// Grouping puts every entry into the one group with its key, and nothing else into
/// it: groups differ in their keys, each has entries of its own key alone, and every
/// entry is in a group.
pub proof fn lemma_groups_share_their_key(
    groups: Seq<EntryGroup>,
    entries: Seq<JsonModel>,
    property: Seq<char>,
    descending: bool,
)
    requires
        are_groups(groups, entries, property, descending),
    ensures
        forall|g: int, h: int|
            0 <= g < groups.len() && 0 <= h < groups.len() && g != h ==> group_text(
                (#[trigger] groups[g]).key@,
            ) != group_text((#[trigger] groups[h]).key@),
        forall|g: int, k: int|
            0 <= g < groups.len() && 0 <= k < groups[g].entries@.len() ==> entries.contains(
                (#[trigger] groups[g].entries@[k])@,
            ) && group_text(
                or_null(nested_member(groups[g].entries@[k]@, "frontmatter"@, property)),
            ) == group_text(groups[g].key@),
        forall|k: int|
            0 <= k < entries.len() ==> exists|g: int|
                0 <= g < groups.len() && item_models((#[trigger] groups[g]).entries@).contains(
                    #[trigger] entries[k],
                ),
{
    let keys = group_keys(entries, property);
    let positions = choose|positions: Seq<usize>| #[trigger]
        stably_sorted(keys.len(), order_of_groups(keys), positions) && groups.len()
            == positions.len() && forall|g: int|
            0 <= g < groups.len() ==> is_group(
                #[trigger] groups[g],
                keys[directed_positions(positions, descending)[g] as int],
                entries,
                property,
            );
    lemma_group_keys(entries, property);
    let directed = directed_positions(positions, descending);
    assert forall|g: int| 0 <= g < groups.len() implies 0 <= #[trigger] directed[g] < keys.len() by {
        if descending {
            assert(directed[g] == positions[positions.len() - 1 - g]);
        }
    }
    assert forall|g: int, h: int|
        0 <= g < groups.len() && 0 <= h < groups.len() && g != h implies directed[g]
        != directed[h] by {
        if descending {
            assert(directed[g] == positions[positions.len() - 1 - g]);
            assert(directed[h] == positions[positions.len() - 1 - h]);
        }
    }
    assert forall|g: int, h: int|
        0 <= g < groups.len() && 0 <= h < groups.len() && g != h implies group_text(
        (#[trigger] groups[g]).key@,
    ) != group_text((#[trigger] groups[h]).key@) by {
        assert(is_group(groups[g], keys[directed[g] as int], entries, property));
        assert(is_group(groups[h], keys[directed[h] as int], entries, property));
        if directed[g] < directed[h] {
            assert(group_text(keys[directed[g] as int]) != group_text(keys[directed[h] as int]));
        } else {
            assert(group_text(keys[directed[h] as int]) != group_text(keys[directed[g] as int]));
        }
    }
    assert forall|g: int, k: int|
        0 <= g < groups.len() && 0 <= k < groups[g].entries@.len() implies entries.contains(
        (#[trigger] groups[g].entries@[k])@,
    ) && group_text(or_null(nested_member(groups[g].entries@[k]@, "frontmatter"@, property)))
        == group_text(groups[g].key@) by {
        assert(is_group(groups[g], keys[directed[g] as int], entries, property));
        lemma_group_entries(entries, property, group_text(groups[g].key@));
        assert(item_models(groups[g].entries@)[k] == groups[g].entries@[k]@);
    }
    assert forall|k: int| 0 <= k < entries.len() implies exists|g: int|
        0 <= g < groups.len() && item_models((#[trigger] groups[g]).entries@).contains(
            #[trigger] entries[k],
        ) by {
        let text = group_text(group_key(entries[k], property));
        assert(has_group(keys, text));
        let i = choose|i: int| 0 <= i < keys.len() && group_text(#[trigger] keys[i]) == text;
        let at = lemma_covers_each(positions, keys.len(), i);
        let g = if descending {
            positions.len() - 1 - at
        } else {
            at
        };
        assert(directed[g] == i);
        assert(is_group(groups[g], keys[directed[g] as int], entries, property));
        lemma_group_entries(entries, property, text);
        assert(item_models(groups[g].entries@).contains(entries[k]));
    }
}

/// Groups stand in ascending order of their keys, with the group without a key last;
/// a descending grouping reverses them.
pub proof fn lemma_groups_stand_in_order(
    groups: Seq<EntryGroup>,
    entries: Seq<JsonModel>,
    property: Seq<char>,
    descending: bool,
    g: int,
    h: int,
)
    requires
        are_groups(groups, entries, property, descending),
        0 <= g < h < groups.len(),
    ensures
        ({
            let (first, second) = if descending {
                (groups[h].key@, groups[g].key@)
            } else {
                (groups[g].key@, groups[h].key@)
            };
            &&& group_order(first, second) != Order::Greater
            &&& !(first is Null)
            &&& first is Text && second is Text ==> text_order(first->Text_0, second->Text_0)
                != Order::Greater
        }),
{
    let keys = group_keys(entries, property);
    let positions = choose|positions: Seq<usize>| #[trigger]
        stably_sorted(keys.len(), order_of_groups(keys), positions) && groups.len()
            == positions.len() && forall|g: int|
            0 <= g < groups.len() ==> is_group(
                #[trigger] groups[g],
                keys[directed_positions(positions, descending)[g] as int],
                entries,
                property,
            );
    let directed = directed_positions(positions, descending);
    lemma_group_order_consistent(keys);
    assert(is_group(groups[g], keys[directed[g] as int], entries, property));
    assert(is_group(groups[h], keys[directed[h] as int], entries, property));
    let (i, j) = if descending {
        (positions.len() - 1 - h, positions.len() - 1 - g)
    } else {
        (g, h)
    };
    lemma_sorted_pairs(keys.len(), order_of_groups(keys), positions, i, j);
    let first = keys[positions[i] as int];
    let second = keys[positions[j] as int];
    assert(group_order(first, second) != Order::Greater);
    lemma_group_keys(entries, property);
    if positions[i] < positions[j] {
        assert(group_text(keys[positions[i] as int]) != group_text(keys[positions[j] as int]));
    } else {
        assert(positions[i] != positions[j]);
        assert(group_text(keys[positions[j] as int]) != group_text(keys[positions[i] as int]));
    }
}

// ---------------------------------------------------------------------------
// Summaries
// ---------------------------------------------------------------------------
/// The numbers of a field add up one after the other, from zero on.
pub proof fn lemma_sums_add_up(numbers: Seq<NumberModel>, number: NumberModel)
    ensures
        sum_of(Seq::empty()) == Some(NumberModel::Integer(0)),
        sum_of(numbers) is Some ==> sum_of(numbers.push(number)) == float_sum(
            sum_of(numbers)->0,
            number,
        ),
        sum_of(numbers) is None ==> sum_of(numbers.push(number)) is None,
{
    assert(numbers.push(number).drop_last() =~= numbers);
}

/// The average of a field is the sum of its numbers divided by how many there are.
pub proof fn lemma_averages_divide_sums(candidates: Seq<JsonModel>, field: Seq<char>)
    ensures
        ({
            let numbers = numbers_among(field_values(candidates, field));
            &&& numbers.len() == 0 ==> summary_value("Average"@, candidates, field)
                == JsonModel::Null
            &&& numbers.len() > 0 && sum_of(numbers) is Some ==> summary_value(
                "Average"@,
                candidates,
                field,
            ) == rounded_value(float_quotient(sum_of(numbers)->0, numbers.len() as u64))
        }),
{
    lemma_summary_names();
}

proof fn lemma_summary_names()
    ensures
        "Sum"@ != "Average"@,
        "Min"@ != "Average"@,
        "Min"@ != "Sum"@,
        "Max"@ != "Average"@,
        "Max"@ != "Sum"@,
        "Max"@ != "Min"@,
        "Earliest"@.len() == 8,
        "Latest"@.len() == 6,
        "Checked"@.len() == 7,
        "Unchecked"@.len() == 9,
        "Empty"@.len() == 5,
        "Filled"@.len() == 6,
        "Unique"@.len() == 6,
        "Sum"@.len() == 3,
        "Min"@.len() == 3,
        "Max"@.len() == 3,
        "Average"@.len() == 7,
        "Average"@[0] == 'A',
        "Checked"@[0] == 'C',
        "Latest"@[0] == 'L',
        "Filled"@[0] == 'F',
        "Unique"@[0] == 'U',
{
    reveal_strlit("Average");
    reveal_strlit("Sum");
    reveal_strlit("Min");
    reveal_strlit("Max");
    reveal_strlit("Earliest");
    reveal_strlit("Latest");
    reveal_strlit("Checked");
    reveal_strlit("Unchecked");
    reveal_strlit("Empty");
    reveal_strlit("Filled");
    reveal_strlit("Unique");
    assert("Sum"@[0] == 'S' && "Min"@[1] == 'i' && "Max"@[1] == 'a' && "Min"@[0] == 'M' && "Max"@[0]
        == 'M');
    assert("Sum"@.len() == 3 && "Average"@.len() == 7 && "Min"@.len() == 3 && "Max"@.len() == 3);
}

/// The least number is one of the numbers, and none comes before it; the greatest is
/// one of them, and none comes after it. Without numbers there is neither.
pub proof fn lemma_extremes_bound_the_numbers(numbers: Seq<NumberModel>)
    ensures
        numbers.len() == 0 <==> extreme(numbers, Order::Less) is None,
        numbers.len() == 0 <==> extreme(numbers, Order::Greater) is None,
        numbers.len() > 0 ==> {
            let least = extreme(numbers, Order::Less)->0;
            let most = extreme(numbers, Order::Greater)->0;
            &&& numbers.contains(least)
            &&& numbers.contains(most)
            &&& forall|i: int|
                0 <= i < numbers.len() ==> number_order(#[trigger] numbers[i], least)
                    != Order::Less && number_order(numbers[i], most) != Order::Greater
        },
    decreases numbers.len(),
{
    if numbers.len() > 0 {
        let front = numbers.drop_last();
        lemma_extremes_bound_the_numbers(front);
        let last = numbers.last();
        assert(numbers[numbers.len() - 1] == last);
        let least = extreme(numbers, Order::Less)->0;
        let most = extreme(numbers, Order::Greater)->0;
        if front.len() > 0 {
            let before = extreme(front, Order::Less)->0;
            let i = choose|i: int| 0 <= i < front.len() && front[i] == before;
            assert(numbers[i] == before);
            let after = extreme(front, Order::Greater)->0;
            let j = choose|j: int| 0 <= j < front.len() && front[j] == after;
            assert(numbers[j] == after);
        }
        assert forall|i: int| 0 <= i < numbers.len() implies number_order(
            #[trigger] numbers[i],
            least,
        ) != Order::Less && number_order(numbers[i], most) != Order::Greater by {
            if i < front.len() {
                assert(front[i] == numbers[i]);
            }
        }
    }
}

/// The earliest text is one of the texts, and none comes before it; the latest is one
/// of them, and none comes after it.
pub proof fn lemma_extremes_bound_the_texts(values: Seq<Seq<char>>)
    ensures
        values.len() == 0 <==> extreme_text(values, Order::Less) is None,
        values.len() == 0 <==> extreme_text(values, Order::Greater) is None,
        values.len() > 0 ==> {
            let least = extreme_text(values, Order::Less)->0;
            let most = extreme_text(values, Order::Greater)->0;
            &&& values.contains(least)
            &&& values.contains(most)
            &&& forall|i: int|
                0 <= i < values.len() ==> text_order(#[trigger] values[i], least) != Order::Less
                    && text_order(values[i], most) != Order::Greater
        },
    decreases values.len(),
{
    if values.len() > 0 {
        let front = values.drop_last();
        lemma_extremes_bound_the_texts(front);
        let last = values.last();
        assert(values[values.len() - 1] == last);
        lemma_text_order_equal(last, last);
        let least = extreme_text(values, Order::Less)->0;
        let most = extreme_text(values, Order::Greater)->0;
        if front.len() > 0 {
            let before = extreme_text(front, Order::Less)->0;
            let i = choose|i: int| 0 <= i < front.len() && front[i] == before;
            assert(values[i] == before);
            let after = extreme_text(front, Order::Greater)->0;
            let j = choose|j: int| 0 <= j < front.len() && front[j] == after;
            assert(values[j] == after);
            lemma_text_order_equal(last, before);
            lemma_text_order_equal(last, after);
        }
        assert forall|i: int| 0 <= i < values.len() implies text_order(
            #[trigger] values[i],
            least,
        ) != Order::Less && text_order(values[i], most) != Order::Greater by {
            if i < front.len() {
                assert(front[i] == values[i]);
                let before = extreme_text(front, Order::Less)->0;
                let after = extreme_text(front, Order::Greater)->0;
                lemma_text_order_reverse(values[i], before);
                lemma_text_order_reverse(values[i], after);
                lemma_text_order_reverse(last, before);
                lemma_text_order_reverse(last, after);
                lemma_text_order_reverse(values[i], last);
                if least == last && text_order(values[i], last) == Order::Less {
                    lemma_text_order_transitive(values[i], last, before);
                }
                if most == last && text_order(values[i], last) == Order::Greater {
                    lemma_text_order_transitive(after, last, values[i]);
                }
            }
        }
    }
}

/// The summaries of a field: its least and greatest number, its earliest and latest
/// text, how many of its values are true or false, how many records have none or one,
/// and how many different values there are.
pub proof fn lemma_summaries_by_name(candidates: Seq<JsonModel>, field: Seq<char>)
    ensures
        ({
            let values = field_values(candidates, field);
            let numbers = numbers_among(values);
            &&& numbers.len() == 0 ==> summary_value("Sum"@, candidates, field)
                == JsonModel::Number(NumberModel::Integer(0))
            &&& numbers.len() > 0 ==> {
                ||| summary_value("Sum"@, candidates, field) == rounded_value(sum_of(numbers))
                ||| summary_value("Sum"@, candidates, field) == plain_value(sum_of(numbers))
            }
            &&& numbers.len() > 0 ==> summary_value("Min"@, candidates, field) == rounded_value(
                crate::numbers::reading(extreme(numbers, Order::Less)->0),
            )
            &&& numbers.len() > 0 ==> summary_value("Max"@, candidates, field) == rounded_value(
                crate::numbers::reading(extreme(numbers, Order::Greater)->0),
            )
            &&& summary_value("Earliest"@, candidates, field) == text_or_null(
                extreme_text(texts_among(values), Order::Less),
            )
            &&& summary_value("Latest"@, candidates, field) == text_or_null(
                extreme_text(texts_among(values), Order::Greater),
            )
            &&& summary_value("Unique"@, candidates, field) == count_value(
                distinct(values).len() as int,
            )
        }),
{
    lemma_summary_names();
    if numbers_among(field_values(candidates, field)).len() > 0 {
        lemma_extremes_bound_the_numbers(numbers_among(field_values(candidates, field)));
    }
}

/// Every record either lacks a field or fills it: the two counts add up to the number
/// of records. A record lacks it where it is missing, null, or an empty text.
pub proof fn lemma_empty_and_filled_add_up(candidates: Seq<JsonModel>, field: Seq<char>)
    ensures
        ({
            let empty = summary_value("Empty"@, candidates, field);
            let filled = summary_value("Filled"@, candidates, field);
            &&& empty matches JsonModel::Number(NumberModel::Integer(a))
            &&& filled matches JsonModel::Number(NumberModel::Integer(b))
            &&& a + b == candidates.len()
            &&& (forall|i: int|
                0 <= i < candidates.len() ==> lacks_value(#[trigger] candidates[i], field))
                ==> a == candidates.len()
            &&& (forall|i: int|
                0 <= i < candidates.len() ==> !lacks_value(#[trigger] candidates[i], field))
                ==> b == candidates.len()
        }),
{
    lemma_summary_names();
    let blank = |candidate: JsonModel| is_blank(candidate, field) == true;
    let full = |candidate: JsonModel| is_blank(candidate, field) == false;
    lemma_counts_add_up(candidates, blank, full);
    assert forall|i: int| 0 <= i < candidates.len() implies lacks_value(
        #[trigger] candidates[i],
        field,
    ) == blank(candidates[i]) by {
        if let Some(JsonModel::Text(text)) = nested_member(candidates[i], "frontmatter"@, field) {
            if text.len() == 0 {
                assert(text =~= Seq::empty());
            }
        }
    }
    assert("Empty"@ != "Average"@ && "Filled"@ != "Latest"@);
}

/// Whether a record has no value for a field, or an empty text.
pub open spec fn lacks_value(candidate: JsonModel, field: Seq<char>) -> bool {
    let value = nested_member(candidate, "frontmatter"@, field);
    value is None || value == Some(JsonModel::Null) || value == Some(
        JsonModel::Text(Seq::empty()),
    )
}

proof fn lemma_counts_add_up(
    values: Seq<JsonModel>,
    first: spec_fn(JsonModel) -> bool,
    second: spec_fn(JsonModel) -> bool,
)
    requires
        forall|value: JsonModel| #[trigger] first(value) != second(value),
    ensures
        count_where(values, first) + count_where(values, second) == values.len(),
        (forall|i: int| 0 <= i < values.len() ==> first(#[trigger] values[i])) ==> count_where(
            values,
            first,
        ) == values.len(),
        (forall|i: int| 0 <= i < values.len() ==> !first(#[trigger] values[i])) ==> count_where(
            values,
            second,
        ) == values.len(),
    decreases values.len(),
{
    if values.len() > 0 {
        let front = values.drop_last();
        lemma_counts_add_up(front, first, second);
        assert(first(values.last()) != second(values.last()));
        if forall|i: int| 0 <= i < values.len() ==> first(#[trigger] values[i]) {
            assert(first(values[values.len() - 1]));
            assert forall|i: int| 0 <= i < front.len() implies first(#[trigger] front[i]) by {
                assert(front[i] == values[i]);
            }
        }
        if forall|i: int| 0 <= i < values.len() ==> !first(#[trigger] values[i]) {
            assert(!first(values[values.len() - 1]));
            assert forall|i: int| 0 <= i < front.len() implies !first(#[trigger] front[i]) by {
                assert(front[i] == values[i]);
            }
        }
    }
}

/// One more true value adds one to the checked, one more false value to the
/// unchecked, and any other value to neither.
pub proof fn lemma_checked_values_are_counted(values: Seq<JsonModel>, value: JsonModel)
    ensures
        ({
            let checked = |value: JsonModel| value == JsonModel::Bool(true);
            let unchecked = |value: JsonModel| value == JsonModel::Bool(false);
            &&& count_where(values.push(value), checked) == count_where(values, checked)
                + if value == JsonModel::Bool(true) {
                1nat
            } else {
                0nat
            }
            &&& count_where(values.push(value), unchecked) == count_where(values, unchecked)
                + if value == JsonModel::Bool(false) {
                1nat
            } else {
                0nat
            }
        }),
{
    assert(values.push(value).drop_last() =~= values);
}

/// What is checked and unchecked is counted among the values of the field.
pub proof fn lemma_checked_summaries(candidates: Seq<JsonModel>, field: Seq<char>)
    ensures
        summary_value("Checked"@, candidates, field) == count_value(
            count_where(
                field_values(candidates, field),
                |value: JsonModel| value == JsonModel::Bool(true),
            ) as int,
        ),
        summary_value("Unchecked"@, candidates, field) == count_value(
            count_where(
                field_values(candidates, field),
                |value: JsonModel| value == JsonModel::Bool(false),
            ) as int,
        ),
{
    lemma_summary_names();
}

/// The values of a field are those of the records that have it, in order; the numbers
/// and texts among values are just the numbers and texts.
pub proof fn lemma_values_of_fields(
    candidates: Seq<JsonModel>,
    candidate: JsonModel,
    field: Seq<char>,
)
    ensures
        field_values(Seq::empty(), field) == Seq::<JsonModel>::empty(),
        field_values(candidates.push(candidate), field) == match nested_member(
            candidate,
            "frontmatter"@,
            field,
        ) {
            Some(value) => field_values(candidates, field).push(value),
            None => field_values(candidates, field),
        },
        numbers_among(candidates.push(candidate)) == match candidate {
            JsonModel::Number(number) => numbers_among(candidates).push(number),
            _ => numbers_among(candidates),
        },
        texts_among(candidates.push(candidate)) == match candidate {
            JsonModel::Text(text) => texts_among(candidates).push(text),
            _ => texts_among(candidates),
        },
{
    assert(candidates.push(candidate).drop_last() =~= candidates);
}

} // verus!
