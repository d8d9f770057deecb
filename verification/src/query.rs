//! Queries over evaluated records: candidates, groups, pages, and answers.

use crate::canonical::{compact_text, to_compact_text};
use crate::collection::Collection;
use crate::engine::{
    errors_in, evaluate_where, filter_error, filter_holds, is_sorted_list, sort_entries, terms_of,
    text_or, truths_in, validate_where_clause, EvaluatedRecord, FilterExpression, FormulaResult,
};
use crate::json::{
    array_texts, bool_member, copy_items, item_models, member_models, member_of, nested_member,
    or_null, put_member, text_member, text_models, texts_of, unsigned_model, with_member, Json,
    JsonModel, Member,
};
use crate::planner::{EvaluationError, Formulas};
use crate::results::{compute_summaries, count_value, summaries_of};
use crate::sorting::{sorted_positions, stably_sorted, Comparison};
use crate::text::{
    compare_text, contains_text, eq_ignore_ascii_case, file_folder, file_name, folder_of, has_part,
    has_prefix, list_contains, lower_case, merge_texts, merged_texts, name_of, optional_text,
    same_ignoring_case, same_text, starts_with, text_order, texts, to_lower_case, trim_end_char,
    trimmed_end, Order,
};
use vstd::prelude::*;
use vstd::string::StringExecFns;

verus! {

/// Whether a formula error ends the whole query.
pub open spec fn is_fatal(error: EvaluationError) -> bool {
    error.code@ == "division_by_zero"@ || error.code@ == "unknown_function"@ || (error.code@
        == "type_error"@ && !has_part(error.message@, "null"@))
}

fn fatal(error: &EvaluationError) -> (result: bool)
    ensures
        result == is_fatal(*error),
{
    let code = error.code.as_str();
    same_text(code, "division_by_zero") || same_text(code, "unknown_function") || (same_text(
        code,
        "type_error",
    ) && !contains_text(error.message.as_str(), "null"))
}

/// What evaluating the formula with a name gave, where it was evaluated.
pub open spec fn outcome_of(results: Seq<FormulaResult>, name: Seq<char>) -> Option<
    Result<Json, EvaluationError>,
>
    decreases results.len(),
{
    if results.len() == 0 {
        None
    } else if results[0].name@ == name {
        Some(results[0].outcome)
    } else {
        outcome_of(results.drop_first(), name)
    }
}

fn find_outcome<'a>(results: &'a Vec<FormulaResult>, name: &str) -> (result: Option<
    &'a Result<Json, EvaluationError>,
>)
    ensures
        match result {
            Some(outcome) => outcome_of(results@, name@) == Some(*outcome),
            None => outcome_of(results@, name@) is None,
        },
{
    let mut i: usize = 0;
    proof {
        assert(results@.skip(0) =~= results@);
    }
    while i < results.len()
        invariant
            i <= results@.len(),
            outcome_of(results@, name@) == outcome_of(results@.skip(i as int), name@),
        decreases results@.len() - i,
    {
        proof {
            assert(results@.skip(i as int).drop_first() =~= results@.skip(i + 1));
        }
        if same_text(results[i].name.as_str(), name) {
            return Some(&results[i].outcome);
        }
        i = i + 1;
    }
    None
}

/// The values of the named formulas of a record, or the message of the first fatal
/// error. Other errors leave null, as does a formula without a result.
pub open spec fn formula_values(names: Seq<Seq<char>>, results: Seq<FormulaResult>) -> Result<
    Seq<(Seq<char>, JsonModel)>,
    Seq<char>,
>
    decreases names.len(),
{
    if names.len() == 0 {
        Ok(Seq::empty())
    } else {
        match formula_values(names.drop_last(), results) {
            Err(message) => Err(message),
            Ok(members) => match outcome_of(results, names.last()) {
                Some(Ok(value)) => Ok(with_member(members, names.last(), value@)),
                Some(Err(error)) => if is_fatal(error) {
                    Err("Formula '"@ + names.last() + "': "@ + error.message@)
                } else {
                    Ok(with_member(members, names.last(), JsonModel::Null))
                },
                None => Ok(with_member(members, names.last(), JsonModel::Null)),
            },
        }
    }
}

proof fn lemma_formula_values_error(
    names: Seq<Seq<char>>,
    results: Seq<FormulaResult>,
    count: int,
)
    requires
        0 <= count <= names.len(),
        formula_values(names.take(count), results) is Err,
    ensures
        formula_values(names, results) == formula_values(names.take(count), results),
    decreases names.len(),
{
    if count < names.len() {
        assert(names.drop_last().take(count) =~= names.take(count));
        lemma_formula_values_error(names.drop_last(), results, count);
    } else {
        assert(names.take(count) =~= names);
    }
}

fn collect_formulas(names: &Vec<String>, results: &Vec<FormulaResult>) -> (result: Result<
    Vec<Member>,
    String,
>)
    ensures
        match result {
            Ok(members) => formula_values(texts(names@), results@) == Ok::<_, Seq<char>>(
                member_models(members@),
            ),
            Err(message) => formula_values(texts(names@), results@) == Err::<
                Seq<(Seq<char>, JsonModel)>,
                _,
            >(message@),
        },
{
    let ghost all = texts(names@);
    let mut members: Vec<Member> = Vec::new();
    let mut i: usize = 0;
    proof {
        assert(member_models(members@) =~= Seq::empty());
    }
    while i < names.len()
        invariant
            i <= names@.len(),
            all == texts(names@),
            formula_values(all.take(i as int), results@) == Ok::<_, Seq<char>>(
                member_models(members@),
            ),
        decreases names@.len() - i,
    {
        let name = names[i].as_str();
        proof {
            assert(all.take(i + 1).drop_last() =~= all.take(i as int));
            assert(all.take(i + 1).last() == name@);
        }
        match find_outcome(results, name) {
            Some(Ok(value)) => {
                put_member(&mut members, name, value.copy());
            },
            Some(Err(error)) => {
                if fatal(error) {
                    let message = "Formula '".to_owned().concat(name).concat("': ").concat(
                        error.message.as_str(),
                    );
                    proof {
                        lemma_formula_values_error(all, results@, i + 1);
                    }
                    return Err(message);
                }
                put_member(&mut members, name, Json::Null);
            },
            None => {
                put_member(&mut members, name, Json::Null);
            },
        }
        i = i + 1;
    }
    proof {
        assert(all.take(i as int) =~= all);
    }
    Ok(members)
}

/// Whether a path lies in a folder, given without its closing slashes.
pub open spec fn in_folder(path: Seq<char>, folder: Seq<char>) -> bool {
    has_prefix(path, folder) && (path.len() == folder.len() || path[folder.len() as int] == '/')
}

fn lies_in_folder(path: &str, folder: &str) -> (result: bool)
    ensures
        result == in_folder(path@, folder@),
{
    if !starts_with(path, folder) {
        return false;
    }
    let chars = crate::text::chars_of(path);
    let prefix = crate::text::chars_of(folder);
    chars.len() == prefix.len() || chars[prefix.len()] == '/'
}

/// Whether a record is in the query's folder and has one of its types, where
/// the query names any.
pub open spec fn in_scope(
    record: EvaluatedRecord,
    folder: Option<Seq<char>>,
    types: Seq<Seq<char>>,
) -> bool {
    &&& match folder {
        Some(folder) => in_folder(record.record.rel_path@, trimmed_end(folder, '/')),
        None => true,
    }
    &&& types.len() == 0 || exists|i: int|
        0 <= i < record.record.type_names@.len() && types.contains(
            (#[trigger] record.record.type_names@[i])@,
        )
}

fn has_listed_type(names: &Vec<String>, types: &Vec<String>) -> (result: bool)
    ensures
        result == exists|i: int|
            0 <= i < names@.len() && texts(types@).contains((#[trigger] names@[i])@),
{
    let mut i: usize = 0;
    while i < names.len()
        invariant
            i <= names@.len(),
            forall|k: int|
                0 <= k < i ==> !texts(types@).contains((#[trigger] names@[k])@),
        decreases names@.len() - i,
    {
        proof {
            crate::text::lemma_lists_text(types@, names@[i as int]@);
        }
        if list_contains(types, names[i].as_str()) {
            return true;
        }
        i = i + 1;
    }
    false
}

/// The file facts of a result entry.
pub open spec fn entry_file(record: EvaluatedRecord) -> JsonModel {
    let path = record.record.rel_path@;
    let mtime = match record.record.file_mtime_iso {
        Some(text) => text@,
        None => Seq::empty(),
    };
    let tags = merged_texts(
        array_texts(member_of(record.effective@, "tags"@)),
        texts(record.body_tags@),
    );
    let m = Seq::empty();
    let m = with_member(m, "name"@, JsonModel::Text(name_of(path)));
    let m = with_member(m, "folder"@, JsonModel::Text(folder_of(path)));
    let m = with_member(m, "size"@, count_value(record.record.file_size as int));
    let m = with_member(m, "mtime"@, JsonModel::Text(mtime));
    let m = with_member(m, "tags"@, JsonModel::Array(text_models(tags)));
    let m = with_member(m, "links"@, JsonModel::Array(text_models(texts(record.body_links@))));
    let m = with_member(m, "embeds"@, JsonModel::Array(text_models(texts(record.body_embeds@))));
    JsonModel::Object(m)
}

/// The result entry of a record.
pub open spec fn entry_of(
    record: EvaluatedRecord,
    formulas: Seq<(Seq<char>, JsonModel)>,
    include_body: bool,
) -> JsonModel {
    let m = Seq::empty();
    let m = with_member(m, "path"@, JsonModel::Text(record.record.rel_path@));
    let m = with_member(
        m,
        "types"@,
        JsonModel::Array(text_models(texts(record.record.type_names@))),
    );
    let m = with_member(m, "frontmatter"@, record.effective@);
    let m = with_member(
        m,
        "body"@,
        if include_body {
            JsonModel::Text(record.record.body@)
        } else {
            JsonModel::Null
        },
    );
    let m = with_member(m, "file"@, entry_file(record));
    let m = if formulas.len() > 0 {
        with_member(m, "formulas"@, JsonModel::Object(formulas))
    } else {
        m
    };
    JsonModel::Object(m)
}

fn build_entry(record: &EvaluatedRecord, formulas: Vec<Member>, include_body: bool) -> (result:
    Json)
    ensures
        result@ == entry_of(*record, member_models(formulas@), include_body),
{
    broadcast use {crate::json::lemma_object_model, crate::json::lemma_array_model};

    let path = record.record.rel_path.as_str();
    let mtime = match &record.record.file_mtime_iso {
        Some(text) => text.clone(),
        None => String::new(),
    };
    let tags = merge_texts(texts_of(record.effective.get("tags")), &record.body_tags);
    let mut file: Vec<Member> = Vec::new();
    proof {
        assert(member_models(file@) =~= Seq::empty());
    }
    put_member(&mut file, "name", Json::Text(file_name(path)));
    put_member(&mut file, "folder", Json::Text(file_folder(path)));
    put_member(&mut file, "size", Json::unsigned(record.record.file_size));
    put_member(&mut file, "mtime", Json::Text(mtime));
    put_member(&mut file, "tags", Json::text_array(&tags));
    put_member(&mut file, "links", Json::text_array(&record.body_links));
    put_member(&mut file, "embeds", Json::text_array(&record.body_embeds));
    let mut entry: Vec<Member> = Vec::new();
    proof {
        assert(member_models(entry@) =~= Seq::empty());
    }
    put_member(&mut entry, "path", Json::text(path));
    put_member(&mut entry, "types", Json::text_array(&record.record.type_names));
    put_member(&mut entry, "frontmatter", record.effective.copy());
    put_member(
        &mut entry,
        "body",
        if include_body {
            Json::text(record.record.body.as_str())
        } else {
            Json::Null
        },
    );
    put_member(&mut entry, "file", Json::Object(file));
    if formulas.len() > 0 {
        put_member(&mut entry, "formulas", Json::Object(formulas));
    }
    Json::Object(entry)
}

/// What an optional value holds.
pub open spec fn optional_model(value: Option<&Json>) -> Option<JsonModel> {
    match value {
        Some(value) => Some(value@),
        None => None,
    }
}

/// Whether the filter of a query, where it has one, holds for a record.
pub open spec fn is_selected(record: EvaluatedRecord, filter: Option<JsonModel>) -> bool {
    match filter {
        Some(filter) => filter_holds(filter, truths_in(record.truths@)),
        None => true,
    }
}

/// The entries of the records in scope that the filter holds for, in record
/// order; or the message of the first fatal formula error of one in scope.
pub open spec fn entries_of(
    records: Seq<EvaluatedRecord>,
    folder: Option<Seq<char>>,
    types: Seq<Seq<char>>,
    filter: Option<JsonModel>,
    names: Seq<Seq<char>>,
    include_body: bool,
) -> Result<Seq<JsonModel>, Seq<char>>
    decreases records.len(),
{
    if records.len() == 0 {
        Ok(Seq::empty())
    } else {
        let record = records.last();
        match entries_of(records.drop_last(), folder, types, filter, names, include_body) {
            Err(message) => Err(message),
            Ok(entries) => if !in_scope(record, folder, types) {
                Ok(entries)
            } else {
                match formula_values(names, record.formulas@) {
                    Err(message) => Err(message),
                    Ok(formulas) => if is_selected(record, filter) {
                        Ok(entries.push(entry_of(record, formulas, include_body)))
                    } else {
                        Ok(entries)
                    },
                }
            },
        }
    }
}

proof fn lemma_entries_error(
    records: Seq<EvaluatedRecord>,
    folder: Option<Seq<char>>,
    types: Seq<Seq<char>>,
    filter: Option<JsonModel>,
    names: Seq<Seq<char>>,
    include_body: bool,
    count: int,
)
    requires
        0 <= count <= records.len(),
        entries_of(records.take(count), folder, types, filter, names, include_body) is Err,
    ensures
        entries_of(records, folder, types, filter, names, include_body) == entries_of(
            records.take(count),
            folder,
            types,
            filter,
            names,
            include_body,
        ),
    decreases records.len(),
{
    if count < records.len() {
        assert(records.drop_last().take(count) =~= records.take(count));
        lemma_entries_error(records.drop_last(), folder, types, filter, names, include_body, count);
    } else {
        assert(records.take(count) =~= records);
    }
}

/// Builds the entries of the records that a query selects.
pub fn collect_entries(
    records: &Vec<EvaluatedRecord>,
    folder: &Option<String>,
    types: &Vec<String>,
    filter: Option<&Json>,
    names: &Vec<String>,
    include_body: bool,
) -> (result: Result<Vec<Json>, String>)
    ensures
        match result {
            Ok(entries) => entries_of(
                records@,
                optional_text(*folder),
                texts(types@),
                optional_model(filter),
                texts(names@),
                include_body,
            ) == Ok::<_, Seq<char>>(item_models(entries@)),
            Err(message) => entries_of(
                records@,
                optional_text(*folder),
                texts(types@),
                optional_model(filter),
                texts(names@),
                include_body,
            ) == Err::<Seq<JsonModel>, _>(message@),
        },
{
    let trimmed = match folder {
        Some(folder) => Some(trim_end_char(folder.as_str(), '/')),
        None => None,
    };
    let mut entries: Vec<Json> = Vec::new();
    let mut i: usize = 0;
    proof {
        assert(item_models(entries@) =~= Seq::empty());
    }
    while i < records.len()
        invariant
            i <= records@.len(),
            match trimmed {
                Some(text) => folder is Some && text@ == trimmed_end(folder->0@, '/'),
                None => folder is None,
            },
            entries_of(
                records@.take(i as int),
                optional_text(*folder),
                texts(types@),
                optional_model(filter),
                texts(names@),
                include_body,
            ) == Ok::<_, Seq<char>>(item_models(entries@)),
        decreases records@.len() - i,
    {
        proof {
            assert(records@.take(i + 1).drop_last() =~= records@.take(i as int));
            assert(records@.take(i + 1).last() == records@[i as int]);
            assert(texts(types@).len() == types@.len());
        }
        let record = &records[i];
        let placed = match &trimmed {
            Some(folder) => lies_in_folder(record.record.rel_path.as_str(), folder.as_str()),
            None => true,
        };
        let in_scope = placed && (types.len() == 0 || has_listed_type(
            &record.record.type_names,
            types,
        ));
        if in_scope {
            match collect_formulas(names, &record.formulas) {
                Err(message) => {
                    proof {
                        lemma_entries_error(
                            records@,
                            optional_text(*folder),
                            texts(types@),
                            optional_model(filter),
                            texts(names@),
                            include_body,
                            i + 1,
                        );
                    }
                    return Err(message);
                },
                Ok(formulas) => {
                    let selected = match filter {
                        Some(filter) => evaluate_where(filter, &record.truths),
                        None => true,
                    };
                    if selected {
                        let entry = build_entry(record, formulas, include_body);
                        let ghost before = entries@;
                        entries.push(entry);
                        proof {
                            assert(item_models(entries@) =~= item_models(before).push(entry@));
                        }
                    }
                },
            }
        }
        i = i + 1;
    }
    proof {
        assert(records@.take(i as int) =~= records@);
    }
    Ok(entries)
}

// ---------------------------------------------------------------------------
// Groups
// ---------------------------------------------------------------------------
/// The value by which an entry is grouped.
pub open spec fn group_key(entry: JsonModel, property: Seq<char>) -> JsonModel {
    or_null(nested_member(entry, "frontmatter"@, property))
}

/// The text that tells groups apart.
pub open spec fn group_text(key: JsonModel) -> Seq<char> {
    if key is Null {
        "\0null"@
    } else {
        compact_text(key)
    }
}

/// The keys of the groups, each where it first occurs.
pub open spec fn group_keys(entries: Seq<JsonModel>, property: Seq<char>) -> Seq<JsonModel>
    decreases entries.len(),
{
    if entries.len() == 0 {
        Seq::empty()
    } else {
        let rest = group_keys(entries.drop_last(), property);
        let key = group_key(entries.last(), property);
        if has_group(rest, group_text(key)) {
            rest
        } else {
            rest.push(key)
        }
    }
}

/// Whether a group with this text is among the keys.
pub open spec fn has_group(keys: Seq<JsonModel>, text: Seq<char>) -> bool {
    exists|i: int| 0 <= i < keys.len() && group_text(#[trigger] keys[i]) == text
}

/// The entries of the group with this text, in order.
pub open spec fn group_entries(
    entries: Seq<JsonModel>,
    property: Seq<char>,
    text: Seq<char>,
) -> Seq<JsonModel>
    decreases entries.len(),
{
    if entries.len() == 0 {
        Seq::empty()
    } else {
        let rest = group_entries(entries.drop_last(), property, text);
        if group_text(group_key(entries.last(), property)) == text {
            rest.push(entries.last())
        } else {
            rest
        }
    }
}

/// The entries that share a group key.
#[derive(Debug)]
pub struct EntryGroup {
    pub key: Json,
    pub entries: Vec<Json>,
}

fn key_text(key: &Json) -> (result: String)
    ensures
        result@ == group_text(key@),
{
    if key.is_null() {
        "\0null".to_owned()
    } else {
        to_compact_text(key)
    }
}

proof fn lemma_group_keys_distinct(entries: Seq<JsonModel>, property: Seq<char>)
    ensures
        forall|i: int, j: int|
            0 <= i < j < group_keys(entries, property).len() ==> group_text(
                #[trigger] group_keys(entries, property)[i],
            ) != group_text(#[trigger] group_keys(entries, property)[j]),
        forall|k: int|
            0 <= k < entries.len() ==> has_group(
                group_keys(entries, property),
                group_text(group_key(#[trigger] entries[k], property)),
            ),
    decreases entries.len(),
{
    if entries.len() > 0 {
        let front = entries.drop_last();
        lemma_group_keys_distinct(front, property);
        let rest = group_keys(front, property);
        let all = group_keys(entries, property);
        let key = group_key(entries.last(), property);
        assert forall|k: int| 0 <= k < entries.len() implies has_group(
            all,
            group_text(group_key(#[trigger] entries[k], property)),
        ) by {
            if k < front.len() {
                let text = group_text(group_key(front[k], property));
                assert(has_group(rest, text));
                let i = choose|i: int| 0 <= i < rest.len() && group_text(#[trigger] rest[i]) == text;
                assert(group_text(all[i]) == text);
            } else if !has_group(rest, group_text(key)) {
                assert(group_text(all[rest.len() as int]) == group_text(key));
            }
        }
    }
}

/// The groups of the entries, in the order in which their keys first occur.
fn collect_groups(entries: &Vec<Json>, property: &str) -> (result: Vec<EntryGroup>)
    ensures
        result@.len() == group_keys(item_models(entries@), property@).len(),
        forall|g: int|
            0 <= g < result@.len() ==> is_group(
                #[trigger] result@[g],
                group_keys(item_models(entries@), property@)[g],
                item_models(entries@),
                property@,
            ),
{
    let ghost all = item_models(entries@);
    let mut groups: Vec<EntryGroup> = Vec::new();
    let mut group_names: Vec<String> = Vec::new();
    let mut i: usize = 0;
    while i < entries.len()
        invariant
            i <= entries@.len(),
            all == item_models(entries@),
            groups@.len() == group_keys(all.take(i as int), property@).len(),
            group_names@.len() == groups@.len(),
            forall|g: int|
                0 <= g < groups@.len() ==> (#[trigger] group_names@[g])@ == group_text(
                    group_keys(all.take(i as int), property@)[g],
                ),
            forall|g: int|
                0 <= g < groups@.len() ==> is_group(
                    #[trigger] groups@[g],
                    group_keys(all.take(i as int), property@)[g],
                    all.take(i as int),
                    property@,
                ),
        decreases entries@.len() - i,
    {
        let ghost keys = group_keys(all.take(i as int), property@);
        let ghost entry = all[i as int];
        proof {
            assert(all.take(i + 1).drop_last() =~= all.take(i as int));
            assert(all.take(i + 1).last() == entry);
            lemma_group_keys_distinct(all.take(i as int), property@);
        }
        let key = match entries[i].get_nested("frontmatter", property) {
            Some(value) => value.copy(),
            None => Json::Null,
        };
        let text = key_text(&key);
        let ghost before = groups@;
        let mut found: Option<usize> = None;
        let mut g: usize = 0;
        while g < group_names.len() && found.is_none()
            invariant
                g <= group_names@.len(),
                group_names@.len() == keys.len(),
                forall|k: int|
                    0 <= k < keys.len() ==> (#[trigger] group_names@[k])@ == group_text(keys[k]),
                match found {
                    Some(at) => at < group_names@.len() && group_text(keys[at as int]) == text@,
                    None => forall|k: int|
                        0 <= k < g ==> group_text(#[trigger] keys[k]) != text@,
                },
            decreases
                    group_names@.len() - g,
                    if found is None {
                        1int
                    } else {
                        0
                    },
        {
            if same_text(group_names[g].as_str(), text.as_str()) {
                found = Some(g);
            } else {
                g = g + 1;
            }
        }
        match found {
            Some(at) => {
                proof {
                    assert(has_group(keys, group_text(group_key(entry, property@))));
                }
                groups[at].entries.push(entries[i].copy());
                proof {
                    assert(item_models(groups@[at as int].entries@) =~= item_models(
                        before[at as int].entries@,
                    ).push(entry));
                    assert forall|g: int| 0 <= g < groups@.len() implies is_group(
                        #[trigger] groups@[g],
                        keys[g],
                        all.take(i + 1),
                        property@,
                    ) by {
                        assert(is_group(before[g], keys[g], all.take(i as int), property@));
                        if g != at {
                            assert(group_text(keys[g]) != group_text(keys[at as int]));
                        }
                    }
                }
            },
            None => {
                let mut list: Vec<Json> = Vec::new();
                list.push(entries[i].copy());
                let ghost model = key@;
                groups.push(EntryGroup { key, entries: list });
                group_names.push(text);
                proof {
                    assert(!has_group(keys, group_text(model)));
                    lemma_no_entries(all.take(i as int), property@, group_text(model));
                    assert(item_models(list@) =~= Seq::empty().push(entry));
                    assert forall|g: int| 0 <= g < groups@.len() implies is_group(
                        #[trigger] groups@[g],
                        keys.push(model)[g],
                        all.take(i + 1),
                        property@,
                    ) by {
                        if g < before.len() {
                            assert(is_group(before[g], keys[g], all.take(i as int), property@));
                            assert(group_text(keys[g]) != group_text(model));
                        }
                    }
                }
            },
        }
        i = i + 1;
    }
    proof {
        assert(all.take(i as int) =~= all);
    }
    groups
}

proof fn lemma_no_entries(entries: Seq<JsonModel>, property: Seq<char>, text: Seq<char>)
    requires
        !has_group(group_keys(entries, property), text),
    ensures
        group_entries(entries, property, text) == Seq::<JsonModel>::empty(),
    decreases entries.len(),
{
    if entries.len() > 0 {
        let front = entries.drop_last();
        let rest = group_keys(front, property);
        let all = group_keys(entries, property);
        assert(!has_group(rest, text)) by {
            if has_group(rest, text) {
                let i = choose|i: int| 0 <= i < rest.len() && group_text(#[trigger] rest[i]) == text;
                assert(group_text(all[i]) == text);
            }
        }
        lemma_no_entries(front, property, text);
        let key = group_key(entries.last(), property);
        if group_text(key) == text {
            assert(!has_group(rest, text));
            assert(group_text(all[rest.len() as int]) == text);
        }
    }
}

/// Whether a group has this key and the entries that share it.
pub open spec fn is_group(
    group: EntryGroup,
    key: JsonModel,
    entries: Seq<JsonModel>,
    property: Seq<char>,
) -> bool {
    &&& group.key@ == key
    &&& item_models(group.entries@) == group_entries(entries, property, group_text(key))
}

/// The text by which a group key is ordered: a text itself, any other value in
/// compact notation.
pub open spec fn order_text(key: JsonModel) -> Seq<char> {
    match key {
        JsonModel::Text(text) => text,
        _ => compact_text(key),
    }
}

/// The ascending order of two group keys; null comes last.
pub open spec fn group_order(left: JsonModel, right: JsonModel) -> Order {
    match (left, right) {
        (JsonModel::Null, JsonModel::Null) => Order::Equal,
        (JsonModel::Null, _) => Order::Greater,
        (_, JsonModel::Null) => Order::Less,
        _ => text_order(order_text(left), order_text(right)),
    }
}

/// How the group keys at two positions compare.
pub open spec fn order_of_groups(keys: Seq<JsonModel>) -> spec_fn(int, int) -> Order {
    |i: int, j: int| group_order(keys[i], keys[j])
}

struct GroupOrder<'a> {
    groups: &'a Vec<EntryGroup>,
}

/// What the keys of groups hold.
pub open spec fn keys_of(groups: Seq<EntryGroup>) -> Seq<JsonModel> {
    Seq::new(groups.len(), |g: int| groups[g].key@)
}

fn key_order_text(key: &Json) -> (result: String)
    ensures
        result@ == order_text(key@),
{
    match key {
        Json::Text(text) => text.clone(),
        _ => to_compact_text(key),
    }
}

impl<'a> Comparison for GroupOrder<'a> {
    closed spec fn count(&self) -> nat {
        self.groups@.len()
    }

    closed spec fn order(&self) -> spec_fn(int, int) -> Order {
        order_of_groups(keys_of(self.groups@))
    }

    fn size(&self) -> (result: usize) {
        self.groups.len()
    }

    fn compare(&self, left: usize, right: usize) -> (result: Order) {
        let a = &self.groups[left].key;
        let b = &self.groups[right].key;
        if a.is_null() {
            if b.is_null() {
                Order::Equal
            } else {
                Order::Greater
            }
        } else if b.is_null() {
            Order::Less
        } else {
            compare_text(key_order_text(a).as_str(), key_order_text(b).as_str())
        }
    }
}

/// The positions, reversed when descending.
pub open spec fn directed_positions(positions: Seq<usize>, descending: bool) -> Seq<usize> {
    if descending {
        positions.reverse()
    } else {
        positions
    }
}

/// The groups of the entries, in stable key order, reversed when descending.
pub open spec fn are_groups(
    groups: Seq<EntryGroup>,
    entries: Seq<JsonModel>,
    property: Seq<char>,
    descending: bool,
) -> bool {
    let keys = group_keys(entries, property);
    exists|positions: Seq<usize>| #[trigger]
        stably_sorted(keys.len(), order_of_groups(keys), positions) && groups.len()
            == positions.len() && forall|g: int|
            0 <= g < groups.len() ==> is_group(
                #[trigger] groups[g],
                keys[directed_positions(positions, descending)[g] as int],
                entries,
                property,
            )
}

/// Groups entries by a frontmatter property.
pub fn group_candidates(entries: &Vec<Json>, property: &str, descending: bool) -> (result: Vec<
    EntryGroup,
>)
    ensures
        are_groups(result@, item_models(entries@), property@, descending),
{
    let groups = collect_groups(entries, property);
    let ghost keys = group_keys(item_models(entries@), property@);
    let context = GroupOrder { groups: &groups };
    let positions = sorted_positions(&context);
    proof {
        assert(keys_of(groups@) =~= keys);
        assert(stably_sorted(keys.len(), order_of_groups(keys), positions@));
    }
    let mut result: Vec<EntryGroup> = Vec::new();
    let count = positions.len();
    let mut k: usize = 0;
    while k < count
        invariant
            k <= count,
            count == positions@.len(),
            count == groups@.len(),
            keys.len() == groups@.len(),
            keys == group_keys(item_models(entries@), property@),
            forall|m: int| 0 <= m < count ==> (#[trigger] positions@[m]) < count,
            forall|g: int|
                0 <= g < groups@.len() ==> is_group(
                    #[trigger] groups@[g],
                    keys[g],
                    item_models(entries@),
                    property@,
                ),
            result@.len() == k,
            forall|g: int|
                0 <= g < k ==> is_group(
                    #[trigger] result@[g],
                    keys[directed_positions(positions@, descending)[g] as int],
                    item_models(entries@),
                    property@,
                ),
        decreases count - k,
    {
        let at = if descending {
            positions[count - 1 - k]
        } else {
            positions[k]
        };
        proof {
            assert(directed_positions(positions@, descending)[k as int] == at);
            assert(is_group(
                groups@[at as int],
                keys[at as int],
                item_models(entries@),
                property@,
            ));
        }
        let key = groups[at].key.copy();
        let list = copy_items(&groups[at].entries);
        result.push(EntryGroup { key, entries: list });
        k = k + 1;
    }
    result
}

// ---------------------------------------------------------------------------
// Pages and answers
// ---------------------------------------------------------------------------
/// The position at which a page begins.
pub open spec fn page_start(count: nat, offset: int) -> int {
    if offset < count {
        offset
    } else {
        count as int
    }
}

/// The position at which a page ends.
pub open spec fn page_end(count: nat, offset: int, limit: Option<int>) -> int {
    match limit {
        Some(limit) => if page_start(count, offset) + limit < count {
            page_start(count, offset) + limit
        } else {
            count as int
        },
        None => count as int,
    }
}

/// The items of a page: those from the offset on, at most as many as the limit.
pub open spec fn page_of<T>(items: Seq<T>, offset: int, limit: Option<int>) -> Seq<T> {
    items.subrange(page_start(items.len(), offset), page_end(items.len(), offset, limit))
}

/// What an optional number holds.
pub open spec fn optional_int(value: Option<u64>) -> Option<int> {
    match value {
        Some(value) => Some(value as int),
        None => None,
    }
}

/// Where a page of a list begins and ends.
pub fn page_bounds(count: usize, offset: u64, limit: Option<u64>) -> (result: (usize, usize))
    ensures
        result.0 == page_start(count as nat, offset as int),
        result.1 == page_end(count as nat, offset as int, optional_int(limit)),
        result.0 <= result.1 <= count,
{
    let start: usize = if offset < count as u64 {
        offset as usize
    } else {
        count
    };
    let end: usize = match limit {
        Some(limit) => if limit < (count - start) as u64 {
            start + limit as usize
        } else {
            count
        },
        None => count,
    };
    (start, end)
}

/// Pages of one size, one after the other, hold every item once and in order.
pub proof fn lemma_pages_partition<T>(items: Seq<T>, offset: int, limit: int)
    requires
        0 <= offset,
        0 < limit,
    ensures
        page_of(items, 0, Some(offset)) + page_of(items, offset, Some(limit)) == page_of(
            items,
            0,
            Some(offset + limit),
        ),
{
    assert(page_of(items, 0, Some(offset)) + page_of(items, offset, Some(limit)) =~= page_of(
        items,
        0,
        Some(offset + limit),
    ));
}

fn copy_range(items: &Vec<Json>, start: usize, end: usize) -> (result: Vec<Json>)
    requires
        start <= end <= items@.len(),
    ensures
        item_models(result@) == item_models(items@).subrange(start as int, end as int),
{
    let mut result: Vec<Json> = Vec::new();
    let mut i: usize = start;
    while i < end
        invariant
            start <= i <= end <= items@.len(),
            result@.len() == i - start,
            forall|k: int| 0 <= k < i - start ==> (#[trigger] result@[k])@ == items@[start + k]@,
        decreases end - i,
    {
        result.push(items[i].copy());
        i = i + 1;
    }
    proof {
        assert(item_models(result@) =~= item_models(items@).subrange(start as int, end as int));
    }
    result
}

/// The query proper of an input: its `query` member, or the input itself.
pub open spec fn query_of(input: JsonModel) -> JsonModel {
    match member_of(input, "query"@) {
        Some(query) => query,
        None => input,
    }
}

/// The texts in lower case.
pub open spec fn all_lower(values: Seq<Seq<char>>) -> Seq<Seq<char>> {
    Seq::new(values.len(), |i: int| lower_case(values[i]))
}

fn lower_all(values: &Vec<String>) -> (result: Vec<String>)
    ensures
        texts(result@) == all_lower(texts(values@)),
{
    let mut result: Vec<String> = Vec::new();
    let mut i: usize = 0;
    while i < values.len()
        invariant
            i <= values@.len(),
            result@.len() == i,
            forall|k: int| 0 <= k < i ==> (#[trigger] result@[k])@ == lower_case(values@[k]@),
        decreases values@.len() - i,
    {
        result.push(to_lower_case(values[i].as_str()));
        i = i + 1;
    }
    proof {
        assert(texts(result@) =~= all_lower(texts(values@)));
    }
    result
}

/// The members of an optional object; none without one.
pub open spec fn members_or_none(value: Option<JsonModel>) -> Seq<(Seq<char>, JsonModel)> {
    match value {
        Some(JsonModel::Object(members)) => members,
        _ => Seq::empty(),
    }
}

/// Whether one of the members is a text.
pub open spec fn has_text_member(members: Seq<(Seq<char>, JsonModel)>) -> bool {
    exists|i: int| 0 <= i < members.len() && (#[trigger] members[i]).1 is Text
}

fn any_text_member(members: &Vec<Member>) -> (result: bool)
    ensures
        result == has_text_member(member_models(members@)),
{
    let ghost all = member_models(members@);
    let mut i: usize = 0;
    while i < members.len()
        invariant
            i <= members@.len(),
            all == member_models(members@),
            forall|k: int| 0 <= k < i ==> !((#[trigger] all[k]).1 is Text),
        decreases members@.len() - i,
    {
        proof {
            assert(all[i as int].1 == members@[i as int].value@);
        }
        if members[i].value.as_str().is_some() {
            return true;
        }
        i = i + 1;
    }
    false
}

fn object_members(value: Option<&Json>) -> (result: Vec<Member>)
    ensures
        member_models(result@) == members_or_none(
            match value {
                Some(value) => Some(value@),
                None => None,
            },
        ),
{
    if let Some(value) = value {
        if let Some(members) = value.as_object() {
            return crate::json::copy_members(members);
        }
    }
    let result: Vec<Member> = Vec::new();
    proof {
        assert(member_models(result@) =~= Seq::empty());
    }
    result
}

/// The values of the custom summaries for one group.
pub open spec fn custom_of(custom: Seq<Vec<Member>>, group: int) -> Seq<(Seq<char>, JsonModel)> {
    if group < custom.len() {
        member_models(custom[group]@)
    } else {
        Seq::empty()
    }
}

/// The members, with the summaries of the entries where the query asks for any.
pub open spec fn with_summaries(
    members: Seq<(Seq<char>, JsonModel)>,
    entries: Seq<JsonModel>,
    query: JsonModel,
    custom_values: Seq<(Seq<char>, JsonModel)>,
) -> Seq<(Seq<char>, JsonModel)> {
    let requested = members_or_none(member_of(query, "property_summaries"@));
    if has_text_member(requested) {
        with_member(
            members,
            "summaries"@,
            JsonModel::Object(
                summaries_of(
                    entries,
                    requested,
                    members_or_none(member_of(query, "summaries"@)),
                    custom_values,
                ),
            ),
        )
    } else {
        members
    }
}

fn add_summaries(
    members: &mut Vec<Member>,
    entries: &Vec<Json>,
    query: &Json,
    custom: &Vec<Vec<Member>>,
    group: usize,
)
    ensures
        member_models(final(members)@) == with_summaries(
            member_models(old(members)@),
            item_models(entries@),
            query@,
            custom_of(custom@, group as int),
        ),
{
    let requested = object_members(query.get("property_summaries"));
    if any_text_member(&requested) {
        let customs = object_members(query.get("summaries"));
        let none: Vec<Member> = Vec::new();
        proof {
            assert(member_models(none@) =~= Seq::empty());
        }
        let summaries = if group < custom.len() {
            compute_summaries(entries, &requested, &customs, &custom[group])
        } else {
            compute_summaries(entries, &requested, &customs, &none)
        };
        put_member(members, "summaries", summaries);
    }
}

/// The metadata of an answer.
pub open spec fn answer_meta(total: int, has_more: bool) -> JsonModel {
    let m = Seq::empty();
    let m = with_member(m, "total_count"@, count_value(total));
    let m = with_member(m, "has_more"@, JsonModel::Bool(has_more));
    JsonModel::Object(m)
}

fn build_meta(total: usize, has_more: bool) -> (result: Json)
    ensures
        result@ == answer_meta(total as int, has_more),
{
    broadcast use crate::json::lemma_object_model;

    let mut meta: Vec<Member> = Vec::new();
    proof {
        assert(member_models(meta@) =~= Seq::empty());
    }
    put_member(&mut meta, "total_count", Json::unsigned(total as u64));
    put_member(&mut meta, "has_more", Json::Bool(has_more));
    Json::Object(meta)
}

/// The answer with one page of the sorted entries. There is more when the page's
/// end, were it full, lies before the last entry.
pub open spec fn page_answer(
    sorted: Seq<JsonModel>,
    query: JsonModel,
    custom: Seq<Vec<Member>>,
) -> JsonModel {
    let limit = unsigned_model(member_of(query, "limit"@));
    let offset = match unsigned_model(member_of(query, "offset"@)) {
        Some(offset) => offset,
        None => 0,
    };
    let has_more = match limit {
        Some(limit) => offset + limit < sorted.len(),
        None => false,
    };
    let m = Seq::empty();
    let m = with_member(m, "results"@, JsonModel::Array(page_of(sorted, offset, limit)));
    let m = with_member(m, "meta"@, answer_meta(sorted.len() as int, has_more));
    JsonModel::Object(with_summaries(m, sorted, query, custom_of(custom, 0)))
}

fn optional_u64(value: Option<&Json>) -> (result: Option<u64>)
    ensures
        optional_int(result) == unsigned_model(
            match value {
                Some(value) => Some(value@),
                None => None,
            },
        ),
{
    match value {
        Some(value) => value.as_u64(),
        None => None,
    }
}

fn build_page_answer(sorted: &Vec<Json>, query: &Json, custom: &Vec<Vec<Member>>) -> (result: Json)
    ensures
        result@ == page_answer(item_models(sorted@), query@, custom@),
{
    broadcast use {crate::json::lemma_object_model, crate::json::lemma_array_model};

    let limit = optional_u64(query.get("limit"));
    let offset: u64 = match optional_u64(query.get("offset")) {
        Some(offset) => offset,
        None => 0,
    };
    let total = sorted.len();
    let (start, end) = page_bounds(total, offset, limit);
    let page = copy_range(sorted, start, end);
    let has_more = match limit {
        Some(limit) => match offset.checked_add(limit) {
            Some(sum) => sum < total as u64,
            None => false,
        },
        None => false,
    };
    proof {
        assert(item_models(sorted@).len() == total);
    }
    let mut answer: Vec<Member> = Vec::new();
    proof {
        assert(member_models(answer@) =~= Seq::empty());
    }
    put_member(&mut answer, "results", Json::Array(page));
    put_member(&mut answer, "meta", build_meta(total, has_more));
    add_summaries(&mut answer, sorted, query, custom, 0);
    Json::Object(answer)
}

/// One group of an answer.
pub open spec fn group_answer(
    group: EntryGroup,
    query: JsonModel,
    custom_values: Seq<(Seq<char>, JsonModel)>,
) -> JsonModel {
    let m = Seq::empty();
    let m = with_member(m, "key"@, group.key@);
    let m = with_member(m, "results"@, JsonModel::Array(item_models(group.entries@)));
    JsonModel::Object(with_summaries(m, item_models(group.entries@), query, custom_values))
}

/// The answer with all groups.
pub open spec fn grouped_answer(
    groups: Seq<EntryGroup>,
    total: int,
    query: JsonModel,
    custom: Seq<Vec<Member>>,
) -> JsonModel {
    let m = Seq::empty();
    let m = with_member(
        m,
        "groups"@,
        JsonModel::Array(
            Seq::new(
                groups.len(),
                |g: int| group_answer(groups[g], query, custom_of(custom, g)),
            ),
        ),
    );
    let m = with_member(m, "meta"@, answer_meta(total, false));
    JsonModel::Object(m)
}

fn build_grouped_answer(
    groups: &Vec<EntryGroup>,
    total: usize,
    query: &Json,
    custom: &Vec<Vec<Member>>,
) -> (result: Json)
    ensures
        result@ == grouped_answer(groups@, total as int, query@, custom@),
{
    broadcast use {crate::json::lemma_object_model, crate::json::lemma_array_model};

    let mut list: Vec<Json> = Vec::new();
    let mut g: usize = 0;
    while g < groups.len()
        invariant
            g <= groups@.len(),
            list@.len() == g,
            forall|k: int|
                0 <= k < g ==> (#[trigger] list@[k])@ == group_answer(
                    groups@[k],
                    query@,
                    custom_of(custom@, k),
                ),
        decreases groups@.len() - g,
    {
        let mut members: Vec<Member> = Vec::new();
        proof {
            assert(member_models(members@) =~= Seq::empty());
        }
        put_member(&mut members, "key", groups[g].key.copy());
        let entries = copy_items(&groups[g].entries);
        proof {
            crate::json::lemma_array_model(entries);
        }
        put_member(&mut members, "results", Json::Array(entries));
        add_summaries(&mut members, &groups[g].entries, query, custom, g);
        proof {
            crate::json::lemma_object_model(members);
        }
        list.push(Json::Object(members));
        g = g + 1;
    }
    proof {
        assert(item_models(list@) =~= Seq::new(
            groups@.len(),
            |g: int| group_answer(groups@[g], query@, custom_of(custom@, g)),
        ));
    }
    let mut answer: Vec<Member> = Vec::new();
    proof {
        assert(member_models(answer@) =~= Seq::empty());
    }
    put_member(&mut answer, "groups", Json::Array(list));
    put_member(&mut answer, "meta", build_meta(total, false));
    let result = Json::Object(answer);
    proof {
        assert(result@ == grouped_answer(groups@, total as int, query@, custom@));
    }
    result
}

/// The answer that reports an error.
pub open spec fn error_answer(code: Seq<char>, message: Seq<char>) -> JsonModel {
    let m = Seq::empty();
    let m = with_member(m, "code"@, JsonModel::Text(code));
    let m = with_member(m, "message"@, JsonModel::Text(message));
    JsonModel::Object(with_member(Seq::empty(), "error"@, JsonModel::Object(m)))
}

pub fn error_value(code: &str, message: &str) -> (result: Json)
    ensures
        result@ == error_answer(code@, message@),
{
    broadcast use crate::json::lemma_object_model;

    let mut error: Vec<Member> = Vec::new();
    let mut answer: Vec<Member> = Vec::new();
    proof {
        assert(member_models(error@) =~= Seq::empty());
        assert(member_models(answer@) =~= Seq::empty());
    }
    put_member(&mut error, "code", Json::text(code));
    put_member(&mut error, "message", Json::text(message));
    put_member(&mut answer, "error", Json::Object(error));
    Json::Object(answer)
}

/// The grouping that a query asks for.
pub open spec fn grouping_of(query: JsonModel) -> Option<JsonModel> {
    match member_of(query, "groupBy"@) {
        Some(value) => Some(value),
        None => member_of(query, "group_by"@),
    }
}

/// Whether this is the answer that presents sorted entries as a query asks: in
/// groups, or one page of them.
pub open spec fn is_list_answer(
    sorted: Seq<JsonModel>,
    query: JsonModel,
    custom: Seq<Vec<Member>>,
    answer: JsonModel,
) -> bool {
    match grouping_of(query) {
        Some(grouping) => exists|groups: Seq<EntryGroup>| #[trigger]
            are_groups(
                groups,
                sorted,
                text_or(member_of(grouping, "property"@), Seq::empty()),
                same_ignoring_case(text_or(member_of(grouping, "direction"@), "ASC"@), "DESC"@),
            ) && answer == grouped_answer(groups, sorted.len() as int, query, custom),
        None => answer == page_answer(sorted, query, custom),
    }
}

/// Why a query cannot be answered at all: its filter, else its formulas.
pub open spec fn query_error(
    query: JsonModel,
    expressions: Seq<FilterExpression>,
    formulas: Formulas,
) -> Option<(Seq<char>, Seq<char>)> {
    let fault = match member_of(query, "where"@) {
        Some(filter) => filter_error(filter, errors_in(expressions)),
        None => None,
    };
    match fault {
        Some(error) => Some(error),
        None => formulas.verdict(),
    }
}

impl Collection {
    /// Whether this is the answer to a query, given its parsed expressions and
    /// formulas, what evaluating them gave on each record, and the values of its
    /// custom summaries. A filter or a formula that cannot be evaluated at all is
    /// answered with its error.
    pub open spec fn is_answer(
        &self,
        input: JsonModel,
        expressions: Seq<FilterExpression>,
        formulas: Formulas,
        records: Seq<EvaluatedRecord>,
        custom: Seq<Vec<Member>>,
        answer: JsonModel,
    ) -> bool {
        let query = query_of(input);
        match query_error(query, expressions, formulas) {
            Some((code, message)) => answer == error_answer(code, message),
            None => exists|names: Seq<Seq<char>>| #[trigger]
                formulas.is_evaluation_order(names) && self.answers(
                    query,
                    names,
                    records,
                    custom,
                    answer,
                ),
        }
    }

    /// The entries that a query selects, or the message of a formula that ends it.
    pub open spec fn entries(
        &self,
        query: JsonModel,
        names: Seq<Seq<char>>,
        records: Seq<EvaluatedRecord>,
    ) -> Result<Seq<JsonModel>, Seq<char>> {
        entries_of(
            records,
            text_member(query, "folder"@),
            all_lower(array_texts(member_of(query, "types"@))),
            member_of(query, "where"@),
            names,
            bool_member(query, "include_body"@) == Some(true),
        )
    }

    /// Whether this is the answer to a query whose formulas are evaluated in the
    /// order of these names.
    pub open spec fn answers(
        &self,
        query: JsonModel,
        names: Seq<Seq<char>>,
        records: Seq<EvaluatedRecord>,
        custom: Seq<Vec<Member>>,
        answer: JsonModel,
    ) -> bool {
        match self.entries(query, names, records) {
            Err(message) => answer == error_answer("formula_evaluation_error"@, message),
            Ok(entries) => self.presents(entries, query, custom, answer),
        }
    }

    /// Whether the answer presents the entries, once sorted as a query asks.
    pub open spec fn presents(
        &self,
        entries: Seq<JsonModel>,
        query: JsonModel,
        custom: Seq<Vec<Member>>,
        answer: JsonModel,
    ) -> bool {
        exists|sorted: Seq<JsonModel>| #[trigger]
            is_sorted_list(
                sorted,
                entries,
                terms_of(member_of(query, "order_by"@)),
                self.types@,
            ) && is_list_answer(sorted, query, custom, answer)
    }

    /// Answers a query over evaluated records. The expressions of its filter and
    /// its formulas are given as they were parsed. `custom` has, for each group of
    /// the answer (or for the one list of an answer without groups), the values
    /// of the custom summaries by field.
    pub fn query(
        &self,
        input: &Json,
        expressions: &Vec<FilterExpression>,
        formulas: &Formulas,
        records: &Vec<EvaluatedRecord>,
        custom: &Vec<Vec<Member>>,
    ) -> (result: Json)
        requires
            formulas.wf(),
        ensures
            self.is_answer(input@, expressions@, *formulas, records@, custom@, result@),
    {
        let query = match input.get("query") {
            Some(query) => query,
            None => input,
        };
        let types = lower_all(&texts_of(query.get("types")));
        let folder = match query.get_str("folder") {
            Some(text) => Some(text.to_owned()),
            None => None,
        };
        let filter = query.get("where");
        if let Some(clause) = filter {
            if let Err(error) = validate_where_clause(clause, expressions) {
                return error_value(error.code.as_str(), error.message.as_str());
            }
        }
        if let Err(error) = formulas.validate_formulas() {
            return error_value(error.code.as_str(), error.message.as_str());
        }
        let names = formulas.topological_sort_formulas();
        let include_body = match query.get_bool("include_body") {
            Some(value) => value,
            None => false,
        };
        proof {
            assert(query@ == query_of(input@));
            assert(optional_model(filter) == member_of(query@, "where"@));
            assert(optional_text(folder) == text_member(query@, "folder"@));
            assert(texts(types@) == all_lower(array_texts(member_of(query@, "types"@))));
            assert(include_body == (bool_member(query@, "include_body"@) == Some(true)));
        }
        match collect_entries(records, &folder, &types, filter, &names, include_body) {
            Err(message) => {
                let answer = error_value("formula_evaluation_error", message.as_str());
                proof {
                    assert(self.answers(query@, texts(names@), records@, custom@, answer@));
                }
                answer
            },
            Ok(entries) => {
                let terms = crate::engine::sort_terms(query.get("order_by"));
                let sorted = sort_entries(&entries, &terms, &self.types);
                proof {
                    assert(entries_of(
                        records@,
                        text_member(query@, "folder"@),
                        all_lower(array_texts(member_of(query@, "types"@))),
                        member_of(query@, "where"@),
                        texts(names@),
                        bool_member(query@, "include_body"@) == Some(true),
                    ) == Ok::<_, Seq<char>>(item_models(entries@)));
                    assert(is_sorted_list(
                        item_models(sorted@),
                        item_models(entries@),
                        terms_of(member_of(query@, "order_by"@)),
                        self.types@,
                    ));
                }
                let by_name = query.get("groupBy");
                let grouping = if by_name.is_some() {
                    by_name
                } else {
                    query.get("group_by")
                };
                match grouping {
                    Some(grouping) => {
                        let empty = String::new();
                        let property = crate::engine::member_text_or(
                            grouping,
                            "property",
                            empty.as_str(),
                        );
                        let direction = crate::engine::member_text_or(grouping, "direction", "ASC");
                        let descending = eq_ignore_ascii_case(direction.as_str(), "DESC");
                        let groups = group_candidates(&sorted, property.as_str(), descending);
                        let answer = build_grouped_answer(&groups, sorted.len(), query, custom);
                        proof {
                            let list = item_models(sorted@);
                            assert(list.len() == sorted@.len());
                            assert(is_list_answer(list, query@, custom@, answer@));
                            assert(self.presents(item_models(entries@), query@, custom@, answer@));
                            assert(self.answers(query@, texts(names@), records@, custom@, answer@));
                        }
                        answer
                    },
                    None => {
                        let answer = build_page_answer(&sorted, query, custom);
                        proof {
                            assert(is_list_answer(
                                item_models(sorted@),
                                query@,
                                custom@,
                                answer@,
                            ));
                            assert(self.presents(item_models(entries@), query@, custom@, answer@));
                            assert(self.answers(query@, texts(names@), records@, custom@, answer@));
                        }
                        answer
                    },
                }
            },
        }
    }
}

} // verus!
