//! How the answers to queries that differ in page or order relate.

use crate::collection::{Collection, TypeDefinition};
use crate::engine::{
    entry_order, entry_path, enum_values, is_record_field, is_sorted_list, order_among, sort_value,
    term_order, terms_of, EvaluatedRecord, FilterExpression, FormulaResult,
};
use crate::json::{
    array_texts, ascending, lemma_lookup_with_member, lemma_put_keeps_order, lemma_same_members,
    lookup, member_of, nested_member, unsigned_model, with_member, JsonModel, Member,
};
use crate::ordering::{lemma_value_order_reverse, value_order};
use crate::planner::Formulas;
use crate::query::{
    answer_meta, custom_of, entries_of, formula_values, grouping_of, has_text_member, is_fatal,
    is_list_answer, members_or_none, outcome_of, page_answer, page_of, query_error, query_of,
};
use crate::results::{count_value, summaries_of};
use crate::sorting::{
    arranged, arrangement, consistent, covers, lemma_rearranged, lemma_sorted_pairs, stably_sorted,
};
use crate::text::{lemma_text_order_reverse, lemma_text_order_transitive, text_order, Order};
use vstd::prelude::*;

verus! {

// ---------------------------------------------------------------------------
// Entries do not depend on the order in which formulas are evaluated
// ---------------------------------------------------------------------------
/// The value of a formula among the results of a record.
pub open spec fn formula_value(results: Seq<FormulaResult>, name: Seq<char>) -> JsonModel {
    match outcome_of(results, name) {
        Some(Ok(value)) => value@,
        _ => JsonModel::Null,
    }
}

/// Whether a formula ends the query of a record.
pub open spec fn ends_query(results: Seq<FormulaResult>, name: Seq<char>) -> bool {
    match outcome_of(results, name) {
        Some(Err(error)) => is_fatal(error),
        _ => false,
    }
}

proof fn lemma_formula_values(names: Seq<Seq<char>>, results: Seq<FormulaResult>)
    ensures
        match formula_values(names, results) {
            Ok(members) => {
                &&& ascending(members)
                &&& forall|key: Seq<char>| #[trigger]
                    lookup(members, key) == if names.contains(key) {
                        Some(formula_value(results, key))
                    } else {
                        None
                    }
                &&& forall|key: Seq<char>| #[trigger]
                    names.contains(key) ==> !ends_query(results, key)
            },
            Err(_) => exists|key: Seq<char>| #[trigger]
                names.contains(key) && ends_query(results, key),
        },
    decreases names.len(),
{
    if names.len() > 0 {
        let front = names.drop_last();
        let last = names.last();
        lemma_formula_values(front, results);
        assert(names[names.len() - 1] == last);
        assert(names.contains(last));
        assert forall|key: Seq<char>| #[trigger] names.contains(key) == (front.contains(key) || key
            == last) by {
            if front.contains(key) {
                let i = choose|i: int| 0 <= i < front.len() && front[i] == key;
                assert(names[i] == key);
            }
            if names.contains(key) && key != last {
                let i = choose|i: int| 0 <= i < names.len() && names[i] == key;
                assert(front[i] == key);
            }
        }
        match formula_values(front, results) {
            Err(_) => {
                let key = choose|key: Seq<char>| #[trigger]
                    front.contains(key) && ends_query(results, key);
                assert(names.contains(key));
            },
            Ok(members) => {
                if !ends_query(results, last) {
                    let value = formula_value(results, last);
                    lemma_put_keeps_order(members, last, Some(value));
                    assert forall|key: Seq<char>| #[trigger]
                        lookup(with_member(members, last, value), key) == if names.contains(key) {
                            Some(formula_value(results, key))
                        } else {
                            None
                        } by {
                        lemma_lookup_with_member(members, last, value, key);
                    }
                }
            },
        }
    }
}

/// Whether two lists hold the same names.
pub open spec fn same_names(left: Seq<Seq<char>>, right: Seq<Seq<char>>) -> bool {
    forall|name: Seq<char>| #[trigger] left.contains(name) == right.contains(name)
}

/// Evaluation orders of the same formulas hold the same names.
proof fn lemma_orders_have_the_same_names(
    formulas: Formulas,
    left: Seq<Seq<char>>,
    right: Seq<Seq<char>>,
)
    requires
        formulas.is_evaluation_order(left),
        formulas.is_evaluation_order(right),
    ensures
        same_names(left, right),
{
    assert forall|name: Seq<char>| #[trigger] left.contains(name) == right.contains(name) by {
        if left.contains(name) {
            lemma_order_names(formulas, left, right, name);
        }
        if right.contains(name) {
            lemma_order_names(formulas, right, left, name);
        }
    }
}

proof fn lemma_order_names(
    formulas: Formulas,
    left: Seq<Seq<char>>,
    right: Seq<Seq<char>>,
    name: Seq<char>,
)
    requires
        formulas.is_evaluation_order(left),
        formulas.is_evaluation_order(right),
        left.contains(name),
    ensures
        right.contains(name),
{
    let (graph, order) = choose|graph: Seq<Vec<usize>>, order: Seq<usize>| #[trigger]
        formulas.orders_names(left, graph, order) && (forall|i: usize|
            i < formulas.items@.len() <==> #[trigger] order.contains(i));
    let (other_graph, other) = choose|graph: Seq<Vec<usize>>, order: Seq<usize>| #[trigger]
        formulas.orders_names(right, graph, order) && (forall|i: usize|
            i < formulas.items@.len() <==> #[trigger] order.contains(i));
    let k = choose|k: int| 0 <= k < left.len() && left[k] == name;
    assert(order.contains(order[k]));
    assert(other.contains(order[k]));
    let j = choose|j: int| 0 <= j < other.len() && other[j] == order[k];
    assert(right[j] == name);
}

/// The entries of a query do not depend on the order in which its formulas are
/// evaluated.
proof fn lemma_same_entries(
    records: Seq<EvaluatedRecord>,
    folder: Option<Seq<char>>,
    types: Seq<Seq<char>>,
    filter: Option<JsonModel>,
    left: Seq<Seq<char>>,
    right: Seq<Seq<char>>,
    include_body: bool,
)
    requires
        same_names(left, right),
        entries_of(records, folder, types, filter, left, include_body) is Ok,
    ensures
        entries_of(records, folder, types, filter, right, include_body) == entries_of(
            records,
            folder,
            types,
            filter,
            left,
            include_body,
        ),
    decreases records.len(),
{
    if records.len() > 0 {
        lemma_same_entries(
            records.drop_last(),
            folder,
            types,
            filter,
            left,
            right,
            include_body,
        );
        let results = records.last().formulas@;
        lemma_formula_values(left, results);
        lemma_formula_values(right, results);
        match (formula_values(left, results), formula_values(right, results)) {
            (Ok(a), Ok(b)) => {
                assert forall|key: Seq<char>| #[trigger] lookup(a, key) == lookup(b, key) by {
                    assert(left.contains(key) == right.contains(key));
                }
                lemma_same_members(a, b);
            },
            (Ok(_), Err(_)) => {
                let key = choose|key: Seq<char>| #[trigger]
                    right.contains(key) && ends_query(results, key);
                assert(left.contains(key) == right.contains(key));
            },
            _ => {},
        }
    }
}

/// An answer presents the entries of its query, in whatever order its formulas were
/// evaluated.
proof fn lemma_answer_presents(
    collection: Collection,
    input: JsonModel,
    expressions: Seq<FilterExpression>,
    formulas: Formulas,
    records: Seq<EvaluatedRecord>,
    custom: Seq<Vec<Member>>,
    answer: JsonModel,
    names: Seq<Seq<char>>,
)
    requires
        collection.is_answer(input, expressions, formulas, records, custom, answer),
        query_error(query_of(input), expressions, formulas) is None,
        formulas.is_evaluation_order(names),
        collection.entries(query_of(input), names, records) is Ok,
    ensures
        collection.presents(
            collection.entries(query_of(input), names, records)->Ok_0,
            query_of(input),
            custom,
            answer,
        ),
{
    let query = query_of(input);
    let used = choose|used: Seq<Seq<char>>| #[trigger]
        formulas.is_evaluation_order(used) && collection.answers(
            query,
            used,
            records,
            custom,
            answer,
        );
    lemma_orders_have_the_same_names(formulas, names, used);
    lemma_same_entries(
        records,
        crate::json::text_member(query, "folder"@),
        crate::query::all_lower(array_texts(member_of(query, "types"@))),
        member_of(query, "where"@),
        names,
        used,
        crate::json::bool_member(query, "include_body"@) == Some(true),
    );
}

// ---------------------------------------------------------------------------
// What an answer says
// ---------------------------------------------------------------------------
/// Whether two queries agree in every member but some.
pub open spec fn agree_but_for(left: JsonModel, right: JsonModel, keys: Set<Seq<char>>) -> bool {
    forall|key: Seq<char>|
        !keys.contains(key) ==> #[trigger] member_of(left, key) == member_of(right, key)
}

/// The results of an answer.
pub open spec fn results_of(answer: JsonModel) -> Option<JsonModel> {
    member_of(answer, "results"@)
}

/// A number of an answer's metadata.
pub open spec fn meta_of(answer: JsonModel, key: Seq<char>) -> Option<JsonModel> {
    nested_member(answer, "meta"@, key)
}

/// The offset that a query asks for.
pub open spec fn offset_of(query: JsonModel) -> int {
    match unsigned_model(member_of(query, "offset"@)) {
        Some(offset) => offset,
        None => 0,
    }
}

/// The limit that a query asks for.
pub open spec fn limit_of(query: JsonModel) -> Option<int> {
    unsigned_model(member_of(query, "limit"@))
}

/// What an answer with one page says.
proof fn lemma_page_answer(sorted: Seq<JsonModel>, query: JsonModel, custom: Seq<Vec<Member>>)
    ensures
        ({
            let answer = page_answer(sorted, query, custom);
            let requested = members_or_none(member_of(query, "property_summaries"@));
            &&& results_of(answer) == Some(
                JsonModel::Array(page_of(sorted, offset_of(query), limit_of(query))),
            )
            &&& meta_of(answer, "total_count"@) == Some(count_value(sorted.len() as int))
            &&& meta_of(answer, "has_more"@) == Some(
                JsonModel::Bool(
                    match limit_of(query) {
                        Some(limit) => offset_of(query) + limit < sorted.len(),
                        None => false,
                    },
                ),
            )
            &&& member_of(answer, "summaries"@) == if has_text_member(requested) {
                Some(
                    JsonModel::Object(
                        summaries_of(
                            sorted,
                            requested,
                            members_or_none(member_of(query, "summaries"@)),
                            custom_of(custom, 0),
                        ),
                    ),
                )
            } else {
                None
            }
        }),
{
    reveal_strlit("results");
    reveal_strlit("meta");
    reveal_strlit("summaries");
    reveal_strlit("total_count");
    reveal_strlit("has_more");
    assert("results"@.len() != "meta"@.len());
    assert("summaries"@.len() != "meta"@.len());
    assert("summaries"@.len() != "results"@.len());
    assert("total_count"@.len() != "has_more"@.len());
    let has_more = match limit_of(query) {
        Some(limit) => offset_of(query) + limit < sorted.len(),
        None => false,
    };
    let page = JsonModel::Array(page_of(sorted, offset_of(query), limit_of(query)));
    let nothing: Seq<(Seq<char>, JsonModel)> = Seq::empty();
    let total = count_value(sorted.len() as int);
    lemma_lookup_with_member(nothing, "total_count"@, total, "has_more"@);
    let counted = with_member(nothing, "total_count"@, total);
    lemma_lookup_with_member(counted, "has_more"@, JsonModel::Bool(has_more), "total_count"@);
    let meta = answer_meta(sorted.len() as int, has_more);
    lemma_lookup_with_member(nothing, "results"@, page, "summaries"@);
    let first = with_member(nothing, "results"@, page);
    lemma_lookup_with_member(first, "meta"@, meta, "results"@);
    lemma_lookup_with_member(first, "meta"@, meta, "summaries"@);
    let second = with_member(first, "meta"@, meta);
    let requested = members_or_none(member_of(query, "property_summaries"@));
    if has_text_member(requested) {
        let value = JsonModel::Object(
            summaries_of(
                sorted,
                requested,
                members_or_none(member_of(query, "summaries"@)),
                custom_of(custom, 0),
            ),
        );
        lemma_lookup_with_member(second, "summaries"@, value, "results"@);
        lemma_lookup_with_member(second, "summaries"@, value, "meta"@);
    }
}

/// What a query reads is there under its own name.
proof fn lemma_query_keys()
    ensures
        ({
            let keys = set!["limit"@, "offset"@];
            &&& !keys.contains("folder"@)
            &&& !keys.contains("types"@)
            &&& !keys.contains("where"@)
            &&& !keys.contains("include_body"@)
            &&& !keys.contains("order_by"@)
            &&& !keys.contains("groupBy"@)
            &&& !keys.contains("group_by"@)
            &&& !keys.contains("summaries"@)
            &&& !keys.contains("property_summaries"@)
        }),
        ({
            let keys = set!["order_by"@];
            &&& !keys.contains("folder"@)
            &&& !keys.contains("types"@)
            &&& !keys.contains("where"@)
            &&& !keys.contains("include_body"@)
            &&& !keys.contains("limit"@)
            &&& !keys.contains("offset"@)
            &&& !keys.contains("groupBy"@)
            &&& !keys.contains("group_by"@)
        }),
{
    reveal_strlit("limit");
    reveal_strlit("offset");
    reveal_strlit("folder");
    reveal_strlit("types");
    reveal_strlit("where");
    reveal_strlit("include_body");
    reveal_strlit("order_by");
    reveal_strlit("groupBy");
    reveal_strlit("group_by");
    reveal_strlit("summaries");
    reveal_strlit("property_summaries");
    assert("limit"@.len() == 5);
    assert("offset"@.len() == 6);
    assert("folder"@.len() == 6);
    assert("types"@.len() == 5);
    assert("where"@.len() == 5);
    assert("include_body"@.len() == 12);
    assert("order_by"@.len() == 8);
    assert("groupBy"@.len() == 7);
    assert("group_by"@.len() == 8);
    assert("summaries"@.len() == 9);
    assert("property_summaries"@.len() == 18);
    assert("types"@[0] != "limit"@[0]);
    assert("where"@[0] != "limit"@[0]);
    assert("folder"@[0] != "offset"@[0]);
    assert("group_by"@[0] != "order_by"@[0]);
}

// ---------------------------------------------------------------------------
// Pages
// ---------------------------------------------------------------------------
/// A page of an answer is that page of the whole answer: queries that differ in
/// limit and offset alone have the same total and the same summaries, the page
/// holds those results of the whole answer that stand at its places, and it says
/// that there is more just where results stand behind a full page. Neither query
/// ends with an error, and neither asks for groups.
pub proof fn lemma_page_of_whole_answer(
    collection: Collection,
    paged: JsonModel,
    whole: JsonModel,
    expressions: Seq<FilterExpression>,
    formulas: Formulas,
    records: Seq<EvaluatedRecord>,
    custom: Seq<Vec<Member>>,
    page: JsonModel,
    answer: JsonModel,
    names: Seq<Seq<char>>,
)
    requires
        agree_but_for(query_of(paged), query_of(whole), set!["limit"@, "offset"@]),
        limit_of(query_of(whole)) is None,
        offset_of(query_of(whole)) == 0,
        grouping_of(query_of(whole)) is None,
        collection.is_answer(paged, expressions, formulas, records, custom, page),
        collection.is_answer(whole, expressions, formulas, records, custom, answer),
        query_error(query_of(whole), expressions, formulas) is None,
        formulas.is_evaluation_order(names),
        collection.entries(query_of(whole), names, records) is Ok,
    ensures
        ({
            let limit = limit_of(query_of(paged));
            let offset = offset_of(query_of(paged));
            &&& results_of(answer) matches Some(JsonModel::Array(all))
            &&& results_of(page) == Some(JsonModel::Array(page_of(all, offset, limit)))
            &&& meta_of(answer, "total_count"@) == Some(count_value(all.len() as int))
            &&& meta_of(page, "total_count"@) == Some(count_value(all.len() as int))
            &&& meta_of(page, "has_more"@) == Some(
                JsonModel::Bool(
                    match limit {
                        Some(limit) => offset + limit < all.len(),
                        None => false,
                    },
                ),
            )
            &&& member_of(page, "summaries"@) == member_of(answer, "summaries"@)
        }),
{
    let a = query_of(paged);
    let b = query_of(whole);
    lemma_query_keys();
    assert(member_of(a, "folder"@) == member_of(b, "folder"@));
    assert(member_of(a, "types"@) == member_of(b, "types"@));
    assert(member_of(a, "where"@) == member_of(b, "where"@));
    assert(member_of(a, "include_body"@) == member_of(b, "include_body"@));
    assert(member_of(a, "order_by"@) == member_of(b, "order_by"@));
    assert(member_of(a, "groupBy"@) == member_of(b, "groupBy"@));
    assert(member_of(a, "group_by"@) == member_of(b, "group_by"@));
    assert(member_of(a, "summaries"@) == member_of(b, "summaries"@));
    assert(member_of(a, "property_summaries"@) == member_of(b, "property_summaries"@));
    assert(collection.entries(a, names, records) == collection.entries(b, names, records));
    lemma_answer_presents(
        collection,
        paged,
        expressions,
        formulas,
        records,
        custom,
        page,
        names,
    );
    lemma_answer_presents(
        collection,
        whole,
        expressions,
        formulas,
        records,
        custom,
        answer,
        names,
    );
    let entries = collection.entries(b, names, records)->Ok_0;
    let terms = terms_of(member_of(b, "order_by"@));
    let first = choose|sorted: Seq<JsonModel>| #[trigger]
        is_sorted_list(sorted, entries, terms, collection.types@) && is_list_answer(
            sorted,
            a,
            custom,
            page,
        );
    let second = choose|sorted: Seq<JsonModel>| #[trigger]
        is_sorted_list(sorted, entries, terms, collection.types@) && is_list_answer(
            sorted,
            b,
            custom,
            answer,
        );
    assert(first == second);
    lemma_page_answer(first, a, custom);
    lemma_page_answer(second, b, custom);
    assert(page_of(second, 0, None) =~= second);
}

// ---------------------------------------------------------------------------
// Order
// ---------------------------------------------------------------------------
/// Whether a list holds the items of another, each as often.
pub open spec fn rearranges(first: Seq<JsonModel>, second: Seq<JsonModel>) -> bool {
    exists|positions: Seq<usize>| #[trigger]
        covers(positions, 0, first.len() as int) && second == arranged(first, positions)
}

/// The results of an answer without pages or groups are its entries, arranged.
proof fn lemma_whole_answer(
    collection: Collection,
    input: JsonModel,
    expressions: Seq<FilterExpression>,
    formulas: Formulas,
    records: Seq<EvaluatedRecord>,
    custom: Seq<Vec<Member>>,
    answer: JsonModel,
    names: Seq<Seq<char>>,
) -> (positions: Seq<usize>)
    requires
        limit_of(query_of(input)) is None,
        offset_of(query_of(input)) == 0,
        grouping_of(query_of(input)) is None,
        collection.is_answer(input, expressions, formulas, records, custom, answer),
        query_error(query_of(input), expressions, formulas) is None,
        formulas.is_evaluation_order(names),
        collection.entries(query_of(input), names, records) is Ok,
    ensures
        ({
            let query = query_of(input);
            let entries = collection.entries(query, names, records)->Ok_0;
            let terms = terms_of(member_of(query, "order_by"@));
            &&& stably_sorted(
                entries.len(),
                order_among(entries, terms, collection.types@),
                positions,
            )
            &&& results_of(answer) == Some(JsonModel::Array(arranged(entries, positions)))
        }),
{
    lemma_answer_presents(
        collection,
        input,
        expressions,
        formulas,
        records,
        custom,
        answer,
        names,
    );
    let query = query_of(input);
    let entries = collection.entries(query, names, records)->Ok_0;
    let terms = terms_of(member_of(query, "order_by"@));
    let sorted = choose|sorted: Seq<JsonModel>| #[trigger]
        is_sorted_list(sorted, entries, terms, collection.types@) && is_list_answer(
            sorted,
            query,
            custom,
            answer,
        );
    lemma_page_answer(sorted, query, custom);
    assert(page_of(sorted, 0, None) =~= sorted);
    arrangement(entries.len(), order_among(entries, terms, collection.types@))
}

/// Asking for another order rearranges an answer and changes nothing else: queries
/// that differ in their order alone, without pages, groups, or errors, have the
/// same results, each as often.
pub proof fn lemma_order_rearranges_results(
    collection: Collection,
    first_input: JsonModel,
    second_input: JsonModel,
    expressions: Seq<FilterExpression>,
    formulas: Formulas,
    records: Seq<EvaluatedRecord>,
    custom: Seq<Vec<Member>>,
    first_answer: JsonModel,
    second_answer: JsonModel,
    names: Seq<Seq<char>>,
)
    requires
        agree_but_for(query_of(first_input), query_of(second_input), set!["order_by"@]),
        limit_of(query_of(second_input)) is None,
        offset_of(query_of(second_input)) == 0,
        grouping_of(query_of(second_input)) is None,
        collection.is_answer(first_input, expressions, formulas, records, custom, first_answer),
        collection.is_answer(second_input, expressions, formulas, records, custom, second_answer),
        query_error(query_of(second_input), expressions, formulas) is None,
        formulas.is_evaluation_order(names),
        collection.entries(query_of(second_input), names, records) is Ok,
    ensures
        ({
            &&& results_of(first_answer) matches Some(JsonModel::Array(first))
            &&& results_of(second_answer) matches Some(JsonModel::Array(second))
            &&& rearranges(first, second)
        }),
{
    let a = query_of(first_input);
    let b = query_of(second_input);
    lemma_query_keys();
    assert(member_of(a, "folder"@) == member_of(b, "folder"@));
    assert(member_of(a, "types"@) == member_of(b, "types"@));
    assert(member_of(a, "where"@) == member_of(b, "where"@));
    assert(member_of(a, "include_body"@) == member_of(b, "include_body"@));
    assert(member_of(a, "limit"@) == member_of(b, "limit"@));
    assert(member_of(a, "offset"@) == member_of(b, "offset"@));
    assert(member_of(a, "groupBy"@) == member_of(b, "groupBy"@));
    assert(member_of(a, "group_by"@) == member_of(b, "group_by"@));
    let entries = collection.entries(b, names, records)->Ok_0;
    assert(collection.entries(a, names, records) == collection.entries(b, names, records));
    let p = lemma_whole_answer(
        collection,
        first_input,
        expressions,
        formulas,
        records,
        custom,
        first_answer,
        names,
    );
    let q = lemma_whole_answer(
        collection,
        second_input,
        expressions,
        formulas,
        records,
        custom,
        second_answer,
        names,
    );
    let positions = lemma_rearranged(entries, p, q);
    let first = arranged(entries, p);
    assert(covers(positions, 0, first.len() as int) && arranged(entries, q) == arranged(
        first,
        positions,
    ));
    assert(rearranges(first, arranged(entries, q)));
}

/// The kind of a value that is sorted by.
pub open spec fn same_kind(left: JsonModel, right: JsonModel) -> bool {
    match (left, right) {
        (JsonModel::Bool(_), JsonModel::Bool(_)) => true,
        (JsonModel::Number(_), JsonModel::Number(_)) => true,
        (JsonModel::Text(_), JsonModel::Text(_)) => true,
        (JsonModel::Array(_), JsonModel::Array(_)) => true,
        (JsonModel::Object(_), JsonModel::Object(_)) => true,
        _ => false,
    }
}

/// Whether the values of a field are of one kind where they are not null, and no
/// type makes the field an enumeration.
pub open spec fn is_uniform(
    entries: Seq<JsonModel>,
    field: Seq<char>,
    types: Seq<TypeDefinition>,
) -> bool {
    &&& forall|i: int, j: int|
        #![trigger entries[i], entries[j]]
        0 <= i < entries.len() && 0 <= j < entries.len() ==> sort_value(entries[i], field) is Null
            || sort_value(entries[j], field) is Null || same_kind(
            sort_value(entries[i], field),
            sort_value(entries[j], field),
        )
    &&& is_record_field(field) ==> forall|i: int|
        0 <= i < entries.len() ==> enum_values(
            field,
            array_texts(member_of(#[trigger] entries[i], "types"@)),
            types,
        ) is None
}

/// Whether the fields of all terms are uniform.
pub open spec fn are_uniform(
    entries: Seq<JsonModel>,
    terms: Seq<(Seq<char>, bool)>,
    types: Seq<TypeDefinition>,
) -> bool {
    forall|k: int| 0 <= k < terms.len() ==> is_uniform(entries, (#[trigger] terms[k]).0, types)
}

proof fn lemma_value_order_transitive(a: JsonModel, b: JsonModel, c: JsonModel)
    requires
        a is Null || b is Null || same_kind(a, b),
        b is Null || c is Null || same_kind(b, c),
        a is Null || c is Null || same_kind(a, c),
        value_order(a, b) != Order::Greater,
        value_order(b, c) != Order::Greater,
    ensures
        value_order(a, c) != Order::Greater,
        value_order(a, c) == Order::Equal ==> value_order(a, b) == Order::Equal && value_order(
            b,
            c,
        ) == Order::Equal,
{
    match (a, b, c) {
        (JsonModel::Text(x), JsonModel::Text(y), JsonModel::Text(z)) => {
            lemma_text_order_transitive(x, y, z);
        },
        _ => {},
    }
}

/// Under a uniform field a term orders as its values do.
proof fn lemma_term_order(
    entries: Seq<JsonModel>,
    term: (Seq<char>, bool),
    types: Seq<TypeDefinition>,
    a: int,
    b: int,
    c: int,
)
    requires
        is_uniform(entries, term.0, types),
        0 <= a < entries.len(),
        0 <= b < entries.len(),
        0 <= c < entries.len(),
    ensures
        term_order(entries[b], entries[a], term, types) == term_order(
            entries[a],
            entries[b],
            term,
            types,
        ).spec_reverse(),
        term_order(entries[a], entries[b], term, types) != Order::Greater && term_order(
            entries[b],
            entries[c],
            term,
            types,
        ) != Order::Greater ==> {
            &&& term_order(entries[a], entries[c], term, types) != Order::Greater
            &&& term_order(entries[a], entries[c], term, types) == Order::Equal ==> term_order(
                entries[a],
                entries[b],
                term,
                types,
            ) == Order::Equal && term_order(entries[b], entries[c], term, types) == Order::Equal
        },
{
    let x = sort_value(entries[a], term.0);
    let y = sort_value(entries[b], term.0);
    let z = sort_value(entries[c], term.0);
    lemma_value_order_reverse(x, y);
    lemma_value_order_reverse(y, z);
    lemma_value_order_reverse(x, z);
    if term.1 {
        if value_order(x, y) != Order::Greater && value_order(y, z) != Order::Greater {
            lemma_value_order_transitive(x, y, z);
        }
    } else {
        if value_order(z, y) != Order::Greater && value_order(y, x) != Order::Greater {
            lemma_value_order_transitive(z, y, x);
        }
    }
}

proof fn lemma_entry_order(
    entries: Seq<JsonModel>,
    terms: Seq<(Seq<char>, bool)>,
    types: Seq<TypeDefinition>,
    a: int,
    b: int,
    c: int,
    from: nat,
)
    requires
        are_uniform(entries, terms, types),
        0 <= a < entries.len(),
        0 <= b < entries.len(),
        0 <= c < entries.len(),
    ensures
        entry_order(entries[b], entries[a], terms, types, from) == entry_order(
            entries[a],
            entries[b],
            terms,
            types,
            from,
        ).spec_reverse(),
        entry_order(entries[a], entries[b], terms, types, from) != Order::Greater && entry_order(
            entries[b],
            entries[c],
            terms,
            types,
            from,
        ) != Order::Greater ==> {
            &&& entry_order(entries[a], entries[c], terms, types, from) != Order::Greater
            &&& entry_order(entries[a], entries[c], terms, types, from) == Order::Equal
                ==> entry_order(entries[a], entries[b], terms, types, from) == Order::Equal
                && entry_order(entries[b], entries[c], terms, types, from) == Order::Equal
        },
    decreases terms.len() - from,
{
    if from >= terms.len() {
        let x = entry_path(entries[a]);
        let y = entry_path(entries[b]);
        let z = entry_path(entries[c]);
        lemma_text_order_reverse(x, y);
        if text_order(x, y) != Order::Greater && text_order(y, z) != Order::Greater {
            lemma_text_order_transitive(x, y, z);
        }
    } else {
        let term = terms[from as int];
        assert(is_uniform(entries, term.0, types));
        lemma_term_order(entries, term, types, a, b, c);
        lemma_term_order(entries, term, types, c, b, a);
        lemma_term_order(entries, term, types, b, c, a);
        lemma_term_order(entries, term, types, c, a, b);
        lemma_entry_order(entries, terms, types, a, b, c, from + 1);
    }
}

/// The order of entries is consistent where the fields that it goes by are uniform;
/// and so without any terms, when it goes by path.
pub proof fn lemma_uniform_fields_order_entries(
    entries: Seq<JsonModel>,
    terms: Seq<(Seq<char>, bool)>,
    types: Seq<TypeDefinition>,
)
    requires
        are_uniform(entries, terms, types),
    ensures
        consistent(entries.len(), order_among(entries, terms, types)),
{
    let order = order_among(entries, terms, types);
    assert forall|a: int, b: int|
        #![trigger order(a, b)]
        0 <= a < entries.len() && 0 <= b < entries.len() implies order(b, a) == order(
        a,
        b,
    ).spec_reverse() by {
        lemma_entry_order(entries, terms, types, a, b, a, 0);
    }
    assert forall|a: int, b: int, c: int|
        #![trigger order(a, b), order(b, c)]
        0 <= a < entries.len() && 0 <= b < entries.len() && 0 <= c < entries.len() && order(a, b)
            != Order::Greater && order(b, c) != Order::Greater implies order(a, c)
        != Order::Greater && (order(a, c) == Order::Equal ==> order(a, b) == Order::Equal && order(
        b,
        c,
    ) == Order::Equal) by {
        lemma_entry_order(entries, terms, types, a, b, c, 0);
    }
}

/// The results of an answer without pages or groups stand in the order that the
/// query asks for: of two results, the first does not come after the second by the
/// terms and then by path. A query without an order gives them by path. The fields
/// of the terms have to be uniform.
pub proof fn lemma_results_stand_in_order(
    collection: Collection,
    input: JsonModel,
    expressions: Seq<FilterExpression>,
    formulas: Formulas,
    records: Seq<EvaluatedRecord>,
    custom: Seq<Vec<Member>>,
    answer: JsonModel,
    names: Seq<Seq<char>>,
    i: int,
    j: int,
)
    requires
        limit_of(query_of(input)) is None,
        offset_of(query_of(input)) == 0,
        grouping_of(query_of(input)) is None,
        collection.is_answer(input, expressions, formulas, records, custom, answer),
        query_error(query_of(input), expressions, formulas) is None,
        formulas.is_evaluation_order(names),
        collection.entries(query_of(input), names, records) is Ok,
        are_uniform(
            collection.entries(query_of(input), names, records)->Ok_0,
            terms_of(member_of(query_of(input), "order_by"@)),
            collection.types@,
        ),
        0 <= i < j,
        results_of(answer) matches Some(JsonModel::Array(all)) && j < all.len(),
    ensures
        ({
            let all = results_of(answer)->0->Array_0;
            let terms = terms_of(member_of(query_of(input), "order_by"@));
            &&& entry_order(all[i], all[j], terms, collection.types@, 0) != Order::Greater
            &&& terms.len() == 0 ==> text_order(entry_path(all[i]), entry_path(all[j]))
                != Order::Greater
            &&& terms.len() == 1 ==> {
                let left = sort_value(all[i], terms[0].0);
                let right = sort_value(all[j], terms[0].0);
                let order = if terms[0].1 {
                    value_order(left, right)
                } else {
                    value_order(left, right).spec_reverse()
                };
                order == Order::Less || (order == Order::Equal && text_order(
                    entry_path(all[i]),
                    entry_path(all[j]),
                ) != Order::Greater)
            }
        }),
{
    let query = query_of(input);
    let entries = collection.entries(query, names, records)->Ok_0;
    let terms = terms_of(member_of(query, "order_by"@));
    let order = order_among(entries, terms, collection.types@);
    let p = lemma_whole_answer(
        collection,
        input,
        expressions,
        formulas,
        records,
        custom,
        answer,
        names,
    );
    lemma_uniform_fields_order_entries(entries, terms, collection.types@);
    lemma_sorted_pairs(entries.len(), order, p, i, j);
    let all = results_of(answer)->0->Array_0;
    assert(all[i] == entries[p[i] as int] && all[j] == entries[p[j] as int]);
    if terms.len() > 0 {
        assert(is_uniform(entries, terms[0].0, collection.types@));
        reveal_with_fuel(entry_order, 2);
    }
}

} // verus!
