//! Which records a query gives, in which order, and on which page.

use crate::cache_source::{InvalidRecordStub, LocalRecord};
use crate::collection::TypeDefinition;
use crate::diagnostics::{diagnostic_models, Diagnostic};
use crate::execute::{
    any_match_expression, candidate_diagnostics, candidate_order, executes, execution_meta,
    is_candidate_order, is_evaluated_page, is_evaluated_page_in, is_selected, metadata_order,
    metadata_value, more_follow, order_of_candidates, outcome_diagnostics, rows_at,
    selected_positions, sort_value_at, stub_value, wanted_positions, CompiledQuery,
    EvaluatedCandidate, ExecutionStages, NamedOutcome, OrderTerm, QueryExecution,
};
use crate::json::{member_of, JsonModel, NumberModel};
use crate::ordering::{value_order, HostedOrderDirection};
use crate::query::{optional_int, page_of};
use crate::sorting::{arranged, lemma_covers_each, stably_sorted};
use crate::text::{is_wanted, same_ignoring_case, text_order, texts, Order};
use crate::value_laws::lemma_members;
use vstd::prelude::*;

verus! {

// ---------------------------------------------------------------------------
// Selection
// ---------------------------------------------------------------------------
/// Whether a candidate is wanted: it is of a wanted type, where types are wanted, and
/// the filter, where there is one, gave true.
pub open spec fn matches_query(candidate: EvaluatedCandidate, wanted: Seq<Seq<char>>) -> bool {
    &&& wanted.len() > 0 ==> exists|i: int, j: int|
        0 <= i < candidate.types@.len() && 0 <= j < wanted.len() && same_ignoring_case(
            #[trigger] wanted[j],
            (#[trigger] candidate.types@[i])@,
        )
    &&& candidate.filter is Some ==> candidate.filter->0 is Ok && (candidate.filter->0->Ok_0)@
        == JsonModel::Bool(true)
}

/// The selected candidates are just those that match the query, each once, in the order
/// in which they came.
pub proof fn lemma_selected_candidates_match(
    candidates: Seq<EvaluatedCandidate>,
    wanted: Seq<Seq<char>>,
)
    requires
        candidates.len() <= usize::MAX,
    ensures
        ({
            let selected = selected_positions(candidates, wanted);
            &&& forall|k: int|
                0 <= k < selected.len() ==> (#[trigger] selected[k]) < candidates.len()
                    && matches_query(candidates[selected[k] as int], wanted)
            &&& forall|i: int|
                0 <= i < candidates.len() && matches_query(#[trigger] candidates[i], wanted)
                    ==> selected.contains(i as usize)
            &&& forall|a: int, b: int|
                #![trigger selected[a], selected[b]]
                0 <= a < b < selected.len() ==> selected[a] < selected[b]
        }),
    decreases candidates.len(),
{
    if candidates.len() > 0 {
        let front = candidates.drop_last();
        lemma_selected_candidates_match(front, wanted);
        let rest = selected_positions(front, wanted);
        let selected = selected_positions(candidates, wanted);
        let last = candidates.last();
        assert(is_selected(last, wanted) <==> matches_query(last, wanted));
        assert forall|k: int| 0 <= k < selected.len() implies (#[trigger] selected[k])
            < candidates.len() && matches_query(candidates[selected[k] as int], wanted) by {
            if k < rest.len() {
                assert(selected[k] == rest[k]);
                assert(front[rest[k] as int] == candidates[rest[k] as int]);
            }
        }
        assert forall|i: int|
            0 <= i < candidates.len() && matches_query(
                #[trigger] candidates[i],
                wanted,
            ) implies selected.contains(i as usize) by {
            if i < front.len() {
                assert(front[i] == candidates[i]);
                let k = choose|k: int| 0 <= k < rest.len() && rest[k] == i as usize;
                assert(selected[k] == rest[k]);
            } else {
                assert(selected[selected.len() - 1] == i as usize);
            }
        }
    }
}

/// The positions of the records of wanted types: just those, each once, in order.
pub proof fn lemma_wanted_records(records: Seq<LocalRecord>, wanted: Seq<Seq<char>>)
    requires
        records.len() <= usize::MAX,
    ensures
        ({
            let chosen = wanted_positions(records, wanted);
            &&& forall|k: int|
                0 <= k < chosen.len() ==> (#[trigger] chosen[k]) < records.len() && is_wanted(
                    records[chosen[k] as int].types_model(),
                    wanted,
                )
            &&& forall|i: int|
                0 <= i < records.len() && is_wanted((#[trigger] records[i]).types_model(), wanted)
                    ==> chosen.contains(i as usize)
            &&& forall|a: int, b: int|
                #![trigger chosen[a], chosen[b]]
                0 <= a < b < chosen.len() ==> chosen[a] < chosen[b]
        }),
    decreases records.len(),
{
    if records.len() > 0 {
        let front = records.drop_last();
        lemma_wanted_records(front, wanted);
        let rest = wanted_positions(front, wanted);
        let chosen = wanted_positions(records, wanted);
        assert forall|k: int| 0 <= k < chosen.len() implies (#[trigger] chosen[k]) < records.len()
            && is_wanted(records[chosen[k] as int].types_model(), wanted) by {
            if k < rest.len() {
                assert(chosen[k] == rest[k]);
                assert(front[rest[k] as int] == records[rest[k] as int]);
            }
        }
        assert forall|i: int|
            0 <= i < records.len() && is_wanted(
                (#[trigger] records[i]).types_model(),
                wanted,
            ) implies chosen.contains(i as usize) by {
            if i < front.len() {
                assert(front[i] == records[i]);
                let k = choose|k: int| 0 <= k < rest.len() && rest[k] == i as usize;
                assert(chosen[k] == rest[k]);
            } else {
                assert(chosen[chosen.len() - 1] == i as usize);
            }
        }
    }
}

// ---------------------------------------------------------------------------
// Order
// ---------------------------------------------------------------------------
/// Candidates stand by the first term in which their values do not stand level, the
/// other way round under a descending term, and by their paths where there is none.
pub proof fn lemma_candidates_stand_by_terms(
    left: EvaluatedCandidate,
    right: EvaluatedCandidate,
    directions: Seq<HostedOrderDirection>,
    at: int,
)
    requires
        0 <= at <= directions.len(),
        forall|k: int|
            0 <= k < at ==> value_order(#[trigger] sort_value_at(left, k), sort_value_at(right, k))
                == Order::Equal,
    ensures
        at == directions.len() ==> candidate_order(left, right, directions, 0) == text_order(
            left.path@,
            right.path@,
        ),
        at < directions.len() ==> {
            let order = value_order(sort_value_at(left, at), sort_value_at(right, at));
            let result = candidate_order(left, right, directions, 0);
            &&& order != Order::Equal && directions[at] == HostedOrderDirection::Ascending
                ==> result == order
            &&& order == Order::Less && directions[at] == HostedOrderDirection::Descending
                ==> result == Order::Greater
            &&& order == Order::Greater && directions[at] == HostedOrderDirection::Descending
                ==> result == Order::Less
        },
{
    lemma_candidates_level(left, right, directions, at, 0);
}

proof fn lemma_candidates_level(
    left: EvaluatedCandidate,
    right: EvaluatedCandidate,
    directions: Seq<HostedOrderDirection>,
    at: int,
    from: nat,
)
    requires
        from <= at <= directions.len(),
        forall|k: int|
            0 <= k < at ==> value_order(#[trigger] sort_value_at(left, k), sort_value_at(right, k))
                == Order::Equal,
    ensures
        candidate_order(left, right, directions, from) == candidate_order(
            left,
            right,
            directions,
            at as nat,
        ),
    decreases at - from,
{
    if from < at {
        assert(value_order(sort_value_at(left, from as int), sort_value_at(right, from as int))
            == Order::Equal);
        lemma_candidates_level(left, right, directions, at, from + 1);
    }
}

/// The value that a candidate is sorted by in a term, or null where it has none.
pub proof fn lemma_sort_values(candidate: EvaluatedCandidate, term: int)
    ensures
        0 <= term < candidate.sort_values@.len() ==> sort_value_at(candidate, term)
            == candidate.sort_values@[term]@,
        term >= candidate.sort_values@.len() ==> sort_value_at(candidate, term) is Null,
{
}

/// Records stand by the first term in which what is known of their files does not stand
/// level, the other way round under a descending term, and by their paths where there is
/// none.
pub proof fn lemma_records_stand_by_terms(
    left: LocalRecord,
    right: LocalRecord,
    terms: Seq<OrderTerm>,
    at: int,
)
    requires
        0 <= at <= terms.len(),
        forall|k: int|
            0 <= k < at ==> value_order(
                metadata_value(left, (#[trigger] terms[k]).field@),
                metadata_value(right, terms[k].field@),
            ) == Order::Equal,
    ensures
        at == terms.len() ==> metadata_order(left, right, terms, 0) == text_order(
            left.path_model(),
            right.path_model(),
        ),
        at < terms.len() ==> {
            let order = value_order(
                metadata_value(left, terms[at].field@),
                metadata_value(right, terms[at].field@),
            );
            let result = metadata_order(left, right, terms, 0);
            &&& order != Order::Equal && terms[at].direction == HostedOrderDirection::Ascending
                ==> result == order
            &&& order == Order::Less && terms[at].direction == HostedOrderDirection::Descending
                ==> result == Order::Greater
            &&& order == Order::Greater && terms[at].direction
                == HostedOrderDirection::Descending ==> result == Order::Less
        },
{
    lemma_records_level(left, right, terms, at, 0);
}

proof fn lemma_records_level(
    left: LocalRecord,
    right: LocalRecord,
    terms: Seq<OrderTerm>,
    at: int,
    from: nat,
)
    requires
        from <= at <= terms.len(),
        forall|k: int|
            0 <= k < at ==> value_order(
                metadata_value(left, (#[trigger] terms[k]).field@),
                metadata_value(right, terms[k].field@),
            ) == Order::Equal,
    ensures
        metadata_order(left, right, terms, from) == metadata_order(left, right, terms, at as nat),
    decreases at - from,
{
    if from < at {
        assert(value_order(
            metadata_value(left, terms[from as int].field@),
            metadata_value(right, terms[from as int].field@),
        ) == Order::Equal);
        lemma_records_level(left, right, terms, at, from + 1);
    }
}

// ---------------------------------------------------------------------------
// Pages
// ---------------------------------------------------------------------------
/// A page of a list: its items from the offset on, no more than the limit; more follow
/// exactly where the list goes on behind it.
pub proof fn lemma_pages_of_lists<T>(items: Seq<T>, offset: int, limit: Option<int>)
    requires
        0 <= offset,
        limit is Some ==> 0 <= limit->0,
    ensures
        ({
            let page = page_of(items, offset, limit);
            &&& offset >= items.len() ==> page.len() == 0 && !more_follow(
                items.len(),
                offset,
                limit,
            )
            &&& forall|i: int| 0 <= i < page.len() ==> #[trigger] page[i] == items[offset + i]
            &&& limit is Some ==> page.len() <= limit->0
            &&& offset < items.len() ==> {
                &&& more_follow(items.len(), offset, limit) <==> offset + page.len() < items.len()
                &&& limit is None ==> page.len() == items.len() - offset
                &&& limit is Some && offset + limit->0 <= items.len() ==> page.len() == limit->0
                &&& limit is Some && offset + limit->0 > items.len() ==> page.len() == items.len()
                    - offset
            }
        }),
{
}

/// The ordered candidates are the selected ones, each once.
pub proof fn lemma_ordered_candidates_are_selected(
    ordered: Seq<usize>,
    candidates: Seq<EvaluatedCandidate>,
    chosen: Seq<usize>,
    directions: Seq<HostedOrderDirection>,
)
    requires
        is_candidate_order(ordered, candidates, chosen, directions),
    ensures
        ordered.len() == chosen.len(),
        forall|k: int| 0 <= k < ordered.len() ==> chosen.contains(#[trigger] ordered[k]),
        forall|k: int| 0 <= k < chosen.len() ==> ordered.contains(#[trigger] chosen[k]),
{
    let positions = choose|positions: Seq<usize>| #[trigger]
        stably_sorted(
            chosen.len(),
            order_of_candidates(candidates, chosen, directions),
            positions,
        ) && ordered == arranged(chosen, positions);
    assert forall|k: int| 0 <= k < chosen.len() implies ordered.contains(#[trigger] chosen[k]) by {
        let m = lemma_covers_each(positions, chosen.len(), k);
        assert(ordered[m] == chosen[k]);
    }
}

/// An evaluated query counts the candidates that match it, and gives on its page only
/// rows of such candidates.
pub proof fn lemma_evaluated_pages_hold_matches(
    execution: QueryExecution,
    compiled: CompiledQuery,
    stages: ExecutionStages,
    i: int,
)
    requires
        is_evaluated_page(execution, compiled, stages),
        stages.candidates@.len() <= usize::MAX,
        0 <= i < execution.records@.len(),
    ensures
        execution.total_count == selected_positions(
            stages.candidates@,
            texts(compiled.types@),
        ).len(),
        exists|k: int|
            0 <= k < stages.candidates@.len() && matches_query(
                #[trigger] stages.candidates@[k],
                texts(compiled.types@),
            ) && execution.records@[i]@ == stages.candidates@[k].serialized@,
        compiled.limit is Some ==> execution.records@.len() <= compiled.limit->0,
{
    let candidates = stages.candidates@;
    let wanted = texts(compiled.types@);
    let chosen = selected_positions(candidates, wanted);
    let directions = crate::execute::directions_of(compiled.terms@);
    let ordered = choose|ordered: Seq<usize>| #[trigger]
        is_candidate_order(ordered, candidates, chosen, directions) && is_evaluated_page_in(
            execution,
            compiled,
            stages,
            ordered,
        );
    lemma_ordered_candidates_are_selected(ordered, candidates, chosen, directions);
    lemma_selected_candidates_match(candidates, wanted);
    let offset = compiled.offset as int;
    let limit = optional_int(compiled.limit);
    let rows = rows_at(candidates, ordered);
    lemma_pages_of_lists(rows, offset, limit);
    let page = page_of(rows, offset, limit);
    assert(crate::json::item_models(execution.records@)[i] == execution.records@[i]@);
    assert(page[i] == rows[offset + i]);
    let k = ordered[offset + i] as int;
    assert(chosen.contains(ordered[offset + i]));
    let m = choose|m: int| 0 <= m < chosen.len() && chosen[m] == ordered[offset + i];
    assert(matches_query(candidates[chosen[m] as int], wanted));
    assert(matches_query(stages.candidates@[k], wanted));
}

/// A query gives a result exactly where it compiles, nothing is wrong with the clock and
/// the time zone, and its records could be had: as a page of the database, or by loading
/// them, where a query that is evaluated needs its context too.
pub proof fn lemma_queries_that_give_results(
    result: Result<QueryExecution, Vec<Diagnostic>>,
    stages: ExecutionStages,
    types: Seq<TypeDefinition>,
)
    requires
        executes(result, stages, types),
    ensures
        result is Ok <==> {
            &&& stages.compiled is Ok
            &&& stages.timezone_fault is None
            &&& stages.clock_fault is None
            &&& if (stages.compiled->Ok_0).needs.supports_metadata_page && !any_match_expression(
                types,
            ) {
                stages.capture_fault is None && (stages.page is Some || stages.loaded is Ok)
            } else {
                stages.loaded is Ok && stages.context_fault is None
            }
        },
        stages.compiled is Err ==> result is Err && diagnostic_models(result->Err_0@)
            == diagnostic_models((stages.compiled->Err_0)@),
{
}

// ---------------------------------------------------------------------------
// Rows
// ---------------------------------------------------------------------------
/// The diagnostics of an outcome list: one for each outcome that failed.
pub proof fn lemma_outcome_diagnostics(outcomes: Seq<NamedOutcome>)
    ensures
        outcome_diagnostics(outcomes).len() <= outcomes.len(),
        outcome_diagnostics(outcomes).len() == 0 <==> forall|i: int|
            0 <= i < outcomes.len() ==> (#[trigger] outcomes[i]).outcome is Ok,
    decreases outcomes.len(),
{
    if outcomes.len() > 0 {
        let front = outcomes.drop_last();
        lemma_outcome_diagnostics(front);
        assert(outcomes[outcomes.len() - 1] == outcomes.last());
        if outcome_diagnostics(front).len() == 0 {
            assert forall|i: int| 0 <= i < front.len() implies (
            #[trigger] outcomes[i]).outcome is Ok by {
                assert(front[i] == outcomes[i]);
            }
        } else {
            let i = choose|i: int| 0 <= i < front.len() && !((#[trigger] front[i]).outcome is Ok);
            assert(outcomes[i] == front[i]);
        }
    }
}

/// A candidate of no wanted type says only what its type expressions gave; a filter that
/// failed is said.
pub proof fn lemma_candidate_diagnostics(candidate: EvaluatedCandidate, wanted: Seq<Seq<char>>)
    ensures
        !is_wanted(candidate.types@, wanted) ==> candidate_diagnostics(candidate, wanted)
            == diagnostic_models(candidate.match_diagnostics@),
        is_wanted(candidate.types@, wanted) && candidate.filter is Some && candidate.filter->0
            is Err ==> candidate_diagnostics(candidate, wanted).last() == (
        candidate.filter->0->Err_0)@,
        is_wanted(candidate.types@, wanted) && !is_selected(candidate, wanted)
            && !(candidate.filter is Some && candidate.filter->0 is Err) ==> candidate_diagnostics(
            candidate,
            wanted,
        ).len() == candidate.match_diagnostics@.len() + outcome_diagnostics(
            candidate.projections@,
        ).len(),
{
}

/// The metadata of a result says how many records there are and whether more follow, and
/// names the context and the groups where there are any.
pub proof fn lemma_result_metadata(
    total: int,
    has_more: bool,
    context: Option<Seq<char>>,
    groups: Option<Seq<JsonModel>>,
)
    ensures
        ({
            let meta = execution_meta(total, has_more, context, groups);
            &&& member_of(meta, "total_count"@) == Some(
                JsonModel::Number(NumberModel::Integer(total)),
            )
            &&& member_of(meta, "has_more"@) == Some(JsonModel::Bool(has_more))
            &&& member_of(meta, "context"@) is Some <==> context is Some
            &&& context is Some ==> member_of(member_of(meta, "context"@)->0, "path"@) == Some(
                JsonModel::Text(context->0),
            )
            &&& groups is Some ==> member_of(meta, "groups"@) == Some(
                JsonModel::Array(groups->0),
            )
            &&& groups is None ==> member_of(meta, "groups"@) is None
        }),
{
    reveal_strlit("total_count");
    reveal_strlit("has_more");
    reveal_strlit("context");
    reveal_strlit("groups");
    assert("total_count"@.len() == 11 && "has_more"@.len() == 8 && "context"@.len() == 7
        && "groups"@.len() == 6);
    lemma_members();
}

/// The row of a record that could not be read still tells its path, its types, and its
/// file's size and revision.
pub proof fn lemma_rows_of_invalid_records(stub: InvalidRecordStub)
    ensures
        ({
            let row = stub_value(stub);
            let file = member_of(row, "file"@);
            &&& member_of(row, "path"@) == Some(JsonModel::Text(stub.rel_path@))
            &&& member_of(row, "types"@) is Some
            &&& file is Some
            &&& member_of(file->0, "path"@) == Some(JsonModel::Text(stub.rel_path@))
            &&& member_of(file->0, "size"@) == Some(
                JsonModel::Number(NumberModel::Integer(stub.file_size as int)),
            )
            &&& member_of(file->0, "revision"@) == Some(JsonModel::Text(stub.source_revision@))
            &&& stub.file_mtime_iso is Some ==> member_of(file->0, "mtime"@) == Some(
                JsonModel::Text((stub.file_mtime_iso->0)@),
            )
            &&& stub.file_ctime_iso is Some ==> member_of(file->0, "ctime"@) == Some(
                JsonModel::Text((stub.file_ctime_iso->0)@),
            )
        }),
{
    reveal_strlit("path");
    reveal_strlit("name");
    reveal_strlit("folder");
    reveal_strlit("size");
    reveal_strlit("mtime");
    reveal_strlit("ctime");
    reveal_strlit("revision");
    reveal_strlit("types");
    reveal_strlit("file");
    assert("path"@.len() == 4 && "name"@.len() == 4 && "size"@.len() == 4 && "file"@.len() == 4);
    assert("path"@[0] == 'p' && "name"@[0] == 'n' && "size"@[0] == 's' && "file"@[0] == 'f');
    assert("mtime"@.len() == 5 && "ctime"@.len() == 5 && "types"@.len() == 5);
    assert("mtime"@[0] == 'm' && "ctime"@[0] == 'c' && "types"@[0] == 't');
    assert("folder"@.len() == 6 && "revision"@.len() == 8);
    lemma_members();
}

/// What is known of a record's file, by name.
pub proof fn lemma_file_values(record: LocalRecord)
    ensures
        metadata_value(record, "file.path"@) == JsonModel::Text(record.path_model()),
        record is Parsed ==> metadata_value(record, "file.size"@) == JsonModel::Number(
            NumberModel::Integer((record->Parsed_0).file_size as int),
        ),
        record is Invalid ==> metadata_value(record, "file.size"@) == JsonModel::Number(
            NumberModel::Integer((record->Invalid_0).file_size as int),
        ),
        record is Parsed && (record->Parsed_0).file_mtime_iso is Some ==> metadata_value(
            record,
            "file.mtime"@,
        ) == JsonModel::Text(((record->Parsed_0).file_mtime_iso->0)@),
        record is Parsed && (record->Parsed_0).file_mtime_iso is None ==> metadata_value(
            record,
            "file.mtime"@,
        ) is Null,
        record is Parsed && (record->Parsed_0).file_ctime_iso is Some ==> metadata_value(
            record,
            "file.ctime"@,
        ) == JsonModel::Text(((record->Parsed_0).file_ctime_iso->0)@),
        metadata_value(record, "file.name"@) == JsonModel::Text(
            crate::text::name_of(record.path_model()),
        ),
        metadata_value(record, "file.folder"@) == JsonModel::Text(
            crate::text::folder_of(record.path_model()),
        ),
{
    reveal_strlit("file.path");
    reveal_strlit("file.name");
    reveal_strlit("file.folder");
    reveal_strlit("file.size");
    reveal_strlit("file.mtime");
    reveal_strlit("file.ctime");
    assert("file.path"@[5] == 'p' && "file.name"@[5] == 'n' && "file.folder"@[5] == 'f'
        && "file.size"@[5] == 's' && "file.mtime"@[5] == 'm' && "file.ctime"@[5] == 'c');
}

} // verus!
