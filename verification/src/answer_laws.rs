//! How queries are checked before they run, and what their answers hold.

use crate::changes::{ChangeOrigin, ChangeSetModel};
use crate::collection::TypeDefinition;
use crate::engine::{
    filter_error, filter_uses_link_graph, first_clause_error, listed_truth, ExpressionTruth,
};
use crate::execute::{
    all_diagnostics, candidate_diagnostics, is_database_page, is_record_page, is_record_page_in,
    local_records, page_row, page_rows_at, with_load, with_sizes, with_source, CompiledQuery,
    EvaluatedCandidate, LoadQueryPerf, LoadedPage, LoadedRecord, PageRecord, QueryExecution,
    QueryPerformance,
};
use crate::external::{ObservedFaults, WatchEvent};
use crate::feed::{FeedState, RuntimeChangeEvent};
use crate::filesystem::{ingested, ingests, FilesystemRuntime};
use crate::hosted_mutation::{
    change_for, changes_for, context_of, mutation_plan, paths_after, primary_first, typed_outcome,
    AppliedPaths, HostedChangeModel, HostedMutationRequest, MutationFacts,
};
use crate::hosted_plan::HostedScalarKind;
use crate::hosted_query::{common_kind, kind_in_type, kind_of_type};
use crate::json::{bool_member, key_at, lemma_lookup_at, lookup, member_of, JsonModel, NumberModel};
use crate::numbers::{limit, number_order, shortest_number, whole_value};
use crate::provider_error::{FaultModel, ProviderError};
use crate::query::{error_answer, grouped_answer, EntryGroup};
use crate::text::{
    after_prefix, has_prefix, is_white_space, replaced, texts, trimmed, trimmed_start,
    without_leading_space, Order,
};
use crate::text_map::TextEntries;
use crate::value_laws::lemma_members;
use vstd::prelude::*;

verus! {

// ---------------------------------------------------------------------------
// Filters before they run
// ---------------------------------------------------------------------------
/// What is said of an expression is what its first entry says; of one without an entry,
/// that it does not hold.
pub proof fn lemma_listed_truths(truths: Seq<ExpressionTruth>, source: Seq<char>, i: int)
    ensures
        0 <= i < truths.len() && truths[i].source@ == source && (forall|k: int|
            0 <= k < i ==> (#[trigger] truths[k]).source@ != source) ==> listed_truth(
            truths,
            source,
        ) == truths[i].holds,
        (forall|k: int| 0 <= k < truths.len() ==> (#[trigger] truths[k]).source@ != source)
            ==> !listed_truth(truths, source),
    decreases truths.len(),
{
    if truths.len() > 0 && truths[0].source@ != source {
        let rest = truths.drop_first();
        lemma_listed_truths(rest, source, i - 1);
        if 0 <= i < truths.len() && truths[i].source@ == source && (forall|k: int|
            0 <= k < i ==> (#[trigger] truths[k]).source@ != source) {
            assert(i > 0);
            assert(rest[i - 1] == truths[i]);
            assert forall|k: int| 0 <= k < i - 1 implies (#[trigger] rest[k]).source@
                != source by {
                assert(truths[k + 1] == rest[k]);
            }
        }
        if forall|k: int| 0 <= k < truths.len() ==> (#[trigger] truths[k]).source@ != source {
            assert forall|k: int| 0 <= k < rest.len() implies (#[trigger] rest[k]).source@
                != source by {
                assert(truths[k + 1] == rest[k]);
            }
        }
    } else if truths.len() > 0 {
        if 0 < i < truths.len() && (forall|k: int|
            0 <= k < i ==> (#[trigger] truths[k]).source@ != source) {
            assert(truths[0].source@ != source);
        }
        if forall|k: int| 0 <= k < truths.len() ==> (#[trigger] truths[k]).source@ != source {
            assert(truths[0].source@ != source);
        }
    }
}

/// A filter of one kind is faulty exactly where a part of it is: one of its clauses, or
/// the filter that it negates.
pub proof fn lemma_faulty_filters(
    members: Seq<(Seq<char>, JsonModel)>,
    error: spec_fn(Seq<char>) -> Option<(Seq<char>, Seq<char>)>,
    source: Seq<char>,
)
    ensures
        filter_error(JsonModel::Text(source), error) == error(source),
        match (lookup(members, "and"@), lookup(members, "or"@), lookup(members, "not"@)) {
            (Some(JsonModel::Array(clauses)), None, None) => filter_error(
                JsonModel::Object(members),
                error,
            ) is Some <==> exists|i: int|
                0 <= i < clauses.len() && filter_error(#[trigger] clauses[i], error) is Some,
            (None, Some(JsonModel::Array(clauses)), None) => filter_error(
                JsonModel::Object(members),
                error,
            ) is Some <==> exists|i: int|
                0 <= i < clauses.len() && filter_error(#[trigger] clauses[i], error) is Some,
            (None, None, Some(filter)) => filter_error(JsonModel::Object(members), error)
                == filter_error(filter, error),
            _ => true,
        },
{
    lemma_lookup_at(members, "and"@);
    lemma_lookup_at(members, "or"@);
    lemma_lookup_at(members, "not"@);
    match (lookup(members, "and"@), lookup(members, "or"@), lookup(members, "not"@)) {
        (Some(JsonModel::Array(clauses)), None, None) => {
            assert(members[key_at(members, "and"@)].1 == JsonModel::Array(clauses));
            lemma_faulty_clauses(clauses, 0, error);
        },
        (None, Some(JsonModel::Array(clauses)), None) => {
            assert(members[key_at(members, "or"@)].1 == JsonModel::Array(clauses));
            lemma_faulty_clauses(clauses, 0, error);
        },
        _ => {},
    }
}

proof fn lemma_faulty_clauses(
    clauses: Seq<JsonModel>,
    from: nat,
    error: spec_fn(Seq<char>) -> Option<(Seq<char>, Seq<char>)>,
)
    requires
        from <= clauses.len(),
    ensures
        first_clause_error(clauses, from, error) is Some <==> exists|i: int|
            from <= i < clauses.len() && filter_error(#[trigger] clauses[i], error) is Some,
    decreases clauses.len() - from,
{
    if from < clauses.len() {
        lemma_faulty_clauses(clauses, from + 1, error);
        assert(clauses[from as int] == clauses[from as int]);
        if filter_error(clauses[from as int], error) is None && exists|i: int|
            from <= i < clauses.len() && filter_error(#[trigger] clauses[i], error) is Some {
            let i = choose|i: int|
                from <= i < clauses.len() && filter_error(#[trigger] clauses[i], error) is Some;
            assert(from + 1 <= i);
        }
    }
}

/// A filter may follow links exactly where a part of it may.
pub proof fn lemma_filters_that_follow_links(
    members: Seq<(Seq<char>, JsonModel)>,
    property: spec_fn(Seq<char>) -> bool,
    source: Seq<char>,
)
    ensures
        filter_uses_link_graph(JsonModel::Text(source), property) <==> property(source),
        match (lookup(members, "and"@), lookup(members, "or"@), lookup(members, "not"@)) {
            (Some(JsonModel::Array(clauses)), None, None) => filter_uses_link_graph(
                JsonModel::Object(members),
                property,
            ) <==> exists|i: int|
                0 <= i < clauses.len() && filter_uses_link_graph(#[trigger] clauses[i], property),
            (None, Some(JsonModel::Array(clauses)), None) => filter_uses_link_graph(
                JsonModel::Object(members),
                property,
            ) <==> exists|i: int|
                0 <= i < clauses.len() && filter_uses_link_graph(#[trigger] clauses[i], property),
            (None, None, Some(filter)) => filter_uses_link_graph(
                JsonModel::Object(members),
                property,
            ) <==> filter_uses_link_graph(filter, property),
            _ => true,
        },
{
    lemma_lookup_at(members, "and"@);
    lemma_lookup_at(members, "or"@);
    lemma_lookup_at(members, "not"@);
    match (lookup(members, "and"@), lookup(members, "or"@), lookup(members, "not"@)) {
        (Some(JsonModel::Array(clauses)), None, None) => {
            assert(members[key_at(members, "and"@)].1 == JsonModel::Array(clauses));
        },
        (None, Some(JsonModel::Array(clauses)), None) => {
            assert(members[key_at(members, "or"@)].1 == JsonModel::Array(clauses));
        },
        _ => {},
    }
}

// ---------------------------------------------------------------------------
// Kinds of fields
// ---------------------------------------------------------------------------
/// A field has a kind over some types exactly where each of them gives it that kind.
pub proof fn lemma_common_kinds(
    types: Seq<TypeDefinition>,
    selected: Seq<Seq<char>>,
    path: Seq<Seq<char>>,
    count: nat,
    kind: HostedScalarKind,
)
    requires
        count <= selected.len(),
    ensures
        common_kind(types, selected, path, count) == Some(kind) <==> count > 0 && forall|i: int|
            0 <= i < count ==> kind_in_type(types, #[trigger] selected[i], path) == Some(kind),
    decreases count,
{
    if count > 0 {
        lemma_common_kinds(types, selected, path, (count - 1) as nat, kind);
        let last = kind_in_type(types, selected[count - 1], path);
        if common_kind(types, selected, path, count) == Some(kind) {
            assert forall|i: int| 0 <= i < count implies kind_in_type(
                types,
                #[trigger] selected[i],
                path,
            ) == Some(kind) by {
                if i < count - 1 {
                    assert(common_kind(types, selected, path, (count - 1) as nat) == Some(kind));
                }
            }
        }
    }
}

/// Numbers and integers are numbers, truth values are truth values, and texts, dates,
/// times and links are texts.
pub proof fn lemma_kinds_of_types()
    ensures
        kind_of_type("number"@) == Some(HostedScalarKind::Number),
        kind_of_type("integer"@) == Some(HostedScalarKind::Number),
        kind_of_type("boolean"@) == Some(HostedScalarKind::Boolean),
        kind_of_type("string"@) == Some(HostedScalarKind::String),
        kind_of_type("date"@) == Some(HostedScalarKind::String),
        kind_of_type("link"@) == Some(HostedScalarKind::String),
        forall|name: Seq<char>| #[trigger]
            kind_of_type(name) is None ==> name != "number"@ && name != "string"@ && name
                != "boolean"@,
{
    reveal_strlit("number");
    reveal_strlit("integer");
    reveal_strlit("boolean");
    reveal_strlit("string");
    reveal_strlit("date");
    reveal_strlit("datetime");
    reveal_strlit("time");
    reveal_strlit("duration");
    reveal_strlit("link");
    reveal_strlit("path");
    reveal_strlit("enum");
    assert("number"@.len() == 6 && "integer"@.len() == 7 && "boolean"@.len() == 7 && "string"@.len()
        == 6 && "date"@.len() == 4 && "datetime"@.len() == 8 && "time"@.len() == 4
        && "duration"@.len() == 8 && "link"@.len() == 4 && "path"@.len() == 4 && "enum"@.len()
        == 4);
    assert("number"@[0] == 'n' && "string"@[0] == 's' && "integer"@[0] == 'i' && "boolean"@[0]
        == 'b');
}

// ---------------------------------------------------------------------------
// Answers
// ---------------------------------------------------------------------------
/// A group of an answer holds its key and its entries; the answer holds the groups in
/// order and how many entries there are in all.
pub proof fn lemma_grouped_answers(
    groups: Seq<EntryGroup>,
    total: int,
    query: JsonModel,
    custom: Seq<Vec<crate::json::Member>>,
    g: int,
)
    requires
        0 <= g < groups.len(),
    ensures
        ({
            let answer = grouped_answer(groups, total, query, custom);
            let listed = member_of(answer, "groups"@);
            let meta = member_of(answer, "meta"@);
            &&& listed is Some
            &&& listed->0 is Array
            &&& (listed->0)->Array_0.len() == groups.len()
            &&& member_of((listed->0)->Array_0[g], "key"@) == Some(groups[g].key@)
            &&& member_of((listed->0)->Array_0[g], "results"@) == Some(
                JsonModel::Array(crate::json::item_models(groups[g].entries@)),
            )
            &&& meta is Some
            &&& member_of(meta->0, "total_count"@) == Some(
                JsonModel::Number(NumberModel::Integer(total)),
            )
            &&& member_of(meta->0, "has_more"@) == Some(JsonModel::Bool(false))
        }),
{
    lemma_members();
    reveal_strlit("groups");
    reveal_strlit("meta");
    reveal_strlit("key");
    reveal_strlit("results");
    reveal_strlit("summaries");
    reveal_strlit("total_count");
    reveal_strlit("has_more");
    assert("groups"@.len() == 6 && "meta"@.len() == 4 && "key"@.len() == 3 && "results"@.len() == 7
        && "summaries"@.len() == 9 && "total_count"@.len() == 11 && "has_more"@.len() == 8);
}

/// An error is answered with its code and message.
pub proof fn lemma_error_answers(code: Seq<char>, message: Seq<char>)
    ensures
        ({
            let error = member_of(error_answer(code, message), "error"@);
            &&& error is Some
            &&& member_of(error->0, "code"@) == Some(JsonModel::Text(code))
            &&& member_of(error->0, "message"@) == Some(JsonModel::Text(message))
        }),
{
    lemma_members();
    reveal_strlit("code");
    reveal_strlit("message");
    assert("code"@.len() == 4 && "message"@.len() == 7);
}

/// A page of the database gives the rows that were read, and says that more follow exactly
/// where they do not reach the end.
pub proof fn lemma_database_pages(
    execution: QueryExecution,
    compiled: CompiledQuery,
    page: LoadedPage,
    i: int,
)
    requires
        is_database_page(execution, compiled, page),
        0 <= i < page.records@.len(),
    ensures
        execution.records@.len() == page.records@.len(),
        execution.records@[i]@ == page_row(page.records@[i]),
        execution.total_count == page.total,
        compiled.offset < page.total ==> (execution.has_more <==> compiled.offset
            + page.records@.len() < page.total),
        compiled.offset >= page.total ==> !execution.has_more,
        match page.records@[i] {
            PageRecord::Parsed { serialized, .. } => execution.records@[i]@ == serialized@,
            PageRecord::Invalid { .. } => true,
        },
{
    let models = crate::json::item_models(execution.records@);
    assert(models.len() == page.records@.len());
    assert(models[i] == execution.records@[i]@);
}

/// A page cut out of the loaded records has rows of records of wanted types, no more than
/// the limit.
pub proof fn lemma_record_pages(
    execution: QueryExecution,
    compiled: CompiledQuery,
    loaded: Seq<LoadedRecord>,
    i: int,
)
    requires
        is_record_page(execution, compiled, loaded),
        loaded.len() <= usize::MAX,
        0 <= i < execution.records@.len(),
    ensures
        exists|k: int|
            0 <= k < loaded.len() && crate::text::is_wanted(
                (#[trigger] loaded[k]).record.types_model(),
                texts(compiled.types@),
            ) && execution.records@[i]@ == page_row(loaded[k].page),
        compiled.limit is Some ==> execution.records@.len() <= compiled.limit->0,
{
    let records = local_records(loaded);
    let wanted = texts(compiled.types@);
    let ordered = choose|ordered: Seq<usize>| #[trigger]
        crate::execute::is_record_order(ordered, records, wanted, compiled.terms@)
            && is_record_page_in(execution, compiled, loaded, ordered);
    let chosen = crate::execute::wanted_positions(records, wanted);
    let positions = choose|positions: Seq<usize>| #[trigger]
        crate::sorting::stably_sorted(
            chosen.len(),
            crate::execute::order_of_records(records, chosen, compiled.terms@),
            positions,
        ) && ordered == crate::sorting::arranged(chosen, positions);
    crate::execution_laws::lemma_wanted_records(records, wanted);
    let offset = compiled.offset as int;
    let limit = crate::query::optional_int(compiled.limit);
    let page = crate::query::page_of(ordered, offset, limit);
    crate::execution_laws::lemma_pages_of_lists(ordered, offset, limit);
    let rows = crate::json::item_models(execution.records@);
    assert(rows.len() == execution.records@.len());
    assert(rows == page_rows_at(loaded, page));
    assert(rows.len() == page.len());
    assert(rows[i] == execution.records@[i]@);
    assert(page_rows_at(loaded, page)[i] == page_row(loaded[page[i] as int].page));
    assert(page[i] == ordered[offset + i]);
    let m = positions[offset + i] as int;
    assert(ordered[offset + i] == chosen[m]);
    let k = chosen[m] as int;
    assert(records[k] == loaded[k].record);
    assert(crate::text::is_wanted(loaded[k].record.types_model(), wanted));
}

/// The diagnostics of candidates are those of each, in turn.
pub proof fn lemma_diagnostics_in_turn(
    candidates: Seq<EvaluatedCandidate>,
    candidate: EvaluatedCandidate,
    wanted: Seq<Seq<char>>,
)
    ensures
        all_diagnostics(candidates.push(candidate), wanted) == all_diagnostics(candidates, wanted)
            + candidate_diagnostics(candidate, wanted),
        all_diagnostics(Seq::empty(), wanted).len() == 0,
{
    assert(candidates.push(candidate).drop_last() =~= candidates);
}

/// What loading took is reported as it was measured, and every execution that loads counts
/// its source and what it gave.
pub proof fn lemma_reported_performance(
    performance: QueryPerformance,
    load: LoadQueryPerf,
    execution: QueryExecution,
)
    ensures
        with_load(performance, load).records_loaded == load.file_records,
        with_load(performance, load).cache_used == load.cache_used,
        with_load(performance, load).cache_fallback == load.cache_fallback,
        with_load(performance, load).link_graph_built == load.built_link_graph,
        with_load(performance, load).record_source_loads == 1,
        performance.context_record_loads < usize::MAX ==> with_load(
            performance,
            load,
        ).total_source_loads == performance.context_record_loads + 1,
        with_source(performance).record_source_loads == 1,
        with_sizes(performance, execution).candidates == execution.total_count,
        execution.records@.len() <= usize::MAX ==> with_sizes(performance, execution).results
            == execution.records@.len(),
{
}

// ---------------------------------------------------------------------------
// Mutations and observations
// ---------------------------------------------------------------------------
/// A mutation that was refused on its stage changes nothing.
pub proof fn lemma_refused_mutations_change_nothing(
    request: HostedMutationRequest,
    facts: MutationFacts,
)
    requires
        mutation_plan(request, facts) is Ok,
        !facts.staged.valid,
        bool_member(request.input@, "allow_partial"@) != Some(true),
    ensures
        ({
            let plan = mutation_plan(request, facts)->Ok_0;
            &&& plan.changes.len() == 0
            &&& plan.change_set == ChangeSetModel::Nothing
            &&& plan.primary_stable_id == request.primary_stable_id@
        }),
{
}

proof fn lemma_changes_are_collected(
    request: HostedMutationRequest,
    facts: MutationFacts,
    before: TextEntries,
    paths: AppliedPaths,
    count: nat,
    i: int,
)
    requires
        count <= paths.affected.len(),
        0 <= i < count,
        changes_for(request, facts, before, paths, count) is Ok,
    ensures
        match change_for(request, facts, before, paths.after_by_stable, paths.affected[i]) {
            Ok(Some(change)) => changes_for(request, facts, before, paths, count)->Ok_0.contains(
                change,
            ),
            Ok(None) => true,
            Err(_) => false,
        },
    decreases count,
{
    let all = changes_for(request, facts, before, paths, count)->Ok_0;
    let rest = changes_for(request, facts, before, paths, (count - 1) as nat)->Ok_0;
    if i == count - 1 {
        if let Ok(Some(change)) = change_for(
            request,
            facts,
            before,
            paths.after_by_stable,
            paths.affected[i],
        ) {
            assert(all[all.len() - 1] == change);
        }
    } else {
        lemma_changes_are_collected(request, facts, before, paths, (count - 1) as nat, i);
        if let Ok(Some(change)) = change_for(
            request,
            facts,
            before,
            paths.after_by_stable,
            paths.affected[i],
        ) {
            let k = choose|k: int| 0 <= k < rest.len() && rest[k] == change;
            assert(all[k] == change);
        }
    }
}

/// Every affected record whose path or document changed has its change in the plan.
pub proof fn lemma_affected_records_are_planned(
    request: HostedMutationRequest,
    facts: MutationFacts,
    i: int,
)
    requires
        mutation_plan(request, facts) is Ok,
        facts.staged.valid,
        context_of(request, facts.paths@) is Ok,
        ({
            let before = (context_of(request, facts.paths@)->Ok_0).before_by_stable;
            let result = if bool_member(request.input@, "dry_run"@) == Some(true) {
                facts.committed@
            } else {
                facts.staged@
            };
            &&& typed_outcome(request.operation@, result) is Ok
            &&& paths_after(
                request,
                before,
                (typed_outcome(request.operation@, result)->Ok_0).value,
            ) is Ok
            &&& 0 <= i < (paths_after(
                request,
                before,
                (typed_outcome(request.operation@, result)->Ok_0).value,
            )->Ok_0).affected.len()
        }),
    ensures
        ({
            let before = (context_of(request, facts.paths@)->Ok_0).before_by_stable;
            let result = if bool_member(request.input@, "dry_run"@) == Some(true) {
                facts.committed@
            } else {
                facts.staged@
            };
            let paths = paths_after(
                request,
                before,
                (typed_outcome(request.operation@, result)->Ok_0).value,
            )->Ok_0;
            match change_for(request, facts, before, paths.after_by_stable, paths.affected[i]) {
                Ok(Some(change)) => mutation_plan(request, facts)->Ok_0.changes.contains(change),
                Ok(None) => true,
                Err(_) => false,
            }
        }),
{
    let before = (context_of(request, facts.paths@)->Ok_0).before_by_stable;
    let result = if bool_member(request.input@, "dry_run"@) == Some(true) {
        facts.committed@
    } else {
        facts.staged@
    };
    let applied = (typed_outcome(request.operation@, result)->Ok_0).value;
    let paths = paths_after(request, before, applied)->Ok_0;
    let list = changes_for(request, facts, before, paths, paths.affected.len())->Ok_0;
    let primary = request.primary_stable_id@;
    lemma_changes_are_collected(request, facts, before, paths, paths.affected.len(), i);
    if let Ok(Some(change)) = change_for(
        request,
        facts,
        before,
        paths.after_by_stable,
        paths.affected[i],
    ) {
        lemma_reordered_changes(list, primary, change);
    }
}

proof fn lemma_reordered_changes(
    list: Seq<HostedChangeModel>,
    primary: Seq<char>,
    change: HostedChangeModel,
)
    requires
        list.contains(change),
    ensures
        primary_first(list, primary).contains(change),
{
    let own = crate::hosted_mutation::changes_of_record(list, primary, true);
    let others = crate::hosted_mutation::changes_of_record(list, primary, false);
    crate::change_laws::lemma_own_changes(list, primary, true);
    crate::change_laws::lemma_own_changes(list, primary, false);
    let i = choose|i: int| 0 <= i < list.len() && list[i] == change;
    let all = primary_first(list, primary);
    if list[i].stable_id == primary {
        assert(own.contains(list[i]));
        let k = choose|k: int| 0 <= k < own.len() && own[k] == change;
        assert(all[k] == change);
    } else {
        assert(others.contains(list[i]));
        let k = choose|k: int| 0 <= k < others.len() && others[k] == change;
        assert(all[own.len() + k] == change);
    }
}

/// An observation that is taken in is an event of the file system at the next watermark and
/// generation, without a commit, and moves the runtime there.
pub proof fn lemma_ingested_events(
    result: Result<RuntimeChangeEvent, ProviderError>,
    before: FilesystemRuntime,
    after: FilesystemRuntime,
    observed: WatchEvent,
    faults: ObservedFaults,
    state: Result<FeedState, FaultModel>,
    event_id: Seq<char>,
)
    requires
        ingests(result, before, after, observed, faults, state, event_id),
        result is Ok,
    ensures
        state is Ok,
        ({
            let event = result->Ok_0@;
            let known = state->Ok_0;
            &&& event.id == event_id
            &&& event.watermark == known.journal.head + 1
            &&& event.generation.sequence == known.generation.sequence + 1
            &&& event.generation.runtime_epoch == known.generation.runtime_epoch
            &&& event.changes == ingested(observed, faults)
            &&& event.origin == ChangeOrigin::Filesystem
            &&& event.commit_id is None
            &&& after.order.watermark == event.watermark
            &&& after.order.generation@ == event.generation
        }),
{
}

// ---------------------------------------------------------------------------
// Texts and numbers
// ---------------------------------------------------------------------------
/// A text without leading space: nothing but white space was taken, and what is left does
/// not start with any.
pub proof fn lemma_without_leading_space(value: Seq<char>)
    ensures
        ({
            let rest = without_leading_space(value);
            let taken = value.len() - rest.len();
            &&& 0 <= taken <= value.len()
            &&& rest == value.skip(taken)
            &&& forall|i: int| 0 <= i < taken ==> is_white_space(#[trigger] value[i])
            &&& rest.len() > 0 ==> !is_white_space(rest[0])
        }),
    decreases value.len(),
{
    if value.len() > 0 && is_white_space(value[0]) {
        let inner = value.drop_first();
        lemma_without_leading_space(inner);
        let rest = without_leading_space(inner);
        let taken = value.len() - rest.len();
        assert(rest =~= value.skip(taken));
        assert forall|i: int| 0 <= i < taken implies is_white_space(#[trigger] value[i]) by {
            if i > 0 {
                assert(inner[i - 1] == value[i]);
            }
        }
    } else {
        assert(value.skip(0) =~= value);
    }
}

/// A trimmed text neither starts nor ends with white space, and is a part of the text.
pub proof fn lemma_trimmed_texts(value: Seq<char>)
    ensures
        trimmed(value).len() <= value.len(),
        trimmed(value).len() > 0 ==> !is_white_space(trimmed(value)[0]) && !is_white_space(
            trimmed(value).last(),
        ),
        value.len() > 0 && !is_white_space(value[0]) && !is_white_space(value.last()) ==> trimmed(
            value,
        ) == value,
    decreases value.len(),
{
    if value.len() > 0 && is_white_space(value.last()) {
        lemma_trimmed_texts(value.drop_last());
    } else {
        lemma_without_leading_space(value);
        let rest = without_leading_space(value);
        if rest.len() > 0 {
            assert(rest.last() == value.last());
        }
    }
}

/// Signs at the start of a text are dropped, and no more.
pub proof fn lemma_trimmed_starts(value: Seq<char>, c: char)
    ensures
        trimmed_start(seq![c] + value, c) == trimmed_start(value, c),
        value.len() == 0 || value[0] != c ==> trimmed_start(value, c) == value,
{
    assert((seq![c] + value).drop_first() =~= value);
}

/// Replacing a character leaves none of it, and all else as it was.
pub proof fn lemma_replaced_characters(value: Seq<char>, from: char, to: char)
    ensures
        replaced(value, from, to).len() == value.len(),
        forall|i: int|
            0 <= i < value.len() ==> {
                &&& value[i] == from ==> #[trigger] replaced(value, from, to)[i] == to
                &&& value[i] != from ==> replaced(value, from, to)[i] == value[i]
            },
{
}

/// What follows a prefix.
pub proof fn lemma_after_prefixes(prefix: Seq<char>, rest: Seq<char>, value: Seq<char>)
    ensures
        after_prefix(prefix + rest, prefix) == Some(rest),
        after_prefix(value, prefix) is Some <==> has_prefix(value, prefix),
{
    crate::value_laws::lemma_ends_of_texts(prefix + rest, prefix);
    assert((prefix + rest).skip(prefix.len() as int) =~= rest);
}

/// A number is shown as an integer where it reads as one of 64 bits, and then it reads the
/// same; else it is shown as it is.
pub proof fn lemma_shown_numbers(number: NumberModel)
    ensures
        whole_value(number) is None ==> shortest_number(number) == number,
        whole_value(number) is Some && whole_value(number)->0 != limit() ==> {
            &&& shortest_number(number) == NumberModel::Integer(whole_value(number)->0)
            &&& number_order(shortest_number(number), number) == Order::Equal
            &&& -limit() <= whole_value(number)->0 < limit()
        },
{
}

} // verus!
