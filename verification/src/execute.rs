//! Canonical query execution: plans, candidate selection, order, and pages.

use crate::cache_source::{InvalidRecordStub, LocalRecord};
use crate::collection::TypeDefinition;
use crate::diagnostics::{
    append_diagnostics, diagnostic_models, error_diagnostic, Diagnostic, DiagnosticModel,
};
use crate::json::{
    item_models, member_models, put_member, text_models, with_member, Json, JsonModel, Member,
};
use crate::ordering::{compare_hosted_values, value_order, HostedOrderDirection};
use crate::query::{optional_int, page_bounds, page_end, page_of};
use crate::results::{count_value, text_or_null};
use crate::sorting::{arranged, sorted_positions, stably_sorted, Comparison};
use crate::text::{
    compare_text, file_folder, file_name, folder_of, has_wanted_type, is_wanted, name_of,
    optional_text, same_text, text_order, texts, Order,
};
use vstd::prelude::*;

verus! {

/// Payload-free phase timings and counters of one query. It holds no paths,
/// frontmatter, bodies, or query inputs.
#[derive(Debug, Clone, Copy, PartialEq, Eq)]
pub struct QueryPerformance {
    pub total_us: u64,
    pub schema_us: u64,
    pub preflight_us: u64,
    pub clock_us: u64,
    pub load_us: u64,
    pub cache_open_us: u64,
    pub cache_refresh_us: u64,
    pub records_load_us: u64,
    pub all_files_us: u64,
    pub link_graph_us: u64,
    pub context_us: u64,
    pub evaluate_us: u64,
    pub sort_us: u64,
    pub groups_us: u64,
    pub serialize_us: u64,
    pub records_loaded: usize,
    /// Bulk snapshot or cache sources opened for candidate records.
    pub record_source_loads: usize,
    /// Point reads performed for the context record.
    pub context_record_loads: usize,
    /// All record sources opened.
    pub total_source_loads: usize,
    pub candidates: usize,
    pub results: usize,
    pub cache_used: bool,
    pub cache_fallback: bool,
    pub link_graph_built: bool,
}

/// Timings and counters of loading the records.
#[derive(Debug, Clone, Copy, PartialEq, Eq)]
pub struct LoadQueryPerf {
    pub try_open_cache_us: u64,
    pub refresh_cache_us: u64,
    pub load_records_us: u64,
    pub build_all_files_us: u64,
    pub build_backlinks_us: u64,
    pub file_records: usize,
    pub cache_used: bool,
    pub cache_fallback: bool,
    pub built_link_graph: bool,
}

/// A count of microseconds in 64 bits, at most the largest.
pub fn micros(microseconds: u128) -> (result: u64)
    ensures
        result == if microseconds <= u64::MAX {
            microseconds as int
        } else {
            u64::MAX as int
        },
{
    if microseconds <= u64::MAX as u128 {
        microseconds as u64
    } else {
        u64::MAX
    }
}

/// The sum of two counts, at most the largest.
pub open spec fn capped_sum(left: usize, right: usize) -> int {
    if left + right <= usize::MAX {
        left + right
    } else {
        usize::MAX as int
    }
}

/// The performance of a query with the timings and counters of loading its records.
pub open spec fn with_load(performance: QueryPerformance, load: LoadQueryPerf) -> QueryPerformance {
    QueryPerformance {
        cache_open_us: load.try_open_cache_us,
        cache_refresh_us: load.refresh_cache_us,
        records_load_us: load.load_records_us,
        all_files_us: load.build_all_files_us,
        link_graph_us: load.build_backlinks_us,
        records_loaded: load.file_records,
        record_source_loads: 1,
        total_source_loads: capped_sum(1, performance.context_record_loads) as usize,
        cache_used: load.cache_used,
        cache_fallback: load.cache_fallback,
        link_graph_built: load.built_link_graph,
        ..performance
    }
}

/// Takes over the timings and counters of loading the records.
pub fn apply_load_performance(performance: &mut QueryPerformance, load: &LoadQueryPerf)
    ensures
        *final(performance) == with_load(*old(performance), *load),
{
    performance.cache_open_us = load.try_open_cache_us;
    performance.cache_refresh_us = load.refresh_cache_us;
    performance.records_load_us = load.load_records_us;
    performance.all_files_us = load.build_all_files_us;
    performance.link_graph_us = load.build_backlinks_us;
    performance.records_loaded = load.file_records;
    performance.record_source_loads = 1;
    performance.total_source_loads = performance.record_source_loads.saturating_add(
        performance.context_record_loads,
    );
    performance.cache_used = load.cache_used;
    performance.cache_fallback = load.cache_fallback;
    performance.link_graph_built = load.built_link_graph;
}

// ---------------------------------------------------------------------------
// Plans
// ---------------------------------------------------------------------------
/// Whether an expression decides who has one of the types.
pub open spec fn any_match_expression(types: Seq<TypeDefinition>) -> bool {
    exists|i: int| 0 <= i < types.len() && (#[trigger] types[i]).has_match_expression
}

pub fn has_diagnostic_matchers(types: &Vec<TypeDefinition>) -> (result: bool)
    ensures
        result == any_match_expression(types@),
{
    let mut i: usize = 0;
    while i < types.len()
        invariant
            i <= types@.len(),
            forall|k: int| 0 <= k < i ==> !(#[trigger] types@[k]).has_match_expression,
        decreases types@.len() - i,
    {
        if types[i].has_match_expression {
            return true;
        }
        i = i + 1;
    }
    false
}

/// Whether records of one of the types have computed fields.
pub open spec fn any_computed_fields(types: Seq<TypeDefinition>) -> bool {
    exists|i: int| 0 <= i < types.len() && (#[trigger] types[i]).has_computed_fields
}

fn has_computed_fields(types: &Vec<TypeDefinition>) -> (result: bool)
    ensures
        result == any_computed_fields(types@),
{
    let mut i: usize = 0;
    while i < types.len()
        invariant
            i <= types@.len(),
            forall|k: int| 0 <= k < i ==> !(#[trigger] types@[k]).has_computed_fields,
        decreases types@.len() - i,
    {
        if types[i].has_computed_fields {
            return true;
        }
        i = i + 1;
    }
    false
}

/// What a compiled query needs of the records.
#[derive(Debug, Clone, Copy, PartialEq, Eq)]
pub struct QueryNeeds {
    pub supports_metadata_page: bool,
    pub include_body: bool,
    pub link_graph: bool,
    pub file_body_metadata: bool,
}

/// How the records of a query are to be loaded.
#[derive(Debug, Clone, Copy, PartialEq, Eq)]
pub struct QueryLoadPlan {
    pub metadata_page: bool,
    pub link_graph: bool,
    pub bodies: bool,
}

/// Plans the loading. A type that an expression decides rules out the shortcut
/// of a metadata page, since a failing expression reports diagnostics for every
/// record.
pub fn plan_query_load(needs: QueryNeeds, types: &Vec<TypeDefinition>) -> (result: QueryLoadPlan)
    ensures
        result.metadata_page == (needs.supports_metadata_page && !any_match_expression(types@)),
        result.link_graph == needs.link_graph,
        result.bodies == (needs.include_body || needs.link_graph || needs.file_body_metadata
            || any_computed_fields(types@)),
{
    QueryLoadPlan {
        metadata_page: needs.supports_metadata_page && !has_diagnostic_matchers(types),
        link_graph: needs.link_graph,
        bodies: needs.include_body || needs.link_graph || needs.file_body_metadata
            || has_computed_fields(types),
    }
}

// ---------------------------------------------------------------------------
// Metadata pages
// ---------------------------------------------------------------------------
/// One term of an order: a field and a direction.
#[derive(Debug)]
pub struct OrderTerm {
    pub field: String,
    pub direction: HostedOrderDirection,
}

/// The value of a file fact of a record.
pub open spec fn metadata_value(record: LocalRecord, field: Seq<char>) -> JsonModel {
    let path = record.path_model();
    let (size, mtime, ctime) = match record {
        LocalRecord::Parsed(record) => (
            record.file_size,
            record.file_mtime_iso,
            record.file_ctime_iso,
        ),
        LocalRecord::Invalid(stub) => (stub.file_size, stub.file_mtime_iso, stub.file_ctime_iso),
    };
    if field == "file.path"@ {
        JsonModel::Text(path)
    } else if field == "file.name"@ {
        JsonModel::Text(name_of(path))
    } else if field == "file.folder"@ {
        JsonModel::Text(folder_of(path))
    } else if field == "file.size"@ {
        count_value(size as int)
    } else if field == "file.mtime"@ {
        text_or_null(optional_text(mtime))
    } else if field == "file.ctime"@ {
        text_or_null(optional_text(ctime))
    } else {
        JsonModel::Null
    }
}

fn optional_value(text: &Option<String>) -> (result: Json)
    ensures
        result@ == text_or_null(optional_text(*text)),
{
    match text {
        Some(text) => Json::Text(text.clone()),
        None => Json::Null,
    }
}

pub fn record_metadata_value(record: &LocalRecord, field: &str) -> (result: Json)
    ensures
        result@ == metadata_value(*record, field@),
{
    if same_text(field, "file.path") {
        Json::text(record.path())
    } else if same_text(field, "file.name") {
        Json::Text(file_name(record.path()))
    } else if same_text(field, "file.folder") {
        Json::Text(file_folder(record.path()))
    } else if same_text(field, "file.size") {
        match record {
            LocalRecord::Parsed(record) => Json::unsigned(record.file_size),
            LocalRecord::Invalid(stub) => Json::unsigned(stub.file_size),
        }
    } else if same_text(field, "file.mtime") {
        match record {
            LocalRecord::Parsed(record) => optional_value(&record.file_mtime_iso),
            LocalRecord::Invalid(stub) => optional_value(&stub.file_mtime_iso),
        }
    } else if same_text(field, "file.ctime") {
        match record {
            LocalRecord::Parsed(record) => optional_value(&record.file_ctime_iso),
            LocalRecord::Invalid(stub) => optional_value(&stub.file_ctime_iso),
        }
    } else {
        Json::Null
    }
}

/// The order of two records: by the first term from `from` on that tells them
/// apart, then by ascending path.
pub open spec fn metadata_order(
    left: LocalRecord,
    right: LocalRecord,
    terms: Seq<OrderTerm>,
    from: nat,
) -> Order
    decreases terms.len() - from,
{
    if from >= terms.len() {
        text_order(left.path_model(), right.path_model())
    } else {
        let term = terms[from as int];
        let order = term.direction.directed(
            value_order(metadata_value(left, term.field@), metadata_value(right, term.field@)),
        );
        if order == Order::Equal {
            metadata_order(left, right, terms, from + 1)
        } else {
            order
        }
    }
}

fn compare_metadata(left: &LocalRecord, right: &LocalRecord, terms: &Vec<OrderTerm>) -> (result:
    Order)
    ensures
        result == metadata_order(*left, *right, terms@, 0),
{
    let mut i: usize = 0;
    while i < terms.len()
        invariant
            i <= terms@.len(),
            metadata_order(*left, *right, terms@, 0) == metadata_order(
                *left,
                *right,
                terms@,
                i as nat,
            ),
        decreases terms@.len() - i,
    {
        let field = terms[i].field.as_str();
        let order = compare_hosted_values(
            &record_metadata_value(left, field),
            &record_metadata_value(right, field),
            terms[i].direction,
        );
        if !order.is_eq() {
            return order;
        }
        i = i + 1;
    }
    compare_text(left.path(), right.path())
}

/// The positions of the records of wanted types, ascending.
pub open spec fn wanted_positions(records: Seq<LocalRecord>, wanted: Seq<Seq<char>>) -> Seq<usize>
    decreases records.len(),
{
    if records.len() == 0 {
        Seq::empty()
    } else {
        let rest = wanted_positions(records.drop_last(), wanted);
        if is_wanted(records.last().types_model(), wanted) {
            rest.push((records.len() - 1) as usize)
        } else {
            rest
        }
    }
}

fn collect_wanted(records: &Vec<LocalRecord>, wanted: &Vec<String>) -> (result: Vec<usize>)
    ensures
        result@ == wanted_positions(records@, texts(wanted@)),
        forall|k: int| 0 <= k < result@.len() ==> (#[trigger] result@[k]) < records@.len(),
{
    let mut result: Vec<usize> = Vec::new();
    let mut i: usize = 0;
    while i < records.len()
        invariant
            i <= records@.len(),
            result@ == wanted_positions(records@.take(i as int), texts(wanted@)),
            forall|k: int| 0 <= k < result@.len() ==> (#[trigger] result@[k]) < i,
        decreases records@.len() - i,
    {
        proof {
            assert(records@.take(i + 1).drop_last() =~= records@.take(i as int));
            assert(records@.take(i + 1).last() == records@[i as int]);
        }
        if has_wanted_type(records[i].types(), wanted) {
            result.push(i);
        }
        i = i + 1;
    }
    proof {
        assert(records@.take(i as int) =~= records@);
    }
    result
}

/// How the records at two of the chosen positions compare.
pub open spec fn order_of_records(
    records: Seq<LocalRecord>,
    chosen: Seq<usize>,
    terms: Seq<OrderTerm>,
) -> spec_fn(int, int) -> Order {
    |i: int, j: int| metadata_order(records[chosen[i] as int], records[chosen[j] as int], terms, 0)
}

struct RecordOrder<'a> {
    records: &'a Vec<LocalRecord>,
    chosen: &'a Vec<usize>,
    terms: &'a Vec<OrderTerm>,
}

impl<'a> RecordOrder<'a> {
    #[verifier::type_invariant]
    spec fn in_range(&self) -> bool {
        forall|k: int|
            0 <= k < self.chosen@.len() ==> (#[trigger] self.chosen@[k]) < self.records@.len()
    }
}

impl<'a> Comparison for RecordOrder<'a> {
    closed spec fn count(&self) -> nat {
        self.chosen@.len()
    }

    closed spec fn order(&self) -> spec_fn(int, int) -> Order {
        order_of_records(self.records@, self.chosen@, self.terms@)
    }

    fn size(&self) -> (result: usize) {
        self.chosen.len()
    }

    fn compare(&self, left: usize, right: usize) -> (result: Order) {
        proof {
            use_type_invariant(self);
        }
        compare_metadata(
            &self.records[self.chosen[left]],
            &self.records[self.chosen[right]],
            self.terms,
        )
    }
}

/// A page of records: their positions, how many records there are in all, and
/// whether more follow.
#[derive(Debug)]
pub struct MetadataSelection {
    pub positions: Vec<usize>,
    pub total: usize,
    pub has_more: bool,
}

/// Whether positions are the wanted records in stable order.
pub open spec fn is_record_order(
    ordered: Seq<usize>,
    records: Seq<LocalRecord>,
    wanted: Seq<Seq<char>>,
    terms: Seq<OrderTerm>,
) -> bool {
    let chosen = wanted_positions(records, wanted);
    exists|positions: Seq<usize>| #[trigger]
        stably_sorted(chosen.len(), order_of_records(records, chosen, terms), positions) && ordered
            == arranged(chosen, positions)
}

/// Whether more items follow a page.
pub open spec fn more_follow(count: nat, offset: int, limit: Option<int>) -> bool {
    page_end(count, offset, limit) < count
}

/// Whether a selection is one page of records in order.
pub open spec fn is_page_of(
    selection: MetadataSelection,
    ordered: Seq<usize>,
    offset: int,
    limit: Option<int>,
) -> bool {
    &&& selection.positions@ == page_of(ordered, offset, limit)
    &&& selection.total == ordered.len()
    &&& selection.has_more == more_follow(ordered.len(), offset, limit)
}

/// Selects one page of the records of wanted types, ordered by file facts and
/// then by path.
pub fn select_metadata_page(
    records: &Vec<LocalRecord>,
    wanted: &Vec<String>,
    terms: &Vec<OrderTerm>,
    offset: u64,
    limit: Option<u64>,
) -> (result: MetadataSelection)
    ensures
        exists|ordered: Seq<usize>| #[trigger]
            is_record_order(ordered, records@, texts(wanted@), terms@) && is_page_of(
                result,
                ordered,
                offset as int,
                optional_int(limit),
            ),
        forall|k: int|
            0 <= k < result.positions@.len() ==> (#[trigger] result.positions@[k])
                < records@.len(),
{
    let chosen = collect_wanted(records, wanted);
    let context = RecordOrder { records, chosen: &chosen, terms };
    let positions = sorted_positions(&context);
    let ghost ordered = arranged(chosen@, positions@);
    proof {
        assert(stably_sorted(
            chosen@.len(),
            order_of_records(records@, chosen@, terms@),
            positions@,
        ));
        assert(is_record_order(ordered, records@, texts(wanted@), terms@));
    }
    let total = positions.len();
    let (start, end) = page_bounds(total, offset, limit);
    let mut page: Vec<usize> = Vec::new();
    let mut k: usize = start;
    while k < end
        invariant
            start <= k <= end <= positions@.len(),
            ordered == arranged(chosen@, positions@),
            forall|m: int| 0 <= m < positions@.len() ==> (#[trigger] positions@[m]) < chosen@.len(),
            forall|m: int| 0 <= m < chosen@.len() ==> (#[trigger] chosen@[m]) < records@.len(),
            forall|m: int| 0 <= m < page@.len() ==> (#[trigger] page@[m]) < records@.len(),
            page@ == ordered.subrange(start as int, k as int),
        decreases end - k,
    {
        page.push(chosen[positions[k]]);
        k = k + 1;
        proof {
            assert(page@ =~= ordered.subrange(start as int, k as int));
        }
    }
    let has_more = end < total;
    MetadataSelection { positions: page, total, has_more }
}

/// A malformed record as a query result.
pub open spec fn stub_value(stub: InvalidRecordStub) -> JsonModel {
    let path = stub.rel_path@;
    let f = Seq::empty();
    let f = with_member(f, "path"@, JsonModel::Text(path));
    let f = with_member(f, "name"@, JsonModel::Text(name_of(path)));
    let f = with_member(f, "folder"@, JsonModel::Text(folder_of(path)));
    let f = with_member(f, "size"@, count_value(stub.file_size as int));
    let f = with_member(f, "mtime"@, text_or_null(optional_text(stub.file_mtime_iso)));
    let f = with_member(f, "ctime"@, text_or_null(optional_text(stub.file_ctime_iso)));
    let f = with_member(f, "revision"@, JsonModel::Text(stub.source_revision@));
    let m = Seq::empty();
    let m = with_member(m, "path"@, JsonModel::Text(path));
    let m = with_member(m, "types"@, JsonModel::Array(text_models(texts(stub.type_names@))));
    let m = with_member(m, "file"@, JsonModel::Object(f));
    JsonModel::Object(m)
}

pub fn serialize_invalid_stub(stub: &InvalidRecordStub) -> (result: Json)
    ensures
        result@ == stub_value(*stub),
{
    broadcast use crate::json::lemma_object_model;

    let path = stub.rel_path.as_str();
    let mut file: Vec<Member> = Vec::new();
    let mut members: Vec<Member> = Vec::new();
    proof {
        assert(member_models(file@) =~= Seq::empty());
        assert(member_models(members@) =~= Seq::empty());
    }
    put_member(&mut file, "path", Json::text(path));
    put_member(&mut file, "name", Json::Text(file_name(path)));
    put_member(&mut file, "folder", Json::Text(file_folder(path)));
    put_member(&mut file, "size", Json::unsigned(stub.file_size));
    put_member(&mut file, "mtime", optional_value(&stub.file_mtime_iso));
    put_member(&mut file, "ctime", optional_value(&stub.file_ctime_iso));
    put_member(&mut file, "revision", Json::text(stub.source_revision.as_str()));
    put_member(&mut members, "path", Json::text(path));
    put_member(&mut members, "types", Json::text_array(&stub.type_names));
    put_member(&mut members, "file", Json::Object(file));
    Json::Object(members)
}

// ---------------------------------------------------------------------------
// Executions
// ---------------------------------------------------------------------------
/// The rows and metadata that a query gave.
#[derive(Debug)]
pub struct QueryExecution {
    pub records: Vec<Json>,
    pub total_count: usize,
    pub has_more: bool,
    pub meta: Json,
    pub diagnostics: Vec<Diagnostic>,
}

/// One record of a metadata page, with the diagnostics it gave: a parsed record
/// in its serialized form, or a malformed record.
#[derive(Debug)]
pub enum PageRecord {
    Parsed { serialized: Json, diagnostics: Vec<Diagnostic> },
    Invalid { stub: InvalidRecordStub, diagnostic: Diagnostic },
}

/// The row of a page record.
pub open spec fn page_row(record: PageRecord) -> JsonModel {
    match record {
        PageRecord::Parsed { serialized, .. } => serialized@,
        PageRecord::Invalid { stub, .. } => stub_value(stub),
    }
}

/// The diagnostics of the page records, in order.
pub open spec fn page_diagnostics(records: Seq<PageRecord>) -> Seq<DiagnosticModel>
    decreases records.len(),
{
    if records.len() == 0 {
        Seq::empty()
    } else {
        page_diagnostics(records.drop_last()) + match records.last() {
            PageRecord::Parsed { diagnostics, .. } => diagnostic_models(diagnostics@),
            PageRecord::Invalid { diagnostic, .. } => seq![diagnostic@],
        }
    }
}

/// The metadata of an execution.
pub open spec fn execution_meta(
    total: int,
    has_more: bool,
    context: Option<Seq<char>>,
    groups: Option<Seq<JsonModel>>,
) -> JsonModel {
    let m = Seq::empty();
    let m = with_member(m, "total_count"@, count_value(total));
    let m = with_member(m, "has_more"@, JsonModel::Bool(has_more));
    let m = match context {
        Some(path) => with_member(
            m,
            "context"@,
            JsonModel::Object(with_member(Seq::empty(), "path"@, JsonModel::Text(path))),
        ),
        None => m,
    };
    let m = match groups {
        Some(groups) => with_member(m, "groups"@, JsonModel::Array(groups)),
        None => m,
    };
    JsonModel::Object(m)
}

/// What optional groups hold.
pub open spec fn optional_items(groups: Option<Vec<Json>>) -> Option<Seq<JsonModel>> {
    match groups {
        Some(groups) => Some(item_models(groups@)),
        None => None,
    }
}

fn build_execution_meta(
    total: usize,
    has_more: bool,
    context: &Option<String>,
    groups: Option<Vec<Json>>,
) -> (result: Json)
    ensures
        result@ == execution_meta(
            total as int,
            has_more,
            optional_text(*context),
            optional_items(groups),
        ),
{
    broadcast use {crate::json::lemma_object_model, crate::json::lemma_array_model};

    let mut meta: Vec<Member> = Vec::new();
    proof {
        assert(member_models(meta@) =~= Seq::empty());
    }
    put_member(&mut meta, "total_count", Json::unsigned(total as u64));
    put_member(&mut meta, "has_more", Json::Bool(has_more));
    if let Some(path) = context {
        let mut inner: Vec<Member> = Vec::new();
        proof {
            assert(member_models(inner@) =~= Seq::empty());
        }
        put_member(&mut inner, "path", Json::text(path.as_str()));
        put_member(&mut meta, "context", Json::Object(inner));
    }
    if let Some(groups) = groups {
        put_member(&mut meta, "groups", Json::Array(groups));
    }
    Json::Object(meta)
}

/// The execution that a metadata page gives.
pub fn build_metadata_page_result(
    records: &Vec<PageRecord>,
    total_count: usize,
    has_more: bool,
) -> (result: QueryExecution)
    ensures
        item_models(result.records@) == Seq::new(records@.len(), |i: int| page_row(records@[i])),
        result.total_count == total_count,
        result.has_more == has_more,
        result.meta@ == execution_meta(total_count as int, has_more, None, None),
        diagnostic_models(result.diagnostics@) == page_diagnostics(records@),
{
    let mut rows: Vec<Json> = Vec::new();
    let mut diagnostics: Vec<Diagnostic> = Vec::new();
    let mut i: usize = 0;
    proof {
        assert(diagnostic_models(diagnostics@) =~= page_diagnostics(records@.take(0)));
    }
    while i < records.len()
        invariant
            i <= records@.len(),
            rows@.len() == i,
            forall|k: int| 0 <= k < i ==> (#[trigger] rows@[k])@ == page_row(records@[k]),
            diagnostic_models(diagnostics@) == page_diagnostics(records@.take(i as int)),
        decreases records@.len() - i,
    {
        proof {
            assert(records@.take(i + 1).drop_last() =~= records@.take(i as int));
            assert(records@.take(i + 1).last() == records@[i as int]);
        }
        match &records[i] {
            PageRecord::Parsed { serialized, diagnostics: more } => {
                rows.push(serialized.copy());
                append_diagnostics(&mut diagnostics, more);
            },
            PageRecord::Invalid { stub, diagnostic } => {
                rows.push(serialize_invalid_stub(stub));
                let ghost before = diagnostics@;
                diagnostics.push(diagnostic.copy());
                proof {
                    assert(diagnostic_models(diagnostics@) =~= diagnostic_models(before)
                        + seq![diagnostic@]);
                }
            },
        }
        i = i + 1;
    }
    proof {
        assert(records@.take(i as int) =~= records@);
        assert(item_models(rows@) =~= Seq::new(records@.len(), |i: int| page_row(records@[i])));
    }
    let meta = build_execution_meta(total_count, has_more, &None, None);
    QueryExecution { records: rows, total_count, has_more, meta, diagnostics }
}

/// What evaluating an expression gave: a value, or the diagnostic of an error.
#[derive(Debug)]
pub struct NamedOutcome {
    pub name: String,
    pub outcome: Result<Json, Diagnostic>,
}

/// A record with what evaluating the query on it gave.
#[derive(Debug)]
pub struct EvaluatedCandidate {
    pub path: String,
    pub types: Vec<String>,
    /// The diagnostics of type expressions that failed.
    pub match_diagnostics: Vec<Diagnostic>,
    pub projections: Vec<NamedOutcome>,
    /// The filter's result, where the query has a filter.
    pub filter: Option<Result<Json, Diagnostic>>,
    pub selections: Vec<NamedOutcome>,
    /// The values of the query's ordering fields.
    pub sort_values: Vec<Json>,
    /// The record as a row of the result.
    pub serialized: Json,
}

/// The diagnostics of the outcomes that failed, in order.
pub open spec fn outcome_diagnostics(outcomes: Seq<NamedOutcome>) -> Seq<DiagnosticModel>
    decreases outcomes.len(),
{
    if outcomes.len() == 0 {
        Seq::empty()
    } else {
        let rest = outcome_diagnostics(outcomes.drop_last());
        match outcomes.last().outcome {
            Ok(_) => rest,
            Err(diagnostic) => rest.push(diagnostic@),
        }
    }
}

fn append_outcome_diagnostics(list: &mut Vec<Diagnostic>, outcomes: &Vec<NamedOutcome>)
    ensures
        diagnostic_models(final(list)@) == diagnostic_models(old(list)@) + outcome_diagnostics(
            outcomes@,
        ),
{
    let ghost before = diagnostic_models(list@);
    let mut i: usize = 0;
    proof {
        assert(diagnostic_models(list@) =~= before + outcome_diagnostics(outcomes@.take(0)));
    }
    while i < outcomes.len()
        invariant
            i <= outcomes@.len(),
            before == diagnostic_models(old(list)@),
            diagnostic_models(list@) == before + outcome_diagnostics(outcomes@.take(i as int)),
        decreases outcomes@.len() - i,
    {
        proof {
            assert(outcomes@.take(i + 1).drop_last() =~= outcomes@.take(i as int));
            assert(outcomes@.take(i + 1).last() == outcomes@[i as int]);
        }
        if let Err(diagnostic) = &outcomes[i].outcome {
            let ghost current = list@;
            list.push(diagnostic.copy());
            proof {
                assert(diagnostic_models(list@) =~= diagnostic_models(current).push(diagnostic@));
                assert(diagnostic_models(list@) =~= before + outcome_diagnostics(
                    outcomes@.take(i + 1),
                ));
            }
        }
        i = i + 1;
    }
    proof {
        assert(outcomes@.take(i as int) =~= outcomes@);
    }
}

/// Whether a candidate passes the filter: there is none, or it gave `true`.
pub open spec fn passes_filter(candidate: EvaluatedCandidate) -> bool {
    match candidate.filter {
        None => true,
        Some(Ok(value)) => value@ == JsonModel::Bool(true),
        Some(Err(_)) => false,
    }
}

/// Whether a record becomes a candidate: it is of a wanted type and passes the
/// filter.
pub open spec fn is_selected(candidate: EvaluatedCandidate, wanted: Seq<Seq<char>>) -> bool {
    is_wanted(candidate.types@, wanted) && passes_filter(candidate)
}

/// The diagnostics that a record contributes: those of type expressions; for a
/// wanted record also those of its projections and its filter; for a selected
/// one also those of its selections.
pub open spec fn candidate_diagnostics(
    candidate: EvaluatedCandidate,
    wanted: Seq<Seq<char>>,
) -> Seq<DiagnosticModel> {
    let first = diagnostic_models(candidate.match_diagnostics@);
    if !is_wanted(candidate.types@, wanted) {
        first
    } else {
        let second = first + outcome_diagnostics(candidate.projections@);
        match candidate.filter {
            Some(Err(diagnostic)) => second + seq![diagnostic@],
            _ => if passes_filter(candidate) {
                second + outcome_diagnostics(candidate.selections@)
            } else {
                second
            },
        }
    }
}

/// The diagnostics of all records, in order.
pub open spec fn all_diagnostics(
    candidates: Seq<EvaluatedCandidate>,
    wanted: Seq<Seq<char>>,
) -> Seq<DiagnosticModel>
    decreases candidates.len(),
{
    if candidates.len() == 0 {
        Seq::empty()
    } else {
        all_diagnostics(candidates.drop_last(), wanted) + candidate_diagnostics(
            candidates.last(),
            wanted,
        )
    }
}

/// The positions of the selected records, ascending.
pub open spec fn selected_positions(
    candidates: Seq<EvaluatedCandidate>,
    wanted: Seq<Seq<char>>,
) -> Seq<usize>
    decreases candidates.len(),
{
    if candidates.len() == 0 {
        Seq::empty()
    } else {
        let rest = selected_positions(candidates.drop_last(), wanted);
        if is_selected(candidates.last(), wanted) {
            rest.push((candidates.len() - 1) as usize)
        } else {
            rest
        }
    }
}

/// Adds the diagnostics that a record contributes, and tells whether it becomes
/// a candidate.
pub fn append_candidate_diagnostics(
    list: &mut Vec<Diagnostic>,
    candidate: &EvaluatedCandidate,
    wanted: &Vec<String>,
) -> (selected: bool)
    ensures
        diagnostic_models(final(list)@) == diagnostic_models(old(list)@) + candidate_diagnostics(
            *candidate,
            texts(wanted@),
        ),
        selected == is_selected(*candidate, texts(wanted@)),
{
    let ghost before = diagnostic_models(list@);
    append_diagnostics(list, &candidate.match_diagnostics);
    if !has_wanted_type(&candidate.types, wanted) {
        return false;
    }
    append_outcome_diagnostics(list, &candidate.projections);
    proof {
        assert(diagnostic_models(list@) =~= before + (diagnostic_models(
            candidate.match_diagnostics@,
        ) + outcome_diagnostics(candidate.projections@)));
    }
    let passes = match &candidate.filter {
        None => true,
        Some(Ok(value)) => match value {
            Json::Bool(value) => *value,
            _ => false,
        },
        Some(Err(diagnostic)) => {
            let ghost current = list@;
            list.push(diagnostic.copy());
            proof {
                assert(diagnostic_models(list@) =~= diagnostic_models(current).push(diagnostic@));
                assert(diagnostic_models(list@) =~= before + candidate_diagnostics(
                    *candidate,
                    texts(wanted@),
                ));
            }
            false
        },
    };
    if passes {
        append_outcome_diagnostics(list, &candidate.selections);
        proof {
            assert(diagnostic_models(list@) =~= before + candidate_diagnostics(
                *candidate,
                texts(wanted@),
            ));
        }
    }
    passes
}

/// The records that a query selects, and the diagnostics of evaluating it.
#[derive(Debug)]
pub struct CandidateSelection {
    pub positions: Vec<usize>,
    pub diagnostics: Vec<Diagnostic>,
}

/// Selects the candidates of a query.
pub fn select_candidates(
    candidates: &Vec<EvaluatedCandidate>,
    wanted: &Vec<String>,
) -> (result: CandidateSelection)
    ensures
        result.positions@ == selected_positions(candidates@, texts(wanted@)),
        diagnostic_models(result.diagnostics@) == all_diagnostics(candidates@, texts(wanted@)),
        forall|k: int|
            0 <= k < result.positions@.len() ==> (#[trigger] result.positions@[k])
                < candidates@.len(),
{
    let mut positions: Vec<usize> = Vec::new();
    let mut diagnostics: Vec<Diagnostic> = Vec::new();
    let mut i: usize = 0;
    proof {
        assert(diagnostic_models(diagnostics@) =~= all_diagnostics(
            candidates@.take(0),
            texts(wanted@),
        ));
    }
    while i < candidates.len()
        invariant
            i <= candidates@.len(),
            positions@ == selected_positions(candidates@.take(i as int), texts(wanted@)),
            diagnostic_models(diagnostics@) == all_diagnostics(
                candidates@.take(i as int),
                texts(wanted@),
            ),
            forall|k: int| 0 <= k < positions@.len() ==> (#[trigger] positions@[k]) < i,
        decreases candidates@.len() - i,
    {
        proof {
            assert(candidates@.take(i + 1).drop_last() =~= candidates@.take(i as int));
            assert(candidates@.take(i + 1).last() == candidates@[i as int]);
        }
        if append_candidate_diagnostics(&mut diagnostics, &candidates[i], wanted) {
            positions.push(i);
        }
        i = i + 1;
    }
    proof {
        assert(candidates@.take(i as int) =~= candidates@);
    }
    CandidateSelection { positions, diagnostics }
}

/// The sort value of a term; null where the candidate has none.
pub open spec fn sort_value_at(candidate: EvaluatedCandidate, term: int) -> JsonModel {
    if 0 <= term < candidate.sort_values@.len() {
        candidate.sort_values@[term]@
    } else {
        JsonModel::Null
    }
}

/// The order of two candidates: by the first term from `from` on that tells
/// them apart, then by ascending path.
pub open spec fn candidate_order(
    left: EvaluatedCandidate,
    right: EvaluatedCandidate,
    directions: Seq<HostedOrderDirection>,
    from: nat,
) -> Order
    decreases directions.len() - from,
{
    if from >= directions.len() {
        text_order(left.path@, right.path@)
    } else {
        let order = directions[from as int].directed(
            value_order(sort_value_at(left, from as int), sort_value_at(right, from as int)),
        );
        if order == Order::Equal {
            candidate_order(left, right, directions, from + 1)
        } else {
            order
        }
    }
}

fn compare_candidates(
    left: &EvaluatedCandidate,
    right: &EvaluatedCandidate,
    directions: &Vec<HostedOrderDirection>,
) -> (result: Order)
    ensures
        result == candidate_order(*left, *right, directions@, 0),
{
    let null = Json::Null;
    let mut i: usize = 0;
    while i < directions.len()
        invariant
            i <= directions@.len(),
            null@ == JsonModel::Null,
            candidate_order(*left, *right, directions@, 0) == candidate_order(
                *left,
                *right,
                directions@,
                i as nat,
            ),
        decreases directions@.len() - i,
    {
        let a = if i < left.sort_values.len() {
            &left.sort_values[i]
        } else {
            &null
        };
        let b = if i < right.sort_values.len() {
            &right.sort_values[i]
        } else {
            &null
        };
        let order = compare_hosted_values(a, b, directions[i]);
        if !order.is_eq() {
            return order;
        }
        i = i + 1;
    }
    compare_text(left.path.as_str(), right.path.as_str())
}

/// How the candidates at two of the chosen positions compare.
pub open spec fn order_of_candidates(
    candidates: Seq<EvaluatedCandidate>,
    chosen: Seq<usize>,
    directions: Seq<HostedOrderDirection>,
) -> spec_fn(int, int) -> Order {
    |i: int, j: int|
        candidate_order(
            candidates[chosen[i] as int],
            candidates[chosen[j] as int],
            directions,
            0,
        )
}

struct CandidateOrder<'a> {
    candidates: &'a Vec<EvaluatedCandidate>,
    chosen: &'a Vec<usize>,
    directions: &'a Vec<HostedOrderDirection>,
}

impl<'a> CandidateOrder<'a> {
    #[verifier::type_invariant]
    spec fn in_range(&self) -> bool {
        forall|k: int|
            0 <= k < self.chosen@.len() ==> (#[trigger] self.chosen@[k]) < self.candidates@.len()
    }
}

impl<'a> Comparison for CandidateOrder<'a> {
    closed spec fn count(&self) -> nat {
        self.chosen@.len()
    }

    closed spec fn order(&self) -> spec_fn(int, int) -> Order {
        order_of_candidates(self.candidates@, self.chosen@, self.directions@)
    }

    fn size(&self) -> (result: usize) {
        self.chosen.len()
    }

    fn compare(&self, left: usize, right: usize) -> (result: Order) {
        proof {
            use_type_invariant(self);
        }
        compare_candidates(
            &self.candidates[self.chosen[left]],
            &self.candidates[self.chosen[right]],
            self.directions,
        )
    }
}

/// Whether positions are the chosen candidates in stable order.
pub open spec fn is_candidate_order(
    ordered: Seq<usize>,
    candidates: Seq<EvaluatedCandidate>,
    chosen: Seq<usize>,
    directions: Seq<HostedOrderDirection>,
) -> bool {
    exists|positions: Seq<usize>| #[trigger]
        stably_sorted(
            chosen.len(),
            order_of_candidates(candidates, chosen, directions),
            positions,
        ) && ordered == arranged(chosen, positions)
}

/// The chosen candidates in the order that the directions ask for, then by path.
pub fn sort_candidates(
    candidates: &Vec<EvaluatedCandidate>,
    chosen: &Vec<usize>,
    directions: &Vec<HostedOrderDirection>,
) -> (result: Vec<usize>)
    requires
        forall|k: int| 0 <= k < chosen@.len() ==> (#[trigger] chosen@[k]) < candidates@.len(),
    ensures
        is_candidate_order(result@, candidates@, chosen@, directions@),
        result@.len() == chosen@.len(),
        forall|k: int| 0 <= k < result@.len() ==> (#[trigger] result@[k]) < candidates@.len(),
{
    let context = CandidateOrder { candidates, chosen, directions };
    let positions = sorted_positions(&context);
    proof {
        assert(stably_sorted(
            chosen@.len(),
            order_of_candidates(candidates@, chosen@, directions@),
            positions@,
        ));
    }
    let mut result: Vec<usize> = Vec::new();
    let mut k: usize = 0;
    while k < positions.len()
        invariant
            k <= positions@.len(),
            positions@.len() == chosen@.len(),
            result@.len() == k,
            forall|m: int| 0 <= m < positions@.len() ==> (#[trigger] positions@[m]) < chosen@.len(),
            forall|m: int| 0 <= m < chosen@.len() ==> (#[trigger] chosen@[m]) < candidates@.len(),
            forall|m: int| 0 <= m < k ==> (#[trigger] result@[m]) == chosen@[positions@[m] as int],
            forall|m: int| 0 <= m < k ==> (#[trigger] result@[m]) < candidates@.len(),
        decreases positions@.len() - k,
    {
        result.push(chosen[positions[k]]);
        k = k + 1;
    }
    proof {
        assert(result@ =~= arranged(chosen@, positions@));
    }
    result
}

/// The rows of the candidates at the given positions.
pub open spec fn rows_at(
    candidates: Seq<EvaluatedCandidate>,
    positions: Seq<usize>,
) -> Seq<JsonModel> {
    Seq::new(positions.len(), |k: int| candidates[positions[k] as int].serialized@)
}

/// The page of an execution over candidates that are already in order.
pub fn finish_execution(
    candidates: &Vec<EvaluatedCandidate>,
    ordered: &Vec<usize>,
    offset: u64,
    limit: Option<u64>,
    context: &Option<String>,
    groups: Option<Vec<Json>>,
    diagnostics: Vec<Diagnostic>,
) -> (result: QueryExecution)
    requires
        forall|k: int| 0 <= k < ordered@.len() ==> (#[trigger] ordered@[k]) < candidates@.len(),
    ensures
        item_models(result.records@) == page_of(
            rows_at(candidates@, ordered@),
            offset as int,
            optional_int(limit),
        ),
        result.total_count == ordered@.len(),
        result.has_more == more_follow(ordered@.len(), offset as int, optional_int(limit)),
        result.meta@ == execution_meta(
            ordered@.len() as int,
            result.has_more,
            optional_text(*context),
            optional_items(groups),
        ),
        result.diagnostics == diagnostics,
{
    let total = ordered.len();
    let (start, end) = page_bounds(total, offset, limit);
    let mut records: Vec<Json> = Vec::new();
    let mut k: usize = start;
    while k < end
        invariant
            start <= k <= end <= ordered@.len(),
            forall|m: int| 0 <= m < ordered@.len() ==> (#[trigger] ordered@[m]) < candidates@.len(),
            records@.len() == k - start,
            forall|m: int|
                0 <= m < k - start ==> (#[trigger] records@[m])@
                    == candidates@[ordered@[start + m] as int].serialized@,
        decreases end - k,
    {
        records.push(candidates[ordered[k]].serialized.copy());
        k = k + 1;
    }
    proof {
        assert(item_models(records@) =~= page_of(
            rows_at(candidates@, ordered@),
            offset as int,
            optional_int(limit),
        ));
    }
    let has_more = end < total;
    let meta = build_execution_meta(total, has_more, context, groups);
    QueryExecution { records, total_count: total, has_more, meta, diagnostics }
}

// ---------------------------------------------------------------------------
// A whole execution
// ---------------------------------------------------------------------------
/// A compiled query.
#[derive(Debug)]
pub struct CompiledQuery {
    pub needs: QueryNeeds,
    pub types: Vec<String>,
    pub terms: Vec<OrderTerm>,
    pub offset: u64,
    pub limit: Option<u64>,
    /// The path of the query's context record.
    pub context: Option<String>,
}

/// A page that the database ordered and cut.
#[derive(Debug)]
pub struct LoadedPage {
    pub records: Vec<PageRecord>,
    pub total: usize,
    pub performance: LoadQueryPerf,
}

/// A loaded record with its form on a page.
#[derive(Debug)]
pub struct LoadedRecord {
    pub record: LocalRecord,
    pub page: PageRecord,
}

/// Why the records could not be loaded, and the path that it concerns.
#[derive(Debug)]
pub struct SnapshotFailure {
    pub message: String,
    pub path: Option<String>,
}

/// A fault with a code and a message.
#[derive(Debug)]
pub struct StageFault {
    pub code: String,
    pub message: String,
}

/// What the stages of an execution gave. Later stages only count where no earlier
/// one ended the execution.
#[derive(Debug)]
pub struct ExecutionStages {
    pub compiled: Result<CompiledQuery, Vec<Diagnostic>>,
    pub timezone_fault: Option<String>,
    pub clock_fault: Option<StageFault>,
    /// A budget that loading the page exceeded.
    pub capture_fault: Option<StageFault>,
    pub page: Option<LoadedPage>,
    pub loaded: Result<Vec<LoadedRecord>, SnapshotFailure>,
    /// The timings and counters of loading the records, where they were taken.
    pub load: Option<LoadQueryPerf>,
    /// The point reads that the context record took.
    pub context_record_loads: usize,
    /// Why the context record cannot be used.
    pub context_fault: Option<Diagnostic>,
    /// The parsed records with what evaluating the query on them gave.
    pub candidates: Vec<EvaluatedCandidate>,
    pub groups: Option<Vec<Json>>,
    pub group_diagnostics: Vec<Diagnostic>,
}

/// Whether an execution ended with one diagnostic.
pub open spec fn ends_with(
    result: Result<QueryExecution, Vec<Diagnostic>>,
    diagnostic: DiagnosticModel,
) -> bool {
    result is Err && diagnostic_models(result->Err_0@) == seq![diagnostic]
}

/// Where an execution ends, by its stages.
pub enum ExecutionEnd {
    /// The query does not compile.
    Refused(Seq<DiagnosticModel>),
    /// A stage failed.
    Failed(DiagnosticModel),
    /// The database gave the page.
    DatabasePage,
    /// The page is cut out of the loaded records.
    RecordPage,
    /// The query is evaluated on every record.
    Evaluated,
}

pub open spec fn execution_end(
    stages: ExecutionStages,
    types: Seq<TypeDefinition>,
) -> ExecutionEnd {
    match stages.compiled {
        Err(diagnostics) => ExecutionEnd::Refused(diagnostic_models(diagnostics@)),
        Ok(compiled) => {
            let by_page = compiled.needs.supports_metadata_page && !any_match_expression(types);
            if let Some(message) = stages.timezone_fault {
                ExecutionEnd::Failed(error_diagnostic("invalid_timezone"@, message@, None))
            } else if let Some(fault) = stages.clock_fault {
                ExecutionEnd::Failed(error_diagnostic(fault.code@, fault.message@, None))
            } else if by_page && stages.capture_fault is Some {
                ExecutionEnd::Failed(
                    error_diagnostic(
                        (stages.capture_fault->0).code@,
                        (stages.capture_fault->0).message@,
                        None,
                    ),
                )
            } else if by_page && stages.page is Some {
                ExecutionEnd::DatabasePage
            } else {
                match stages.loaded {
                    Err(failure) => ExecutionEnd::Failed(
                        error_diagnostic(
                            "collection_snapshot_failed"@,
                            failure.message@,
                            optional_text(failure.path),
                        ),
                    ),
                    Ok(_) => if by_page {
                        ExecutionEnd::RecordPage
                    } else if let Some(diagnostic) = stages.context_fault {
                        ExecutionEnd::Failed(diagnostic@)
                    } else {
                        ExecutionEnd::Evaluated
                    },
                }
            }
        },
    }
}

/// The loaded records.
pub open spec fn local_records(loaded: Seq<LoadedRecord>) -> Seq<LocalRecord> {
    Seq::new(loaded.len(), |i: int| loaded[i].record)
}

/// The page forms at the given positions.
pub open spec fn page_rows_at(loaded: Seq<LoadedRecord>, positions: Seq<usize>) -> Seq<JsonModel> {
    Seq::new(positions.len(), |k: int| page_row(loaded[positions[k] as int].page))
}

/// The diagnostics of the page forms at the given positions.
pub open spec fn page_diagnostics_at(
    loaded: Seq<LoadedRecord>,
    positions: Seq<usize>,
) -> Seq<DiagnosticModel>
    decreases positions.len(),
{
    if positions.len() == 0 {
        Seq::empty()
    } else {
        page_diagnostics_at(loaded, positions.drop_last()) + match loaded[positions.last() as int].page {
            PageRecord::Parsed { diagnostics, .. } => diagnostic_models(diagnostics@),
            PageRecord::Invalid { diagnostic, .. } => seq![diagnostic@],
        }
    }
}

/// The directions of an order.
pub open spec fn directions_of(terms: Seq<OrderTerm>) -> Seq<HostedOrderDirection> {
    Seq::new(terms.len(), |i: int| terms[i].direction)
}

/// Whether an execution is a page out of loaded records.
pub open spec fn is_record_page(
    execution: QueryExecution,
    compiled: CompiledQuery,
    loaded: Seq<LoadedRecord>,
) -> bool {
    exists|ordered: Seq<usize>| #[trigger]
        is_record_order(ordered, local_records(loaded), texts(compiled.types@), compiled.terms@)
            && is_record_page_in(execution, compiled, loaded, ordered)
}

pub open spec fn is_record_page_in(
    execution: QueryExecution,
    compiled: CompiledQuery,
    loaded: Seq<LoadedRecord>,
    ordered: Seq<usize>,
) -> bool {
    let offset = compiled.offset as int;
    let limit = optional_int(compiled.limit);
    let page = page_of(ordered, offset, limit);
    &&& item_models(execution.records@) == page_rows_at(loaded, page)
    &&& diagnostic_models(execution.diagnostics@) == page_diagnostics_at(loaded, page)
    &&& execution.total_count == ordered.len()
    &&& execution.has_more == more_follow(ordered.len(), offset, limit)
    &&& execution.meta@ == execution_meta(ordered.len() as int, execution.has_more, None, None)
}

/// Whether an execution is a page out of evaluated candidates.
pub open spec fn is_evaluated_page(
    execution: QueryExecution,
    compiled: CompiledQuery,
    stages: ExecutionStages,
) -> bool {
    exists|ordered: Seq<usize>| #[trigger]
        is_candidate_order(
            ordered,
            stages.candidates@,
            selected_positions(stages.candidates@, texts(compiled.types@)),
            directions_of(compiled.terms@),
        ) && is_evaluated_page_in(execution, compiled, stages, ordered)
}

pub open spec fn is_evaluated_page_in(
    execution: QueryExecution,
    compiled: CompiledQuery,
    stages: ExecutionStages,
    ordered: Seq<usize>,
) -> bool {
    let offset = compiled.offset as int;
    let limit = optional_int(compiled.limit);
    &&& item_models(execution.records@) == page_of(
        rows_at(stages.candidates@, ordered),
        offset,
        limit,
    )
    &&& execution.total_count == ordered.len()
    &&& execution.has_more == more_follow(ordered.len(), offset, limit)
    &&& execution.meta@ == execution_meta(
        ordered.len() as int,
        execution.has_more,
        optional_text(compiled.context),
        optional_items(stages.groups),
    )
    &&& diagnostic_models(execution.diagnostics@) == all_diagnostics(
        stages.candidates@,
        texts(compiled.types@),
    ) + diagnostic_models(stages.group_diagnostics@)
}

/// Whether an execution is a page that the database gave.
pub open spec fn is_database_page(
    execution: QueryExecution,
    compiled: CompiledQuery,
    page: LoadedPage,
) -> bool {
    let start = if compiled.offset < page.total {
        compiled.offset as int
    } else {
        page.total as int
    };
    &&& item_models(execution.records@) == Seq::new(
        page.records@.len(),
        |i: int| page_row(page.records@[i]),
    )
    &&& diagnostic_models(execution.diagnostics@) == page_diagnostics(page.records@)
    &&& execution.total_count == page.total
    &&& execution.has_more == (start + page.records@.len() < page.total)
    &&& execution.meta@ == execution_meta(page.total as int, execution.has_more, None, None)
}

/// Whether an execution is what its stages call for.
pub open spec fn executes(
    result: Result<QueryExecution, Vec<Diagnostic>>,
    stages: ExecutionStages,
    types: Seq<TypeDefinition>,
) -> bool {
    match execution_end(stages, types) {
        ExecutionEnd::Refused(diagnostics) => result is Err && diagnostic_models(
            result->Err_0@,
        ) == diagnostics,
        ExecutionEnd::Failed(diagnostic) => ends_with(result, diagnostic),
        ExecutionEnd::DatabasePage => result is Ok && is_database_page(
            result->Ok_0,
            stages.compiled->Ok_0,
            stages.page->0,
        ),
        ExecutionEnd::RecordPage => result is Ok && is_record_page(
            result->Ok_0,
            stages.compiled->Ok_0,
            (stages.loaded->Ok_0)@,
        ),
        ExecutionEnd::Evaluated => result is Ok && is_evaluated_page(
            result->Ok_0,
            stages.compiled->Ok_0,
            stages,
        ),
    }
}

fn one_diagnostic(code: &str, message: &str, path: Option<String>) -> (result: Vec<Diagnostic>)
    ensures
        diagnostic_models(result@) == seq![
            error_diagnostic(code@, message@, optional_text(path)),
        ],
{
    let mut result: Vec<Diagnostic> = Vec::new();
    let diagnostic = Diagnostic::error(code, message, path);
    result.push(diagnostic);
    proof {
        assert(diagnostic_models(result@) =~= seq![diagnostic@]);
    }
    result
}

fn split_loaded(loaded: Vec<LoadedRecord>) -> (result: (Vec<LocalRecord>, Vec<PageRecord>))
    ensures
        result.0@ == local_records(loaded@),
        result.1@ == Seq::new(loaded@.len(), |i: int| loaded@[i].page),
{
    let ghost all = loaded@;
    let mut rest = crate::cache_source::reversed(loaded);
    let mut records: Vec<LocalRecord> = Vec::new();
    let mut pages: Vec<PageRecord> = Vec::new();
    while rest.len() > 0
        invariant
            records@.len() + rest@.len() == all.len(),
            pages@.len() == records@.len(),
            forall|k: int| 0 <= k < rest@.len() ==> (#[trigger] rest@[k]) == all[all.len() - 1 - k],
            forall|k: int| 0 <= k < records@.len() ==> (#[trigger] records@[k]) == all[k].record,
            forall|k: int| 0 <= k < pages@.len() ==> (#[trigger] pages@[k]) == all[k].page,
        decreases rest@.len(),
    {
        match rest.pop() {
            Some(item) => {
                records.push(item.record);
                pages.push(item.page);
            },
            None => {},
        }
    }
    proof {
        assert(records@ =~= local_records(all));
        assert(pages@ =~= Seq::new(all.len(), |i: int| all[i].page));
    }
    (records, pages)
}

fn page_from_records(compiled: &CompiledQuery, loaded: Vec<LoadedRecord>) -> (result:
    QueryExecution)
    ensures
        is_record_page(result, *compiled, loaded@),
{
    let ghost all = loaded@;
    let (records, pages) = split_loaded(loaded);
    let selection = select_metadata_page(
        &records,
        &compiled.types,
        &compiled.terms,
        compiled.offset,
        compiled.limit,
    );
    let ghost ordered = choose|ordered: Seq<usize>| #[trigger]
        is_record_order(ordered, records@, texts(compiled.types@), compiled.terms@) && is_page_of(
            selection,
            ordered,
            compiled.offset as int,
            optional_int(compiled.limit),
        );
    let ghost page = selection.positions@;
    let mut rows: Vec<Json> = Vec::new();
    let mut diagnostics: Vec<Diagnostic> = Vec::new();
    proof {
        assert(diagnostic_models(diagnostics@) =~= page_diagnostics_at(all, page.take(0)));
    }
    let mut i: usize = 0;
    while i < selection.positions.len()
        invariant
            i <= selection.positions@.len(),
            page == selection.positions@,
            pages@ == Seq::new(all.len(), |i: int| all[i].page),
            forall|k: int| 0 <= k < page.len() ==> (#[trigger] page[k]) < pages@.len(),
            rows@.len() == i,
            forall|k: int|
                0 <= k < i ==> (#[trigger] rows@[k])@ == page_row(all[page[k] as int].page),
            diagnostic_models(diagnostics@) == page_diagnostics_at(all, page.take(i as int)),
        decreases selection.positions@.len() - i,
    {
        proof {
            assert(page.take(i + 1).drop_last() =~= page.take(i as int));
            assert(page.take(i + 1).last() == page[i as int]);
            assert(pages@[page[i as int] as int] == all[page[i as int] as int].page);
        }
        match &pages[selection.positions[i]] {
            PageRecord::Parsed { serialized, diagnostics: more } => {
                rows.push(serialized.copy());
                append_diagnostics(&mut diagnostics, more);
            },
            PageRecord::Invalid { stub, diagnostic } => {
                rows.push(serialize_invalid_stub(stub));
                let ghost before = diagnostics@;
                diagnostics.push(diagnostic.copy());
                proof {
                    assert(diagnostic_models(diagnostics@) =~= diagnostic_models(before)
                        + seq![diagnostic@]);
                }
            },
        }
        i = i + 1;
    }
    let meta = build_execution_meta(selection.total, selection.has_more, &None, None);
    let result = QueryExecution {
        records: rows,
        total_count: selection.total,
        has_more: selection.has_more,
        meta,
        diagnostics,
    };
    proof {
        assert(page.take(i as int) =~= page);
        assert(item_models(result.records@) =~= page_rows_at(all, page));
        assert(is_record_page_in(result, *compiled, all, ordered));
        assert(is_record_order(ordered, local_records(all), texts(compiled.types@), compiled.terms@));
    }
    result
}

/// Whether the stages of an execution reach the loading of all records.
pub open spec fn reaches_load(stages: ExecutionStages, types: Seq<TypeDefinition>) -> bool {
    match stages.compiled {
        Err(_) => false,
        Ok(compiled) => {
            let by_page = compiled.needs.supports_metadata_page && !any_match_expression(types);
            stages.timezone_fault is None && stages.clock_fault is None && !(by_page && (
            stages.capture_fault is Some || stages.page is Some))
        },
    }
}

/// The performance of a query once a bulk source was opened.
pub open spec fn with_source(performance: QueryPerformance) -> QueryPerformance {
    QueryPerformance { record_source_loads: 1, total_source_loads: 1, ..performance }
}

/// The performance of a query once its records are loaded.
pub open spec fn loaded_performance(
    performance: QueryPerformance,
    stages: ExecutionStages,
) -> QueryPerformance {
    match stages.load {
        Some(load) => with_load(with_source(performance), load),
        None => QueryPerformance {
            records_loaded: (stages.loaded->Ok_0)@.len() as usize,
            ..with_source(performance)
        },
    }
}

/// The performance of a query once its context record is read too.
pub open spec fn context_performance(
    performance: QueryPerformance,
    stages: ExecutionStages,
) -> QueryPerformance {
    let loaded = loaded_performance(performance, stages);
    QueryPerformance {
        context_record_loads: stages.context_record_loads,
        total_source_loads: capped_sum(
            loaded.record_source_loads,
            stages.context_record_loads,
        ) as usize,
        ..loaded
    }
}

/// The performance of a query with the sizes of what it gave.
pub open spec fn with_sizes(
    performance: QueryPerformance,
    execution: QueryExecution,
) -> QueryPerformance {
    QueryPerformance {
        candidates: execution.total_count,
        results: execution.records@.len() as usize,
        ..performance
    }
}

/// The timings of a query before anything is counted.
pub open spec fn nothing_counted(timings: QueryPerformance) -> QueryPerformance {
    QueryPerformance {
        records_loaded: 0,
        record_source_loads: 0,
        context_record_loads: 0,
        total_source_loads: 0,
        candidates: 0,
        results: 0,
        cache_used: false,
        cache_fallback: false,
        link_graph_built: false,
        ..timings
    }
}

/// The performance of an execution: the counters that its stages account for, and
/// all else as it was at the start.
pub open spec fn execution_performance(
    start: QueryPerformance,
    result: Result<QueryExecution, Vec<Diagnostic>>,
    stages: ExecutionStages,
    types: Seq<TypeDefinition>,
) -> QueryPerformance {
    match execution_end(stages, types) {
        ExecutionEnd::Refused(_) => start,
        ExecutionEnd::Failed(_) => if !reaches_load(stages, types) {
            start
        } else if stages.loaded is Err {
            with_source(start)
        } else {
            loaded_performance(start, stages)
        },
        ExecutionEnd::DatabasePage => with_sizes(
            with_load(start, (stages.page->0).performance),
            result->Ok_0,
        ),
        ExecutionEnd::RecordPage => with_sizes(loaded_performance(start, stages), result->Ok_0),
        ExecutionEnd::Evaluated => with_sizes(context_performance(start, stages), result->Ok_0),
    }
}

/// Runs a query from what its stages gave, and counts what it took. The timings
/// are those given and those of the loading. A cancellation between two stages
/// ends the execution instead.
pub fn execute_model(
    stages: ExecutionStages,
    types: &Vec<TypeDefinition>,
    timings: QueryPerformance,
) -> (result: (Result<QueryExecution, Vec<Diagnostic>>, QueryPerformance))
    ensures
        executes(result.0, stages, types@),
        result.1 == execution_performance(nothing_counted(timings), result.0, stages, types@),
        match result.0 {
            Ok(execution) => {
                &&& result.1.results == execution.records@.len()
                &&& result.1.candidates == execution.total_count
                &&& result.1.record_source_loads == 1
                &&& result.1.total_source_loads == capped_sum(
                    result.1.record_source_loads,
                    result.1.context_record_loads,
                )
            },
            Err(_) => true,
        },
{
    let mut performance = QueryPerformance {
        records_loaded: 0,
        record_source_loads: 0,
        context_record_loads: 0,
        total_source_loads: 0,
        candidates: 0,
        results: 0,
        cache_used: false,
        cache_fallback: false,
        link_graph_built: false,
        ..timings
    };
    let compiled = match stages.compiled {
        Ok(compiled) => compiled,
        Err(diagnostics) => {
            return (Err(diagnostics), performance);
        },
    };
    if let Some(message) = &stages.timezone_fault {
        return (Err(one_diagnostic("invalid_timezone", message.as_str(), None)), performance);
    }
    if let Some(fault) = &stages.clock_fault {
        return (
            Err(one_diagnostic(fault.code.as_str(), fault.message.as_str(), None)),
            performance,
        );
    }
    let plan = plan_query_load(compiled.needs, types);
    if plan.metadata_page {
        if let Some(fault) = &stages.capture_fault {
            return (
                Err(one_diagnostic(fault.code.as_str(), fault.message.as_str(), None)),
                performance,
            );
        }
        if let Some(page) = &stages.page {
            let start: usize = if compiled.offset < page.total as u64 {
                compiled.offset as usize
            } else {
                page.total
            };
            let has_more = page.records.len() < page.total - start;
            let execution = build_metadata_page_result(&page.records, page.total, has_more);
            apply_load_performance(&mut performance, &page.performance);
            performance.candidates = execution.total_count;
            performance.results = execution.records.len();
            return (Ok(execution), performance);
        }
    }
    performance.record_source_loads = 1;
    performance.total_source_loads = 1;
    let loaded = match stages.loaded {
        Ok(loaded) => loaded,
        Err(failure) => {
            return (
                Err(
                    one_diagnostic(
                        "collection_snapshot_failed",
                        failure.message.as_str(),
                        failure.path,
                    ),
                ),
                performance,
            );
        },
    };
    match &stages.load {
        Some(load) => {
            apply_load_performance(&mut performance, load);
        },
        None => {
            performance.records_loaded = loaded.len();
        },
    }
    if plan.metadata_page {
        let execution = page_from_records(&compiled, loaded);
        performance.candidates = execution.total_count;
        performance.results = execution.records.len();
        return (Ok(execution), performance);
    }
    if let Some(diagnostic) = &stages.context_fault {
        let mut list: Vec<Diagnostic> = Vec::new();
        list.push(diagnostic.copy());
        proof {
            assert(diagnostic_models(list@) =~= seq![diagnostic@]);
        }
        return (Err(list), performance);
    }
    performance.context_record_loads = stages.context_record_loads;
    performance.total_source_loads = performance.record_source_loads.saturating_add(
        performance.context_record_loads,
    );
    let selection = select_candidates(&stages.candidates, &compiled.types);
    let mut directions: Vec<HostedOrderDirection> = Vec::new();
    let mut i: usize = 0;
    while i < compiled.terms.len()
        invariant
            i <= compiled.terms@.len(),
            directions@.len() == i,
            forall|k: int|
                0 <= k < i ==> (#[trigger] directions@[k]) == compiled.terms@[k].direction,
        decreases compiled.terms@.len() - i,
    {
        directions.push(compiled.terms[i].direction);
        i = i + 1;
    }
    proof {
        assert(directions@ =~= directions_of(compiled.terms@));
    }
    let ordered = sort_candidates(&stages.candidates, &selection.positions, &directions);
    let mut diagnostics = selection.diagnostics;
    append_diagnostics(&mut diagnostics, &stages.group_diagnostics);
    let result = finish_execution(
        &stages.candidates,
        &ordered,
        compiled.offset,
        compiled.limit,
        &compiled.context,
        stages.groups,
        diagnostics,
    );
    proof {
        assert(is_evaluated_page_in(result, compiled, stages, ordered@));
    }
    performance.candidates = result.total_count;
    performance.results = result.records.len();
    (Ok(result), performance)
}

} // verus!
