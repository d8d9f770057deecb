//! The derived cache as a source of records: page statements, row decoding, and
//! the choice between cache and disk.

use crate::calendar::{iso_text, ns_to_iso};
use crate::engine::{FileRecord, SortTerm};
use crate::canonical::{parse_json, parsed_json};
use crate::hosted_links::{file_models, FileModel, LinkedFile};
use crate::json::{Json, JsonModel};
use crate::record_load::RecordLoadOutcome;
use crate::text::{ascii_lower, copy_texts, optional_text, same_text, texts, to_ascii_lower};
use vstd::prelude::*;
use vstd::string::StringExecFns;

verus! {

/// A malformed record: what is known of its file, and why it is malformed. It
/// has neither frontmatter nor body.
#[derive(Debug)]
pub struct InvalidRecordStub {
    pub rel_path: String,
    pub type_names: Vec<String>,
    pub file_size: u64,
    pub file_mtime_iso: Option<String>,
    pub file_ctime_iso: Option<String>,
    pub source_revision: String,
    pub reason: String,
}

/// A record of the local collection, parsed or malformed.
#[derive(Debug)]
pub enum LocalRecord {
    Parsed(FileRecord),
    Invalid(InvalidRecordStub),
}

impl LocalRecord {
    pub open spec fn path_model(&self) -> Seq<char> {
        match self {
            LocalRecord::Parsed(record) => record.rel_path@,
            LocalRecord::Invalid(stub) => stub.rel_path@,
        }
    }

    pub open spec fn types_model(&self) -> Seq<String> {
        match self {
            LocalRecord::Parsed(record) => record.type_names@,
            LocalRecord::Invalid(stub) => stub.type_names@,
        }
    }

    pub fn path(&self) -> (result: &str)
        ensures
            result@ == self.path_model(),
    {
        match self {
            LocalRecord::Parsed(record) => record.rel_path.as_str(),
            LocalRecord::Invalid(stub) => stub.rel_path.as_str(),
        }
    }

    pub fn types(&self) -> (result: &Vec<String>)
        ensures
            result@ == self.types_model(),
    {
        match self {
            LocalRecord::Parsed(record) => &record.type_names,
            LocalRecord::Invalid(stub) => &stub.type_names,
        }
    }
}

// ---------------------------------------------------------------------------
// Page statements
// ---------------------------------------------------------------------------
/// The statements and parameters that fetch one page of record metadata.
#[derive(Debug)]
pub struct MetadataPagePlan {
    pub count_statement: String,
    pub page_statement: String,
    pub types: Vec<String>,
    pub limit: i64,
    pub offset: i64,
}

/// The keyword of a direction.
pub open spec fn direction_word(descending: bool) -> Seq<char> {
    if descending {
        "DESC"@
    } else {
        "ASC"@
    }
}

/// The ordering clause of a field, where the database orders exactly by it.
pub open spec fn order_clause(field: Seq<char>, descending: bool) -> Option<Seq<char>> {
    let word = direction_word(descending);
    if field == "file.path"@ {
        Some("f.path "@ + word)
    } else if field == "file.size"@ {
        Some("f.size "@ + word)
    } else if field == "file.mtime"@ {
        Some("(f.mtime_ns = 0) "@ + word + ", (f.mtime_ns / 1000000000) "@ + word)
    } else if field == "file.ctime"@ {
        Some("(f.ctime_ns IS NULL) "@ + word + ", (f.ctime_ns / 1000000000) "@ + word)
    } else {
        None
    }
}

/// The ordering clauses of several terms, each followed by a comma.
pub open spec fn order_clauses(terms: Seq<SortTerm>) -> Option<Seq<char>>
    decreases terms.len(),
{
    if terms.len() == 0 {
        Some(Seq::empty())
    } else {
        match order_clauses(terms.drop_last()) {
            None => None,
            Some(rest) => match order_clause(terms.last().field@, !terms.last().ascending) {
                None => None,
                Some(clause) => Some(rest + clause + ", "@),
            },
        }
    }
}

proof fn lemma_order_clauses_none(terms: Seq<SortTerm>, count: int)
    requires
        0 <= count <= terms.len(),
        order_clauses(terms.take(count)) is None,
    ensures
        order_clauses(terms) is None,
    decreases terms.len(),
{
    if count < terms.len() {
        assert(terms.drop_last().take(count) =~= terms.take(count));
        lemma_order_clauses_none(terms.drop_last(), count);
    } else {
        assert(terms.take(count) =~= terms);
    }
}

fn build_order_clause(field: &str, descending: bool) -> (result: Option<String>)
    ensures
        match result {
            Some(clause) => order_clause(field@, descending) == Some(clause@),
            None => order_clause(field@, descending) is None,
        },
{
    let word = if descending {
        "DESC"
    } else {
        "ASC"
    };
    if same_text(field, "file.path") {
        Some("f.path ".to_owned().concat(word))
    } else if same_text(field, "file.size") {
        Some("f.size ".to_owned().concat(word))
    } else if same_text(field, "file.mtime") {
        Some(
            "(f.mtime_ns = 0) ".to_owned().concat(word).concat(
                ", (f.mtime_ns / 1000000000) ",
            ).concat(word),
        )
    } else if same_text(field, "file.ctime") {
        Some(
            "(f.ctime_ns IS NULL) ".to_owned().concat(word).concat(
                ", (f.ctime_ns / 1000000000) ",
            ).concat(word),
        )
    } else {
        None
    }
}

fn build_order_clauses(terms: &Vec<SortTerm>) -> (result: Option<String>)
    ensures
        match result {
            Some(clauses) => order_clauses(terms@) == Some(clauses@),
            None => order_clauses(terms@) is None,
        },
{
    let mut clauses = String::new();
    let mut i: usize = 0;
    while i < terms.len()
        invariant
            i <= terms@.len(),
            order_clauses(terms@.take(i as int)) == Some(clauses@),
        decreases terms@.len() - i,
    {
        proof {
            assert(terms@.take(i + 1).drop_last() =~= terms@.take(i as int));
            assert(terms@.take(i + 1).last() == terms@[i as int]);
        }
        match build_order_clause(terms[i].field.as_str(), !terms[i].ascending) {
            Some(clause) => {
                clauses = clauses.concat(clause.as_str()).concat(", ");
            },
            None => {
                proof {
                    lemma_order_clauses_none(terms@, i + 1);
                }
                return None;
            },
        }
        i = i + 1;
    }
    proof {
        assert(terms@.take(i as int) =~= terms@);
    }
    Some(clauses)
}

/// A number of placeholders, separated by commas.
pub open spec fn placeholders(count: nat) -> Seq<char>
    decreases count,
{
    if count == 0 {
        Seq::empty()
    } else if count == 1 {
        "?"@
    } else {
        placeholders((count - 1) as nat) + ", ?"@
    }
}

/// The condition that a record has one of a number of types.
pub open spec fn type_condition(count: nat) -> Seq<char> {
    if count == 0 {
        Seq::empty()
    } else {
        " AND EXISTS (SELECT 1 FROM file_types ft WHERE ft.path = f.path AND lower(ft.type"@
            + "_name) IN ("@ + placeholders(count) + "))"@
    }
}

fn build_type_condition(count: usize) -> (result: String)
    ensures
        result@ == type_condition(count as nat),
{
    if count == 0 {
        return String::new();
    }
    let mut list = "?".to_owned();
    let mut i: usize = 1;
    while i < count
        invariant
            1 <= i <= count,
            list@ == placeholders(i as nat),
        decreases count - i,
    {
        list = list.concat(", ?");
        i = i + 1;
    }
    " AND EXISTS (SELECT 1 FROM file_types ft WHERE ft.path = f.path AND lower(ft.type".to_owned().concat(
        "_name) IN (",
    ).concat(list.as_str()).concat("))")
}

/// The statement that counts the records of a number of types.
pub open spec fn count_statement(types: nat) -> Seq<char> {
    "SELECT COUNT(*) FROM files f WHERE 1 = 1"@ + type_condition(types)
}

/// The statement that fetches a page of records in order.
pub open spec fn page_statement(types: nat, clauses: Seq<char>) -> Seq<char> {
    "SELECT f.path, f.frontmatter_json, f.body, f.size, f.mtime_ns, f.ctime_ns, f.source_revision, f.failure_reason FROM files f WHERE 1 = 1"@
        + type_condition(types) + " ORDER BY "@ + clauses + "f.path ASC LIMIT ? OFFSET ?"@
}

/// An unsigned number as a database integer, at most the largest.
pub open spec fn database_integer(value: u64) -> int {
    if value <= i64::MAX {
        value as int
    } else {
        i64::MAX as int
    }
}

fn to_database_integer(value: u64) -> (result: i64)
    ensures
        result == database_integer(value),
{
    if value <= i64::MAX as u64 {
        value as i64
    } else {
        i64::MAX
    }
}

/// The texts with ASCII letters in lower case.
pub open spec fn all_ascii_lower(values: Seq<Seq<char>>) -> Seq<Seq<char>> {
    Seq::new(values.len(), |i: int| ascii_lower(values[i]))
}

pub fn lower_ascii_all(values: &Vec<String>) -> (result: Vec<String>)
    ensures
        texts(result@) == all_ascii_lower(texts(values@)),
{
    let mut result: Vec<String> = Vec::new();
    let mut i: usize = 0;
    while i < values.len()
        invariant
            i <= values@.len(),
            result@.len() == i,
            forall|k: int| 0 <= k < i ==> (#[trigger] result@[k])@ == ascii_lower(values@[k]@),
        decreases values@.len() - i,
    {
        result.push(to_ascii_lower(values[i].as_str()));
        i = i + 1;
    }
    proof {
        assert(texts(result@) =~= all_ascii_lower(texts(values@)));
    }
    result
}

/// Plans a page that the database can order and cut exactly. There is no plan
/// where an ordering field is not one of its columns. Without a limit the
/// parameter is -1.
pub fn plan_metadata_page(
    types: &Vec<String>,
    order_by: &Vec<SortTerm>,
    offset: u64,
    limit: Option<u64>,
) -> (result: Option<MetadataPagePlan>)
    ensures
        match result {
            Some(plan) => {
                &&& order_clauses(order_by@) is Some
                &&& plan.count_statement@ == count_statement(types@.len())
                &&& plan.page_statement@ == page_statement(
                    types@.len(),
                    order_clauses(order_by@)->0,
                )
                &&& texts(plan.types@) == all_ascii_lower(texts(types@))
                &&& plan.offset == database_integer(offset)
                &&& plan.limit == match limit {
                    Some(limit) => database_integer(limit),
                    None => -1,
                }
            },
            None => order_clauses(order_by@) is None,
        },
{
    match build_order_clauses(order_by) {
        None => None,
        Some(clauses) => {
            let condition = build_type_condition(types.len());
            let count_statement = "SELECT COUNT(*) FROM files f WHERE 1 = 1".to_owned().concat(
                condition.as_str(),
            );
            let page_statement =
                "SELECT f.path, f.frontmatter_json, f.body, f.size, f.mtime_ns, f.ctime_ns, f.source_revision, f.failure_reason FROM files f WHERE 1 = 1".to_owned().concat(
            condition.as_str()).concat(" ORDER BY ").concat(clauses.as_str()).concat(
                "f.path ASC LIMIT ? OFFSET ?",
            );
            Some(
                MetadataPagePlan {
                    count_statement,
                    page_statement,
                    types: lower_ascii_all(types),
                    limit: match limit {
                        Some(limit) => to_database_integer(limit),
                        None => -1,
                    },
                    offset: to_database_integer(offset),
                },
            )
        },
    }
}

// ---------------------------------------------------------------------------
// Rows
// ---------------------------------------------------------------------------
/// One row of the cache's record table, without its JSON columns.
#[derive(Debug)]
pub struct CacheRow {
    pub path: String,
    pub body: String,
    pub size: i64,
    pub mtime_ns: i64,
    pub ctime_ns: Option<i64>,
    pub source_revision: String,
    pub failure_reason: Option<String>,
}

/// A stored size as an unsigned number; a negative one wraps round.
pub open spec fn stored_size(size: i64) -> int {
    if size >= 0 {
        size as int
    } else {
        size + 0x1_0000_0000_0000_0000
    }
}

fn to_stored_size(size: i64) -> (result: u64)
    ensures
        result == stored_size(size),
{
    if size >= 0 {
        size as u64
    } else {
        (size as i128 + 0x1_0000_0000_0000_0000i128) as u64
    }
}

/// A modification time in ISO 8601 notation; none for zero.
pub open spec fn mtime_text(nanoseconds: i64) -> Option<Seq<char>> {
    if nanoseconds != 0 {
        Some(iso_text(nanoseconds))
    } else {
        None
    }
}

/// A creation time in ISO 8601 notation, where there is one.
pub open spec fn ctime_text(nanoseconds: Option<i64>) -> Option<Seq<char>> {
    match nanoseconds {
        Some(nanoseconds) => Some(iso_text(nanoseconds)),
        None => None,
    }
}

pub fn mtime_iso(nanoseconds: i64) -> (result: Option<String>)
    ensures
        optional_text(result) == mtime_text(nanoseconds),
{
    if nanoseconds != 0 {
        Some(ns_to_iso(nanoseconds))
    } else {
        None
    }
}

pub fn ctime_iso(nanoseconds: Option<i64>) -> (result: Option<String>)
    ensures
        optional_text(result) == ctime_text(nanoseconds),
{
    match nanoseconds {
        Some(nanoseconds) => Some(ns_to_iso(nanoseconds)),
        None => None,
    }
}

/// Whether this is the record of a cache row, given its types and its frontmatter.
pub open spec fn is_cached_record(
    record: LocalRecord,
    row: CacheRow,
    types: Vec<String>,
    raw_frontmatter: JsonModel,
    effective_frontmatter: Option<JsonModel>,
    derived_types: Seq<String>,
) -> bool {
    match record {
        LocalRecord::Invalid(stub) => {
            &&& row.failure_reason is Some
            &&& stub.rel_path == row.path
            &&& stub.type_names == types
            &&& stub.file_size == stored_size(row.size)
            &&& optional_text(stub.file_mtime_iso) == mtime_text(row.mtime_ns)
            &&& optional_text(stub.file_ctime_iso) == ctime_text(row.ctime_ns)
            &&& stub.source_revision == row.source_revision
            &&& stub.reason == row.failure_reason->0
        },
        LocalRecord::Parsed(parsed) => {
            &&& row.failure_reason is None
            &&& parsed.rel_path == row.path
            &&& parsed.raw_frontmatter@ == raw_frontmatter
            &&& parsed.effective_frontmatter@ == match effective_frontmatter {
                Some(value) => value,
                None => raw_frontmatter,
            }
            &&& parsed.body == row.body
            &&& parsed.type_names@ == if types@.len() == 0 {
                derived_types
            } else {
                types@
            }
            &&& parsed.file_size == stored_size(row.size)
            &&& optional_text(parsed.file_mtime_iso) == mtime_text(row.mtime_ns)
            &&& optional_text(parsed.file_ctime_iso) == ctime_text(row.ctime_ns)
        },
    }
}

/// The record of a cache row: malformed where the row has a failure reason,
/// parsed otherwise, with the effective frontmatter as written where the row
/// stores none, and with the derived types where the cache lists none.
pub fn cached_record(
    row: CacheRow,
    types: Vec<String>,
    raw_frontmatter: Json,
    effective_frontmatter: Option<Json>,
    derived_types: &Vec<String>,
) -> (result: LocalRecord)
    ensures
        is_cached_record(
            result,
            row,
            types,
            raw_frontmatter@,
            crate::diagnostics::optional_json(effective_frontmatter),
            derived_types@,
        ),
{
    let file_mtime_iso = mtime_iso(row.mtime_ns);
    let file_ctime_iso = ctime_iso(row.ctime_ns);
    let file_size = to_stored_size(row.size);
    match row.failure_reason {
        Some(reason) => LocalRecord::Invalid(
            InvalidRecordStub {
                rel_path: row.path,
                type_names: types,
                file_size,
                file_mtime_iso,
                file_ctime_iso,
                source_revision: row.source_revision,
                reason,
            },
        ),
        None => {
            let effective_frontmatter = match effective_frontmatter {
                Some(value) => value,
                None => raw_frontmatter.copy(),
            };
            let type_names = if types.len() == 0 {
                copy_texts(derived_types)
            } else {
                types
            };
            LocalRecord::Parsed(
                FileRecord {
                    rel_path: row.path,
                    raw_frontmatter,
                    effective_frontmatter,
                    body: row.body,
                    type_names,
                    file_size,
                    file_mtime_iso,
                    file_ctime_iso,
                },
            )
        },
    }
}

/// The stored frontmatter of a row: the value of its text, and that of the text with
/// defaults applied, where it stores one; nothing where a text does not parse.
pub open spec fn stored_frontmatter(raw: Seq<char>, effective: Option<Seq<char>>) -> Option<
    (JsonModel, Option<JsonModel>),
> {
    match (parsed_json(raw), effective) {
        (None, _) => None,
        (Some(value), None) => Some((value, None)),
        (Some(value), Some(text)) => match parsed_json(text) {
            Some(parsed) => Some((value, Some(parsed))),
            None => None,
        },
    }
}

/// The record of a cache row and the texts of its JSON columns. There is none where
/// a text that is needed does not parse; a malformed record needs none.
pub fn cached_row(
    row: CacheRow,
    frontmatter_json: &str,
    effective_json: Option<&str>,
    types: Vec<String>,
    derived: &Vec<String>,
) -> (result: Option<LocalRecord>)
    ensures
        if row.failure_reason is Some {
            result is Some && is_cached_record(
                result->0,
                row,
                types,
                JsonModel::Null,
                None,
                derived@,
            )
        } else {
            match stored_frontmatter(
                frontmatter_json@,
                match effective_json {
                    Some(text) => Some(text@),
                    None => None,
                },
            ) {
                Some((raw, effective)) => result is Some && is_cached_record(
                    result->0,
                    row,
                    types,
                    raw,
                    effective,
                    derived@,
                ),
                None => result is None,
            }
        },
{
    if row.failure_reason.is_some() {
        return Some(cached_record(row, types, Json::Null, None, derived));
    }
    let raw = match parse_json(frontmatter_json) {
        Some(raw) => raw,
        None => {
            return None;
        },
    };
    let effective = match effective_json {
        Some(text) => match parse_json(text) {
            Some(effective) => Some(effective),
            None => {
                return None;
            },
        },
        None => None,
    };
    Some(cached_record(row, types, raw, effective, derived))
}

/// The frontmatter that a row stores, by which its types are derived.
pub fn row_frontmatter(row: &CacheRow, frontmatter_json: &str) -> (result: Option<Json>)
    ensures
        match result {
            Some(value) => row.failure_reason is None && parsed_json(frontmatter_json@) == Some(
                value@,
            ),
            None => row.failure_reason is Some || parsed_json(frontmatter_json@) is None,
        },
{
    if row.failure_reason.is_some() {
        None
    } else {
        parse_json(frontmatter_json)
    }
}

/// Whether a local record is what loading a file gave.
pub open spec fn is_local_record(
    record: LocalRecord,
    outcome: RecordLoadOutcome,
    include_bodies: bool,
) -> bool {
    match (record, outcome) {
        (
            LocalRecord::Parsed(record),
            RecordLoadOutcome::Parsed {
                path,
                facts,
                document,
                layout,
                raw_frontmatter,
                effective_frontmatter,
                type_names,
            },
        ) => {
            &&& record.rel_path == path
            &&& record.raw_frontmatter == raw_frontmatter
            &&& record.effective_frontmatter == effective_frontmatter
            &&& record.body@ == if include_bodies {
                layout.body@
            } else {
                Seq::empty()
            }
            &&& record.type_names == type_names
            &&& record.file_size == facts.size
            &&& optional_text(record.file_mtime_iso) == mtime_text(facts.mtime_ns)
            &&& optional_text(record.file_ctime_iso) == ctime_text(facts.ctime_ns)
        },
        (
            LocalRecord::Invalid(stub),
            RecordLoadOutcome::Invalid { path, facts, type_names, state },
        ) => {
            &&& stub.rel_path == path
            &&& stub.type_names == type_names
            &&& stub.file_size == facts.size
            &&& optional_text(stub.file_mtime_iso) == mtime_text(facts.mtime_ns)
            &&& optional_text(stub.file_ctime_iso) == ctime_text(facts.ctime_ns)
            &&& stub.source_revision == facts.revision
            &&& stub.reason@ == state.cause().name()
        },
        _ => false,
    }
}

/// The local record of a loaded file, with its body where it is wanted.
pub fn local_record(outcome: RecordLoadOutcome, include_bodies: bool) -> (result: LocalRecord)
    ensures
        is_local_record(result, outcome, include_bodies),
{
    match outcome {
        RecordLoadOutcome::Parsed {
            path,
            facts,
            document: _,
            layout,
            raw_frontmatter,
            effective_frontmatter,
            type_names,
        } => LocalRecord::Parsed(
            FileRecord {
                rel_path: path,
                raw_frontmatter,
                effective_frontmatter,
                body: if include_bodies {
                    layout.body
                } else {
                    String::new()
                },
                type_names,
                file_size: facts.size,
                file_mtime_iso: mtime_iso(facts.mtime_ns),
                file_ctime_iso: ctime_iso(facts.ctime_ns),
            },
        ),
        RecordLoadOutcome::Invalid { path, facts, type_names, state } => LocalRecord::Invalid(
            InvalidRecordStub {
                rel_path: path,
                type_names,
                file_size: facts.size,
                file_mtime_iso: mtime_iso(facts.mtime_ns),
                file_ctime_iso: ctime_iso(facts.ctime_ns),
                source_revision: facts.revision,
                reason: state.reason().as_str().to_owned(),
            },
        ),
    }
}

// ---------------------------------------------------------------------------
// Cache or disk
// ---------------------------------------------------------------------------
/// Why a step of cache work failed.
#[derive(Debug)]
pub enum CacheFailure {
    Cancelled,
    Provider(String),
    Other(String),
}

/// What opening the cache gave.
#[derive(Debug)]
pub enum CacheOpening {
    Opened,
    Missing,
    Failed(CacheFailure),
}

/// Why a snapshot could not be loaded.
#[derive(Debug)]
pub enum SnapshotFailure {
    Cancelled,
    Provider(String),
    Cache(String),
}

/// What to do next when a snapshot is loaded.
#[derive(Debug)]
pub enum LoadStep {
    /// Bring the cache up to date with the files.
    Refresh,
    /// Read the records from the cache.
    ReadCache,
    /// Read the records from the files. The flag tells whether the cache failed.
    ReadDisk { fallback: bool },
    /// Give up.
    Fail(SnapshotFailure),
}

/// The text of a cache failure.
pub open spec fn failure_text(failure: CacheFailure) -> Seq<char> {
    match failure {
        CacheFailure::Cancelled => "cache operation was cancelled"@,
        CacheFailure::Provider(message) => message@,
        CacheFailure::Other(message) => message@,
    }
}

/// Whether a step falls back to the files, or fails where only the cache may be
/// read.
pub open spec fn falls_back(
    step: LoadStep,
    refresh: bool,
    fallback: bool,
    message: Seq<char>,
) -> bool {
    match step {
        LoadStep::ReadDisk { fallback: actual } => refresh && actual == fallback,
        LoadStep::Fail(SnapshotFailure::Cache(text)) => !refresh && text@ == message,
        _ => false,
    }
}

fn fall_back(refresh: bool, fallback: bool, message: String) -> (result: LoadStep)
    ensures
        falls_back(result, refresh, fallback, message@),
{
    if refresh {
        LoadStep::ReadDisk { fallback }
    } else {
        LoadStep::Fail(SnapshotFailure::Cache(message))
    }
}

fn failure_message(failure: CacheFailure) -> (result: String)
    ensures
        result@ == failure_text(failure),
{
    match failure {
        CacheFailure::Cancelled => "cache operation was cancelled".to_owned(),
        CacheFailure::Provider(message) => message,
        CacheFailure::Other(message) => message,
    }
}

/// The step after the cache was opened. `refresh` tells whether the snapshot is
/// to be brought up to date with the files; if not, only the cache may be read.
pub fn after_opening(opening: CacheOpening, refresh: bool) -> (result: LoadStep)
    ensures
        match opening {
            CacheOpening::Opened => if refresh {
                result is Refresh
            } else {
                result is ReadCache
            },
            CacheOpening::Missing => falls_back(
                result,
                refresh,
                false,
                "cache database is missing"@,
            ),
            CacheOpening::Failed(failure) => falls_back(
                result,
                refresh,
                true,
                failure_text(failure),
            ),
        },
{
    match opening {
        CacheOpening::Opened => if refresh {
            LoadStep::Refresh
        } else {
            LoadStep::ReadCache
        },
        CacheOpening::Missing => fall_back(
            refresh,
            false,
            "cache database is missing".to_owned(),
        ),
        CacheOpening::Failed(failure) => fall_back(refresh, true, failure_message(failure)),
    }
}

/// The step that a failure of cache work leads to.
pub open spec fn follows_failure(step: LoadStep, failure: CacheFailure, refresh: bool) -> bool {
    match failure {
        CacheFailure::Cancelled => step == LoadStep::Fail(SnapshotFailure::Cancelled),
        CacheFailure::Provider(message) => step == LoadStep::Fail(
            SnapshotFailure::Provider(message),
        ),
        CacheFailure::Other(message) => falls_back(step, refresh, true, message@),
    }
}

fn after_failure(failure: CacheFailure, refresh: bool) -> (result: LoadStep)
    ensures
        follows_failure(result, failure, refresh),
{
    match failure {
        CacheFailure::Cancelled => LoadStep::Fail(SnapshotFailure::Cancelled),
        CacheFailure::Provider(message) => LoadStep::Fail(SnapshotFailure::Provider(message)),
        CacheFailure::Other(message) => fall_back(refresh, true, message),
    }
}

/// The step after the cache was refreshed. A cancellation counts before the
/// refresh's own result.
pub fn after_refresh(cancelled: bool, result: Result<(), CacheFailure>) -> (step: LoadStep)
    ensures
        if cancelled {
            step == LoadStep::Fail(SnapshotFailure::Cancelled)
        } else {
            match result {
                Ok(_) => step is ReadCache,
                Err(failure) => follows_failure(step, failure, true),
            }
        },
{
    if cancelled {
        return LoadStep::Fail(SnapshotFailure::Cancelled);
    }
    match result {
        Ok(_) => LoadStep::ReadCache,
        Err(failure) => after_failure(failure, true),
    }
}

/// The step after the records could not be read from the cache.
pub fn after_cache_read_failed(failure: CacheFailure, refresh: bool) -> (step: LoadStep)
    ensures
        follows_failure(step, failure, refresh),
{
    after_failure(failure, refresh)
}

/// The parsed records among the records, in order.
pub open spec fn parsed_among(records: Seq<LocalRecord>) -> Seq<FileRecord>
    decreases records.len(),
{
    if records.len() == 0 {
        Seq::empty()
    } else {
        let rest = parsed_among(records.drop_last());
        match records.last() {
            LocalRecord::Parsed(record) => rest.push(record),
            LocalRecord::Invalid(_) => rest,
        }
    }
}

/// The malformed records among the records, in order.
pub open spec fn invalid_among(records: Seq<LocalRecord>) -> Seq<InvalidRecordStub>
    decreases records.len(),
{
    if records.len() == 0 {
        Seq::empty()
    } else {
        let rest = invalid_among(records.drop_last());
        match records.last() {
            LocalRecord::Parsed(_) => rest,
            LocalRecord::Invalid(stub) => rest.push(stub),
        }
    }
}

/// Where the link graph of a snapshot comes from.
#[derive(Clone, Copy, Debug, PartialEq, Eq, Structural)]
pub enum GraphSource {
    /// No link graph is wanted.
    Nowhere,
    /// The cache has it.
    Cache,
    /// It is built from the loaded records.
    Records,
}

/// Where the link graph comes from. The cache is only asked where the records come
/// from it as they are, without a look at the files.
pub fn graph_source(wanted: bool, cache_used: bool, refresh: bool) -> (result: GraphSource)
    ensures
        result == if !wanted {
            GraphSource::Nowhere
        } else if cache_used && !refresh {
            GraphSource::Cache
        } else {
            GraphSource::Records
        },
{
    if !wanted {
        GraphSource::Nowhere
    } else if cache_used && !refresh {
        GraphSource::Cache
    } else {
        GraphSource::Records
    }
}

/// Where the link graph comes from once the cache was asked: a cache that cannot
/// give it leaves it to the records.
pub fn after_graph_read(read: bool) -> (result: GraphSource)
    ensures
        result == if read {
            GraphSource::Cache
        } else {
            GraphSource::Records
        },
{
    if read {
        GraphSource::Cache
    } else {
        GraphSource::Records
    }
}

/// The file that links are followed to in place of a record.
pub open spec fn linked_model(record: FileRecord) -> FileModel {
    FileModel {
        path: record.rel_path@,
        frontmatter: record.effective_frontmatter@,
        body: record.body@,
    }
}

/// The files that links are followed to, where a link graph is wanted.
pub fn linked_files(wanted: bool, records: &Vec<FileRecord>) -> (result: Option<Vec<LinkedFile>>)
    ensures
        match result {
            Some(files) => wanted && file_models(files@) == Seq::new(
                records@.len(),
                |i: int| linked_model(records@[i]),
            ),
            None => !wanted,
        },
{
    if !wanted {
        return None;
    }
    let mut files: Vec<LinkedFile> = Vec::new();
    let mut i: usize = 0;
    while i < records.len()
        invariant
            i <= records@.len(),
            files@.len() == i,
            forall|k: int| 0 <= k < i ==> (#[trigger] files@[k])@ == linked_model(records@[k]),
        decreases records@.len() - i,
    {
        files.push(
            LinkedFile {
                path: records[i].rel_path.clone(),
                frontmatter: records[i].effective_frontmatter.copy(),
                body: records[i].body.clone(),
            },
        );
        i = i + 1;
    }
    proof {
        assert(file_models(files@) =~= Seq::new(records@.len(), |i: int| linked_model(records@[i])));
    }
    Some(files)
}

/// The items from last to first.
pub(crate) fn reversed<T>(items: Vec<T>) -> (result: Vec<T>)
    ensures
        result@ == items@.reverse(),
{
    let ghost all = items@;
    let mut items = items;
    let mut result: Vec<T> = Vec::new();
    while items.len() > 0
        invariant
            items@.len() + result@.len() == all.len(),
            items@ == all.take(items@.len() as int),
            forall|k: int| 0 <= k < result@.len() ==> result@[k] == all[all.len() - 1 - k],
        decreases items@.len(),
    {
        match items.pop() {
            Some(item) => {
                proof {
                    assert(items@ =~= all.take(items@.len() as int));
                }
                result.push(item);
            },
            None => {},
        }
    }
    proof {
        assert(result@ =~= all.reverse());
    }
    result
}

/// Separates parsed from malformed records.
pub fn partition_records(records: Vec<LocalRecord>) -> (result: (
    Vec<FileRecord>,
    Vec<InvalidRecordStub>,
))
    ensures
        result.0@ == parsed_among(records@),
        result.1@ == invalid_among(records@),
        result.0@.len() + result.1@.len() == records@.len(),
{
    let mut remaining = records;
    let mut parsed: Vec<FileRecord> = Vec::new();
    let mut invalid: Vec<InvalidRecordStub> = Vec::new();
    let ghost all = remaining@;
    proof {
        assert(parsed_among(remaining@) + parsed@.reverse() =~= parsed_among(all));
        assert(invalid_among(remaining@) + invalid@.reverse() =~= invalid_among(all));
    }
    while remaining.len() > 0
        invariant
            parsed_among(remaining@) + parsed@.reverse() == parsed_among(all),
            invalid_among(remaining@) + invalid@.reverse() == invalid_among(all),
            parsed@.len() + invalid@.len() + remaining@.len() == all.len(),
        decreases remaining@.len(),
    {
        let ghost before_parsed = parsed@;
        let ghost before_invalid = invalid@;
        let ghost before = remaining@;
        match remaining.pop() {
            Some(LocalRecord::Parsed(record)) => {
                parsed.push(record);
                proof {
                    assert(remaining@ =~= before.drop_last());
                    assert(parsed_among(remaining@) + parsed@.reverse() =~= parsed_among(
                        remaining@,
                    ).push(record) + before_parsed.reverse());
                }
            },
            Some(LocalRecord::Invalid(stub)) => {
                invalid.push(stub);
                proof {
                    assert(remaining@ =~= before.drop_last());
                    assert(invalid_among(remaining@) + invalid@.reverse() =~= invalid_among(
                        remaining@,
                    ).push(stub) + before_invalid.reverse());
                }
            },
            None => {},
        }
    }
    proof {
        assert(parsed_among(remaining@) + parsed@.reverse() =~= parsed@.reverse());
        assert(invalid_among(remaining@) + invalid@.reverse() =~= invalid@.reverse());
    }
    (reversed(parsed), reversed(invalid))
}

} // verus!
