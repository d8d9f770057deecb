//! What is read from caches and files, and what a catalog makes of its resources.

use crate::cache_source::{
    database_integer, follows_failure, invalid_among, is_cached_record, is_local_record, mtime_text,
    order_clause, order_clauses, page_statement, parsed_among, placeholders, stored_frontmatter,
    stored_size, CacheFailure, CacheRow, LoadStep, LocalRecord,
};
use crate::calendar::{rest_nanoseconds, whole_seconds};
use crate::catalog::{
    are_settings, catalog_fault, classification, first_error, has_hidden_folder, inheritance_code,
    resource_fault, resources_fault, settings_fault, staged_definition, CatalogInput, FolderFacts,
    ParsedDocument, ResolvedTypeResource,
};
use crate::collection::Settings;
use crate::context::{
    charge_violation, first_violation, stop_error, violation, CaptureLimitExceeded,
    CaptureLimitKind, OperationStopReason,
};
use crate::diagnostics::Diagnostic;
use crate::digest::{digest_of, hex, hex_digit};
use crate::engine::SortTerm;
use crate::gate::GateState;
use crate::json::{
    bool_member, lemma_lookup_with_member, lemma_lookup_without_member, member_of, text_member,
    with_member, without_member, JsonModel,
};
use crate::provider_error::ProviderError;
use crate::record_load::{
    classifies, is_stable, InvalidRecordReason, ReadWitness, RecordAnalysis, RecordFileFacts,
    RecordLoadOutcome,
};
use crate::record_path::{record_path_of, RecordPathFacts};
use crate::text::{folder_of, last_at, last_part, lead_of, name_of, texts, trimmed_path};
use vstd::prelude::*;
use vstd::utf8::{encode_utf8, valid_utf8};

verus! {

// ---------------------------------------------------------------------------
// Paths
// ---------------------------------------------------------------------------
/// Whether a text is the name of a file: not empty, without a slash, and neither of the
/// names of a directory itself and its parent.
pub open spec fn is_file_name(name: Seq<char>) -> bool {
    name.len() > 0 && !name.contains('/') && name != seq!['.'] && name != seq!['.', '.']
}

proof fn lemma_last_slash(folder: Seq<char>, name: Seq<char>)
    requires
        !name.contains('/'),
    ensures
        last_at(folder + seq!['/'] + name, '/') == folder.len(),
        last_at(name, '/') == -1,
    decreases name.len(),
{
    let path = folder + seq!['/'] + name;
    if name.len() == 0 {
        assert(path.last() == '/');
    } else {
        let front = name.drop_last();
        assert(name[name.len() - 1] != '/');
        assert(!front.contains('/')) by {
            if front.contains('/') {
                let i = choose|i: int| 0 <= i < front.len() && front[i] == '/';
                assert(name[i] == '/');
            }
        }
        lemma_last_slash(folder, front);
        assert(path.drop_last() =~= folder + seq!['/'] + front);
        assert(path.last() == name.last());
    }
}

/// A file's name and folder: a path that joins a folder and a name by a slash has that
/// name and that folder, and a bare name is its own and lies in no folder.
pub proof fn lemma_names_and_folders(folder: Seq<char>, name: Seq<char>)
    requires
        is_file_name(name),
        folder.len() > 0,
    ensures
        name_of(folder + seq!['/'] + name) == name,
        folder_of(folder + seq!['/'] + name) == trimmed_path(folder),
        name_of(name) == name,
        folder_of(name) == Seq::<char>::empty(),
{
    let path = folder + seq!['/'] + name;
    let last = name.last();
    reveal_strlit("..");
    assert(".."@ =~= seq!['.', '.']);
    lemma_last_slash(folder, name);
    assert(name[name.len() - 1] == last && last != '/');
    assert(path[path.len() - 1] == last);
    assert(path.last() == last);
    if last == '.' {
        if name.len() == 1 {
            assert(name =~= seq!['.']);
        }
        assert(name[name.len() - 2] != '/');
        assert(path[path.len() - 2] == name[name.len() - 2]);
    }
    assert(trimmed_path(path) == path);
    assert(path.skip(folder.len() as int + 1) =~= name);
    assert(last_part(path) == name);
    let start = path.take(folder.len() as int + 1);
    assert(start =~= folder.push('/'));
    assert(start.drop_last() =~= folder);
    assert(trimmed_path(start) == trimmed_path(folder));
    if name[0] == '.' {
        if name.len() == 1 {
            assert(name =~= seq!['.']);
        }
        assert(name[1] != '/');
    }
    assert(name[0] != '/');
    assert(lead_of(name) == 0);
    assert(trimmed_path(name) == name);
    assert(name.skip(0) =~= name);
    assert(name.take(0) =~= Seq::<char>::empty());
}

// ---------------------------------------------------------------------------
// Caches
// ---------------------------------------------------------------------------
/// How often a character stands in a text.
pub open spec fn occurrences(text: Seq<char>, c: char) -> int
    decreases text.len(),
{
    if text.len() == 0 {
        0
    } else {
        occurrences(text.drop_last(), c) + if text.last() == c {
            1int
        } else {
            0
        }
    }
}

proof fn lemma_occurrences_add_up(left: Seq<char>, right: Seq<char>, c: char)
    ensures
        occurrences(left + right, c) == occurrences(left, c) + occurrences(right, c),
    decreases right.len(),
{
    if right.len() == 0 {
        assert(left + right =~= left);
    } else {
        lemma_occurrences_add_up(left, right.drop_last(), c);
        assert((left + right).drop_last() =~= left + right.drop_last());
    }
}

/// A list of placeholders has just as many as are asked for.
pub proof fn lemma_placeholders(count: nat)
    ensures
        occurrences(placeholders(count), '?') == count,
    decreases count,
{
    reveal_strlit("?");
    reveal_strlit(", ?");
    assert("?"@ =~= seq!['?']);
    assert(", ?"@ =~= seq![',', ' ', '?']);
    if count == 1 {
        assert("?"@.drop_last() =~= Seq::<char>::empty());
        assert(occurrences("?"@, '?') == 1) by {
            reveal_with_fuel(occurrences, 2);
        }
    } else if count > 1 {
        lemma_placeholders((count - 1) as nat);
        lemma_occurrences_add_up(placeholders((count - 1) as nat), ", ?"@, '?');
        assert(occurrences(", ?"@, '?') == 1) by {
            reveal_with_fuel(occurrences, 4);
            assert(", ?"@.drop_last() =~= seq![',', ' ']);
            assert(seq![',', ' '].drop_last() =~= seq![',']);
            assert(seq![','].drop_last() =~= Seq::<char>::empty());
        }
    }
}

/// Records can be ordered by a cache exactly where every term is the path, the size, or
/// one of the times of the file.
pub proof fn lemma_orders_of_caches(terms: Seq<SortTerm>)
    ensures
        order_clauses(terms) is Some <==> forall|i: int|
            0 <= i < terms.len() ==> {
                let field = (#[trigger] terms[i]).field@;
                field == "file.path"@ || field == "file.size"@ || field == "file.mtime"@ || field
                    == "file.ctime"@
            },
    decreases terms.len(),
{
    if terms.len() > 0 {
        let front = terms.drop_last();
        lemma_orders_of_caches(front);
        assert(terms[terms.len() - 1] == terms.last());
        if order_clauses(terms) is Some {
            assert forall|i: int| 0 <= i < terms.len() implies {
                let field = (#[trigger] terms[i]).field@;
                field == "file.path"@ || field == "file.size"@ || field == "file.mtime"@ || field
                    == "file.ctime"@
            } by {
                if i < front.len() {
                    assert(front[i] == terms[i]);
                }
            }
        } else if order_clauses(front) is None {
            let i = choose|i: int|
                0 <= i < front.len() && !({
                    let field = (#[trigger] front[i]).field@;
                    field == "file.path"@ || field == "file.size"@ || field == "file.mtime"@
                        || field == "file.ctime"@
                });
            assert(terms[i] == front[i]);
        }
    }
}

/// A clause orders downwards exactly where it is said to, by its last word.
pub proof fn lemma_clauses_say_their_direction(field: Seq<char>, descending: bool)
    requires
        order_clause(field, descending) is Some,
    ensures
        ({
            let clause = order_clause(field, descending)->0;
            let word = if descending {
                "DESC"@
            } else {
                "ASC"@
            };
            &&& clause.len() > word.len()
            &&& clause.skip(clause.len() - word.len()) == word
        }),
{
    let clause = order_clause(field, descending)->0;
    let word = if descending {
        "DESC"@
    } else {
        "ASC"@
    };
    reveal_strlit("f.path ");
    reveal_strlit("f.size ");
    reveal_strlit(", (f.mtime_ns / 1000000000) ");
    reveal_strlit(", (f.ctime_ns / 1000000000) ");
    assert(clause.skip(clause.len() - word.len()) =~= word);
}

/// The clauses of terms stand in the order of the terms, with a comma behind each.
pub proof fn lemma_clauses_stand_in_order(terms: Seq<SortTerm>, term: SortTerm)
    requires
        order_clauses(terms) is Some,
        order_clause(term.field@, !term.ascending) is Some,
    ensures
        order_clauses(terms.push(term)) == Some(
            order_clauses(terms)->0 + order_clause(term.field@, !term.ascending)->0 + ", "@,
        ),
        order_clauses(Seq::<SortTerm>::empty()) == Some(Seq::<char>::empty()),
{
    assert(terms.push(term).drop_last() =~= terms);
}

/// Positions and sizes are kept as they are, as far as a database can hold them.
pub proof fn lemma_database_numbers(value: u64, size: i64)
    ensures
        value <= i64::MAX ==> database_integer(value) == value,
        value > i64::MAX ==> database_integer(value) == i64::MAX,
        size >= 0 ==> stored_size(size) == size,
        mtime_text(size) is None <==> size == 0,
{
}

/// A cached record can be read exactly where its row names no failure. One that can has
/// the frontmatter in effect that was stored, or the frontmatter as written where none
/// was, and its stored types, or those derived for it where none were.
pub proof fn lemma_cached_records(
    record: LocalRecord,
    row: CacheRow,
    types: Vec<String>,
    raw_frontmatter: JsonModel,
    effective_frontmatter: Option<JsonModel>,
    derived_types: Seq<String>,
)
    requires
        is_cached_record(record, row, types, raw_frontmatter, effective_frontmatter, derived_types),
    ensures
        record is Parsed <==> row.failure_reason is None,
        record.path_model() == row.path@,
        match record {
            LocalRecord::Parsed(parsed) => {
                &&& parsed.raw_frontmatter@ == raw_frontmatter
                &&& effective_frontmatter is Some ==> parsed.effective_frontmatter@
                    == effective_frontmatter->0
                &&& effective_frontmatter is None ==> parsed.effective_frontmatter@
                    == raw_frontmatter
                &&& types@.len() > 0 ==> parsed.type_names@ == types@
                &&& types@.len() == 0 ==> parsed.type_names@ == derived_types
                &&& parsed.body@ == row.body@
                &&& row.size >= 0 ==> parsed.file_size == row.size
            },
            LocalRecord::Invalid(stub) => {
                &&& stub.reason@ == (row.failure_reason->0)@
                &&& stub.source_revision@ == row.source_revision@
                &&& stub.type_names@ == types@
            },
        },
{
}

/// A record that was loaded is the same record in memory; its body is there exactly where
/// bodies are wanted.
pub proof fn lemma_loaded_records(
    record: LocalRecord,
    outcome: RecordLoadOutcome,
    include_bodies: bool,
)
    requires
        is_local_record(record, outcome, include_bodies),
    ensures
        record is Parsed <==> outcome is Parsed,
        record.path_model() == outcome.path_model(),
        record.types_model() == outcome.types_model()@,
        match record {
            LocalRecord::Parsed(parsed) => {
                &&& include_bodies ==> parsed.body@ == (outcome.layout_model()->0).body@
                &&& !include_bodies ==> parsed.body@.len() == 0
                &&& parsed.effective_frontmatter@ == outcome.effective_model()->0
                &&& parsed.file_size == outcome.facts_model().size
            },
            LocalRecord::Invalid(stub) => stub.source_revision@
                == outcome.facts_model().revision@,
        },
{
}

/// A cache that fails is passed over only where the files may be read instead and the
/// failure is the cache's own; a cancellation or a failure of the provider ends the load.
pub proof fn lemma_failing_caches(step: LoadStep, failure: CacheFailure, refresh: bool)
    requires
        follows_failure(step, failure, refresh),
    ensures
        step is ReadDisk <==> failure is Other && refresh,
        step is ReadDisk ==> step->fallback,
        !(step is ReadDisk) ==> step is Fail,
        failure is Cancelled <==> step is Fail && step->Fail_0 is Cancelled,
        failure is Provider <==> step is Fail && step->Fail_0 is Provider,
{
}

/// Records are either parsed or not: each is in one of the two lists, in order.
pub proof fn lemma_parted_records(records: Seq<LocalRecord>, record: LocalRecord)
    ensures
        parsed_among(records).len() + invalid_among(records).len() == records.len(),
        match record {
            LocalRecord::Parsed(parsed) => parsed_among(records.push(record)) == parsed_among(
                records,
            ).push(parsed) && invalid_among(records.push(record)) == invalid_among(records),
            LocalRecord::Invalid(stub) => parsed_among(records.push(record)) == parsed_among(
                records,
            ) && invalid_among(records.push(record)) == invalid_among(records).push(stub),
        },
    decreases records.len(),
{
    assert(records.push(record).drop_last() =~= records);
    if records.len() > 0 {
        lemma_parted_records(records.drop_last(), record);
    }
}

/// Stored frontmatter can be read exactly where all of it can.
pub proof fn lemma_stored_frontmatter(raw: Seq<char>, effective: Option<Seq<char>>)
    ensures
        match stored_frontmatter(raw, effective) {
            Some((value, found)) => crate::canonical::parsed_json(raw) == Some(value) && (
            effective is None <==> found is None) && (effective is Some
                ==> crate::canonical::parsed_json(effective->0) == found),
            None => crate::canonical::parsed_json(raw) is None || (effective is Some
                && crate::canonical::parsed_json(effective->0) is None),
        },
{
}

// ---------------------------------------------------------------------------
// Budgets and waits
// ---------------------------------------------------------------------------
/// A limit is broken exactly where more is attempted than it allows; a charge breaks one
/// exactly where what was charged and the charge together do. What was broken first stays
/// recorded.
pub proof fn lemma_limits(
    kind: CaptureLimitKind,
    maximum: u64,
    current: u64,
    amount: u64,
    recorded: Option<CaptureLimitExceeded>,
    result: Result<(), CaptureLimitExceeded>,
)
    ensures
        violation(kind, maximum, amount) is Some <==> amount > maximum,
        violation(kind, maximum, amount) is Some ==> violation(kind, maximum, amount)->0.attempted
            == amount && violation(kind, maximum, amount)->0.limit == maximum && violation(
            kind,
            maximum,
            amount,
        )->0.kind == kind,
        charge_violation(kind, maximum, current, amount) is Some <==> current + amount > maximum,
        recorded is Some ==> first_violation(recorded, result) == recorded,
        recorded is None && result is Err ==> first_violation(recorded, result) == Some(
            result->Err_0,
        ),
        recorded is None && result is Ok ==> first_violation(recorded, result) is None,
{
}

/// An operation goes on exactly where there is no reason to stop, and says which there is.
pub proof fn lemma_stops(reason: Option<OperationStopReason>)
    ensures
        stop_error(reason) is Ok <==> reason is None,
        reason == Some(OperationStopReason::Cancelled) <==> stop_error(reason) == Err::<(), _>(
            ProviderError::OperationCancelled,
        ),
        reason == Some(OperationStopReason::Deadline) <==> stop_error(reason) == Err::<(), _>(
            ProviderError::OperationDeadline,
        ),
{
}

/// Readers enter where no writer is inside or waits, writers where nobody is inside; each
/// is counted in and out.
pub proof fn lemma_readers_and_writers(state: GateState)
    ensures
        state.admits_reader() <==> !state.writer_active && state.waiting_writers == 0,
        state.admits_writer() <==> !state.writer_active && state.active_readers == 0,
        state.active_readers < u64::MAX ==> state.with_reader().active_readers
            == state.active_readers + 1 && state.with_reader().writer_active
            == state.writer_active,
        state.active_readers > 0 ==> state.without_reader().active_readers == state.active_readers
            - 1,
        state.with_writer().writer_active,
        !state.without_writer().writer_active,
        state.waiting_writers > 0 ==> state.with_writer().waiting_writers == state.waiting_writers
            - 1,
{
}

// ---------------------------------------------------------------------------
// Files
// ---------------------------------------------------------------------------
/// A record can be parsed exactly where its bytes are text and its frontmatter is a
/// mapping or is not there; else the reason is that its bytes are no text, its frontmatter
/// does not parse, or is something else than a mapping.
pub proof fn lemma_loaded_bytes(
    outcome: RecordLoadOutcome,
    path: Seq<char>,
    bytes: Seq<u8>,
    facts: RecordFileFacts,
    analysis: RecordAnalysis,
)
    requires
        classifies(outcome, path, bytes, facts, analysis),
    ensures
        outcome is Parsed <==> valid_utf8(bytes) && (analysis.layout.frontmatter is Absent
            || analysis.layout.frontmatter is Mapping),
        outcome.reason_model() == Some(InvalidRecordReason::InvalidUtf8) <==> !valid_utf8(bytes),
        outcome.reason_model() == Some(InvalidRecordReason::InvalidYaml) <==> valid_utf8(bytes)
            && analysis.layout.frontmatter is InvalidYaml,
        match outcome.document_model() {
            Some(document) => encode_utf8(document) == bytes,
            None => !valid_utf8(bytes),
        },
        outcome is Parsed && analysis.layout.frontmatter is Mapping ==> outcome->raw_frontmatter@
            == analysis.layout.frontmatter->Mapping_0@,
        outcome is Parsed && analysis.layout.frontmatter is Absent ==> outcome->raw_frontmatter@
            == JsonModel::Object(Seq::empty()),
        outcome is Parsed ==> outcome.effective_model() == Some(analysis.effective_frontmatter@),
        outcome is Parsed ==> outcome.types_model() == analysis.types,
        outcome is Invalid ==> outcome.types_model() == analysis.path_types,
        outcome.path_model() == path,
{
}

/// A file was read in one piece only where neither its size nor its time changed and as
/// many bytes as its size came.
pub proof fn lemma_stable_reads(witness: ReadWitness, bytes: Seq<u8>)
    ensures
        is_stable(witness, bytes) ==> bytes.len() == witness.size_before && bytes.len()
            == witness.size_after,
        witness.modified_before_ns != witness.modified_after_ns ==> !is_stable(witness, bytes),
        witness.size_before != witness.size_after ==> !is_stable(witness, bytes),
        witness.size_before == witness.size_after && witness.modified_before_ns
            == witness.modified_after_ns && bytes.len() == witness.size_after ==> is_stable(
            witness,
            bytes,
        ),
{
}

// ---------------------------------------------------------------------------
// Catalogs
// ---------------------------------------------------------------------------
/// The first error among diagnostics is the first one of that severity.
pub proof fn lemma_first_errors(list: Seq<Diagnostic>)
    ensures
        first_error(list) is None <==> forall|i: int|
            0 <= i < list.len() ==> (#[trigger] list[i]).severity@ != "error"@,
        match first_error(list) {
            Some(fault) => exists|i: int|
                0 <= i < list.len() && (#[trigger] list[i]).severity@ == "error"@ && list[i].code@
                    == fault.code && list[i].message@ == fault.message,
            None => true,
        },
    decreases list.len(),
{
    if list.len() > 0 {
        let rest = list.drop_first();
        lemma_first_errors(rest);
        if list[0].severity@ == "error"@ {
            assert(list[0].code@ == first_error(list)->0.code);
        } else if first_error(rest) is None {
            assert forall|i: int| 0 <= i < list.len() implies (#[trigger] list[i]).severity@
                != "error"@ by {
                if i > 0 {
                    assert(rest[i - 1] == list[i]);
                }
            }
        } else {
            let fault = first_error(rest)->0;
            let i = choose|i: int|
                0 <= i < rest.len() && (#[trigger] rest[i]).severity@ == "error"@ && rest[i].code@
                    == fault.code && rest[i].message@ == fault.message;
            assert(list[i + 1] == rest[i]);
        }
    }
}

/// A type resource is accepted exactly where its definition and its schema are objects and
/// nothing reported of it is an error; a list of them exactly where each is.
pub proof fn lemma_accepted_resources(resources: Seq<ResolvedTypeResource>)
    ensures
        resources_fault(resources) is None <==> forall|i: int|
            0 <= i < resources.len() ==> resource_fault(#[trigger] resources[i]) is None,
        forall|resource: ResolvedTypeResource| #[trigger]
            resource_fault(resource) is None <==> resource.definition@ is Object
                && resource.schema@ is Object && first_error(resource.diagnostics@) is None,
    decreases resources.len(),
{
    if resources.len() > 0 {
        let rest = resources.drop_first();
        lemma_accepted_resources(rest);
        if resources_fault(resources) is None {
            assert forall|i: int| 0 <= i < resources.len() implies resource_fault(
                #[trigger] resources[i],
            ) is None by {
                if i > 0 {
                    assert(rest[i - 1] == resources[i]);
                }
            }
        } else if resource_fault(resources[0]) is None {
            let i = choose|i: int|
                0 <= i < rest.len() && resource_fault(#[trigger] rest[i]) is Some;
            assert(resources[i + 1] == rest[i]);
        }
    }
}

/// A catalog can be compiled exactly where its configuration is valid and of the supported
/// profile, its folders can be used, its resources are accepted, and its types could be
/// loaded without fault.
pub proof fn lemma_compiled_catalogs(input: CatalogInput)
    ensures
        catalog_fault(input) is None <==> {
            let config = member_of(input.configuration@, "config"@);
            &&& bool_member(input.configuration@, "valid"@) == Some(true)
            &&& config is Some
            &&& text_member(config->0, "spec_profile"@) == Some("v0.3"@)
            &&& settings_fault(config->0, input.folders) is None
            &&& resources_fault(input.types@) is None
            &&& input.loaded is Ok
            &&& (input.loaded->Ok_0).inheritance_fault is None
            &&& (input.loaded->Ok_0).plan_fault is None
            &&& (input.loaded->Ok_0).contract_fault is None
        },
{
}

/// The folders of a catalog can be used exactly where all four are portable and, but for
/// that of the cache, none is hidden.
pub proof fn lemma_usable_folders(config: JsonModel, folders: FolderFacts)
    ensures
        settings_fault(config, folders) is None <==> {
            &&& member_of(config, "settings"@) is Some
            &&& member_of(config, "settings"@)->0 is Object
            &&& folders.types_folder is Ok && !has_hidden_folder((folders.types_folder->Ok_0)@)
            &&& folders.contracts_folder is Ok && !has_hidden_folder(
                (folders.contracts_folder->Ok_0)@,
            )
            &&& folders.migrations_folder is Ok && !has_hidden_folder(
                (folders.migrations_folder->Ok_0)@,
            )
            &&& folders.cache_folder is Ok
        },
{
}

/// Settings are taken as they are written; what is not written has its default.
pub proof fn lemma_settings(settings: Settings, config: JsonModel, folders: FolderFacts)
    requires
        are_settings(settings, config, folders),
    ensures
        ({
            let source = member_of(config, "settings"@)->0;
            &&& text_member(source, "id_field"@) is Some ==> settings.id_field@ == text_member(
                source,
                "id_field"@,
            )->0
            &&& text_member(source, "id_field"@) is None ==> settings.id_field@ == "id"@
            &&& bool_member(source, "rename_update_refs"@) is Some ==> settings.rename_update_refs
                == bool_member(source, "rename_update_refs"@)->0
            &&& bool_member(source, "rename_update_refs"@) is None ==> settings.rename_update_refs
            &&& bool_member(source, "include_subfolders"@) is Some ==> settings.include_subfolders
                == bool_member(source, "include_subfolders"@)->0
            &&& bool_member(source, "include_subfolders"@) is None ==> settings.include_subfolders
            &&& text_member(source, "default_validation"@) is None ==> settings.default_validation@
                == "warn"@
            &&& text_member(source, "default_validation"@) is Some ==> settings.default_validation@
                == text_member(source, "default_validation"@)->0
            &&& bool_member(source, "write_empty_lists"@) == Some(false)
                <==> !settings.write_empty_lists
        }),
{
}

/// Inheritance that goes in a circle, and a parent that is not known, are told apart from
/// other faults.
pub proof fn lemma_inheritance_codes(before: Seq<char>, after: Seq<char>)
    ensures
        inheritance_code(before + "Circular"@ + after) == "circular_inheritance"@,
        ({
            let message = before + "Unknown type"@ + after;
            !crate::text::has_part(message, "Circular"@) ==> inheritance_code(message)
                == "missing_parent_type"@
        }),
{
    crate::value_laws::lemma_parts_of_texts(before + "Circular"@ + after, "Circular"@);
    crate::value_laws::lemma_parts_of_texts(before + "Unknown type"@ + after, "Unknown type"@);
    lemma_within(before, "Circular"@, after);
    lemma_within(before, "Unknown type"@, after);
}

proof fn lemma_within(before: Seq<char>, part: Seq<char>, after: Seq<char>)
    ensures
        crate::value_laws::is_within(part, before + part + after),
{
    reveal(crate::value_laws::is_within);
    let whole = before + part + after;
    assert(whole.subrange(before.len() as int, (before.len() + part.len()) as int) =~= part);
    assert(before + part + after == whole);
}

/// The staged definition of a type holds its resolved schema in place of the reference to
/// it, and all else as it was.
pub proof fn lemma_staged_definitions(definition: JsonModel, schema: JsonModel, key: Seq<char>)
    requires
        member_of(definition, "schema"@) is Some,
        member_of(definition, "schema"@)->0 is Object,
    ensures
        ({
            let staged = staged_definition(definition, schema);
            let inner = member_of(staged, "schema"@);
            &&& inner is Some
            &&& member_of(inner->0, "value"@) == Some(schema)
            &&& member_of(inner->0, "$ref"@) is None
            &&& key != "schema"@ ==> member_of(staged, key) == member_of(definition, key)
        }),
{
    reveal_strlit("value");
    reveal_strlit("$ref");
    assert("value"@.len() == 5 && "$ref"@.len() == 4);
    let members = (member_of(definition, "schema"@)->0)->Object_0;
    let inner = with_member(without_member(members, "$ref"@), "value"@, schema);
    lemma_lookup_without_member(members, "$ref"@, "$ref"@);
    lemma_lookup_with_member(without_member(members, "$ref"@), "value"@, schema, "value"@);
    lemma_lookup_with_member(without_member(members, "$ref"@), "value"@, schema, "$ref"@);
    let outer = definition->Object_0;
    lemma_lookup_with_member(outer, "schema"@, JsonModel::Object(inner), "schema"@);
    lemma_lookup_with_member(outer, "schema"@, JsonModel::Object(inner), key);
}

/// A document is classified under its record's path, by the digest of its bytes, and with
/// what was parsed of it; documents with the same bytes have the same revision.
pub proof fn lemma_classified_documents(
    document: Seq<char>,
    path: RecordPathFacts,
    parsed: ParsedDocument,
)
    ensures
        classification(document, path, parsed) is Ok <==> record_path_of(path) is Ok,
        match classification(document, path, parsed) {
            Ok(record) => {
                &&& record.path == record_path_of(path)->Ok_0
                &&& record.revision == digest_of(encode_utf8(document))
                &&& record.document == document
                &&& record.frontmatter == parsed.frontmatter@
                &&& record.body == parsed.body@
                &&& record.types == texts(parsed.types@)
            },
            Err(fault) => fault.code == "invalid_path"@,
        },
{
}

// ---------------------------------------------------------------------------
// Digests and times
// ---------------------------------------------------------------------------
/// The value of a hexadecimal digit.
pub open spec fn hex_value(c: char) -> int {
    if '0' <= c <= '9' {
        c as int - '0' as int
    } else {
        c as int - 'a' as int + 10
    }
}

/// Each byte is written as two hexadecimal digits, the higher one first: bytes with the
/// same digits are the same.
pub proof fn lemma_hexadecimal_digits(bytes: Seq<u8>, i: int)
    requires
        0 <= i < bytes.len(),
    ensures
        hex(bytes).len() == 2 * bytes.len(),
        16 * hex_value(hex(bytes)[2 * i]) + hex_value(hex(bytes)[2 * i + 1]) == bytes[i],
{
    let byte = bytes[i];
    assert(hex(bytes)[2 * i] == hex_digit((byte / 16) as int)) by {
        assert((2 * i) % 2 == 0 && (2 * i) / 2 == i);
    }
    assert(hex(bytes)[2 * i + 1] == hex_digit((byte % 16) as int)) by {
        assert((2 * i + 1) % 2 == 1 && (2 * i + 1) / 2 == i);
    }
    lemma_hex_value((byte / 16) as int);
    lemma_hex_value((byte % 16) as int);
}

proof fn lemma_hex_value(value: int)
    requires
        0 <= value < 16,
    ensures
        hex_value(hex_digit(value)) == value,
{
}

/// A moment after the epoch is its whole seconds and the nanoseconds that are left.
pub proof fn lemma_moments(nanoseconds: int)
    requires
        nanoseconds >= 0,
    ensures
        whole_seconds(nanoseconds) * 1_000_000_000 + rest_nanoseconds(nanoseconds) == nanoseconds,
        0 <= rest_nanoseconds(nanoseconds) < 1_000_000_000,
{
}

/// A page is read by the terms in their order and then by ascending path, up to a limit and
/// from an offset that are both given with it.
pub proof fn lemma_pages_of_caches(types: nat, clauses: Seq<char>)
    ensures
        ({
            let statement = page_statement(types, clauses);
            let end = " ORDER BY "@ + clauses + "f.path ASC LIMIT ? OFFSET ?"@;
            &&& statement.len() >= end.len()
            &&& statement.skip(statement.len() - end.len()) == end
        }),
{
    let statement = page_statement(types, clauses);
    let end = " ORDER BY "@ + clauses + "f.path ASC LIMIT ? OFFSET ?"@;
    assert(statement.skip(statement.len() - end.len()) =~= end);
}

} // verus!
