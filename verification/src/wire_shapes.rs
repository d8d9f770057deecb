//! The portable results that come back from their typed form as they were.

use crate::canonical_operation::{
    array_member, batch_item_json, batch_item_of, batch_json, batch_of, batch_operation_json,
    batch_operation_of, delete_json, delete_of, is_empty_object, query_json, query_meta, query_of,
    recovered, rename_json, rename_of, setup_json, setup_of, type_pack_json, type_pack_of, wire_of,
    BatchOperationModel, OutcomeModel, SetupModel,
};
use crate::diagnostics::{DiagnosticModel, OperationModel};
use crate::json::{
    ascending, lemma_lookup_without_member, lemma_put, lemma_put_keeps_order, lemma_same_members,
    lemma_without_absent, lemma_without_keeps_order, lookup, member_of, text_models, unsigned_model,
    without_member, JsonModel,
};
use crate::operation_values::{
    all_portable, all_typed, diagnostic_json, diagnostic_of, diagnostics_json, file_json, file_of,
    portable, record_members, record_of, type_key, typed, OperationKind,
};
use vstd::prelude::*;

verus! {

/// Whether an object has no members but those with these keys.
pub open spec fn only_keys(
    members: Seq<(Seq<char>, JsonModel)>,
    keys: Set<Seq<char>>,
) -> bool {
    forall|key: Seq<char>| #[trigger] lookup(members, key) is Some ==> keys.contains(key)
}

/// Whether a value is an object in ascending key order with no members but those
/// with these keys.
pub open spec fn is_object_of(value: JsonModel, keys: Set<Seq<char>>) -> bool {
    value is Object && ascending(value->Object_0) && only_keys(value->Object_0, keys)
}

/// The keys of a file's facts.
pub open spec fn file_keys() -> Set<Seq<char>> {
    set!["name"@, "folder"@, "size"@, "mtime"@]
}

/// The keys of a record.
pub open spec fn record_keys() -> Set<Seq<char>> {
    set![
        "path"@,
        "revision"@,
        "types"@,
        "frontmatter"@,
        "effective_frontmatter"@,
        "body"@,
        "document"@,
        "file"@,
    ]
}

/// The keys of a diagnostic.
pub open spec fn diagnostic_keys() -> Set<Seq<char>> {
    set![
        "severity"@,
        "code"@,
        "message"@,
        "path"@,
        "field"@,
        type_key(),
        "schema_location"@,
        "details"@,
    ]
}

/// Whether a severity is one of those that diagnostics have.
pub open spec fn is_severity(name: Seq<char>) -> bool {
    name == "error"@ || name == "warning"@ || name == "info"@
}

/// Whether a member is left out rather than null.
pub open spec fn is_not_null(value: JsonModel, key: Seq<char>) -> bool {
    member_of(value, key) != Some(JsonModel::Null)
}

pub open spec fn has_record_parts(value: JsonModel) -> bool {
    is_not_null(value, "document"@) && member_of(value, "file"@) is Some && is_object_of(
        member_of(value, "file"@)->0,
        file_keys(),
    )
}

/// The shape in which a record is written.
pub open spec fn record_shape(value: JsonModel) -> bool {
    is_object_of(value, record_keys()) && has_record_parts(value)
}

/// The shape in which a diagnostic is written.
pub open spec fn diagnostic_shape(value: JsonModel) -> bool {
    &&& is_object_of(value, diagnostic_keys())
    &&& is_not_null(value, "path"@)
    &&& is_not_null(value, "field"@)
    &&& is_not_null(value, type_key())
    &&& is_not_null(value, "schema_location"@)
    &&& is_not_null(value, "details"@)
    &&& diagnostic_of(value) is Some ==> is_severity(diagnostic_of(value)->0.severity)
}

pub open spec fn diagnostics_shape(value: Option<JsonModel>) -> bool {
    value is Some && value->0 is Array && forall|i: int|
        0 <= i < value->0->Array_0.len() ==> diagnostic_shape(#[trigger] value->0->Array_0[i])
}

/// The shape in which a delete is written.
pub open spec fn delete_shape(value: JsonModel) -> bool {
    if member_of(value, "would_delete"@) is Some {
        is_object_of(value, set!["path"@, "would_delete"@, "broken_links"@])
    } else {
        is_object_of(value, set!["path"@, "deleted"@])
    }
}

/// Whether a list is left out rather than empty.
pub open spec fn is_not_empty(value: JsonModel, key: Seq<char>) -> bool {
    match member_of(value, key) {
        Some(JsonModel::Array(items)) => items.len() > 0,
        _ => true,
    }
}

/// The shape in which a rename is written.
pub open spec fn rename_shape(value: JsonModel) -> bool {
    if member_of(value, "would_rename"@) is Some {
        &&& is_object_of(
            value,
            set![
                "from"@,
                "to"@,
                "dry_run"@,
                "would_rename"@,
                "references_affected"@,
                "partial_updates"@,
            ],
        )
        &&& is_not_empty(value, "references_affected"@)
        &&& is_not_null(value, "partial_updates"@)
    } else {
        &&& is_object_of(
            value,
            record_keys().union(set!["from"@, "to"@, "references_updated"@, "partial_updates"@]),
        )
        &&& has_record_parts(value)
        &&& is_not_empty(value, "references_updated"@)
        &&& is_not_null(value, "partial_updates"@)
    }
}

/// The shape in which the result of one operation of a batch is written.
pub open spec fn batch_operation_shape(value: JsonModel) -> bool {
    match batch_operation_of(value) {
        BatchOperationModel::Record(_) => record_shape(value),
        BatchOperationModel::Delete(_) => delete_shape(value),
        BatchOperationModel::Rename(_) => rename_shape(value),
        BatchOperationModel::Other(_) => true,
    }
}

/// The shape in which one operation of a batch is written.
pub open spec fn batch_item_shape(value: JsonModel) -> bool {
    &&& is_object_of(value, set!["index"@, "kind"@, "valid"@, "result"@, "diagnostics"@])
    &&& member_of(value, "result"@) is Some ==> batch_operation_shape(
        member_of(value, "result"@)->0,
    )
    &&& diagnostics_shape(member_of(value, "diagnostics"@))
}

/// The shape in which a batch is written.
pub open spec fn batch_shape(value: JsonModel) -> bool {
    &&& is_object_of(
        value,
        set!["operations"@, "succeeded"@, "failed"@, "preflight"@, "dry_run"@],
    )
    &&& match array_member(value, "operations"@) {
        Some(items) => forall|i: int|
            0 <= i < items.len() ==> batch_item_shape(#[trigger] items[i]),
        None => true,
    }
}

/// The shape in which a query is written: its metadata says whether there is more,
/// and has the total or says why it was deferred.
pub open spec fn query_shape(value: JsonModel) -> bool {
    &&& is_object_of(value, set!["results"@, "meta"@, "diagnostics"@])
    &&& diagnostics_shape(member_of(value, "diagnostics"@))
    &&& member_of(value, "meta"@) matches Some(JsonModel::Object(meta))
    &&& ascending(meta)
    &&& lookup(meta, "has_more"@) matches Some(JsonModel::Bool(_))
    &&& unsigned_model(lookup(meta, "total_count"@)) is Some || (lookup(meta, "total_count"@)
        is None && lookup(meta, "total_count_outcome"@) is Some)
}

/// The shape in which a collection setup is written.
pub open spec fn setup_shape(value: JsonModel) -> bool {
    match setup_of(value) {
        Some(SetupModel::Applied { .. }) => is_object_of(value, set!["assessment"@, "receipt"@]),
        Some(SetupModel::Conflict { .. }) => is_object_of(
            value,
            set!["assessment"@, "conflicts"@],
        ),
        _ => true,
    }
}

/// The shape in which the result of an operation is written. An empty object stands
/// for none.
pub open spec fn result_shape(kind: OperationKind, value: JsonModel) -> bool {
    if is_empty_object(value) {
        true
    } else {
        match kind {
            OperationKind::Read | OperationKind::Create | OperationKind::Update => record_shape(
                value,
            ),
            OperationKind::Query => query_shape(value),
            OperationKind::Delete => delete_shape(value),
            OperationKind::Rename => rename_shape(value),
            OperationKind::Batch => batch_shape(value),
            OperationKind::AssessTypePack | OperationKind::ApplyTypePack => value is Object
                && ascending(value->Object_0),
            OperationKind::AssessCollectionSetup
            | OperationKind::ApplyCollectionSetup => setup_shape(value),
            _ => true,
        }
    }
}

/// The shape in which a portable result is written.
pub open spec fn wire_shape(kind: OperationKind, wire: OperationModel) -> bool {
    result_shape(kind, wire.result) && forall|i: int|
        0 <= i < wire.diagnostics.len() ==> is_severity((#[trigger] wire.diagnostics[i]).severity)
}

proof fn lemma_nothing_is_ascending()
    ensures
        ascending(Seq::<(Seq<char>, JsonModel)>::empty()),
{
}

proof fn lemma_file(value: JsonModel)
    requires
        is_object_of(value, file_keys()),
        file_of(value) is Some,
    ensures
        file_json(file_of(value)->0) == value,
{
    broadcast use {lemma_put, lemma_put_keeps_order};

    reveal_strlit("name");
    reveal_strlit("folder");
    reveal_strlit("size");
    reveal_strlit("mtime");
    assert("name"@.len() == 4 && "folder"@.len() == 6 && "size"@.len() == 4 && "mtime"@.len() == 5);
    assert("name"@[0] != "size"@[0]);
    lemma_nothing_is_ascending();
    let members = value->Object_0;
    let written = file_json(file_of(value)->0)->Object_0;
    assert(ascending(written));
    assert forall|key: Seq<char>| #[trigger] lookup(written, key) == lookup(members, key) by {}
    lemma_same_members(written, members);
}

/// The members of a record as they were read.
proof fn lemma_record_parts(value: JsonModel)
    requires
        record_of(value) is Some,
        value is Object,
        has_record_parts(value),
    ensures
        ascending(record_members(record_of(value)->0)),
        forall|key: Seq<char>| #[trigger]
            lookup(record_members(record_of(value)->0), key) == if record_keys().contains(key) {
                lookup(value->Object_0, key)
            } else {
                None
            },
{
    broadcast use {lemma_put, lemma_put_keeps_order};

    reveal_strlit("path");
    reveal_strlit("revision");
    reveal_strlit("types");
    reveal_strlit("frontmatter");
    reveal_strlit("effective_frontmatter");
    reveal_strlit("body");
    reveal_strlit("document");
    reveal_strlit("file");
    assert("path"@.len() == 4 && "revision"@.len() == 8 && "types"@.len() == 5
        && "frontmatter"@.len() == 11);
    assert("effective_frontmatter"@.len() == 21 && "body"@.len() == 4 && "document"@.len() == 8
        && "file"@.len() == 4);
    assert("path"@[0] == 'p' && "body"@[0] == 'b' && "file"@[0] == 'f');
    assert("revision"@[0] == 'r' && "document"@[0] == 'd');
    lemma_nothing_is_ascending();
    let record = record_of(value)->0;
    let members = value->Object_0;
    lemma_file(lookup(members, "file"@)->0);
    assert(lookup(members, "types"@) == Some(JsonModel::Array(text_models(record.types)))) by {
        let items = lookup(members, "types"@)->0->Array_0;
        assert(text_models(record.types) =~= items);
    }
    let written = record_members(record);
    assert(ascending(written));
    assert forall|key: Seq<char>| #[trigger] lookup(written, key) == if record_keys().contains(
        key,
    ) {
        lookup(members, key)
    } else {
        None
    } by {}
}

proof fn lemma_record(value: JsonModel)
    requires
        record_shape(value),
        record_of(value) is Some,
    ensures
        JsonModel::Object(record_members(record_of(value)->0)) == value,
{
    lemma_record_parts(value);
    let written = record_members(record_of(value)->0);
    let members = value->Object_0;
    assert forall|key: Seq<char>| #[trigger] lookup(written, key) == lookup(members, key) by {}
    lemma_same_members(written, members);
}

proof fn lemma_diagnostic(value: JsonModel)
    requires
        diagnostic_shape(value),
        diagnostic_of(value) is Some,
    ensures
        diagnostic_json(portable(typed(diagnostic_of(value)->0))) == value,
{
    broadcast use {lemma_put, lemma_put_keeps_order};

    lemma_severity(diagnostic_of(value)->0);
    reveal_strlit("severity");
    reveal_strlit("code");
    reveal_strlit("message");
    reveal_strlit("path");
    reveal_strlit("field");
    reveal_strlit("type");
    reveal_strlit("_name");
    reveal_strlit("schema_location");
    reveal_strlit("details");
    assert("severity"@.len() == 8 && "code"@.len() == 4 && "message"@.len() == 7 && "path"@.len()
        == 4 && "field"@.len() == 5);
    assert(type_key().len() == 9 && "schema_location"@.len() == 15 && "details"@.len() == 7);
    assert("code"@[0] != "path"@[0] && "message"@[0] != "details"@[0]);
    lemma_nothing_is_ascending();
    let members = value->Object_0;
    let written = diagnostic_json(diagnostic_of(value)->0)->Object_0;
    assert(ascending(written));
    assert forall|key: Seq<char>| #[trigger] lookup(written, key) == lookup(members, key) by {}
    lemma_same_members(written, members);
}

/// A diagnostic of a known severity comes back from its typed form as it was.
proof fn lemma_severity(diagnostic: DiagnosticModel)
    requires
        is_severity(diagnostic.severity),
    ensures
        portable(typed(diagnostic)) == diagnostic,
{
    reveal_strlit("error");
    reveal_strlit("warning");
    reveal_strlit("info");
    assert("error"@.len() == 5 && "warning"@.len() == 7 && "info"@.len() == 4);
}

proof fn lemma_diagnostics(value: JsonModel)
    requires
        diagnostics_shape(Some(value)),
        crate::operation_values::diagnostics_of(value) is Some,
    ensures
        diagnostics_json(
            all_portable(all_typed(crate::operation_values::diagnostics_of(value)->0)),
        ) == value,
{
    let items = value->Array_0;
    let list = crate::operation_values::diagnostics_of(value)->0;
    let written = diagnostics_json(all_portable(all_typed(list)))->Array_0;
    assert forall|i: int| 0 <= i < items.len() implies #[trigger] written[i] == items[i] by {
        assert(diagnostic_shape(items[i]));
        lemma_diagnostic(items[i]);
    }
    assert(written =~= items);
}

proof fn lemma_delete(value: JsonModel)
    requires
        delete_shape(value),
        delete_of(value) is Some,
    ensures
        delete_json(delete_of(value)->0) == value,
{
    broadcast use {lemma_put, lemma_put_keeps_order};

    reveal_strlit("path");
    reveal_strlit("deleted");
    reveal_strlit("would_delete");
    reveal_strlit("broken_links");
    assert("path"@.len() == 4 && "deleted"@.len() == 7 && "would_delete"@.len() == 12
        && "broken_links"@.len() == 12);
    assert("would_delete"@[0] != "broken_links"@[0]);
    lemma_nothing_is_ascending();
    let members = value->Object_0;
    let written = delete_json(delete_of(value)->0)->Object_0;
    assert(ascending(written));
    assert forall|key: Seq<char>| #[trigger] lookup(written, key) == lookup(members, key) by {}
    lemma_same_members(written, members);
}

proof fn lemma_rename(value: JsonModel)
    requires
        rename_shape(value),
        rename_of(value) is Some,
    ensures
        rename_json(rename_of(value)->0) == value,
{
    broadcast use {lemma_put, lemma_put_keeps_order};

    reveal_strlit("from");
    reveal_strlit("to");
    reveal_strlit("partial_updates");
    assert("from"@.len() == 4 && "to"@.len() == 2 && "partial_updates"@.len() == 15);
    lemma_nothing_is_ascending();
    let members = value->Object_0;
    let written = rename_json(rename_of(value)->0)->Object_0;
    if member_of(value, "would_rename"@) is Some {
        reveal_strlit("dry_run");
        reveal_strlit("would_rename");
        reveal_strlit("references_affected");
        assert("dry_run"@.len() == 7 && "would_rename"@.len() == 12
            && "references_affected"@.len() == 19);
        assert(ascending(written));
        assert forall|key: Seq<char>| #[trigger] lookup(written, key) == lookup(members, key) by {}
    } else {
        reveal_strlit("references_updated");
        reveal_strlit("path");
        reveal_strlit("revision");
        reveal_strlit("types");
        reveal_strlit("frontmatter");
        reveal_strlit("effective_frontmatter");
        reveal_strlit("body");
        reveal_strlit("document");
        reveal_strlit("file");
        assert("path"@.len() == 4 && "revision"@.len() == 8 && "types"@.len() == 5
            && "frontmatter"@.len() == 11);
        assert("effective_frontmatter"@.len() == 21 && "body"@.len() == 4 && "document"@.len() == 8
            && "file"@.len() == 4);
        assert("references_updated"@.len() == 18);
        assert("path"@[0] == 'p' && "body"@[0] == 'b' && "file"@[1] == 'i' && "from"@[1] == 'r'
            && "from"@[0] == 'f');
        lemma_record_parts(value);
        assert(ascending(written));
        assert forall|key: Seq<char>| #[trigger] lookup(written, key) == lookup(members, key) by {}
    }
    lemma_same_members(written, members);
}

proof fn lemma_batch_operation(value: JsonModel)
    requires
        batch_operation_shape(value),
    ensures
        batch_operation_json(batch_operation_of(value)) == value,
{
    match batch_operation_of(value) {
        BatchOperationModel::Record(_) => {
            lemma_record(value);
        },
        BatchOperationModel::Delete(_) => {
            lemma_delete(value);
        },
        BatchOperationModel::Rename(_) => {
            lemma_rename(value);
        },
        BatchOperationModel::Other(_) => {},
    }
}

proof fn lemma_batch_item(value: JsonModel)
    requires
        batch_item_shape(value),
        batch_item_of(value) is Some,
    ensures
        batch_item_json(batch_item_of(value)->0) == value,
{
    broadcast use {lemma_put, lemma_put_keeps_order};

    reveal_strlit("index");
    reveal_strlit("kind");
    reveal_strlit("valid");
    reveal_strlit("result");
    reveal_strlit("diagnostics");
    assert("index"@.len() == 5 && "kind"@.len() == 4 && "valid"@.len() == 5 && "result"@.len() == 6
        && "diagnostics"@.len() == 11);
    assert("index"@[0] != "valid"@[0]);
    lemma_nothing_is_ascending();
    let members = value->Object_0;
    lemma_batch_operation(lookup(members, "result"@)->0);
    lemma_diagnostics(lookup(members, "diagnostics"@)->0);
    let written = batch_item_json(batch_item_of(value)->0)->Object_0;
    assert(ascending(written));
    assert forall|key: Seq<char>| #[trigger] lookup(written, key) == lookup(members, key) by {}
    lemma_same_members(written, members);
}

proof fn lemma_batch(value: JsonModel)
    requires
        batch_shape(value),
        batch_of(value) is Some,
    ensures
        batch_json(batch_of(value)->0) == value,
{
    broadcast use {lemma_put, lemma_put_keeps_order};

    reveal_strlit("operations");
    reveal_strlit("succeeded");
    reveal_strlit("failed");
    reveal_strlit("preflight");
    reveal_strlit("dry_run");
    assert("operations"@.len() == 10 && "succeeded"@.len() == 9 && "failed"@.len() == 6
        && "preflight"@.len() == 9 && "dry_run"@.len() == 7);
    assert("succeeded"@[0] != "preflight"@[0]);
    lemma_nothing_is_ascending();
    let members = value->Object_0;
    let items = array_member(value, "operations"@)->0;
    let batch = batch_of(value)->0;
    let list = crate::canonical_operation::batch_items_json(batch.operations)->Array_0;
    assert forall|i: int| 0 <= i < items.len() implies #[trigger] list[i] == items[i] by {
        assert(batch_item_shape(items[i]));
        lemma_batch_item(items[i]);
    }
    assert(list =~= items);
    let written = batch_json(batch)->Object_0;
    assert(ascending(written));
    assert forall|key: Seq<char>| #[trigger] lookup(written, key) == lookup(members, key) by {}
    lemma_same_members(written, members);
}

proof fn lemma_query(value: JsonModel)
    requires
        query_shape(value),
        query_of(value) is Some,
    ensures
        query_json(query_of(value)->0) == value,
{
    broadcast use {lemma_put, lemma_put_keeps_order};

    reveal_strlit("results");
    reveal_strlit("meta");
    reveal_strlit("diagnostics");
    reveal_strlit("total_count");
    reveal_strlit("has_more");
    assert("results"@.len() == 7 && "meta"@.len() == 4 && "diagnostics"@.len() == 11);
    assert("total_count"@.len() == 11 && "has_more"@.len() == 8);
    lemma_nothing_is_ascending();
    let members = value->Object_0;
    let query = query_of(value)->0;
    let meta = lookup(members, "meta"@)->0->Object_0;
    lemma_diagnostics(lookup(members, "diagnostics"@)->0);
    if query.total_count is None {
        lemma_without_absent(meta, "total_count"@);
    }
    let written_meta = query_meta(query);
    assert(ascending(written_meta));
    assert forall|key: Seq<char>| #[trigger] lookup(written_meta, key) == lookup(meta, key) by {}
    lemma_same_members(written_meta, meta);
    let written = query_json(query)->Object_0;
    assert(ascending(written));
    assert forall|key: Seq<char>| #[trigger] lookup(written, key) == lookup(members, key) by {}
    lemma_same_members(written, members);
}

proof fn lemma_type_pack(value: JsonModel)
    requires
        value is Object,
        ascending(value->Object_0),
        type_pack_of(value) is Some,
    ensures
        type_pack_json(type_pack_of(value)->0) == value,
{
    broadcast use {lemma_put, lemma_put_keeps_order};

    reveal_strlit("applicable");
    reveal_strlit("assessment_digest");
    assert("applicable"@.len() == 10 && "assessment_digest"@.len() == 17);
    let members = value->Object_0;
    let pack = type_pack_of(value)->0;
    let first = without_member(members, "assessment_digest"@);
    lemma_without_keeps_order(members, "assessment_digest"@);
    lemma_without_keeps_order(first, "applicable"@);
    let written = type_pack_json(pack)->Object_0;
    assert(ascending(written));
    assert forall|key: Seq<char>| #[trigger] lookup(written, key) == lookup(members, key) by {
        lemma_lookup_without_member(members, "assessment_digest"@, key);
        lemma_lookup_without_member(first, "applicable"@, key);
    }
    lemma_same_members(written, members);
}

proof fn lemma_setup(value: JsonModel)
    requires
        setup_shape(value),
        setup_of(value) is Some,
    ensures
        setup_json(setup_of(value)->0) == value,
{
    broadcast use {lemma_put, lemma_put_keeps_order};

    reveal_strlit("assessment");
    reveal_strlit("receipt");
    reveal_strlit("conflicts");
    assert("assessment"@.len() == 10 && "receipt"@.len() == 7 && "conflicts"@.len() == 9);
    lemma_nothing_is_ascending();
    match setup_of(value)->0 {
        SetupModel::Assessment(_) => {},
        _ => {
            let members = value->Object_0;
            let written = setup_json(setup_of(value)->0)->Object_0;
            assert(ascending(written));
            assert forall|key: Seq<char>| #[trigger] lookup(written, key) == lookup(
                members,
                key,
            ) by {}
            lemma_same_members(written, members);
        },
    }
}

/// A portable result comes back from its typed form as it was: its validity, its
/// result, and its diagnostics. It has to be written as results are: members in
/// ascending key order, none that its operation does not know, none that is null or
/// empty where it would be left out, and severities that diagnostics have.
pub proof fn lemma_portable_results_come_back(
    kind: OperationKind,
    wire: OperationModel,
    outcome: OutcomeModel,
)
    requires
        wire_shape(kind, wire),
        recovered(kind, wire.result) == Some(outcome.value),
        outcome.valid == wire.valid,
        outcome.diagnostics == all_typed(wire.diagnostics),
    ensures
        wire_of(outcome) == wire,
{
    let list = all_portable(outcome.diagnostics);
    assert forall|i: int| 0 <= i < list.len() implies #[trigger] list[i]
        == wire.diagnostics[i] by {
        lemma_severity(wire.diagnostics[i]);
    }
    assert(list =~= wire.diagnostics);
    let result = wire.result;
    if !is_empty_object(result) {
        match kind {
            OperationKind::Read | OperationKind::Create | OperationKind::Update => {
                lemma_record(result);
            },
            OperationKind::Query => {
                lemma_query(result);
            },
            OperationKind::Delete => {
                lemma_delete(result);
            },
            OperationKind::Rename => {
                lemma_rename(result);
            },
            OperationKind::Batch => {
                lemma_batch(result);
            },
            OperationKind::AssessTypePack | OperationKind::ApplyTypePack => {
                lemma_type_pack(result);
            },
            OperationKind::AssessCollectionSetup | OperationKind::ApplyCollectionSetup => {
                lemma_setup(result);
            },
            _ => {},
        }
    }
}

} // verus!
