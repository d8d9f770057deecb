//! What operations say on the wire, and what expressions refer to.

use crate::canonical_operation::{
    batch_item_json, batch_json, delete_json, facts_at, has_error, mutation_value, query_json,
    recovered, rename_json, value_json, value_with_facts, wire_of, with_facts, BatchItemModel,
    BatchModel, BatchOperationModel, CommittedFileFacts, DeleteModel, OutcomeModel, QueryValueModel,
    RenameModel, ValueModel,
};
use crate::diagnostics::{error_diagnostic, failed_operation};
use crate::expressions::{
    divides_by_literal_zero, literal_model, literal_zero, path_of, refers_to, uses_link_graph,
    BinOp, Expr, UnaryOp,
};
use crate::json::{lookup, member_of, JsonModel, JsonNumber, NumberModel};
use crate::operation_values::{
    diagnostic_json, record_members, OperationKind, RecordDocumentModel, Severity, TypedModel,
};
use crate::planner::Formulas;
use crate::value_laws::lemma_members;
use vstd::prelude::*;

verus! {

// ---------------------------------------------------------------------------
// The wire
// ---------------------------------------------------------------------------
/// A deletion says its path and whether the record was deleted, or would be.
pub proof fn lemma_deletions_on_the_wire(value: DeleteModel)
    ensures
        match value {
            DeleteModel::Deleted { path, deleted } => {
                &&& member_of(delete_json(value), "path"@) == Some(JsonModel::Text(path))
                &&& member_of(delete_json(value), "deleted"@) == Some(JsonModel::Bool(deleted))
                &&& member_of(delete_json(value), "would_delete"@) is None
            },
            DeleteModel::Preflight { path, would_delete, broken_links } => {
                &&& member_of(delete_json(value), "path"@) == Some(JsonModel::Text(path))
                &&& member_of(delete_json(value), "would_delete"@) == Some(
                    JsonModel::Bool(would_delete),
                )
                &&& member_of(delete_json(value), "broken_links"@) == Some(
                    JsonModel::Array(broken_links),
                )
                &&& member_of(delete_json(value), "deleted"@) is None
            },
        },
{
    lemma_members();
    reveal_strlit("path");
    reveal_strlit("deleted");
    reveal_strlit("would_delete");
    reveal_strlit("broken_links");
    assert("path"@.len() == 4 && "deleted"@.len() == 7 && "would_delete"@.len() == 12
        && "broken_links"@.len() == 12 && "would_delete"@[0] == 'w' && "broken_links"@[0] == 'b');
}

/// A rename says where the record was and where it is.
pub proof fn lemma_renames_on_the_wire(value: RenameModel)
    ensures
        match value {
            RenameModel::Renamed { from, to, document, references_updated, partial_updates } => {
                &&& member_of(rename_json(value), "from"@) == Some(JsonModel::Text(from))
                &&& member_of(rename_json(value), "to"@) == Some(JsonModel::Text(to))
                &&& references_updated.len() > 0 ==> member_of(
                    rename_json(value),
                    "references_updated"@,
                ) == Some(JsonModel::Array(references_updated))
            },
            RenameModel::Preflight {
                from,
                to,
                dry_run,
                would_rename,
                references_affected,
                partial_updates,
            } => {
                &&& member_of(rename_json(value), "from"@) == Some(JsonModel::Text(from))
                &&& member_of(rename_json(value), "to"@) == Some(JsonModel::Text(to))
                &&& member_of(rename_json(value), "would_rename"@) == Some(
                    JsonModel::Bool(would_rename),
                )
                &&& member_of(rename_json(value), "dry_run"@) == Some(JsonModel::Bool(dry_run))
            },
        },
{
    lemma_members();
    reveal_strlit("from");
    reveal_strlit("to");
    reveal_strlit("references_updated");
    reveal_strlit("partial_updates");
    reveal_strlit("would_rename");
    reveal_strlit("dry_run");
    reveal_strlit("references_affected");
    assert("from"@.len() == 4 && "to"@.len() == 2 && "references_updated"@.len() == 18
        && "partial_updates"@.len() == 15 && "would_rename"@.len() == 12 && "dry_run"@.len() == 7
        && "references_affected"@.len() == 19);
}

/// A batch says how many of its items were done and how many failed, and each item its
/// place, its kind, and whether it was done.
pub proof fn lemma_batches_on_the_wire(value: BatchModel, i: int)
    requires
        0 <= i < value.operations.len(),
    ensures
        ({
            let json = batch_json(value);
            let items = member_of(json, "operations"@);
            &&& member_of(json, "succeeded"@) == Some(
                JsonModel::Number(NumberModel::Integer(value.succeeded)),
            )
            &&& member_of(json, "failed"@) == Some(
                JsonModel::Number(NumberModel::Integer(value.failed)),
            )
            &&& member_of(json, "preflight"@) == Some(JsonModel::Bool(value.preflight))
            &&& member_of(json, "dry_run"@) == Some(JsonModel::Bool(value.dry_run))
            &&& items is Some
            &&& items->0 is Array
            &&& (items->0)->Array_0.len() == value.operations.len()
            &&& (items->0)->Array_0[i] == batch_item_json(value.operations[i])
        }),
{
    lemma_members();
    reveal_strlit("operations");
    reveal_strlit("succeeded");
    reveal_strlit("failed");
    reveal_strlit("preflight");
    reveal_strlit("dry_run");
    assert("operations"@.len() == 10 && "succeeded"@.len() == 9 && "failed"@.len() == 6
        && "preflight"@.len() == 9 && "dry_run"@.len() == 7 && "succeeded"@[0] == 's'
        && "preflight"@[0] == 'p');
}

/// An item of a batch on the wire.
pub proof fn lemma_batch_items_on_the_wire(item: BatchItemModel)
    ensures
        ({
            let json = batch_item_json(item);
            &&& member_of(json, "index"@) == Some(
                JsonModel::Number(NumberModel::Integer(item.index)),
            )
            &&& member_of(json, "kind"@) == Some(JsonModel::Text(item.kind))
            &&& member_of(json, "valid"@) == Some(JsonModel::Bool(item.valid))
            &&& member_of(json, "result"@) is Some
            &&& member_of(json, "diagnostics"@) is Some
            &&& member_of(json, "diagnostics"@)->0 is Array
            &&& (member_of(json, "diagnostics"@)->0)->Array_0.len() == item.diagnostics.len()
        }),
{
    lemma_members();
    reveal_strlit("index");
    reveal_strlit("kind");
    reveal_strlit("valid");
    reveal_strlit("result");
    reveal_strlit("diagnostics");
    assert("index"@.len() == 5 && "kind"@.len() == 4 && "valid"@.len() == 5 && "result"@.len() == 6
        && "diagnostics"@.len() == 11 && "index"@[0] == 'i' && "valid"@[0] == 'v');
}

/// A query says its results, and in its metadata whether more follow and how many there
/// are, where that is known.
pub proof fn lemma_queries_on_the_wire(value: QueryValueModel)
    ensures
        ({
            let json = query_json(value);
            let meta = member_of(json, "meta"@);
            &&& member_of(json, "results"@) == Some(JsonModel::Array(value.records))
            &&& meta is Some
            &&& member_of(meta->0, "has_more"@) == Some(JsonModel::Bool(value.has_more))
            &&& value.total_count is Some ==> member_of(meta->0, "total_count"@) == Some(
                JsonModel::Number(NumberModel::Integer(value.total_count->0)),
            )
            &&& value.total_count is None ==> member_of(meta->0, "total_count"@) is None
        }),
{
    lemma_members();
    reveal_strlit("results");
    reveal_strlit("meta");
    reveal_strlit("diagnostics");
    reveal_strlit("has_more");
    reveal_strlit("total_count");
    assert("results"@.len() == 7 && "meta"@.len() == 4 && "diagnostics"@.len() == 11
        && "has_more"@.len() == 8 && "total_count"@.len() == 11 && "diagnostics"@[0] == 'd'
        && "total_count"@[0] == 't');
    let m = match value.meta {
        JsonModel::Object(members) => members,
        _ => Seq::empty(),
    };
    crate::json::lemma_lookup_without_member(m, "total_count"@, "total_count"@);
}

/// A record says its path, revision, frontmatter, body, and whole document where that is
/// asked for.
pub proof fn lemma_records_on_the_wire(record: RecordDocumentModel)
    ensures
        ({
            let m = record_members(record);
            &&& lookup(m, "path"@) == Some(JsonModel::Text(record.path))
            &&& lookup(m, "revision"@) == Some(JsonModel::Text(record.revision))
            &&& lookup(m, "frontmatter"@) == Some(record.frontmatter)
            &&& lookup(m, "effective_frontmatter"@) == Some(record.effective_frontmatter)
            &&& lookup(m, "body"@) == Some(JsonModel::Text(record.body))
            &&& record.document is Some ==> lookup(m, "document"@) == Some(
                JsonModel::Text(record.document->0),
            )
            &&& record.document is None ==> lookup(m, "document"@) is None
            &&& lookup(m, "file"@) is Some
        }),
{
    lemma_members();
    reveal_strlit("path");
    reveal_strlit("revision");
    reveal_strlit("types");
    reveal_strlit("frontmatter");
    reveal_strlit("effective_frontmatter");
    reveal_strlit("body");
    reveal_strlit("document");
    reveal_strlit("file");
    assert("path"@.len() == 4 && "revision"@.len() == 8 && "types"@.len() == 5
        && "frontmatter"@.len() == 11 && "effective_frontmatter"@.len() == 21 && "body"@.len() == 4
        && "document"@.len() == 8 && "file"@.len() == 4);
    assert("path"@[0] == 'p' && "body"@[0] == 'b' && "file"@[0] == 'f' && "revision"@[0] == 'r'
        && "document"@[0] == 'd');
}

/// An outcome keeps its validity and each of its diagnostics on the wire, with severity,
/// code and message.
pub proof fn lemma_outcomes_on_the_wire(outcome: OutcomeModel, i: int)
    requires
        !(outcome.value is LegacyRecoveredV03),
        0 <= i < outcome.diagnostics.len(),
    ensures
        wire_of(outcome).valid == outcome.valid,
        wire_of(outcome).result == value_json(outcome.value),
        wire_of(outcome).diagnostics.len() == outcome.diagnostics.len(),
        ({
            let said = wire_of(outcome).diagnostics[i];
            let json = diagnostic_json(said);
            &&& said.code == outcome.diagnostics[i].code
            &&& said.message == outcome.diagnostics[i].message
            &&& said.path == outcome.diagnostics[i].path
            &&& said.field == outcome.diagnostics[i].field
            &&& outcome.diagnostics[i].severity == Severity::Error <==> said.severity == "error"@
            &&& outcome.diagnostics[i].severity == Severity::Warning <==> said.severity
                == "warning"@
            &&& outcome.diagnostics[i].severity == Severity::Info <==> said.severity == "info"@
            &&& member_of(json, "severity"@) == Some(JsonModel::Text(said.severity))
            &&& member_of(json, "code"@) == Some(JsonModel::Text(said.code))
            &&& member_of(json, "message"@) == Some(JsonModel::Text(said.message))
        }),
{
    lemma_members();
    reveal_strlit("error");
    reveal_strlit("warning");
    reveal_strlit("info");
    assert("error"@.len() == 5 && "warning"@.len() == 7 && "info"@.len() == 4);
    reveal_strlit("severity");
    reveal_strlit("code");
    reveal_strlit("message");
    reveal_strlit("path");
    reveal_strlit("field");
    reveal_strlit("type");
    reveal_strlit("schema_location");
    reveal_strlit("details");
    assert("severity"@.len() == 8 && "code"@.len() == 4 && "message"@.len() == 7 && "path"@.len()
        == 4 && "field"@.len() == 5 && "schema_location"@.len() == 15 && "details"@.len() == 7
        && "code"@[0] == 'c' && "path"@[0] == 'p' && "message"@[0] == 'm' && "details"@[0] == 'd');
    let key = crate::operation_values::type_key();
    lemma_type_key();
    assert(key != "severity"@ && key != "code"@ && key != "message"@);
}

proof fn lemma_type_key()
    ensures
        crate::operation_values::type_key() != "severity"@,
        crate::operation_values::type_key() != "code"@,
        crate::operation_values::type_key() != "message"@,
{
    reveal_strlit("type");
    reveal_strlit("_name");
    reveal_strlit("severity");
    reveal_strlit("code");
    reveal_strlit("message");
    assert("severity"@[0] == 's' && "code"@[0] == 'c' && "message"@[0] == 'm' && "type"@[0] == 't');
    assert(crate::operation_values::type_key()[0] == 't');
}

/// What is recovered from the wire is a value of the operation's own kind.
pub proof fn lemma_recovered_kinds(kind: OperationKind, result: JsonModel)
    requires
        recovered(kind, result) is Some,
    ensures
        kind == OperationKind::Read ==> recovered(kind, result)->0 is Read,
        kind == OperationKind::Create ==> recovered(kind, result)->0 is Create,
        kind == OperationKind::Update ==> recovered(kind, result)->0 is Update,
        kind == OperationKind::Query ==> recovered(kind, result)->0 is Query,
        kind == OperationKind::Delete ==> recovered(kind, result)->0 is Delete,
        kind == OperationKind::Rename ==> recovered(kind, result)->0 is Rename,
        kind == OperationKind::Batch ==> recovered(kind, result)->0 is Batch,
{
}

/// The value of a single mutation is that of its kind, and is there only where the result
/// is of that kind.
pub proof fn lemma_values_of_mutations(kind: OperationKind, result: BatchOperationModel)
    ensures
        match mutation_value(kind, result) {
            Some(ValueModel::Create(value)) => kind == OperationKind::Create && result
                == BatchOperationModel::Record(value->0),
            Some(ValueModel::Update(value)) => kind == OperationKind::Update && result
                == BatchOperationModel::Record(value->0),
            Some(ValueModel::Delete(value)) => kind == OperationKind::Delete && result
                == BatchOperationModel::Delete(value->0),
            Some(ValueModel::Rename(value)) => kind == OperationKind::Rename && result
                == BatchOperationModel::Rename(value->0),
            Some(_) => false,
            None => !(kind == OperationKind::Create && result is Record) && !(kind
                == OperationKind::Update && result is Record) && !(kind == OperationKind::Delete
                && result is Delete) && !(kind == OperationKind::Rename && result is Rename),
        },
{
}

/// The facts of a committed file replace the size and the time of the record at its path,
/// and nothing else.
pub proof fn lemma_committed_facts(
    record: RecordDocumentModel,
    facts: Seq<CommittedFileFacts>,
    i: int,
)
    ensures
        ({
            let after = with_facts(record, facts);
            &&& after.path == record.path
            &&& after.revision == record.revision
            &&& after.frontmatter == record.frontmatter
            &&& after.body == record.body
            &&& after.file.name == record.file.name
            &&& (forall|k: int|
                0 <= k < facts.len() ==> (#[trigger] facts[k]).path@ != record.path) ==> after
                == record
            &&& 0 <= i < facts.len() && facts[i].path@ == record.path && (forall|k: int|
                0 <= k < i ==> (#[trigger] facts[k]).path@ != record.path) ==> after.file.size
                == facts[i].size && after.file.mtime == facts[i].mtime@
        }),
{
    lemma_facts_at(facts, record.path);
    let at = facts_at(facts, record.path);
    if 0 <= i < facts.len() && facts[i].path@ == record.path && (forall|k: int|
        0 <= k < i ==> (#[trigger] facts[k]).path@ != record.path) {
        if at < i {
            assert(facts[at].path@ != record.path);
        } else if i < at {
            assert(facts[i].path@ != record.path);
        }
    }
}

proof fn lemma_facts_at(facts: Seq<CommittedFileFacts>, path: Seq<char>)
    ensures
        0 <= facts_at(facts, path) <= facts.len(),
        facts_at(facts, path) < facts.len() ==> facts[facts_at(facts, path)].path@ == path,
        forall|k: int| 0 <= k < facts_at(facts, path) ==> (#[trigger] facts[k]).path@ != path,
    decreases facts.len(),
{
    if facts.len() > 0 && facts[0].path@ != path {
        let rest = facts.drop_first();
        lemma_facts_at(rest, path);
        assert forall|k: int| 0 <= k < facts_at(facts, path) implies (#[trigger] facts[k]).path@
            != path by {
            if k > 0 {
                assert(rest[k - 1] == facts[k]);
            }
        }
    }
}

/// Diagnostics hold an error exactly where one of them is of that severity.
pub proof fn lemma_errors_among_diagnostics(list: Seq<TypedModel>, added: TypedModel)
    ensures
        has_error(list.push(added)) <==> has_error(list) || added.severity == Severity::Error,
        !has_error(Seq::empty()),
{
    let all = list.push(added);
    if has_error(list) {
        let i = choose|i: int|
            0 <= i < list.len() && (#[trigger] list[i]).severity == Severity::Error;
        assert(all[i].severity == Severity::Error);
    }
    if added.severity == Severity::Error {
        assert(all[list.len() as int].severity == Severity::Error);
    }
    if has_error(all) {
        let i = choose|i: int|
            0 <= i < all.len() && (#[trigger] all[i]).severity == Severity::Error;
        if i < list.len() {
            assert(list[i].severity == Severity::Error);
        }
    }
}

// ---------------------------------------------------------------------------
// Expressions
// ---------------------------------------------------------------------------
/// A name is its own path, and a field of an expression adds its name behind a dot.
pub proof fn lemma_paths_of_expressions(name: String, inner: Expr)
    ensures
        path_of(Expr::Ident(name)) == Some(name@),
        path_of(inner) is Some ==> path_of(Expr::Dot(Box::new(inner), name)) == Some(
            path_of(inner)->0 + "."@ + name@,
        ),
        path_of(inner) is None ==> path_of(Expr::Dot(Box::new(inner), name)) is None,
        path_of(Expr::Bool(true)) is None,
        path_of(Expr::Str(name)) is None,
{
}

/// Constants stand for themselves, and nothing else does.
pub proof fn lemma_constants(text: String, number: JsonNumber, value: bool, left: Expr, right: Expr)
    ensures
        literal_model(Expr::Null) == Some(JsonModel::Null),
        literal_model(Expr::Bool(value)) == Some(JsonModel::Bool(value)),
        literal_model(Expr::Number(number)) == Some(JsonModel::Number(number@)),
        literal_model(Expr::Str(text)) == Some(JsonModel::Text(text@)),
        literal_model(Expr::Ident(text)) is None,
        literal_model(Expr::Dot(Box::new(left), text)) is None,
        literal_model(Expr::BinOp(Box::new(left), BinOp::Eq, Box::new(right))) is None,
{
}

/// An expression refers to a formula where a part of it does; a field of `formula` refers
/// to the formula of that name.
pub proof fn lemma_references_of_parts(
    left: Expr,
    operator: BinOp,
    right: Expr,
    third: Expr,
    field: String,
    name: Seq<char>,
    unary: UnaryOp,
)
    ensures
        refers_to(Expr::BinOp(Box::new(left), operator, Box::new(right)), name) <==> refers_to(
            left,
            name,
        ) || refers_to(right, name),
        refers_to(Expr::UnaryOp(unary, Box::new(left)), name) <==> refers_to(left, name),
        refers_to(Expr::NullCoalesce(Box::new(left), Box::new(right)), name) <==> refers_to(
            left,
            name,
        ) || refers_to(right, name),
        refers_to(
            Expr::Conditional(Box::new(left), Box::new(right), Box::new(third)),
            name,
        ) <==> refers_to(left, name) || refers_to(right, name) || refers_to(third, name),
        left is Ident && left->Ident_0@ == "formula"@ ==> (refers_to(
            Expr::Dot(Box::new(left), field),
            name,
        ) <==> field@ == name),
        !refers_to(Expr::Ident(field), name),
        !refers_to(Expr::Str(field), name),
{
}

/// An expression divides by zero where a part of it does, or where it divides by, or takes
/// the rest of a division by, a constant zero.
pub proof fn lemma_divisions_of_parts(left: Expr, operator: BinOp, right: Expr, unary: UnaryOp)
    ensures
        divides_by_literal_zero(Expr::BinOp(Box::new(left), operator, Box::new(right))) <==> ((
        operator == BinOp::Div || operator == BinOp::Mod) && literal_zero(right))
            || divides_by_literal_zero(left) || divides_by_literal_zero(right),
        divides_by_literal_zero(Expr::UnaryOp(unary, Box::new(left))) <==> divides_by_literal_zero(
            left,
        ),
        divides_by_literal_zero(Expr::NullCoalesce(Box::new(left), Box::new(right)))
            <==> divides_by_literal_zero(left) || divides_by_literal_zero(right),
        !divides_by_literal_zero(Expr::Null),
{
}

/// An expression follows links where a part of it does; the backlinks of a file and the
/// file of a link do.
pub proof fn lemma_links_of_parts(
    left: Expr,
    operator: BinOp,
    right: Expr,
    field: String,
    unary: UnaryOp,
)
    ensures
        uses_link_graph(Expr::BinOp(Box::new(left), operator, Box::new(right)))
            <==> uses_link_graph(left) || uses_link_graph(right),
        uses_link_graph(Expr::UnaryOp(unary, Box::new(left))) <==> uses_link_graph(left),
        uses_link_graph(left) ==> uses_link_graph(Expr::Dot(Box::new(left), field)),
        left is Ident && left->Ident_0@ == "file"@ && field@ == "backlinks"@ ==> uses_link_graph(
            Expr::Dot(Box::new(left), field),
        ),
        !uses_link_graph(Expr::Ident(field)),
{
}

/// Formulas are accepted exactly where each of them parses, none refers to itself or leads
/// into a circle, none divides by zero, and none calls a function that is not known or
/// with the wrong number of arguments.
pub proof fn lemma_accepted_formulas(formulas: Formulas)
    ensures
        formulas.verdict() is None <==> forall|i: int|
            0 <= i < formulas.items@.len() ==> {
                &&& (#[trigger] formulas.items@[i]).parsed is Ok
                &&& !refers_to(formulas.items@[i].parsed->Ok_0, formulas.items@[i].name@)
                &&& !formulas.leads_into_cycle(i)
                &&& !divides_by_literal_zero(formulas.items@[i].parsed->Ok_0)
                &&& !formulas.fails_statically(i)
            },
{
    let count = formulas.items@.len();
    let first = |i: int| formulas.parse_fails(i);
    let second = |i: int| formulas.refers_to_itself(i);
    let third = |i: int| formulas.leads_into_cycle(i);
    let fourth = |i: int| formulas.divides_by_zero(i) || formulas.fails_statically(i);
    crate::hosted_query_laws::lemma_none_holds(0, count, first);
    crate::hosted_query_laws::lemma_none_holds(0, count, second);
    crate::hosted_query_laws::lemma_none_holds(0, count, third);
    crate::hosted_query_laws::lemma_none_holds(0, count, fourth);
    if formulas.verdict() is None {
        assert forall|i: int| 0 <= i < formulas.items@.len() implies {
            &&& (#[trigger] formulas.items@[i]).parsed is Ok
            &&& !refers_to(formulas.items@[i].parsed->Ok_0, formulas.items@[i].name@)
            &&& !formulas.leads_into_cycle(i)
            &&& !divides_by_literal_zero(formulas.items@[i].parsed->Ok_0)
            &&& !formulas.fails_statically(i)
        } by {
            assert(!first(i) && !second(i) && !third(i) && !fourth(i));
        }
    }
    if forall|i: int|
        0 <= i < formulas.items@.len() ==> {
            &&& (#[trigger] formulas.items@[i]).parsed is Ok
            &&& !refers_to(formulas.items@[i].parsed->Ok_0, formulas.items@[i].name@)
            &&& !formulas.leads_into_cycle(i)
            &&& !divides_by_literal_zero(formulas.items@[i].parsed->Ok_0)
            &&& !formulas.fails_statically(i)
        } {
        assert forall|i: int| 0 <= i < count implies !(#[trigger] first(i)) by {
            assert(formulas.items@[i].parsed is Ok);
        }
        assert forall|i: int| 0 <= i < count implies !(#[trigger] second(i)) by {
            assert(formulas.items@[i].parsed is Ok);
        }
        assert forall|i: int| 0 <= i < count implies !(#[trigger] third(i)) by {
            assert(formulas.items@[i].parsed is Ok);
        }
        assert forall|i: int| 0 <= i < count implies !(#[trigger] fourth(i)) by {
            assert(formulas.items@[i].parsed is Ok);
        }
    }
}

// ---------------------------------------------------------------------------
// Kinds and faults
// ---------------------------------------------------------------------------
/// Reading, querying, validating, listing, executing a view and assessing leave the
/// collection as it is; every other operation may change it.
pub proof fn lemma_operations_that_mutate(kind: OperationKind)
    ensures
        !kind.mutates() <==> kind == OperationKind::Read || kind == OperationKind::Query || kind
            == OperationKind::Validate || kind == OperationKind::ListViews || kind
            == OperationKind::ExecuteView || kind == OperationKind::ReadViewSource || kind
            == OperationKind::ListTypes || kind == OperationKind::ReadType || kind
            == OperationKind::AssessTypePack || kind == OperationKind::AssessCollectionSetup,
{
}

/// An operation that failed is not valid, gives nothing, and says why by one error.
pub proof fn lemma_failed_operations(code: Seq<char>, message: Seq<char>, path: Option<Seq<char>>)
    ensures
        ({
            let failed = failed_operation(error_diagnostic(code, message, path));
            &&& !failed.valid
            &&& failed.diagnostics.len() == 1
            &&& failed.diagnostics[0].severity == "error"@
            &&& failed.diagnostics[0].code == code
            &&& failed.diagnostics[0].message == message
            &&& failed.diagnostics[0].path == path
            &&& failed.result == JsonModel::Object(Seq::empty())
        }),
{
}

/// Facts of committed files reach the records that an operation created, updated or
/// renamed, those of a batch too; what was deleted or read has none.
pub proof fn lemma_values_with_committed_facts(
    record: RecordDocumentModel,
    batch: BatchModel,
    facts: Seq<CommittedFileFacts>,
    i: int,
)
    requires
        0 <= i < batch.operations.len(),
    ensures
        value_with_facts(ValueModel::Create(Some(record)), facts) == ValueModel::Create(
            Some(with_facts(record, facts)),
        ),
        value_with_facts(ValueModel::Update(Some(record)), facts) == ValueModel::Update(
            Some(with_facts(record, facts)),
        ),
        value_with_facts(ValueModel::Read(Some(record)), facts) == ValueModel::Read(Some(record)),
        match value_with_facts(ValueModel::Batch(Some(batch)), facts) {
            ValueModel::Batch(Some(after)) => {
                &&& after.operations.len() == batch.operations.len()
                &&& after.succeeded == batch.succeeded
                &&& after.failed == batch.failed
                &&& after.operations[i].kind == batch.operations[i].kind
                &&& after.operations[i].valid == batch.operations[i].valid
                &&& match (batch.operations[i].result, after.operations[i].result) {
                    (BatchOperationModel::Record(a), BatchOperationModel::Record(b)) => b
                        == with_facts(a, facts),
                    (
                        BatchOperationModel::Rename(
                            RenameModel::Renamed { from, to, document, .. },
                        ),
                        BatchOperationModel::Rename(b),
                    ) => b is Renamed && b->Renamed_from == from && b->Renamed_to == to
                        && b->document == with_facts(document, facts),
                    (BatchOperationModel::Delete(a), b) => b == BatchOperationModel::Delete(a),
                    (BatchOperationModel::Other(a), b) => b == BatchOperationModel::Other(a),
                    (BatchOperationModel::Rename(a), b) => b == BatchOperationModel::Rename(a),
                    _ => false,
                }
            },
            _ => false,
        },
{
}

} // verus!
