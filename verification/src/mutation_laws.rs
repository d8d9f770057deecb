//! What hosted mutations do to the paths of records.

use crate::canonical_operation::{BatchItemModel, BatchOperationModel, DeleteModel, RenameModel};
use crate::changes::inserted;
use crate::hosted_mutation::{
    applied_item, batch_state, committed_input_of, created_count, created_identity, destination,
    mutation_kind, record_maps, staged_members, with_references, BatchState, ContextMaps,
    HostedMutationRequest,
};
use crate::json::{lemma_lookup_without_member, lookup, member_of, without_member, JsonModel};
use crate::operation_values::OperationKind;
use crate::projection::CanonicalRecordInput;
use crate::record_path::{record_path_of, RecordPathFacts};
use crate::text::ascending_texts;
use crate::text_map::{
    lemma_value_with_entry, lemma_value_without_entry, ordered, value_at, with_entry, without_entry,
    TextEntries,
};
use crate::value_laws::lemma_members;
use vstd::prelude::*;

verus! {

// ---------------------------------------------------------------------------
// Requests
// ---------------------------------------------------------------------------
/// The mutations are those that create, update, delete, rename, or do several of these,
/// each under its own name.
pub proof fn lemma_mutation_names(operation: Seq<char>)
    ensures
        match mutation_kind(operation) {
            Some(kind) => kind.name() == operation && kind.mutates(),
            None => operation != "create"@ && operation != "update"@ && operation != "delete"@
                && operation != "rename"@ && operation != "batch"@,
        },
{
}

/// Whether two maps are each other's inverse.
pub open spec fn are_inverse(maps: ContextMaps) -> bool {
    forall|path: Seq<char>, stable: Seq<char>|
        #![trigger value_at(maps.stable_by_path, path), value_at(maps.before_by_stable, stable)]
        value_at(maps.stable_by_path, path) == Some(stable) <==> value_at(
            maps.before_by_stable,
            stable,
        ) == Some(path)
}

/// A context knows each of its records by its identity and by its path, both ways, and
/// no identity or path twice.
pub proof fn lemma_contexts_know_their_records(
    records: Seq<CanonicalRecordInput>,
    paths: Seq<RecordPathFacts>,
    count: nat,
)
    requires
        count <= records.len(),
        records.len() == paths.len(),
        record_maps(records, paths, count) is Ok,
    ensures
        ({
            let maps = record_maps(records, paths, count)->Ok_0;
            &&& are_inverse(maps)
            &&& forall|i: int|
                0 <= i < count ==> {
                    &&& (#[trigger] records[i]).stable_id is Some
                    &&& record_path_of(paths[i]) is Ok
                    &&& value_at(maps.before_by_stable, (records[i].stable_id->0)@) == Some(
                        record_path_of(paths[i])->Ok_0,
                    )
                    &&& value_at(maps.stable_by_path, record_path_of(paths[i])->Ok_0) == Some(
                        (records[i].stable_id->0)@,
                    )
                }
        }),
    decreases count,
{
    if count > 0 {
        let fewer = (count - 1) as nat;
        lemma_contexts_know_their_records(records, paths, fewer);
        let before = record_maps(records, paths, fewer)->Ok_0;
        let after = record_maps(records, paths, count)->Ok_0;
        let stable = (records[count - 1].stable_id->0)@;
        let path = record_path_of(paths[count - 1])->Ok_0;
        assert forall|key: Seq<char>| #[trigger]
            value_at(after.stable_by_path, key) == if key == path {
                Some(stable)
            } else {
                value_at(before.stable_by_path, key)
            } by {
            lemma_value_with_entry(before.stable_by_path, path, stable, key);
        }
        assert forall|key: Seq<char>| #[trigger]
            value_at(after.before_by_stable, key) == if key == stable {
                Some(path)
            } else {
                value_at(before.before_by_stable, key)
            } by {
            lemma_value_with_entry(before.before_by_stable, stable, path, key);
        }
        assert forall|p: Seq<char>, s: Seq<char>|
            #![trigger value_at(after.stable_by_path, p), value_at(after.before_by_stable, s)]
            value_at(after.stable_by_path, p) == Some(s) <==> value_at(after.before_by_stable, s)
                == Some(p) by {
            assert(value_at(before.stable_by_path, p) == Some(s) <==> value_at(
                before.before_by_stable,
                s,
            ) == Some(p));
            assert(value_at(before.stable_by_path, path) is None);
            assert(value_at(before.before_by_stable, stable) is None);
            assert(value_at(before.stable_by_path, p) == Some(stable) <==> value_at(
                before.before_by_stable,
                stable,
            ) == Some(p));
            assert(value_at(before.stable_by_path, path) == Some(s) <==> value_at(
                before.before_by_stable,
                s,
            ) == Some(path));
        }
        assert forall|i: int| 0 <= i < count implies {
            &&& (#[trigger] records[i]).stable_id is Some
            &&& record_path_of(paths[i]) is Ok
            &&& value_at(after.before_by_stable, (records[i].stable_id->0)@) == Some(
                record_path_of(paths[i])->Ok_0,
            )
            &&& value_at(after.stable_by_path, record_path_of(paths[i])->Ok_0) == Some(
                (records[i].stable_id->0)@,
            )
        } by {
            if i < count - 1 {
                assert(records[i].stable_id is Some);
                assert((records[i].stable_id->0)@ != stable);
                assert(record_path_of(paths[i])->Ok_0 != path);
            }
        }
    }
}

proof fn lemma_taken_members()
    ensures
        forall|m: Seq<(Seq<char>, JsonModel)>, key: Seq<char>, other: Seq<char>| #[trigger]
            lookup(without_member(m, key), other) == if other == key {
                None
            } else {
                lookup(m, other)
            },
{
    assert forall|m: Seq<(Seq<char>, JsonModel)>, key: Seq<char>, other: Seq<char>| #[trigger]
        lookup(without_member(m, key), other) == if other == key {
            None
        } else {
            lookup(m, other)
        } by {
        lemma_lookup_without_member(m, key, other);
    }
}

/// The input that a mutation is tried with: an update and a deletion name the path at
/// which the record is, a rename the path it leaves and the one it goes to, an update's
/// patch stands as its fields, and a creation leaves out its types. All else is as it was
/// asked. What concerns no known record is refused.
pub proof fn lemma_staged_inputs(
    members: Seq<(Seq<char>, JsonModel)>,
    path: Option<Seq<char>>,
    key: Seq<char>,
)
    ensures
        match staged_members(OperationKind::Create, members, path) {
            Ok(staged) => lookup(staged, "types"@) is None && (key != "types"@ ==> lookup(
                staged,
                key,
            ) == lookup(members, key)),
            Err(_) => false,
        },
        match staged_members(OperationKind::Update, members, path) {
            Ok(staged) => {
                &&& path is Some
                &&& lookup(staged, "path"@) == Some(JsonModel::Text(path->0))
                &&& lookup(members, "patch"@) is Some ==> lookup(staged, "fields"@) == lookup(
                    members,
                    "patch"@,
                ) && lookup(staged, "patch"@) is None
                &&& key != "path"@ && key != "patch"@ && key != "fields"@ ==> lookup(staged, key)
                    == lookup(members, key)
            },
            Err(_) => path is None,
        },
        match staged_members(OperationKind::Delete, members, path) {
            Ok(staged) => {
                &&& path is Some
                &&& lookup(staged, "path"@) == Some(JsonModel::Text(path->0))
                &&& key != "path"@ ==> lookup(staged, key) == lookup(members, key)
            },
            Err(_) => path is None,
        },
        match staged_members(OperationKind::Rename, members, path) {
            Ok(staged) => {
                &&& path is Some
                &&& lookup(staged, "from"@) == Some(JsonModel::Text(path->0))
                &&& lookup(staged, "to"@) is Some
                &&& lookup(members, "path"@) is Some ==> lookup(staged, "to"@) == lookup(
                    members,
                    "path"@,
                )
                &&& lookup(members, "path"@) is None ==> lookup(staged, "to"@) == lookup(
                    members,
                    "to"@,
                )
                &&& key != "from"@ && key != "to"@ ==> lookup(staged, key) == lookup(members, key)
            },
            Err(_) => path is None || destination(members) is None,
        },
{
    lemma_members();
    lemma_taken_members();
    reveal_strlit("path");
    reveal_strlit("patch");
    reveal_strlit("fields");
    reveal_strlit("from");
    reveal_strlit("to");
    assert("path"@.len() == 4 && "patch"@.len() == 5 && "fields"@.len() == 6 && "from"@.len() == 4
        && "to"@.len() == 2 && "path"@[0] == 'p' && "from"@[0] == 'f');
}

/// What is committed is never a dry run.
pub proof fn lemma_committed_inputs(request: HostedMutationRequest, path: Option<Seq<char>>)
    requires
        mutation_kind(request.operation@) is Some,
    ensures
        match committed_input_of(request, path) {
            Ok(members) => lookup(members, "dry_run"@) == Some(JsonModel::Bool(false)),
            Err(_) => true,
        },
{
    if let JsonModel::Object(members) = request.input@ {
        lemma_members();
        lemma_taken_members();
        reveal_strlit("dry_run");
        reveal_strlit("types");
        reveal_strlit("path");
        reveal_strlit("patch");
        reveal_strlit("fields");
        reveal_strlit("from");
        reveal_strlit("to");
        assert("dry_run"@.len() == 7 && "types"@.len() == 5 && "path"@.len() == 4 && "patch"@.len()
            == 5 && "fields"@.len() == 6 && "from"@.len() == 4 && "to"@.len() == 2);
    }
}

// ---------------------------------------------------------------------------
// Batches
// ---------------------------------------------------------------------------
/// Whether an item's record is among those affected, all that were before still are, and
/// every path but those given is where it was.
pub open spec fn moves_only(
    before: BatchState,
    after: BatchState,
    first: Seq<char>,
    second: Seq<char>,
    stable: Seq<char>,
) -> bool {
    &&& after.affected.contains(stable)
    &&& forall|other: Seq<char>|
        #![trigger after.affected.contains(other)]
        before.affected.contains(other) ==> after.affected.contains(other)
    &&& forall|path: Seq<char>|
        #![trigger value_at(after.stable_by_path, path)]
        path != first && path != second ==> value_at(after.stable_by_path, path) == value_at(
            before.stable_by_path,
            path,
        )
}

proof fn lemma_references_are_added(
    stable_by_path: TextEntries,
    affected: Seq<Seq<char>>,
    from: Seq<char>,
    stable: Seq<char>,
    references: Seq<JsonModel>,
)
    requires
        ascending_texts(affected),
        with_references(stable_by_path, affected, from, stable, references) is Ok,
    ensures
        ({
            let after = with_references(stable_by_path, affected, from, stable, references)->Ok_0;
            &&& ascending_texts(after)
            &&& forall|other: Seq<char>|
                #![trigger after.contains(other)]
                affected.contains(other) ==> after.contains(other)
        }),
    decreases references.len(),
{
    if references.len() > 0 {
        lemma_references_are_added(
            stable_by_path,
            affected,
            from,
            stable,
            references.drop_last(),
        );
        let rest = with_references(
            stable_by_path,
            affected,
            from,
            stable,
            references.drop_last(),
        )->Ok_0;
        let path = crate::json::text_member(references.last(), "path"@)->0;
        let found = if path == from {
            stable
        } else {
            value_at(stable_by_path, path)->0
        };
        crate::changes::lemma_inserted(rest, found);
    }
}

/// Applying a creation puts its identity at its new path, applying a deletion takes the
/// path's identity away, applying an update moves nothing, and applying a rename moves
/// the identity from the one path to the other. No other path changes, and the record
/// counts as affected.
pub proof fn lemma_items_move_their_record(
    state: BatchState,
    item: BatchItemModel,
    request_item: JsonModel,
    primary: Seq<char>,
    creates: int,
)
    requires
        ordered(state.stable_by_path),
        ascending_texts(state.affected),
        applied_item(state, item, request_item, primary, creates) is Ok,
    ensures
        ({
            let after = applied_item(state, item, request_item, primary, creates)->Ok_0;
            match item.result {
                BatchOperationModel::Record(record) => {
                    &&& item.kind == "create"@ ==> {
                        let stable = created_identity(request_item, primary, creates)->0;
                        &&& value_at(state.stable_by_path, record.path) is None
                        &&& value_at(after.stable_by_path, record.path) == Some(stable)
                        &&& moves_only(state, after, record.path, record.path, stable)
                    }
                    &&& item.kind == "update"@ ==> {
                        &&& after.stable_by_path == state.stable_by_path
                        &&& value_at(state.stable_by_path, record.path) is Some
                        &&& moves_only(
                            state,
                            after,
                            record.path,
                            record.path,
                            value_at(state.stable_by_path, record.path)->0,
                        )
                    }
                    &&& item.kind == "create"@ || item.kind == "update"@
                },
                BatchOperationModel::Delete(DeleteModel::Deleted { path, deleted }) => {
                    &&& item.kind == "delete"@
                    &&& deleted
                    &&& value_at(state.stable_by_path, path) is Some
                    &&& value_at(after.stable_by_path, path) is None
                    &&& moves_only(
                        state,
                        after,
                        path,
                        path,
                        value_at(state.stable_by_path, path)->0,
                    )
                },
                BatchOperationModel::Rename(
                    RenameModel::Renamed { from, to, document, references_updated, partial_updates },
                ) => {
                    &&& item.kind == "rename"@
                    &&& value_at(state.stable_by_path, from) is Some
                    &&& value_at(after.stable_by_path, to) == value_at(state.stable_by_path, from)
                    &&& from != to ==> value_at(after.stable_by_path, from) is None
                    &&& moves_only(
                        state,
                        after,
                        from,
                        to,
                        value_at(state.stable_by_path, from)->0,
                    )
                },
                _ => false,
            }
        }),
{
    reveal_strlit("create");
    reveal_strlit("update");
    reveal_strlit("delete");
    reveal_strlit("rename");
    assert("create"@[0] == 'c' && "update"@[0] == 'u' && "delete"@[0] == 'd' && "rename"@[0]
        == 'r');
    let after = applied_item(state, item, request_item, primary, creates)->Ok_0;
    match item.result {
        BatchOperationModel::Record(record) => {
            if item.kind == "create"@ {
                let stable = created_identity(request_item, primary, creates)->0;
                crate::changes::lemma_inserted(state.affected, stable);
                assert forall|path: Seq<char>| #[trigger]
                    value_at(after.stable_by_path, path) == if path == record.path {
                        Some(stable)
                    } else {
                        value_at(state.stable_by_path, path)
                    } by {
                    lemma_value_with_entry(state.stable_by_path, record.path, stable, path);
                }
            } else {
                crate::changes::lemma_inserted(
                    state.affected,
                    value_at(state.stable_by_path, record.path)->0,
                );
            }
        },
        BatchOperationModel::Delete(DeleteModel::Deleted { path, deleted }) => {
            crate::changes::lemma_inserted(
                state.affected,
                value_at(state.stable_by_path, path)->0,
            );
            assert forall|other: Seq<char>| #[trigger]
                value_at(after.stable_by_path, other) == if other == path {
                    None
                } else {
                    value_at(state.stable_by_path, other)
                } by {
                lemma_value_without_entry(state.stable_by_path, path, other);
            }
        },
        BatchOperationModel::Rename(
            RenameModel::Renamed { from, to, document, references_updated, partial_updates },
        ) => {
            let stable = value_at(state.stable_by_path, from)->0;
            let moved = without_entry(state.stable_by_path, from);
            crate::changes::lemma_inserted(state.affected, stable);
            lemma_references_are_added(
                with_entry(moved, to, stable),
                inserted(state.affected, stable),
                from,
                stable,
                references_updated,
            );
            assert forall|other: Seq<char>| #[trigger]
                value_at(after.stable_by_path, other) == if other == to {
                    Some(stable)
                } else if other == from {
                    None
                } else {
                    value_at(state.stable_by_path, other)
                } by {
                lemma_value_with_entry(moved, to, stable, other);
                lemma_value_without_entry(state.stable_by_path, from, other);
            }
        },
        _ => {},
    }
}

/// An item of a batch that was refused changes nothing, and one that was not is applied
/// to what the items before it left.
pub proof fn lemma_batches_apply_items_in_turn(
    before: TextEntries,
    request_items: Seq<JsonModel>,
    items: Seq<BatchItemModel>,
    primary: Seq<char>,
    count: nat,
)
    requires
        0 < count <= items.len(),
        batch_state(before, request_items, items, primary, count) is Ok,
    ensures
        batch_state(before, request_items, items, primary, (count - 1) as nat) is Ok,
        items[count - 1].index == count - 1,
        ({
            let earlier = batch_state(
                before,
                request_items,
                items,
                primary,
                (count - 1) as nat,
            )->Ok_0;
            let later = batch_state(before, request_items, items, primary, count)->Ok_0;
            let item = items[count - 1];
            &&& !item.valid ==> later == earlier
            &&& item.valid ==> applied_item(
                earlier,
                item,
                request_items[count - 1],
                primary,
                created_count(items),
            ) == Ok::<_, crate::hosted_mutation::CatalogFault>(later)
        }),
{
}

/// A creation takes the identity that its item names, or that its input names; only where
/// it is the one creation of its batch may it take the primary one.
pub proof fn lemma_identities_of_creations(item: JsonModel, primary: Seq<char>, creates: int)
    ensures
        match member_of(item, "stable_id"@) {
            Some(JsonModel::Text(stable)) => created_identity(item, primary, creates) == Some(
                stable,
            ),
            None => match member_of(item, "input"@) {
                Some(input) => match member_of(input, "stable_id"@) {
                    Some(JsonModel::Text(stable)) => created_identity(item, primary, creates)
                        == Some(stable),
                    None => created_identity(item, primary, creates) == if creates == 1 {
                        Some(primary)
                    } else {
                        None
                    },
                    _ => true,
                },
                None => created_identity(item, primary, creates) == if creates == 1 {
                    Some(primary)
                } else {
                    None
                },
            },
            _ => true,
        },
{
}

/// The creations of a batch are those of its items that were done and create a record.
pub proof fn lemma_counted_creations(items: Seq<BatchItemModel>)
    ensures
        created_count(items) == items.filter(
            |item: BatchItemModel| item.valid && item.kind == "create"@,
        ).len(),
    decreases items.len(),
{
    reveal(Seq::filter);
    if items.len() > 0 {
        lemma_counted_creations(items.drop_last());
    }
}

} // verus!
