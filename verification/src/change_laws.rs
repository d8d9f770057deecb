//! What changes of records say.

use crate::catalog::classification;
use crate::changes::{sorted_set, ChangeModel, ChangeSetModel, RecordChangeKind, RecordChangeModel};
use crate::diff::{
    added_members, change_at, changed, changed_members, changes_at, changes_between, child_of,
    either_text, proven, proven_renames, record_at, rename_change, rename_changes, renamed_from,
    renamed_to, resource_changes_at, CollectionSnapshot, CollectionSnapshotRecord,
    CollectionSnapshotResource, OperationRequest, PathForm, SnapshotModel,
};
use crate::digest::digest_of;
use crate::hosted_mutation::{
    change_for, changes_for, changes_of_record, context_at, mutation_plan, primary_first,
    single_paths, staged_at, transition, AppliedPaths, HostedChangeModel, HostedMutationRequest,
    MutationFacts,
};
use crate::json::{lookup, member_of, same_json, text_member, JsonModel};
use crate::record_path::record_path_of;
use crate::text_map::{
    lemma_value_with_entry, lemma_value_without_entry, ordered, value_at, TextEntries,
};
use vstd::prelude::*;
use vstd::utf8::encode_utf8;

verus! {

// ---------------------------------------------------------------------------
// One change
// ---------------------------------------------------------------------------
/// Whether a change says what happened to a record: it was deleted exactly where it
/// has a state before and none after, created exactly where it has none before and one
/// after, renamed exactly where it has both and came from another path, and updated
/// exactly where it has both and stayed where it was.
pub open spec fn says_what_happened(change: RecordChangeModel) -> bool {
    let before = change.before_revision is Some;
    let after = change.after_revision is Some;
    &&& before || after
    &&& change.kind == RecordChangeKind::Deleted <==> before && !after
    &&& change.kind == RecordChangeKind::Created <==> !before && after
    &&& change.kind == RecordChangeKind::Renamed <==> before && after && change.from is Some
    &&& change.kind == RecordChangeKind::Updated <==> before && after && change.from is None
    &&& change.from is Some ==> change.kind == RecordChangeKind::Renamed && change.from->0
        != change.path
}

/// The change between two states of a record. Its kind tells whether the record was
/// created, deleted, moved, or kept its place; its path is where the record is, or was
/// if it is gone; and its revisions and types are those of the two states. The body
/// changed exactly where the two bodies differ or only one is there.
pub proof fn lemma_transitions_say_what_happened(
    before: Option<SnapshotModel>,
    after: Option<SnapshotModel>,
)
    requires
        before is Some || after is Some,
    ensures
        transition(before, after) is Record,
        ({
            let change = transition(before, after)->Record_0;
            &&& says_what_happened(change)
            &&& change.kind == RecordChangeKind::Deleted <==> before is Some && after is None
            &&& change.kind == RecordChangeKind::Created <==> before is None && after is Some
            &&& change.kind == RecordChangeKind::Renamed <==> before is Some && after is Some
                && before->0.path != after->0.path
            &&& change.kind == RecordChangeKind::Updated <==> before is Some && after is Some
                && before->0.path == after->0.path
            &&& after is Some ==> change.path == after->0.path && change.after_revision == Some(
                after->0.revision,
            )
            &&& after is None ==> change.path == before->0.path && change.after_revision is None
            &&& before is Some ==> change.before_revision == Some(before->0.revision)
            &&& before is None ==> change.before_revision is None
            &&& change.kind == RecordChangeKind::Renamed ==> change.from == Some(before->0.path)
            &&& before is Some && after is Some ==> (change.body_changed <==> before->0.body
                != after->0.body)
            &&& before is None || after is None ==> change.body_changed
            &&& before is Some && after is Some && same_json(
                before->0.frontmatter,
                after->0.frontmatter,
            ) ==> change.changed_fields.len() == 0
            &&& before is Some ==> change.before_types == sorted_set(before->0.types)
            &&& after is Some ==> change.after_types == sorted_set(after->0.types)
        }),
{
    if before is Some && after is Some && same_json(before->0.frontmatter, after->0.frontmatter) {
        crate::diff::lemma_equal_values_have_no_changes(
            before->0.frontmatter,
            after->0.frontmatter,
            Seq::empty(),
        );
        assert(changed(before->0.frontmatter, Some(after->0.frontmatter), Seq::empty())
            =~= Seq::empty());
    }
}

// ---------------------------------------------------------------------------
// Changed fields
// ---------------------------------------------------------------------------
/// Whether something that differs at a key of two objects is at a pointer: the key
/// itself where one object lacks it, or where the values differ and are not both
/// objects; else what differs inside.
pub open spec fn differs_at(
    old_members: Seq<(Seq<char>, JsonModel)>,
    new_members: Seq<(Seq<char>, JsonModel)>,
    pointer: Seq<char>,
    key: Seq<char>,
    found: Seq<char>,
) -> bool {
    match (lookup(old_members, key), lookup(new_members, key)) {
        (None, None) => false,
        (None, Some(_)) => found == child_of(pointer, key),
        (Some(_), None) => found == child_of(pointer, key),
        (Some(old_value), Some(new_value)) => changed(
            old_value,
            Some(new_value),
            child_of(pointer, key),
        ).contains(found),
    }
}

proof fn lemma_changed_members_hold(
    old_members: Seq<(Seq<char>, JsonModel)>,
    new_members: Seq<(Seq<char>, JsonModel)>,
    pointer: Seq<char>,
    count: nat,
    found: Seq<char>,
)
    requires
        count <= old_members.len(),
    ensures
        changed_members(old_members, new_members, pointer, count).contains(found) <==> exists|i: int|
            0 <= i < count && changed(
                (#[trigger] old_members[i]).1,
                lookup(new_members, old_members[i].0),
                child_of(pointer, old_members[i].0),
            ).contains(found),
    decreases count,
{
    if count > 0 {
        lemma_changed_members_hold(old_members, new_members, pointer, (count - 1) as nat, found);
        let last = old_members[count - 1];
        let a = changed_members(old_members, new_members, pointer, (count - 1) as nat);
        let b = changed(last.1, lookup(new_members, last.0), child_of(pointer, last.0));
        lemma_contained_in_sum(a, b, found);
    }
}

proof fn lemma_added_members_hold(
    old_members: Seq<(Seq<char>, JsonModel)>,
    new_members: Seq<(Seq<char>, JsonModel)>,
    pointer: Seq<char>,
    count: nat,
    found: Seq<char>,
)
    requires
        count <= new_members.len(),
    ensures
        added_members(old_members, new_members, pointer, count).contains(found) <==> exists|i: int|
            0 <= i < count && lookup(old_members, (#[trigger] new_members[i]).0) is None && found
                == child_of(pointer, new_members[i].0),
    decreases count,
{
    if count > 0 {
        lemma_added_members_hold(old_members, new_members, pointer, (count - 1) as nat, found);
        let last = new_members[count - 1];
        let rest = added_members(old_members, new_members, pointer, (count - 1) as nat);
        if lookup(old_members, last.0) is None {
            lemma_contained_in_sum(rest, seq![child_of(pointer, last.0)], found);
            assert(rest.push(child_of(pointer, last.0)) =~= rest + seq![
                child_of(pointer, last.0),
            ]);
            assert(seq![child_of(pointer, last.0)].contains(found) <==> found == child_of(
                pointer,
                last.0,
            )) by {
                assert(seq![child_of(pointer, last.0)][0] == child_of(pointer, last.0));
            }
        }
    }
}

/// A list joined from two holds what either holds.
pub proof fn lemma_contained_in_sum(a: Seq<Seq<char>>, b: Seq<Seq<char>>, found: Seq<char>)
    ensures
        (a + b).contains(found) <==> a.contains(found) || b.contains(found),
{
    let all = a + b;
    if all.contains(found) {
        let i = choose|i: int| 0 <= i < all.len() && all[i] == found;
        if i < a.len() {
            assert(a[i] == found);
        } else {
            assert(b[i - a.len()] == found);
        }
    }
    if a.contains(found) {
        let i = choose|i: int| 0 <= i < a.len() && a[i] == found;
        assert(all[i] == found);
    }
    if b.contains(found) {
        let i = choose|i: int| 0 <= i < b.len() && b[i] == found;
        assert(all[a.len() + i] == found);
    }
}

/// Whether every key of an object is there once.
pub open spec fn distinct_keys(members: Seq<(Seq<char>, JsonModel)>) -> bool {
    forall|i: int|
        0 <= i < members.len() ==> lookup(members, (#[trigger] members[i]).0) == Some(members[i].1)
}

/// The changed fields of two objects are just what differs at one of their keys.
pub proof fn lemma_changed_fields_are_what_differs(
    old_members: Seq<(Seq<char>, JsonModel)>,
    new_members: Seq<(Seq<char>, JsonModel)>,
    pointer: Seq<char>,
    found: Seq<char>,
)
    requires
        distinct_keys(old_members),
        distinct_keys(new_members),
        !same_json(JsonModel::Object(old_members), JsonModel::Object(new_members)),
    ensures
        changed(
            JsonModel::Object(old_members),
            Some(JsonModel::Object(new_members)),
            pointer,
        ).contains(found) <==> exists|key: Seq<char>| #[trigger]
            differs_at(old_members, new_members, pointer, key, found),
{
    let a = changed_members(old_members, new_members, pointer, old_members.len());
    let b = added_members(old_members, new_members, pointer, new_members.len());
    lemma_contained_in_sum(a, b, found);
    lemma_changed_members_hold(old_members, new_members, pointer, old_members.len(), found);
    lemma_added_members_hold(old_members, new_members, pointer, new_members.len(), found);
    if a.contains(found) {
        let i = choose|i: int|
            0 <= i < old_members.len() && changed(
                (#[trigger] old_members[i]).1,
                lookup(new_members, old_members[i].0),
                child_of(pointer, old_members[i].0),
            ).contains(found);
        let key = old_members[i].0;
        if lookup(new_members, key) is None {
            assert(changed(old_members[i].1, None, child_of(pointer, key)) =~= seq![
                child_of(pointer, key),
            ]);
        }
        assert(differs_at(old_members, new_members, pointer, key, found));
    }
    if b.contains(found) {
        let i = choose|i: int|
            0 <= i < new_members.len() && lookup(old_members, (#[trigger] new_members[i]).0)
                is None && found == child_of(pointer, new_members[i].0);
        assert(differs_at(old_members, new_members, pointer, new_members[i].0, found));
    }
    if exists|key: Seq<char>| #[trigger]
        differs_at(old_members, new_members, pointer, key, found) {
        let key = choose|key: Seq<char>| #[trigger]
            differs_at(old_members, new_members, pointer, key, found);
        crate::json::lemma_lookup_at(old_members, key);
        crate::json::lemma_lookup_at(new_members, key);
        lemma_key_at(old_members, key);
        lemma_key_at(new_members, key);
        if lookup(old_members, key) is Some {
            let i = crate::json::key_at(old_members, key);
            assert(old_members[i].0 == key);
            if lookup(new_members, key) is None {
                assert(changed(old_members[i].1, None, child_of(pointer, key))[0] == found);
            }
            assert(changed(
                old_members[i].1,
                lookup(new_members, old_members[i].0),
                child_of(pointer, old_members[i].0),
            ).contains(found));
        } else {
            let i = crate::json::key_at(new_members, key);
            assert(new_members[i].0 == key);
        }
    }
}

proof fn lemma_key_at(members: Seq<(Seq<char>, JsonModel)>, key: Seq<char>)
    ensures
        crate::json::key_at(members, key) < members.len() ==> members[crate::json::key_at(
            members,
            key,
        )].0 == key,
        crate::json::key_at(members, key) >= 0,
    decreases members.len(),
{
    if members.len() > 0 && members[0].0 != key {
        lemma_key_at(members.drop_first(), key);
    }
}

/// Values that differ and are not both objects are one difference, at their own
/// pointer; a value that is gone is one too.
pub proof fn lemma_plain_differences(before: JsonModel, after: JsonModel, pointer: Seq<char>)
    ensures
        !same_json(before, after) && !(before is Object && after is Object) ==> changed(
            before,
            Some(after),
            pointer,
        ) == seq![pointer],
        same_json(before, after) ==> changed(before, Some(after), pointer).len() == 0,
        changed(before, None, pointer) == seq![pointer],
{
}

/// A pointer to a member is its parent, a slash, and the key with its tildes and
/// slashes escaped.
pub proof fn lemma_pointers(parent: Seq<char>, key: Seq<char>)
    ensures
        !key.contains('~') && !key.contains('/') ==> child_of(parent, key) == parent + seq!['/']
            + key,
        crate::diff::escaped(key.push('~')) == crate::diff::escaped(key) + seq!['~', '0'],
        crate::diff::escaped(key.push('/')) == crate::diff::escaped(key) + seq!['~', '1'],
    decreases key.len(),
{
    reveal_strlit("/");
    reveal_strlit("~0");
    reveal_strlit("~1");
    assert("/"@ =~= seq!['/']);
    assert("~0"@ =~= seq!['~', '0']);
    assert("~1"@ =~= seq!['~', '1']);
    assert(key.push('~').drop_last() =~= key);
    assert(key.push('/').drop_last() =~= key);
    lemma_plain_keys(key);
}

proof fn lemma_plain_keys(key: Seq<char>)
    ensures
        !key.contains('~') && !key.contains('/') ==> crate::diff::escaped(key) == key,
    decreases key.len(),
{
    if key.len() > 0 && !key.contains('~') && !key.contains('/') {
        let front = key.drop_last();
        assert(key[key.len() - 1] == key.last());
        if front.contains('~') {
            let i = choose|i: int| 0 <= i < front.len() && front[i] == '~';
            assert(key[i] == '~');
        }
        if front.contains('/') {
            let i = choose|i: int| 0 <= i < front.len() && front[i] == '/';
            assert(key[i] == '/');
        }
        lemma_plain_keys(front);
        assert(front + seq![key.last()] =~= key);
    } else if key.len() == 0 {
        assert(crate::diff::escaped(key) =~= key);
    }
}

// ---------------------------------------------------------------------------
// Snapshots
// ---------------------------------------------------------------------------
/// Where nothing was renamed, a record that is there before and gone after is one
/// deletion, one that is new is one creation, one whose revision differs is one update,
/// and one whose revision is the same is no change.
pub proof fn lemma_changes_at_paths(
    before: Seq<CollectionSnapshotRecord>,
    after: Seq<CollectionSnapshotRecord>,
    renames: Seq<(Seq<char>, Seq<char>)>,
    path: Seq<char>,
)
    requires
        !renamed_from(renames, path),
        !renamed_to(renames, path),
    ensures
        ({
            let old_record = record_at(before, path);
            let new_record = record_at(after, path);
            match change_at(before, after, renames, path) {
                Some(ChangeModel::Record(change)) => {
                    &&& says_what_happened(change)
                    &&& change.path == path
                    &&& change.from is None
                    &&& old_record is Some <==> change.before_revision is Some
                    &&& new_record is Some <==> change.after_revision is Some
                    &&& old_record is Some ==> change.before_revision == Some(
                        old_record->0.revision@,
                    )
                    &&& new_record is Some ==> change.after_revision == Some(
                        new_record->0.revision@,
                    )
                    &&& change.before_revision != change.after_revision
                },
                Some(_) => false,
                None => match (old_record, new_record) {
                    (None, None) => true,
                    (Some(a), Some(b)) => a.revision@ == b.revision@,
                    _ => false,
                },
            }
        }),
{
}

proof fn lemma_change_says_what_happened(
    before: Seq<CollectionSnapshotRecord>,
    after: Seq<CollectionSnapshotRecord>,
    renames: Seq<(Seq<char>, Seq<char>)>,
    path: Seq<char>,
)
    ensures
        match change_at(before, after, renames, path) {
            Some(ChangeModel::Record(change)) => says_what_happened(change),
            Some(_) => false,
            None => true,
        },
{
}

proof fn lemma_changes_at_say(
    before: Seq<CollectionSnapshotRecord>,
    after: Seq<CollectionSnapshotRecord>,
    renames: Seq<(Seq<char>, Seq<char>)>,
    paths: Seq<Seq<char>>,
)
    ensures
        forall|i: int|
            0 <= i < changes_at(before, after, renames, paths).len() ==> match #[trigger] changes_at(
                before,
                after,
                renames,
                paths,
            )[i] {
                ChangeModel::Record(change) => says_what_happened(change),
                ChangeModel::Resource(_) => false,
            },
    decreases paths.len(),
{
    if paths.len() > 0 {
        lemma_changes_at_say(before, after, renames, paths.drop_last());
        lemma_change_says_what_happened(before, after, renames, paths.last());
    }
}

proof fn lemma_resource_changes_are_resources(
    before: Seq<CollectionSnapshotResource>,
    after: Seq<CollectionSnapshotResource>,
    paths: Seq<Seq<char>>,
)
    ensures
        forall|i: int|
            0 <= i < resource_changes_at(before, after, paths).len() ==> match #[trigger]
            resource_changes_at(before, after, paths)[i] {
                ChangeModel::Record(_) => false,
                ChangeModel::Resource(change) => change.before_revision != change.after_revision,
            },
    decreases paths.len(),
{
    if paths.len() > 0 {
        lemma_resource_changes_are_resources(before, after, paths.drop_last());
    }
}

/// Whether renames go from paths that had records to paths that had none.
pub open spec fn moves_records(
    before: Seq<CollectionSnapshotRecord>,
    after: Seq<CollectionSnapshotRecord>,
    renames: Seq<(Seq<char>, Seq<char>)>,
) -> bool {
    forall|i: int|
        0 <= i < renames.len() ==> {
            &&& record_at(before, (#[trigger] renames[i]).0) is Some
            &&& record_at(after, renames[i].0) is None
            &&& record_at(before, renames[i].1) is None
            &&& record_at(after, renames[i].1) is Some
        }
}

proof fn lemma_batch_renames_move(
    paths: Seq<PathForm>,
    items: Seq<JsonModel>,
    before: Seq<CollectionSnapshotRecord>,
    after: Seq<CollectionSnapshotRecord>,
)
    ensures
        moves_records(before, after, crate::diff::batch_renames(paths, items, before, after)),
    decreases items.len(),
{
    if items.len() > 0 {
        lemma_batch_renames_move(paths, items.drop_last(), before, after);
    }
}

/// A requested rename is taken as one only where the record is gone from the one path
/// and new at the other.
pub proof fn lemma_proven_renames_move_records(
    paths: Seq<PathForm>,
    request: Option<&OperationRequest>,
    before: Seq<CollectionSnapshotRecord>,
    after: Seq<CollectionSnapshotRecord>,
)
    ensures
        moves_records(before, after, proven_renames(paths, request, before, after)),
{
    if let Some(request) = request {
        if let Some(JsonModel::Array(items)) = member_of(request.input@, "operations"@) {
            lemma_batch_renames_move(paths, items, before, after);
        }
    }
}

/// Every change between two snapshots says what happened: each change of a record is a
/// creation, deletion, rename, or update by the states that it has, and each change of
/// a resource has another revision before and after.
pub proof fn lemma_changes_say_what_happened(
    before: CollectionSnapshot,
    after: CollectionSnapshot,
    request: Option<&OperationRequest>,
    paths: Seq<PathForm>,
    i: int,
)
    requires
        0 <= i < changes_between(before, after, request, paths).len(),
    ensures
        match changes_between(before, after, request, paths)[i] {
            ChangeModel::Record(change) => says_what_happened(change),
            ChangeModel::Resource(change) => change.before_revision != change.after_revision,
        },
{
    let renames = proven_renames(paths, request, before.records@, after.records@);
    lemma_proven_renames_move_records(paths, request, before.records@, after.records@);
    let first = rename_changes(before.records@, after.records@, renames);
    let listed = sorted_set(
        crate::diff::record_paths(before.records@) + crate::diff::record_paths(after.records@),
    );
    let second = changes_at(before.records@, after.records@, renames, listed);
    let resources = sorted_set(
        crate::diff::resource_paths(before.resources@) + crate::diff::resource_paths(
            after.resources@,
        ),
    );
    let third = resource_changes_at(before.resources@, after.resources@, resources);
    lemma_changes_at_say(before.records@, after.records@, renames, listed);
    lemma_resource_changes_are_resources(before.resources@, after.resources@, resources);
    let all = changes_between(before, after, request, paths);
    if i < first.len() {
        assert(all[i] == rename_change(before.records@, after.records@, renames[i]));
        assert(record_at(before.records@, renames[i].0) is Some);
    } else if i < first.len() + second.len() {
        assert(all[i] == second[i - first.len()]);
    } else {
        assert(all[i] == third[i - first.len() - second.len()]);
    }
}

/// A record that is gone is among the changes as a deletion, a record that is new as a
/// creation, and one with another revision as an update, unless it was renamed.
pub proof fn lemma_each_record_is_accounted_for(
    before: CollectionSnapshot,
    after: CollectionSnapshot,
    request: Option<&OperationRequest>,
    paths: Seq<PathForm>,
    path: Seq<char>,
)
    requires
        ({
            let renames = proven_renames(paths, request, before.records@, after.records@);
            !renamed_from(renames, path) && !renamed_to(renames, path)
        }),
        ({
            let old_record = record_at(before.records@, path);
            let new_record = record_at(after.records@, path);
            match (old_record, new_record) {
                (Some(a), Some(b)) => a.revision@ != b.revision@,
                (None, None) => false,
                _ => true,
            }
        }),
    ensures
        exists|change: RecordChangeModel|
            {
                &&& #[trigger] changes_between(before, after, request, paths).contains(
                    ChangeModel::Record(change),
                )
                &&& change.path == path
                &&& change.kind == if record_at(before.records@, path) is None {
                    RecordChangeKind::Created
                } else if record_at(after.records@, path) is None {
                    RecordChangeKind::Deleted
                } else {
                    RecordChangeKind::Updated
                }
            },
{
    let renames = proven_renames(paths, request, before.records@, after.records@);
    lemma_changes_at_paths(before.records@, after.records@, renames, path);
    crate::diff::lemma_every_record_change_is_listed(before, after, request, paths, path);
    let change = change_at(before.records@, after.records@, renames, path)->0->Record_0;
    assert(changes_between(before, after, request, paths).contains(ChangeModel::Record(change)));
}

/// A proven rename is among the changes as one rename from the one path to the other.
pub proof fn lemma_proven_renames_are_listed(
    before: CollectionSnapshot,
    after: CollectionSnapshot,
    request: Option<&OperationRequest>,
    paths: Seq<PathForm>,
    k: int,
)
    requires
        0 <= k < proven_renames(paths, request, before.records@, after.records@).len(),
    ensures
        ({
            let rename = proven_renames(paths, request, before.records@, after.records@)[k];
            match changes_between(before, after, request, paths)[k] {
                ChangeModel::Record(change) => change.kind == RecordChangeKind::Renamed
                    && change.from == Some(rename.0) && change.path == rename.1,
                ChangeModel::Resource(_) => false,
            }
        }),
{
    let renames = proven_renames(paths, request, before.records@, after.records@);
    assert(changes_between(before, after, request, paths)[k] == rename_change(
        before.records@,
        after.records@,
        renames[k],
    ));
}

// ---------------------------------------------------------------------------
// Hosted mutations
// ---------------------------------------------------------------------------
/// Whether the change of a record fits its inputs: it was deleted exactly where it has
/// an input before and none after, created exactly where it has none before and one
/// after, and renamed or updated where it has both.
pub open spec fn fits_inputs(change: HostedChangeModel) -> bool {
    &&& change.before is Some || change.after is Some
    &&& match change.change {
        ChangeModel::Record(said) => {
            &&& says_what_happened(said)
            &&& said.kind == RecordChangeKind::Deleted <==> change.before is Some && change.after
                is None
            &&& said.kind == RecordChangeKind::Created <==> change.before is None && change.after
                is Some
            &&& said.kind == RecordChangeKind::Renamed || said.kind == RecordChangeKind::Updated
                <==> change.before is Some && change.after is Some
            &&& said.before_revision is Some <==> change.before is Some
            &&& said.after_revision is Some <==> change.after is Some
        },
        ChangeModel::Resource(_) => false,
    }
}

/// Where a record of the request is, if it is one of them.
pub open spec fn place_before(
    request: HostedMutationRequest,
    facts: MutationFacts,
    stable: Seq<char>,
) -> Option<Seq<char>> {
    let at = context_at(request.records@, stable);
    if 0 <= at < request.records@.len() {
        Some(record_path_of(facts.paths@[at])->Ok_0)
    } else {
        None
    }
}

/// Where a record is after the mutation, if it is there.
pub open spec fn place_after(
    facts: MutationFacts,
    after: TextEntries,
    stable: Seq<char>,
) -> Option<Seq<char>> {
    match value_at(after, stable) {
        Some(path) => Some(
            record_path_of(staged_at(facts.captures@, path)->Ok_0.path_facts)->Ok_0,
        ),
        None => None,
    }
}

/// The change of a record: it is deleted exactly where the record has a place before
/// and none after, created exactly where it has none before and one after, renamed
/// exactly where it has both and they differ, and updated exactly where it has both and
/// they are the same. A record is unchanged only where its path and its document are,
/// or it is there neither before nor after.
pub proof fn lemma_change_fits_inputs(
    request: HostedMutationRequest,
    facts: MutationFacts,
    before: TextEntries,
    after: TextEntries,
    stable: Seq<char>,
)
    ensures
        ({
            let old_place = place_before(request, facts, stable);
            let new_place = place_after(facts, after, stable);
            match change_for(request, facts, before, after, stable) {
                Ok(Some(change)) => {
                    let said = change.change->Record_0;
                    &&& fits_inputs(change)
                    &&& change.stable_id == stable
                    &&& change.before is Some <==> old_place is Some
                    &&& change.after is Some <==> new_place is Some
                    &&& change.after is Some ==> {
                        let staged = staged_at(
                            facts.captures@,
                            value_at(after, stable)->0,
                        )->Ok_0;
                        &&& change.after->0.stable_id == Some(stable)
                        &&& change.after->0.path == staged.path@
                        &&& change.after->0.document == staged.document@
                        &&& said.after_revision == Some(digest_of(encode_utf8(staged.document@)))
                    }
                    &&& change.before is Some ==> {
                        let known = request.records@[context_at(request.records@, stable)];
                        &&& change.before->0.path == known.path@
                        &&& change.before->0.document == known.document@
                        &&& said.before_revision == Some(digest_of(encode_utf8(known.document@)))
                    }
                    &&& said.kind == RecordChangeKind::Deleted <==> old_place is Some && new_place
                        is None
                    &&& said.kind == RecordChangeKind::Created <==> old_place is None && new_place
                        is Some
                    &&& said.kind == RecordChangeKind::Renamed <==> old_place is Some && new_place
                        is Some && old_place != new_place
                    &&& said.kind == RecordChangeKind::Updated <==> old_place is Some && new_place
                        is Some && old_place == new_place
                    &&& new_place is Some ==> said.path == new_place->0
                    &&& new_place is None ==> said.path == old_place->0
                    &&& said.kind == RecordChangeKind::Renamed ==> said.from == old_place
                    &&& change.before is Some && change.after is Some ==> change.before->0.path
                        != change.after->0.path || change.before->0.document
                        != change.after->0.document
                },
                Ok(None) => old_place is Some <==> new_place is Some,
                Err(_) => true,
            }
        }),
{
    match change_for(request, facts, before, after, stable) {
        Ok(Some(change)) => {
            let at = context_at(request.records@, stable);
            let old_state = if 0 <= at < request.records@.len() {
                Some(
                    classification(
                        request.records@[at].document@,
                        facts.paths@[at],
                        facts.parsed@[at],
                    )->Ok_0,
                )
            } else {
                None
            };
            let new_state = match value_at(after, stable) {
                Some(path) => {
                    let staged = staged_at(facts.captures@, path)->Ok_0;
                    Some(
                        classification(staged.document@, staged.path_facts, staged.parsed)->Ok_0,
                    )
                },
                None => None,
            };
            assert(change.change == transition(old_state, new_state));
            assert(old_state is Some || new_state is Some);
            lemma_transitions_say_what_happened(old_state, new_state);
        },
        _ => {},
    }
}

proof fn lemma_changes_fit_inputs(
    request: HostedMutationRequest,
    facts: MutationFacts,
    before: TextEntries,
    paths: AppliedPaths,
    count: nat,
)
    ensures
        match changes_for(request, facts, before, paths, count) {
            Ok(list) => forall|i: int| 0 <= i < list.len() ==> fits_inputs(#[trigger] list[i]),
            Err(_) => true,
        },
    decreases count,
{
    if count > 0 {
        lemma_changes_fit_inputs(request, facts, before, paths, (count - 1) as nat);
        lemma_change_fits_inputs(
            request,
            facts,
            before,
            paths.after_by_stable,
            paths.affected[count - 1],
        );
    }
}

/// The changes of a record, or of the others, are just those among the changes.
pub proof fn lemma_own_changes(changes: Seq<HostedChangeModel>, stable: Seq<char>, own: bool)
    ensures
        forall|i: int|
            0 <= i < changes_of_record(changes, stable, own).len() ==> changes.contains(
                #[trigger] changes_of_record(changes, stable, own)[i],
            ) && ((changes_of_record(changes, stable, own)[i].stable_id == stable) == own),
        forall|i: int|
            0 <= i < changes.len() && (changes[i].stable_id == stable) == own
                ==> changes_of_record(changes, stable, own).contains(#[trigger] changes[i]),
    decreases changes.len(),
{
    if changes.len() > 0 {
        let front = changes.drop_last();
        lemma_own_changes(front, stable, own);
        let rest = changes_of_record(front, stable, own);
        let all = changes_of_record(changes, stable, own);
        assert forall|i: int| 0 <= i < all.len() implies changes.contains(#[trigger] all[i]) && ((
        all[i].stable_id == stable) == own) by {
            if i < rest.len() {
                assert(all[i] == rest[i]);
                let k = choose|k: int| 0 <= k < front.len() && front[k] == rest[i];
                assert(changes[k] == all[i]);
            } else {
                assert(changes[changes.len() - 1] == all[i]);
            }
        }
        assert forall|i: int|
            0 <= i < changes.len() && (changes[i].stable_id == stable) == own implies all.contains(
            #[trigger] changes[i],
        ) by {
            if i < front.len() {
                assert(front[i] == changes[i]);
                let k = choose|k: int| 0 <= k < rest.len() && rest[k] == front[i];
                assert(all[k] == rest[k]);
            } else {
                assert(all[all.len() - 1] == changes[i]);
            }
        }
    }
}

/// Every change of a mutation's plan fits the inputs of its record, the change set is
/// made of these changes in their order, and those of the primary record come first.
pub proof fn lemma_planned_changes_say_what_happened(
    request: HostedMutationRequest,
    facts: MutationFacts,
    i: int,
)
    requires
        mutation_plan(request, facts) is Ok,
        0 <= i < mutation_plan(request, facts)->Ok_0.changes.len(),
    ensures
        ({
            let plan = mutation_plan(request, facts)->Ok_0;
            &&& fits_inputs(plan.changes[i])
            &&& plan.change_set matches ChangeSetModel::Exact(list)
            &&& list.len() == plan.changes.len()
            &&& list[i] == plan.changes[i].change
            &&& forall|j: int|
                0 <= j < i && plan.changes[i].stable_id == request.primary_stable_id@ ==> (
                #[trigger] plan.changes[j]).stable_id == request.primary_stable_id@
        }),
{
    let plan = mutation_plan(request, facts)->Ok_0;
    let maps = crate::hosted_mutation::context_of(request, facts.paths@)->Ok_0;
    let before = maps.before_by_stable;
    let result = if crate::json::bool_member(request.input@, "dry_run"@) == Some(true) {
        facts.committed@
    } else {
        facts.staged@
    };
    let applied = crate::hosted_mutation::typed_outcome(request.operation@, result)->Ok_0;
    let paths = crate::hosted_mutation::paths_after(request, before, applied.value)->Ok_0;
    let list = changes_for(request, facts, before, paths, paths.affected.len())->Ok_0;
    let primary = request.primary_stable_id@;
    lemma_changes_fit_inputs(request, facts, before, paths, paths.affected.len());
    assert(plan.changes == primary_first(list, primary));
    lemma_own_changes(list, primary, true);
    lemma_own_changes(list, primary, false);
    let own = changes_of_record(list, primary, true);
    let others = changes_of_record(list, primary, false);
    if i < own.len() {
        assert(plan.changes[i] == own[i]);
        assert(list.contains(own[i]));
    } else {
        assert(plan.changes[i] == others[i - own.len()]);
        assert(list.contains(others[i - own.len()]));
    }
    assert forall|j: int|
        0 <= j < i && plan.changes[i].stable_id == primary implies (
    #[trigger] plan.changes[j]).stable_id == primary by {
        assert(i < own.len());
        assert(plan.changes[j] == own[j]);
    }
}

/// A single mutation moves its own record alone: a deletion takes it away, a creation
/// and a rename put it at the path asked for, an update leaves it, and every other
/// record stays where it is.
pub proof fn lemma_single_mutations_move_their_record(
    request: HostedMutationRequest,
    before: TextEntries,
    other: Seq<char>,
)
    requires
        ordered(before),
    ensures
        ({
            let after = single_paths(request, before).after_by_stable;
            let primary = request.primary_stable_id@;
            &&& other != primary ==> value_at(after, other) == value_at(before, other)
            &&& request.operation@ == "delete"@ ==> value_at(after, primary) is None
            &&& request.operation@ == "create"@ ==> value_at(after, primary) == text_member(
                request.input@,
                "path"@,
            )
            &&& request.operation@ == "update"@ ==> value_at(after, primary) == value_at(
                before,
                primary,
            )
            &&& request.operation@ == "rename"@ && member_of(request.input@, "path"@) is None
                ==> value_at(after, primary) == text_member(request.input@, "to"@)
            &&& request.operation@ == "rename"@ && text_member(request.input@, "path"@) is Some
                ==> value_at(after, primary) == text_member(request.input@, "path"@)
        }),
{
    reveal_strlit("delete");
    reveal_strlit("create");
    reveal_strlit("update");
    reveal_strlit("rename");
    reveal_strlit("batch");
    assert("delete"@[0] == 'd' && "create"@[0] == 'c' && "update"@[0] == 'u' && "rename"@[0] == 'r');
    let primary = request.primary_stable_id@;
    lemma_value_without_entry(before, primary, other);
    lemma_value_without_entry(before, primary, primary);
    assert forall|path: Seq<char>, key: Seq<char>| #[trigger]
        value_at(crate::text_map::with_entry(before, primary, path), key) == if key == primary {
            Some(path)
        } else {
            value_at(before, key)
        } by {
        lemma_value_with_entry(before, primary, path, key);
    }
}

/// A request names a path by either of two keys; the first counts where it is there.
pub proof fn lemma_paths_of_requests(value: JsonModel, first: Seq<char>, second: Seq<char>)
    ensures
        text_member(value, first) is Some ==> either_text(value, first, second) == text_member(
            value,
            first,
        ),
        member_of(value, first) is None ==> either_text(value, first, second) == text_member(
            value,
            second,
        ),
{
}

} // verus!
