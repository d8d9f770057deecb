//! Canonical changes between two snapshots of a collection.

use crate::changes::{
    change_models, sorted_set, sorted_texts, CanonicalChange, ChangeModel, RecordChange,
    RecordChangeKind, RecordChangeModel, ResourceChange, ResourceChangeKind, ResourceChangeModel,
};
use crate::json::{
    find_member, lookup, member_models, member_of, same_json, text_model, Json, JsonModel, Member,
};
use crate::operation_values::OperationKind;
use crate::provider_error::{FaultModel, ProviderError};
use crate::text::{lemma_texts_push, same_text, texts};
use vstd::prelude::*;
use vstd::string::StringExecFns;

verus! {

// ---------------------------------------------------------------------------
// Pointers
// ---------------------------------------------------------------------------
/// One character of a key inside a pointer.
pub open spec fn escaped_char(c: char) -> Seq<char> {
    if c == '~' {
        "~0"@
    } else if c == '/' {
        "~1"@
    } else {
        seq![c]
    }
}

/// A key inside a pointer.
pub open spec fn escaped(key: Seq<char>) -> Seq<char>
    decreases key.len(),
{
    if key.len() == 0 {
        Seq::empty()
    } else {
        escaped(key.drop_last()) + escaped_char(key.last())
    }
}

/// The pointer to a member of what a pointer points to.
pub open spec fn child_of(parent: Seq<char>, key: Seq<char>) -> Seq<char> {
    parent + "/"@ + escaped(key)
}

pub fn child_pointer(parent: &str, key: &str) -> (result: String)
    ensures
        result@ == child_of(parent@, key@),
        result@.len() > 0,
{
    let chars = crate::text::chars_of(key);
    let mut result = parent.to_owned().concat("/");
    let ghost start = result@;
    proof {
        reveal_strlit("/");
        reveal_strlit("~0");
        reveal_strlit("~1");
        assert(key@.take(0) =~= Seq::empty());
        assert(start + escaped(key@.take(0)) =~= start);
    }
    let mut i: usize = 0;
    while i < chars.len()
        invariant
            i <= chars@.len(),
            chars@ == key@,
            start == parent@ + "/"@,
            start.len() > 0,
            result@ == start + escaped(key@.take(i as int)),
        decreases chars@.len() - i,
    {
        proof {
            let next = key@.take(i + 1);
            assert(next.drop_last() =~= key@.take(i as int));
            assert(next.last() == key@[i as int]);
            let done = escaped(key@.take(i as int));
            assert((start + done) + escaped_char(next.last()) =~= start + (done + escaped_char(
                next.last(),
            )));
        }
        let c = chars[i];
        if c == '~' {
            result = result.concat("~0");
        } else if c == '/' {
            result = result.concat("~1");
        } else {
            let ghost before = result@;
            result.push(c);
            proof {
                assert(before.push(c) =~= before + seq![c]);
            }
        }
        i = i + 1;
    }
    proof {
        assert(key@.take(i as int) =~= key@);
    }
    result
}

// ---------------------------------------------------------------------------
// Fields
// ---------------------------------------------------------------------------
/// The pointers to the values inside a value that are no objects, or empty ones.
pub open spec fn visible(value: JsonModel, pointer: Seq<char>) -> Seq<Seq<char>>
    decreases value, 0nat,
{
    match value {
        JsonModel::Object(members) if members.len() > 0 => visible_members(
            members,
            pointer,
            members.len(),
        ),
        _ => if pointer.len() > 0 {
            seq![pointer]
        } else {
            Seq::empty()
        },
    }
}

/// The pointers to such values inside the first members of an object.
pub open spec fn visible_members(
    members: Seq<(Seq<char>, JsonModel)>,
    pointer: Seq<char>,
    count: nat,
) -> Seq<Seq<char>>
    decreases members, count,
{
    if count == 0 || count > members.len() {
        Seq::empty()
    } else {
        let last = members[count - 1];
        visible_members(members, pointer, (count - 1) as nat) + visible(
            last.1,
            child_of(pointer, last.0),
        )
    }
}

/// The pointers to what differs between two values. Objects are compared member
/// by member; a member on one side only is one difference.
pub open spec fn changed(
    before: JsonModel,
    after: Option<JsonModel>,
    pointer: Seq<char>,
) -> Seq<Seq<char>>
    decreases before, 0nat,
{
    match (before, after) {
        (before, Some(after)) if same_json(before, after) => Seq::empty(),
        (JsonModel::Object(old_members), Some(JsonModel::Object(new_members))) => changed_members(
            old_members,
            new_members,
            pointer,
            old_members.len(),
        ) + added_members(old_members, new_members, pointer, new_members.len()),
        _ => seq![pointer],
    }
}

/// The pointers to what differs in the first members of an object.
pub open spec fn changed_members(
    old_members: Seq<(Seq<char>, JsonModel)>,
    new_members: Seq<(Seq<char>, JsonModel)>,
    pointer: Seq<char>,
    count: nat,
) -> Seq<Seq<char>>
    decreases old_members, count,
{
    if count == 0 || count > old_members.len() {
        Seq::empty()
    } else {
        let last = old_members[count - 1];
        changed_members(old_members, new_members, pointer, (count - 1) as nat) + changed(
            last.1,
            lookup(new_members, last.0),
            child_of(pointer, last.0),
        )
    }
}

/// The pointers to the members that an object did not have before.
pub open spec fn added_members(
    old_members: Seq<(Seq<char>, JsonModel)>,
    new_members: Seq<(Seq<char>, JsonModel)>,
    pointer: Seq<char>,
    count: nat,
) -> Seq<Seq<char>>
    decreases count,
{
    if count == 0 || count > new_members.len() {
        Seq::empty()
    } else {
        let last = new_members[count - 1];
        let rest = added_members(old_members, new_members, pointer, (count - 1) as nat);
        if lookup(old_members, last.0) is None {
            rest.push(child_of(pointer, last.0))
        } else {
            rest
        }
    }
}

fn push_text(list: &mut Vec<String>, value: String)
    ensures
        texts(final(list)@) == texts(old(list)@) + seq![value@],
{
    let ghost before = list@;
    list.push(value);
    proof {
        lemma_texts_push(before, value);
        assert(texts(list@) =~= texts(before) + seq![value@]);
    }
}

/// Adds the pointers to the visible fields of a value.
pub fn collect_visible_fields(value: &Json, pointer: &str, fields: &mut Vec<String>)
    ensures
        texts(final(fields)@) == texts(old(fields)@) + visible(value@, pointer@),
    decreases value,
{
    broadcast use {crate::json::lemma_object_model, crate::json::lemma_array_model};

    match value {
        Json::Object(members) => {
            if members.len() > 0 {
                collect_visible_members(members, pointer, fields);
                return ;
            }
        },
        _ => {},
    }
    let ghost before = texts(fields@);
    if crate::text::chars_of(pointer).len() > 0 {
        push_text(fields, pointer.to_owned());
    } else {
        proof {
            assert(before + Seq::<Seq<char>>::empty() =~= before);
        }
    }
}

fn collect_visible_members(members: &Vec<Member>, pointer: &str, fields: &mut Vec<String>)
    ensures
        texts(final(fields)@) == texts(old(fields)@) + visible_members(
            member_models(members@),
            pointer@,
            members@.len(),
        ),
    decreases members,
{
    let ghost start = texts(fields@);
    let ghost models = member_models(members@);
    let mut i: usize = 0;
    proof {
        assert(start + visible_members(models, pointer@, 0) =~= start);
    }
    while i < members.len()
        invariant
            i <= members@.len(),
            models == member_models(members@),
            start == texts(old(fields)@),
            texts(fields@) == start + visible_members(models, pointer@, i as nat),
        decreases members@.len() - i,
    {
        let child = child_pointer(pointer, members[i].key.as_str());
        collect_visible_fields(&members[i].value, child.as_str(), fields);
        proof {
            let last = models[i as int];
            assert(last == (members@[i as int].key@, members@[i as int].value@));
            let done = visible_members(models, pointer@, i as nat);
            let more = visible(last.1, child_of(pointer@, last.0));
            assert((start + done) + more =~= start + (done + more));
        }
        i = i + 1;
    }
}

/// Adds the pointers to what differs between two values.
pub fn collect_changed_fields(
    before: &Json,
    after: Option<&Json>,
    pointer: &str,
    fields: &mut Vec<String>,
)
    ensures
        texts(final(fields)@) == texts(old(fields)@) + changed(
            before@,
            crate::json::referenced(after),
            pointer@,
        ),
    decreases before,
{
    broadcast use {crate::json::lemma_object_model, crate::json::lemma_array_model};

    let ghost start = texts(fields@);
    if let Some(after) = after {
        if before.same(after) {
            proof {
                assert(start + Seq::<Seq<char>>::empty() =~= start);
            }
            return ;
        }
        if let (Json::Object(old_members), Json::Object(new_members)) = (before, after) {
            collect_changed_members(old_members, new_members, pointer, fields);
            let ghost middle = texts(fields@);
            collect_added_members(old_members, new_members, pointer, fields);
            proof {
                let old_models = member_models(old_members@);
                let new_models = member_models(new_members@);
                let first = changed_members(old_models, new_models, pointer@, old_models.len());
                let second = added_members(old_models, new_models, pointer@, new_models.len());
                assert((start + first) + second =~= start + (first + second));
            }
            return ;
        }
    }
    push_text(fields, pointer.to_owned());
}

fn collect_changed_members(
    old_members: &Vec<Member>,
    new_members: &Vec<Member>,
    pointer: &str,
    fields: &mut Vec<String>,
)
    ensures
        texts(final(fields)@) == texts(old(fields)@) + changed_members(
            member_models(old_members@),
            member_models(new_members@),
            pointer@,
            old_members@.len(),
        ),
    decreases old_members,
{
    let ghost start = texts(fields@);
    let ghost old_models = member_models(old_members@);
    let ghost new_models = member_models(new_members@);
    let mut i: usize = 0;
    proof {
        assert(start + changed_members(old_models, new_models, pointer@, 0) =~= start);
    }
    while i < old_members.len()
        invariant
            i <= old_members@.len(),
            old_models == member_models(old_members@),
            new_models == member_models(new_members@),
            start == texts(old(fields)@),
            texts(fields@) == start + changed_members(old_models, new_models, pointer@, i as nat),
        decreases old_members@.len() - i,
    {
        let key = old_members[i].key.as_str();
        let child = child_pointer(pointer, key);
        let after = find_member(new_members, key);
        collect_changed_fields(&old_members[i].value, after, child.as_str(), fields);
        proof {
            let last = old_models[i as int];
            assert(last == (old_members@[i as int].key@, old_members@[i as int].value@));
            let done = changed_members(old_models, new_models, pointer@, i as nat);
            let more = changed(last.1, lookup(new_models, last.0), child_of(pointer@, last.0));
            assert((start + done) + more =~= start + (done + more));
        }
        i = i + 1;
    }
}

fn collect_added_members(
    old_members: &Vec<Member>,
    new_members: &Vec<Member>,
    pointer: &str,
    fields: &mut Vec<String>,
)
    ensures
        texts(final(fields)@) == texts(old(fields)@) + added_members(
            member_models(old_members@),
            member_models(new_members@),
            pointer@,
            new_members@.len(),
        ),
{
    let ghost start = texts(fields@);
    let ghost old_models = member_models(old_members@);
    let ghost new_models = member_models(new_members@);
    let mut i: usize = 0;
    proof {
        assert(start + added_members(old_models, new_models, pointer@, 0) =~= start);
    }
    while i < new_members.len()
        invariant
            i <= new_members@.len(),
            old_models == member_models(old_members@),
            new_models == member_models(new_members@),
            start == texts(old(fields)@),
            texts(fields@) == start + added_members(old_models, new_models, pointer@, i as nat),
        decreases new_members@.len() - i,
    {
        let key = new_members[i].key.as_str();
        proof {
            assert(new_models[i as int].0 == key@);
        }
        let ghost done = added_members(old_models, new_models, pointer@, i as nat);
        if find_member(old_members, key).is_none() {
            let child = child_pointer(pointer, key);
            push_text(fields, child);
            proof {
                assert((start + done) + seq![child@] =~= start + done.push(child@));
            }
        }
        i = i + 1;
    }
}

/// The changed fields between two objects: sorted pointers.
pub open spec fn changed_fields_of(before: JsonModel, after: JsonModel) -> Seq<Seq<char>> {
    sorted_set(changed(before, Some(after), Seq::empty()))
}

/// The fields of an object: sorted pointers.
pub open spec fn fields_of(value: JsonModel) -> Seq<Seq<char>> {
    sorted_set(visible(value, Seq::empty()))
}

pub fn canonical_field_changes(before: &Json, after: &Json) -> (result: Vec<String>)
    ensures
        texts(result@) == changed_fields_of(before@, after@),
{
    let mut fields: Vec<String> = Vec::new();
    proof {
        reveal_strlit("");
        assert(""@ =~= Seq::empty());
        assert(texts(fields@) =~= Seq::empty());
        let all = changed(before@, Some(after@), Seq::empty());
        assert(Seq::<Seq<char>>::empty() + all =~= all);
    }
    collect_changed_fields(before, Some(after), "", &mut fields);
    sorted_texts(&fields)
}

pub fn canonical_present_fields(value: &Json) -> (result: Vec<String>)
    ensures
        texts(result@) == fields_of(value@),
{
    let mut fields: Vec<String> = Vec::new();
    proof {
        reveal_strlit("");
        assert(""@ =~= Seq::empty());
        assert(texts(fields@) =~= Seq::empty());
        let all = visible(value@, Seq::empty());
        assert(Seq::<Seq<char>>::empty() + all =~= all);
    }
    collect_visible_fields(value, "", &mut fields);
    sorted_texts(&fields)
}

// ---------------------------------------------------------------------------
// Snapshots
// ---------------------------------------------------------------------------
#[derive(Debug, PartialEq, Eq)]
pub struct CollectionSnapshotRecord {
    pub path: String,
    pub revision: String,
    pub frontmatter: Json,
    pub body: String,
    pub types: Vec<String>,
    pub document: String,
    pub frontmatter_error: Option<String>,
}

/// What a record of a snapshot holds.
pub struct SnapshotModel {
    pub path: Seq<char>,
    pub revision: Seq<char>,
    pub frontmatter: JsonModel,
    pub body: Seq<char>,
    pub types: Seq<Seq<char>>,
    pub document: Seq<char>,
    pub frontmatter_error: Option<Seq<char>>,
}

impl View for CollectionSnapshotRecord {
    type V = SnapshotModel;

    open spec fn view(&self) -> SnapshotModel {
        SnapshotModel {
            path: self.path@,
            revision: self.revision@,
            frontmatter: self.frontmatter@,
            body: self.body@,
            types: texts(self.types@),
            document: self.document@,
            frontmatter_error: crate::text::optional_text(self.frontmatter_error),
        }
    }
}

/// What a record that may be missing holds.
pub open spec fn modeled(record: Option<CollectionSnapshotRecord>) -> Option<SnapshotModel> {
    match record {
        Some(record) => Some(record@),
        None => None,
    }
}

#[derive(Clone, Copy, Debug, PartialEq, Eq, Structural)]
pub enum CollectionSnapshotResourceKind {
    Configuration,
    Type,
    Contract,
    View,
    Lock,
    Schema,
}

#[derive(Debug, PartialEq, Eq)]
pub struct CollectionSnapshotResource {
    pub path: String,
    pub kind: CollectionSnapshotResourceKind,
    pub revision: String,
}

#[derive(Debug, PartialEq, Eq)]
pub struct CollectionSnapshot {
    pub revision: String,
    pub resource_revision: String,
    pub spec_version: String,
    pub resources: Vec<CollectionSnapshotResource>,
    pub records: Vec<CollectionSnapshotRecord>,
}

/// An operation and its input.
#[derive(Debug, PartialEq, Eq)]
pub struct OperationRequest {
    pub operation: OperationKind,
    pub input: Json,
}

impl OperationRequest {
    pub fn new(operation: OperationKind, input: Json) -> (result: OperationRequest)
        ensures
            result.operation == operation,
            result.input == input,
    {
        OperationRequest { operation, input }
    }
}

/// The last record with a path.
pub open spec fn record_at(
    records: Seq<CollectionSnapshotRecord>,
    path: Seq<char>,
) -> Option<CollectionSnapshotRecord>
    decreases records.len(),
{
    if records.len() == 0 {
        None
    } else if records.last().path@ == path {
        Some(records.last())
    } else {
        record_at(records.drop_last(), path)
    }
}

/// The last resource with a path.
pub open spec fn resource_at(
    resources: Seq<CollectionSnapshotResource>,
    path: Seq<char>,
) -> Option<CollectionSnapshotResource>
    decreases resources.len(),
{
    if resources.len() == 0 {
        None
    } else if resources.last().path@ == path {
        Some(resources.last())
    } else {
        resource_at(resources.drop_last(), path)
    }
}

fn find_record<'a>(records: &'a Vec<CollectionSnapshotRecord>, path: &str) -> (result: Option<
    &'a CollectionSnapshotRecord,
>)
    ensures
        match result {
            Some(record) => record_at(records@, path@) == Some(*record),
            None => record_at(records@, path@) is None,
        },
{
    let mut i: usize = records.len();
    proof {
        assert(records@.take(i as int) =~= records@);
    }
    while i > 0
        invariant
            i <= records@.len(),
            record_at(records@, path@) == record_at(records@.take(i as int), path@),
        decreases i,
    {
        proof {
            let front = records@.take(i as int);
            assert(front.last() == records@[i - 1]);
            assert(front.drop_last() =~= records@.take(i - 1));
        }
        i = i - 1;
        if same_text(records[i].path.as_str(), path) {
            return Some(&records[i]);
        }
    }
    None
}

fn find_resource<'a>(resources: &'a Vec<CollectionSnapshotResource>, path: &str) -> (result: Option<
    &'a CollectionSnapshotResource,
>)
    ensures
        match result {
            Some(resource) => resource_at(resources@, path@) == Some(*resource),
            None => resource_at(resources@, path@) is None,
        },
{
    let mut i: usize = resources.len();
    proof {
        assert(resources@.take(i as int) =~= resources@);
    }
    while i > 0
        invariant
            i <= resources@.len(),
            resource_at(resources@, path@) == resource_at(resources@.take(i as int), path@),
        decreases i,
    {
        proof {
            let front = resources@.take(i as int);
            assert(front.last() == resources@[i - 1]);
            assert(front.drop_last() =~= resources@.take(i - 1));
        }
        i = i - 1;
        if same_text(resources[i].path.as_str(), path) {
            return Some(&resources[i]);
        }
    }
    None
}

// ---------------------------------------------------------------------------
// Requested renames
// ---------------------------------------------------------------------------
/// The first of two members that is there, as text.
pub open spec fn either_text(
    value: JsonModel,
    first: Seq<char>,
    second: Seq<char>,
) -> Option<Seq<char>> {
    match member_of(value, first) {
        Some(member) => text_model(Some(member)),
        None => text_model(member_of(value, second)),
    }
}

/// A path as it is written, with its normal form or why it has none.
#[derive(Debug, PartialEq, Eq)]
pub struct PathForm {
    pub written: String,
    pub normal: Result<String, String>,
}

/// A revision that is not valid, and why.
#[derive(Debug, PartialEq, Eq)]
pub struct RevisionFault {
    pub revision: String,
    pub message: String,
}

/// What is known of the paths and revisions of a request and two snapshots. A path
/// that is not listed is in normal form; a revision that is not listed is valid.
#[derive(Debug, PartialEq, Eq)]
pub struct ChangeFacts {
    pub paths: Vec<PathForm>,
    pub revisions: Vec<RevisionFault>,
}

/// The normal form of a path, or why it has none.
pub open spec fn normal_path(paths: Seq<PathForm>, path: Seq<char>) -> Result<Seq<char>, Seq<char>>
    decreases paths.len(),
{
    if paths.len() == 0 {
        Ok(path)
    } else if paths[0].written@ == path {
        match paths[0].normal {
            Ok(normal) => Ok(normal@),
            Err(message) => Err(message@),
        }
    } else {
        normal_path(paths.drop_first(), path)
    }
}

fn find_normal(paths: &Vec<PathForm>, path: &str) -> (result: Result<String, String>)
    ensures
        match result {
            Ok(normal) => normal_path(paths@, path@) == Ok::<_, Seq<char>>(normal@),
            Err(message) => normal_path(paths@, path@) == Err::<Seq<char>, _>(message@),
        },
{
    let mut i: usize = 0;
    proof {
        assert(paths@.skip(0) =~= paths@);
    }
    while i < paths.len()
        invariant
            i <= paths@.len(),
            normal_path(paths@, path@) == normal_path(paths@.skip(i as int), path@),
        decreases paths@.len() - i,
    {
        proof {
            assert(paths@.skip(i as int)[0] == paths@[i as int]);
            assert(paths@.skip(i as int).drop_first() =~= paths@.skip(i + 1));
        }
        if same_text(paths[i].written.as_str(), path) {
            return match &paths[i].normal {
                Ok(normal) => Ok(normal.clone()),
                Err(message) => Err(message.clone()),
            };
        }
        i = i + 1;
    }
    Ok(path.to_owned())
}

/// The normal form of an optional path; nothing without one.
pub open spec fn normal_of(paths: Seq<PathForm>, path: Option<Seq<char>>) -> Option<Seq<char>> {
    match path {
        Some(path) => match normal_path(paths, path) {
            Ok(normal) => Some(normal),
            Err(_) => None,
        },
        None => None,
    }
}

fn find_normal_of(paths: &Vec<PathForm>, path: Option<String>) -> (result: Option<String>)
    ensures
        crate::text::optional_text(result) == normal_of(
            paths@,
            crate::text::optional_text(path),
        ),
{
    match path {
        Some(path) => match find_normal(paths, path.as_str()) {
            Ok(normal) => Some(normal),
            Err(_) => None,
        },
        None => None,
    }
}

/// The rename that an input asks for and that two snapshots prove. It is asked for
/// by the normal forms of its paths.
pub open spec fn proven(
    paths: Seq<PathForm>,
    input: JsonModel,
    before: Seq<CollectionSnapshotRecord>,
    after: Seq<CollectionSnapshotRecord>,
) -> Option<(Seq<char>, Seq<char>)> {
    match (
        normal_of(paths, either_text(input, "from"@, "path"@)),
        normal_of(paths, either_text(input, "to"@, "new_path"@)),
    ) {
        (Some(from), Some(to)) => if record_at(before, from) is Some && record_at(after, from)
            is None && record_at(before, to) is None && record_at(after, to) is Some {
            Some((from, to))
        } else {
            None
        },
        _ => None,
    }
}

/// The input of an operation of a batch that is a rename.
pub open spec fn rename_input(item: JsonModel) -> Option<JsonModel> {
    if text_model(member_of(item, "kind"@)) == Some("rename"@) {
        member_of(item, "input"@)
    } else {
        None
    }
}

/// The proven renames of the first operations of a batch.
pub open spec fn batch_renames(
    paths: Seq<PathForm>,
    items: Seq<JsonModel>,
    before: Seq<CollectionSnapshotRecord>,
    after: Seq<CollectionSnapshotRecord>,
) -> Seq<(Seq<char>, Seq<char>)>
    decreases items.len(),
{
    if items.len() == 0 {
        Seq::empty()
    } else {
        let rest = batch_renames(paths, items.drop_last(), before, after);
        match rename_input(items.last()) {
            Some(input) => match proven(paths, input, before, after) {
                Some(rename) => rest.push(rename),
                None => rest,
            },
            None => rest,
        }
    }
}

/// The renames that a request asks for and that two snapshots prove.
pub open spec fn proven_renames(
    paths: Seq<PathForm>,
    request: Option<&OperationRequest>,
    before: Seq<CollectionSnapshotRecord>,
    after: Seq<CollectionSnapshotRecord>,
) -> Seq<(Seq<char>, Seq<char>)> {
    match request {
        Some(request) => match request.operation {
            OperationKind::Rename => match proven(paths, request.input@, before, after) {
                Some(rename) => seq![rename],
                None => Seq::empty(),
            },
            OperationKind::Batch => match member_of(request.input@, "operations"@) {
                Some(JsonModel::Array(items)) => batch_renames(paths, items, before, after),
                _ => Seq::empty(),
            },
            _ => Seq::empty(),
        },
        None => Seq::empty(),
    }
}

/// A record that is renamed.
pub struct Rename {
    pub from: String,
    pub to: String,
}

pub open spec fn rename_models(renames: Seq<Rename>) -> Seq<(Seq<char>, Seq<char>)> {
    Seq::new(renames.len(), |i: int| (renames[i].from@, renames[i].to@))
}

fn either_text_of(value: &Json, first: &str, second: &str) -> (result: Option<String>)
    ensures
        crate::text::optional_text(result) == either_text(value@, first@, second@),
{
    let member = match value.get(first) {
        Some(member) => Some(member),
        None => value.get(second),
    };
    match member {
        Some(member) => match member.as_str() {
            Some(text) => Some(text.to_owned()),
            None => None,
        },
        None => None,
    }
}

fn prove_rename(
    paths: &Vec<PathForm>,
    input: &Json,
    before: &Vec<CollectionSnapshotRecord>,
    after: &Vec<CollectionSnapshotRecord>,
) -> (result: Option<Rename>)
    ensures
        match result {
            Some(rename) => proven(paths@, input@, before@, after@) == Some(
                (rename.from@, rename.to@),
            ),
            None => proven(paths@, input@, before@, after@) is None,
        },
{
    match (
        find_normal_of(paths, either_text_of(input, "from", "path")),
        find_normal_of(paths, either_text_of(input, "to", "new_path")),
    ) {
        (Some(from), Some(to)) => if find_record(before, from.as_str()).is_some() && find_record(
            after,
            from.as_str(),
        ).is_none() && find_record(before, to.as_str()).is_none() && find_record(
            after,
            to.as_str(),
        ).is_some() {
            Some(Rename { from, to })
        } else {
            None
        },
        _ => None,
    }
}

pub fn proven_requested_renames(
    paths: &Vec<PathForm>,
    request: Option<&OperationRequest>,
    before: &Vec<CollectionSnapshotRecord>,
    after: &Vec<CollectionSnapshotRecord>,
) -> (result: Vec<Rename>)
    ensures
        rename_models(result@) == proven_renames(paths@, request, before@, after@),
{
    let mut result: Vec<Rename> = Vec::new();
    proof {
        assert(rename_models(result@) =~= Seq::empty());
    }
    if let Some(request) = request {
        match request.operation {
            OperationKind::Rename => {
                if let Some(rename) = prove_rename(paths, &request.input, before, after) {
                    result.push(rename);
                    proof {
                        assert(rename_models(result@) =~= seq![(rename.from@, rename.to@)]);
                    }
                }
            },
            OperationKind::Batch => {
                if let Some(member) = request.input.get("operations") {
                    if let Some(items) = member.as_array() {
                        result = batch_requested_renames(paths, items, before, after);
                    }
                }
            },
            _ => {},
        }
    }
    result
}

fn batch_requested_renames(
    paths: &Vec<PathForm>,
    items: &Vec<Json>,
    before: &Vec<CollectionSnapshotRecord>,
    after: &Vec<CollectionSnapshotRecord>,
) -> (result: Vec<Rename>)
    ensures
        rename_models(result@) == batch_renames(
            paths@,
            crate::json::item_models(items@),
            before@,
            after@,
        ),
{
    let ghost models = crate::json::item_models(items@);
    let mut result: Vec<Rename> = Vec::new();
    proof {
        assert(rename_models(result@) =~= Seq::empty());
        assert(models.take(0) =~= Seq::empty());
    }
    let mut i: usize = 0;
    while i < items.len()
        invariant
            i <= items@.len(),
            models == crate::json::item_models(items@),
            rename_models(result@) == batch_renames(paths@, models.take(i as int), before@, after@),
        decreases items@.len() - i,
    {
        proof {
            let next = models.take(i + 1);
            assert(next.drop_last() =~= models.take(i as int));
            assert(next.last() == items@[i as int]@);
        }
        let is_rename = match items[i].get_str("kind") {
            Some(kind) => same_text(kind, "rename"),
            None => false,
        };
        if is_rename {
            if let Some(input) = items[i].get("input") {
                if let Some(rename) = prove_rename(paths, input, before, after) {
                    let ghost done = result@;
                    result.push(rename);
                    proof {
                        assert(rename_models(result@) =~= rename_models(done).push(
                            (rename.from@, rename.to@),
                        ));
                    }
                }
            }
        }
        i = i + 1;
    }
    proof {
        assert(models.take(i as int) =~= models);
    }
    result
}

// ---------------------------------------------------------------------------
// Changes
// ---------------------------------------------------------------------------
/// The revision of a record that may be missing.
pub open spec fn revision_of(record: Option<SnapshotModel>) -> Option<Seq<char>> {
    match record {
        Some(record) => Some(record.revision),
        None => None,
    }
}

pub open spec fn types_of(record: Option<SnapshotModel>) -> Seq<Seq<char>> {
    match record {
        Some(record) => sorted_set(record.types),
        None => sorted_set(Seq::empty()),
    }
}

pub open spec fn body_of(record: Option<SnapshotModel>) -> Option<Seq<char>> {
    match record {
        Some(record) => Some(record.body),
        None => None,
    }
}

/// The fields that a change touches: what differs, or all fields of the one side.
pub open spec fn touched_fields(
    before: Option<SnapshotModel>,
    after: Option<SnapshotModel>,
) -> Seq<Seq<char>> {
    match (before, after) {
        (Some(before), Some(after)) => changed_fields_of(before.frontmatter, after.frontmatter),
        (Some(before), None) => fields_of(before.frontmatter),
        (None, Some(after)) => fields_of(after.frontmatter),
        (None, None) => sorted_set(Seq::empty()),
    }
}

/// The change of a record between its two states.
pub open spec fn change_of(
    kind: RecordChangeKind,
    path: Seq<char>,
    from: Option<Seq<char>>,
    before: Option<SnapshotModel>,
    after: Option<SnapshotModel>,
) -> ChangeModel {
    ChangeModel::Record(
        RecordChangeModel {
            kind,
            path,
            from,
            before_revision: revision_of(before),
            after_revision: revision_of(after),
            before_types: types_of(before),
            after_types: types_of(after),
            changed_fields: touched_fields(before, after),
            body_changed: body_of(before) != body_of(after),
        },
    )
}

pub open spec fn renamed_from(renames: Seq<(Seq<char>, Seq<char>)>, path: Seq<char>) -> bool {
    exists|i: int| 0 <= i < renames.len() && (#[trigger] renames[i]).0 == path
}

pub open spec fn renamed_to(renames: Seq<(Seq<char>, Seq<char>)>, path: Seq<char>) -> bool {
    exists|i: int| 0 <= i < renames.len() && (#[trigger] renames[i]).1 == path
}

/// The change at one path, besides renames: an update where the revisions
/// differ, a deletion, or a creation.
pub open spec fn change_at(
    before: Seq<CollectionSnapshotRecord>,
    after: Seq<CollectionSnapshotRecord>,
    renames: Seq<(Seq<char>, Seq<char>)>,
    path: Seq<char>,
) -> Option<ChangeModel> {
    let old_record = if renamed_from(renames, path) {
        None
    } else {
        record_at(before, path)
    };
    let new_record = if renamed_to(renames, path) {
        None
    } else {
        record_at(after, path)
    };
    match (old_record, new_record) {
        (Some(old_state), Some(new_state)) => if old_state.revision@ != new_state.revision@ {
            Some(
                change_of(
                    RecordChangeKind::Updated,
                    path,
                    None,
                    modeled(old_record),
                    modeled(new_record),
                ),
            )
        } else {
            None
        },
        (Some(_), None) => Some(
            change_of(RecordChangeKind::Deleted, path, None, modeled(old_record), None),
        ),
        (None, Some(_)) => Some(
            change_of(RecordChangeKind::Created, path, None, None, modeled(new_record)),
        ),
        (None, None) => None,
    }
}

pub open spec fn rename_change(
    before: Seq<CollectionSnapshotRecord>,
    after: Seq<CollectionSnapshotRecord>,
    rename: (Seq<char>, Seq<char>),
) -> ChangeModel {
    change_of(
        RecordChangeKind::Renamed,
        rename.1,
        Some(rename.0),
        modeled(record_at(before, rename.0)),
        modeled(record_at(after, rename.1)),
    )
}

pub open spec fn rename_changes(
    before: Seq<CollectionSnapshotRecord>,
    after: Seq<CollectionSnapshotRecord>,
    renames: Seq<(Seq<char>, Seq<char>)>,
) -> Seq<ChangeModel> {
    Seq::new(renames.len(), |i: int| rename_change(before, after, renames[i]))
}

/// The changes at the given paths, in their order.
pub open spec fn changes_at(
    before: Seq<CollectionSnapshotRecord>,
    after: Seq<CollectionSnapshotRecord>,
    renames: Seq<(Seq<char>, Seq<char>)>,
    paths: Seq<Seq<char>>,
) -> Seq<ChangeModel>
    decreases paths.len(),
{
    if paths.len() == 0 {
        Seq::empty()
    } else {
        let rest = changes_at(before, after, renames, paths.drop_last());
        match change_at(before, after, renames, paths.last()) {
            Some(change) => rest.push(change),
            None => rest,
        }
    }
}

pub open spec fn changed_resource_kind(
    kind: CollectionSnapshotResourceKind,
) -> ResourceChangeKind {
    match kind {
        CollectionSnapshotResourceKind::Configuration => ResourceChangeKind::Configuration,
        CollectionSnapshotResourceKind::Type => ResourceChangeKind::TypeDefinition,
        CollectionSnapshotResourceKind::Contract => ResourceChangeKind::Contract,
        CollectionSnapshotResourceKind::View => ResourceChangeKind::ViewSource,
        CollectionSnapshotResourceKind::Lock | CollectionSnapshotResourceKind::Schema =>
        ResourceChangeKind::File,
    }
}

pub open spec fn resource_revision_of(
    resource: Option<CollectionSnapshotResource>,
) -> Option<Seq<char>> {
    match resource {
        Some(resource) => Some(resource.revision@),
        None => None,
    }
}

/// The change of the resource at one path, where its revision differs.
pub open spec fn resource_change_at(
    before: Seq<CollectionSnapshotResource>,
    after: Seq<CollectionSnapshotResource>,
    path: Seq<char>,
) -> Option<ChangeModel> {
    let old_state = resource_at(before, path);
    let new_state = resource_at(after, path);
    let known = match new_state {
        Some(_) => new_state,
        None => old_state,
    };
    match known {
        Some(known) => if resource_revision_of(old_state) == resource_revision_of(new_state) {
            None
        } else {
            Some(
                ChangeModel::Resource(
                    ResourceChangeModel {
                        kind: changed_resource_kind(known.kind),
                        path,
                        before_revision: resource_revision_of(old_state),
                        after_revision: resource_revision_of(new_state),
                    },
                ),
            )
        },
        None => None,
    }
}

pub open spec fn resource_changes_at(
    before: Seq<CollectionSnapshotResource>,
    after: Seq<CollectionSnapshotResource>,
    paths: Seq<Seq<char>>,
) -> Seq<ChangeModel>
    decreases paths.len(),
{
    if paths.len() == 0 {
        Seq::empty()
    } else {
        let rest = resource_changes_at(before, after, paths.drop_last());
        match resource_change_at(before, after, paths.last()) {
            Some(change) => rest.push(change),
            None => rest,
        }
    }
}

pub open spec fn record_paths(records: Seq<CollectionSnapshotRecord>) -> Seq<Seq<char>> {
    Seq::new(records.len(), |i: int| records[i].path@)
}

pub open spec fn resource_paths(resources: Seq<CollectionSnapshotResource>) -> Seq<Seq<char>> {
    Seq::new(resources.len(), |i: int| resources[i].path@)
}

/// The changes between two snapshots: first the proven renames, then the other
/// changes of records, then those of resources, each by ascending path.
pub open spec fn changes_between(
    before: CollectionSnapshot,
    after: CollectionSnapshot,
    request: Option<&OperationRequest>,
    paths: Seq<PathForm>,
) -> Seq<ChangeModel> {
    let renames = proven_renames(paths, request, before.records@, after.records@);
    rename_changes(before.records@, after.records@, renames) + changes_at(
        before.records@,
        after.records@,
        renames,
        sorted_set(record_paths(before.records@) + record_paths(after.records@)),
    ) + resource_changes_at(
        before.resources@,
        after.resources@,
        sorted_set(resource_paths(before.resources@) + resource_paths(after.resources@)),
    )
}

fn sorted_types(record: Option<&CollectionSnapshotRecord>) -> (result: Vec<String>)
    ensures
        texts(result@) == types_of(owned(record)),
{
    match record {
        Some(record) => sorted_texts(&record.types),
        None => {
            let none: Vec<String> = Vec::new();
            proof {
                assert(texts(none@) =~= Seq::empty());
            }
            sorted_texts(&none)
        },
    }
}

/// What a borrowed record holds.
pub open spec fn owned(record: Option<&CollectionSnapshotRecord>) -> Option<SnapshotModel> {
    match record {
        Some(record) => Some(record@),
        None => None,
    }
}

pub fn record_change(
    kind: RecordChangeKind,
    path: &str,
    from: Option<String>,
    before: Option<&CollectionSnapshotRecord>,
    after: Option<&CollectionSnapshotRecord>,
) -> (result: CanonicalChange)
    ensures
        result@ == change_of(
            kind,
            path@,
            crate::text::optional_text(from),
            owned(before),
            owned(after),
        ),
{
    let changed_fields = match (before, after) {
        (Some(before), Some(after)) => canonical_field_changes(
            &before.frontmatter,
            &after.frontmatter,
        ),
        (Some(before), None) => canonical_present_fields(&before.frontmatter),
        (None, Some(after)) => canonical_present_fields(&after.frontmatter),
        (None, None) => sorted_types(None),
    };
    let body_changed = match (before, after) {
        (Some(before), Some(after)) => !same_text(before.body.as_str(), after.body.as_str()),
        (None, None) => false,
        _ => true,
    };
    CanonicalChange::Record(
        RecordChange {
            kind,
            path: path.to_owned(),
            from,
            before_revision: match before {
                Some(record) => Some(record.revision.clone()),
                None => None,
            },
            after_revision: match after {
                Some(record) => Some(record.revision.clone()),
                None => None,
            },
            before_types: sorted_types(before),
            after_types: sorted_types(after),
            changed_fields,
            body_changed,
        },
    )
}

fn is_renamed(renames: &Vec<Rename>, path: &str, source: bool) -> (result: bool)
    ensures
        result == if source {
            renamed_from(rename_models(renames@), path@)
        } else {
            renamed_to(rename_models(renames@), path@)
        },
{
    let ghost models = rename_models(renames@);
    let mut i: usize = 0;
    while i < renames.len()
        invariant
            i <= renames@.len(),
            models == rename_models(renames@),
            forall|k: int|
                0 <= k < i ==> if source {
                    (#[trigger] models[k]).0 != path@
                } else {
                    models[k].1 != path@
                },
        decreases renames@.len() - i,
    {
        proof {
            assert(models[i as int] == (renames@[i as int].from@, renames@[i as int].to@));
        }
        let name = if source {
            renames[i].from.as_str()
        } else {
            renames[i].to.as_str()
        };
        if same_text(name, path) {
            return true;
        }
        i = i + 1;
    }
    false
}

fn record_change_at(
    before: &Vec<CollectionSnapshotRecord>,
    after: &Vec<CollectionSnapshotRecord>,
    renames: &Vec<Rename>,
    path: &str,
) -> (result: Option<CanonicalChange>)
    ensures
        match result {
            Some(change) => change_at(before@, after@, rename_models(renames@), path@) == Some(
                change@,
            ),
            None => change_at(before@, after@, rename_models(renames@), path@) is None,
        },
{
    let old_record = if is_renamed(renames, path, true) {
        None
    } else {
        find_record(before, path)
    };
    let new_record = if is_renamed(renames, path, false) {
        None
    } else {
        find_record(after, path)
    };
    match (old_record, new_record) {
        (Some(old_state), Some(new_state)) => if same_text(
            old_state.revision.as_str(),
            new_state.revision.as_str(),
        ) {
            None
        } else {
            Some(record_change(RecordChangeKind::Updated, path, None, old_record, new_record))
        },
        (Some(_), None) => Some(
            record_change(RecordChangeKind::Deleted, path, None, old_record, None),
        ),
        (None, Some(_)) => Some(
            record_change(RecordChangeKind::Created, path, None, None, new_record),
        ),
        (None, None) => None,
    }
}

fn resource_kind(kind: CollectionSnapshotResourceKind) -> (result: ResourceChangeKind)
    ensures
        result == changed_resource_kind(kind),
{
    match kind {
        CollectionSnapshotResourceKind::Configuration => ResourceChangeKind::Configuration,
        CollectionSnapshotResourceKind::Type => ResourceChangeKind::TypeDefinition,
        CollectionSnapshotResourceKind::Contract => ResourceChangeKind::Contract,
        CollectionSnapshotResourceKind::View => ResourceChangeKind::ViewSource,
        CollectionSnapshotResourceKind::Lock | CollectionSnapshotResourceKind::Schema =>
        ResourceChangeKind::File,
    }
}

fn find_resource_change(
    before: &Vec<CollectionSnapshotResource>,
    after: &Vec<CollectionSnapshotResource>,
    path: &str,
) -> (result: Option<CanonicalChange>)
    ensures
        match result {
            Some(change) => resource_change_at(before@, after@, path@) == Some(change@),
            None => resource_change_at(before@, after@, path@) is None,
        },
{
    let old_state = find_resource(before, path);
    let new_state = find_resource(after, path);
    let known = match new_state {
        Some(state) => state,
        None => match old_state {
            Some(state) => state,
            None => {
                return None;
            },
        },
    };
    let before_revision = match old_state {
        Some(state) => Some(state.revision.clone()),
        None => None,
    };
    let after_revision = match new_state {
        Some(state) => Some(state.revision.clone()),
        None => None,
    };
    if crate::changes::same_optional(&before_revision, &after_revision) {
        return None;
    }
    Some(
        CanonicalChange::Resource(
            ResourceChange {
                kind: resource_kind(known.kind),
                path: path.to_owned(),
                before_revision,
                after_revision,
            },
        ),
    )
}

fn push_change(changes: &mut Vec<CanonicalChange>, change: CanonicalChange)
    ensures
        change_models(final(changes)@) == change_models(old(changes)@).push(change@),
{
    let ghost before = changes@;
    changes.push(change);
    proof {
        assert(change_models(changes@) =~= change_models(before).push(change@));
    }
}

fn sorted_record_paths(
    before: &Vec<CollectionSnapshotRecord>,
    after: &Vec<CollectionSnapshotRecord>,
) -> (result: Vec<String>)
    ensures
        texts(result@) == sorted_set(record_paths(before@) + record_paths(after@)),
{
    let mut paths: Vec<String> = Vec::new();
    let mut i: usize = 0;
    while i < before.len()
        invariant
            i <= before@.len(),
            paths@.len() == i,
            forall|k: int| 0 <= k < i ==> (#[trigger] paths@[k])@ == before@[k].path@,
        decreases before@.len() - i,
    {
        paths.push(before[i].path.clone());
        i = i + 1;
    }
    let mut j: usize = 0;
    while j < after.len()
        invariant
            j <= after@.len(),
            paths@.len() == before@.len() + j,
            forall|k: int|
                0 <= k < before@.len() ==> (#[trigger] paths@[k])@ == before@[k].path@,
            forall|k: int|
                0 <= k < j ==> (#[trigger] paths@[before@.len() + k])@ == after@[k].path@,
        decreases after@.len() - j,
    {
        paths.push(after[j].path.clone());
        j = j + 1;
    }
    proof {
        let all = record_paths(before@) + record_paths(after@);
        assert forall|k: int| 0 <= k < all.len() implies texts(paths@)[k] == all[k] by {
            if k >= before@.len() {
                assert(paths@[before@.len() + (k - before@.len())]@ == after@[k
                    - before@.len()].path@);
            }
        }
        assert(texts(paths@) =~= all);
    }
    sorted_texts(&paths)
}

fn sorted_resource_paths(
    before: &Vec<CollectionSnapshotResource>,
    after: &Vec<CollectionSnapshotResource>,
) -> (result: Vec<String>)
    ensures
        texts(result@) == sorted_set(resource_paths(before@) + resource_paths(after@)),
{
    let mut paths: Vec<String> = Vec::new();
    let mut i: usize = 0;
    while i < before.len()
        invariant
            i <= before@.len(),
            paths@.len() == i,
            forall|k: int| 0 <= k < i ==> (#[trigger] paths@[k])@ == before@[k].path@,
        decreases before@.len() - i,
    {
        paths.push(before[i].path.clone());
        i = i + 1;
    }
    let mut j: usize = 0;
    while j < after.len()
        invariant
            j <= after@.len(),
            paths@.len() == before@.len() + j,
            forall|k: int|
                0 <= k < before@.len() ==> (#[trigger] paths@[k])@ == before@[k].path@,
            forall|k: int|
                0 <= k < j ==> (#[trigger] paths@[before@.len() + k])@ == after@[k].path@,
        decreases after@.len() - j,
    {
        paths.push(after[j].path.clone());
        j = j + 1;
    }
    proof {
        let all = resource_paths(before@) + resource_paths(after@);
        assert forall|k: int| 0 <= k < all.len() implies texts(paths@)[k] == all[k] by {
            if k >= before@.len() {
                assert(paths@[before@.len() + (k - before@.len())]@ == after@[k
                    - before@.len()].path@);
            }
        }
        assert(texts(paths@) =~= all);
    }
    sorted_texts(&paths)
}

/// Why a revision is not valid, if it is listed as such.
pub open spec fn revision_fault(
    revisions: Seq<RevisionFault>,
    revision: Option<Seq<char>>,
) -> Option<Seq<char>>
    decreases revisions.len(),
{
    if revisions.len() == 0 || revision is None {
        None
    } else if revisions[0].revision@ == revision->0 {
        Some(revisions[0].message@)
    } else {
        revision_fault(revisions.drop_first(), revision)
    }
}

fn find_revision_fault(
    revisions: &Vec<RevisionFault>,
    revision: &Option<String>,
) -> (result: Option<
    String,
>)
    ensures
        crate::text::optional_text(result) == revision_fault(
            revisions@,
            crate::text::optional_text(*revision),
        ),
{
    let wanted = match revision {
        Some(revision) => revision.as_str(),
        None => {
            return None;
        },
    };
    let ghost model = crate::text::optional_text(*revision);
    let mut i: usize = 0;
    proof {
        assert(revisions@.skip(0) =~= revisions@);
    }
    while i < revisions.len()
        invariant
            i <= revisions@.len(),
            model == Some(wanted@),
            model == crate::text::optional_text(*revision),
            revision_fault(revisions@, model) == revision_fault(
                revisions@.skip(i as int),
                model,
            ),
        decreases revisions@.len() - i,
    {
        proof {
            assert(revisions@.skip(i as int)[0] == revisions@[i as int]);
            assert(revisions@.skip(i as int).drop_first() =~= revisions@.skip(i + 1));
        }
        if same_text(revisions[i].revision.as_str(), wanted) {
            return Some(revisions[i].message.clone());
        }
        i = i + 1;
    }
    None
}

/// A change with its path in normal form; or why its path or one of its revisions
/// is not valid, whichever comes first.
pub open spec fn checked_change(change: ChangeModel, facts: ChangeFacts) -> Result<
    ChangeModel,
    Seq<char>,
> {
    let (path, before, after) = match change {
        ChangeModel::Record(change) => (
            change.path,
            change.before_revision,
            change.after_revision,
        ),
        ChangeModel::Resource(change) => (
            change.path,
            change.before_revision,
            change.after_revision,
        ),
    };
    match normal_path(facts.paths@, path) {
        Err(message) => Err(message),
        Ok(path) => if let Some(message) = revision_fault(facts.revisions@, before) {
            Err(message)
        } else if let Some(message) = revision_fault(facts.revisions@, after) {
            Err(message)
        } else {
            Ok(
                match change {
                    ChangeModel::Record(change) => ChangeModel::Record(
                        RecordChangeModel { path, ..change },
                    ),
                    ChangeModel::Resource(change) => ChangeModel::Resource(
                        ResourceChangeModel { path, ..change },
                    ),
                },
            )
        },
    }
}

/// Changes with their paths in normal form; or the first fault of one.
pub open spec fn checked_changes(changes: Seq<ChangeModel>, facts: ChangeFacts) -> Result<
    Seq<ChangeModel>,
    Seq<char>,
>
    decreases changes.len(),
{
    if changes.len() == 0 {
        Ok(Seq::empty())
    } else {
        match checked_changes(changes.drop_last(), facts) {
            Err(message) => Err(message),
            Ok(rest) => match checked_change(changes.last(), facts) {
                Err(message) => Err(message),
                Ok(change) => Ok(rest.push(change)),
            },
        }
    }
}

proof fn lemma_checked_stops(changes: Seq<ChangeModel>, facts: ChangeFacts, count: int)
    requires
        0 <= count <= changes.len(),
        checked_changes(changes.take(count), facts) is Err,
    ensures
        checked_changes(changes, facts) == checked_changes(changes.take(count), facts),
    decreases changes.len(),
{
    if count < changes.len() {
        assert(changes.drop_last().take(count) =~= changes.take(count));
        lemma_checked_stops(changes.drop_last(), facts, count);
    } else {
        assert(changes.take(count) =~= changes);
    }
}

fn check_parts(
    path: &str,
    before: &Option<String>,
    after: &Option<String>,
    facts: &ChangeFacts,
) -> (result: Result<String, String>)
    ensures
        match result {
            Ok(normal) => {
                &&& normal_path(facts.paths@, path@) == Ok::<_, Seq<char>>(normal@)
                &&& revision_fault(facts.revisions@, crate::text::optional_text(*before)) is None
                &&& revision_fault(facts.revisions@, crate::text::optional_text(*after)) is None
            },
            Err(message) => match normal_path(facts.paths@, path@) {
                Err(fault) => message@ == fault,
                Ok(_) => match revision_fault(
                    facts.revisions@,
                    crate::text::optional_text(*before),
                ) {
                    Some(fault) => message@ == fault,
                    None => revision_fault(facts.revisions@, crate::text::optional_text(*after))
                        == Some(message@),
                },
            },
        },
{
    let normal = match find_normal(&facts.paths, path) {
        Ok(normal) => normal,
        Err(message) => {
            return Err(message);
        },
    };
    if let Some(message) = find_revision_fault(&facts.revisions, before) {
        return Err(message);
    }
    if let Some(message) = find_revision_fault(&facts.revisions, after) {
        return Err(message);
    }
    Ok(normal)
}

fn check_change(change: &CanonicalChange, facts: &ChangeFacts) -> (result: Result<
    CanonicalChange,
    String,
>)
    ensures
        match result {
            Ok(checked) => checked_change(change@, *facts) == Ok::<_, Seq<char>>(checked@),
            Err(message) => checked_change(change@, *facts) == Err::<ChangeModel, _>(message@),
        },
{
    match change {
        CanonicalChange::Record(record) => match check_parts(
            record.path.as_str(),
            &record.before_revision,
            &record.after_revision,
            facts,
        ) {
            Ok(path) => {
                let copied = record.copy();
                Ok(CanonicalChange::Record(RecordChange { path, ..copied }))
            },
            Err(message) => Err(message),
        },
        CanonicalChange::Resource(resource) => match check_parts(
            resource.path.as_str(),
            &resource.before_revision,
            &resource.after_revision,
            facts,
        ) {
            Ok(path) => {
                let copied = resource.copy();
                Ok(CanonicalChange::Resource(ResourceChange { path, ..copied }))
            },
            Err(message) => Err(message),
        },
    }
}

/// The canonical changes between two snapshots, with their paths in normal form. A
/// path without one, and a revision that is not valid, is an error.
pub fn canonical_changes(
    before: &CollectionSnapshot,
    after: &CollectionSnapshot,
    request: Option<&OperationRequest>,
    facts: &ChangeFacts,
) -> (result: Result<Vec<CanonicalChange>, ProviderError>)
    ensures
        match (
            result,
            checked_changes(changes_between(*before, *after, request, facts.paths@), *facts),
        ) {
            (Ok(changes), Ok(expected)) => change_models(changes@) == expected,
            (Err(error), Err(message)) => error@ == FaultModel::InvalidChangeSet(message),
            _ => false,
        },
{
    let found = snapshot_changes(before, after, request, &facts.paths);
    let ghost all = change_models(found@);
    let mut changes: Vec<CanonicalChange> = Vec::new();
    proof {
        assert(change_models(changes@) =~= Seq::empty());
    }
    let mut i: usize = 0;
    while i < found.len()
        invariant
            i <= found@.len(),
            all == change_models(found@),
            all == changes_between(*before, *after, request, facts.paths@),
            checked_changes(all.take(i as int), *facts) == Ok::<_, Seq<char>>(
                change_models(changes@),
            ),
        decreases found@.len() - i,
    {
        proof {
            assert(all.take(i + 1).drop_last() =~= all.take(i as int));
            assert(all.take(i + 1).last() == found@[i as int]@);
        }
        match check_change(&found[i], facts) {
            Ok(change) => {
                let ghost done = changes@;
                changes.push(change);
                proof {
                    assert(change_models(changes@) =~= change_models(done).push(change@));
                }
            },
            Err(message) => {
                proof {
                    assert(checked_changes(all.take(i + 1), *facts) == Err::<Seq<ChangeModel>, _>(
                        message@,
                    ));
                    lemma_checked_stops(all, *facts, i + 1);
                }
                return Err(ProviderError::InvalidChangeSet(message));
            },
        }
        i = i + 1;
    }
    proof {
        assert(all.take(i as int) =~= all);
    }
    Ok(changes)
}

/// The changes between two snapshots, by the paths that the snapshots have.
fn snapshot_changes(
    before: &CollectionSnapshot,
    after: &CollectionSnapshot,
    request: Option<&OperationRequest>,
    forms: &Vec<PathForm>,
) -> (result: Vec<CanonicalChange>)
    ensures
        change_models(result@) == changes_between(*before, *after, request, forms@),
{
    let renames = proven_requested_renames(forms, request, &before.records, &after.records);
    let ghost models = rename_models(renames@);
    let mut changes: Vec<CanonicalChange> = Vec::new();
    let mut i: usize = 0;
    while i < renames.len()
        invariant
            i <= renames@.len(),
            models == rename_models(renames@),
            changes@.len() == i,
            forall|k: int|
                0 <= k < i ==> (#[trigger] changes@[k])@ == rename_change(
                    before.records@,
                    after.records@,
                    models[k],
                ),
        decreases renames@.len() - i,
    {
        let old_record = find_record(&before.records, renames[i].from.as_str());
        let new_record = find_record(&after.records, renames[i].to.as_str());
        let change = record_change(
            RecordChangeKind::Renamed,
            renames[i].to.as_str(),
            Some(renames[i].from.clone()),
            old_record,
            new_record,
        );
        changes.push(change);
        i = i + 1;
    }
    let ghost first = rename_changes(before.records@, after.records@, models);
    proof {
        assert(change_models(changes@) =~= first);
    }
    let paths = sorted_record_paths(&before.records, &after.records);
    let ghost path_models = texts(paths@);
    proof {
        assert(path_models.take(0) =~= Seq::empty());
        assert(first + Seq::<ChangeModel>::empty() =~= first);
    }
    let mut j: usize = 0;
    while j < paths.len()
        invariant
            j <= paths@.len(),
            path_models == texts(paths@),
            models == rename_models(renames@),
            change_models(changes@) == first + changes_at(
                before.records@,
                after.records@,
                models,
                path_models.take(j as int),
            ),
        decreases paths@.len() - j,
    {
        proof {
            let next = path_models.take(j + 1);
            assert(next.drop_last() =~= path_models.take(j as int));
            assert(next.last() == paths@[j as int]@);
        }
        let ghost done = changes_at(
            before.records@,
            after.records@,
            models,
            path_models.take(j as int),
        );
        if let Some(change) = record_change_at(
            &before.records,
            &after.records,
            &renames,
            paths[j].as_str(),
        ) {
            push_change(&mut changes, change);
            proof {
                assert((first + done).push(change@) =~= first + done.push(change@));
            }
        }
        j = j + 1;
    }
    proof {
        assert(path_models.take(j as int) =~= path_models);
    }
    let ghost second = change_models(changes@);
    let paths = sorted_resource_paths(&before.resources, &after.resources);
    let ghost path_models = texts(paths@);
    proof {
        assert(path_models.take(0) =~= Seq::empty());
        assert(second + Seq::<ChangeModel>::empty() =~= second);
    }
    let mut k: usize = 0;
    while k < paths.len()
        invariant
            k <= paths@.len(),
            path_models == texts(paths@),
            change_models(changes@) == second + resource_changes_at(
                before.resources@,
                after.resources@,
                path_models.take(k as int),
            ),
        decreases paths@.len() - k,
    {
        proof {
            let next = path_models.take(k + 1);
            assert(next.drop_last() =~= path_models.take(k as int));
            assert(next.last() == paths@[k as int]@);
        }
        let ghost done = resource_changes_at(
            before.resources@,
            after.resources@,
            path_models.take(k as int),
        );
        if let Some(change) = find_resource_change(
            &before.resources,
            &after.resources,
            paths[k].as_str(),
        ) {
            push_change(&mut changes, change);
            proof {
                assert((second + done).push(change@) =~= second + done.push(change@));
            }
        }
        k = k + 1;
    }
    proof {
        assert(path_models.take(k as int) =~= path_models);
    }
    changes
}

// ---------------------------------------------------------------------------
// Laws
// ---------------------------------------------------------------------------
/// Equal values have no changed fields.
pub proof fn lemma_equal_values_have_no_changes(
    before: JsonModel,
    after: JsonModel,
    pointer: Seq<char>,
)
    requires
        same_json(before, after),
    ensures
        changed(before, Some(after), pointer).len() == 0,
{
}

proof fn lemma_unchanged_paths(
    before: Seq<CollectionSnapshotRecord>,
    after: Seq<CollectionSnapshotRecord>,
    paths: Seq<Seq<char>>,
)
    requires
        forall|path: Seq<char>|
            revision_of(modeled(#[trigger] record_at(before, path))) == revision_of(
                modeled(record_at(after, path)),
            ),
    ensures
        changes_at(before, after, Seq::empty(), paths).len() == 0,
    decreases paths.len(),
{
    if paths.len() > 0 {
        lemma_unchanged_paths(before, after, paths.drop_last());
        let path = paths.last();
        assert(revision_of(modeled(record_at(before, path))) == revision_of(
            modeled(record_at(after, path)),
        ));
    }
}

proof fn lemma_unchanged_resources(
    before: Seq<CollectionSnapshotResource>,
    after: Seq<CollectionSnapshotResource>,
    paths: Seq<Seq<char>>,
)
    requires
        forall|path: Seq<char>|
            resource_revision_of(#[trigger] resource_at(before, path)) == resource_revision_of(
                resource_at(after, path),
            ),
    ensures
        resource_changes_at(before, after, paths).len() == 0,
    decreases paths.len(),
{
    if paths.len() > 0 {
        lemma_unchanged_resources(before, after, paths.drop_last());
        let path = paths.last();
        assert(resource_revision_of(resource_at(before, path)) == resource_revision_of(
            resource_at(after, path),
        ));
    }
}

proof fn lemma_no_batch_renames(
    paths: Seq<PathForm>,
    items: Seq<JsonModel>,
    before: Seq<CollectionSnapshotRecord>,
    after: Seq<CollectionSnapshotRecord>,
)
    requires
        forall|path: Seq<char>|
            revision_of(modeled(#[trigger] record_at(before, path))) == revision_of(
                modeled(record_at(after, path)),
            ),
    ensures
        batch_renames(paths, items, before, after).len() == 0,
    decreases items.len(),
{
    if items.len() > 0 {
        lemma_no_batch_renames(paths, items.drop_last(), before, after);
        if let Some(input) = rename_input(items.last()) {
            if let Some(from) = normal_of(paths, either_text(input, "from"@, "path"@)) {
                assert(revision_of(modeled(record_at(before, from))) == revision_of(
                    modeled(record_at(after, from)),
                ));
            }
        }
    }
}

/// Snapshots with the same revisions at the same paths have no changes between
/// them, whatever was requested.
pub proof fn lemma_same_revisions_have_no_changes(
    before: CollectionSnapshot,
    after: CollectionSnapshot,
    request: Option<&OperationRequest>,
    paths: Seq<PathForm>,
)
    requires
        forall|path: Seq<char>|
            revision_of(modeled(#[trigger] record_at(before.records@, path))) == revision_of(
                modeled(record_at(after.records@, path)),
            ),
        forall|path: Seq<char>|
            resource_revision_of(#[trigger] resource_at(before.resources@, path))
                == resource_revision_of(resource_at(after.resources@, path)),
    ensures
        changes_between(before, after, request, paths).len() == 0,
{
    let renames = proven_renames(paths, request, before.records@, after.records@);
    if let Some(request) = request {
        if let Some(from) = normal_of(paths, either_text(request.input@, "from"@, "path"@)) {
            assert(revision_of(modeled(record_at(before.records@, from))) == revision_of(
                modeled(record_at(after.records@, from)),
            ));
        }
        if let Some(JsonModel::Array(items)) = member_of(request.input@, "operations"@) {
            lemma_no_batch_renames(paths, items, before.records@, after.records@);
        }
    }
    assert(renames =~= Seq::empty());
    lemma_unchanged_paths(
        before.records@,
        after.records@,
        sorted_set(record_paths(before.records@) + record_paths(after.records@)),
    );
    lemma_unchanged_resources(
        before.resources@,
        after.resources@,
        sorted_set(resource_paths(before.resources@) + resource_paths(after.resources@)),
    );
}

proof fn lemma_change_is_listed(
    before: Seq<CollectionSnapshotRecord>,
    after: Seq<CollectionSnapshotRecord>,
    renames: Seq<(Seq<char>, Seq<char>)>,
    paths: Seq<Seq<char>>,
    at: int,
)
    requires
        0 <= at < paths.len(),
        change_at(before, after, renames, paths[at]) is Some,
    ensures
        changes_at(before, after, renames, paths).contains(
            change_at(before, after, renames, paths[at])->0,
        ),
    decreases paths.len(),
{
    let change = change_at(before, after, renames, paths[at])->0;
    let all = changes_at(before, after, renames, paths);
    let rest = changes_at(before, after, renames, paths.drop_last());
    if at == paths.len() - 1 {
        assert(all[all.len() - 1] == change);
    } else {
        lemma_change_is_listed(before, after, renames, paths.drop_last(), at);
        let k = choose|k: int| 0 <= k < rest.len() && rest[k] == change;
        assert(all[k] == change);
    }
}

proof fn lemma_path_is_listed(records: Seq<CollectionSnapshotRecord>, path: Seq<char>)
    requires
        record_at(records, path) is Some,
    ensures
        record_paths(records).contains(path),
    decreases records.len(),
{
    if records.last().path@ == path {
        assert(record_paths(records)[records.len() - 1] == path);
    } else {
        let front = records.drop_last();
        lemma_path_is_listed(front, path);
        let k = choose|k: int| 0 <= k < front.len() && record_paths(front)[k] == path;
        assert(record_paths(records)[k] == path);
    }
}

/// No change of a record is missed: whatever differs at a path is among the
/// changes.
pub proof fn lemma_every_record_change_is_listed(
    before: CollectionSnapshot,
    after: CollectionSnapshot,
    request: Option<&OperationRequest>,
    paths: Seq<PathForm>,
    path: Seq<char>,
)
    requires
        change_at(
            before.records@,
            after.records@,
            proven_renames(paths, request, before.records@, after.records@),
            path,
        ) is Some,
    ensures
        changes_between(before, after, request, paths).contains(
            change_at(
                before.records@,
                after.records@,
                proven_renames(paths, request, before.records@, after.records@),
                path,
            )->0,
        ),
{
    let renames = proven_renames(paths, request, before.records@, after.records@);
    let old_paths = record_paths(before.records@);
    let new_paths = record_paths(after.records@);
    let source = old_paths + new_paths;
    let listed = sorted_set(source);
    crate::changes::lemma_sorted_set_holds(source);
    if record_at(before.records@, path) is Some {
        lemma_path_is_listed(before.records@, path);
        let k = choose|k: int| 0 <= k < old_paths.len() && old_paths[k] == path;
        assert(source[k] == path);
    } else {
        lemma_path_is_listed(after.records@, path);
        let k = choose|k: int| 0 <= k < new_paths.len() && new_paths[k] == path;
        assert(source[old_paths.len() + k] == path);
    }
    assert(listed.contains(path));
    let at = choose|at: int| 0 <= at < listed.len() && listed[at] == path;
    lemma_change_is_listed(before.records@, after.records@, renames, listed, at);
    let first = rename_changes(before.records@, after.records@, renames);
    let second = changes_at(before.records@, after.records@, renames, listed);
    let change = change_at(before.records@, after.records@, renames, path)->0;
    let k = choose|k: int| 0 <= k < second.len() && second[k] == change;
    assert(changes_between(before, after, request, paths)[first.len() + k] == change);
}

} // verus!
