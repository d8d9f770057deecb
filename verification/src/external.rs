//! Canonical changes out of filesystem observations.

use crate::changes::{
    change_models, lists_change, sorted_set, sorted_texts, CanonicalChange, ChangeModel, ChangeSet,
    ChangeSetModel, RebuildReason, RecordChange, RecordChangeKind, RecordChangeModel,
    ResourceChange, ResourceChangeKind, ResourceChangeModel,
};
use crate::diff::{canonical_field_changes, canonical_present_fields, changed_fields_of, fields_of};
use crate::json::{array_texts, bool_member, member_of, text_member, texts_of, Json, JsonModel};
use crate::operation_values::{object_member, object_member_of};
use crate::provider_error::ProviderError;
use crate::text::{concat3, optional_text, same_text, texts};
use vstd::prelude::*;
use vstd::string::StringExecFns;

verus! {

/// One observation of a collection watcher.
#[derive(Debug, PartialEq, Eq)]
pub struct WatchEvent {
    pub event_type: String,
    pub payload: Json,
}

/// What is known of the parts of an observation that name paths and revisions: the
/// normal form of a path that is not written in it or why a path has none, and why
/// a revision is not valid, where it is not.
#[derive(Debug, PartialEq, Eq)]
pub struct ObservedFaults {
    pub path: Option<Result<String, String>>,
    pub from: Option<Result<String, String>>,
    pub previous_revision: Option<String>,
    pub revision: Option<String>,
}

impl ObservedFaults {
    /// Paths in normal form, and valid revisions.
    pub fn none() -> (result: ObservedFaults)
        ensures
            result.path is None,
            result.from is None,
            result.previous_revision is None,
            result.revision is None,
    {
        ObservedFaults { path: None, from: None, previous_revision: None, revision: None }
    }
}

/// The message for a missing part of a record observation.
pub open spec fn missing_part(field: Seq<char>) -> Seq<char> {
    "record event "@ + field + " is missing"@
}

/// The object of an observation's member.
pub open spec fn observed_object(payload: JsonModel, field: Seq<char>) -> Result<
    JsonModel,
    Seq<char>,
> {
    match object_member(payload, field) {
        Some(value) => Ok(value),
        None => Err(missing_part(field)),
    }
}

/// The normal form of a path that is written in some form.
pub open spec fn normal_form(written: Seq<char>, known: Option<Result<String, String>>) -> Result<
    Seq<char>,
    Seq<char>,
> {
    match known {
        None => Ok(written),
        Some(Ok(normal)) => Ok(normal@),
        Some(Err(message)) => Err(message@),
    }
}

fn to_normal_form(written: &str, known: &Option<Result<String, String>>) -> (result: Result<
    String,
    String,
>)
    ensures
        match result {
            Ok(path) => normal_form(written@, *known) == Ok::<_, Seq<char>>(path@),
            Err(message) => normal_form(written@, *known) == Err::<Seq<char>, _>(message@),
        },
{
    match known {
        None => Ok(written.to_owned()),
        Some(Ok(normal)) => Ok(normal.clone()),
        Some(Err(message)) => Err(message.clone()),
    }
}

/// The path of an observation's member, in its normal form.
pub open spec fn observed_path(
    payload: JsonModel,
    field: Seq<char>,
    known: Option<Result<String, String>>,
) -> Result<Seq<char>, Seq<char>> {
    match text_member(payload, field) {
        None => Err(missing_part(field)),
        Some(path) => normal_form(path, known),
    }
}

/// The revision of an observation's member; missing and null mean none.
pub open spec fn observed_revision(
    payload: JsonModel,
    field: Seq<char>,
    fault: Option<Seq<char>>,
) -> Result<Option<Seq<char>>, Seq<char>> {
    match member_of(payload, field) {
        None | Some(JsonModel::Null) => Ok(None),
        Some(JsonModel::Text(revision)) => match fault {
            Some(fault) => Err(fault),
            None => Ok(Some(revision)),
        },
        Some(_) => Err("event revision is not a string"@),
    }
}

/// The types of an observation's member.
pub open spec fn observed_types(payload: JsonModel, field: Seq<char>) -> Seq<Seq<char>> {
    sorted_set(array_texts(member_of(payload, field)))
}

/// Whether an observation says that the body changed.
pub open spec fn observed_body(payload: JsonModel, otherwise: bool) -> bool {
    match bool_member(payload, "body_changed"@) {
        Some(changed) => changed,
        None => otherwise,
    }
}

pub open spec fn observed_creation(payload: JsonModel, faults: ObservedFaults) -> Result<
    ChangeModel,
    Seq<char>,
> {
    match observed_object(payload, "raw_after"@) {
        Err(message) => Err(message),
        Ok(after) => match observed_path(payload, "path"@, faults.path) {
            Err(message) => Err(message),
            Ok(path) => match observed_revision(
                payload,
                "revision"@,
                optional_text(faults.revision),
            ) {
                Err(message) => Err(message),
                Ok(after_revision) => Ok(
                    ChangeModel::Record(
                        RecordChangeModel {
                            kind: RecordChangeKind::Created,
                            path,
                            from: None,
                            before_revision: None,
                            after_revision,
                            before_types: Seq::empty(),
                            after_types: observed_types(payload, "types"@),
                            changed_fields: fields_of(after),
                            body_changed: observed_body(payload, true),
                        },
                    ),
                ),
            },
        },
    }
}

pub open spec fn observed_deletion(payload: JsonModel, faults: ObservedFaults) -> Result<
    ChangeModel,
    Seq<char>,
> {
    match observed_object(payload, "raw_before"@) {
        Err(message) => Err(message),
        Ok(before) => match observed_path(payload, "path"@, faults.path) {
            Err(message) => Err(message),
            Ok(path) => match observed_revision(
                payload,
                "previous_revision"@,
                optional_text(faults.previous_revision),
            ) {
                Err(message) => Err(message),
                Ok(before_revision) => Ok(
                    ChangeModel::Record(
                        RecordChangeModel {
                            kind: RecordChangeKind::Deleted,
                            path,
                            from: None,
                            before_revision,
                            after_revision: None,
                            before_types: observed_types(payload, "types"@),
                            after_types: Seq::empty(),
                            changed_fields: fields_of(before),
                            body_changed: observed_body(payload, true),
                        },
                    ),
                ),
            },
        },
    }
}

/// The change of an observation that has both sides of a record.
pub open spec fn observed_update(
    payload: JsonModel,
    faults: ObservedFaults,
    kind: RecordChangeKind,
    path: Seq<char>,
    from: Option<Seq<char>>,
    before: JsonModel,
    after: JsonModel,
    otherwise: bool,
) -> Result<ChangeModel, Seq<char>> {
    match observed_revision(
        payload,
        "previous_revision"@,
        optional_text(faults.previous_revision),
    ) {
        Err(message) => Err(message),
        Ok(before_revision) => match observed_revision(
            payload,
            "revision"@,
            optional_text(faults.revision),
        ) {
            Err(message) => Err(message),
            Ok(after_revision) => Ok(
                ChangeModel::Record(
                    RecordChangeModel {
                        kind,
                        path,
                        from,
                        before_revision,
                        after_revision,
                        before_types: observed_types(payload, "previous_types"@),
                        after_types: observed_types(payload, "types"@),
                        changed_fields: changed_fields_of(before, after),
                        body_changed: observed_body(payload, otherwise),
                    },
                ),
            ),
        },
    }
}

pub open spec fn observed_modification(payload: JsonModel, faults: ObservedFaults) -> Result<
    ChangeModel,
    Seq<char>,
> {
    match observed_object(payload, "raw_before"@) {
        Err(message) => Err(message),
        Ok(before) => match observed_object(payload, "raw_after"@) {
            Err(message) => Err(message),
            Ok(after) => match observed_path(payload, "path"@, faults.path) {
                Err(message) => Err(message),
                Ok(path) => observed_update(
                    payload,
                    faults,
                    RecordChangeKind::Updated,
                    path,
                    None,
                    before,
                    after,
                    true,
                ),
            },
        },
    }
}

pub open spec fn observed_rename(payload: JsonModel, faults: ObservedFaults) -> Result<
    ChangeModel,
    Seq<char>,
> {
    match observed_object(payload, "raw_before"@) {
        Err(message) => Err(message),
        Ok(before) => match observed_object(payload, "raw_after"@) {
            Err(message) => Err(message),
            Ok(after) => match observed_path(payload, "to"@, faults.path) {
                Err(message) => Err(message),
                Ok(path) => match observed_path(payload, "from"@, faults.from) {
                    Err(message) => Err(message),
                    Ok(from) => observed_update(
                        payload,
                        faults,
                        RecordChangeKind::Renamed,
                        path,
                        Some(from),
                        before,
                        after,
                        false,
                    ),
                },
            },
        },
    }
}

/// The change of a resource, at its own path or at a fixed one.
pub open spec fn observed_resource(
    payload: JsonModel,
    faults: ObservedFaults,
    kind: ResourceChangeKind,
    fixed_path: Option<Seq<char>>,
) -> Result<ChangeModel, Seq<char>> {
    let path = match fixed_path {
        Some(path) => Ok(path),
        None => match text_member(payload, "path"@) {
            None => Err("resource event path is missing"@),
            Some(path) => normal_form(path, faults.path),
        },
    };
    match path {
        Err(message) => Err(message),
        Ok(path) => match observed_revision(
            payload,
            "previous_revision"@,
            optional_text(faults.previous_revision),
        ) {
            Err(message) => Err(message),
            Ok(before_revision) => match observed_revision(
                payload,
                "revision"@,
                optional_text(faults.revision),
            ) {
                Err(message) => Err(message),
                Ok(after_revision) => Ok(
                    ChangeModel::Resource(
                        ResourceChangeModel { kind, path, before_revision, after_revision },
                    ),
                ),
            },
        },
    }
}

/// The change that an observation stands for; none where its kind says too little.
pub open spec fn observed_change(event: WatchEvent, faults: ObservedFaults) -> Option<
    Result<ChangeModel, Seq<char>>,
> {
    let payload = event.payload@;
    let kind = event.event_type@;
    if kind == "mdbase.record.created"@ {
        Some(observed_creation(payload, faults))
    } else if kind == "mdbase.record.modified"@ {
        Some(observed_modification(payload, faults))
    } else if kind == "mdbase.record.deleted"@ {
        Some(observed_deletion(payload, faults))
    } else if kind == "mdbase.record.renamed"@ {
        Some(observed_rename(payload, faults))
    } else if kind == "mdbase.config.changed"@ {
        Some(
            observed_resource(
                payload,
                faults,
                ResourceChangeKind::Configuration,
                Some("mdbase.yaml"@),
            ),
        )
    } else if kind == "mdbase.type.changed"@ {
        Some(observed_resource(payload, faults, ResourceChangeKind::TypeDefinition, None))
    } else if kind == "mdbase.contract.changed"@ {
        Some(observed_resource(payload, faults, ResourceChangeKind::Contract, None))
    } else if kind == "mdbase.view.changed"@ {
        Some(observed_resource(payload, faults, ResourceChangeKind::ViewSource, None))
    } else if kind == "mdbase.schema.changed"@ || kind == "mdbase.lock.changed"@ {
        Some(observed_resource(payload, faults, ResourceChangeKind::File, None))
    } else {
        None
    }
}

/// What normalizing an observation gives.
pub open spec fn normalizes(
    result: Result<ChangeSet, ProviderError>,
    event: WatchEvent,
    faults: ObservedFaults,
) -> bool {
    match observed_change(event, faults) {
        None => match result {
            Ok(changes) => changes@ == (ChangeSetModel::CollectionWide {
                reason: RebuildReason::ExternalChangeUncertain,
            }),
            Err(_) => false,
        },
        Some(Ok(change)) => match result {
            Ok(changes) => changes@ == ChangeSetModel::Exact(seq![change]),
            Err(_) => false,
        },
        Some(Err(message)) => match result {
            Err(ProviderError::InvalidChangeSet(text)) => text@
                == "filesystem observation is malformed: "@ + message,
            _ => false,
        },
    }
}

/// Whether an executable result is what its specification says.
pub open spec fn is_observed(
    result: Result<CanonicalChange, String>,
    expected: Result<ChangeModel, Seq<char>>,
) -> bool {
    match (result, expected) {
        (Ok(change), Ok(model)) => change@ == model,
        (Err(message), Err(text)) => message@ == text,
        _ => false,
    }
}

fn object(payload: &Json, field: &str) -> (result: Result<Json, String>)
    ensures
        match result {
            Ok(value) => observed_object(payload@, field@) == Ok::<_, Seq<char>>(value@),
            Err(message) => observed_object(payload@, field@) == Err::<JsonModel, _>(message@),
        },
{
    match object_member_of(payload, field) {
        Some(value) => Ok(value),
        None => Err(concat3("record event ", field, " is missing")),
    }
}

fn path(payload: &Json, field: &str, known: &Option<Result<String, String>>) -> (result: Result<
    String,
    String,
>)
    ensures
        match result {
            Ok(path) => observed_path(payload@, field@, *known) == Ok::<_, Seq<char>>(path@),
            Err(message) => observed_path(payload@, field@, *known) == Err::<Seq<char>, _>(
                message@,
            ),
        },
{
    match payload.get_str(field) {
        None => Err(concat3("record event ", field, " is missing")),
        Some(path) => to_normal_form(path, known),
    }
}

fn revision(payload: &Json, field: &str, fault: &Option<String>) -> (result: Result<
    Option<String>,
    String,
>)
    ensures
        match result {
            Ok(revision) => observed_revision(payload@, field@, optional_text(*fault)) == Ok::<
                _,
                Seq<char>,
            >(optional_text(revision)),
            Err(message) => observed_revision(payload@, field@, optional_text(*fault)) == Err::<
                Option<Seq<char>>,
                _,
            >(message@),
        },
{
    broadcast use {crate::json::lemma_object_model, crate::json::lemma_array_model};

    match payload.get(field) {
        None => Ok(None),
        Some(Json::Null) => Ok(None),
        Some(Json::Text(text)) => match fault {
            Some(fault) => Err(fault.clone()),
            None => Ok(Some(text.clone())),
        },
        Some(_) => Err("event revision is not a string".to_owned()),
    }
}

fn types(payload: &Json, field: &str) -> (result: Vec<String>)
    ensures
        texts(result@) == observed_types(payload@, field@),
{
    sorted_texts(&texts_of(payload.get(field)))
}

fn body_changed(payload: &Json, otherwise: bool) -> (result: bool)
    ensures
        result == observed_body(payload@, otherwise),
{
    match payload.get_bool("body_changed") {
        Some(changed) => changed,
        None => otherwise,
    }
}

fn no_types() -> (result: Vec<String>)
    ensures
        texts(result@) == Seq::<Seq<char>>::empty(),
{
    let none: Vec<String> = Vec::new();
    proof {
        assert(texts(none@) =~= Seq::empty());
    }
    none
}

fn record_created(payload: &Json, faults: &ObservedFaults) -> (result: Result<
    CanonicalChange,
    String,
>)
    ensures
        is_observed(result, observed_creation(payload@, *faults)),
{
    let after = match object(payload, "raw_after") {
        Ok(after) => after,
        Err(message) => {
            return Err(message);
        },
    };
    let path = match path(payload, "path", &faults.path) {
        Ok(path) => path,
        Err(message) => {
            return Err(message);
        },
    };
    let after_revision = match revision(payload, "revision", &faults.revision) {
        Ok(revision) => revision,
        Err(message) => {
            return Err(message);
        },
    };
    Ok(
        CanonicalChange::Record(
            RecordChange {
                kind: RecordChangeKind::Created,
                path,
                from: None,
                before_revision: None,
                after_revision,
                before_types: no_types(),
                after_types: types(payload, "types"),
                changed_fields: canonical_present_fields(&after),
                body_changed: body_changed(payload, true),
            },
        ),
    )
}

fn record_deleted(payload: &Json, faults: &ObservedFaults) -> (result: Result<
    CanonicalChange,
    String,
>)
    ensures
        is_observed(result, observed_deletion(payload@, *faults)),
{
    let before = match object(payload, "raw_before") {
        Ok(before) => before,
        Err(message) => {
            return Err(message);
        },
    };
    let path = match path(payload, "path", &faults.path) {
        Ok(path) => path,
        Err(message) => {
            return Err(message);
        },
    };
    let before_revision = match revision(
        payload,
        "previous_revision",
        &faults.previous_revision,
    ) {
        Ok(revision) => revision,
        Err(message) => {
            return Err(message);
        },
    };
    Ok(
        CanonicalChange::Record(
            RecordChange {
                kind: RecordChangeKind::Deleted,
                path,
                from: None,
                before_revision,
                after_revision: None,
                before_types: types(payload, "types"),
                after_types: no_types(),
                changed_fields: canonical_present_fields(&before),
                body_changed: body_changed(payload, true),
            },
        ),
    )
}

fn record_updated(
    payload: &Json,
    faults: &ObservedFaults,
    kind: RecordChangeKind,
    path: String,
    from: Option<String>,
    before: &Json,
    after: &Json,
    otherwise: bool,
) -> (result: Result<CanonicalChange, String>)
    ensures
        is_observed(
            result,
            observed_update(
                payload@,
                *faults,
                kind,
                path@,
                optional_text(from),
                before@,
                after@,
                otherwise,
            ),
        ),
{
    let before_revision = match revision(
        payload,
        "previous_revision",
        &faults.previous_revision,
    ) {
        Ok(revision) => revision,
        Err(message) => {
            return Err(message);
        },
    };
    let after_revision = match revision(payload, "revision", &faults.revision) {
        Ok(revision) => revision,
        Err(message) => {
            return Err(message);
        },
    };
    Ok(
        CanonicalChange::Record(
            RecordChange {
                kind,
                path,
                from,
                before_revision,
                after_revision,
                before_types: types(payload, "previous_types"),
                after_types: types(payload, "types"),
                changed_fields: canonical_field_changes(before, after),
                body_changed: body_changed(payload, otherwise),
            },
        ),
    )
}

fn record_modified(payload: &Json, faults: &ObservedFaults) -> (result: Result<
    CanonicalChange,
    String,
>)
    ensures
        is_observed(result, observed_modification(payload@, *faults)),
{
    let before = match object(payload, "raw_before") {
        Ok(before) => before,
        Err(message) => {
            return Err(message);
        },
    };
    let after = match object(payload, "raw_after") {
        Ok(after) => after,
        Err(message) => {
            return Err(message);
        },
    };
    let path = match path(payload, "path", &faults.path) {
        Ok(path) => path,
        Err(message) => {
            return Err(message);
        },
    };
    record_updated(
        payload,
        faults,
        RecordChangeKind::Updated,
        path,
        None,
        &before,
        &after,
        true,
    )
}

fn record_renamed(payload: &Json, faults: &ObservedFaults) -> (result: Result<
    CanonicalChange,
    String,
>)
    ensures
        is_observed(result, observed_rename(payload@, *faults)),
{
    let before = match object(payload, "raw_before") {
        Ok(before) => before,
        Err(message) => {
            return Err(message);
        },
    };
    let after = match object(payload, "raw_after") {
        Ok(after) => after,
        Err(message) => {
            return Err(message);
        },
    };
    let to = match path(payload, "to", &faults.path) {
        Ok(path) => path,
        Err(message) => {
            return Err(message);
        },
    };
    let from = match path(payload, "from", &faults.from) {
        Ok(path) => path,
        Err(message) => {
            return Err(message);
        },
    };
    record_updated(
        payload,
        faults,
        RecordChangeKind::Renamed,
        to,
        Some(from),
        &before,
        &after,
        false,
    )
}

fn resource(
    payload: &Json,
    faults: &ObservedFaults,
    kind: ResourceChangeKind,
    fixed_path: Option<&str>,
) -> (result: Result<CanonicalChange, String>)
    ensures
        is_observed(
            result,
            observed_resource(
                payload@,
                *faults,
                kind,
                match fixed_path {
                    Some(path) => Some(path@),
                    None => None,
                },
            ),
        ),
{
    let path = match fixed_path {
        Some(path) => path.to_owned(),
        None => match payload.get_str("path") {
            None => {
                return Err("resource event path is missing".to_owned());
            },
            Some(path) => match to_normal_form(path, &faults.path) {
                Ok(path) => path,
                Err(message) => {
                    return Err(message);
                },
            },
        },
    };
    let before_revision = match revision(
        payload,
        "previous_revision",
        &faults.previous_revision,
    ) {
        Ok(revision) => revision,
        Err(message) => {
            return Err(message);
        },
    };
    let after_revision = match revision(payload, "revision", &faults.revision) {
        Ok(revision) => revision,
        Err(message) => {
            return Err(message);
        },
    };
    Ok(
        CanonicalChange::Resource(
            ResourceChange { kind, path, before_revision, after_revision },
        ),
    )
}

/// The change set of one observation.
pub fn normalize(event: &WatchEvent, faults: &ObservedFaults) -> (result: Result<
    ChangeSet,
    ProviderError,
>)
    ensures
        normalizes(result, *event, *faults),
{
    let payload = &event.payload;
    let kind = event.event_type.as_str();
    let change = if same_text(kind, "mdbase.record.created") {
        record_created(payload, faults)
    } else if same_text(kind, "mdbase.record.modified") {
        record_modified(payload, faults)
    } else if same_text(kind, "mdbase.record.deleted") {
        record_deleted(payload, faults)
    } else if same_text(kind, "mdbase.record.renamed") {
        record_renamed(payload, faults)
    } else if same_text(kind, "mdbase.config.changed") {
        resource(payload, faults, ResourceChangeKind::Configuration, Some("mdbase.yaml"))
    } else if same_text(kind, "mdbase.type.changed") {
        resource(payload, faults, ResourceChangeKind::TypeDefinition, None)
    } else if same_text(kind, "mdbase.contract.changed") {
        resource(payload, faults, ResourceChangeKind::Contract, None)
    } else if same_text(kind, "mdbase.view.changed") {
        resource(payload, faults, ResourceChangeKind::ViewSource, None)
    } else if same_text(kind, "mdbase.schema.changed") || same_text(kind, "mdbase.lock.changed") {
        resource(payload, faults, ResourceChangeKind::File, None)
    } else {
        return Ok(
            ChangeSet::CollectionWide { reason: RebuildReason::ExternalChangeUncertain },
        );
    };
    match change {
        Ok(change) => {
            let mut changes: Vec<CanonicalChange> = Vec::new();
            changes.push(change);
            proof {
                assert(change_models(changes@) =~= seq![change@]);
            }
            Ok(ChangeSet::Exact(changes))
        },
        Err(message) => Err(
            ProviderError::InvalidChangeSet(
                "filesystem observation is malformed: ".to_owned().concat(message.as_str()),
            ),
        ),
    }
}

/// Whether an observation is one of the known changes.
pub fn matches_known(
    event: &WatchEvent,
    faults: &ObservedFaults,
    known: &Vec<CanonicalChange>,
) -> (result: bool)
    ensures
        result == match observed_change(*event, *faults) {
            Some(Ok(change)) => change_models(known@).contains(change),
            _ => false,
        },
{
    match normalize(event, faults) {
        Ok(ChangeSet::Exact(observed)) => {
            proof {
                let change = (observed_change(*event, *faults)->0)->Ok_0;
                assert(change_models(observed@) == seq![change]);
                assert(change_models(observed@).len() == 1);
                assert(change_models(observed@)[0] == change);
            }
            lists_change(known, &observed[0])
        },
        _ => false,
    }
}

} // verus!
