//! Planning of mutations on an exact, bounded context of records.

use crate::canonical_operation::{
    array_member, recovered, shape_message, BatchItemModel, BatchItemResult, BatchModel,
    BatchOperationModel, BatchOperationResult, BatchResult, CanonicalDeleteValue,
    CanonicalOperationOutcome, CanonicalOperationValue, CanonicalRenameValue, DeleteModel,
    OutcomeModel, RenameModel, ValueModel,
};
use crate::changes::{
    change_models, insert_sorted, inserted, sorted_set, sorted_texts, CanonicalChange, ChangeModel,
    ChangeSet, ChangeSetModel, RecordChangeKind,
};
use crate::diagnostics::{CatalogError, OperationModel, OperationResult};
use crate::catalog::{classification, ParsedDocument};
use crate::diff::{change_of, record_change, CollectionSnapshotRecord, SnapshotModel};
use crate::hosted_query::CompiledCatalog;
use crate::json::{
    bool_member, copy_members, drop_member, find_member, item_models, lemma_object_model, lookup,
    member_models, member_of, put_member, text_member, text_model, with_member, without_member,
    Json, JsonModel, Member,
};
use crate::operation_values::{all_typed, OperationKind};
use crate::projection::CanonicalRecordInput;
use crate::provider_error::ProviderError;
use crate::record_path::{record_path_of, RecordPathFacts};
use crate::text::{concat3, copy_optional, decimal, decimal_text, optional_text, same_text, texts};
use crate::text_map::{
    inverted, keys_of, ordered, value_at, with_entry, without_entry, TextEntries, TextMap,
};
use vstd::prelude::*;
use vstd::string::StringExecFns;
use vstd::utf8::encode_utf8;

verus! {

pub const MAX_HOSTED_MUTATION_RECORDS: usize = 2_001;

pub const MAX_HOSTED_MUTATION_EXACT_BYTES: u64 = 33_554_432;

// ---------------------------------------------------------------------------
// Data
// ---------------------------------------------------------------------------
#[derive(Debug)]
pub struct HostedMutationRequest {
    pub operation: String,
    pub primary_stable_id: String,
    pub input: Json,
    pub records: Vec<CanonicalRecordInput>,
}

#[derive(Debug)]
pub struct HostedMutationChange {
    pub stable_id: String,
    pub before_path: Option<String>,
    pub record: Option<CanonicalRecordInput>,
}

/// A mutation plan with the portable result.
#[derive(Debug)]
pub struct HostedMutationPlan {
    pub result: OperationResult,
    pub primary_stable_id: String,
    pub changes: Vec<HostedMutationChange>,
}

/// One record that a mutation changes.
#[derive(Debug)]
pub struct HostedRecordChange {
    pub stable_id: String,
    pub before_path: Option<String>,
    pub before: Option<CanonicalRecordInput>,
    pub after: Option<CanonicalRecordInput>,
    pub change: CanonicalChange,
}

/// A typed mutation plan.
#[derive(Debug)]
pub struct TypedHostedMutationPlan {
    pub operation: CanonicalOperationOutcome,
    pub primary_stable_id: String,
    pub changes: Vec<HostedRecordChange>,
    pub change_set: ChangeSet,
}

/// A record of the stage after the mutation ran there.
#[derive(Debug)]
pub struct StagedDocument {
    pub path: String,
    pub document: String,
    pub path_facts: RecordPathFacts,
    pub parsed: ParsedDocument,
}

/// What capturing a path of the stage gave.
#[derive(Debug)]
pub struct StagedCapture {
    pub path: String,
    pub capture: Result<StagedDocument, String>,
}

/// What running a mutation on its stage showed.
#[derive(Debug)]
pub struct MutationFacts {
    /// The paths of the context records.
    pub paths: Vec<RecordPathFacts>,
    /// The parts of the context records' documents.
    pub parsed: Vec<ParsedDocument>,
    /// The result of the mutation.
    pub staged: OperationResult,
    /// The result of a dry run's mutation carried out.
    pub committed: OperationResult,
    /// The stage afterwards.
    pub captures: Vec<StagedCapture>,
}

/// What a record input holds.
pub struct InputModel {
    pub stable_id: Option<Seq<char>>,
    pub path: Seq<char>,
    pub document: Seq<char>,
    pub file_size: int,
    pub file_mtime: Option<Seq<char>>,
}

pub open spec fn input_model(record: CanonicalRecordInput) -> InputModel {
    InputModel {
        stable_id: optional_text(record.stable_id),
        path: record.path@,
        document: record.document@,
        file_size: record.file_size as int,
        file_mtime: optional_text(record.file_mtime),
    }
}

pub open spec fn optional_input(record: Option<CanonicalRecordInput>) -> Option<InputModel> {
    match record {
        Some(record) => Some(input_model(record)),
        None => None,
    }
}

/// What a changed record holds.
pub struct HostedChangeModel {
    pub stable_id: Seq<char>,
    pub before_path: Option<Seq<char>>,
    pub before: Option<InputModel>,
    pub after: Option<InputModel>,
    pub change: ChangeModel,
}

impl View for HostedRecordChange {
    type V = HostedChangeModel;

    open spec fn view(&self) -> HostedChangeModel {
        HostedChangeModel {
            stable_id: self.stable_id@,
            before_path: optional_text(self.before_path),
            before: optional_input(self.before),
            after: optional_input(self.after),
            change: self.change@,
        }
    }
}

pub open spec fn hosted_models(changes: Seq<HostedRecordChange>) -> Seq<HostedChangeModel> {
    Seq::new(changes.len(), |i: int| changes[i]@)
}

/// The code and the message of a catalog error.
pub struct CatalogFault {
    pub code: Seq<char>,
    pub message: Seq<char>,
}

pub open spec fn fault(code: Seq<char>, message: Seq<char>) -> CatalogFault {
    CatalogFault { code, message }
}

pub open spec fn fault_of(error: CatalogError) -> CatalogFault {
    CatalogFault { code: error.code@, message: error.message@ }
}

fn mutation_error(code: &str, message: &str) -> (result: CatalogError)
    ensures
        fault_of(result) == fault(code@, message@),
{
    CatalogError::new(code, message)
}

pub open spec fn incomplete(message: Seq<char>) -> CatalogFault {
    fault("hosted_mutation_plan_incomplete"@, message)
}

// ---------------------------------------------------------------------------
// The context
// ---------------------------------------------------------------------------
/// The bytes of the documents of records.
pub open spec fn document_bytes(records: Seq<CanonicalRecordInput>) -> int
    decreases records.len(),
{
    if records.len() == 0 {
        0
    } else {
        document_bytes(records.drop_last()) + encode_utf8(records.last().document@).len()
    }
}

proof fn lemma_document_bytes(records: Seq<CanonicalRecordInput>, count: int)
    requires
        0 <= count <= records.len(),
    ensures
        0 <= document_bytes(records.take(count)) <= document_bytes(records),
    decreases records.len(),
{
    if count < records.len() {
        lemma_document_bytes(records.drop_last(), count);
        assert(records.drop_last().take(count) =~= records.take(count));
    } else {
        assert(records.take(count) =~= records);
        if records.len() > 0 {
            lemma_document_bytes(records.drop_last(), records.len() - 1);
            assert(records.drop_last().take(records.len() - 1) =~= records.drop_last());
        }
    }
}

/// The mutations that can be planned.
pub open spec fn mutation_kind(operation: Seq<char>) -> Option<OperationKind> {
    if operation == "create"@ {
        Some(OperationKind::Create)
    } else if operation == "update"@ {
        Some(OperationKind::Update)
    } else if operation == "delete"@ {
        Some(OperationKind::Delete)
    } else if operation == "rename"@ {
        Some(OperationKind::Rename)
    } else if operation == "batch"@ {
        Some(OperationKind::Batch)
    } else {
        None
    }
}

fn kind_of(operation: &str) -> (result: Option<OperationKind>)
    ensures
        result == mutation_kind(operation@),
{
    if same_text(operation, "create") {
        Some(OperationKind::Create)
    } else if same_text(operation, "update") {
        Some(OperationKind::Update)
    } else if same_text(operation, "delete") {
        Some(OperationKind::Delete)
    } else if same_text(operation, "rename") {
        Some(OperationKind::Rename)
    } else if same_text(operation, "batch") {
        Some(OperationKind::Batch)
    } else {
        None
    }
}

/// Where the records of a context are: identities by path, and paths by identity.
pub struct ContextMaps {
    pub stable_by_path: TextEntries,
    pub before_by_stable: TextEntries,
}

/// The maps with one more record.
pub open spec fn with_record(
    maps: ContextMaps,
    record: CanonicalRecordInput,
    path: RecordPathFacts,
) -> Result<ContextMaps, CatalogFault> {
    match record.stable_id {
        None => Err(
            fault(
                "hosted_mutation_identity_required"@,
                "Every hosted mutation context record requires stable identity."@,
            ),
        ),
        Some(stable) => match record_path_of(path) {
            Err(error) => Err(
                fault(
                    "invalid_path"@,
                    "Hosted mutation record path is invalid: "@ + error.text(),
                ),
            ),
            Ok(path) => if value_at(maps.stable_by_path, path) is Some || value_at(
                maps.before_by_stable,
                stable@,
            ) is Some {
                Err(
                    fault(
                        "hosted_mutation_context_ambiguous"@,
                        "Hosted mutation context contains duplicate path or stable identity."@,
                    ),
                )
            } else {
                Ok(
                    ContextMaps {
                        stable_by_path: with_entry(maps.stable_by_path, path, stable@),
                        before_by_stable: with_entry(maps.before_by_stable, stable@, path),
                    },
                )
            },
        },
    }
}

/// The maps of the first records of a context.
pub open spec fn record_maps(
    records: Seq<CanonicalRecordInput>,
    paths: Seq<RecordPathFacts>,
    count: nat,
) -> Result<ContextMaps, CatalogFault>
    decreases count,
{
    if count == 0 {
        Ok(ContextMaps { stable_by_path: Seq::empty(), before_by_stable: Seq::empty() })
    } else {
        match record_maps(records, paths, (count - 1) as nat) {
            Err(fault) => Err(fault),
            Ok(maps) => with_record(maps, records[count - 1], paths[count - 1]),
        }
    }
}

/// The checked context of a request: its budgets, its operation, and its records.
pub open spec fn context_of(
    request: HostedMutationRequest,
    paths: Seq<RecordPathFacts>,
) -> Result<ContextMaps, CatalogFault> {
    if request.records@.len() > MAX_HOSTED_MUTATION_RECORDS {
        Err(
            fault(
                "hosted_mutation_context_budget_exceeded"@,
                "Hosted mutation context exceeds its exact-record budget."@,
            ),
        )
    } else if document_bytes(request.records@) > MAX_HOSTED_MUTATION_EXACT_BYTES {
        Err(
            fault(
                "hosted_mutation_context_byte_budget_exceeded"@,
                "Hosted mutation context exceeds its exact-byte budget."@,
            ),
        )
    } else if mutation_kind(request.operation@) is None {
        Err(
            fault(
                "unsupported_hosted_mutation"@,
                "Hosted mutation operation is not in the closed mutation plan."@,
            ),
        )
    } else {
        record_maps(request.records@, paths, request.records@.len())
    }
}

proof fn lemma_record_maps_stop(
    records: Seq<CanonicalRecordInput>,
    paths: Seq<RecordPathFacts>,
    at: nat,
    count: nat,
)
    requires
        at <= count,
        record_maps(records, paths, at) is Err,
    ensures
        record_maps(records, paths, count) == record_maps(records, paths, at),
    decreases count - at,
{
    if at < count {
        lemma_record_maps_stop(records, paths, at, (count - 1) as nat);
    }
}

/// The maps of a checked context.
pub struct MutationContext {
    pub stable_by_path: TextMap,
    pub before_by_stable: TextMap,
}

/// Whether the documents of records fit the byte budget.
pub fn fits_bytes(records: &Vec<CanonicalRecordInput>) -> (result: bool)
    ensures
        result == (document_bytes(records@) <= MAX_HOSTED_MUTATION_EXACT_BYTES),
{
    let mut total: u64 = 0;
    let mut i: usize = 0;
    proof {
        assert(records@.take(0) =~= Seq::empty());
    }
    while i < records.len()
        invariant
            i <= records@.len(),
            total == document_bytes(records@.take(i as int)),
            total <= MAX_HOSTED_MUTATION_EXACT_BYTES,
        decreases records@.len() - i,
    {
        let bytes: u64 = records[i].document.as_str().as_bytes().len() as u64;
        proof {
            let next = records@.take(i + 1);
            assert(next.drop_last() =~= records@.take(i as int));
            assert(next.last() == records@[i as int]);
            lemma_document_bytes(records@, i + 1);
        }
        if bytes > MAX_HOSTED_MUTATION_EXACT_BYTES - total {
            return false;
        }
        total = total + bytes;
        i = i + 1;
    }
    proof {
        assert(records@.take(i as int) =~= records@);
    }
    true
}

impl CompiledCatalog {
    /// Whether planning a mutation needs the records that refer to its record.
    pub fn hosted_mutation_requires_incoming_context(&self, operation: &str, input: &Json) -> (
        result: bool)
        ensures
            result == if operation@ == "rename"@ {
                match bool_member(input@, "update_refs"@) {
                    Some(update) => update,
                    None => self.collection.settings.rename_update_refs,
                }
            } else if operation@ == "delete"@ {
                bool_member(input@, "check_backlinks"@) == Some(true)
            } else {
                false
            },
    {
        if same_text(operation, "rename") {
            match input.get_bool("update_refs") {
                Some(update) => update,
                None => self.collection.settings.rename_update_refs,
            }
        } else if same_text(operation, "delete") {
            match input.get_bool("check_backlinks") {
                Some(check) => check,
                None => false,
            }
        } else {
            false
        }
    }

    /// Checks the context of a request.
    pub fn check_mutation_context(
        &self,
        request: &HostedMutationRequest,
        paths: &Vec<RecordPathFacts>,
    ) -> (result: Result<MutationContext, CatalogError>)
        requires
            paths@.len() == request.records@.len(),
        ensures
            match (result, context_of(*request, paths@)) {
                (Ok(context), Ok(maps)) => context.stable_by_path@ == maps.stable_by_path
                    && context.before_by_stable@ == maps.before_by_stable && ordered(
                    context.before_by_stable@,
                ) && ordered(context.stable_by_path@),
                (Err(error), Err(fault)) => fault_of(error) == fault,
                _ => false,
            },
    {
        if request.records.len() > MAX_HOSTED_MUTATION_RECORDS {
            return Err(
                mutation_error(
                    "hosted_mutation_context_budget_exceeded",
                    "Hosted mutation context exceeds its exact-record budget.",
                ),
            );
        }
        if !fits_bytes(&request.records) {
            return Err(
                mutation_error(
                    "hosted_mutation_context_byte_budget_exceeded",
                    "Hosted mutation context exceeds its exact-byte budget.",
                ),
            );
        }
        if kind_of(request.operation.as_str()).is_none() {
            return Err(
                mutation_error(
                    "unsupported_hosted_mutation",
                    "Hosted mutation operation is not in the closed mutation plan.",
                ),
            );
        }
        let mut stable_by_path = TextMap::new();
        let mut before_by_stable = TextMap::new();
        let count: usize = request.records.len();
        let mut i: usize = 0;
        while i < count
            invariant
                i <= count,
                count == request.records@.len(),
                paths@.len() == count,
                ordered(stable_by_path@),
                ordered(before_by_stable@),
                context_of(*request, paths@) == record_maps(
                    request.records@,
                    paths@,
                    count as nat,
                ),
                record_maps(request.records@, paths@, i as nat) == Ok::<_, CatalogFault>(
                    ContextMaps {
                        stable_by_path: stable_by_path@,
                        before_by_stable: before_by_stable@,
                    },
                ),
            decreases count - i,
        {
            let record = &request.records[i];
            let stable = match &record.stable_id {
                Some(stable) => stable,
                None => {
                    proof {
                        lemma_record_maps_stop(
                            request.records@,
                            paths@,
                            (i + 1) as nat,
                            count as nat,
                        );
                    }
                    return Err(
                        mutation_error(
                            "hosted_mutation_identity_required",
                            "Every hosted mutation context record requires stable identity.",
                        ),
                    );
                },
            };
            let path = match self.collection.validate_record_path(&paths[i]) {
                Ok(path) => path,
                Err(error) => {
                    proof {
                        lemma_record_maps_stop(
                            request.records@,
                            paths@,
                            (i + 1) as nat,
                            count as nat,
                        );
                    }
                    return Err(
                        mutation_error(
                            "invalid_path",
                            "Hosted mutation record path is invalid: ".to_owned().concat(
                                error.to_text().as_str(),
                            ).as_str(),
                        ),
                    );
                },
            };
            let path_taken = stable_by_path.insert(path.as_str(), stable.as_str());
            let stable_taken = before_by_stable.insert(stable.as_str(), path.as_str());
            if path_taken.is_some() || stable_taken.is_some() {
                proof {
                    lemma_record_maps_stop(request.records@, paths@, (i + 1) as nat, count as nat);
                }
                return Err(
                    mutation_error(
                        "hosted_mutation_context_ambiguous",
                        "Hosted mutation context contains duplicate path or stable identity.",
                    ),
                );
            }
            i = i + 1;
        }
        Ok(MutationContext { stable_by_path, before_by_stable })
    }
}

// ---------------------------------------------------------------------------
// The input of the staged operation
// ---------------------------------------------------------------------------
/// The destination that an input names.
pub open spec fn destination(members: Seq<(Seq<char>, JsonModel)>) -> Option<Seq<char>> {
    match lookup(members, "path"@) {
        Some(path) => text_model(Some(path)),
        None => text_model(lookup(members, "to"@)),
    }
}

pub open spec fn missing_record() -> CatalogFault {
    fault("record_not_found"@, "The hosted record does not exist."@)
}

/// The input that the staged operation gets.
pub open spec fn staged_members(
    kind: OperationKind,
    members: Seq<(Seq<char>, JsonModel)>,
    path: Option<Seq<char>>,
) -> Result<Seq<(Seq<char>, JsonModel)>, CatalogFault> {
    match kind {
        OperationKind::Create => Ok(without_member(members, "types"@)),
        OperationKind::Update => match path {
            None => Err(missing_record()),
            Some(path) => {
                let patched = match lookup(members, "patch"@) {
                    Some(patch) => with_member(
                        without_member(members, "patch"@),
                        "fields"@,
                        patch,
                    ),
                    None => members,
                };
                Ok(with_member(patched, "path"@, JsonModel::Text(path)))
            },
        },
        OperationKind::Rename => match (path, destination(members)) {
            (None, _) => Err(missing_record()),
            (Some(_), None) => Err(
                fault("invalid_mutation"@, "Hosted rename requires a destination."@),
            ),
            (Some(from), Some(to)) => Ok(
                with_member(
                    with_member(members, "from"@, JsonModel::Text(from)),
                    "to"@,
                    JsonModel::Text(to),
                ),
            ),
        },
        OperationKind::Delete => match path {
            None => Err(missing_record()),
            Some(path) => Ok(with_member(members, "path"@, JsonModel::Text(path))),
        },
        _ => Ok(members),
    }
}

/// The input of the staged operation of a request.
pub open spec fn staged_input_of(
    request: HostedMutationRequest,
    path: Option<Seq<char>>,
) -> Result<Seq<(Seq<char>, JsonModel)>, CatalogFault> {
    match request.input@ {
        JsonModel::Object(members) => staged_members(
            mutation_kind(request.operation@)->0,
            members,
            path,
        ),
        _ => Err(fault("invalid_mutation"@, "Hosted mutation input must be an object."@)),
    }
}

/// The input of a dry run's operation carried out.
pub open spec fn committed_input_of(
    request: HostedMutationRequest,
    path: Option<Seq<char>>,
) -> Result<Seq<(Seq<char>, JsonModel)>, CatalogFault> {
    match request.input@ {
        JsonModel::Object(members) => staged_members(
            mutation_kind(request.operation@)->0,
            with_member(members, "dry_run"@, JsonModel::Bool(false)),
            path,
        ),
        _ => Err(fault("invalid_mutation"@, "Hosted mutation input must be an object."@)),
    }
}

fn stage_members(
    kind: OperationKind,
    members: &Vec<Member>,
    path: Option<&str>,
) -> (result: Result<Vec<Member>, CatalogError>)
    ensures
        match (
            result,
            staged_members(
                kind,
                member_models(members@),
                match path {
                    Some(path) => Some(path@),
                    None => None,
                },
            ),
        ) {
            (Ok(found), Ok(expected)) => member_models(found@) == expected,
            (Err(error), Err(expected)) => fault_of(error) == expected,
            _ => false,
        },
{
    match kind {
        OperationKind::Create => Ok(drop_member(members, "types")),
        OperationKind::Update => match path {
            None => Err(mutation_error("record_not_found", "The hosted record does not exist.")),
            Some(path) => {
                let mut staged = match find_member(members, "patch") {
                    Some(patch) => {
                        let mut staged = drop_member(members, "patch");
                        put_member(&mut staged, "fields", patch.copy());
                        staged
                    },
                    None => copy_members(members),
                };
                put_member(&mut staged, "path", Json::text(path));
                Ok(staged)
            },
        },
        OperationKind::Rename => match path {
            None => Err(mutation_error("record_not_found", "The hosted record does not exist.")),
            Some(from) => {
                let named = match find_member(members, "path") {
                    Some(member) => Some(member),
                    None => find_member(members, "to"),
                };
                let to = match named {
                    Some(member) => match member.as_str() {
                        Some(text) => text.to_owned(),
                        None => {
                            return Err(
                                mutation_error(
                                    "invalid_mutation",
                                    "Hosted rename requires a destination.",
                                ),
                            );
                        },
                    },
                    None => {
                        return Err(
                            mutation_error(
                                "invalid_mutation",
                                "Hosted rename requires a destination.",
                            ),
                        );
                    },
                };
                let mut staged = copy_members(members);
                put_member(&mut staged, "from", Json::text(from));
                put_member(&mut staged, "to", Json::text(to.as_str()));
                Ok(staged)
            },
        },
        OperationKind::Delete => match path {
            None => Err(mutation_error("record_not_found", "The hosted record does not exist.")),
            Some(path) => {
                let mut staged = copy_members(members);
                put_member(&mut staged, "path", Json::text(path));
                Ok(staged)
            },
        },
        _ => Ok(copy_members(members)),
    }
}

impl CompiledCatalog {
    /// The input of the staged operation of a request.
    pub fn staged_mutation_input(
        &self,
        request: &HostedMutationRequest,
        context: &MutationContext,
    ) -> (result: Result<Json, CatalogError>)
        requires
            mutation_kind(request.operation@) is Some,
        ensures
            match (
                result,
                staged_input_of(
                    *request,
                    value_at(context.before_by_stable@, request.primary_stable_id@),
                ),
            ) {
                (Ok(input), Ok(members)) => input@ == JsonModel::Object(members),
                (Err(error), Err(expected)) => fault_of(error) == expected,
                _ => false,
            },
    {
        broadcast use lemma_object_model;

        let kind = kind_of(request.operation.as_str());
        match (request.input.as_object(), kind) {
            (Some(members), Some(kind)) => match stage_members(
                kind,
                members,
                context.before_by_stable.get(request.primary_stable_id.as_str()),
            ) {
                Ok(members) => Ok(Json::Object(members)),
                Err(error) => Err(error),
            },
            _ => Err(
                mutation_error("invalid_mutation", "Hosted mutation input must be an object."),
            ),
        }
    }

    /// The input of a dry run's operation carried out.
    pub fn committed_mutation_input(
        &self,
        request: &HostedMutationRequest,
        context: &MutationContext,
    ) -> (result: Result<Json, CatalogError>)
        requires
            mutation_kind(request.operation@) is Some,
        ensures
            match (
                result,
                committed_input_of(
                    *request,
                    value_at(context.before_by_stable@, request.primary_stable_id@),
                ),
            ) {
                (Ok(input), Ok(members)) => input@ == JsonModel::Object(members),
                (Err(error), Err(expected)) => fault_of(error) == expected,
                _ => false,
            },
    {
        broadcast use lemma_object_model;

        let kind = kind_of(request.operation.as_str());
        match (request.input.as_object(), kind) {
            (Some(members), Some(kind)) => {
                let mut carried = copy_members(members);
                put_member(&mut carried, "dry_run", Json::Bool(false));
                match stage_members(
                    kind,
                    &carried,
                    context.before_by_stable.get(request.primary_stable_id.as_str()),
                ) {
                    Ok(members) => Ok(Json::Object(members)),
                    Err(error) => Err(error),
                }
            },
            _ => Err(
                mutation_error("invalid_mutation", "Hosted mutation input must be an object."),
            ),
        }
    }
}

// ---------------------------------------------------------------------------
// Outcomes
// ---------------------------------------------------------------------------
/// The typed outcome of a mutation's result.
pub open spec fn typed_outcome(operation: Seq<char>, wire: OperationModel) -> Result<
    OutcomeModel,
    CatalogFault,
> {
    match mutation_kind(operation) {
        None => Err(fault("unsupported_hosted_mutation"@, operation)),
        Some(kind) => match recovered(kind, wire.result) {
            Some(value) => Ok(
                OutcomeModel {
                    valid: wire.valid,
                    value,
                    diagnostics: all_typed(wire.diagnostics),
                },
            ),
            None => Err(
                fault("typed_outcome_decode_failed"@, shape_message(kind, wire.result)),
            ),
        },
    }
}

fn typed_mutation_outcome(operation: &str, wire: &OperationResult) -> (result: Result<
    CanonicalOperationOutcome,
    CatalogError,
>)
    ensures
        match (result, typed_outcome(operation@, wire@)) {
            (Ok(outcome), Ok(expected)) => outcome@ == expected,
            (Err(error), Err(expected)) => fault_of(error) == expected,
            _ => false,
        },
{
    let kind = match kind_of(operation) {
        Some(kind) => kind,
        None => {
            return Err(mutation_error("unsupported_hosted_mutation", operation));
        },
    };
    match CanonicalOperationOutcome::hosted_wire_edge(kind, wire) {
        Ok(outcome) => Ok(outcome),
        Err(ProviderError::Transaction { code, message }) => Err(
            mutation_error(code.as_str(), message.as_str()),
        ),
        Err(_) => Err(mutation_error("hosted_mutation_plan_incomplete", "")),
    }
}

/// Whether some of a batch that may be applied in part was applied.
pub open spec fn applied_in_part(input: JsonModel, value: ValueModel) -> bool {
    bool_member(input, "allow_partial"@) == Some(true) && match value {
        ValueModel::Batch(Some(batch)) => batch.succeeded > 0,
        _ => false,
    }
}

fn is_applied_in_part(input: &Json, value: &CanonicalOperationValue) -> (result: bool)
    ensures
        result == applied_in_part(input@, value@),
{
    let allowed = match input.get_bool("allow_partial") {
        Some(allowed) => allowed,
        None => false,
    };
    allowed && match value {
        CanonicalOperationValue::Batch(Some(batch)) => batch.succeeded > 0,
        _ => false,
    }
}

// ---------------------------------------------------------------------------
// Paths after a batch
// ---------------------------------------------------------------------------
/// Where the records are after some operations of a batch, and which were touched.
pub struct BatchState {
    pub stable_by_path: TextEntries,
    pub affected: Seq<Seq<char>>,
}

/// The number of creations in a batch that succeeded.
pub open spec fn created_count(items: Seq<BatchItemModel>) -> int
    decreases items.len(),
{
    if items.len() == 0 {
        0
    } else {
        created_count(items.drop_last()) + if items.last().valid && items.last().kind
            == "create"@ {
            1int
        } else {
            0
        }
    }
}

/// The identity of a created record: what the request names for it, or the primary
/// identity where it is the only one.
pub open spec fn created_identity(
    item: JsonModel,
    primary: Seq<char>,
    creates: int,
) -> Option<Seq<char>> {
    let input = match member_of(item, "input"@) {
        Some(input) => input,
        None => JsonModel::Null,
    };
    let named = match member_of(item, "stable_id"@) {
        Some(named) => text_model(Some(named)),
        None => text_model(member_of(input, "stable_id"@)),
    };
    match named {
        Some(stable) => Some(stable),
        None => if creates == 1 {
            Some(primary)
        } else {
            None
        },
    }
}

pub open spec fn unknown_path(path: Seq<char>) -> CatalogFault {
    incomplete(
        "Successful canonical batch evidence references unknown path '"@ + path + "'."@,
    )
}

/// The touched records with those whose references a rename updated.
pub open spec fn with_references(
    stable_by_path: TextEntries,
    affected: Seq<Seq<char>>,
    from: Seq<char>,
    stable: Seq<char>,
    references: Seq<JsonModel>,
) -> Result<Seq<Seq<char>>, CatalogFault>
    decreases references.len(),
{
    if references.len() == 0 {
        Ok(affected)
    } else {
        match with_references(stable_by_path, affected, from, stable, references.drop_last()) {
            Err(fault) => Err(fault),
            Ok(affected) => match text_member(references.last(), "path"@) {
                None => Err(
                    incomplete("Canonical batch reference evidence omitted its source path."@),
                ),
                Some(path) => if path == from {
                    Ok(inserted(affected, stable))
                } else {
                    match value_at(stable_by_path, path) {
                        Some(found) => Ok(inserted(affected, found)),
                        None => Err(unknown_path(path)),
                    }
                },
            },
        }
    }
}

/// The state after one more operation of a batch that succeeded.
pub open spec fn applied_item(
    state: BatchState,
    item: BatchItemModel,
    request_item: JsonModel,
    primary: Seq<char>,
    creates: int,
) -> Result<BatchState, CatalogFault> {
    match item.result {
        BatchOperationModel::Record(record) if item.kind == "create"@ => match created_identity(
            request_item,
            primary,
            creates,
        ) {
            None => Err(
                fault(
                    "hosted_mutation_identity_required"@,
                    "Every successful hosted batch create requires stable identity evidence."@,
                ),
            ),
            Some(stable) => if value_at(state.stable_by_path, record.path) is Some {
                Err(
                    incomplete(
                        "A successful hosted batch create replaced an existing identity."@,
                    ),
                )
            } else {
                Ok(
                    BatchState {
                        stable_by_path: with_entry(state.stable_by_path, record.path, stable),
                        affected: inserted(state.affected, stable),
                    },
                )
            },
        },
        BatchOperationModel::Record(record) if item.kind == "update"@ => match value_at(
            state.stable_by_path,
            record.path,
        ) {
            Some(stable) => Ok(
                BatchState { affected: inserted(state.affected, stable), ..state },
            ),
            None => Err(unknown_path(record.path)),
        },
        BatchOperationModel::Delete(DeleteModel::Deleted { path, deleted }) if item.kind
            == "delete"@ && deleted => match value_at(state.stable_by_path, path) {
            Some(stable) => Ok(
                BatchState {
                    stable_by_path: without_entry(state.stable_by_path, path),
                    affected: inserted(state.affected, stable),
                },
            ),
            None => Err(
                incomplete("A successful hosted batch delete has no current stable identity."@),
            ),
        },
        BatchOperationModel::Rename(
            RenameModel::Renamed { from, to, document, references_updated, partial_updates },
        ) if item.kind == "rename"@ => match value_at(state.stable_by_path, from) {
            None => Err(
                incomplete("A successful hosted batch rename has no current source identity."@),
            ),
            Some(stable) => {
                let moved = without_entry(state.stable_by_path, from);
                if value_at(moved, to) is Some {
                    Err(
                        incomplete("A successful hosted batch rename replaced another identity."@),
                    )
                } else {
                    match with_references(
                        with_entry(moved, to, stable),
                        inserted(state.affected, stable),
                        from,
                        stable,
                        references_updated,
                    ) {
                        Err(fault) => Err(fault),
                        Ok(affected) => Ok(
                            BatchState {
                                stable_by_path: with_entry(moved, to, stable),
                                affected,
                            },
                        ),
                    }
                }
            },
        },
        _ => Err(
            incomplete(
                "Successful canonical batch item "@ + decimal(item.index as nat)
                    + " has mismatched '"@ + item.kind + "' evidence."@,
            ),
        ),
    }
}

/// The state after the first operations of a batch.
pub open spec fn batch_state(
    before: TextEntries,
    request_items: Seq<JsonModel>,
    items: Seq<BatchItemModel>,
    primary: Seq<char>,
    count: nat,
) -> Result<BatchState, CatalogFault>
    decreases count,
{
    if count == 0 {
        Ok(BatchState { stable_by_path: inverted(before), affected: Seq::empty() })
    } else {
        match batch_state(before, request_items, items, primary, (count - 1) as nat) {
            Err(fault) => Err(fault),
            Ok(state) => {
                let item = items[count - 1];
                if item.index != count - 1 {
                    Err(incomplete("Canonical batch item evidence is not in request order."@))
                } else if !item.valid {
                    Ok(state)
                } else if item.index >= request_items.len() {
                    Err(
                        incomplete(
                            "Canonical batch item evidence has no matching request item."@,
                        ),
                    )
                } else {
                    applied_item(
                        state,
                        item,
                        request_items[item.index],
                        primary,
                        created_count(items),
                    )
                }
            },
        }
    }
}

/// Where the records of a request are after its batch was applied.
pub struct AppliedPaths {
    pub after_by_stable: TextEntries,
    pub affected: Seq<Seq<char>>,
}

pub open spec fn batch_paths(
    request: HostedMutationRequest,
    before: TextEntries,
    batch: BatchModel,
) -> Result<AppliedPaths, CatalogFault> {
    match array_member(request.input@, "operations"@) {
        None => Err(fault("invalid_request"@, "Hosted batch requires operations."@)),
        Some(items) => match batch_state(
            before,
            items,
            batch.operations,
            request.primary_stable_id@,
            batch.operations.len(),
        ) {
            Err(fault) => Err(fault),
            Ok(state) => Ok(
                AppliedPaths {
                    after_by_stable: inverted(state.stable_by_path),
                    affected: state.affected,
                },
            ),
        },
    }
}

proof fn lemma_batch_stops(
    before: TextEntries,
    request_items: Seq<JsonModel>,
    items: Seq<BatchItemModel>,
    primary: Seq<char>,
    at: nat,
    count: nat,
)
    requires
        at <= count,
        batch_state(before, request_items, items, primary, at) is Err,
    ensures
        batch_state(before, request_items, items, primary, count) == batch_state(
            before,
            request_items,
            items,
            primary,
            at,
        ),
    decreases count - at,
{
    if at < count {
        lemma_batch_stops(before, request_items, items, primary, at, (count - 1) as nat);
    }
}

/// Where the records are after a mutation, and which were touched.
pub struct BatchAppliedPaths {
    pub after_by_stable: TextMap,
    pub affected: Vec<String>,
}

fn count_creates(items: &Vec<BatchItemResult>) -> (result: usize)
    ensures
        result == created_count(crate::canonical_operation::batch_items(items@)),
        result <= items@.len(),
{
    let ghost models = crate::canonical_operation::batch_items(items@);
    let mut count: usize = 0;
    let mut i: usize = 0;
    proof {
        assert(models.take(0) =~= Seq::empty());
    }
    while i < items.len()
        invariant
            i <= items@.len(),
            count <= i,
            models == crate::canonical_operation::batch_items(items@),
            count == created_count(models.take(i as int)),
        decreases items@.len() - i,
    {
        proof {
            assert(models.take(i + 1).drop_last() =~= models.take(i as int));
            assert(models.take(i + 1).last() == items@[i as int]@);
        }
        if items[i].valid && same_text(items[i].kind.as_str(), "create") {
            count = count + 1;
        }
        i = i + 1;
    }
    proof {
        assert(models.take(i as int) =~= models);
    }
    count
}

fn create_identity(item: &Json, primary: &str, creates: usize) -> (result: Option<String>)
    ensures
        optional_text(result) == created_identity(item@, primary@, creates as int),
{
    let named = match item.get("stable_id") {
        Some(named) => Some(named),
        None => match item.get("input") {
            Some(input) => input.get("stable_id"),
            None => None,
        },
    };
    let text = match named {
        Some(named) => named.as_str(),
        None => None,
    };
    match text {
        Some(stable) => Some(stable.to_owned()),
        None => if creates == 1 {
            Some(primary.to_owned())
        } else {
            None
        },
    }
}

fn incomplete_error(message: &str) -> (result: CatalogError)
    ensures
        fault_of(result) == incomplete(message@),
{
    mutation_error("hosted_mutation_plan_incomplete", message)
}

fn stable_at_path(map: &TextMap, path: &str) -> (result: Result<String, CatalogError>)
    ensures
        match result {
            Ok(stable) => value_at(map@, path@) == Some(stable@),
            Err(error) => value_at(map@, path@) is None && fault_of(error) == unknown_path(path@),
        },
{
    match map.get(path) {
        Some(stable) => Ok(stable.to_owned()),
        None => Err(
            incomplete_error(
                concat3(
                    "Successful canonical batch evidence references unknown path '",
                    path,
                    "'.",
                ).as_str(),
            ),
        ),
    }
}

proof fn lemma_references_stop(
    stable_by_path: TextEntries,
    affected: Seq<Seq<char>>,
    from: Seq<char>,
    stable: Seq<char>,
    references: Seq<JsonModel>,
    at: int,
)
    requires
        0 <= at <= references.len(),
        with_references(stable_by_path, affected, from, stable, references.take(at)) is Err,
    ensures
        with_references(stable_by_path, affected, from, stable, references) == with_references(
            stable_by_path,
            affected,
            from,
            stable,
            references.take(at),
        ),
    decreases references.len() - at,
{
    if at < references.len() {
        assert(references.take(at + 1).drop_last() =~= references.take(at));
        lemma_references_stop(stable_by_path, affected, from, stable, references, at + 1);
    } else {
        assert(references.take(at) =~= references);
    }
}

fn add_references(
    map: &TextMap,
    affected: Vec<String>,
    from: &str,
    stable: &str,
    references: &Vec<Json>,
) -> (result: Result<Vec<String>, CatalogError>)
    requires
        crate::text::ascending_texts(texts(affected@)),
    ensures
        match (
            result,
            with_references(
                map@,
                texts(affected@),
                from@,
                stable@,
                item_models(references@),
            ),
        ) {
            (Ok(found), Ok(expected)) => texts(found@) == expected
                && crate::text::ascending_texts(expected),
            (Err(error), Err(expected)) => fault_of(error) == expected,
            _ => false,
        },
{
    let ghost start = texts(affected@);
    let ghost models = item_models(references@);
    let mut all = affected;
    let mut i: usize = 0;
    proof {
        assert(models.take(0) =~= Seq::empty());
    }
    while i < references.len()
        invariant
            i <= references@.len(),
            models == item_models(references@),
            crate::text::ascending_texts(texts(all@)),
            start == texts(affected@),
            with_references(map@, start, from@, stable@, models.take(i as int)) == Ok::<
                _,
                CatalogFault,
            >(texts(all@)),
        decreases references@.len() - i,
    {
        proof {
            assert(models.take(i + 1).drop_last() =~= models.take(i as int));
            assert(models.take(i + 1).last() == references@[i as int]@);
        }
        match references[i].get_str("path") {
            None => {
                proof {
                    lemma_references_stop(map@, start, from@, stable@, models, i + 1);
                }
                return Err(
                    incomplete_error(
                        "Canonical batch reference evidence omitted its source path.",
                    ),
                );
            },
            Some(path) => {
                if same_text(path, from) {
                    insert_sorted(&mut all, stable);
                } else {
                    match stable_at_path(map, path) {
                        Ok(found) => insert_sorted(&mut all, found.as_str()),
                        Err(error) => {
                            proof {
                                lemma_references_stop(map@, start, from@, stable@, models, i + 1);
                            }
                            return Err(error);
                        },
                    }
                }
            },
        }
        i = i + 1;
    }
    proof {
        assert(models.take(i as int) =~= models);
    }
    Ok(all)
}

fn apply_item(
    map: &mut TextMap,
    affected: Vec<String>,
    item: &BatchItemResult,
    request_item: &Json,
    primary: &str,
    creates: usize,
) -> (result: Result<Vec<String>, CatalogError>)
    requires
        crate::text::ascending_texts(texts(affected@)),
        ordered(old(map)@),
    ensures
        match (
            result,
            applied_item(
                BatchState { stable_by_path: old(map)@, affected: texts(affected@) },
                item@,
                request_item@,
                primary@,
                creates as int,
            ),
        ) {
            (Ok(found), Ok(state)) => texts(found@) == state.affected && final(map)@
                == state.stable_by_path && crate::text::ascending_texts(state.affected) && ordered(
                final(map)@,
            ),
            (Err(error), Err(expected)) => fault_of(error) == expected,
            _ => false,
        },
{
    let mut affected = affected;
    let kind = item.kind.as_str();
    proof {
        reveal_strlit("create");
        reveal_strlit("update");
        reveal_strlit("delete");
        reveal_strlit("rename");
        assert("create"@[0] == 'c' && "update"@[0] == 'u' && "delete"@[0] == 'd' && "rename"@[0]
            == 'r');
    }
    match &item.result {
        BatchOperationResult::Record(record) => {
            if same_text(kind, "create") {
                let stable = match create_identity(request_item, primary, creates) {
                    Some(stable) => stable,
                    None => {
                        return Err(
                            mutation_error(
                                "hosted_mutation_identity_required",
                                "Every successful hosted batch create requires stable identity evidence.",
                            ),
                        );
                    },
                };
                if map.insert(record.path.as_str(), stable.as_str()).is_some() {
                    return Err(
                        incomplete_error(
                            "A successful hosted batch create replaced an existing identity.",
                        ),
                    );
                }
                insert_sorted(&mut affected, stable.as_str());
                return Ok(affected);
            }
            if same_text(kind, "update") {
                return match stable_at_path(map, record.path.as_str()) {
                    Ok(stable) => {
                        insert_sorted(&mut affected, stable.as_str());
                        Ok(affected)
                    },
                    Err(error) => Err(error),
                };
            }
        },
        BatchOperationResult::Delete(CanonicalDeleteValue::Deleted(deleted)) => {
            if same_text(kind, "delete") && deleted.deleted {
                return match map.remove(deleted.path.as_str()) {
                    Some(stable) => {
                        insert_sorted(&mut affected, stable.as_str());
                        Ok(affected)
                    },
                    None => Err(
                        incomplete_error(
                            "A successful hosted batch delete has no current stable identity.",
                        ),
                    ),
                };
            }
        },
        BatchOperationResult::Rename(CanonicalRenameValue::Renamed(renamed)) => {
            if same_text(kind, "rename") {
                let stable = match map.remove(renamed.from.as_str()) {
                    Some(stable) => stable,
                    None => {
                        return Err(
                            incomplete_error(
                                "A successful hosted batch rename has no current source identity.",
                            ),
                        );
                    },
                };
                if map.insert(renamed.to.as_str(), stable.as_str()).is_some() {
                    return Err(
                        incomplete_error(
                            "A successful hosted batch rename replaced another identity.",
                        ),
                    );
                }
                insert_sorted(&mut affected, stable.as_str());
                return add_references(
                    map,
                    affected,
                    renamed.from.as_str(),
                    stable.as_str(),
                    &renamed.references_updated,
                );
            }
        },
        _ => {},
    }
    Err(
        incomplete_error(
            concat3(
                "Successful canonical batch item ",
                decimal_text(item.index).as_str(),
                " has mismatched '",
            ).concat(kind).concat("' evidence.").as_str(),
        ),
    )
}

/// Where the records of a request are after its batch was applied.
pub fn batch_after_paths(
    request: &HostedMutationRequest,
    before_by_stable: &TextMap,
    batch: &BatchResult,
) -> (result: Result<BatchAppliedPaths, CatalogError>)
    ensures
        match (result, batch_paths(*request, before_by_stable@, batch@)) {
            (Ok(found), Ok(expected)) => found.after_by_stable@ == expected.after_by_stable
                && texts(found.affected@) == expected.affected,
            (Err(error), Err(expected)) => fault_of(error) == expected,
            _ => false,
        },
{
    let request_items = match request.input.get("operations") {
        Some(member) => match member.as_array() {
            Some(items) => items,
            None => {
                return Err(
                    mutation_error("invalid_request", "Hosted batch requires operations."),
                );
            },
        },
        None => {
            return Err(mutation_error("invalid_request", "Hosted batch requires operations."));
        },
    };
    let ghost request_models = item_models(request_items@);
    let ghost models = crate::canonical_operation::batch_items(batch.operations@);
    let creates = count_creates(&batch.operations);
    let mut map = before_by_stable.invert();
    let mut affected: Vec<String> = Vec::new();
    proof {
        assert(texts(affected@) =~= Seq::empty());
    }
    let count: usize = batch.operations.len();
    let mut i: usize = 0;
    while i < count
        invariant
            i <= count,
            count == batch.operations@.len(),
            models == crate::canonical_operation::batch_items(batch.operations@),
            request_models == item_models(request_items@),
            creates == created_count(models),
            array_member(request.input@, "operations"@) == Some(request_models),
            batch@.operations == models,
            crate::text::ascending_texts(texts(affected@)),
            ordered(map@),
            batch_state(
                before_by_stable@,
                request_models,
                models,
                request.primary_stable_id@,
                i as nat,
            ) == Ok::<_, CatalogFault>(
                BatchState { stable_by_path: map@, affected: texts(affected@) },
            ),
        decreases count - i,
    {
        let item = &batch.operations[i];
        proof {
            assert(models[i as int] == item@);
        }
        if item.index != i as u64 {
            proof {
                lemma_batch_stops(
                    before_by_stable@,
                    request_models,
                    models,
                    request.primary_stable_id@,
                    (i + 1) as nat,
                    count as nat,
                );
            }
            return Err(
                incomplete_error("Canonical batch item evidence is not in request order."),
            );
        }
        if item.valid {
            if i >= request_items.len() {
                proof {
                    lemma_batch_stops(
                        before_by_stable@,
                        request_models,
                        models,
                        request.primary_stable_id@,
                        (i + 1) as nat,
                        count as nat,
                    );
                }
                return Err(
                    incomplete_error(
                        "Canonical batch item evidence has no matching request item.",
                    ),
                );
            }
            proof {
                assert(request_models[i as int] == request_items@[i as int]@);
            }
            match apply_item(
                &mut map,
                affected,
                item,
                &request_items[i],
                request.primary_stable_id.as_str(),
                creates,
            ) {
                Ok(next) => {
                    affected = next;
                },
                Err(error) => {
                    proof {
                        lemma_batch_stops(
                            before_by_stable@,
                            request_models,
                            models,
                            request.primary_stable_id@,
                            (i + 1) as nat,
                            count as nat,
                        );
                    }
                    return Err(error);
                },
            }
        }
        i = i + 1;
    }
    Ok(BatchAppliedPaths { after_by_stable: map.invert(), affected })
}

/// Where the records are after a single mutation.
pub open spec fn single_paths(
    request: HostedMutationRequest,
    before: TextEntries,
) -> AppliedPaths {
    let primary = request.primary_stable_id@;
    let target = match mutation_kind(request.operation@) {
        Some(OperationKind::Delete) => None,
        Some(OperationKind::Rename) => match member_of(request.input@, "path"@) {
            Some(path) => text_model(Some(path)),
            None => text_member(request.input@, "to"@),
        },
        Some(OperationKind::Create) => text_member(request.input@, "path"@),
        _ => value_at(before, primary),
    };
    let after = match target {
        Some(path) => with_entry(before, primary, path),
        None => without_entry(before, primary),
    };
    AppliedPaths { after_by_stable: after, affected: sorted_set(keys_of(before) + keys_of(after)) }
}

fn join_texts(first: Vec<String>, second: &Vec<String>) -> (result: Vec<String>)
    ensures
        texts(result@) == texts(first@) + texts(second@),
{
    let ghost start = texts(first@);
    let mut result = first;
    let mut i: usize = 0;
    proof {
        assert(start + texts(second@).take(0) =~= start);
    }
    while i < second.len()
        invariant
            i <= second@.len(),
            start == texts(first@),
            texts(result@) == start + texts(second@).take(i as int),
        decreases second@.len() - i,
    {
        let ghost before = result@;
        let text = second[i].clone();
        result.push(text);
        proof {
            crate::text::lemma_texts_push(before, text);
            assert(texts(result@) =~= start + texts(second@).take(i + 1));
        }
        i = i + 1;
    }
    proof {
        assert(texts(second@).take(i as int) =~= texts(second@));
    }
    result
}

fn single_after_paths(request: &HostedMutationRequest, before: &TextMap) -> (result:
    BatchAppliedPaths)
    ensures
        result.after_by_stable@ == single_paths(*request, before@).after_by_stable,
        texts(result.affected@) == single_paths(*request, before@).affected,
{
    let primary = request.primary_stable_id.as_str();
    let target = match kind_of(request.operation.as_str()) {
        Some(OperationKind::Delete) => None,
        Some(OperationKind::Rename) => match request.input.get("path") {
            Some(path) => path.as_str(),
            None => request.input.get_str("to"),
        },
        Some(OperationKind::Create) => request.input.get_str("path"),
        _ => before.get(primary),
    };
    let mut after = before.copy();
    match target {
        Some(path) => {
            let _replaced = after.insert(primary, path);
        },
        None => {
            let _removed = after.remove(primary);
        },
    }
    let all = join_texts(before.keys(), &after.keys());
    BatchAppliedPaths { after_by_stable: after, affected: sorted_texts(&all) }
}

// ---------------------------------------------------------------------------
// Changed records
// ---------------------------------------------------------------------------
/// The position of the context record with an identity; the number of records
/// without one.
pub open spec fn context_at(records: Seq<CanonicalRecordInput>, stable: Seq<char>) -> int
    decreases records.len(),
{
    if records.len() == 0 || optional_text(records[0].stable_id) == Some(stable) {
        0
    } else {
        1 + context_at(records.drop_first(), stable)
    }
}

/// What was captured at a path.
pub open spec fn capture_at(captures: Seq<StagedCapture>, path: Seq<char>) -> Option<StagedCapture>
    decreases captures.len(),
{
    if captures.len() == 0 {
        None
    } else if captures[0].path@ == path {
        Some(captures[0])
    } else {
        capture_at(captures.drop_first(), path)
    }
}

pub open spec fn capture_fault(message: Seq<char>) -> CatalogFault {
    incomplete("Canonical mutation output could not be captured: "@ + message)
}

/// The staged document at a path.
pub open spec fn staged_at(captures: Seq<StagedCapture>, path: Seq<char>) -> Result<
    StagedDocument,
    CatalogFault,
> {
    match capture_at(captures, path) {
        None => Err(capture_fault("the path was not captured"@)),
        Some(found) => match found.capture {
            Ok(document) => Ok(document),
            Err(message) => Err(capture_fault(message@)),
        },
    }
}

/// A staged document as a record input.
pub open spec fn staged_input(stable: Seq<char>, document: StagedDocument) -> InputModel {
    InputModel {
        stable_id: Some(stable),
        path: document.path@,
        document: document.document@,
        file_size: encode_utf8(document.document@).len() as int,
        file_mtime: None,
    }
}

/// The kind of a record's change.
pub open spec fn transition_kind(
    before: Option<SnapshotModel>,
    after: Option<SnapshotModel>,
) -> RecordChangeKind {
    match (before, after) {
        (None, _) => RecordChangeKind::Created,
        (Some(_), None) => RecordChangeKind::Deleted,
        (Some(before), Some(after)) => if before.path != after.path {
            RecordChangeKind::Renamed
        } else {
            RecordChangeKind::Updated
        },
    }
}

/// The change of a record between its two classified states.
pub open spec fn transition(
    before: Option<SnapshotModel>,
    after: Option<SnapshotModel>,
) -> ChangeModel {
    let kind = transition_kind(before, after);
    let path = match (before, after) {
        (_, Some(after)) => after.path,
        (Some(before), None) => before.path,
        (None, None) => Seq::empty(),
    };
    let from = match (kind, before) {
        (RecordChangeKind::Renamed, Some(before)) => Some(before.path),
        _ => None,
    };
    change_of(kind, path, from, before, after)
}

/// The change of the record with an identity, if it changed.
pub open spec fn change_for(
    request: HostedMutationRequest,
    facts: MutationFacts,
    before: TextEntries,
    after: TextEntries,
    stable: Seq<char>,
) -> Result<Option<HostedChangeModel>, CatalogFault> {
    let at = context_at(request.records@, stable);
    let old_input = if 0 <= at < request.records@.len() {
        Some(request.records@[at])
    } else {
        None
    };
    let staged = match value_at(after, stable) {
        None => Ok(None),
        Some(path) => match staged_at(facts.captures@, path) {
            Ok(document) => Ok(Some(document)),
            Err(fault) => Err(fault),
        },
    };
    match staged {
        Err(fault) => Err(fault),
        Ok(staged) => {
            let unchanged = match (old_input, staged) {
                (None, None) => true,
                (Some(old_input), Some(staged)) => old_input.path@ == staged.path@
                    && old_input.document@ == staged.document@,
                _ => false,
            };
            if unchanged {
                Ok(None)
            } else {
                let old_state = match old_input {
                    None => Ok(None),
                    Some(old_input) => match classification(
                        old_input.document@,
                        facts.paths@[at],
                        facts.parsed@[at],
                    ) {
                        Ok(record) => Ok(Some(record)),
                        Err(fault) => Err(fault),
                    },
                };
                let new_state = match staged {
                    None => Ok(None),
                    Some(staged) => match classification(
                        staged.document@,
                        staged.path_facts,
                        staged.parsed,
                    ) {
                        Ok(record) => Ok(Some(record)),
                        Err(fault) => Err(fault),
                    },
                };
                match (old_state, new_state) {
                    (Err(fault), _) => Err(fault),
                    (Ok(_), Err(fault)) => Err(fault),
                    (Ok(old_state), Ok(new_state)) => Ok(
                        Some(
                            HostedChangeModel {
                                stable_id: stable,
                                before_path: value_at(before, stable),
                                before: optional_input(old_input),
                                after: match staged {
                                    Some(staged) => Some(staged_input(stable, staged)),
                                    None => None,
                                },
                                change: transition(old_state, new_state),
                            },
                        ),
                    ),
                }
            }
        },
    }
}

/// The changes of the first touched records.
pub open spec fn changes_for(
    request: HostedMutationRequest,
    facts: MutationFacts,
    before: TextEntries,
    paths: AppliedPaths,
    count: nat,
) -> Result<Seq<HostedChangeModel>, CatalogFault>
    decreases count,
{
    if count == 0 {
        Ok(Seq::empty())
    } else {
        match changes_for(request, facts, before, paths, (count - 1) as nat) {
            Err(fault) => Err(fault),
            Ok(list) => match change_for(
                request,
                facts,
                before,
                paths.after_by_stable,
                paths.affected[count - 1],
            ) {
                Err(fault) => Err(fault),
                Ok(Some(change)) => Ok(list.push(change)),
                Ok(None) => Ok(list),
            },
        }
    }
}

/// The changes of one record, or of all others.
pub open spec fn changes_of_record(
    changes: Seq<HostedChangeModel>,
    stable: Seq<char>,
    own: bool,
) -> Seq<HostedChangeModel>
    decreases changes.len(),
{
    if changes.len() == 0 {
        Seq::empty()
    } else {
        let rest = changes_of_record(changes.drop_last(), stable, own);
        if (changes.last().stable_id == stable) == own {
            rest.push(changes.last())
        } else {
            rest
        }
    }
}

/// The changes with those of the primary record first.
pub open spec fn primary_first(
    changes: Seq<HostedChangeModel>,
    primary: Seq<char>,
) -> Seq<HostedChangeModel> {
    changes_of_record(changes, primary, true) + changes_of_record(changes, primary, false)
}

pub open spec fn canonical_changes_of(changes: Seq<HostedChangeModel>) -> Seq<ChangeModel> {
    Seq::new(changes.len(), |i: int| changes[i].change)
}

/// What a mutation plan holds.
pub struct MutationPlanModel {
    pub primary_stable_id: Seq<char>,
    pub operation: OutcomeModel,
    pub changes: Seq<HostedChangeModel>,
    pub change_set: ChangeSetModel,
}

/// Where the records are after the applied mutation.
pub open spec fn paths_after(
    request: HostedMutationRequest,
    before: TextEntries,
    applied: ValueModel,
) -> Result<AppliedPaths, CatalogFault> {
    if mutation_kind(request.operation@) == Some(OperationKind::Batch) {
        match applied {
            ValueModel::Batch(Some(batch)) => batch_paths(request, before, batch),
            _ => Err(incomplete("Canonical batch execution omitted typed item evidence."@)),
        }
    } else {
        Ok(single_paths(request, before))
    }
}

/// The plan of a mutation that was applied on its stage.
pub open spec fn applied_plan(
    request: HostedMutationRequest,
    facts: MutationFacts,
    before: TextEntries,
    operation: OutcomeModel,
    applied: ValueModel,
) -> Result<MutationPlanModel, CatalogFault> {
    match paths_after(request, before, applied) {
        Err(fault) => Err(fault),
        Ok(paths) => match changes_for(request, facts, before, paths, paths.affected.len()) {
            Err(fault) => Err(fault),
            Ok(list) => {
                let changes = primary_first(list, request.primary_stable_id@);
                Ok(
                    MutationPlanModel {
                        primary_stable_id: request.primary_stable_id@,
                        operation,
                        changes,
                        change_set: ChangeSetModel::Exact(canonical_changes_of(changes)),
                    },
                )
            },
        },
    }
}

/// The plan of a mutation, by what running it on its stage showed.
pub open spec fn mutation_plan(
    request: HostedMutationRequest,
    facts: MutationFacts,
) -> Result<MutationPlanModel, CatalogFault> {
    match context_of(request, facts.paths@) {
        Err(fault) => Err(fault),
        Ok(maps) => {
            let before = maps.before_by_stable;
            match staged_input_of(request, value_at(before, request.primary_stable_id@)) {
                Err(fault) => Err(fault),
                Ok(_) => match typed_outcome(request.operation@, facts.staged@) {
                    Err(fault) => Err(fault),
                    Ok(operation) => {
                        let partial = applied_in_part(request.input@, operation.value);
                        let result = if bool_member(request.input@, "dry_run"@) == Some(true) {
                            facts.committed@
                        } else {
                            facts.staged@
                        };
                        if !facts.staged.valid && !partial {
                            Ok(
                                MutationPlanModel {
                                    primary_stable_id: request.primary_stable_id@,
                                    operation,
                                    changes: Seq::empty(),
                                    change_set: ChangeSetModel::Nothing,
                                },
                            )
                        } else if !result.valid && !partial {
                            Err(
                                fault(
                                    "hosted_mutation_dry_run_mismatch"@,
                                    "Canonical dry-run and disposable mutation execution disagreed."@,
                                ),
                            )
                        } else {
                            match typed_outcome(request.operation@, result) {
                                Err(fault) => Err(fault),
                                Ok(applied) => applied_plan(
                                    request,
                                    facts,
                                    before,
                                    operation,
                                    applied.value,
                                ),
                            }
                        }
                    },
                },
            }
        },
    }
}

pub open spec fn plan_model(plan: TypedHostedMutationPlan) -> MutationPlanModel {
    MutationPlanModel {
        primary_stable_id: plan.primary_stable_id@,
        operation: plan.operation@,
        changes: hosted_models(plan.changes@),
        change_set: plan.change_set@,
    }
}

fn find_context(records: &Vec<CanonicalRecordInput>, stable: &str) -> (result: usize)
    ensures
        result == context_at(records@, stable@),
        result <= records@.len(),
{
    let mut i: usize = 0;
    proof {
        assert(records@.skip(0) =~= records@);
    }
    while i < records.len()
        invariant
            i <= records@.len(),
            context_at(records@, stable@) == i + context_at(records@.skip(i as int), stable@),
        decreases records@.len() - i,
    {
        proof {
            assert(records@.skip(i as int)[0] == records@[i as int]);
            assert(records@.skip(i as int).drop_first() =~= records@.skip(i + 1));
        }
        let found = match &records[i].stable_id {
            Some(id) => same_text(id.as_str(), stable),
            None => false,
        };
        if found {
            return i;
        }
        i = i + 1;
    }
    i
}

fn find_capture<'a>(captures: &'a Vec<StagedCapture>, path: &str) -> (result: Option<
    &'a StagedCapture,
>)
    ensures
        match result {
            Some(found) => capture_at(captures@, path@) == Some(*found),
            None => capture_at(captures@, path@) is None,
        },
{
    let mut i: usize = 0;
    proof {
        assert(captures@.skip(0) =~= captures@);
    }
    while i < captures.len()
        invariant
            i <= captures@.len(),
            capture_at(captures@, path@) == capture_at(captures@.skip(i as int), path@),
        decreases captures@.len() - i,
    {
        proof {
            assert(captures@.skip(i as int)[0] == captures@[i as int]);
            assert(captures@.skip(i as int).drop_first() =~= captures@.skip(i + 1));
        }
        if same_text(captures[i].path.as_str(), path) {
            return Some(&captures[i]);
        }
        i = i + 1;
    }
    None
}

fn find_staged<'a>(captures: &'a Vec<StagedCapture>, path: &str) -> (result: Result<
    &'a StagedDocument,
    CatalogError,
>)
    ensures
        match result {
            Ok(found) => staged_at(captures@, path@) == Ok::<_, CatalogFault>(*found),
            Err(error) => staged_at(captures@, path@) == Err::<StagedDocument, _>(
                fault_of(error),
            ),
        },
{
    match find_capture(captures, path) {
        Some(found) => match &found.capture {
            Ok(document) => Ok(document),
            Err(message) => Err(
                incomplete_error(
                    "Canonical mutation output could not be captured: ".to_owned().concat(
                        message.as_str(),
                    ).as_str(),
                ),
            ),
        },
        None => Err(
            incomplete_error(
                "Canonical mutation output could not be captured: ".to_owned().concat(
                    "the path was not captured",
                ).as_str(),
            ),
        ),
    }
}

/// The change of a record between its two classified states.
pub fn hosted_record_change(
    before: Option<&CollectionSnapshotRecord>,
    after: Option<&CollectionSnapshotRecord>,
) -> (result: CanonicalChange)
    requires
        before is Some || after is Some,
    ensures
        result@ == transition(crate::diff::owned(before), crate::diff::owned(after)),
{
    let mut path = String::new();
    let mut from: Option<String> = None;
    let kind = match (before, after) {
        (None, Some(after)) => {
            path = after.path.clone();
            RecordChangeKind::Created
        },
        (Some(before), None) => {
            path = before.path.clone();
            RecordChangeKind::Deleted
        },
        (Some(before), Some(after)) => {
            path = after.path.clone();
            if same_text(before.path.as_str(), after.path.as_str()) {
                RecordChangeKind::Updated
            } else {
                from = Some(before.path.clone());
                RecordChangeKind::Renamed
            }
        },
        (None, None) => RecordChangeKind::Created,
    };
    record_change(kind, path.as_str(), from, before, after)
}

fn plan_change(
    catalog: &CompiledCatalog,
    request: &HostedMutationRequest,
    facts: &MutationFacts,
    before: &TextMap,
    after: &TextMap,
    stable: &str,
) -> (result: Result<Option<HostedRecordChange>, CatalogError>)
    requires
        facts.paths@.len() == request.records@.len(),
        facts.parsed@.len() == request.records@.len(),
    ensures
        match (result, change_for(*request, *facts, before@, after@, stable@)) {
            (Ok(Some(change)), Ok(Some(expected))) => change@ == expected,
            (Ok(None), Ok(None)) => true,
            (Err(error), Err(expected)) => fault_of(error) == expected,
            _ => false,
        },
{
    let staged = match after.get(stable) {
        None => None,
        Some(path) => match find_staged(&facts.captures, path) {
            Ok(document) => Some(document),
            Err(error) => {
                return Err(error);
            },
        },
    };
    let at = find_context(&request.records, stable);
    let known = at < request.records.len();
    let unchanged = match staged {
        None => !known,
        Some(staged) => known && same_text(
            request.records[at].path.as_str(),
            staged.path.as_str(),
        ) && same_text(request.records[at].document.as_str(), staged.document.as_str()),
    };
    if unchanged {
        return Ok(None);
    }
    let old_state = if known {
        match catalog.classify_record(&request.records[at], &facts.paths[at], &facts.parsed[at]) {
            Ok(record) => Some(record),
            Err(error) => {
                return Err(error);
            },
        }
    } else {
        None
    };
    let new_input = match staged {
        None => None,
        Some(staged) => Some(
            CanonicalRecordInput {
                stable_id: Some(stable.to_owned()),
                path: staged.path.clone(),
                file_size: staged.document.as_str().as_bytes().len() as u64,
                document: staged.document.clone(),
                file_mtime: None,
            },
        ),
    };
    let new_state = match (&new_input, staged) {
        (Some(input), Some(staged)) => match catalog.classify_record(
            input,
            &staged.path_facts,
            &staged.parsed,
        ) {
            Ok(record) => Some(record),
            Err(error) => {
                return Err(error);
            },
        },
        _ => None,
    };
    let change = hosted_record_change(old_state.as_ref(), new_state.as_ref());
    let before_path = match before.get(stable) {
        Some(path) => Some(path.to_owned()),
        None => None,
    };
    let old_input = if known {
        Some(request.records[at].copy())
    } else {
        None
    };
    Ok(
        Some(
            HostedRecordChange {
                stable_id: stable.to_owned(),
                before_path,
                before: old_input,
                after: new_input,
                change,
            },
        ),
    )
}

proof fn lemma_changes_stop(
    request: HostedMutationRequest,
    facts: MutationFacts,
    before: TextEntries,
    paths: AppliedPaths,
    at: nat,
    count: nat,
)
    requires
        at <= count,
        changes_for(request, facts, before, paths, at) is Err,
    ensures
        changes_for(request, facts, before, paths, count) == changes_for(
            request,
            facts,
            before,
            paths,
            at,
        ),
    decreases count - at,
{
    if at < count {
        lemma_changes_stop(request, facts, before, paths, at, (count - 1) as nat);
    }
}

fn plan_changes(
    catalog: &CompiledCatalog,
    request: &HostedMutationRequest,
    facts: &MutationFacts,
    before: &TextMap,
    paths: &BatchAppliedPaths,
) -> (result: Result<Vec<HostedRecordChange>, CatalogError>)
    requires
        facts.paths@.len() == request.records@.len(),
        facts.parsed@.len() == request.records@.len(),
    ensures
        match (
            result,
            changes_for(
                *request,
                *facts,
                before@,
                AppliedPaths {
                    after_by_stable: paths.after_by_stable@,
                    affected: texts(paths.affected@),
                },
                paths.affected@.len(),
            ),
        ) {
            (Ok(list), Ok(expected)) => hosted_models(list@) == expected,
            (Err(error), Err(expected)) => fault_of(error) == expected,
            _ => false,
        },
{
    let ghost applied = AppliedPaths {
        after_by_stable: paths.after_by_stable@,
        affected: texts(paths.affected@),
    };
    let mut list: Vec<HostedRecordChange> = Vec::new();
    proof {
        assert(hosted_models(list@) =~= Seq::empty());
    }
    let count: usize = paths.affected.len();
    let mut i: usize = 0;
    while i < count
        invariant
            i <= count,
            count == paths.affected@.len(),
            facts.paths@.len() == request.records@.len(),
            facts.parsed@.len() == request.records@.len(),
            applied == (AppliedPaths {
                after_by_stable: paths.after_by_stable@,
                affected: texts(paths.affected@),
            }),
            changes_for(*request, *facts, before@, applied, i as nat) == Ok::<_, CatalogFault>(
                hosted_models(list@),
            ),
        decreases count - i,
    {
        proof {
            assert(applied.affected[i as int] == paths.affected@[i as int]@);
        }
        match plan_change(
            catalog,
            request,
            facts,
            before,
            &paths.after_by_stable,
            paths.affected[i].as_str(),
        ) {
            Ok(Some(change)) => {
                let ghost done = list@;
                list.push(change);
                proof {
                    assert(hosted_models(list@) =~= hosted_models(done).push(change@));
                }
            },
            Ok(None) => {},
            Err(error) => {
                proof {
                    lemma_changes_stop(
                        *request,
                        *facts,
                        before@,
                        applied,
                        (i + 1) as nat,
                        count as nat,
                    );
                }
                return Err(error);
            },
        }
        i = i + 1;
    }
    Ok(list)
}

impl HostedRecordChange {
    pub fn copy(&self) -> (result: HostedRecordChange)
        ensures
            result@ == self@,
    {
        HostedRecordChange {
            stable_id: self.stable_id.clone(),
            before_path: copy_optional(&self.before_path),
            before: match &self.before {
                Some(record) => Some(record.copy()),
                None => None,
            },
            after: match &self.after {
                Some(record) => Some(record.copy()),
                None => None,
            },
            change: self.change.copy(),
        }
    }
}

fn select_changes(list: &Vec<HostedRecordChange>, primary: &str, own: bool) -> (result: Vec<
    HostedRecordChange,
>)
    ensures
        hosted_models(result@) == changes_of_record(hosted_models(list@), primary@, own),
{
    let ghost models = hosted_models(list@);
    let mut result: Vec<HostedRecordChange> = Vec::new();
    proof {
        assert(hosted_models(result@) =~= Seq::empty());
        assert(models.take(0) =~= Seq::empty());
    }
    let mut i: usize = 0;
    while i < list.len()
        invariant
            i <= list@.len(),
            models == hosted_models(list@),
            hosted_models(result@) == changes_of_record(models.take(i as int), primary@, own),
        decreases list@.len() - i,
    {
        proof {
            assert(models.take(i + 1).drop_last() =~= models.take(i as int));
            assert(models.take(i + 1).last() == list@[i as int]@);
        }
        if same_text(list[i].stable_id.as_str(), primary) == own {
            let ghost done = result@;
            let change = list[i].copy();
            result.push(change);
            proof {
                assert(hosted_models(result@) =~= hosted_models(done).push(change@));
            }
        }
        i = i + 1;
    }
    proof {
        assert(models.take(i as int) =~= models);
    }
    result
}

fn order_changes(list: &Vec<HostedRecordChange>, primary: &str) -> (result: Vec<
    HostedRecordChange,
>)
    ensures
        hosted_models(result@) == primary_first(hosted_models(list@), primary@),
{
    let mut result = select_changes(list, primary, true);
    let mut rest = select_changes(list, primary, false);
    let ghost first = hosted_models(result@);
    let ghost second = hosted_models(rest@);
    let ghost own = result@;
    let ghost others = rest@;
    result.append(&mut rest);
    proof {
        assert(result@ =~= own + others);
        assert(hosted_models(result@) =~= first + second);
    }
    result
}

fn change_list(changes: &Vec<HostedRecordChange>) -> (result: Vec<CanonicalChange>)
    ensures
        change_models(result@) == canonical_changes_of(hosted_models(changes@)),
{
    let mut result: Vec<CanonicalChange> = Vec::new();
    let mut i: usize = 0;
    while i < changes.len()
        invariant
            i <= changes@.len(),
            result@.len() == i,
            forall|k: int| 0 <= k < i ==> (#[trigger] result@[k])@ == changes@[k].change@,
        decreases changes@.len() - i,
    {
        result.push(changes[i].change.copy());
        i = i + 1;
    }
    proof {
        assert(change_models(result@) =~= canonical_changes_of(hosted_models(changes@)));
    }
    result
}

impl CompiledCatalog {
    /// Plans one mutation by what running it on its stage showed. The plan still
    /// has to be committed under the authority of the provider.
    pub fn plan_hosted_mutation_typed(
        &self,
        request: &HostedMutationRequest,
        facts: &MutationFacts,
    ) -> (result: Result<TypedHostedMutationPlan, CatalogError>)
        requires
            facts.paths@.len() == request.records@.len(),
            facts.parsed@.len() == request.records@.len(),
        ensures
            match (result, mutation_plan(*request, *facts)) {
                (Ok(plan), Ok(expected)) => plan_model(plan) == expected,
                (Err(error), Err(expected)) => fault_of(error) == expected,
                _ => false,
            },
    {
        let context = match self.check_mutation_context(request, &facts.paths) {
            Ok(context) => context,
            Err(error) => {
                return Err(error);
            },
        };
        if let Err(error) = self.staged_mutation_input(request, &context) {
            return Err(error);
        }
        let operation = match typed_mutation_outcome(
            request.operation.as_str(),
            &facts.staged,
        ) {
            Ok(operation) => operation,
            Err(error) => {
                return Err(error);
            },
        };
        let partial = is_applied_in_part(&request.input, &operation.value);
        let primary_stable_id = request.primary_stable_id.clone();
        if !facts.staged.valid && !partial {
            let changes: Vec<HostedRecordChange> = Vec::new();
            proof {
                assert(hosted_models(changes@) =~= Seq::empty());
            }
            return Ok(
                TypedHostedMutationPlan {
                    operation,
                    primary_stable_id,
                    changes,
                    change_set: ChangeSet::Nothing,
                },
            );
        }
        let is_dry_run = match request.input.get_bool("dry_run") {
            Some(dry_run) => dry_run,
            None => false,
        };
        let result = if is_dry_run {
            &facts.committed
        } else {
            &facts.staged
        };
        if !result.valid && !partial {
            return Err(
                mutation_error(
                    "hosted_mutation_dry_run_mismatch",
                    "Canonical dry-run and disposable mutation execution disagreed.",
                ),
            );
        }
        let applied = match typed_mutation_outcome(request.operation.as_str(), result) {
            Ok(applied) => applied,
            Err(error) => {
                return Err(error);
            },
        };
        let before = &context.before_by_stable;
        let is_batch = match kind_of(request.operation.as_str()) {
            Some(OperationKind::Batch) => true,
            _ => false,
        };
        let paths = if is_batch {
            match &applied.value {
                CanonicalOperationValue::Batch(Some(batch)) => match batch_after_paths(
                    request,
                    before,
                    batch,
                ) {
                    Ok(paths) => paths,
                    Err(error) => {
                        return Err(error);
                    },
                },
                _ => {
                    return Err(
                        incomplete_error(
                            "Canonical batch execution omitted typed item evidence.",
                        ),
                    );
                },
            }
        } else {
            single_after_paths(request, before)
        };
        let list = match plan_changes(self, request, facts, before, &paths) {
            Ok(list) => list,
            Err(error) => {
                return Err(error);
            },
        };
        let changes = order_changes(&list, request.primary_stable_id.as_str());
        let change_set = ChangeSet::Exact(change_list(&changes));
        Ok(TypedHostedMutationPlan { operation, primary_stable_id, changes, change_set })
    }

    /// The plan of a mutation with its portable result.
    pub fn plan_hosted_mutation(&self, request: &HostedMutationRequest, facts: &MutationFacts) -> (
        result: Result<HostedMutationPlan, CatalogError>)
        requires
            facts.paths@.len() == request.records@.len(),
            facts.parsed@.len() == request.records@.len(),
        ensures
            match (result, mutation_plan(*request, *facts)) {
                (Ok(plan), Ok(expected)) => plan.result@ == crate::canonical_operation::wire_of(
                    expected.operation,
                ) && plan.primary_stable_id@ == expected.primary_stable_id && portable_changes(
                    plan.changes@,
                    expected.changes,
                ),
                (Err(error), Err(expected)) => fault_of(error) == expected,
                _ => false,
            },
    {
        let plan = match self.plan_hosted_mutation_typed(request, facts) {
            Ok(plan) => plan,
            Err(error) => {
                return Err(error);
            },
        };
        let mut changes: Vec<HostedMutationChange> = Vec::new();
        let mut i: usize = 0;
        while i < plan.changes.len()
            invariant
                i <= plan.changes@.len(),
                changes@.len() == i,
                forall|k: int|
                    #![trigger changes@[k]]
                    0 <= k < i ==> changes@[k].stable_id@ == plan.changes@[k].stable_id@
                        && optional_text(changes@[k].before_path) == optional_text(
                        plan.changes@[k].before_path,
                    ) && optional_input(changes@[k].record) == optional_input(
                        plan.changes@[k].after,
                    ),
            decreases plan.changes@.len() - i,
        {
            let change = &plan.changes[i];
            changes.push(
                HostedMutationChange {
                    stable_id: change.stable_id.clone(),
                    before_path: copy_optional(&change.before_path),
                    record: match &change.after {
                        Some(record) => Some(record.copy()),
                        None => None,
                    },
                },
            );
            i = i + 1;
        }
        proof {
            let expected = (mutation_plan(*request, *facts)->Ok_0).changes;
            assert(hosted_models(plan.changes@) == expected);
            assert forall|k: int| #![trigger changes@[k]] 0 <= k < changes@.len() implies
                changes@[k].stable_id@ == expected[k].stable_id && optional_text(
                changes@[k].before_path,
            ) == expected[k].before_path && optional_input(changes@[k].record)
                == expected[k].after by {
                assert(hosted_models(plan.changes@)[k] == plan.changes@[k]@);
            }
        }
        Ok(
            HostedMutationPlan {
                result: plan.operation.to_v03(),
                primary_stable_id: plan.primary_stable_id,
                changes,
            },
        )
    }
}

/// Whether changes are the portable form of others.
pub open spec fn portable_changes(
    changes: Seq<HostedMutationChange>,
    expected: Seq<HostedChangeModel>,
) -> bool {
    changes.len() == expected.len() && forall|k: int|
        #![trigger changes[k]]
        0 <= k < changes.len() ==> changes[k].stable_id@ == expected[k].stable_id
            && optional_text(changes[k].before_path) == expected[k].before_path && optional_input(
            changes[k].record,
        ) == expected[k].after
}

// ---------------------------------------------------------------------------
// Laws
// ---------------------------------------------------------------------------
/// An operation of a batch that failed moves and touches nothing.
pub proof fn lemma_failed_items_change_nothing(
    before: TextEntries,
    request_items: Seq<JsonModel>,
    items: Seq<BatchItemModel>,
    primary: Seq<char>,
    count: nat,
)
    requires
        0 < count <= items.len(),
        !items[count - 1].valid,
        items[count - 1].index == count - 1,
    ensures
        batch_state(before, request_items, items, primary, count) == batch_state(
            before,
            request_items,
            items,
            primary,
            (count - 1) as nat,
        ),
{
}

/// A rename inside a batch moves its record's identity to the new path, and no
/// other.
pub proof fn lemma_rename_moves_the_identity(
    state: BatchState,
    item: BatchItemModel,
    request_item: JsonModel,
    primary: Seq<char>,
    creates: int,
    other: Seq<char>,
)
    requires
        ordered(state.stable_by_path),
        item.kind == "rename"@,
        item.result is Rename,
        applied_item(state, item, request_item, primary, creates) is Ok,
    ensures
        match item.result {
            BatchOperationModel::Rename(
                RenameModel::Renamed { from, to, document, references_updated, partial_updates },
            ) => {
                let after = (applied_item(
                    state,
                    item,
                    request_item,
                    primary,
                    creates,
                )->Ok_0).stable_by_path;
                &&& value_at(after, to) == value_at(state.stable_by_path, from)
                &&& from != to ==> value_at(after, from) is None
                &&& other != from && other != to ==> value_at(after, other) == value_at(
                    state.stable_by_path,
                    other,
                )
            },
            _ => true,
        },
{
    if let BatchOperationModel::Rename(
        RenameModel::Renamed { from, to, document, references_updated, partial_updates },
    ) = item.result {
        let stable = value_at(state.stable_by_path, from)->0;
        let moved = without_entry(state.stable_by_path, from);
        crate::text_map::lemma_value_with_entry(moved, to, stable, to);
        crate::text_map::lemma_value_with_entry(moved, to, stable, from);
        crate::text_map::lemma_value_with_entry(moved, to, stable, other);
        crate::text_map::lemma_value_without_entry(state.stable_by_path, from, from);
        crate::text_map::lemma_value_without_entry(state.stable_by_path, from, other);
    }
}

/// A plan's change set holds the changes of its records, in their order, and an
/// invalid mutation that applied nothing changes nothing.
pub proof fn lemma_change_set_follows_the_changes(
    request: HostedMutationRequest,
    facts: MutationFacts,
)
    requires
        mutation_plan(request, facts) is Ok,
    ensures
        match (mutation_plan(request, facts)->Ok_0).change_set {
            ChangeSetModel::Exact(changes) => changes == canonical_changes_of(
                (mutation_plan(request, facts)->Ok_0).changes,
            ),
            ChangeSetModel::Nothing => (mutation_plan(request, facts)->Ok_0).changes.len() == 0
                && !facts.staged.valid,
            ChangeSetModel::CollectionWide { .. } => false,
        },
{
}

} // verus!
