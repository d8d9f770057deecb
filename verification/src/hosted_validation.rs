//! Planning and carrying out the validation of one record among others.

use crate::canonical::{compact_text, to_compact_text};
use crate::canonical_operation::{
    CanonicalOperationOutcome, OutcomeModel, ValueModel, WireOnlyModel,
};
use crate::collection::find_type;
use crate::diagnostics::{CatalogError, OperationResult};
use crate::catalog::ExactRecord;
use crate::diff::CollectionSnapshotRecord;
use crate::hosted_mutation::{document_bytes, fault, fault_of, fits_bytes, CatalogFault};
use crate::hosted_query::CompiledCatalog;
use crate::json::{member_of, text_member, Json, JsonModel};
use crate::operation_values::{all_typed, OperationKind};
use crate::projection::{CanonicalRecordInput, RecordResolutionKeyKind};
use crate::record_path::{record_path_of, RecordPathFacts};
use crate::text::{compare_text, optional_text, same_text, text_order, Order};
use vstd::prelude::*;

verus! {

pub const MAX_HOSTED_VALIDATION_RECORDS: usize = 2_001;

pub const MAX_HOSTED_VALIDATION_EXACT_BYTES: u64 = 33_554_432;

// ---------------------------------------------------------------------------
// Requirements
// ---------------------------------------------------------------------------
#[derive(Clone, Copy, Debug, PartialEq, Eq, Structural)]
pub enum HostedValidationRequirementKind {
    Identity,
    UniqueField,
}

/// A value that no other record of a type may have in a field.
#[derive(Debug, PartialEq, Eq)]
pub struct HostedValidationRequirement {
    pub kind: HostedValidationRequirementKind,
    pub record_type: String,
    pub field_reference: String,
    pub comparable_value: String,
}

pub struct RequirementModel {
    pub kind: HostedValidationRequirementKind,
    pub record_type: Seq<char>,
    pub field_reference: Seq<char>,
    pub comparable_value: Seq<char>,
}

impl View for HostedValidationRequirement {
    type V = RequirementModel;

    open spec fn view(&self) -> RequirementModel {
        RequirementModel {
            kind: self.kind,
            record_type: self.record_type@,
            field_reference: self.field_reference@,
            comparable_value: self.comparable_value@,
        }
    }
}

pub open spec fn requirement_models(list: Seq<HostedValidationRequirement>) -> Seq<
    RequirementModel,
> {
    Seq::new(list.len(), |i: int| list[i]@)
}

/// The order of requirements: by kind, type, field, and value.
pub open spec fn requirement_order(left: RequirementModel, right: RequirementModel) -> Order {
    match (left.kind, right.kind) {
        (
            HostedValidationRequirementKind::Identity,
            HostedValidationRequirementKind::UniqueField,
        ) => Order::Less,
        (
            HostedValidationRequirementKind::UniqueField,
            HostedValidationRequirementKind::Identity,
        ) => Order::Greater,
        _ => if text_order(left.record_type, right.record_type) != Order::Equal {
            text_order(left.record_type, right.record_type)
        } else if text_order(left.field_reference, right.field_reference) != Order::Equal {
            text_order(left.field_reference, right.field_reference)
        } else {
            text_order(left.comparable_value, right.comparable_value)
        },
    }
}

fn compare_requirements(
    left: &HostedValidationRequirement,
    right: &HostedValidationRequirement,
) -> (result: Order)
    ensures
        result == requirement_order(left@, right@),
{
    match (left.kind, right.kind) {
        (
            HostedValidationRequirementKind::Identity,
            HostedValidationRequirementKind::UniqueField,
        ) => {
            return Order::Less;
        },
        (
            HostedValidationRequirementKind::UniqueField,
            HostedValidationRequirementKind::Identity,
        ) => {
            return Order::Greater;
        },
        _ => {},
    }
    let types = compare_text(left.record_type.as_str(), right.record_type.as_str());
    if !types.is_eq() {
        return types;
    }
    let fields = compare_text(left.field_reference.as_str(), right.field_reference.as_str());
    if !fields.is_eq() {
        return fields;
    }
    compare_text(left.comparable_value.as_str(), right.comparable_value.as_str())
}

/// A requirement in its place among others, once.
pub open spec fn with_requirement(
    list: Seq<RequirementModel>,
    requirement: RequirementModel,
) -> Seq<RequirementModel>
    decreases list.len(),
{
    if list.len() == 0 {
        seq![requirement]
    } else {
        match requirement_order(requirement, list[0]) {
            Order::Less => seq![requirement] + list,
            Order::Equal => list,
            Order::Greater => seq![list[0]] + with_requirement(list.drop_first(), requirement),
        }
    }
}

proof fn lemma_with_requirement_at(
    list: Seq<RequirementModel>,
    requirement: RequirementModel,
    at: int,
)
    requires
        0 <= at <= list.len(),
        forall|k: int|
            0 <= k < at ==> requirement_order(requirement, #[trigger] list[k]) == Order::Greater,
        at < list.len() ==> requirement_order(requirement, list[at]) != Order::Greater,
    ensures
        with_requirement(list, requirement) == if at < list.len() && requirement_order(
            requirement,
            list[at],
        ) == Order::Equal {
            list
        } else {
            list.insert(at, requirement)
        },
    decreases at,
{
    let result = with_requirement(list, requirement);
    if at == 0 {
        if !(list.len() > 0 && requirement_order(requirement, list[0]) == Order::Equal) {
            assert(result =~= list.insert(0, requirement));
        }
    } else {
        assert(requirement_order(requirement, list[0]) == Order::Greater);
        let rest = list.drop_first();
        assert forall|k: int| 0 <= k < at - 1 implies requirement_order(
            requirement,
            #[trigger] rest[k],
        ) == Order::Greater by {
            assert(rest[k] == list[k + 1]);
        }
        lemma_with_requirement_at(rest, requirement, at - 1);
        if at < list.len() && requirement_order(requirement, list[at]) == Order::Equal {
            assert(result =~= list);
        } else {
            assert(result =~= list.insert(at, requirement));
        }
    }
}

fn insert_requirement(
    list: &mut Vec<HostedValidationRequirement>,
    requirement: HostedValidationRequirement,
)
    ensures
        requirement_models(final(list)@) == with_requirement(
            requirement_models(old(list)@),
            requirement@,
        ),
{
    let ghost models = requirement_models(list@);
    let ghost before = list@;
    let mut at: usize = 0;
    while at < list.len() && compare_requirements(&requirement, &list[at]).is_gt()
        invariant
            at <= list@.len(),
            list@ == before,
            models == requirement_models(list@),
            forall|k: int|
                0 <= k < at ==> requirement_order(requirement@, #[trigger] models[k])
                    == Order::Greater,
        decreases list@.len() - at,
    {
        proof {
            assert(models[at as int] == list@[at as int]@);
        }
        at = at + 1;
    }
    proof {
        if at < list@.len() {
            assert(models[at as int] == list@[at as int]@);
        }
        lemma_with_requirement_at(models, requirement@, at as int);
    }
    if at < list.len() && compare_requirements(&requirement, &list[at]).is_eq() {
        return ;
    }
    list.insert(at, requirement);
    proof {
        assert(requirement_models(list@) =~= models.insert(at as int, requirement@));
    }
}

/// The form in which values are compared; null has none.
pub open spec fn comparable(value: JsonModel) -> Option<Seq<char>> {
    match value {
        JsonModel::Null => None,
        JsonModel::Text(text) => Some(text),
        other => Some(compact_text(other)),
    }
}

pub fn comparable_value(value: &Json) -> (result: Option<String>)
    ensures
        optional_text(result) == comparable(value@),
{
    broadcast use {crate::json::lemma_object_model, crate::json::lemma_array_model};

    match value {
        Json::Null => None,
        Json::Text(text) => Some(text.clone()),
        _ => Some(to_compact_text(value)),
    }
}

/// The value of a field reference in a record.
#[derive(Debug)]
pub struct FieldValue {
    pub reference: String,
    pub value: Option<Json>,
}

/// The comparable value of a field reference.
pub open spec fn comparable_at(values: Seq<FieldValue>, reference: Seq<char>) -> Option<Seq<char>>
    decreases values.len(),
{
    if values.len() == 0 {
        None
    } else if values[0].reference@ == reference {
        match values[0].value {
            Some(value) => comparable(value@),
            None => None,
        }
    } else {
        comparable_at(values.drop_first(), reference)
    }
}

fn find_comparable(values: &Vec<FieldValue>, reference: &str) -> (result: Option<String>)
    ensures
        optional_text(result) == comparable_at(values@, reference@),
{
    let mut i: usize = 0;
    proof {
        assert(values@.skip(0) =~= values@);
    }
    while i < values.len()
        invariant
            i <= values@.len(),
            comparable_at(values@, reference@) == comparable_at(
                values@.skip(i as int),
                reference@,
            ),
        decreases values@.len() - i,
    {
        proof {
            assert(values@.skip(i as int)[0] == values@[i as int]);
            assert(values@.skip(i as int).drop_first() =~= values@.skip(i + 1));
        }
        if same_text(values[i].reference.as_str(), reference) {
            return match &values[i].value {
                Some(value) => comparable_value(value),
                None => None,
            };
        }
        i = i + 1;
    }
    None
}

// ---------------------------------------------------------------------------
// Plans
// ---------------------------------------------------------------------------
/// A text to look records up by.
#[derive(Debug, PartialEq, Eq)]
pub struct ResolutionLookupKey {
    pub kind: RecordResolutionKeyKind,
    pub value: String,
}

#[derive(Debug)]
pub struct HostedValidationPlan {
    pub catalog_revision: String,
    pub target_stable_id: String,
    pub target_path: String,
    pub input: Json,
    pub requirements: Vec<HostedValidationRequirement>,
    pub resolution_lookups: Vec<ResolutionLookupKey>,
}

impl HostedValidationPlan {
    /// Whether a record can conflict with a requirement, by the values of its
    /// fields.
    pub open spec fn conflicts(&self, values: Seq<FieldValue>) -> bool {
        exists|i: int|
            0 <= i < self.requirements@.len() && comparable_at(
                values,
                (#[trigger] self.requirements@[i]).field_reference@,
            ) == Some(self.requirements@[i].comparable_value@)
    }

    /// Whether a projected record can conflict with the plan. If not, it need not
    /// be looked at.
    pub fn facts_may_conflict(&self, values: &Vec<FieldValue>) -> (result: bool)
        ensures
            result == self.conflicts(values@),
    {
        let mut i: usize = 0;
        while i < self.requirements.len()
            invariant
                i <= self.requirements@.len(),
                forall|k: int|
                    0 <= k < i ==> comparable_at(
                        values@,
                        (#[trigger] self.requirements@[k]).field_reference@,
                    ) != Some(self.requirements@[k].comparable_value@),
            decreases self.requirements@.len() - i,
        {
            let requirement = &self.requirements[i];
            let found = find_comparable(values, requirement.field_reference.as_str());
            let same = match &found {
                Some(value) => same_text(value.as_str(), requirement.comparable_value.as_str()),
                None => false,
            };
            if same {
                return true;
            }
            i = i + 1;
        }
        false
    }

    pub fn projection_may_conflict(&self, values: &Vec<FieldValue>) -> (result: bool)
        ensures
            result == self.conflicts(values@),
    {
        self.facts_may_conflict(values)
    }
}

/// What is known of the record to validate.
#[derive(Debug)]
pub struct ValidationFacts {
    /// Its types, by its persisted frontmatter.
    pub types: Vec<String>,
    /// The values of its effective frontmatter.
    pub values: Vec<FieldValue>,
    /// What its links are looked up by: ascending and without repeats.
    pub lookups: Vec<ResolutionLookupKey>,
}

/// The frontmatter that a validation is about: what the input proposes, or what the
/// record has.
pub open spec fn persisted(input: JsonModel, classified: CollectionSnapshotRecord) -> JsonModel {
    match member_of(input, "frontmatter"@) {
        Some(JsonModel::Object(members)) => JsonModel::Object(members),
        Some(_) => JsonModel::Object(Seq::empty()),
        None => classified.frontmatter@,
    }
}

pub fn persisted_frontmatter(input: &Json, classified: &CollectionSnapshotRecord) -> (result: Json)
    ensures
        result@ == persisted(input@, *classified),
{
    broadcast use crate::json::lemma_object_model;

    match input.get("frontmatter") {
        Some(frontmatter) => if frontmatter.is_object() {
            frontmatter.copy()
        } else {
            Json::empty_object()
        },
        None => classified.frontmatter.copy(),
    }
}

/// The requirements of the first unique fields of a type.
pub open spec fn with_unique_fields(
    list: Seq<RequirementModel>,
    record_type: Seq<char>,
    fields: Seq<String>,
    values: Seq<FieldValue>,
) -> Seq<RequirementModel>
    decreases fields.len(),
{
    if fields.len() == 0 {
        list
    } else {
        let rest = with_unique_fields(list, record_type, fields.drop_last(), values);
        match comparable_at(values, fields.last()@) {
            Some(value) => with_requirement(
                rest,
                RequirementModel {
                    kind: HostedValidationRequirementKind::UniqueField,
                    record_type,
                    field_reference: fields.last()@,
                    comparable_value: value,
                },
            ),
            None => rest,
        }
    }
}

/// The requirements of one type: that of its identity, and those of its unique
/// fields.
pub open spec fn with_type(
    catalog: CompiledCatalog,
    list: Seq<RequirementModel>,
    record_type: Seq<char>,
    values: Seq<FieldValue>,
) -> Seq<RequirementModel> {
    let id_field = catalog.collection.settings.id_field@;
    let named = match comparable_at(values, id_field) {
        Some(value) => with_requirement(
            list,
            RequirementModel {
                kind: HostedValidationRequirementKind::Identity,
                record_type,
                field_reference: id_field,
                comparable_value: value,
            },
        ),
        None => list,
    };
    let at = crate::collection::type_at(catalog.collection.types@, record_type);
    if 0 <= at < catalog.collection.types@.len() {
        with_unique_fields(
            named,
            record_type,
            catalog.collection.types@[at].unique_fields@,
            values,
        )
    } else {
        named
    }
}

/// The requirements of the first types of a record.
pub open spec fn requirements_of(
    catalog: CompiledCatalog,
    types: Seq<String>,
    values: Seq<FieldValue>,
) -> Seq<RequirementModel>
    decreases types.len(),
{
    if types.len() == 0 {
        Seq::empty()
    } else {
        with_type(
            catalog,
            requirements_of(catalog, types.drop_last(), values),
            types.last()@,
            values,
        )
    }
}

/// What stands against planning a validation.
pub open spec fn validation_fault(
    input: JsonModel,
    target: ExactRecord,
) -> Option<CatalogFault> {
    if target.record.stable_id is None {
        Some(
            fault(
                "hosted_validation_identity_required"@,
                "Hosted validation requires stable target identity."@,
            ),
        )
    } else if text_member(input, "path"@) != Some(target.record.path@) {
        Some(
            fault(
                "hosted_validation_path_mismatch"@,
                "Hosted validation input must bind the exact target path."@,
            ),
        )
    } else {
        match target.classification() {
            Err(fault) => Some(fault),
            Ok(_) => None,
        }
    }
}

impl CompiledCatalog {
    fn add_unique_fields(
        list: &mut Vec<HostedValidationRequirement>,
        record_type: &str,
        fields: &Vec<String>,
        values: &Vec<FieldValue>,
    )
        ensures
            requirement_models(final(list)@) == with_unique_fields(
                requirement_models(old(list)@),
                record_type@,
                fields@,
                values@,
            ),
    {
        let ghost start = requirement_models(list@);
        let mut i: usize = 0;
        proof {
            assert(fields@.take(0) =~= Seq::empty());
        }
        while i < fields.len()
            invariant
                i <= fields@.len(),
                start == requirement_models(old(list)@),
                requirement_models(list@) == with_unique_fields(
                    start,
                    record_type@,
                    fields@.take(i as int),
                    values@,
                ),
            decreases fields@.len() - i,
        {
            proof {
                assert(fields@.take(i + 1).drop_last() =~= fields@.take(i as int));
                assert(fields@.take(i + 1).last() == fields@[i as int]);
            }
            if let Some(value) = find_comparable(values, fields[i].as_str()) {
                insert_requirement(
                    list,
                    HostedValidationRequirement {
                        kind: HostedValidationRequirementKind::UniqueField,
                        record_type: record_type.to_owned(),
                        field_reference: fields[i].clone(),
                        comparable_value: value,
                    },
                );
            }
            i = i + 1;
        }
        proof {
            assert(fields@.take(i as int) =~= fields@);
        }
    }

    /// Plans the validation of one record: what other records may not have.
    pub fn plan_hosted_validation(
        &self,
        input: &Json,
        target: &ExactRecord,
        facts: ValidationFacts,
    ) -> (result: Result<HostedValidationPlan, CatalogError>)
        ensures
            match result {
                Ok(plan) => {
                    &&& validation_fault(input@, *target) is None
                    &&& plan.catalog_revision@ == self.resource_revision@
                    &&& Some(plan.target_stable_id@) == optional_text(target.record.stable_id)
                    &&& plan.target_path@ == target.record.path@
                    &&& plan.input@ == input@
                    &&& requirement_models(plan.requirements@) == requirements_of(
                        *self,
                        facts.types@,
                        facts.values@,
                    )
                    &&& plan.resolution_lookups == facts.lookups
                },
                Err(error) => validation_fault(input@, *target) == Some(fault_of(error)),
            },
    {
        let target_stable_id = match &target.record.stable_id {
            Some(stable) => stable.clone(),
            None => {
                return Err(
                    CatalogError::new(
                        "hosted_validation_identity_required",
                        "Hosted validation requires stable target identity.",
                    ),
                );
            },
        };
        let bound = match input.get_str("path") {
            Some(path) => same_text(path, target.record.path.as_str()),
            None => false,
        };
        if !bound {
            return Err(
                CatalogError::new(
                    "hosted_validation_path_mismatch",
                    "Hosted validation input must bind the exact target path.",
                ),
            );
        }
        if let Err(error) = self.classify_exact(target) {
            return Err(error);
        }
        let mut requirements: Vec<HostedValidationRequirement> = Vec::new();
        proof {
            assert(requirement_models(requirements@) =~= Seq::empty());
            assert(facts.types@.take(0) =~= Seq::empty());
        }
        let mut i: usize = 0;
        while i < facts.types.len()
            invariant
                i <= facts.types@.len(),
                requirement_models(requirements@) == requirements_of(
                    *self,
                    facts.types@.take(i as int),
                    facts.values@,
                ),
            decreases facts.types@.len() - i,
        {
            proof {
                assert(facts.types@.take(i + 1).drop_last() =~= facts.types@.take(i as int));
                assert(facts.types@.take(i + 1).last() == facts.types@[i as int]);
            }
            let record_type = facts.types[i].as_str();
            let id_field = self.collection.settings.id_field.as_str();
            if let Some(value) = find_comparable(&facts.values, id_field) {
                insert_requirement(
                    &mut requirements,
                    HostedValidationRequirement {
                        kind: HostedValidationRequirementKind::Identity,
                        record_type: record_type.to_owned(),
                        field_reference: id_field.to_owned(),
                        comparable_value: value,
                    },
                );
            }
            if let Some(at) = find_type(&self.collection.types, record_type) {
                Self::add_unique_fields(
                    &mut requirements,
                    record_type,
                    &self.collection.types[at].unique_fields,
                    &facts.values,
                );
            }
            i = i + 1;
        }
        proof {
            assert(facts.types@.take(i as int) =~= facts.types@);
        }
        Ok(
            HostedValidationPlan {
                catalog_revision: self.resource_revision.clone(),
                target_stable_id,
                target_path: target.record.path.clone(),
                input: input.copy(),
                requirements,
                resolution_lookups: facts.lookups,
            },
        )
    }
}

// ---------------------------------------------------------------------------
// Carrying a validation out
// ---------------------------------------------------------------------------
/// What is wrong with the first records of a validation's context: one without an
/// identity, one with another path than a record's, or a repeated one.
pub open spec fn records_fault(
    records: Seq<CanonicalRecordInput>,
    paths: Seq<RecordPathFacts>,
    count: nat,
) -> Option<CatalogFault>
    decreases count,
{
    if count == 0 {
        None
    } else if let Some(fault) = records_fault(records, paths, (count - 1) as nat) {
        Some(fault)
    } else {
        let at = count - 1;
        match records[at].stable_id {
            None => Some(
                fault(
                    "hosted_validation_identity_required"@,
                    "Every hosted validation context record requires stable identity."@,
                ),
            ),
            Some(stable) => match record_path_of(paths[at]) {
                Err(error) => Some(fault("invalid_path"@, error.text())),
                Ok(path) => if repeats(records, paths, at, stable@, path) {
                    Some(
                        fault(
                            "hosted_validation_context_ambiguous"@,
                            "Hosted validation context contains duplicate path or stable identity."@,
                        ),
                    )
                } else {
                    None
                },
            },
        }
    }
}

/// Whether an earlier record has an identity or a path.
pub open spec fn repeats(
    records: Seq<CanonicalRecordInput>,
    paths: Seq<RecordPathFacts>,
    before: int,
    stable: Seq<char>,
    path: Seq<char>,
) -> bool {
    has_identity(records, before, stable) || has_path(paths, before, path)
}

pub open spec fn has_identity(
    records: Seq<CanonicalRecordInput>,
    before: int,
    stable: Seq<char>,
) -> bool {
    exists|i: int|
        0 <= i < before && optional_text((#[trigger] records[i]).stable_id) == Some(stable)
}

pub open spec fn has_path(paths: Seq<RecordPathFacts>, before: int, path: Seq<char>) -> bool {
    exists|i: int|
        0 <= i < before && record_path_of(#[trigger] paths[i]) == Ok::<
            _,
            crate::record_path::PathFault,
        >(path)
}

/// What is wrong with a validation's context.
pub open spec fn context_fault(
    catalog: CompiledCatalog,
    plan: HostedValidationPlan,
    records: Seq<CanonicalRecordInput>,
    paths: Seq<RecordPathFacts>,
) -> Option<CatalogFault> {
    if plan.catalog_revision@ != catalog.resource_revision@ {
        Some(
            fault(
                "hosted_validation_catalog_mismatch"@,
                "Hosted validation plan does not bind the compiled catalog."@,
            ),
        )
    } else if records.len() > MAX_HOSTED_VALIDATION_RECORDS {
        Some(
            fault(
                "hosted_validation_context_budget_exceeded"@,
                "Hosted validation context exceeds its exact-record budget."@,
            ),
        )
    } else if document_bytes(records) > MAX_HOSTED_VALIDATION_EXACT_BYTES {
        Some(
            fault(
                "hosted_validation_context_byte_budget_exceeded"@,
                "Hosted validation context exceeds its exact-byte budget."@,
            ),
        )
    } else if let Some(fault) = records_fault(records, paths, records.len()) {
        Some(fault)
    } else if !has_identity(records, records.len() as int, plan.target_stable_id@) || !has_path(
        paths,
        records.len() as int,
        plan.target_path@,
    ) {
        Some(
            fault(
                "hosted_validation_target_missing"@,
                "Hosted validation context omitted its exact target record."@,
            ),
        )
    } else {
        None
    }
}

proof fn lemma_records_fault_stays(
    records: Seq<CanonicalRecordInput>,
    paths: Seq<RecordPathFacts>,
    at: nat,
    count: nat,
)
    requires
        at <= count,
        records_fault(records, paths, at) is Some,
    ensures
        records_fault(records, paths, count) == records_fault(records, paths, at),
    decreases count - at,
{
    if at < count {
        lemma_records_fault_stays(records, paths, at, (count - 1) as nat);
    }
}

impl CompiledCatalog {
    /// Checks a validation's context before it is staged.
    pub fn check_hosted_validation(
        &self,
        plan: &HostedValidationPlan,
        records: &Vec<CanonicalRecordInput>,
        paths: &Vec<RecordPathFacts>,
    ) -> (result: Result<(), CatalogError>)
        requires
            paths@.len() == records@.len(),
        ensures
            match result {
                Ok(_) => context_fault(*self, *plan, records@, paths@) is None,
                Err(error) => context_fault(*self, *plan, records@, paths@) == Some(
                    fault_of(error),
                ),
            },
    {
        if !same_text(plan.catalog_revision.as_str(), self.resource_revision.as_str()) {
            return Err(
                CatalogError::new(
                    "hosted_validation_catalog_mismatch",
                    "Hosted validation plan does not bind the compiled catalog.",
                ),
            );
        }
        if records.len() > MAX_HOSTED_VALIDATION_RECORDS {
            return Err(
                CatalogError::new(
                    "hosted_validation_context_budget_exceeded",
                    "Hosted validation context exceeds its exact-record budget.",
                ),
            );
        }
        if !fits_bytes(records) {
            return Err(
                CatalogError::new(
                    "hosted_validation_context_byte_budget_exceeded",
                    "Hosted validation context exceeds its exact-byte budget.",
                ),
            );
        }
        let ghost expected = records_fault(records@, paths@, records@.len());
        let count: usize = records.len();
        let mut stable_ids: Vec<String> = Vec::new();
        let mut normal_paths: Vec<String> = Vec::new();
        let mut i: usize = 0;
        while i < count
            invariant
                i <= count,
                count == records@.len(),
                paths@.len() == count,
                expected == records_fault(records@, paths@, count as nat),
                expected is Some ==> context_fault(*self, *plan, records@, paths@) == expected,
                records_fault(records@, paths@, i as nat) is None,
                stable_ids@.len() == i,
                normal_paths@.len() == i,
                forall|k: int|
                    0 <= k < i ==> optional_text((#[trigger] records@[k]).stable_id) == Some(
                        stable_ids@[k]@,
                    ),
                forall|k: int|
                    0 <= k < i ==> record_path_of(#[trigger] paths@[k]) == Ok::<
                        _,
                        crate::record_path::PathFault,
                    >(normal_paths@[k]@),
            decreases count - i,
        {
            let stable = match &records[i].stable_id {
                Some(stable) => stable,
                None => {
                    proof {
                        lemma_records_fault_stays(records@, paths@, (i + 1) as nat, count as nat);
                    }
                    return Err(
                        CatalogError::new(
                            "hosted_validation_identity_required",
                            "Every hosted validation context record requires stable identity.",
                        ),
                    );
                },
            };
            let path = match self.collection.validate_record_path(&paths[i]) {
                Ok(path) => path,
                Err(error) => {
                    proof {
                        lemma_records_fault_stays(records@, paths@, (i + 1) as nat, count as nat);
                    }
                    return Err(CatalogError::new("invalid_path", error.to_text().as_str()));
                },
            };
            let known_identity = knows_text(&stable_ids, stable.as_str());
            let known_path = knows_text(&normal_paths, path.as_str());
            proof {
                if known_identity {
                    let k = choose|k: int| 0 <= k < i && stable_ids@[k]@ == stable@;
                    assert(optional_text(records@[k].stable_id) == Some(stable@));
                }
                if known_path {
                    let k = choose|k: int| 0 <= k < i && normal_paths@[k]@ == path@;
                    assert(record_path_of(paths@[k]) == Ok::<_, crate::record_path::PathFault>(
                        path@,
                    ));
                }
                assert(known_identity == has_identity(records@, i as int, stable@));
                assert(known_path == has_path(paths@, i as int, path@));
            }
            if known_identity || known_path {
                proof {
                    lemma_records_fault_stays(records@, paths@, (i + 1) as nat, count as nat);
                }
                return Err(
                    CatalogError::new(
                        "hosted_validation_context_ambiguous",
                        "Hosted validation context contains duplicate path or stable identity.",
                    ),
                );
            }
            stable_ids.push(stable.clone());
            normal_paths.push(path);
            i = i + 1;
        }
        let target_known = knows_text(&stable_ids, plan.target_stable_id.as_str());
        let path_known = knows_text(&normal_paths, plan.target_path.as_str());
        proof {
            if target_known {
                let k = choose|k: int|
                    0 <= k < count && stable_ids@[k]@ == plan.target_stable_id@;
                assert(optional_text(records@[k].stable_id) == Some(plan.target_stable_id@));
            }
            if path_known {
                let k = choose|k: int| 0 <= k < count && normal_paths@[k]@ == plan.target_path@;
                assert(record_path_of(paths@[k]) == Ok::<_, crate::record_path::PathFault>(
                    plan.target_path@,
                ));
            }
        }
        if !target_known || !path_known {
            return Err(
                CatalogError::new(
                    "hosted_validation_target_missing",
                    "Hosted validation context omitted its exact target record.",
                ),
            );
        }
        Ok(())
    }

    /// The typed outcome of a validation on its staged context.
    pub fn execute_hosted_validation_typed(
        &self,
        plan: &HostedValidationPlan,
        records: &Vec<CanonicalRecordInput>,
        paths: &Vec<RecordPathFacts>,
        staged: &OperationResult,
    ) -> (result: Result<CanonicalOperationOutcome, CatalogError>)
        requires
            paths@.len() == records@.len(),
        ensures
            match result {
                Ok(outcome) => context_fault(*self, *plan, records@, paths@) is None && outcome@
                    == (OutcomeModel {
                    valid: staged.valid,
                    value: ValueModel::WireOnly(WireOnlyModel::Validation(staged.result@)),
                    diagnostics: all_typed(staged@.diagnostics),
                }),
                Err(error) => context_fault(*self, *plan, records@, paths@) == Some(
                    fault_of(error),
                ),
            },
    {
        if let Err(error) = self.check_hosted_validation(plan, records, paths) {
            return Err(error);
        }
        match CanonicalOperationOutcome::hosted_wire_edge(OperationKind::Validate, staged) {
            Ok(outcome) => Ok(outcome),
            Err(_) => Err(CatalogError::new("hosted_validation_stage_failed", "")),
        }
    }

    /// The portable result of a validation on its staged context.
    pub fn execute_hosted_validation(
        &self,
        plan: &HostedValidationPlan,
        records: &Vec<CanonicalRecordInput>,
        paths: &Vec<RecordPathFacts>,
        staged: &OperationResult,
    ) -> (result: Result<OperationResult, CatalogError>)
        requires
            paths@.len() == records@.len(),
        ensures
            match result {
                Ok(found) => context_fault(*self, *plan, records@, paths@) is None && found@.valid
                    == staged.valid && found@.result == staged.result@ && found@.diagnostics
                    == crate::operation_values::all_portable(all_typed(staged@.diagnostics)),
                Err(error) => context_fault(*self, *plan, records@, paths@) == Some(
                    fault_of(error),
                ),
            },
    {
        match self.execute_hosted_validation_typed(plan, records, paths, staged) {
            Ok(outcome) => Ok(outcome.to_v03()),
            Err(error) => Err(error),
        }
    }
}

fn knows_text(list: &Vec<String>, text: &str) -> (result: bool)
    ensures
        result == exists|k: int| 0 <= k < list@.len() && (#[trigger] list@[k])@ == text@,
{
    let mut i: usize = 0;
    while i < list.len()
        invariant
            i <= list@.len(),
            forall|k: int| 0 <= k < i ==> (#[trigger] list@[k])@ != text@,
        decreases list@.len() - i,
    {
        if same_text(list[i].as_str(), text) {
            return true;
        }
        i = i + 1;
    }
    false
}

/// Adding a requirement keeps the others.
pub proof fn lemma_requirement_is_kept(
    list: Seq<RequirementModel>,
    requirement: RequirementModel,
    added: RequirementModel,
)
    requires
        list.contains(requirement),
    ensures
        with_requirement(list, added).contains(requirement),
    decreases list.len(),
{
    let result = with_requirement(list, added);
    let k = choose|k: int| 0 <= k < list.len() && list[k] == requirement;
    match requirement_order(added, list[0]) {
        Order::Less => {
            assert(result[k + 1] == requirement);
        },
        Order::Equal => {},
        Order::Greater => {
            if k == 0 {
                assert(result[0] == requirement);
            } else {
                let rest = list.drop_first();
                assert(rest[k - 1] == requirement);
                lemma_requirement_is_kept(rest, requirement, added);
                let tail = with_requirement(rest, added);
                let j = choose|j: int| 0 <= j < tail.len() && tail[j] == requirement;
                assert(result[j + 1] == requirement);
            }
        },
    }
}

/// A requirement that was added is there.
pub proof fn lemma_requirement_is_added(list: Seq<RequirementModel>, requirement: RequirementModel)
    ensures
        with_requirement(list, requirement).contains(requirement),
    decreases list.len(),
{
    let result = with_requirement(list, requirement);
    if list.len() == 0 {
        assert(result[0] == requirement);
    } else {
        match requirement_order(requirement, list[0]) {
            Order::Less => {
                assert(result[0] == requirement);
            },
            Order::Equal => {
                crate::text::lemma_text_order_equal(requirement.record_type, list[0].record_type);
                crate::text::lemma_text_order_equal(
                    requirement.field_reference,
                    list[0].field_reference,
                );
                crate::text::lemma_text_order_equal(
                    requirement.comparable_value,
                    list[0].comparable_value,
                );
                assert(list[0] == requirement);
                assert(result[0] == requirement);
            },
            Order::Greater => {
                let rest = list.drop_first();
                lemma_requirement_is_added(rest, requirement);
                let tail = with_requirement(rest, requirement);
                let j = choose|j: int| 0 <= j < tail.len() && tail[j] == requirement;
                assert(result[j + 1] == requirement);
            },
        }
    }
}

/// A record with the same comparable value in a required field is never pruned.
pub proof fn lemma_conflicts_are_not_pruned(
    plan: HostedValidationPlan,
    values: Seq<FieldValue>,
    at: int,
)
    requires
        0 <= at < plan.requirements@.len(),
        comparable_at(values, plan.requirements@[at].field_reference@) == Some(
            plan.requirements@[at].comparable_value@,
        ),
    ensures
        plan.conflicts(values),
{
}

/// Every type of a record whose identity has a value is required to keep it
/// unique.
pub proof fn lemma_identity_is_required(
    catalog: CompiledCatalog,
    types: Seq<String>,
    values: Seq<FieldValue>,
    at: int,
)
    requires
        0 <= at < types.len(),
        comparable_at(values, catalog.collection.settings.id_field@) is Some,
    ensures
        requirements_of(catalog, types, values).contains(
            (RequirementModel {
                kind: HostedValidationRequirementKind::Identity,
                record_type: types[at]@,
                field_reference: catalog.collection.settings.id_field@,
                comparable_value: comparable_at(values, catalog.collection.settings.id_field@)->0,
            }),
        ),
    decreases types.len(),
{
    let id_field = catalog.collection.settings.id_field@;
    let wanted = RequirementModel {
        kind: HostedValidationRequirementKind::Identity,
        record_type: types[at]@,
        field_reference: id_field,
        comparable_value: comparable_at(values, id_field)->0,
    };
    let rest = requirements_of(catalog, types.drop_last(), values);
    let own = RequirementModel { record_type: types.last()@, ..wanted };
    let named = with_requirement(rest, own);
    if at == types.len() - 1 {
        lemma_requirement_is_added(rest, own);
    } else {
        lemma_identity_is_required(catalog, types.drop_last(), values, at);
        lemma_requirement_is_kept(rest, wanted, own);
    }
    let place = crate::collection::type_at(catalog.collection.types@, types.last()@);
    if 0 <= place < catalog.collection.types@.len() {
        lemma_unique_fields_keep(
            named,
            types.last()@,
            catalog.collection.types@[place].unique_fields@,
            values,
            wanted,
        );
    }
}

proof fn lemma_unique_fields_keep(
    list: Seq<RequirementModel>,
    record_type: Seq<char>,
    fields: Seq<String>,
    values: Seq<FieldValue>,
    requirement: RequirementModel,
)
    requires
        list.contains(requirement),
    ensures
        with_unique_fields(list, record_type, fields, values).contains(requirement),
    decreases fields.len(),
{
    if fields.len() > 0 {
        lemma_unique_fields_keep(list, record_type, fields.drop_last(), values, requirement);
        let rest = with_unique_fields(list, record_type, fields.drop_last(), values);
        if let Some(value) = comparable_at(values, fields.last()@) {
            lemma_requirement_is_kept(
                rest,
                requirement,
                RequirementModel {
                    kind: HostedValidationRequirementKind::UniqueField,
                    record_type,
                    field_reference: fields.last()@,
                    comparable_value: value,
                },
            );
        }
    }
}

} // verus!
