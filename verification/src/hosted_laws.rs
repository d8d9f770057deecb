//! What hosted validations require, what links lead to, and what hosted reads admit.

use crate::batch::{batch_outcome, unprepared, BatchPreparation};
use crate::canonical_operation::{BatchResult, ValueModel};
use crate::catalog::ExactRecord;
use crate::collection::type_at;
use crate::diff::{CollectionSnapshotRecord, OperationRequest};
use crate::digest::digest_of;
use crate::hosted_links::{
    all_links, first_stale, first_target, link_key, links_fault, links_of, lists_path,
    occurrence_links, reachable_files, sources_of, FileModel, HostedRelationshipNeighborhood,
    LinkModel,
};
use crate::hosted_plan::HostedQueryPlan;
use crate::hosted_query::CompiledCatalog;
use crate::hosted_residual::{file_size_of, is_current, row_with_file};
use crate::hosted_resource::{escapes, resource_bytes, resource_read_fault, HostedResource};
use crate::hosted_validation::{
    comparable, comparable_at, context_fault, has_identity, has_path, lemma_requirement_is_added,
    lemma_requirement_is_kept, persisted, records_fault, requirement_order, requirements_of,
    validation_fault, with_requirement, with_unique_fields, FieldValue, HostedValidationPlan,
    HostedValidationRequirementKind, RequirementModel,
};
use crate::hosted_view::{context_of_view, context_revision_of, invocation_json, PreparedView};
use crate::json::{bool_member, lookup, member_models, member_of, text_member, JsonModel};
use crate::operation_values::{typed_models, TypedDiagnostic};
use crate::projection::{
    CanonicalRecordInput, ProjectionFormat, ResolvedStructuralOccurrence, SemanticProjection,
    StructuralResolution, StructuralSourceKind,
};
use crate::record_path::{is_hidden, record_path_of, PathFault, RecordPathFacts};
use crate::text::{lemma_text_order_equal, optional_text, split_on, trimmed, Order};
use crate::value_laws::lemma_members;
use vstd::prelude::*;
use vstd::utf8::encode_utf8;

verus! {

// ---------------------------------------------------------------------------
// Validation
// ---------------------------------------------------------------------------
/// Requirements stand level exactly where they are the same.
pub proof fn lemma_level_requirements(left: RequirementModel, right: RequirementModel)
    ensures
        requirement_order(left, right) == Order::Equal <==> left == right,
{
    lemma_text_order_equal(left.record_type, right.record_type);
    lemma_text_order_equal(left.field_reference, right.field_reference);
    lemma_text_order_equal(left.comparable_value, right.comparable_value);
}

proof fn lemma_added_requirement(
    list: Seq<RequirementModel>,
    added: RequirementModel,
    other: RequirementModel,
)
    ensures
        with_requirement(list, added).contains(other) <==> list.contains(other) || other == added,
    decreases list.len(),
{
    lemma_requirement_is_added(list, added);
    if list.contains(other) {
        lemma_requirement_is_kept(list, other, added);
    }
    let result = with_requirement(list, added);
    if result.contains(other) && other != added {
        if list.len() == 0 {
            let k = choose|k: int| 0 <= k < result.len() && result[k] == other;
            assert(result[0] == added);
        } else {
            match requirement_order(added, list[0]) {
                Order::Less => {
                    let k = choose|k: int| 0 <= k < result.len() && result[k] == other;
                    assert(result[0] == added);
                    assert(list[k - 1] == other);
                },
                Order::Equal => {},
                Order::Greater => {
                    let rest = list.drop_first();
                    lemma_added_requirement(rest, added, other);
                    let k = choose|k: int| 0 <= k < result.len() && result[k] == other;
                    if k == 0 {
                        assert(list[0] == other);
                    } else {
                        let inner = with_requirement(rest, added);
                        assert(inner[k - 1] == other);
                        assert(rest.contains(other));
                        let m = choose|m: int| 0 <= m < rest.len() && rest[m] == other;
                        assert(list[m + 1] == other);
                    }
                },
            }
        }
    }
}

/// Whether a record's value for a field must not occur again in its type.
pub open spec fn is_unique_requirement(
    requirement: RequirementModel,
    record_type: Seq<char>,
    fields: Seq<String>,
    values: Seq<FieldValue>,
) -> bool {
    &&& requirement.kind == HostedValidationRequirementKind::UniqueField
    &&& requirement.record_type == record_type
    &&& exists|i: int|
        0 <= i < fields.len() && (#[trigger] fields[i])@ == requirement.field_reference
    &&& comparable_at(values, requirement.field_reference) == Some(requirement.comparable_value)
}

proof fn lemma_unique_fields(
    list: Seq<RequirementModel>,
    record_type: Seq<char>,
    fields: Seq<String>,
    values: Seq<FieldValue>,
    requirement: RequirementModel,
)
    ensures
        with_unique_fields(list, record_type, fields, values).contains(requirement)
            <==> list.contains(requirement) || is_unique_requirement(
            requirement,
            record_type,
            fields,
            values,
        ),
    decreases fields.len(),
{
    if fields.len() > 0 {
        let front = fields.drop_last();
        lemma_unique_fields(list, record_type, front, values, requirement);
        let rest = with_unique_fields(list, record_type, front, values);
        let last = fields.last();
        if let Some(value) = comparable_at(values, last@) {
            lemma_added_requirement(
                rest,
                RequirementModel {
                    kind: HostedValidationRequirementKind::UniqueField,
                    record_type,
                    field_reference: last@,
                    comparable_value: value,
                },
                requirement,
            );
        }
        if is_unique_requirement(requirement, record_type, front, values) {
            let i = choose|i: int|
                0 <= i < front.len() && (#[trigger] front[i])@ == requirement.field_reference;
            assert(fields[i]@ == requirement.field_reference);
        }
        if is_unique_requirement(requirement, record_type, fields, values)
            && requirement.field_reference != last@ {
            let i = choose|i: int|
                0 <= i < fields.len() && (#[trigger] fields[i])@ == requirement.field_reference;
            assert(front[i]@ == requirement.field_reference);
        }
        assert(fields[fields.len() - 1] == last);
    }
}

/// Whether one of a record's types requires something of its values: that its identity
/// does not occur again, or a value of a field that the type says is unique.
pub open spec fn type_requires(
    catalog: CompiledCatalog,
    record_type: Seq<char>,
    values: Seq<FieldValue>,
    requirement: RequirementModel,
) -> bool {
    let id_field = catalog.collection.settings.id_field@;
    let at = type_at(catalog.collection.types@, record_type);
    ||| {
        &&& requirement.kind == HostedValidationRequirementKind::Identity
        &&& requirement.record_type == record_type
        &&& requirement.field_reference == id_field
        &&& comparable_at(values, id_field) == Some(requirement.comparable_value)
    }
    ||| 0 <= at < catalog.collection.types@.len() && is_unique_requirement(
        requirement,
        record_type,
        catalog.collection.types@[at].unique_fields@,
        values,
    )
}

/// What is required of a record is just what its types require: an identity that occurs
/// once, and values that occur once in the fields that a type says are unique.
pub proof fn lemma_requirements_are_those_of_types(
    catalog: CompiledCatalog,
    types: Seq<String>,
    values: Seq<FieldValue>,
    requirement: RequirementModel,
)
    ensures
        requirements_of(catalog, types, values).contains(requirement) <==> exists|i: int|
            0 <= i < types.len() && type_requires(
                catalog,
                (#[trigger] types[i])@,
                values,
                requirement,
            ),
    decreases types.len(),
{
    if types.len() > 0 {
        let front = types.drop_last();
        lemma_requirements_are_those_of_types(catalog, front, values, requirement);
        let rest = requirements_of(catalog, front, values);
        let last = types.last()@;
        let id_field = catalog.collection.settings.id_field@;
        let named = match comparable_at(values, id_field) {
            Some(value) => {
                lemma_added_requirement(
                    rest,
                    RequirementModel {
                        kind: HostedValidationRequirementKind::Identity,
                        record_type: last,
                        field_reference: id_field,
                        comparable_value: value,
                    },
                    requirement,
                );
                with_requirement(
                    rest,
                    RequirementModel {
                        kind: HostedValidationRequirementKind::Identity,
                        record_type: last,
                        field_reference: id_field,
                        comparable_value: value,
                    },
                )
            },
            None => rest,
        };
        let at = type_at(catalog.collection.types@, last);
        if 0 <= at < catalog.collection.types@.len() {
            lemma_unique_fields(
                named,
                last,
                catalog.collection.types@[at].unique_fields@,
                values,
                requirement,
            );
        }
        assert(types[types.len() - 1]@ == last);
        if exists|i: int|
            0 <= i < front.len() && type_requires(
                catalog,
                (#[trigger] front[i])@,
                values,
                requirement,
            ) {
            let i = choose|i: int|
                0 <= i < front.len() && type_requires(
                    catalog,
                    (#[trigger] front[i])@,
                    values,
                    requirement,
                );
            assert(types[i] == front[i]);
        }
        if exists|i: int|
            0 <= i < types.len() && type_requires(
                catalog,
                (#[trigger] types[i])@,
                values,
                requirement,
            ) {
            let i = choose|i: int|
                0 <= i < types.len() && type_requires(
                    catalog,
                    (#[trigger] types[i])@,
                    values,
                    requirement,
                );
            if i < front.len() {
                assert(front[i] == types[i]);
            }
        }
    }
}

/// A value is compared by its text, or by its notation; null is compared with nothing. A
/// field's value is the first under its reference.
pub proof fn lemma_comparable_values(values: Seq<FieldValue>, reference: Seq<char>, text: Seq<char>)
    ensures
        comparable(JsonModel::Null) is None,
        comparable(JsonModel::Text(text)) == Some(text),
        forall|value: JsonModel| #[trigger] comparable(value) is None <==> value is Null,
        (forall|i: int| 0 <= i < values.len() ==> (#[trigger] values[i]).reference@ != reference)
            ==> comparable_at(values, reference) is None,
        forall|i: int|
            0 <= i < values.len() && (#[trigger] values[i]).reference@ == reference && (forall|
                k: int,
            |
                0 <= k < i ==> (#[trigger] values[k]).reference@ != reference) ==> comparable_at(
                values,
                reference,
            ) == match values[i].value {
                Some(value) => comparable(value@),
                None => None,
            },
    decreases values.len(),
{
    if values.len() > 0 && values[0].reference@ != reference {
        let rest = values.drop_first();
        lemma_comparable_values(rest, reference, text);
        if forall|i: int| 0 <= i < values.len() ==> (#[trigger] values[i]).reference@
            != reference {
            assert forall|i: int| 0 <= i < rest.len() implies (#[trigger] rest[i]).reference@
                != reference by {
                assert(values[i + 1] == rest[i]);
            }
        }
        assert forall|i: int|
            0 <= i < values.len() && (#[trigger] values[i]).reference@ == reference && (forall|
                k: int,
            |
                0 <= k < i ==> (
                #[trigger] values[k]).reference@ != reference) implies comparable_at(
            values,
            reference,
        ) == match values[i].value {
            Some(value) => comparable(value@),
            None => None,
        } by {
            assert(rest[i - 1] == values[i]);
            assert forall|k: int| 0 <= k < i - 1 implies (#[trigger] rest[k]).reference@
                != reference by {
                assert(values[k + 1] == rest[k]);
            }
        }
    }
}

/// Whether records have identities and paths, no two of them the same.
pub open spec fn are_told_apart(
    records: Seq<CanonicalRecordInput>,
    paths: Seq<RecordPathFacts>,
    count: nat,
) -> bool {
    &&& forall|i: int|
        0 <= i < count ==> (#[trigger] records[i]).stable_id is Some && record_path_of(paths[i])
            is Ok
    &&& forall|i: int, j: int|
        #![trigger records[i], records[j]]
        0 <= i < j < count ==> optional_text(records[i].stable_id) != optional_text(
            records[j].stable_id,
        ) && record_path_of(paths[i]) != record_path_of(paths[j])
}

/// The records of a validation are refused exactly where one has no identity or no
/// record's path, or shares either with another.
pub proof fn lemma_refused_contexts(
    records: Seq<CanonicalRecordInput>,
    paths: Seq<RecordPathFacts>,
    count: nat,
)
    requires
        count <= records.len(),
        records.len() == paths.len(),
    ensures
        records_fault(records, paths, count) is None <==> are_told_apart(records, paths, count),
    decreases count,
{
    if count > 0 {
        let at = count - 1;
        lemma_refused_contexts(records, paths, at as nat);
        let last = records[at];
        if are_told_apart(records, paths, count) {
            assert(are_told_apart(records, paths, at as nat));
            assert(records[at].stable_id is Some);
            let stable = (last.stable_id->0)@;
            let path = record_path_of(paths[at])->Ok_0;
            assert(!has_identity(records, at, stable)) by {
                assert forall|i: int| 0 <= i < at implies optional_text(
                    (#[trigger] records[i]).stable_id,
                ) != Some(stable) by {
                    assert(optional_text(records[i].stable_id) != optional_text(
                        records[at].stable_id,
                    ));
                }
            }
            assert(!has_path(paths, at, path)) by {
                assert forall|i: int| 0 <= i < at implies record_path_of(#[trigger] paths[i])
                    != Ok::<_, PathFault>(path) by {
                    assert(optional_text(records[i].stable_id) != optional_text(
                        records[at].stable_id,
                    ));
                    assert(record_path_of(paths[i]) != record_path_of(paths[at]));
                }
            }
        }
        if records_fault(records, paths, count) is None {
            assert(records_fault(records, paths, at as nat) is None);
            let stable = (last.stable_id->0)@;
            let path = record_path_of(paths[at])->Ok_0;
            assert(!has_identity(records, at, stable));
            assert(!has_path(paths, at, path));
            assert forall|i: int, j: int|
                #![trigger records[i], records[j]]
                0 <= i < j < count implies optional_text(records[i].stable_id) != optional_text(
                records[j].stable_id,
            ) && record_path_of(paths[i]) != record_path_of(paths[j]) by {
                if j == at {
                    assert(optional_text(records[i].stable_id) != Some(stable));
                    assert(record_path_of(paths[i]) != Ok::<_, PathFault>(path));
                }
            }
        }
    }
}

/// A validation goes ahead only under its own catalog, within its budgets, and with its
/// target among the records.
pub proof fn lemma_validations_that_go_ahead(
    catalog: CompiledCatalog,
    plan: HostedValidationPlan,
    records: Seq<CanonicalRecordInput>,
    paths: Seq<RecordPathFacts>,
)
    requires
        records.len() == paths.len(),
    ensures
        context_fault(catalog, plan, records, paths) is None <==> {
            &&& plan.catalog_revision@ == catalog.resource_revision@
            &&& records.len() <= 2_001
            &&& crate::hosted_mutation::document_bytes(records) <= 33_554_432
            &&& records_fault(records, paths, records.len()) is None
            &&& exists|i: int|
                0 <= i < records.len() && optional_text((#[trigger] records[i]).stable_id) == Some(
                    plan.target_stable_id@,
                )
            &&& exists|i: int|
                0 <= i < paths.len() && record_path_of(#[trigger] paths[i]) == Ok::<_, PathFault>(
                    plan.target_path@,
                )
        },
{
}

// ---------------------------------------------------------------------------
// Links
// ---------------------------------------------------------------------------
/// Whether a record's structure holds a resolved link.
pub open spec fn holds_link(
    source: Seq<char>,
    occurrence: ResolvedStructuralOccurrence,
    link: LinkModel,
) -> bool {
    &&& occurrence.resolution == StructuralResolution::Resolved
    &&& occurrence.target_path is Some
    &&& link.source == source
    &&& link.target == (occurrence.target_path->0)@
    &&& link.key == link_key(occurrence.raw_target@)
}

proof fn lemma_occurrence_links(
    source: Seq<char>,
    occurrences: Seq<ResolvedStructuralOccurrence>,
    frontmatter: bool,
    link: LinkModel,
)
    ensures
        occurrence_links(source, occurrences, frontmatter).contains(link) <==> exists|i: int|
            0 <= i < occurrences.len() && holds_link(source, #[trigger] occurrences[i], link) && (
            occurrences[i].source_kind == StructuralSourceKind::Frontmatter) == frontmatter,
    decreases occurrences.len(),
{
    if occurrences.len() > 0 {
        let front = occurrences.drop_last();
        lemma_occurrence_links(source, front, frontmatter, link);
        let rest = occurrence_links(source, front, frontmatter);
        let all = occurrence_links(source, occurrences, frontmatter);
        let last = occurrences.last();
        assert(occurrences[occurrences.len() - 1] == last);
        if rest.contains(link) {
            let i = choose|i: int|
                0 <= i < front.len() && holds_link(source, #[trigger] front[i], link) && (
                front[i].source_kind == StructuralSourceKind::Frontmatter) == frontmatter;
            assert(occurrences[i] == front[i]);
            let k = choose|k: int| 0 <= k < rest.len() && rest[k] == link;
            assert(all[k] == link);
        }
        if holds_link(source, last, link) && (last.source_kind
            == StructuralSourceKind::Frontmatter) == frontmatter {
            assert(all[all.len() - 1] == link);
        }
        if all.contains(link) && !rest.contains(link) {
            let k = choose|k: int| 0 <= k < all.len() && all[k] == link;
            if k < rest.len() {
                assert(rest[k] == link);
            }
            assert(holds_link(source, last, link));
        }
        if exists|i: int|
            0 <= i < occurrences.len() && holds_link(source, #[trigger] occurrences[i], link) && (
            occurrences[i].source_kind == StructuralSourceKind::Frontmatter) == frontmatter {
            let i = choose|i: int|
                0 <= i < occurrences.len() && holds_link(source, #[trigger] occurrences[i], link)
                    && (occurrences[i].source_kind == StructuralSourceKind::Frontmatter)
                    == frontmatter;
            if i < front.len() {
                assert(front[i] == occurrences[i]);
            }
        }
    }
}

/// The links of a record are just those of its structure that were resolved, whether they
/// stand in its frontmatter or in its body.
pub proof fn lemma_links_are_the_resolved_ones(projection: SemanticProjection, link: LinkModel)
    ensures
        links_of(projection).contains(link) <==> exists|i: int|
            0 <= i < projection.structure.occurrences@.len() && holds_link(
                projection.facts.path@,
                #[trigger] projection.structure.occurrences@[i],
                link,
            ),
{
    let source = projection.facts.path@;
    let occurrences = projection.structure.occurrences@;
    lemma_occurrence_links(source, occurrences, true, link);
    lemma_occurrence_links(source, occurrences, false, link);
    lemma_link_in_sum(
        occurrence_links(source, occurrences, true),
        occurrence_links(source, occurrences, false),
        link,
    );
}

proof fn lemma_link_in_sum(a: Seq<LinkModel>, b: Seq<LinkModel>, link: LinkModel)
    ensures
        (a + b).contains(link) <==> a.contains(link) || b.contains(link),
{
    let all = a + b;
    if all.contains(link) {
        let i = choose|i: int| 0 <= i < all.len() && all[i] == link;
        if i < a.len() {
            assert(a[i] == link);
        } else {
            assert(b[i - a.len()] == link);
        }
    }
    if a.contains(link) {
        let i = choose|i: int| 0 <= i < a.len() && a[i] == link;
        assert(all[i] == link);
    }
    if b.contains(link) {
        let i = choose|i: int| 0 <= i < b.len() && b[i] == link;
        assert(all[a.len() + i] == link);
    }
}

/// The links of a neighborhood are those of the record and of its neighbors.
pub proof fn lemma_neighborhood_links(
    own: SemanticProjection,
    related: Seq<SemanticProjection>,
    link: LinkModel,
)
    ensures
        all_links(own, related).contains(link) <==> links_of(own).contains(link) || exists|i: int|
            0 <= i < related.len() && links_of(#[trigger] related[i]).contains(link),
    decreases related.len(),
{
    if related.len() > 0 {
        let front = related.drop_last();
        lemma_neighborhood_links(own, front, link);
        lemma_link_in_sum(all_links(own, front), links_of(related.last()), link);
        assert(related[related.len() - 1] == related.last());
        if exists|i: int| 0 <= i < front.len() && links_of(#[trigger] front[i]).contains(link) {
            let i = choose|i: int|
                0 <= i < front.len() && links_of(#[trigger] front[i]).contains(link);
            assert(related[i] == front[i]);
        }
        if exists|i: int| 0 <= i < related.len() && links_of(#[trigger] related[i]).contains(link) {
            let i = choose|i: int|
                0 <= i < related.len() && links_of(#[trigger] related[i]).contains(link);
            if i < front.len() {
                assert(front[i] == related[i]);
            }
        }
    }
}

/// Whether a link is of a record and has a key.
pub open spec fn is_link_of(link: LinkModel, source: Seq<char>, key: Seq<char>) -> bool {
    link.source == source && link.key == key
}

/// A link of a record leads nowhere exactly where the record has no link with that key.
pub proof fn lemma_links_lead_somewhere(links: Seq<LinkModel>, source: Seq<char>, key: Seq<char>)
    ensures
        first_target(links, source, key) is None <==> forall|i: int|
            0 <= i < links.len() ==> !is_link_of(#[trigger] links[i], source, key),
    decreases links.len(),
{
    if links.len() > 0 && !is_link_of(links[0], source, key) {
        let rest = links.drop_first();
        lemma_links_lead_somewhere(rest, source, key);
        if first_target(links, source, key) is None {
            assert forall|i: int| 0 <= i < links.len() implies !is_link_of(
                #[trigger] links[i],
                source,
                key,
            ) by {
                if i > 0 {
                    assert(rest[i - 1] == links[i]);
                }
            }
        } else {
            let i = choose|i: int|
                0 <= i < rest.len() && is_link_of(#[trigger] rest[i], source, key);
            assert(links[i + 1] == rest[i]);
        }
    } else if links.len() > 0 {
        assert(is_link_of(links[0], source, key));
    }
}

/// A link of a record leads to the target of the first link of that record with its key.
pub proof fn lemma_links_lead_to_their_target(
    links: Seq<LinkModel>,
    source: Seq<char>,
    key: Seq<char>,
    i: int,
)
    requires
        0 <= i < links.len(),
        is_link_of(links[i], source, key),
        forall|k: int| 0 <= k < i ==> !is_link_of(#[trigger] links[k], source, key),
    ensures
        first_target(links, source, key) == Some(links[i].target),
    decreases links.len(),
{
    if i > 0 {
        let rest = links.drop_first();
        assert(!is_link_of(links[0], source, key));
        assert(rest[i - 1] == links[i]);
        assert forall|k: int| 0 <= k < i - 1 implies !is_link_of(
            #[trigger] rest[k],
            source,
            key,
        ) by {
            assert(links[k + 1] == rest[k]);
        }
        lemma_links_lead_to_their_target(rest, source, key, i - 1);
    }
}

/// The sources of a target are the records with a link to it.
pub proof fn lemma_backlinks_come_from_links(
    links: Seq<LinkModel>,
    target: Seq<char>,
    source: Seq<char>,
)
    ensures
        sources_of(links, target).contains(source) <==> exists|i: int|
            0 <= i < links.len() && (#[trigger] links[i]).target == target && links[i].source
                == source,
    decreases links.len(),
{
    if links.len() > 0 {
        let front = links.drop_last();
        lemma_backlinks_come_from_links(front, target, source);
        let rest = sources_of(front, target);
        let all = sources_of(links, target);
        let last = links.last();
        assert(links[links.len() - 1] == last);
        if rest.contains(source) {
            let i = choose|i: int|
                0 <= i < front.len() && (#[trigger] front[i]).target == target && front[i].source
                    == source;
            assert(links[i] == front[i]);
            let k = choose|k: int| 0 <= k < rest.len() && rest[k] == source;
            assert(all[k] == source);
        }
        if last.target == target && last.source == source {
            assert(all[all.len() - 1] == source);
        }
        if all.contains(source) && !rest.contains(source) {
            let k = choose|k: int| 0 <= k < all.len() && all[k] == source;
            if k < rest.len() {
                assert(rest[k] == source);
            }
        }
        if exists|i: int|
            0 <= i < links.len() && (#[trigger] links[i]).target == target && links[i].source
                == source {
            let i = choose|i: int|
                0 <= i < links.len() && (#[trigger] links[i]).target == target && links[i].source
                    == source;
            if i < front.len() {
                assert(front[i] == links[i]);
            }
        }
    }
}

/// The files within reach: the record's own first, then each neighbor's, no path twice.
pub proof fn lemma_reachable_files(candidate: FileModel, related: Seq<SemanticProjection>)
    ensures
        ({
            let files = reachable_files(candidate, related);
            &&& files.len() >= 1
            &&& files[0] == candidate
            &&& forall|i: int|
                0 <= i < related.len() ==> lists_path(files, (#[trigger] related[i]).facts.path@)
            &&& forall|i: int, j: int|
                #![trigger files[i], files[j]]
                0 <= i < j < files.len() ==> files[i].path != files[j].path
        }),
    decreases related.len(),
{
    if related.len() > 0 {
        let front = related.drop_last();
        lemma_reachable_files(candidate, front);
        let rest = reachable_files(candidate, front);
        let files = reachable_files(candidate, related);
        let last = related.last();
        assert forall|i: int| 0 <= i < related.len() implies lists_path(
            files,
            (#[trigger] related[i]).facts.path@,
        ) by {
            if i < front.len() {
                assert(front[i] == related[i]);
                let k = choose|k: int|
                    0 <= k < rest.len() && (#[trigger] rest[k]).path == front[i].facts.path@;
                assert(files[k] == rest[k]);
            } else if !lists_path(rest, last.facts.path@) {
                assert(files[files.len() - 1].path == last.facts.path@);
            }
        }
        assert forall|i: int, j: int|
            #![trigger files[i], files[j]]
            0 <= i < j < files.len() implies files[i].path != files[j].path by {
            if j < rest.len() {
                assert(files[i] == rest[i]);
                assert(files[j] == rest[j]);
            } else {
                assert(files[i] == rest[i]);
            }
        }
    }
}

/// A projection that is not current is found exactly where there is one.
pub proof fn lemma_stale_projections_are_found(
    projections: Seq<SemanticProjection>,
    plan: HostedQueryPlan,
    format: ProjectionFormat,
)
    ensures
        first_stale(projections, plan, format) is None <==> forall|i: int|
            0 <= i < projections.len() ==> is_current(plan, #[trigger] projections[i], format),
    decreases projections.len(),
{
    if projections.len() > 0 {
        let rest = projections.drop_first();
        lemma_stale_projections_are_found(rest, plan, format);
        if first_stale(projections, plan, format) is None {
            assert forall|i: int| 0 <= i < projections.len() implies is_current(
                plan,
                #[trigger] projections[i],
                format,
            ) by {
                if i > 0 {
                    assert(rest[i - 1] == projections[i]);
                }
            }
        } else if is_current(plan, projections[0], format) {
            let i = choose|i: int|
                0 <= i < rest.len() && !is_current(plan, #[trigger] rest[i], format);
            assert(projections[i + 1] == rest[i]);
        }
    }
}

/// Links are followed exactly where the neighborhood is complete, small enough, the
/// record's own, and current throughout.
pub proof fn lemma_followed_neighborhoods(
    candidate: Seq<char>,
    neighborhood: Option<&HostedRelationshipNeighborhood>,
    plan: HostedQueryPlan,
    format: ProjectionFormat,
)
    ensures
        links_fault(candidate, neighborhood, plan, format) is None <==> {
            &&& neighborhood is Some
            &&& neighborhood->0.complete
            &&& neighborhood->0.related@.len()
                <= crate::hosted_base::MAX_HOSTED_BASE_RELATED_RECORDS
            &&& neighborhood->0.projection is Some
            &&& (neighborhood->0.projection->0).facts.path@ == candidate
            &&& is_current(plan, neighborhood->0.projection->0, format)
            &&& forall|i: int|
                0 <= i < neighborhood->0.related@.len() ==> is_current(
                    plan,
                    #[trigger] neighborhood->0.related@[i],
                    format,
                )
        },
{
    if let Some(found) = neighborhood {
        lemma_stale_projections_are_found(found.related@, plan, format);
    }
}

/// A link is known by what stands before its heading, without blanks around it.
pub proof fn lemma_keys_of_links(name: Seq<char>, heading: Seq<char>)
    requires
        !name.contains('#'),
    ensures
        link_key(name) == trimmed(name),
        link_key(name + seq!['#'] + heading) == trimmed(name),
{
    crate::text::lemma_split_single(name, '#');
    crate::lowering_laws::lemma_split_of_joined(name, heading, '#');
    crate::text::lemma_split_nonempty(heading, '#');
    assert(split_on(name + seq!['#'] + heading, '#')[0] == name);
}

// ---------------------------------------------------------------------------
// Views
// ---------------------------------------------------------------------------
/// A view that asks for a context has it from itself where it names itself, else from the
/// record that was given for that path; with another record, or none, it is missing.
pub proof fn lemma_contexts_of_views(
    prepared: PreparedView,
    view: ExactRecord,
    context: Option<&ExactRecord>,
)
    ensures
        ({
            let found = context_of_view(prepared, view, context);
            let revision = context_revision_of(found, view, context);
            &&& found is Absent <==> prepared.context_path is None
            &&& found is Itself <==> prepared.context_path is Some && (prepared.context_path->0)@
                == view.record.path@
            &&& found is Supplied ==> context is Some && context->0.record.path@ == (
            prepared.context_path->0)@ && revision == Some(
                digest_of(encode_utf8(context->0.record.document@)),
            )
            &&& found is Itself ==> revision == Some(digest_of(encode_utf8(view.record.document@)))
            &&& found is Missing <==> prepared.context_path is Some && (prepared.context_path->0)@
                != view.record.path@ && !(context is Some && context->0.record.path@ == (
            prepared.context_path->0)@)
            &&& found is Absent || found is Missing ==> revision is None
        }),
{
}

/// An invocation is told apart by its view and context, both with their revisions, and by
/// the plan of its query.
pub proof fn lemma_invocations_are_told_apart(
    left: PreparedView,
    left_revision: Seq<char>,
    left_context: Option<Seq<char>>,
    left_query: Seq<char>,
    right: PreparedView,
    right_revision: Seq<char>,
    right_context: Option<Seq<char>>,
    right_query: Seq<char>,
)
    requires
        invocation_json(left, left_revision, left_context, left_query) == invocation_json(
            right,
            right_revision,
            right_context,
            right_query,
        ),
    ensures
        left.view_path@ == right.view_path@,
        left.view_id@ == right.view_id@,
        left_revision == right_revision,
        optional_text(left.context_path) == optional_text(right.context_path),
        left_context == right_context,
        left_query == right_query,
{
    lemma_invocation_members(left, left_revision, left_context, left_query);
    lemma_invocation_members(right, right_revision, right_context, right_query);
}

proof fn lemma_invocation_members(
    prepared: PreparedView,
    revision: Seq<char>,
    context: Option<Seq<char>>,
    query: Seq<char>,
)
    ensures
        ({
            let json = invocation_json(prepared, revision, context, query);
            &&& member_of(json, "view_path"@) == Some(JsonModel::Text(prepared.view_path@))
            &&& member_of(json, "view_id"@) == Some(JsonModel::Text(prepared.view_id@))
            &&& member_of(json, "view_revision"@) == Some(JsonModel::Text(revision))
            &&& member_of(json, "context_path"@) == crate::hosted_view::text_or_null(
                optional_text(prepared.context_path),
            )
            &&& member_of(json, "context_revision"@) == crate::hosted_view::text_or_null(context)
            &&& member_of(json, "query_plan_digest"@) == Some(JsonModel::Text(query))
        }),
{
    reveal_strlit("schema");
    reveal_strlit("view_path");
    reveal_strlit("view_id");
    reveal_strlit("view_revision");
    reveal_strlit("context_path");
    reveal_strlit("context_revision");
    reveal_strlit("query_plan_digest");
    assert("schema"@.len() == 6 && "view_path"@.len() == 9 && "view_id"@.len() == 7
        && "view_revision"@.len() == 13 && "context_path"@.len() == 12 && "context_revision"@.len()
        == 16 && "query_plan_digest"@.len() == 17);
    lemma_members();
}

// ---------------------------------------------------------------------------
// Resources, batches, paths
// ---------------------------------------------------------------------------
/// A resource read goes ahead exactly where it is one of the three that read resources,
/// within its budgets, and no path leads out of its stage: none starts at the root, and
/// none has a part that names a parent.
pub proof fn lemma_resource_reads(operation: Seq<char>, resources: Seq<HostedResource>)
    ensures
        resource_read_fault(operation, resources) is None <==> {
            &&& operation == "read_type"@ || operation == "list_views"@ || operation
                == "read_view_source"@
            &&& resources.len() <= 2_000
            &&& resource_bytes(resources) <= 33_554_432
            &&& forall|i: int|
                0 <= i < resources.len() ==> {
                    let path = (#[trigger] resources[i]).path@;
                    !(path.len() > 0 && path[0] == '/') && forall|k: int|
                        0 <= k < split_on(path, '/').len() ==> #[trigger] split_on(path, '/')[k]
                            != ".."@
                }
        },
{
    if resource_read_fault(operation, resources) is None {
        assert forall|i: int| 0 <= i < resources.len() implies {
            let path = (#[trigger] resources[i]).path@;
            !(path.len() > 0 && path[0] == '/') && forall|k: int|
                0 <= k < split_on(path, '/').len() ==> #[trigger] split_on(path, '/')[k] != ".."@
        } by {
            assert(!escapes(resources[i].path@));
            let parts = split_on(resources[i].path@, '/');
            assert forall|k: int| 0 <= k < parts.len() implies #[trigger] parts[k] != ".."@ by {
                assert(parts.contains(parts[k]));
            }
        }
    }
}

/// The bytes of resources are those of their documents, added up.
pub proof fn lemma_resource_bytes_add_up(resources: Seq<HostedResource>, resource: HostedResource)
    ensures
        resource_bytes(resources.push(resource)) == resource_bytes(resources) + encode_utf8(
            resource.document@,
        ).len(),
        resource_bytes(Seq::empty()) == 0,
{
    assert(resources.push(resource).drop_last() =~= resources);
}

/// A batch succeeds exactly where none of its items failed and no diagnostic is an error;
/// and one that may be done in part is not prepared.
pub proof fn lemma_batches(
    result: BatchResult,
    diagnostics: Seq<TypedDiagnostic>,
    request: OperationRequest,
    preparation: BatchPreparation,
)
    ensures
        batch_outcome(result, diagnostics).valid <==> result.failed == 0
            && !crate::canonical_operation::has_error(typed_models(diagnostics)),
        batch_outcome(result, diagnostics).value == ValueModel::Batch(Some(result@)),
        bool_member(request.input@, "allow_partial"@) == Some(true) ==> unprepared(
            request,
            preparation,
        ) is Some && !(unprepared(request, preparation)->0).valid,
        bool_member(request.input@, "allow_partial"@) != Some(true) ==> (unprepared(
            request,
            preparation,
        ) is None <==> preparation is Staged && !(preparation->Staged_0 is NoMutation)),
        preparation is Undecodable ==> unprepared(request, preparation) is Some && !(unprepared(
            request,
            preparation,
        )->0).valid,
{
}

/// A path is a record's exactly where it is valid, no part of it is hidden, it is not kept
/// for something else, and it ends as records do.
pub proof fn lemma_paths_of_records(facts: RecordPathFacts)
    ensures
        record_path_of(facts) is Ok <==> facts.normal is Ok && !is_hidden((facts.normal->Ok_0)@)
            && !facts.excluded && facts.record_extension,
        record_path_of(facts) is Ok ==> record_path_of(facts)->Ok_0 == (facts.normal->Ok_0)@,
        facts.normal is Ok ==> (is_hidden((facts.normal->Ok_0)@) <==> record_path_of(facts)
            == Err::<Seq<char>, _>(PathFault::HiddenComponent)),
{
}

/// A path is hidden exactly where one of its parts starts with a dot.
pub proof fn lemma_hidden_paths(path: Seq<char>)
    ensures
        is_hidden(path) <==> exists|i: int|
            0 <= i < path.len() && #[trigger] path[i] == '.' && (i == 0 || path[i - 1] == '/'
                || path[i - 1] == '\\'),
{
}

/// A validation can be planned exactly where its target has an identity and a record's path,
/// and the input names that path.
pub proof fn lemma_planned_validations(input: JsonModel, target: ExactRecord)
    ensures
        validation_fault(input, target) is None <==> target.record.stable_id is Some
            && text_member(input, "path"@) == Some(target.record.path@) && record_path_of(
            target.path,
        ) is Ok,
{
}

/// A neighbor's file that is within reach holds its frontmatter in effect, and no body.
pub proof fn lemma_files_within_reach(
    candidate: FileModel,
    related: Seq<SemanticProjection>,
    i: int,
)
    requires
        0 < i < reachable_files(candidate, related).len(),
    ensures
        ({
            let file = reachable_files(candidate, related)[i];
            &&& file.body.len() == 0
            &&& exists|k: int|
                0 <= k < related.len() && (#[trigger] related[k]).facts.path@ == file.path
                    && file.frontmatter == JsonModel::Object(
                    member_models(related[k].facts.effective_frontmatter@),
                )
        }),
    decreases related.len(),
{
    if related.len() > 0 {
        let front = related.drop_last();
        let rest = reachable_files(candidate, front);
        let files = reachable_files(candidate, related);
        let last = related.last();
        assert(related[related.len() - 1] == last);
        if i < rest.len() {
            lemma_files_within_reach(candidate, front, i);
            assert(files[i] == rest[i]);
            let k = choose|k: int|
                0 <= k < front.len() && (#[trigger] front[k]).facts.path@ == rest[i].path
                    && rest[i].frontmatter == JsonModel::Object(
                    member_models(front[k].facts.effective_frontmatter@),
                );
            assert(related[k] == front[k]);
        } else {
            assert(files[i].path == last.facts.path@);
        }
    }
}

/// The frontmatter that a validation is made of: what the input gives, or else what the
/// record has.
pub proof fn lemma_validated_frontmatter(input: JsonModel, classified: CollectionSnapshotRecord)
    ensures
        member_of(input, "frontmatter"@) is None ==> persisted(input, classified)
            == classified.frontmatter@,
        member_of(input, "frontmatter"@) is Some && member_of(input, "frontmatter"@)->0 is Object
            ==> persisted(input, classified) == member_of(input, "frontmatter"@)->0,
{
}

/// The row of a projected record holds its completed file where it holds a file, and all
/// else as it was; the size of a record's file is the one given, or else that of its bytes.
pub proof fn lemma_completed_rows(
    members: Seq<(Seq<char>, JsonModel)>,
    file: JsonModel,
    key: Seq<char>,
    record: CanonicalRecordInput,
)
    ensures
        lookup(members, "file"@) is Some ==> member_of(
            row_with_file(JsonModel::Object(members), file),
            "file"@,
        ) == Some(file),
        lookup(members, "file"@) is None ==> row_with_file(JsonModel::Object(members), file)
            == JsonModel::Object(members),
        key != "file"@ ==> member_of(row_with_file(JsonModel::Object(members), file), key)
            == lookup(members, key),
        record.file_size != 0 ==> file_size_of(record) == record.file_size,
        record.file_size == 0 && encode_utf8(record.document@).len() <= u64::MAX ==> file_size_of(
            record,
        ) == encode_utf8(record.document@).len(),
{
    lemma_members();
}

} // verus!
