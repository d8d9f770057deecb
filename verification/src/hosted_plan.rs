//! The closed, versioned plan of a hosted query, and its integrity digest.

use crate::canonical::{digest_json, json_digest};
use crate::diagnostics::CatalogError;
use crate::json::{
    item_models, member_models, put_member, text_models, with_member, Json, JsonModel, Member,
};
use crate::ordering::HostedOrderDirection;
use crate::results::count_value;
use crate::text::{copy_texts, texts};
use vstd::prelude::*;
use vstd::string::StringExecFns;

verus! {

pub const HOSTED_QUERY_PLAN_VERSION: u32 = 8;

pub const MAX_PAGE_SIZE: u64 = 1_000;

/// Where a comparison, an order, or a group takes its value from.
#[derive(Debug, PartialEq, Eq)]
pub enum CandidateField {
    Path,
    Types,
    File(String),
    PersistedFrontmatter(Vec<String>),
    EffectiveFrontmatter(Vec<String>),
    BodyTags,
}

/// What a candidate field holds.
pub enum FieldModel {
    Path,
    Types,
    File(Seq<char>),
    PersistedFrontmatter(Seq<Seq<char>>),
    EffectiveFrontmatter(Seq<Seq<char>>),
    BodyTags,
}

impl View for CandidateField {
    type V = FieldModel;

    open spec fn view(&self) -> FieldModel {
        match self {
            CandidateField::Path => FieldModel::Path,
            CandidateField::Types => FieldModel::Types,
            CandidateField::File(name) => FieldModel::File(name@),
            CandidateField::PersistedFrontmatter(path) => FieldModel::PersistedFrontmatter(
                texts(path@),
            ),
            CandidateField::EffectiveFrontmatter(path) => FieldModel::EffectiveFrontmatter(
                texts(path@),
            ),
            CandidateField::BodyTags => FieldModel::BodyTags,
        }
    }
}

impl CandidateField {
    /// A copy of the field.
    pub fn copy(&self) -> (result: CandidateField)
        ensures
            result@ == self@,
    {
        match self {
            CandidateField::Path => CandidateField::Path,
            CandidateField::Types => CandidateField::Types,
            CandidateField::File(name) => CandidateField::File(name.clone()),
            CandidateField::PersistedFrontmatter(path) => CandidateField::PersistedFrontmatter(
                copy_texts(path),
            ),
            CandidateField::EffectiveFrontmatter(path) => CandidateField::EffectiveFrontmatter(
                copy_texts(path),
            ),
            CandidateField::BodyTags => CandidateField::BodyTags,
        }
    }
}

#[derive(Debug, Clone, Copy, PartialEq, Eq, Structural)]
pub enum CandidateComparisonOperator {
    Equal,
    NotEqual,
    LessThan,
    LessThanOrEqual,
    GreaterThan,
    GreaterThanOrEqual,
    In,
    Contains,
}

/// How far a provider may narrow candidates by a comparison.
#[derive(Debug, Clone, Copy, PartialEq, Eq, Structural)]
pub enum CandidateComparisonPruning {
    /// JSON operations are false exactly where the canonical evaluation is.
    ExactJson,
    /// The value is a canonical tag; only the exact-or-descendant tag rule may
    /// narrow.
    NormalizedTagHierarchy,
    /// The literal is a date alone; only records whose value is one as well may
    /// be narrowed.
    IsoDateOnlyString,
    /// The comparison must never narrow.
    Conservative,
}

/// A comparison of a field with a literal.
#[derive(Debug, PartialEq, Eq)]
pub struct CandidateComparison {
    pub field: CandidateField,
    pub operator: CandidateComparisonOperator,
    pub value: Json,
    pub pruning: CandidateComparisonPruning,
}

/// What a comparison holds.
pub struct ComparisonModel {
    pub field: FieldModel,
    pub operator: CandidateComparisonOperator,
    pub value: JsonModel,
    pub pruning: CandidateComparisonPruning,
}

impl View for CandidateComparison {
    type V = ComparisonModel;

    open spec fn view(&self) -> ComparisonModel {
        ComparisonModel {
            field: self.field@,
            operator: self.operator,
            value: self.value@,
            pruning: self.pruning,
        }
    }
}

/// A condition that providers may check on projections.
#[derive(Debug, PartialEq, Eq)]
pub enum CandidatePredicate {
    All,
    Nothing,
    And { terms: Vec<CandidatePredicate> },
    Or { terms: Vec<CandidatePredicate> },
    Not { term: Box<CandidatePredicate> },
    HasType { record_type: String },
    Compare { comparison: CandidateComparison },
}

/// What a condition holds.
pub enum PredicateModel {
    All,
    Nothing,
    And(Seq<PredicateModel>),
    Or(Seq<PredicateModel>),
    Not(Box<PredicateModel>),
    HasType(Seq<char>),
    Compare(ComparisonModel),
}

/// What a condition holds.
pub open spec fn predicate_model(predicate: CandidatePredicate) -> PredicateModel
    decreases predicate,
{
    match predicate {
        CandidatePredicate::All => PredicateModel::All,
        CandidatePredicate::Nothing => PredicateModel::Nothing,
        CandidatePredicate::And { terms } => PredicateModel::And(
            Seq::new(
                terms@.len(),
                |i: int|
                    if 0 <= i < terms@.len() {
                        predicate_model(terms@[i])
                    } else {
                        PredicateModel::All
                    },
            ),
        ),
        CandidatePredicate::Or { terms } => PredicateModel::Or(
            Seq::new(
                terms@.len(),
                |i: int|
                    if 0 <= i < terms@.len() {
                        predicate_model(terms@[i])
                    } else {
                        PredicateModel::All
                    },
            ),
        ),
        CandidatePredicate::Not { term } => PredicateModel::Not(Box::new(predicate_model(*term))),
        CandidatePredicate::HasType { record_type } => PredicateModel::HasType(record_type@),
        CandidatePredicate::Compare { comparison } => PredicateModel::Compare(comparison@),
    }
}

impl View for CandidatePredicate {
    type V = PredicateModel;

    open spec fn view(&self) -> PredicateModel {
        predicate_model(*self)
    }
}

/// What a list of conditions holds.
pub open spec fn predicate_models(terms: Seq<CandidatePredicate>) -> Seq<PredicateModel> {
    Seq::new(terms.len(), |i: int| terms[i]@)
}

/// A conjunction holds what its terms hold.
pub proof fn lemma_and_model(terms: Vec<CandidatePredicate>)
    ensures
        (CandidatePredicate::And { terms })@ == PredicateModel::And(predicate_models(terms@)),
{
    assert((CandidatePredicate::And { terms })@->And_0 =~= predicate_models(terms@));
}

/// A disjunction holds what its terms hold.
pub proof fn lemma_or_model(terms: Vec<CandidatePredicate>)
    ensures
        (CandidatePredicate::Or { terms })@ == PredicateModel::Or(predicate_models(terms@)),
{
    assert((CandidatePredicate::Or { terms })@->Or_0 =~= predicate_models(terms@));
}

/// The canonical query that every retained record is evaluated against.
#[derive(Debug, PartialEq, Eq)]
pub struct CanonicalResidual {
    pub query: Json,
    /// Whether candidate facts alone prove the filter.
    pub filter_fully_projected: bool,
}

#[derive(Debug, Clone, Copy, PartialEq, Eq, Structural)]
pub enum HostedScalarKind {
    String,
    Number,
    Boolean,
}

#[derive(Debug, Clone, Copy, PartialEq, Eq, Structural)]
pub enum HostedSortSemantics {
    /// Null last ascending; scalars in natural order; arrays and objects by
    /// length; unlike kinds equal; the direction reverses; the canonical path is
    /// the last, ascending tie-break.
    CanonicalV03,
}

/// One term of a hosted order.
#[derive(Debug, PartialEq, Eq)]
pub struct HostedOrder {
    pub field: CandidateField,
    pub direction: HostedOrderDirection,
    pub canonical_path_tiebreak: bool,
    pub semantics: HostedSortSemantics,
    pub value_kind: Option<HostedScalarKind>,
}

/// One term of a hosted grouping.
#[derive(Debug, PartialEq, Eq)]
pub struct HostedGroup {
    pub field: CandidateField,
    pub output_name: String,
    pub direction: HostedOrderDirection,
    pub value_kind: Option<HostedScalarKind>,
}

/// One summary of a hosted query.
#[derive(Debug, PartialEq, Eq)]
pub struct HostedAggregate {
    pub field: CandidateField,
    pub function: String,
    pub output_name: String,
    pub provider_safe: bool,
}

/// What a hosted query needs of the provider.
#[derive(Debug, Clone, Copy, PartialEq, Eq, Structural)]
pub struct HostedQueryRequirements {
    pub exact_document: bool,
    pub body_prose: bool,
    pub structural_body_facts: bool,
    pub relationships: bool,
    pub persisted_frontmatter: bool,
    pub effective_frontmatter: bool,
    pub diagnostics: bool,
    pub diagnostic_type_matchers: bool,
    pub canonical_residual: bool,
    pub bounded_top_k: bool,
    pub bounded_grouping: bool,
    pub collection_context: bool,
    pub query_context: bool,
}

impl HostedQueryRequirements {
    /// No requirement at all.
    pub open spec fn nothing() -> HostedQueryRequirements {
        HostedQueryRequirements {
            exact_document: false,
            body_prose: false,
            structural_body_facts: false,
            relationships: false,
            persisted_frontmatter: false,
            effective_frontmatter: false,
            diagnostics: false,
            diagnostic_type_matchers: false,
            canonical_residual: false,
            bounded_top_k: false,
            bounded_grouping: false,
            collection_context: false,
            query_context: false,
        }
    }
}

impl Default for HostedQueryRequirements {
    fn default() -> (result: Self)
        ensures
            result == HostedQueryRequirements::nothing(),
    {
        HostedQueryRequirements {
            exact_document: false,
            body_prose: false,
            structural_body_facts: false,
            relationships: false,
            persisted_frontmatter: false,
            effective_frontmatter: false,
            diagnostics: false,
            diagnostic_type_matchers: false,
            canonical_residual: false,
            bounded_top_k: false,
            bounded_grouping: false,
            collection_context: false,
            query_context: false,
        }
    }
}

/// The limits of one hosted operation.
#[derive(Debug, Clone, Copy, PartialEq, Eq, Structural)]
pub struct HostedQueryBudgets {
    pub max_page_size: u64,
    pub max_offset: u64,
    pub max_candidate_rows: u64,
    pub max_candidate_bytes: u64,
    pub max_exact_documents: u64,
    pub max_exact_bytes: u64,
    pub max_operator_steps: u64,
    pub max_groups: u64,
    pub max_connection_wait_ms: u64,
    pub max_wall_time_ms: u64,
    pub max_snapshot_time_ms: u64,
    pub max_memory_bytes: u64,
}

impl HostedQueryBudgets {
    pub open spec fn standard() -> HostedQueryBudgets {
        HostedQueryBudgets {
            max_page_size: 1_000,
            max_offset: 10_000,
            max_candidate_rows: 10_000,
            max_candidate_bytes: 16_777_216,
            max_exact_documents: 2_000,
            max_exact_bytes: 67_108_864,
            max_operator_steps: 2_000_000,
            max_groups: 10_000,
            max_connection_wait_ms: 2_000,
            max_wall_time_ms: 15_000,
            max_snapshot_time_ms: 30_000,
            max_memory_bytes: 134_217_728,
        }
    }
}

impl Default for HostedQueryBudgets {
    fn default() -> (result: Self)
        ensures
            result == HostedQueryBudgets::standard(),
    {
        HostedQueryBudgets {
            max_page_size: MAX_PAGE_SIZE,
            max_offset: 10_000,
            max_candidate_rows: 10_000,
            max_candidate_bytes: 16 * 1024 * 1024,
            max_exact_documents: 2_000,
            max_exact_bytes: 64 * 1024 * 1024,
            max_operator_steps: 2_000_000,
            max_groups: 10_000,
            max_connection_wait_ms: 2_000,
            max_wall_time_ms: 15_000,
            max_snapshot_time_ms: 30_000,
            max_memory_bytes: 128 * 1024 * 1024,
        }
    }
}

/// A compiled hosted query. It holds no provider language, names, or keys.
#[derive(Debug, PartialEq, Eq)]
pub struct HostedQueryPlan {
    pub version: u32,
    pub semantic_engine_version: String,
    pub catalog_revision: String,
    pub canonical_query_digest: String,
    pub plan_digest: String,
    pub candidate: CandidatePredicate,
    pub residual: CanonicalResidual,
    pub order: Vec<HostedOrder>,
    pub groups: Vec<HostedGroup>,
    pub aggregates: Vec<HostedAggregate>,
    pub page_size: u64,
    pub requested_limit: Option<u64>,
    pub offset: u64,
    pub requirements: HostedQueryRequirements,
    pub budgets: HostedQueryBudgets,
}

// ---------------------------------------------------------------------------
// The plan as a JSON value
// ---------------------------------------------------------------------------
/// An object with one member.
pub open spec fn one_member(key: Seq<char>, value: JsonModel) -> Seq<(Seq<char>, JsonModel)> {
    with_member(Seq::empty(), key, value)
}

fn object_of_one(key: &str, value: Json) -> (result: Vec<Member>)
    ensures
        member_models(result@) == one_member(key@, value@),
{
    let mut members: Vec<Member> = Vec::new();
    proof {
        assert(member_models(members@) =~= Seq::empty());
    }
    put_member(&mut members, key, value);
    members
}

/// A field as a JSON value.
pub open spec fn field_value(field: FieldModel) -> JsonModel {
    match field {
        FieldModel::Path => JsonModel::Object(one_member("source"@, JsonModel::Text("path"@))),
        FieldModel::Types => JsonModel::Object(one_member("source"@, JsonModel::Text("types"@))),
        FieldModel::File(name) => JsonModel::Object(
            with_member(
                one_member("source"@, JsonModel::Text("file"@)),
                "path"@,
                JsonModel::Text(name),
            ),
        ),
        FieldModel::PersistedFrontmatter(path) => JsonModel::Object(
            with_member(
                one_member("source"@, JsonModel::Text("persisted_frontmatter"@)),
                "path"@,
                JsonModel::Array(text_models(path)),
            ),
        ),
        FieldModel::EffectiveFrontmatter(path) => JsonModel::Object(
            with_member(
                one_member("source"@, JsonModel::Text("effective_frontmatter"@)),
                "path"@,
                JsonModel::Array(text_models(path)),
            ),
        ),
        FieldModel::BodyTags => JsonModel::Object(
            one_member("source"@, JsonModel::Text("body_tags"@)),
        ),
    }
}

impl CandidateField {
    pub fn to_json(&self) -> (result: Json)
        ensures
            result@ == field_value(self@),
    {
        broadcast use crate::json::lemma_object_model;

        match self {
            CandidateField::Path => Json::Object(object_of_one("source", Json::text("path"))),
            CandidateField::Types => Json::Object(object_of_one("source", Json::text("types"))),
            CandidateField::File(name) => {
                let mut members = object_of_one("source", Json::text("file"));
                put_member(&mut members, "path", Json::text(name.as_str()));
                Json::Object(members)
            },
            CandidateField::PersistedFrontmatter(path) => {
                let mut members = object_of_one("source", Json::text("persisted_frontmatter"));
                put_member(&mut members, "path", Json::text_array(path));
                Json::Object(members)
            },
            CandidateField::EffectiveFrontmatter(path) => {
                let mut members = object_of_one("source", Json::text("effective_frontmatter"));
                put_member(&mut members, "path", Json::text_array(path));
                Json::Object(members)
            },
            CandidateField::BodyTags => Json::Object(
                object_of_one("source", Json::text("body_tags")),
            ),
        }
    }
}

impl CandidateComparisonOperator {
    pub open spec fn name(self) -> Seq<char> {
        match self {
            CandidateComparisonOperator::Equal => "equal"@,
            CandidateComparisonOperator::NotEqual => "not_equal"@,
            CandidateComparisonOperator::LessThan => "less_than"@,
            CandidateComparisonOperator::LessThanOrEqual => "less_than_or_equal"@,
            CandidateComparisonOperator::GreaterThan => "greater_than"@,
            CandidateComparisonOperator::GreaterThanOrEqual => "greater_than_or_equal"@,
            CandidateComparisonOperator::In => "in"@,
            CandidateComparisonOperator::Contains => "contains"@,
        }
    }

    pub fn as_str(self) -> (result: &'static str)
        ensures
            result@ == self.name(),
    {
        match self {
            CandidateComparisonOperator::Equal => "equal",
            CandidateComparisonOperator::NotEqual => "not_equal",
            CandidateComparisonOperator::LessThan => "less_than",
            CandidateComparisonOperator::LessThanOrEqual => "less_than_or_equal",
            CandidateComparisonOperator::GreaterThan => "greater_than",
            CandidateComparisonOperator::GreaterThanOrEqual => "greater_than_or_equal",
            CandidateComparisonOperator::In => "in",
            CandidateComparisonOperator::Contains => "contains",
        }
    }
}

impl CandidateComparisonPruning {
    pub open spec fn name(self) -> Seq<char> {
        match self {
            CandidateComparisonPruning::ExactJson => "exact_json"@,
            CandidateComparisonPruning::NormalizedTagHierarchy => "normalized_tag_hierarchy"@,
            CandidateComparisonPruning::IsoDateOnlyString => "iso_date_only_string"@,
            CandidateComparisonPruning::Conservative => "conservative"@,
        }
    }

    pub fn as_str(self) -> (result: &'static str)
        ensures
            result@ == self.name(),
    {
        match self {
            CandidateComparisonPruning::ExactJson => "exact_json",
            CandidateComparisonPruning::NormalizedTagHierarchy => "normalized_tag_hierarchy",
            CandidateComparisonPruning::IsoDateOnlyString => "iso_date_only_string",
            CandidateComparisonPruning::Conservative => "conservative",
        }
    }
}

/// The name of a direction.
pub open spec fn direction_name(direction: HostedOrderDirection) -> Seq<char> {
    match direction {
        HostedOrderDirection::Ascending => "ascending"@,
        HostedOrderDirection::Descending => "descending"@,
    }
}

fn direction_text(direction: HostedOrderDirection) -> (result: &'static str)
    ensures
        result@ == direction_name(direction),
{
    match direction {
        HostedOrderDirection::Ascending => "ascending",
        HostedOrderDirection::Descending => "descending",
    }
}

impl HostedScalarKind {
    pub open spec fn name(self) -> Seq<char> {
        match self {
            HostedScalarKind::String => "string"@,
            HostedScalarKind::Number => "number"@,
            HostedScalarKind::Boolean => "boolean"@,
        }
    }

    pub fn as_str(self) -> (result: &'static str)
        ensures
            result@ == self.name(),
    {
        match self {
            HostedScalarKind::String => "string",
            HostedScalarKind::Number => "number",
            HostedScalarKind::Boolean => "boolean",
        }
    }
}

/// A comparison as a JSON value.
pub open spec fn comparison_value(comparison: ComparisonModel) -> JsonModel {
    let m = one_member("field"@, field_value(comparison.field));
    let m = with_member(m, "operator"@, JsonModel::Text(comparison.operator.name()));
    let m = with_member(m, "value"@, comparison.value);
    let m = with_member(m, "pruning"@, JsonModel::Text(comparison.pruning.name()));
    JsonModel::Object(m)
}

impl CandidateComparison {
    pub fn to_json(&self) -> (result: Json)
        ensures
            result@ == comparison_value(self@),
    {
        broadcast use crate::json::lemma_object_model;

        let mut members = object_of_one("field", self.field.to_json());
        put_member(&mut members, "operator", Json::text(self.operator.as_str()));
        put_member(&mut members, "value", self.value.copy());
        put_member(&mut members, "pruning", Json::text(self.pruning.as_str()));
        Json::Object(members)
    }
}

/// The first of some conditions as JSON values.
pub open spec fn term_values(terms: Seq<PredicateModel>, count: nat) -> Seq<JsonModel>
    decreases terms, count,
{
    if count == 0 || count > terms.len() {
        Seq::empty()
    } else {
        term_values(terms, (count - 1) as nat).push(predicate_value(terms[count - 1]))
    }
}

/// A condition as a JSON value.
pub open spec fn predicate_value(predicate: PredicateModel) -> JsonModel
    decreases predicate, 0nat,
{
    match predicate {
        PredicateModel::All => JsonModel::Object(one_member("op"@, JsonModel::Text("all"@))),
        PredicateModel::Nothing => JsonModel::Object(one_member("op"@, JsonModel::Text("none"@))),
        PredicateModel::And(terms) => JsonModel::Object(
            with_member(
                one_member("op"@, JsonModel::Text("and"@)),
                "terms"@,
                JsonModel::Array(term_values(terms, terms.len())),
            ),
        ),
        PredicateModel::Or(terms) => JsonModel::Object(
            with_member(
                one_member("op"@, JsonModel::Text("or"@)),
                "terms"@,
                JsonModel::Array(term_values(terms, terms.len())),
            ),
        ),
        PredicateModel::Not(term) => JsonModel::Object(
            with_member(
                one_member("op"@, JsonModel::Text("not"@)),
                "term"@,
                predicate_value(*term),
            ),
        ),
        PredicateModel::HasType(name) => JsonModel::Object(
            with_member(
                one_member("op"@, JsonModel::Text("has_type"@)),
                "type"@ + "_name"@,
                JsonModel::Text(name),
            ),
        ),
        PredicateModel::Compare(comparison) => JsonModel::Object(
            with_member(
                one_member("op"@, JsonModel::Text("compare"@)),
                "comparison"@,
                comparison_value(comparison),
            ),
        ),
    }
}

fn predicates_to_json(terms: &Vec<CandidatePredicate>) -> (result: Vec<Json>)
    ensures
        item_models(result@) == term_values(predicate_models(terms@), terms@.len()),
    decreases terms,
{
    let ghost models = predicate_models(terms@);
    let mut result: Vec<Json> = Vec::new();
    let mut i: usize = 0;
    proof {
        assert(item_models(result@) =~= Seq::empty());
    }
    while i < terms.len()
        invariant
            i <= terms@.len(),
            models == predicate_models(terms@),
            item_models(result@) == term_values(models, i as nat),
        decreases terms@.len() - i,
    {
        let value = terms[i].to_json();
        let ghost before = result@;
        result.push(value);
        proof {
            assert(item_models(result@) =~= item_models(before).push(predicate_value(
                models[i as int],
            )));
        }
        i = i + 1;
    }
    result
}

impl CandidatePredicate {
    pub fn to_json(&self) -> (result: Json)
        ensures
            result@ == predicate_value(self@),
        decreases self,
    {
        broadcast use {crate::json::lemma_object_model, crate::json::lemma_array_model};

        match self {
            CandidatePredicate::All => Json::Object(object_of_one("op", Json::text("all"))),
            CandidatePredicate::Nothing => Json::Object(object_of_one("op", Json::text("none"))),
            CandidatePredicate::And { terms } => {
                let list = predicates_to_json(terms);
                proof {
                    lemma_and_model(*terms);
                }
                let mut members = object_of_one("op", Json::text("and"));
                put_member(&mut members, "terms", Json::Array(list));
                Json::Object(members)
            },
            CandidatePredicate::Or { terms } => {
                let list = predicates_to_json(terms);
                proof {
                    lemma_or_model(*terms);
                }
                let mut members = object_of_one("op", Json::text("or"));
                put_member(&mut members, "terms", Json::Array(list));
                Json::Object(members)
            },
            CandidatePredicate::Not { term } => {
                let mut members = object_of_one("op", Json::text("not"));
                put_member(&mut members, "term", term.to_json());
                Json::Object(members)
            },
            CandidatePredicate::HasType { record_type } => {
                let mut members = object_of_one("op", Json::text("has_type"));
                let key = "type".to_owned().concat("_name");
                put_member(&mut members, key.as_str(), Json::text(record_type.as_str()));
                Json::Object(members)
            },
            CandidatePredicate::Compare { comparison } => {
                let mut members = object_of_one("op", Json::text("compare"));
                put_member(&mut members, "comparison", comparison.to_json());
                Json::Object(members)
            },
        }
    }
}

/// The members with a scalar kind added, where there is one.
pub open spec fn with_kind(
    members: Seq<(Seq<char>, JsonModel)>,
    kind: Option<HostedScalarKind>,
) -> Seq<(Seq<char>, JsonModel)> {
    match kind {
        Some(kind) => with_member(members, "value_kind"@, JsonModel::Text(kind.name())),
        None => members,
    }
}

/// An order term as a JSON value.
pub open spec fn order_value(order: HostedOrder) -> JsonModel {
    let m = one_member("field"@, field_value(order.field@));
    let m = with_member(m, "direction"@, JsonModel::Text(direction_name(order.direction)));
    let m = with_member(
        m,
        "canonical_path_tiebreak"@,
        JsonModel::Bool(order.canonical_path_tiebreak),
    );
    let m = with_member(m, "semantics"@, JsonModel::Text("canonical_v03"@));
    JsonModel::Object(with_kind(m, order.value_kind))
}

/// A group term as a JSON value.
pub open spec fn group_value(group: HostedGroup) -> JsonModel {
    let m = one_member("field"@, field_value(group.field@));
    let m = with_member(m, "output_name"@, JsonModel::Text(group.output_name@));
    let m = with_member(m, "direction"@, JsonModel::Text(direction_name(group.direction)));
    JsonModel::Object(with_kind(m, group.value_kind))
}

/// A summary as a JSON value.
pub open spec fn aggregate_value(aggregate: HostedAggregate) -> JsonModel {
    let m = one_member("field"@, field_value(aggregate.field@));
    let m = with_member(m, "function"@, JsonModel::Text(aggregate.function@));
    let m = with_member(m, "output_name"@, JsonModel::Text(aggregate.output_name@));
    let m = with_member(m, "provider_safe"@, JsonModel::Bool(aggregate.provider_safe));
    JsonModel::Object(m)
}

fn put_kind(members: &mut Vec<Member>, kind: Option<HostedScalarKind>)
    ensures
        member_models(final(members)@) == with_kind(member_models(old(members)@), kind),
{
    if let Some(kind) = kind {
        put_member(members, "value_kind", Json::text(kind.as_str()));
    }
}

impl HostedOrder {
    pub fn to_json(&self) -> (result: Json)
        ensures
            result@ == order_value(*self),
    {
        broadcast use crate::json::lemma_object_model;

        let mut members = object_of_one("field", self.field.to_json());
        put_member(&mut members, "direction", Json::text(direction_text(self.direction)));
        put_member(&mut members, "canonical_path_tiebreak", Json::Bool(self.canonical_path_tiebreak));
        put_member(&mut members, "semantics", Json::text("canonical_v03"));
        put_kind(&mut members, self.value_kind);
        Json::Object(members)
    }
}

impl HostedGroup {
    pub fn to_json(&self) -> (result: Json)
        ensures
            result@ == group_value(*self),
    {
        broadcast use crate::json::lemma_object_model;

        let mut members = object_of_one("field", self.field.to_json());
        put_member(&mut members, "output_name", Json::text(self.output_name.as_str()));
        put_member(&mut members, "direction", Json::text(direction_text(self.direction)));
        put_kind(&mut members, self.value_kind);
        Json::Object(members)
    }
}

impl HostedAggregate {
    pub fn to_json(&self) -> (result: Json)
        ensures
            result@ == aggregate_value(*self),
    {
        broadcast use crate::json::lemma_object_model;

        let mut members = object_of_one("field", self.field.to_json());
        put_member(&mut members, "function", Json::text(self.function.as_str()));
        put_member(&mut members, "output_name", Json::text(self.output_name.as_str()));
        put_member(&mut members, "provider_safe", Json::Bool(self.provider_safe));
        Json::Object(members)
    }
}

/// Requirements as a JSON value.
pub open spec fn requirements_value(requirements: HostedQueryRequirements) -> JsonModel {
    let r = requirements;
    let m = one_member("exact_document"@, JsonModel::Bool(r.exact_document));
    let m = with_member(m, "body_prose"@, JsonModel::Bool(r.body_prose));
    let m = with_member(m, "structural_body_facts"@, JsonModel::Bool(r.structural_body_facts));
    let m = with_member(m, "relationships"@, JsonModel::Bool(r.relationships));
    let m = with_member(m, "persisted_frontmatter"@, JsonModel::Bool(r.persisted_frontmatter));
    let m = with_member(m, "effective_frontmatter"@, JsonModel::Bool(r.effective_frontmatter));
    let m = with_member(m, "diagnostics"@, JsonModel::Bool(r.diagnostics));
    let m = with_member(
        m,
        "diagnostic_type_matchers"@,
        JsonModel::Bool(r.diagnostic_type_matchers),
    );
    let m = with_member(m, "canonical_residual"@, JsonModel::Bool(r.canonical_residual));
    let m = with_member(m, "bounded_top_k"@, JsonModel::Bool(r.bounded_top_k));
    let m = with_member(m, "bounded_grouping"@, JsonModel::Bool(r.bounded_grouping));
    let m = with_member(m, "collection_context"@, JsonModel::Bool(r.collection_context));
    let m = with_member(m, "query_context"@, JsonModel::Bool(r.query_context));
    JsonModel::Object(m)
}

impl HostedQueryRequirements {
    pub fn to_json(&self) -> (result: Json)
        ensures
            result@ == requirements_value(*self),
    {
        broadcast use crate::json::lemma_object_model;

        let mut m = object_of_one("exact_document", Json::Bool(self.exact_document));
        put_member(&mut m, "body_prose", Json::Bool(self.body_prose));
        put_member(&mut m, "structural_body_facts", Json::Bool(self.structural_body_facts));
        put_member(&mut m, "relationships", Json::Bool(self.relationships));
        put_member(&mut m, "persisted_frontmatter", Json::Bool(self.persisted_frontmatter));
        put_member(&mut m, "effective_frontmatter", Json::Bool(self.effective_frontmatter));
        put_member(&mut m, "diagnostics", Json::Bool(self.diagnostics));
        put_member(&mut m, "diagnostic_type_matchers", Json::Bool(self.diagnostic_type_matchers));
        put_member(&mut m, "canonical_residual", Json::Bool(self.canonical_residual));
        put_member(&mut m, "bounded_top_k", Json::Bool(self.bounded_top_k));
        put_member(&mut m, "bounded_grouping", Json::Bool(self.bounded_grouping));
        put_member(&mut m, "collection_context", Json::Bool(self.collection_context));
        put_member(&mut m, "query_context", Json::Bool(self.query_context));
        Json::Object(m)
    }
}

/// Budgets as a JSON value.
pub open spec fn budgets_value(budgets: HostedQueryBudgets) -> JsonModel {
    let b = budgets;
    let m = one_member("max_page_size"@, count_value(b.max_page_size as int));
    let m = with_member(m, "max_offset"@, count_value(b.max_offset as int));
    let m = with_member(m, "max_candidate_rows"@, count_value(b.max_candidate_rows as int));
    let m = with_member(m, "max_candidate_bytes"@, count_value(b.max_candidate_bytes as int));
    let m = with_member(m, "max_exact_documents"@, count_value(b.max_exact_documents as int));
    let m = with_member(m, "max_exact_bytes"@, count_value(b.max_exact_bytes as int));
    let m = with_member(m, "max_operator_steps"@, count_value(b.max_operator_steps as int));
    let m = with_member(m, "max_groups"@, count_value(b.max_groups as int));
    let m = with_member(
        m,
        "max_connection_wait_ms"@,
        count_value(b.max_connection_wait_ms as int),
    );
    let m = with_member(m, "max_wall_time_ms"@, count_value(b.max_wall_time_ms as int));
    let m = with_member(m, "max_snapshot_time_ms"@, count_value(b.max_snapshot_time_ms as int));
    let m = with_member(m, "max_memory_bytes"@, count_value(b.max_memory_bytes as int));
    JsonModel::Object(m)
}

impl HostedQueryBudgets {
    pub fn to_json(&self) -> (result: Json)
        ensures
            result@ == budgets_value(*self),
    {
        broadcast use crate::json::lemma_object_model;

        let mut m = object_of_one("max_page_size", Json::unsigned(self.max_page_size));
        put_member(&mut m, "max_offset", Json::unsigned(self.max_offset));
        put_member(&mut m, "max_candidate_rows", Json::unsigned(self.max_candidate_rows));
        put_member(&mut m, "max_candidate_bytes", Json::unsigned(self.max_candidate_bytes));
        put_member(&mut m, "max_exact_documents", Json::unsigned(self.max_exact_documents));
        put_member(&mut m, "max_exact_bytes", Json::unsigned(self.max_exact_bytes));
        put_member(&mut m, "max_operator_steps", Json::unsigned(self.max_operator_steps));
        put_member(&mut m, "max_groups", Json::unsigned(self.max_groups));
        put_member(&mut m, "max_connection_wait_ms", Json::unsigned(self.max_connection_wait_ms));
        put_member(&mut m, "max_wall_time_ms", Json::unsigned(self.max_wall_time_ms));
        put_member(&mut m, "max_snapshot_time_ms", Json::unsigned(self.max_snapshot_time_ms));
        put_member(&mut m, "max_memory_bytes", Json::unsigned(self.max_memory_bytes));
        Json::Object(m)
    }
}

/// A residual as a JSON value.
pub open spec fn residual_value(residual: CanonicalResidual) -> JsonModel {
    let m = one_member("query"@, residual.query@);
    let m = with_member(
        m,
        "filter_fully_projected"@,
        JsonModel::Bool(residual.filter_fully_projected),
    );
    JsonModel::Object(m)
}

/// An optional number as a JSON value.
pub open spec fn optional_count(value: Option<u64>) -> JsonModel {
    match value {
        Some(value) => count_value(value as int),
        None => JsonModel::Null,
    }
}

/// The values of a list.
pub open spec fn order_values(items: Seq<HostedOrder>) -> Seq<JsonModel> {
    Seq::new(items.len(), |i: int| order_value(items[i]))
}

/// The values of a list.
pub open spec fn group_values(items: Seq<HostedGroup>) -> Seq<JsonModel> {
    Seq::new(items.len(), |i: int| group_value(items[i]))
}

/// The values of a list.
pub open spec fn aggregate_values(items: Seq<HostedAggregate>) -> Seq<JsonModel> {
    Seq::new(items.len(), |i: int| aggregate_value(items[i]))
}

fn orders_to_json(items: &Vec<HostedOrder>) -> (result: Json)
    ensures
        result@ == JsonModel::Array(order_values(items@)),
{
    let mut list: Vec<Json> = Vec::new();
    let mut i: usize = 0;
    while i < items.len()
        invariant
            i <= items@.len(),
            list@.len() == i,
            forall|k: int| 0 <= k < i ==> (#[trigger] list@[k])@ == order_value(items@[k]),
        decreases items@.len() - i,
    {
        list.push(items[i].to_json());
        i = i + 1;
    }
    proof {
        crate::json::lemma_array_model(list);
        assert(item_models(list@) =~= order_values(items@));
    }
    Json::Array(list)
}

fn groups_to_json(items: &Vec<HostedGroup>) -> (result: Json)
    ensures
        result@ == JsonModel::Array(group_values(items@)),
{
    let mut list: Vec<Json> = Vec::new();
    let mut i: usize = 0;
    while i < items.len()
        invariant
            i <= items@.len(),
            list@.len() == i,
            forall|k: int| 0 <= k < i ==> (#[trigger] list@[k])@ == group_value(items@[k]),
        decreases items@.len() - i,
    {
        list.push(items[i].to_json());
        i = i + 1;
    }
    proof {
        crate::json::lemma_array_model(list);
        assert(item_models(list@) =~= group_values(items@));
    }
    Json::Array(list)
}

fn aggregates_to_json(items: &Vec<HostedAggregate>) -> (result: Json)
    ensures
        result@ == JsonModel::Array(aggregate_values(items@)),
{
    let mut list: Vec<Json> = Vec::new();
    let mut i: usize = 0;
    while i < items.len()
        invariant
            i <= items@.len(),
            list@.len() == i,
            forall|k: int| 0 <= k < i ==> (#[trigger] list@[k])@ == aggregate_value(items@[k]),
        decreases items@.len() - i,
    {
        list.push(items[i].to_json());
        i = i + 1;
    }
    proof {
        crate::json::lemma_array_model(list);
        assert(item_models(list@) =~= aggregate_values(items@));
    }
    Json::Array(list)
}

/// The plan as a JSON value, with an empty plan digest.
pub open spec fn unsigned_plan(plan: HostedQueryPlan) -> JsonModel {
    let m = one_member("version"@, count_value(plan.version as int));
    let m = with_member(
        m,
        "semantic_engine_version"@,
        JsonModel::Text(plan.semantic_engine_version@),
    );
    let m = with_member(m, "catalog_revision"@, JsonModel::Text(plan.catalog_revision@));
    let m = with_member(
        m,
        "canonical_query_digest"@,
        JsonModel::Text(plan.canonical_query_digest@),
    );
    let m = with_member(m, "plan_digest"@, JsonModel::Text(Seq::empty()));
    let m = with_member(m, "candidate"@, predicate_value(plan.candidate@));
    let m = with_member(m, "residual"@, residual_value(plan.residual));
    let m = with_member(m, "order"@, JsonModel::Array(order_values(plan.order@)));
    let m = with_member(m, "groups"@, JsonModel::Array(group_values(plan.groups@)));
    let m = with_member(m, "aggregates"@, JsonModel::Array(aggregate_values(plan.aggregates@)));
    let m = with_member(m, "page_size"@, count_value(plan.page_size as int));
    let m = with_member(m, "requested_limit"@, optional_count(plan.requested_limit));
    let m = with_member(m, "offset"@, count_value(plan.offset as int));
    let m = with_member(m, "requirements"@, requirements_value(plan.requirements));
    let m = with_member(m, "budgets"@, budgets_value(plan.budgets));
    JsonModel::Object(m)
}

/// Whether a plan carries its version and its own digest.
pub open spec fn is_sealed(plan: HostedQueryPlan) -> bool {
    plan.version == HOSTED_QUERY_PLAN_VERSION && json_digest(unsigned_plan(plan)) == Some(
        plan.plan_digest@,
    )
}

impl HostedQueryPlan {
    fn unsigned_json(&self) -> (result: Json)
        ensures
            result@ == unsigned_plan(*self),
    {
        broadcast use crate::json::lemma_object_model;

        let empty = String::new();
        let mut m = object_of_one("version", Json::unsigned(self.version as u64));
        put_member(
            &mut m,
            "semantic_engine_version",
            Json::text(self.semantic_engine_version.as_str()),
        );
        put_member(&mut m, "catalog_revision", Json::text(self.catalog_revision.as_str()));
        put_member(
            &mut m,
            "canonical_query_digest",
            Json::text(self.canonical_query_digest.as_str()),
        );
        put_member(&mut m, "plan_digest", Json::text(empty.as_str()));
        put_member(&mut m, "candidate", self.candidate.to_json());
        let mut residual = object_of_one("query", self.residual.query.copy());
        put_member(
            &mut residual,
            "filter_fully_projected",
            Json::Bool(self.residual.filter_fully_projected),
        );
        put_member(&mut m, "residual", Json::Object(residual));
        put_member(&mut m, "order", orders_to_json(&self.order));
        put_member(&mut m, "groups", groups_to_json(&self.groups));
        put_member(&mut m, "aggregates", aggregates_to_json(&self.aggregates));
        put_member(&mut m, "page_size", Json::unsigned(self.page_size));
        put_member(
            &mut m,
            "requested_limit",
            match self.requested_limit {
                Some(limit) => Json::unsigned(limit),
                None => Json::Null,
            },
        );
        put_member(&mut m, "offset", Json::unsigned(self.offset));
        put_member(&mut m, "requirements", self.requirements.to_json());
        put_member(&mut m, "budgets", self.budgets.to_json());
        Json::Object(m)
    }

    /// The digest of the plan with an empty plan digest.
    pub fn integrity_digest(&self) -> (result: Result<String, CatalogError>)
        ensures
            match result {
                Ok(digest) => json_digest(unsigned_plan(*self)) == Some(digest@),
                Err(error) => json_digest(unsigned_plan(*self)) is None && error.code@
                    == "invalid_hosted_query_plan"@,
            },
    {
        match digest_json(&self.unsigned_json()) {
            Ok(digest) => Ok(digest),
            Err(reason) => Err(
                CatalogError {
                    code: "invalid_hosted_query_plan".to_owned(),
                    message: "Hosted query plan could not be canonicalized: ".to_owned().concat(
                        reason.as_str(),
                    ),
                },
            ),
        }
    }

    /// Checks that every field still matches the digest taken at compilation.
    pub fn validate_integrity(&self) -> (result: Result<(), CatalogError>)
        ensures
            result is Ok <==> is_sealed(*self),
            match result {
                Ok(_) => true,
                Err(error) => if self.version == HOSTED_QUERY_PLAN_VERSION && json_digest(
                    unsigned_plan(*self),
                ) is None {
                    error.code@ == "invalid_hosted_query_plan"@
                } else {
                    error.is(
                        "hosted_query_plan_mismatch"@,
                        "Hosted query plan integrity validation failed."@,
                    )
                },
            },
    {
        if self.version == HOSTED_QUERY_PLAN_VERSION {
            match self.integrity_digest() {
                Err(error) => {
                    return Err(error);
                },
                Ok(digest) => {
                    if digest == self.plan_digest {
                        return Ok(());
                    }
                },
            }
        }
        Err(
            CatalogError::new(
                "hosted_query_plan_mismatch",
                "Hosted query plan integrity validation failed.",
            ),
        )
    }
}

} // verus!
