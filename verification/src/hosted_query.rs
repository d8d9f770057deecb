//! Compiling queries to closed hosted plans, and judging records by them.

use crate::collection::{field_at, find_field, Collection, FieldDef, TypeDefinition};
use crate::diagnostics::CatalogError;
use crate::expressions::Expr;
use crate::hosted_plan::{
    lemma_and_model, lemma_or_model, predicate_models, CandidateField, CandidatePredicate,
    FieldModel, HostedScalarKind, PredicateModel,
};
use crate::json::{
    drop_member, lemma_lookup_without_member, lookup, without_member, Json, JsonModel,
};
use crate::lowering::{lowered, lowered_model, LoweredPredicate};
use crate::ordering::HostedOrderDirection;
use crate::planner::EvaluationError;
use crate::text::{
    eq_ignore_ascii_case, lower_case, same_ignoring_case, same_text, texts, to_lower_case,
};
use vstd::prelude::*;
use vstd::string::StringExecFns;

verus! {

/// A compiled catalog of record semantics. It holds no records.
#[derive(Debug)]
pub struct CompiledCatalog {
    pub resource_revision: String,
    pub engine_version: String,
    pub collection: Collection,
}

/// One ordering or grouping term of a query.
#[derive(Debug)]
pub struct QueryOrder {
    pub field: String,
    pub direction: HostedOrderDirection,
}

/// One summary of a query.
#[derive(Debug)]
pub struct QuerySummary {
    pub field: String,
    pub function: String,
    pub name: Option<String>,
}

/// A decoded query.
#[derive(Debug)]
pub struct QueryEnvelope {
    pub types: Vec<String>,
    /// The source of the filter.
    pub filter: Option<String>,
    pub order_by: Vec<QueryOrder>,
    pub group_by: Vec<QueryOrder>,
    pub summaries: Vec<QuerySummary>,
    /// The names of the query's own summary functions.
    pub summary_functions: Vec<String>,
    pub limit: Option<u64>,
    pub offset: u64,
    pub include_body: bool,
    pub has_projections: bool,
    pub has_select: bool,
    pub pagination: Option<String>,
}

/// What a query needs beyond the record itself.
#[derive(Debug, Clone, Copy, PartialEq, Eq)]
pub struct PreflightFacts {
    pub this_context: bool,
    pub link_graph: bool,
    pub file_body_metadata: bool,
}

/// What is known of a query beside its members.
#[derive(Debug)]
pub struct QueryFacts {
    /// The messages of schema violations.
    pub schema_errors: Vec<String>,
    /// What preparing the query found, or the messages of its errors.
    pub preflight: Result<PreflightFacts, Vec<String>>,
    pub timezone_error: Option<String>,
    /// What parsing the filter gave. Not read where the query has no filter.
    pub filter: Result<Expr, EvaluationError>,
}

// ---------------------------------------------------------------------------
// The canonical query
// ---------------------------------------------------------------------------
/// The members of a query that are not transport controls.
pub open spec fn semantic_members(members: Seq<(Seq<char>, JsonModel)>) -> Seq<
    (Seq<char>, JsonModel),
> {
    let m = without_member(members, "pagination"@);
    let m = without_member(m, "cursor"@);
    let m = without_member(m, "release_cursor"@);
    let m = without_member(m, "snapshot"@);
    let m = without_member(m, "limit"@);
    without_member(m, "offset"@)
}

/// The query without transport controls, so that page size and position do not
/// change its meaning.
pub fn semantic_query_input(input: &Json) -> (result: Result<Json, CatalogError>)
    ensures
        match result {
            Ok(value) => input@ is Object && value@ == JsonModel::Object(
                semantic_members(input@->Object_0),
            ),
            Err(error) => !(input@ is Object) && error.is(
                "invalid_query"@,
                "Hosted query input must be an object."@,
            ),
        },
{
    broadcast use crate::json::lemma_object_model;

    match input.as_object() {
        None => Err(
            CatalogError::new("invalid_query", "Hosted query input must be an object."),
        ),
        Some(members) => {
            let m = drop_member(members, "pagination");
            let m = drop_member(&m, "cursor");
            let m = drop_member(&m, "release_cursor");
            let m = drop_member(&m, "snapshot");
            let m = drop_member(&m, "limit");
            let m = drop_member(&m, "offset");
            Ok(Json::Object(m))
        },
    }
}

/// Whether a member of a query controls transport alone.
pub open spec fn is_control(key: Seq<char>) -> bool {
    key == "pagination"@ || key == "cursor"@ || key == "release_cursor"@ || key == "snapshot"@
        || key == "limit"@ || key == "offset"@
}

/// The canonical query keeps every member that is no transport control, and no
/// other.
pub proof fn lemma_semantic_lookup(members: Seq<(Seq<char>, JsonModel)>, key: Seq<char>)
    ensures
        lookup(semantic_members(members), key) == if is_control(key) {
            None
        } else {
            lookup(members, key)
        },
{
    let m = members;
    lemma_lookup_without_member(m, "pagination"@, key);
    let m = without_member(m, "pagination"@);
    lemma_lookup_without_member(m, "cursor"@, key);
    let m = without_member(m, "cursor"@);
    lemma_lookup_without_member(m, "release_cursor"@, key);
    let m = without_member(m, "release_cursor"@);
    lemma_lookup_without_member(m, "snapshot"@, key);
    let m = without_member(m, "snapshot"@);
    lemma_lookup_without_member(m, "limit"@, key);
    let m = without_member(m, "limit"@);
    lemma_lookup_without_member(m, "offset"@, key);
}

/// Transport controls never change the canonical query: queries that differ
/// only in a control have the same meaning, and so the same query digest.
pub proof fn lemma_controls_do_not_matter(
    members: Seq<(Seq<char>, JsonModel)>,
    control: Seq<char>,
)
    requires
        is_control(control),
    ensures
        semantic_members(without_member(members, control)) == semantic_members(members),
{
    let a = "pagination"@;
    let b = "cursor"@;
    let c = "release_cursor"@;
    let d = "snapshot"@;
    let e = "limit"@;
    let f = "offset"@;
    lemma_without_order(members, a, control);
    let m = without_member(members, a);
    lemma_without_order(m, b, control);
    let m = without_member(m, b);
    lemma_without_order(m, c, control);
    let m = without_member(m, c);
    lemma_without_order(m, d, control);
    let m = without_member(m, d);
    lemma_without_order(m, e, control);
    let m = without_member(m, e);
    lemma_without_order(m, f, control);
    let m = without_member(m, f);
    lemma_absent_everywhere(members, control);
    lemma_without_absent(m, control);
}

/// Keys may be removed in any order.
proof fn lemma_without_order(
    members: Seq<(Seq<char>, JsonModel)>,
    first: Seq<char>,
    second: Seq<char>,
)
    ensures
        without_member(without_member(members, second), first) == without_member(
            without_member(members, first),
            second,
        ),
    decreases members.len(),
{
    if members.len() > 0 {
        let front = members.drop_last();
        let last = members.last();
        lemma_without_order(front, first, second);
        lemma_without_push(without_member(front, first), last, second);
        lemma_without_push(without_member(front, second), last, first);
    }
}

proof fn lemma_without_push(
    members: Seq<(Seq<char>, JsonModel)>,
    last: (Seq<char>, JsonModel),
    key: Seq<char>,
)
    ensures
        without_member(members.push(last), key) == if last.0 == key {
            without_member(members, key)
        } else {
            without_member(members, key).push(last)
        },
{
    assert(members.push(last).drop_last() =~= members);
}

/// Whether no member has a key.
spec fn lacks(members: Seq<(Seq<char>, JsonModel)>, key: Seq<char>) -> bool {
    forall|i: int| 0 <= i < members.len() ==> (#[trigger] members[i]).0 != key
}

proof fn lemma_without_absent(members: Seq<(Seq<char>, JsonModel)>, key: Seq<char>)
    requires
        lacks(members, key),
    ensures
        without_member(members, key) == members,
    decreases members.len(),
{
    if members.len() > 0 {
        let front = members.drop_last();
        assert forall|i: int| 0 <= i < front.len() implies (#[trigger] front[i]).0 != key by {
            assert(front[i] == members[i]);
        }
        lemma_without_absent(front, key);
        assert(front.push(members.last()) =~= members);
    }
}

proof fn lemma_without_lacks(
    members: Seq<(Seq<char>, JsonModel)>,
    key: Seq<char>,
    other: Seq<char>,
)
    ensures
        lacks(without_member(members, key), key),
        lacks(members, other) ==> lacks(without_member(members, key), other),
    decreases members.len(),
{
    if members.len() > 0 {
        let front = members.drop_last();
        lemma_without_lacks(front, key, other);
        if lacks(members, other) {
            assert forall|i: int| 0 <= i < front.len() implies (#[trigger] front[i]).0 != other by {
                assert(front[i] == members[i]);
            }
            assert(members[members.len() - 1].0 != other);
        }
    }
}

proof fn lemma_absent_everywhere(members: Seq<(Seq<char>, JsonModel)>, control: Seq<char>)
    requires
        is_control(control),
    ensures
        lacks(semantic_members(members), control),
{
    let m = members;
    lemma_without_lacks(m, "pagination"@, control);
    let m = without_member(m, "pagination"@);
    lemma_without_lacks(m, "cursor"@, control);
    let m = without_member(m, "cursor"@);
    lemma_without_lacks(m, "release_cursor"@, control);
    let m = without_member(m, "release_cursor"@);
    lemma_without_lacks(m, "snapshot"@, control);
    let m = without_member(m, "snapshot"@);
    lemma_without_lacks(m, "limit"@, control);
    let m = without_member(m, "limit"@);
    lemma_without_lacks(m, "offset"@, control);
}

// ---------------------------------------------------------------------------
// Scalar kinds
// ---------------------------------------------------------------------------
/// The scalar kind of a field type.
pub open spec fn kind_of_type(name: Seq<char>) -> Option<HostedScalarKind> {
    if name == "string"@ || name == "date"@ || name == "datetime"@ || name == "time"@ || name
        == "duration"@ || name == "link"@ || name == "path"@ || name == "enum"@ {
        Some(HostedScalarKind::String)
    } else if name == "number"@ || name == "integer"@ {
        Some(HostedScalarKind::Number)
    } else if name == "boolean"@ {
        Some(HostedScalarKind::Boolean)
    } else {
        None
    }
}

fn scalar_kind_of_type(name: &str) -> (result: Option<HostedScalarKind>)
    ensures
        result == kind_of_type(name@),
{
    if same_text(name, "string") || same_text(name, "date") || same_text(name, "datetime")
        || same_text(name, "time") || same_text(name, "duration") || same_text(name, "link")
        || same_text(name, "path") || same_text(name, "enum") {
        Some(HostedScalarKind::String)
    } else if same_text(name, "number") || same_text(name, "integer") {
        Some(HostedScalarKind::Number)
    } else if same_text(name, "boolean") {
        Some(HostedScalarKind::Boolean)
    } else {
        None
    }
}

/// The scalar kind of the field at a path, from position `from` on.
pub open spec fn field_kind(
    fields: Seq<FieldDef>,
    path: Seq<Seq<char>>,
    from: nat,
) -> Option<HostedScalarKind>
    decreases path.len() - from,
{
    if from >= path.len() {
        None
    } else {
        let at = field_at(fields, path[from as int]);
        if at >= fields.len() {
            None
        } else if from + 1 == path.len() {
            kind_of_type(fields[at].field_type@)
        } else {
            match fields[at].fields {
                Some(inner) => field_kind(inner@, path, from + 1),
                None => None,
            }
        }
    }
}

pub fn field_scalar_kind(fields: &Vec<FieldDef>, path: &Vec<String>, from: usize) -> (result:
    Option<HostedScalarKind>)
    requires
        from <= path@.len(),
    ensures
        result == field_kind(fields@, texts(path@), from as nat),
    decreases path@.len() - from,
{
    if from >= path.len() {
        return None;
    }
    match find_field(fields, path[from].as_str()) {
        None => None,
        Some(at) => if from + 1 == path.len() {
            scalar_kind_of_type(fields[at].field_type.as_str())
        } else {
            match &fields[at].fields {
                Some(inner) => field_scalar_kind(inner, path, from + 1),
                None => None,
            }
        },
    }
}

/// The position of the first type with a name, up to case; the number of types
/// without one.
pub open spec fn type_ignoring_case(types: Seq<TypeDefinition>, name: Seq<char>) -> int
    decreases types.len(),
{
    if types.len() == 0 || same_ignoring_case(types[0].name@, name) {
        0
    } else {
        1 + type_ignoring_case(types.drop_first(), name)
    }
}

fn find_type_ignoring_case(types: &Vec<TypeDefinition>, name: &str) -> (result: Option<usize>)
    ensures
        match result {
            Some(i) => i < types@.len() && i == type_ignoring_case(types@, name@),
            None => type_ignoring_case(types@, name@) == types@.len(),
        },
{
    let mut i: usize = 0;
    proof {
        assert(types@.skip(0) =~= types@);
    }
    while i < types.len()
        invariant
            i <= types@.len(),
            type_ignoring_case(types@, name@) == i + type_ignoring_case(
                types@.skip(i as int),
                name@,
            ),
        decreases types@.len() - i,
    {
        proof {
            assert(types@.skip(i as int).drop_first() =~= types@.skip(i + 1));
        }
        if eq_ignore_ascii_case(types[i].name.as_str(), name) {
            return Some(i);
        }
        i = i + 1;
    }
    None
}

/// The kind of a field path in one type.
pub open spec fn kind_in_type(
    types: Seq<TypeDefinition>,
    name: Seq<char>,
    path: Seq<Seq<char>>,
) -> Option<HostedScalarKind> {
    let at = type_ignoring_case(types, name);
    if at < types.len() {
        field_kind(types[at].fields@, path, 0)
    } else {
        None
    }
}

/// The one kind that a field path has in all the first selected types; nothing
/// where a type lacks it or two differ.
pub open spec fn common_kind(
    types: Seq<TypeDefinition>,
    selected: Seq<Seq<char>>,
    path: Seq<Seq<char>>,
    count: nat,
) -> Option<HostedScalarKind>
    decreases count,
{
    if count == 0 || count > selected.len() {
        None
    } else {
        let kind = kind_in_type(types, selected[count - 1], path);
        if count == 1 || common_kind(types, selected, path, (count - 1) as nat) == kind {
            kind
        } else {
            None
        }
    }
}

/// The scalar kind that the schemas prove for a field.
pub open spec fn scalar_kind(
    field: FieldModel,
    selected: Seq<Seq<char>>,
    types: Seq<TypeDefinition>,
) -> Option<HostedScalarKind> {
    match field {
        FieldModel::Path => Some(HostedScalarKind::String),
        FieldModel::File(name) => if name == "path"@ || name == "name"@ || name
            == "basename"@ || name == "ext"@ || name == "extension"@ || name == "mtime"@ {
            Some(HostedScalarKind::String)
        } else if name == "size"@ {
            Some(HostedScalarKind::Number)
        } else {
            None
        },
        FieldModel::PersistedFrontmatter(path) => if path.len() == 0 {
            None
        } else {
            common_kind(types, selected, path, selected.len())
        },
        FieldModel::EffectiveFrontmatter(path) => if path.len() == 0 {
            None
        } else {
            common_kind(types, selected, path, selected.len())
        },
        FieldModel::Types => None,
        FieldModel::BodyTags => None,
    }
}

proof fn lemma_common_kind_none(
    types: Seq<TypeDefinition>,
    selected: Seq<Seq<char>>,
    path: Seq<Seq<char>>,
    low: nat,
    high: nat,
)
    requires
        1 <= low <= high <= selected.len(),
        common_kind(types, selected, path, low) is None,
    ensures
        common_kind(types, selected, path, high) is None,
    decreases high,
{
    if low < high {
        lemma_common_kind_none(types, selected, path, low, (high - 1) as nat);
    }
}

fn find_common_kind(
    types: &Vec<TypeDefinition>,
    selected: &Vec<String>,
    path: &Vec<String>,
) -> (result: Option<HostedScalarKind>)
    ensures
        result == common_kind(types@, texts(selected@), texts(path@), selected@.len()),
{
    let mut proven: Option<HostedScalarKind> = None;
    let mut i: usize = 0;
    while i < selected.len()
        invariant
            i <= selected@.len(),
            proven == common_kind(types@, texts(selected@), texts(path@), i as nat),
            i > 0 ==> proven is Some,
        decreases selected@.len() - i,
    {
        let kind = match find_type_ignoring_case(types, selected[i].as_str()) {
            Some(at) => field_scalar_kind(&types[at].fields, path, 0),
            None => None,
        };
        let differs = match (proven, kind) {
            (Some(a), Some(b)) => a != b,
            _ => false,
        };
        if kind.is_none() || differs {
            proof {
                assert(common_kind(types@, texts(selected@), texts(path@), (i + 1) as nat) is None);
                lemma_common_kind_none(
                    types@,
                    texts(selected@),
                    texts(path@),
                    (i + 1) as nat,
                    selected@.len(),
                );
            }
            return None;
        }
        proven = kind;
        i = i + 1;
    }
    proven
}

pub fn hosted_scalar_kind(
    field: &CandidateField,
    selected: &Vec<String>,
    types: &Vec<TypeDefinition>,
) -> (result: Option<HostedScalarKind>)
    ensures
        result == scalar_kind(field@, texts(selected@), types@),
{
    match field {
        CandidateField::Path => Some(HostedScalarKind::String),
        CandidateField::File(name) => {
            let name = name.as_str();
            if same_text(name, "path") || same_text(name, "name") || same_text(name, "basename")
                || same_text(name, "ext") || same_text(name, "extension") || same_text(
                name,
                "mtime",
            ) {
                Some(HostedScalarKind::String)
            } else if same_text(name, "size") {
                Some(HostedScalarKind::Number)
            } else {
                None
            }
        },
        CandidateField::PersistedFrontmatter(path) => if path.len() == 0 {
            None
        } else {
            find_common_kind(types, selected, path)
        },
        CandidateField::EffectiveFrontmatter(path) => if path.len() == 0 {
            None
        } else {
            find_common_kind(types, selected, path)
        },
        CandidateField::Types => None,
        CandidateField::BodyTags => None,
    }
}

// ---------------------------------------------------------------------------
// Conditions
// ---------------------------------------------------------------------------
/// How many conditions a condition is made of.
pub open spec fn node_count(predicate: PredicateModel) -> nat
    decreases predicate, 0nat,
{
    match predicate {
        PredicateModel::And(terms) => 1 + nodes_among(terms, terms.len()),
        PredicateModel::Or(terms) => 1 + nodes_among(terms, terms.len()),
        PredicateModel::Not(term) => 1 + node_count(*term),
        _ => 1,
    }
}

/// How many conditions the first of some conditions are made of.
pub open spec fn nodes_among(terms: Seq<PredicateModel>, count: nat) -> nat
    decreases terms, count,
{
    if count == 0 || count > terms.len() {
        0
    } else {
        nodes_among(terms, (count - 1) as nat) + node_count(terms[count - 1])
    }
}

/// A count, at most the largest machine number.
pub open spec fn capped(count: nat) -> int {
    if count <= usize::MAX {
        count as int
    } else {
        usize::MAX as int
    }
}

pub fn predicate_nodes(predicate: &CandidatePredicate) -> (result: usize)
    ensures
        result == capped(node_count(predicate@)),
    decreases predicate,
{
    match predicate {
        CandidatePredicate::And { terms } => {
            proof {
                lemma_and_model(*terms);
            }
            nodes_of(terms).saturating_add(1)
        },
        CandidatePredicate::Or { terms } => {
            proof {
                lemma_or_model(*terms);
            }
            nodes_of(terms).saturating_add(1)
        },
        CandidatePredicate::Not { term } => predicate_nodes(term).saturating_add(1),
        _ => 1,
    }
}

fn nodes_of(terms: &Vec<CandidatePredicate>) -> (result: usize)
    ensures
        result == capped(nodes_among(predicate_models(terms@), terms@.len())),
    decreases terms,
{
    let ghost models = predicate_models(terms@);
    let mut total: usize = 0;
    let mut i: usize = 0;
    while i < terms.len()
        invariant
            i <= terms@.len(),
            models == predicate_models(terms@),
            total == capped(nodes_among(models, i as nat)),
        decreases terms@.len() - i,
    {
        let count = predicate_nodes(&terms[i]);
        proof {
            assert(models[i as int] == terms@[i as int]@);
            assert(nodes_among(models, (i + 1) as nat) == nodes_among(models, i as nat)
                + node_count(models[i as int]));
        }
        total = total.saturating_add(count);
        i = i + 1;
    }
    total
}

/// The condition that a record has one of the types.
pub open spec fn type_condition(types: Seq<Seq<char>>) -> PredicateModel {
    PredicateModel::Or(
        Seq::new(types.len(), |i: int| PredicateModel::HasType(lower_case(types[i]))),
    )
}

/// The condition of a plan: on types where the query names any, and the lowered
/// filter where there is one.
pub open spec fn plan_condition(
    types: Seq<Seq<char>>,
    filter: Option<(PredicateModel, bool)>,
) -> PredicateModel {
    match filter {
        None => if types.len() == 0 {
            PredicateModel::All
        } else {
            type_condition(types)
        },
        Some((condition, _)) => if types.len() == 0 {
            condition
        } else {
            PredicateModel::And(seq![type_condition(types), condition])
        },
    }
}

fn build_type_condition(types: &Vec<String>) -> (result: CandidatePredicate)
    ensures
        result@ == type_condition(texts(types@)),
{
    let mut terms: Vec<CandidatePredicate> = Vec::new();
    let mut i: usize = 0;
    while i < types.len()
        invariant
            i <= types@.len(),
            terms@.len() == i,
            forall|k: int|
                0 <= k < i ==> (#[trigger] terms@[k])@ == PredicateModel::HasType(
                    lower_case(types@[k]@),
                ),
        decreases types@.len() - i,
    {
        terms.push(
            CandidatePredicate::HasType { record_type: to_lower_case(types[i].as_str()) },
        );
        i = i + 1;
    }
    proof {
        lemma_or_model(terms);
        assert(predicate_models(terms@) =~= Seq::new(
            texts(types@).len(),
            |i: int| PredicateModel::HasType(lower_case(texts(types@)[i])),
        ));
    }
    CandidatePredicate::Or { terms }
}

/// Joins the type condition and the lowered filter.
pub fn conjunction(types: &Vec<String>, filter: Option<LoweredPredicate>) -> (result:
    CandidatePredicate)
    ensures
        result@ == plan_condition(texts(types@), lowered_model(filter)),
{
    match filter {
        None => if types.len() == 0 {
            CandidatePredicate::All
        } else {
            build_type_condition(types)
        },
        Some(lowered) => if types.len() == 0 {
            lowered.predicate
        } else {
            let mut terms: Vec<CandidatePredicate> = Vec::new();
            let first = build_type_condition(types);
            let ghost models = seq![first@, lowered.predicate@];
            terms.push(first);
            terms.push(lowered.predicate);
            proof {
                lemma_and_model(terms);
                assert(predicate_models(terms@) =~= models);
            }
            CandidatePredicate::And { terms }
        },
    }
}

/// Whether a summary function is built in.
pub open spec fn is_built_in(name: Seq<char>) -> bool {
    name == "count"@ || name == "sum"@ || name == "average"@ || name == "minimum"@ || name
        == "maximum"@ || name == "earliest"@ || name == "latest"@ || name == "empty"@ || name
        == "filled"@
}

pub fn is_builtin_summary(name: &str) -> (result: bool)
    ensures
        result == is_built_in(name@),
{
    same_text(name, "count") || same_text(name, "sum") || same_text(name, "average") || same_text(
        name,
        "minimum",
    ) || same_text(name, "maximum") || same_text(name, "earliest") || same_text(name, "latest")
        || same_text(name, "empty") || same_text(name, "filled")
}

} // verus!
