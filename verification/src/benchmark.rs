//! A projection of records for measuring storage, and a closed evaluator of
//! candidate expressions on it.

use crate::canonical::{digest_json, json_digest};
use crate::diagnostics::{CatalogError, Diagnostic, OperationResult};
use crate::catalog::ExactRecord;
use crate::hosted_mutation::{fault, fault_of};
use crate::hosted_query::CompiledCatalog;
use crate::json::{
    copy_members, item_models, items_contain, lemma_array_model, lemma_object_model, lists_value,
    lookup, member_models, member_of, no_members, put, put_entry, same_json, text_models, Json,
    JsonModel, Member, NumberModel,
};
use crate::lowering::{find_below, value_below};
use crate::numbers::{compare_numbers, number_order};
use crate::text::{
    bool_order, chars_of, compare_text, contains_text, copy_texts, ends_with, find_last, has_part,
    has_prefix, has_suffix, last_at, last_part, list_contains, lists_text, lower_case, order_bool,
    part_after_slash, same_text, split_first, split_on, split_once, split_text, starts_with,
    text_between, text_order, texts, to_lower_case, Order,
};
use vstd::prelude::*;
use vstd::string::StringExecFns;

verus! {

pub const PROJECTION_SCHEMA_VERSION: &'static str = "hosted-benchmark-projection-v1";

// ---------------------------------------------------------------------------
// Pairs
// ---------------------------------------------------------------------------
/// Two texts.
#[derive(Debug, PartialEq, Eq)]
pub struct TextPair {
    pub first: String,
    pub second: String,
}

pub open spec fn pair_models(pairs: Seq<TextPair>) -> Seq<(Seq<char>, Seq<char>)> {
    Seq::new(pairs.len(), |i: int| (pairs[i].first@, pairs[i].second@))
}

/// The order of pairs: by the first text, and then by the second.
pub open spec fn pair_order(left: (Seq<char>, Seq<char>), right: (Seq<char>, Seq<char>)) -> Order {
    if text_order(left.0, right.0) != Order::Equal {
        text_order(left.0, right.0)
    } else {
        text_order(left.1, right.1)
    }
}

/// A pair in its place in an ascending list, once.
pub open spec fn with_pair(
    pairs: Seq<(Seq<char>, Seq<char>)>,
    pair: (Seq<char>, Seq<char>),
) -> Seq<(Seq<char>, Seq<char>)>
    decreases pairs.len(),
{
    if pairs.len() == 0 {
        seq![pair]
    } else {
        match pair_order(pair, pairs[0]) {
            Order::Less => seq![pair] + pairs,
            Order::Equal => pairs,
            Order::Greater => seq![pairs[0]] + with_pair(pairs.drop_first(), pair),
        }
    }
}

/// The pairs of a list, each once and in ascending order.
pub open spec fn sorted_pairs(pairs: Seq<(Seq<char>, Seq<char>)>) -> Seq<(Seq<char>, Seq<char>)>
    decreases pairs.len(),
{
    if pairs.len() == 0 {
        Seq::empty()
    } else {
        with_pair(sorted_pairs(pairs.drop_last()), pairs.last())
    }
}

proof fn lemma_with_pair_at(
    pairs: Seq<(Seq<char>, Seq<char>)>,
    pair: (Seq<char>, Seq<char>),
    at: int,
)
    requires
        0 <= at <= pairs.len(),
        forall|k: int| 0 <= k < at ==> pair_order(pair, #[trigger] pairs[k]) == Order::Greater,
        at < pairs.len() ==> pair_order(pair, pairs[at]) != Order::Greater,
    ensures
        with_pair(pairs, pair) == if at < pairs.len() && pair_order(pair, pairs[at])
            == Order::Equal {
            pairs
        } else {
            pairs.insert(at, pair)
        },
    decreases at,
{
    let result = with_pair(pairs, pair);
    if at == 0 {
        if !(pairs.len() > 0 && pair_order(pair, pairs[0]) == Order::Equal) {
            assert(result =~= pairs.insert(0, pair));
        }
    } else {
        assert(pair_order(pair, pairs[0]) == Order::Greater);
        let rest = pairs.drop_first();
        assert forall|k: int| 0 <= k < at - 1 implies pair_order(pair, #[trigger] rest[k])
            == Order::Greater by {
            assert(rest[k] == pairs[k + 1]);
        }
        lemma_with_pair_at(rest, pair, at - 1);
        if at < pairs.len() && pair_order(pair, pairs[at]) == Order::Equal {
            assert(result =~= pairs);
        } else {
            assert(result =~= pairs.insert(at, pair));
        }
    }
}

fn compare_pairs(left: &TextPair, right: &TextPair) -> (result: Order)
    ensures
        result == pair_order((left.first@, left.second@), (right.first@, right.second@)),
{
    let first = compare_text(left.first.as_str(), right.first.as_str());
    if !first.is_eq() {
        return first;
    }
    compare_text(left.second.as_str(), right.second.as_str())
}

fn insert_pair(pairs: &mut Vec<TextPair>, first: &str, second: &str)
    ensures
        pair_models(final(pairs)@) == with_pair(pair_models(old(pairs)@), (first@, second@)),
{
    let pair = TextPair { first: first.to_owned(), second: second.to_owned() };
    let ghost model = (first@, second@);
    let ghost models = pair_models(pairs@);
    let mut at: usize = 0;
    while at < pairs.len() && compare_pairs(&pair, &pairs[at]).is_gt()
        invariant
            at <= pairs@.len(),
            model == (pair.first@, pair.second@),
            models == pair_models(pairs@),
            forall|k: int|
                0 <= k < at ==> pair_order(model, #[trigger] models[k]) == Order::Greater,
        decreases pairs@.len() - at,
    {
        proof {
            assert(models[at as int] == (pairs@[at as int].first@, pairs@[at as int].second@));
        }
        at = at + 1;
    }
    proof {
        if at < pairs@.len() {
            assert(models[at as int] == (pairs@[at as int].first@, pairs@[at as int].second@));
        }
        lemma_with_pair_at(models, model, at as int);
    }
    if at < pairs.len() && compare_pairs(&pair, &pairs[at]).is_eq() {
        return ;
    }
    pairs.insert(at, pair);
    proof {
        assert(pair_models(pairs@) =~= models.insert(at as int, model));
    }
}

// ---------------------------------------------------------------------------
// Projections
// ---------------------------------------------------------------------------
#[derive(Debug, PartialEq, Eq)]
pub struct BenchmarkFileFacts {
    pub path: String,
    pub name: String,
    pub basename: String,
    pub extension: String,
    pub size: u64,
    pub mtime: String,
}

#[derive(Debug, PartialEq, Eq)]
pub struct ProjectionRelationship {
    pub kind: String,
    pub target: String,
}

#[derive(Debug, PartialEq, Eq)]
pub struct BenchmarkDiagnostic {
    pub code: String,
    pub severity: String,
}

#[derive(Debug, PartialEq, Eq)]
pub struct BenchmarkProjection {
    pub schema_version: String,
    pub path: String,
    pub types: Vec<String>,
    pub file: BenchmarkFileFacts,
    pub persisted_frontmatter: Vec<Member>,
    pub effective_frontmatter: Vec<Member>,
    pub relationships: Vec<ProjectionRelationship>,
    pub diagnostics: Vec<BenchmarkDiagnostic>,
}

pub open spec fn relationship_models(list: Seq<ProjectionRelationship>) -> Seq<
    (Seq<char>, Seq<char>),
> {
    Seq::new(list.len(), |i: int| (list[i].kind@, list[i].target@))
}

pub open spec fn diagnostic_pairs(list: Seq<BenchmarkDiagnostic>) -> Seq<(Seq<char>, Seq<char>)> {
    Seq::new(list.len(), |i: int| (list[i].code@, list[i].severity@))
}

/// The name of a file without what follows its last dot.
pub open spec fn base_of(name: Seq<char>) -> Seq<char> {
    if last_at(name, '.') < 0 {
        name
    } else {
        name.take(last_at(name, '.'))
    }
}

/// What follows the last dot of a file's name.
pub open spec fn extension_of(name: Seq<char>) -> Seq<char> {
    if last_at(name, '.') < 0 {
        Seq::empty()
    } else {
        name.skip(last_at(name, '.') + 1)
    }
}

/// The name of a path's file, and its two parts.
pub fn file_name_parts(path: &str) -> (result: (String, String, String))
    ensures
        result.0@ == last_part(path@),
        result.1@ == base_of(last_part(path@)),
        result.2@ == extension_of(last_part(path@)),
{
    let name = part_after_slash(path);
    let chars = chars_of(name.as_str());
    let length: usize = chars.len();
    match find_last(&chars, '.') {
        Some(at) => {
            let base = text_between(&chars, 0, at);
            let extension = text_between(&chars, at + 1, length);
            proof {
                assert(base@ =~= base_of(name@));
                assert(extension@ =~= extension_of(name@));
            }
            (name, base, extension)
        },
        None => {
            let base = name.clone();
            (name, base, String::new())
        },
    }
}

/// The target of a relationship: what a link names before its label, or the text
/// itself.
pub open spec fn relationship_target(value: Seq<char>) -> Seq<char> {
    if has_prefix(value, "[["@) && has_suffix(value, "]]"@) {
        split_on(value.subrange(2, value.len() - 2), '|')[0]
    } else {
        value
    }
}

pub fn normalize_relationship_target(value: &str) -> (result: String)
    ensures
        result@ == relationship_target(value@),
{
    if !starts_with(value, "[[") || !ends_with(value, "]]") {
        return value.to_owned();
    }
    let chars = chars_of(value);
    let length: usize = chars.len();
    proof {
        reveal_strlit("[[");
        reveal_strlit("]]");
        assert("[["@[1] == '[' && "]]"@[0] == ']' && "[["@[0] == '[' && "]]"@[1] == ']');
        assert(value@[1] == '[');
        assert(value@[value@.len() - 2] == ']');
        if length < 4 {
            if length == 3 {
                assert(value@[1] == ']');
            } else {
                assert(value@[value@.len() - 1] == ']');
            }
        }
    }
    let inner = text_between(&chars, 2, length - 2);
    let parts = split_text(inner.as_str(), '|');
    proof {
        assert(inner@ =~= value@.subrange(2, value@.len() - 2));
        assert(texts(parts@)[0] == parts@[0]@);
    }
    parts[0].clone()
}

/// The relationships that a field stands for.
pub open spec fn with_targets(
    pairs: Seq<(Seq<char>, Seq<char>)>,
    kind: Seq<char>,
    items: Seq<JsonModel>,
) -> Seq<(Seq<char>, Seq<char>)>
    decreases items.len(),
{
    if items.len() == 0 {
        pairs
    } else {
        let rest = with_targets(pairs, kind, items.drop_last());
        match items.last() {
            JsonModel::Text(target) => with_pair(rest, (kind, relationship_target(target))),
            _ => rest,
        }
    }
}

pub open spec fn with_field_targets(
    pairs: Seq<(Seq<char>, Seq<char>)>,
    frontmatter: Seq<(Seq<char>, JsonModel)>,
    kind: Seq<char>,
) -> Seq<(Seq<char>, Seq<char>)> {
    match lookup(frontmatter, kind) {
        Some(JsonModel::Text(target)) => with_pair(pairs, (kind, relationship_target(target))),
        Some(JsonModel::Array(items)) => with_targets(pairs, kind, items),
        _ => pairs,
    }
}

/// The relationships of a record, each once and in ascending order.
pub open spec fn relationships_of(frontmatter: Seq<(Seq<char>, JsonModel)>) -> Seq<
    (Seq<char>, Seq<char>),
> {
    let r = with_field_targets(Seq::empty(), frontmatter, "source"@);
    let r = with_field_targets(r, frontmatter, "request"@);
    let r = with_field_targets(r, frontmatter, "blockedBy"@);
    with_field_targets(r, frontmatter, "related"@)
}

fn add_targets(pairs: &mut Vec<TextPair>, frontmatter: &Vec<Member>, kind: &str)
    ensures
        pair_models(final(pairs)@) == with_field_targets(
            pair_models(old(pairs)@),
            member_models(frontmatter@),
            kind@,
        ),
{
    broadcast use {lemma_object_model, lemma_array_model};

    match crate::json::find_member(frontmatter, kind) {
        Some(Json::Text(target)) => {
            let normal = normalize_relationship_target(target.as_str());
            insert_pair(pairs, kind, normal.as_str());
        },
        Some(Json::Array(items)) => {
            let ghost start = pair_models(pairs@);
            let ghost models = item_models(items@);
            let mut i: usize = 0;
            proof {
                assert(models.take(0) =~= Seq::empty());
            }
            while i < items.len()
                invariant
                    i <= items@.len(),
                    models == item_models(items@),
                    pair_models(pairs@) == with_targets(start, kind@, models.take(i as int)),
                decreases items@.len() - i,
            {
                proof {
                    assert(models.take(i + 1).drop_last() =~= models.take(i as int));
                    assert(models.take(i + 1).last() == items@[i as int]@);
                }
                match items[i].as_str() {
                    Some(target) => {
                        let normal = normalize_relationship_target(target);
                        insert_pair(pairs, kind, normal.as_str());
                    },
                    None => {},
                }
                i = i + 1;
            }
            proof {
                assert(models.take(i as int) =~= models);
            }
        },
        _ => {},
    }
}

pub fn benchmark_relationships(frontmatter: &Vec<Member>) -> (result: Vec<ProjectionRelationship>)
    ensures
        relationship_models(result@) == relationships_of(member_models(frontmatter@)),
{
    let mut pairs: Vec<TextPair> = Vec::new();
    proof {
        assert(pair_models(pairs@) =~= Seq::empty());
    }
    add_targets(&mut pairs, frontmatter, "source");
    add_targets(&mut pairs, frontmatter, "request");
    add_targets(&mut pairs, frontmatter, "blockedBy");
    add_targets(&mut pairs, frontmatter, "related");
    let mut result: Vec<ProjectionRelationship> = Vec::new();
    let mut i: usize = 0;
    while i < pairs.len()
        invariant
            i <= pairs@.len(),
            result@.len() == i,
            forall|k: int|
                0 <= k < i ==> (#[trigger] result@[k]).kind@ == pairs@[k].first@
                    && result@[k].target@ == pairs@[k].second@,
        decreases pairs@.len() - i,
    {
        result.push(
            ProjectionRelationship {
                kind: pairs[i].first.clone(),
                target: pairs[i].second.clone(),
            },
        );
        i = i + 1;
    }
    proof {
        assert(relationship_models(result@) =~= pair_models(pairs@));
    }
    result
}

pub open spec fn reported_pairs(list: Seq<Diagnostic>) -> Seq<(Seq<char>, Seq<char>)> {
    Seq::new(list.len(), |i: int| (list[i].code@, list[i].severity@))
}

/// The diagnostics of a projection: those of its read, and one for frontmatter that
/// could not be parsed.
pub open spec fn projected_diagnostics(list: Seq<Diagnostic>, parse_failed: bool) -> Seq<
    (Seq<char>, Seq<char>),
> {
    let pairs = reported_pairs(list);
    let known = exists|i: int|
        0 <= i < pairs.len() && (#[trigger] pairs[i]).0 == "frontmatter_parse_failed"@;
    if parse_failed && !known {
        sorted_pairs(pairs.push(("frontmatter_parse_failed"@, "error"@)))
    } else {
        sorted_pairs(pairs)
    }
}

fn project_diagnostics(list: &Vec<Diagnostic>, parse_failed: bool) -> (result: Vec<
    BenchmarkDiagnostic,
>)
    ensures
        diagnostic_pairs(result@) == projected_diagnostics(list@, parse_failed),
{
    let ghost models = reported_pairs(list@);
    let mut pairs: Vec<TextPair> = Vec::new();
    let mut known = false;
    proof {
        assert(pair_models(pairs@) =~= Seq::empty());
        assert(models.take(0) =~= Seq::empty());
    }
    let mut i: usize = 0;
    while i < list.len()
        invariant
            i <= list@.len(),
            models == reported_pairs(list@),
            pair_models(pairs@) == sorted_pairs(models.take(i as int)),
            known == exists|k: int|
                0 <= k < i && (#[trigger] models[k]).0 == "frontmatter_parse_failed"@,
        decreases list@.len() - i,
    {
        proof {
            assert(models.take(i + 1).drop_last() =~= models.take(i as int));
            assert(models.take(i + 1).last() == models[i as int]);
        }
        if same_text(list[i].code.as_str(), "frontmatter_parse_failed") {
            known = true;
        }
        insert_pair(&mut pairs, list[i].code.as_str(), list[i].severity.as_str());
        i = i + 1;
    }
    proof {
        assert(models.take(i as int) =~= models);
    }
    if parse_failed && !known {
        proof {
            let all = models.push(("frontmatter_parse_failed"@, "error"@));
            assert(all.drop_last() =~= models);
        }
        insert_pair(&mut pairs, "frontmatter_parse_failed", "error");
    }
    let mut result: Vec<BenchmarkDiagnostic> = Vec::new();
    let mut j: usize = 0;
    while j < pairs.len()
        invariant
            j <= pairs@.len(),
            result@.len() == j,
            forall|k: int|
                0 <= k < j ==> (#[trigger] result@[k]).code@ == pairs@[k].first@
                    && result@[k].severity@ == pairs@[k].second@,
        decreases pairs@.len() - j,
    {
        result.push(
            BenchmarkDiagnostic {
                code: pairs[j].first.clone(),
                severity: pairs[j].second.clone(),
            },
        );
        j = j + 1;
    }
    proof {
        assert(diagnostic_pairs(result@) =~= pair_models(pairs@));
    }
    result
}

/// The members of an object; none of anything else.
pub open spec fn members_of(value: Option<JsonModel>) -> Seq<(Seq<char>, JsonModel)> {
    match value {
        Some(JsonModel::Object(members)) => members,
        _ => Seq::empty(),
    }
}

fn object_members(value: Option<&Json>) -> (result: Vec<Member>)
    ensures
        member_models(result@) == members_of(crate::json::referenced(value)),
{
    match value {
        Some(value) => match value.as_object() {
            Some(members) => copy_members(members),
            None => no_members(),
        },
        None => no_members(),
    }
}

impl CompiledCatalog {
    /// Projects a record, by how it was classified and read.
    pub fn benchmark_project_record(
        &self,
        exact: &ExactRecord,
        read: &OperationResult,
    ) -> (result: Result<BenchmarkProjection, CatalogError>)
        ensures
            match (result, exact.classification()) {
                (Err(error), Err(fault)) => fault_of(error) == fault,
                (Ok(projection), Ok(found)) => {
                    &&& projection.schema_version@ == "hosted-benchmark-projection-v1"@
                    &&& projection.path@ == exact.record.path@
                    &&& texts(projection.types@) == found.types
                    &&& projection.file.path@ == exact.record.path@
                    &&& projection.file.name@ == last_part(exact.record.path@)
                    &&& projection.file.basename@ == base_of(last_part(exact.record.path@))
                    &&& projection.file.extension@ == extension_of(last_part(exact.record.path@))
                    &&& projection.file.size == exact.record.file_size
                    &&& projection.file.mtime@ == match exact.record.file_mtime {
                        Some(mtime) => mtime@,
                        None => "1970-01-01T00:00:00Z"@,
                    }
                    &&& member_models(projection.persisted_frontmatter@) == members_of(
                        Some(found.frontmatter),
                    )
                    &&& member_models(projection.effective_frontmatter@) == if read.valid {
                        members_of(member_of(read.result@, "effective_frontmatter"@))
                    } else {
                        Seq::empty()
                    }
                    &&& relationship_models(projection.relationships@) == relationships_of(
                        members_of(Some(found.frontmatter)),
                    )
                    &&& diagnostic_pairs(projection.diagnostics@) == projected_diagnostics(
                        read.diagnostics@,
                        found.frontmatter_error is Some,
                    )
                },
                _ => false,
            },
    {
        let record = &exact.record;
        let found = match self.classify_exact(exact) {
            Ok(found) => found,
            Err(error) => {
                return Err(error);
            },
        };
        let effective_frontmatter = if read.valid {
            object_members(read.result.get("effective_frontmatter"))
        } else {
            no_members()
        };
        let diagnostics = project_diagnostics(
            &read.diagnostics,
            found.frontmatter_error.is_some(),
        );
        let (name, basename, extension) = file_name_parts(record.path.as_str());
        let persisted_frontmatter = object_members(Some(&found.frontmatter));
        let relationships = benchmark_relationships(&persisted_frontmatter);
        Ok(
            BenchmarkProjection {
                schema_version: PROJECTION_SCHEMA_VERSION.to_owned(),
                path: record.path.clone(),
                types: copy_texts(&found.types),
                file: BenchmarkFileFacts {
                    path: record.path.clone(),
                    name,
                    basename,
                    extension,
                    size: record.file_size,
                    mtime: match &record.file_mtime {
                        Some(mtime) => mtime.clone(),
                        None => "1970-01-01T00:00:00Z".to_owned(),
                    },
                },
                persisted_frontmatter,
                effective_frontmatter,
                relationships,
                diagnostics,
            },
        )
    }
}

// ---------------------------------------------------------------------------
// Digests
// ---------------------------------------------------------------------------
/// The facts of a file as JSON.
pub open spec fn file_json(file: BenchmarkFileFacts) -> JsonModel {
    let m = put(Seq::empty(), "path"@, Some(JsonModel::Text(file.path@)));
    let m = put(m, "name"@, Some(JsonModel::Text(file.name@)));
    let m = put(m, "basename"@, Some(JsonModel::Text(file.basename@)));
    let m = put(m, "extension"@, Some(JsonModel::Text(file.extension@)));
    let m = put(m, "size"@, Some(JsonModel::Number(NumberModel::Integer(file.size as int))));
    JsonModel::Object(put(m, "mtime"@, Some(JsonModel::Text(file.mtime@))))
}

fn file_to_json(file: &BenchmarkFileFacts) -> (result: Json)
    ensures
        result@ == file_json(*file),
{
    broadcast use lemma_object_model;

    let mut members = no_members();
    put_entry(&mut members, "path", Some(Json::text(file.path.as_str())));
    put_entry(&mut members, "name", Some(Json::text(file.name.as_str())));
    put_entry(&mut members, "basename", Some(Json::text(file.basename.as_str())));
    put_entry(&mut members, "extension", Some(Json::text(file.extension.as_str())));
    put_entry(&mut members, "size", Some(Json::unsigned(file.size)));
    put_entry(&mut members, "mtime", Some(Json::text(file.mtime.as_str())));
    Json::Object(members)
}

/// An object of two texts.
pub open spec fn pair_json(
    first_key: Seq<char>,
    second_key: Seq<char>,
    pair: (Seq<char>, Seq<char>),
) -> JsonModel {
    JsonModel::Object(
        put(
            put(Seq::empty(), first_key, Some(JsonModel::Text(pair.0))),
            second_key,
            Some(JsonModel::Text(pair.1)),
        ),
    )
}

pub open spec fn pairs_json(
    first_key: Seq<char>,
    second_key: Seq<char>,
    pairs: Seq<(Seq<char>, Seq<char>)>,
) -> JsonModel {
    JsonModel::Array(Seq::new(pairs.len(), |i: int| pair_json(first_key, second_key, pairs[i])))
}

fn pair_to_json(first_key: &str, second_key: &str, first: &str, second: &str) -> (result: Json)
    ensures
        result@ == pair_json(first_key@, second_key@, (first@, second@)),
{
    broadcast use lemma_object_model;

    let mut members = no_members();
    put_entry(&mut members, first_key, Some(Json::text(first)));
    put_entry(&mut members, second_key, Some(Json::text(second)));
    Json::Object(members)
}

/// A projection as JSON.
pub open spec fn projection_json(projection: BenchmarkProjection) -> JsonModel {
    let m = put(
        Seq::empty(),
        "schema_version"@,
        Some(JsonModel::Text(projection.schema_version@)),
    );
    let m = put(m, "path"@, Some(JsonModel::Text(projection.path@)));
    let m = put(
        m,
        "types"@,
        Some(JsonModel::Array(text_models(texts(projection.types@)))),
    );
    let m = put(m, "file"@, Some(file_json(projection.file)));
    let m = put(
        m,
        "persisted_frontmatter"@,
        Some(JsonModel::Object(member_models(projection.persisted_frontmatter@))),
    );
    let m = put(
        m,
        "effective_frontmatter"@,
        Some(JsonModel::Object(member_models(projection.effective_frontmatter@))),
    );
    let m = put(
        m,
        "relationships"@,
        Some(pairs_json("kind"@, "target"@, relationship_models(projection.relationships@))),
    );
    JsonModel::Object(
        put(
            m,
            "diagnostics"@,
            Some(pairs_json("code"@, "severity"@, diagnostic_pairs(projection.diagnostics@))),
        ),
    )
}

impl BenchmarkProjection {
    /// The digest of the projection's canonical text.
    pub fn canonical_digest(&self) -> (result: Result<String, String>)
        ensures
            match result {
                Ok(digest) => json_digest(projection_json(*self)) == Some(digest@),
                Err(_) => json_digest(projection_json(*self)) is None,
            },
    {
        broadcast use {lemma_object_model, lemma_array_model};

        let mut relationships: Vec<Json> = Vec::new();
        let mut i: usize = 0;
        while i < self.relationships.len()
            invariant
                i <= self.relationships@.len(),
                relationships@.len() == i,
                forall|k: int|
                    0 <= k < i ==> (#[trigger] relationships@[k])@ == pair_json(
                        "kind"@,
                        "target"@,
                        (self.relationships@[k].kind@, self.relationships@[k].target@),
                    ),
            decreases self.relationships@.len() - i,
        {
            let item = &self.relationships[i];
            relationships.push(
                pair_to_json("kind", "target", item.kind.as_str(), item.target.as_str()),
            );
            i = i + 1;
        }
        let mut diagnostics: Vec<Json> = Vec::new();
        let mut j: usize = 0;
        while j < self.diagnostics.len()
            invariant
                j <= self.diagnostics@.len(),
                diagnostics@.len() == j,
                forall|k: int|
                    0 <= k < j ==> (#[trigger] diagnostics@[k])@ == pair_json(
                        "code"@,
                        "severity"@,
                        (self.diagnostics@[k].code@, self.diagnostics@[k].severity@),
                    ),
            decreases self.diagnostics@.len() - j,
        {
            let item = &self.diagnostics[j];
            diagnostics.push(
                pair_to_json("code", "severity", item.code.as_str(), item.severity.as_str()),
            );
            j = j + 1;
        }
        proof {
            let pairs = relationship_models(self.relationships@);
            assert(item_models(relationships@) =~= Seq::new(
                pairs.len(),
                |i: int| pair_json("kind"@, "target"@, pairs[i]),
            ));
            let codes = diagnostic_pairs(self.diagnostics@);
            assert(item_models(diagnostics@) =~= Seq::new(
                codes.len(),
                |i: int| pair_json("code"@, "severity"@, codes[i]),
            ));
        }
        let mut members = no_members();
        put_entry(
            &mut members,
            "schema_version",
            Some(Json::text(self.schema_version.as_str())),
        );
        put_entry(&mut members, "path", Some(Json::text(self.path.as_str())));
        put_entry(&mut members, "types", Some(Json::text_array(&self.types)));
        put_entry(&mut members, "file", Some(file_to_json(&self.file)));
        put_entry(
            &mut members,
            "persisted_frontmatter",
            Some(Json::Object(copy_members(&self.persisted_frontmatter))),
        );
        put_entry(
            &mut members,
            "effective_frontmatter",
            Some(Json::Object(copy_members(&self.effective_frontmatter))),
        );
        put_entry(&mut members, "relationships", Some(Json::Array(relationships)));
        put_entry(&mut members, "diagnostics", Some(Json::Array(diagnostics)));
        digest_json(&Json::Object(members))
    }
}

// ---------------------------------------------------------------------------
// Expressions
// ---------------------------------------------------------------------------
/// A condition on records.
#[derive(Debug)]
pub enum CandidateExpression {
    All { all: Vec<CandidateExpression> },
    Any { any: Vec<CandidateExpression> },
    Not { not: Box<CandidateExpression> },
    TypeIn { type_in: Vec<String> },
    FieldEq { field: String, value: Json },
    FieldIn { field: String, values: Vec<Json> },
    FieldContains { field: String, value: Json },
    FieldContainsText { field: String, text: String },
    FieldLt { field: String, value: Json },
    RelationshipTargetEq { target: String },
    BodyContains { text: String },
}

/// What a projection says of a condition.
#[derive(Clone, Copy, Debug, PartialEq, Eq, Structural)]
pub enum CandidateTruth {
    Possible,
    Impossible,
    Unknown,
}

/// What evaluating a condition needs.
#[derive(Clone, Copy, Debug, PartialEq, Eq, Structural)]
pub struct QueryRequirements {
    pub exact_document: bool,
    pub body: bool,
    pub persisted_frontmatter: bool,
    pub effective_frontmatter: bool,
    pub relationships: bool,
    pub file_facts: bool,
}

#[derive(Debug)]
pub struct CompiledCandidate {
    pub expression: CandidateExpression,
    pub requirements: QueryRequirements,
}

/// Whether a condition may speak of a field.
pub open spec fn is_allowed(field: Seq<char>) -> bool {
    ||| field == "path"@
    ||| field == "types"@
    ||| field == "file.basename"@
    ||| field == "file.mtime"@
    ||| field == "persisted_frontmatter.status"@
    ||| field == "persisted_frontmatter.priority"@
    ||| field == "persisted_frontmatter.tags"@
    ||| field == "persisted_frontmatter.contexts"@
    ||| field == "persisted_frontmatter.projects"@
    ||| field == "persisted_frontmatter.due"@
    ||| field == "persisted_frontmatter.created_at"@
    ||| field == "effective_frontmatter.status"@
    ||| field == "effective_frontmatter.archived"@
    ||| field == "effective_frontmatter.priority"@
    ||| field == "effective_frontmatter.tags"@
    ||| field == "effective_frontmatter.contexts"@
    ||| field == "effective_frontmatter.projects"@
    ||| field == "effective_frontmatter.due"@
    ||| field == "effective_frontmatter.created_at"@
    ||| field == "effective_frontmatter.reading.status"@
    ||| field == "effective_frontmatter.title"@
}

fn is_allowed_field(field: &str) -> (result: bool)
    ensures
        result == is_allowed(field@),
{
    same_text(field, "path") || same_text(field, "types") || same_text(field, "file.basename")
        || same_text(field, "file.mtime") || same_text(field, "persisted_frontmatter.status")
        || same_text(field, "persisted_frontmatter.priority") || same_text(
        field,
        "persisted_frontmatter.tags",
    ) || same_text(field, "persisted_frontmatter.contexts") || same_text(
        field,
        "persisted_frontmatter.projects",
    ) || same_text(field, "persisted_frontmatter.due") || same_text(
        field,
        "persisted_frontmatter.created_at",
    ) || same_text(field, "effective_frontmatter.status") || same_text(
        field,
        "effective_frontmatter.archived",
    ) || same_text(field, "effective_frontmatter.priority") || same_text(
        field,
        "effective_frontmatter.tags",
    ) || same_text(field, "effective_frontmatter.contexts") || same_text(
        field,
        "effective_frontmatter.projects",
    ) || same_text(field, "effective_frontmatter.due") || same_text(
        field,
        "effective_frontmatter.created_at",
    ) || same_text(field, "effective_frontmatter.reading.status") || same_text(
        field,
        "effective_frontmatter.title",
    )
}

pub open spec fn field_fault(field: Seq<char>) -> Option<Seq<char>> {
    if is_allowed(field) {
        None
    } else {
        Some("field is not allowed: "@ + field)
    }
}

/// What is wrong with a condition, if anything is.
pub open spec fn expression_fault(expression: CandidateExpression) -> Option<Seq<char>>
    decreases expression, 0nat,
{
    match expression {
        CandidateExpression::All { all } => list_fault(all, all@.len()),
        CandidateExpression::Any { any } => list_fault(any, any@.len()),
        CandidateExpression::Not { not } => expression_fault(*not),
        CandidateExpression::TypeIn { type_in } => if type_in@.len() == 0 {
            Some("typeIn must contain at least one type"@)
        } else {
            None
        },
        CandidateExpression::FieldEq { field, value } => field_fault(field@),
        CandidateExpression::FieldLt { field, value } => field_fault(field@),
        CandidateExpression::FieldIn { field, values } => if values@.len() == 0 {
            Some("fieldIn must contain at least one value"@)
        } else {
            field_fault(field@)
        },
        CandidateExpression::FieldContains { field, value } => field_fault(field@),
        CandidateExpression::FieldContainsText { field, text } => if field_fault(field@) is Some {
            field_fault(field@)
        } else if text@.len() == 0 {
            Some("fieldContainsText must not be empty"@)
        } else {
            None
        },
        CandidateExpression::RelationshipTargetEq { target } => if target@.len() == 0 {
            Some("relationshipTargetEq must not be empty"@)
        } else {
            None
        },
        CandidateExpression::BodyContains { text } => if text@.len() == 0 {
            Some("bodyContains must not be empty"@)
        } else {
            None
        },
    }
}

/// What is wrong with the first conditions of a list.
pub open spec fn list_fault(list: Vec<CandidateExpression>, count: nat) -> Option<Seq<char>>
    decreases list, count,
{
    if count == 0 || count > list@.len() {
        None
    } else if list_fault(list, (count - 1) as nat) is Some {
        list_fault(list, (count - 1) as nat)
    } else {
        expression_fault(list@[count - 1])
    }
}

/// The error for a faulty condition.
pub open spec fn is_fault(result: Result<(), CatalogError>, expected: Option<Seq<char>>) -> bool {
    match (result, expected) {
        (Ok(_), None) => true,
        (Err(error), Some(message)) => fault_of(error) == fault(
            "invalid_candidate_expression"@,
            message,
        ),
        _ => false,
    }
}

fn candidate_error(message: &str) -> (result: CatalogError)
    ensures
        fault_of(result) == fault("invalid_candidate_expression"@, message@),
{
    CatalogError::new("invalid_candidate_expression", message)
}

fn validate_field(field: &str) -> (result: Result<(), CatalogError>)
    ensures
        is_fault(result, field_fault(field@)),
{
    if is_allowed_field(field) {
        Ok(())
    } else {
        Err(candidate_error("field is not allowed: ".to_owned().concat(field).as_str()))
    }
}

fn is_empty_text(text: &str) -> (result: bool)
    ensures
        result == (text@.len() == 0),
{
    chars_of(text).len() == 0
}

pub fn validate_expression(expression: &CandidateExpression) -> (result: Result<(), CatalogError>)
    ensures
        is_fault(result, expression_fault(*expression)),
    decreases expression,
{
    match expression {
        CandidateExpression::All { all } => validate_list(all),
        CandidateExpression::Any { any } => validate_list(any),
        CandidateExpression::Not { not } => validate_expression(not),
        CandidateExpression::TypeIn { type_in } => if type_in.len() == 0 {
            Err(candidate_error("typeIn must contain at least one type"))
        } else {
            Ok(())
        },
        CandidateExpression::FieldEq { field, .. } => validate_field(field.as_str()),
        CandidateExpression::FieldLt { field, .. } => validate_field(field.as_str()),
        CandidateExpression::FieldIn { field, values } => if values.len() == 0 {
            Err(candidate_error("fieldIn must contain at least one value"))
        } else {
            validate_field(field.as_str())
        },
        CandidateExpression::FieldContains { field, .. } => validate_field(field.as_str()),
        CandidateExpression::FieldContainsText { field, text } => {
            if let Err(error) = validate_field(field.as_str()) {
                return Err(error);
            }
            if is_empty_text(text.as_str()) {
                Err(candidate_error("fieldContainsText must not be empty"))
            } else {
                Ok(())
            }
        },
        CandidateExpression::RelationshipTargetEq { target } => if is_empty_text(
            target.as_str(),
        ) {
            Err(candidate_error("relationshipTargetEq must not be empty"))
        } else {
            Ok(())
        },
        CandidateExpression::BodyContains { text } => if is_empty_text(text.as_str()) {
            Err(candidate_error("bodyContains must not be empty"))
        } else {
            Ok(())
        },
    }
}

proof fn lemma_list_fault_stays(list: Vec<CandidateExpression>, at: nat, count: nat)
    requires
        at <= count <= list@.len(),
        list_fault(list, at) is Some,
    ensures
        list_fault(list, count) == list_fault(list, at),
    decreases count - at,
{
    if at < count {
        lemma_list_fault_stays(list, at, (count - 1) as nat);
    }
}

fn validate_list(list: &Vec<CandidateExpression>) -> (result: Result<(), CatalogError>)
    ensures
        is_fault(result, list_fault(*list, list@.len())),
    decreases list,
{
    let mut i: usize = 0;
    while i < list.len()
        invariant
            i <= list@.len(),
            list_fault(*list, i as nat) is None,
        decreases list@.len() - i,
    {
        if let Err(error) = validate_expression(&list[i]) {
            proof {
                lemma_list_fault_stays(*list, (i + 1) as nat, list@.len());
            }
            return Err(error);
        }
        i = i + 1;
    }
    Ok(())
}

// ---------------------------------------------------------------------------
// Requirements
// ---------------------------------------------------------------------------
/// Nothing needed.
pub open spec fn no_requirements() -> QueryRequirements {
    QueryRequirements {
        exact_document: false,
        body: false,
        persisted_frontmatter: false,
        effective_frontmatter: false,
        relationships: false,
        file_facts: false,
    }
}

pub open spec fn with_field_requirement(
    requirements: QueryRequirements,
    field: Seq<char>,
) -> QueryRequirements {
    if has_prefix(field, "persisted_frontmatter."@) {
        QueryRequirements { persisted_frontmatter: true, ..requirements }
    } else if has_prefix(field, "effective_frontmatter."@) {
        QueryRequirements { effective_frontmatter: true, ..requirements }
    } else if has_prefix(field, "file."@) {
        QueryRequirements { file_facts: true, ..requirements }
    } else {
        requirements
    }
}

/// What evaluating a condition needs besides what is needed anyway.
pub open spec fn with_requirements(
    requirements: QueryRequirements,
    expression: CandidateExpression,
) -> QueryRequirements
    decreases expression, 0nat,
{
    match expression {
        CandidateExpression::All { all } => with_list_requirements(requirements, all, all@.len()),
        CandidateExpression::Any { any } => with_list_requirements(requirements, any, any@.len()),
        CandidateExpression::Not { not } => with_requirements(requirements, *not),
        CandidateExpression::TypeIn { type_in } => requirements,
        CandidateExpression::FieldEq { field, value } => with_field_requirement(
            requirements,
            field@,
        ),
        CandidateExpression::FieldLt { field, value } => with_field_requirement(
            requirements,
            field@,
        ),
        CandidateExpression::FieldIn { field, values } => with_field_requirement(
            requirements,
            field@,
        ),
        CandidateExpression::FieldContains { field, value } => with_field_requirement(
            requirements,
            field@,
        ),
        CandidateExpression::FieldContainsText { field, text } => with_field_requirement(
            requirements,
            field@,
        ),
        CandidateExpression::RelationshipTargetEq { target } => QueryRequirements {
            relationships: true,
            ..requirements
        },
        CandidateExpression::BodyContains { text } => QueryRequirements {
            body: true,
            exact_document: true,
            ..requirements
        },
    }
}

pub open spec fn with_list_requirements(
    requirements: QueryRequirements,
    list: Vec<CandidateExpression>,
    count: nat,
) -> QueryRequirements
    decreases list, count,
{
    if count == 0 || count > list@.len() {
        requirements
    } else {
        with_requirements(
            with_list_requirements(requirements, list, (count - 1) as nat),
            list@[count - 1],
        )
    }
}

fn field_requirements(field: &str, output: QueryRequirements) -> (result: QueryRequirements)
    ensures
        result == with_field_requirement(output, field@),
{
    if starts_with(field, "persisted_frontmatter.") {
        QueryRequirements { persisted_frontmatter: true, ..output }
    } else if starts_with(field, "effective_frontmatter.") {
        QueryRequirements { effective_frontmatter: true, ..output }
    } else if starts_with(field, "file.") {
        QueryRequirements { file_facts: true, ..output }
    } else {
        output
    }
}

fn accumulate_requirements(expression: &CandidateExpression, output: QueryRequirements) -> (result:
    QueryRequirements)
    ensures
        result == with_requirements(output, *expression),
    decreases expression,
{
    match expression {
        CandidateExpression::All { all } => accumulate_list(all, output),
        CandidateExpression::Any { any } => accumulate_list(any, output),
        CandidateExpression::Not { not } => accumulate_requirements(not, output),
        CandidateExpression::TypeIn { .. } => output,
        CandidateExpression::FieldEq { field, .. } => field_requirements(field.as_str(), output),
        CandidateExpression::FieldLt { field, .. } => field_requirements(field.as_str(), output),
        CandidateExpression::FieldIn { field, .. } => field_requirements(field.as_str(), output),
        CandidateExpression::FieldContains { field, .. } => field_requirements(
            field.as_str(),
            output,
        ),
        CandidateExpression::FieldContainsText { field, .. } => field_requirements(
            field.as_str(),
            output,
        ),
        CandidateExpression::RelationshipTargetEq { .. } => QueryRequirements {
            relationships: true,
            ..output
        },
        CandidateExpression::BodyContains { .. } => QueryRequirements {
            body: true,
            exact_document: true,
            ..output
        },
    }
}

fn accumulate_list(list: &Vec<CandidateExpression>, output: QueryRequirements) -> (result:
    QueryRequirements)
    ensures
        result == with_list_requirements(output, *list, list@.len()),
    decreases list,
{
    let mut all = output;
    let mut i: usize = 0;
    while i < list.len()
        invariant
            i <= list@.len(),
            all == with_list_requirements(output, *list, i as nat),
        decreases list@.len() - i,
    {
        all = accumulate_requirements(&list[i], all);
        i = i + 1;
    }
    all
}

// ---------------------------------------------------------------------------
// Evaluation
// ---------------------------------------------------------------------------
/// The value of a field of a projection.
pub open spec fn field_value(projection: BenchmarkProjection, path: Seq<char>) -> Option<
    JsonModel,
> {
    if path == "path"@ {
        Some(JsonModel::Text(projection.path@))
    } else if path == "types"@ {
        Some(JsonModel::Array(text_models(texts(projection.types@))))
    } else {
        match split_first(path, '.') {
            None => None,
            Some((root, rest)) => if root == "persisted_frontmatter"@ {
                value_below(
                    JsonModel::Object(member_models(projection.persisted_frontmatter@)),
                    split_on(rest, '.'),
                )
            } else if root == "effective_frontmatter"@ {
                value_below(
                    JsonModel::Object(member_models(projection.effective_frontmatter@)),
                    split_on(rest, '.'),
                )
            } else if root == "file"@ {
                value_below(file_json(projection.file), split_on(rest, '.'))
            } else {
                None
            },
        }
    }
}

/// Whether a value stands before another of its kind.
pub open spec fn is_before(left: JsonModel, right: JsonModel) -> bool {
    match (left, right) {
        (JsonModel::Number(left), JsonModel::Number(right)) => number_order(left, right)
            == Order::Less,
        (JsonModel::Text(left), JsonModel::Text(right)) => text_order(left, right) == Order::Less,
        (JsonModel::Bool(left), JsonModel::Bool(right)) => bool_order(left, right) == Order::Less,
        _ => false,
    }
}

/// Whether a text contains another, whatever their case.
pub open spec fn contains_folded(value: Seq<char>, part: Seq<char>) -> bool {
    has_part(lower_case(value), lower_case(part))
}

/// Whether a condition holds of a record.
pub open spec fn holds(
    expression: CandidateExpression,
    projection: BenchmarkProjection,
    body: Seq<char>,
) -> bool
    decreases expression,
{
    match expression {
        CandidateExpression::All { all } => forall|i: int|
            0 <= i < all@.len() ==> holds(#[trigger] all@[i], projection, body),
        CandidateExpression::Any { any } => exists|i: int|
            0 <= i < any@.len() && holds(#[trigger] any@[i], projection, body),
        CandidateExpression::Not { not } => !holds(*not, projection, body),
        CandidateExpression::TypeIn { type_in } => exists|i: int|
            0 <= i < type_in@.len() && lists_text(
                projection.types@,
                (#[trigger] type_in@[i])@,
            ),
        CandidateExpression::FieldEq { field, value } => match field_value(projection, field@) {
            Some(found) => same_json(found, value@),
            None => false,
        },
        CandidateExpression::FieldIn { field, values } => match field_value(projection, field@) {
            Some(found) => lists_value(item_models(values@), found),
            None => false,
        },
        CandidateExpression::FieldContains { field, value } => match field_value(
            projection,
            field@,
        ) {
            Some(JsonModel::Array(items)) => lists_value(items, value@),
            _ => false,
        },
        CandidateExpression::FieldContainsText { field, text } => match field_value(
            projection,
            field@,
        ) {
            Some(JsonModel::Text(found)) => contains_folded(found, text@),
            _ => false,
        },
        CandidateExpression::FieldLt { field, value } => match field_value(projection, field@) {
            Some(found) => is_before(found, value@),
            None => false,
        },
        CandidateExpression::RelationshipTargetEq { target } => exists|i: int|
            0 <= i < projection.relationships@.len() && (
            #[trigger] projection.relationships@[i]).target@ == target@,
        CandidateExpression::BodyContains { text } => contains_folded(body, text@),
    }
}

/// What a projection says of a condition. Of a body it says nothing.
pub open spec fn candidate(
    expression: CandidateExpression,
    projection: BenchmarkProjection,
) -> CandidateTruth
    decreases expression,
{
    match expression {
        CandidateExpression::All { all } => if exists|i: int|
            0 <= i < all@.len() && candidate(#[trigger] all@[i], projection)
                == CandidateTruth::Impossible {
            CandidateTruth::Impossible
        } else if exists|i: int|
            0 <= i < all@.len() && candidate(#[trigger] all@[i], projection)
                == CandidateTruth::Unknown {
            CandidateTruth::Unknown
        } else {
            CandidateTruth::Possible
        },
        CandidateExpression::Any { any } => if exists|i: int|
            0 <= i < any@.len() && candidate(#[trigger] any@[i], projection)
                == CandidateTruth::Possible {
            CandidateTruth::Possible
        } else if exists|i: int|
            0 <= i < any@.len() && candidate(#[trigger] any@[i], projection)
                == CandidateTruth::Unknown {
            CandidateTruth::Unknown
        } else {
            CandidateTruth::Impossible
        },
        CandidateExpression::Not { not } => match candidate(*not, projection) {
            CandidateTruth::Possible => CandidateTruth::Impossible,
            CandidateTruth::Impossible => CandidateTruth::Possible,
            CandidateTruth::Unknown => CandidateTruth::Unknown,
        },
        CandidateExpression::BodyContains { text } => CandidateTruth::Unknown,
        _ => if holds(expression, projection, Seq::empty()) {
            CandidateTruth::Possible
        } else {
            CandidateTruth::Impossible
        },
    }
}

fn field_value_owned(projection: &BenchmarkProjection, path: &str) -> (result: Option<Json>)
    ensures
        crate::diagnostics::optional_json(result) == field_value(*projection, path@),
{
    broadcast use {lemma_object_model, lemma_array_model};

    if same_text(path, "path") {
        return Some(Json::text(projection.path.as_str()));
    }
    if same_text(path, "types") {
        return Some(Json::text_array(&projection.types));
    }
    let (root, rest) = match split_once(path, '.') {
        Some(parts) => parts,
        None => {
            return None;
        },
    };
    let value = if same_text(root.as_str(), "persisted_frontmatter") {
        Json::Object(copy_members(&projection.persisted_frontmatter))
    } else if same_text(root.as_str(), "effective_frontmatter") {
        Json::Object(copy_members(&projection.effective_frontmatter))
    } else if same_text(root.as_str(), "file") {
        file_to_json(&projection.file)
    } else {
        return None;
    };
    let segments = split_text(rest.as_str(), '.');
    proof {
        assert(texts(segments@).skip(0) =~= texts(segments@));
    }
    match find_below(&value, &segments, 0) {
        Some(found) => Some(found.copy()),
        None => None,
    }
}

fn stands_before(left: &Json, right: &Json) -> (result: bool)
    ensures
        result == is_before(left@, right@),
{
    broadcast use {lemma_object_model, lemma_array_model};

    match (left, right) {
        (Json::Number(left), Json::Number(right)) => compare_numbers(left, right).is_lt(),
        (Json::Text(left), Json::Text(right)) => compare_text(
            left.as_str(),
            right.as_str(),
        ).is_lt(),
        (Json::Bool(left), Json::Bool(right)) => order_bool(*left, *right).is_lt(),
        _ => false,
    }
}

fn contains_any_case(value: &str, part: &str) -> (result: bool)
    ensures
        result == contains_folded(value@, part@),
{
    contains_text(to_lower_case(value).as_str(), to_lower_case(part).as_str())
}

fn lists_any_type(types: &Vec<String>, wanted: &Vec<String>) -> (result: bool)
    ensures
        result == exists|i: int|
            0 <= i < wanted@.len() && lists_text(types@, (#[trigger] wanted@[i])@),
{
    let mut i: usize = 0;
    while i < wanted.len()
        invariant
            i <= wanted@.len(),
            forall|k: int| 0 <= k < i ==> !lists_text(types@, (#[trigger] wanted@[k])@),
        decreases wanted@.len() - i,
    {
        if list_contains(types, wanted[i].as_str()) {
            return true;
        }
        i = i + 1;
    }
    false
}

fn lists_target(relationships: &Vec<ProjectionRelationship>, target: &str) -> (result: bool)
    ensures
        result == exists|i: int|
            0 <= i < relationships@.len() && (#[trigger] relationships@[i]).target@ == target@,
{
    let mut i: usize = 0;
    while i < relationships.len()
        invariant
            i <= relationships@.len(),
            forall|k: int| 0 <= k < i ==> (#[trigger] relationships@[k]).target@ != target@,
        decreases relationships@.len() - i,
    {
        if same_text(relationships[i].target.as_str(), target) {
            return true;
        }
        i = i + 1;
    }
    false
}

fn canonical_truth(
    expression: &CandidateExpression,
    projection: &BenchmarkProjection,
    body: &str,
) -> (result: bool)
    ensures
        result == holds(*expression, *projection, body@),
    decreases expression,
{
    match expression {
        CandidateExpression::All { all } => all_hold(all, projection, body),
        CandidateExpression::Any { any } => any_holds(any, projection, body),
        CandidateExpression::Not { not } => !canonical_truth(not, projection, body),
        CandidateExpression::TypeIn { type_in } => lists_any_type(&projection.types, type_in),
        CandidateExpression::FieldEq { field, value } => match field_value_owned(
            projection,
            field.as_str(),
        ) {
            Some(found) => found.same(value),
            None => false,
        },
        CandidateExpression::FieldIn { field, values } => match field_value_owned(
            projection,
            field.as_str(),
        ) {
            Some(found) => items_contain(values, &found),
            None => false,
        },
        CandidateExpression::FieldContains { field, value } => match field_value_owned(
            projection,
            field.as_str(),
        ) {
            Some(found) => match found.as_array() {
                Some(items) => items_contain(items, value),
                None => false,
            },
            None => false,
        },
        CandidateExpression::FieldContainsText { field, text } => match field_value_owned(
            projection,
            field.as_str(),
        ) {
            Some(found) => match found.as_str() {
                Some(found) => contains_any_case(found, text.as_str()),
                None => false,
            },
            None => false,
        },
        CandidateExpression::FieldLt { field, value } => match field_value_owned(
            projection,
            field.as_str(),
        ) {
            Some(found) => stands_before(&found, value),
            None => false,
        },
        CandidateExpression::RelationshipTargetEq { target } => lists_target(
            &projection.relationships,
            target.as_str(),
        ),
        CandidateExpression::BodyContains { text } => contains_any_case(body, text.as_str()),
    }
}

fn all_hold(
    list: &Vec<CandidateExpression>,
    projection: &BenchmarkProjection,
    body: &str,
) -> (result: bool)
    ensures
        result == forall|i: int|
            0 <= i < list@.len() ==> holds(#[trigger] list@[i], *projection, body@),
    decreases list,
{
    let mut i: usize = 0;
    while i < list.len()
        invariant
            i <= list@.len(),
            forall|k: int| 0 <= k < i ==> holds(#[trigger] list@[k], *projection, body@),
        decreases list@.len() - i,
    {
        if !canonical_truth(&list[i], projection, body) {
            return false;
        }
        i = i + 1;
    }
    true
}

fn any_holds(
    list: &Vec<CandidateExpression>,
    projection: &BenchmarkProjection,
    body: &str,
) -> (result: bool)
    ensures
        result == exists|i: int|
            0 <= i < list@.len() && holds(#[trigger] list@[i], *projection, body@),
    decreases list,
{
    let mut i: usize = 0;
    while i < list.len()
        invariant
            i <= list@.len(),
            forall|k: int| 0 <= k < i ==> !holds(#[trigger] list@[k], *projection, body@),
        decreases list@.len() - i,
    {
        if canonical_truth(&list[i], projection, body) {
            return true;
        }
        i = i + 1;
    }
    false
}

fn candidate_truth(expression: &CandidateExpression, projection: &BenchmarkProjection) -> (result:
    CandidateTruth)
    ensures
        result == candidate(*expression, *projection),
    decreases expression,
{
    match expression {
        CandidateExpression::All { all } => fold_all(all, projection),
        CandidateExpression::Any { any } => fold_any(any, projection),
        CandidateExpression::Not { not } => match candidate_truth(not, projection) {
            CandidateTruth::Possible => CandidateTruth::Impossible,
            CandidateTruth::Impossible => CandidateTruth::Possible,
            CandidateTruth::Unknown => CandidateTruth::Unknown,
        },
        CandidateExpression::BodyContains { .. } => CandidateTruth::Unknown,
        _ => {
            proof {
                reveal_strlit("");
                assert(""@ =~= Seq::empty());
            }
            if canonical_truth(expression, projection, "") {
                CandidateTruth::Possible
            } else {
                CandidateTruth::Impossible
            }
        },
    }
}

fn fold_all(list: &Vec<CandidateExpression>, projection: &BenchmarkProjection) -> (result:
    CandidateTruth)
    ensures
        result == if exists|i: int|
            0 <= i < list@.len() && candidate(#[trigger] list@[i], *projection)
                == CandidateTruth::Impossible {
            CandidateTruth::Impossible
        } else if exists|i: int|
            0 <= i < list@.len() && candidate(#[trigger] list@[i], *projection)
                == CandidateTruth::Unknown {
            CandidateTruth::Unknown
        } else {
            CandidateTruth::Possible
        },
    decreases list,
{
    let mut unknown = false;
    let mut i: usize = 0;
    while i < list.len()
        invariant
            i <= list@.len(),
            forall|k: int|
                0 <= k < i ==> candidate(#[trigger] list@[k], *projection)
                    != CandidateTruth::Impossible,
            unknown == exists|k: int|
                0 <= k < i && candidate(#[trigger] list@[k], *projection)
                    == CandidateTruth::Unknown,
        decreases list@.len() - i,
    {
        match candidate_truth(&list[i], projection) {
            CandidateTruth::Impossible => {
                return CandidateTruth::Impossible;
            },
            CandidateTruth::Unknown => {
                unknown = true;
            },
            CandidateTruth::Possible => {},
        }
        i = i + 1;
    }
    if unknown {
        CandidateTruth::Unknown
    } else {
        CandidateTruth::Possible
    }
}

fn fold_any(list: &Vec<CandidateExpression>, projection: &BenchmarkProjection) -> (result:
    CandidateTruth)
    ensures
        result == if exists|i: int|
            0 <= i < list@.len() && candidate(#[trigger] list@[i], *projection)
                == CandidateTruth::Possible {
            CandidateTruth::Possible
        } else if exists|i: int|
            0 <= i < list@.len() && candidate(#[trigger] list@[i], *projection)
                == CandidateTruth::Unknown {
            CandidateTruth::Unknown
        } else {
            CandidateTruth::Impossible
        },
    decreases list,
{
    let mut unknown = false;
    let mut i: usize = 0;
    while i < list.len()
        invariant
            i <= list@.len(),
            forall|k: int|
                0 <= k < i ==> candidate(#[trigger] list@[k], *projection)
                    != CandidateTruth::Possible,
            unknown == exists|k: int|
                0 <= k < i && candidate(#[trigger] list@[k], *projection)
                    == CandidateTruth::Unknown,
        decreases list@.len() - i,
    {
        match candidate_truth(&list[i], projection) {
            CandidateTruth::Possible => {
                return CandidateTruth::Possible;
            },
            CandidateTruth::Unknown => {
                unknown = true;
            },
            CandidateTruth::Impossible => {},
        }
        i = i + 1;
    }
    if unknown {
        CandidateTruth::Unknown
    } else {
        CandidateTruth::Impossible
    }
}

impl CandidateExpression {
    /// Checks a condition and says what evaluating it needs.
    pub fn compile(self) -> (result: Result<CompiledCandidate, CatalogError>)
        ensures
            match (result, expression_fault(self)) {
                (Ok(compiled), None) => compiled.expression == self && compiled.requirements
                    == with_requirements(no_requirements(), self),
                (Err(error), Some(message)) => fault_of(error) == fault(
                    "invalid_candidate_expression"@,
                    message,
                ),
                _ => false,
            },
    {
        if let Err(error) = validate_expression(&self) {
            return Err(error);
        }
        let none = QueryRequirements {
            exact_document: false,
            body: false,
            persisted_frontmatter: false,
            effective_frontmatter: false,
            relationships: false,
            file_facts: false,
        };
        let requirements = accumulate_requirements(&self, none);
        Ok(CompiledCandidate { expression: self, requirements })
    }

    pub fn evaluate_candidate(&self, projection: &BenchmarkProjection) -> (result: CandidateTruth)
        ensures
            result == candidate(*self, *projection),
    {
        candidate_truth(self, projection)
    }

    pub fn evaluate_canonical(&self, projection: &BenchmarkProjection, body: &str) -> (result: bool)
        ensures
            result == holds(*self, *projection, body@),
    {
        canonical_truth(self, projection, body)
    }
}

impl CompiledCandidate {
    pub fn evaluate_candidate(&self, projection: &BenchmarkProjection) -> (result: CandidateTruth)
        ensures
            result == candidate(self.expression, *projection),
    {
        self.expression.evaluate_candidate(projection)
    }

    pub fn evaluate_canonical(&self, projection: &BenchmarkProjection, body: &str) -> (result: bool)
        ensures
            result == holds(self.expression, *projection, body@),
    {
        self.expression.evaluate_canonical(projection, body)
    }
}

// ---------------------------------------------------------------------------
// Laws
// ---------------------------------------------------------------------------
/// A projection's verdict is right whatever the body is: a condition that it calls
/// impossible never holds, and one that it calls possible always does.
pub proof fn lemma_candidates_have_no_false_negatives(
    expression: CandidateExpression,
    projection: BenchmarkProjection,
    body: Seq<char>,
)
    ensures
        holds(expression, projection, body) ==> candidate(expression, projection)
            != CandidateTruth::Impossible,
        !holds(expression, projection, body) ==> candidate(expression, projection)
            != CandidateTruth::Possible,
    decreases expression,
{
    match expression {
        CandidateExpression::All { all } => {
            assert forall|i: int| 0 <= i < all@.len() implies (holds(
                #[trigger] all@[i],
                projection,
                body,
            ) ==> candidate(all@[i], projection) != CandidateTruth::Impossible) && (!holds(
                all@[i],
                projection,
                body,
            ) ==> candidate(all@[i], projection) != CandidateTruth::Possible) by {
                lemma_candidates_have_no_false_negatives(all@[i], projection, body);
            }
        },
        CandidateExpression::Any { any } => {
            assert forall|i: int| 0 <= i < any@.len() implies (holds(
                #[trigger] any@[i],
                projection,
                body,
            ) ==> candidate(any@[i], projection) != CandidateTruth::Impossible) && (!holds(
                any@[i],
                projection,
                body,
            ) ==> candidate(any@[i], projection) != CandidateTruth::Possible) by {
                lemma_candidates_have_no_false_negatives(any@[i], projection, body);
            }
        },
        CandidateExpression::Not { not } => {
            lemma_candidates_have_no_false_negatives(*not, projection, body);
        },
        _ => {},
    }
}

} // verus!
