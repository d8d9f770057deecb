//! The compiled facts about a collection that records are evaluated against.

use crate::json::{Json, Member};
use crate::text::same_text;
use vstd::prelude::*;

verus! {

/// One field of a type: its kind, its values when it is an enumeration, and its
/// own fields when it is nested.
#[derive(Debug)]
pub struct FieldDef {
    pub name: String,
    pub field_type: String,
    pub values: Option<Vec<String>>,
    pub fields: Option<Vec<FieldDef>>,
}

/// One record type.
#[derive(Debug)]
pub struct TypeDefinition {
    pub name: String,
    pub fields: Vec<FieldDef>,
    /// Whether an expression decides which records have the type.
    pub has_match_expression: bool,
    /// Whether records of the type have computed fields.
    pub has_computed_fields: bool,
    /// Fields whose values no two records of the type may share.
    pub unique_fields: Vec<String>,
}

/// The settings of a collection.
#[derive(Debug)]
pub struct Settings {
    pub extensions: Vec<String>,
    pub exclude: Vec<String>,
    pub include_subfolders: bool,
    pub types_folder: String,
    pub contracts_folder: String,
    pub migrations_folder: String,
    pub explicit_type_keys: Vec<String>,
    pub write_defaults: bool,
    pub default_validation: String,
    pub default_strict: Json,
    pub timezone: Option<String>,
    pub id_field: String,
    pub id_field_explicit: bool,
    pub write_nulls: String,
    pub write_empty_lists: bool,
    pub rename_update_refs: bool,
    pub cache_folder: String,
}

/// A collection's settings and types.
#[derive(Debug)]
pub struct Collection {
    pub settings: Settings,
    pub config_extensions: Vec<Member>,
    pub types: Vec<TypeDefinition>,
    pub type_warnings: Vec<String>,
}

/// The position of the first field with a name; the number of fields without one.
pub open spec fn field_at(fields: Seq<FieldDef>, name: Seq<char>) -> int
    decreases fields.len(),
{
    if fields.len() == 0 || fields[0].name@ == name {
        0
    } else {
        1 + field_at(fields.drop_first(), name)
    }
}

pub proof fn lemma_field_at(fields: Seq<FieldDef>, name: Seq<char>)
    ensures
        0 <= field_at(fields, name) <= fields.len(),
    decreases fields.len(),
{
    if fields.len() > 0 && fields[0].name@ != name {
        lemma_field_at(fields.drop_first(), name);
    }
}

pub fn find_field(fields: &Vec<FieldDef>, name: &str) -> (result: Option<usize>)
    ensures
        match result {
            Some(i) => i < fields@.len() && i == field_at(fields@, name@),
            None => field_at(fields@, name@) == fields@.len(),
        },
{
    let mut i: usize = 0;
    proof {
        assert(fields@.skip(0) =~= fields@);
    }
    while i < fields.len()
        invariant
            i <= fields@.len(),
            field_at(fields@, name@) == i + field_at(fields@.skip(i as int), name@),
        decreases fields@.len() - i,
    {
        proof {
            assert(fields@.skip(i as int).drop_first() =~= fields@.skip(i + 1));
        }
        if same_text(fields[i].name.as_str(), name) {
            return Some(i);
        }
        i = i + 1;
    }
    None
}

/// The position of the first type with a name; the number of types without one.
pub open spec fn type_at(types: Seq<TypeDefinition>, name: Seq<char>) -> int
    decreases types.len(),
{
    if types.len() == 0 || types[0].name@ == name {
        0
    } else {
        1 + type_at(types.drop_first(), name)
    }
}

pub fn find_type(types: &Vec<TypeDefinition>, name: &str) -> (result: Option<usize>)
    ensures
        match result {
            Some(i) => i < types@.len() && i == type_at(types@, name@),
            None => type_at(types@, name@) == types@.len(),
        },
{
    let mut i: usize = 0;
    proof {
        assert(types@.skip(0) =~= types@);
    }
    while i < types.len()
        invariant
            i <= types@.len(),
            type_at(types@, name@) == i + type_at(types@.skip(i as int), name@),
        decreases types@.len() - i,
    {
        proof {
            assert(types@.skip(i as int).drop_first() =~= types@.skip(i + 1));
        }
        if same_text(types[i].name.as_str(), name) {
            return Some(i);
        }
        i = i + 1;
    }
    None
}

} // verus!
