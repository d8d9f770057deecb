//! Compiling a collection's resources to a catalog, and records against it.

use crate::canonical::{to_yaml_text, yaml_text};
use crate::collection::{Collection, Settings, TypeDefinition};
use crate::diagnostics::{CatalogError, Diagnostic};
use crate::diff::{CollectionSnapshotRecord, SnapshotModel};
use crate::digest::{digest_of, revision};
use crate::hosted_mutation::{fault, fault_of, CatalogFault};
use crate::hosted_query::CompiledCatalog;
use crate::json::{
    array_texts, bool_member, copy_members, drop_member, find_member, member_models, member_of,
    prefixed_members, put_member, select_prefixed, text_member, texts_of, with_member,
    without_member, Json, JsonModel,
};
use crate::projection::CanonicalRecordInput;
use crate::record_path::{record_path_of, RecordPathFacts};
use crate::text::{
    concat3, contains_text, copy_optional, copy_texts, has_part, optional_text, same_text, texts,
};
use vstd::prelude::*;
use vstd::string::StringExecFns;
use vstd::utf8::encode_utf8;

verus! {

/// One type resource with its schema.
#[derive(Debug)]
pub struct ResolvedTypeResource {
    pub path: String,
    pub revision: String,
    pub definition: Json,
    pub schema: Json,
    /// What validating the definition reported.
    pub diagnostics: Vec<Diagnostic>,
}

/// The types that loading the type resources gave.
#[derive(Debug)]
pub struct LoadedTypes {
    pub types: Vec<TypeDefinition>,
    pub warnings: Vec<String>,
    /// Why the inheritance between the types cannot be resolved.
    pub inheritance_fault: Option<String>,
    /// Why the types cannot be compiled.
    pub plan_fault: Option<CatalogError>,
    /// Why the contracts do not fit the types.
    pub contract_fault: Option<CatalogError>,
}

/// The normal forms of the configured folders, or why they have none.
#[derive(Debug)]
pub struct FolderFacts {
    pub types_folder: Result<String, String>,
    pub contracts_folder: Result<String, String>,
    pub migrations_folder: Result<String, String>,
    pub cache_folder: Result<String, String>,
}

/// What compiling a catalog starts from.
#[derive(Debug)]
pub struct CatalogInput {
    pub resource_revision: String,
    pub engine_version: String,
    /// The parsed configuration and whether it is valid.
    pub configuration: Json,
    pub folders: FolderFacts,
    pub types: Vec<ResolvedTypeResource>,
    pub loaded: Result<LoadedTypes, String>,
}

// ---------------------------------------------------------------------------
// Settings
// ---------------------------------------------------------------------------
/// The texts of a setting, or the usual ones.
pub open spec fn setting_texts(
    settings: JsonModel,
    key: Seq<char>,
    otherwise: Seq<Seq<char>>,
) -> Seq<Seq<char>> {
    match member_of(settings, key) {
        Some(JsonModel::Array(items)) => array_texts(Some(JsonModel::Array(items))),
        _ => otherwise,
    }
}

/// The text of a setting, or the usual one.
pub open spec fn setting_text(
    settings: JsonModel,
    key: Seq<char>,
    otherwise: Seq<char>,
) -> Seq<char> {
    match text_member(settings, key) {
        Some(text) => text,
        None => otherwise,
    }
}

/// The truth value of a setting, or the usual one.
pub open spec fn setting_bool(settings: JsonModel, key: Seq<char>, otherwise: bool) -> bool {
    match bool_member(settings, key) {
        Some(value) => value,
        None => otherwise,
    }
}

/// What is wrong with a configured folder.
pub open spec fn folder_fault(
    label: Seq<char>,
    folder: Result<String, String>,
    allow_hidden: bool,
) -> Option<CatalogFault> {
    match folder {
        Err(message) => Some(
            fault(
                "invalid_config"@,
                "settings."@ + label + " is not a portable collection path: "@ + message@,
            ),
        ),
        Ok(folder) => if !allow_hidden && has_hidden_folder(folder@) {
            Some(
                fault(
                    "invalid_config"@,
                    "settings."@ + label + " must not use a hidden filesystem namespace"@,
                ),
            )
        } else {
            None
        },
    }
}

/// Whether a component of a normal path starts with a dot.
pub open spec fn has_hidden_folder(path: Seq<char>) -> bool {
    exists|i: int|
        0 <= i < path.len() && (#[trigger] path[i]) == '.' && (i == 0 || path[i - 1] == '/')
}

/// What is wrong with the settings of a configuration.
pub open spec fn settings_fault(config: JsonModel, folders: FolderFacts) -> Option<CatalogFault> {
    match member_of(config, "settings"@) {
        Some(JsonModel::Object(_)) => if let Some(fault) = folder_fault(
            "types_folder"@,
            folders.types_folder,
            false,
        ) {
            Some(fault)
        } else if let Some(fault) = folder_fault(
            "contracts_folder"@,
            folders.contracts_folder,
            false,
        ) {
            Some(fault)
        } else if let Some(fault) = folder_fault(
            "migrations_folder"@,
            folders.migrations_folder,
            false,
        ) {
            Some(fault)
        } else {
            folder_fault("cache_folder"@, folders.cache_folder, true)
        },
        _ => Some(fault("invalid_config"@, "Parsed configuration settings are missing."@)),
    }
}

/// Whether settings are those of a configuration.
pub open spec fn are_settings(
    settings: Settings,
    config: JsonModel,
    folders: FolderFacts,
) -> bool {
    let source = member_of(config, "settings"@)->0;
    &&& texts(settings.extensions@) == setting_texts(source, "extensions"@, Seq::empty())
    &&& texts(settings.exclude@) == setting_texts(
        source,
        "exclude"@,
        seq![".git"@, "node_modules"@, ".mdbase"@],
    )
    &&& settings.include_subfolders == setting_bool(source, "include_subfolders"@, true)
    &&& folders.types_folder == Ok::<_, String>(settings.types_folder)
    &&& folders.contracts_folder == Ok::<_, String>(settings.contracts_folder)
    &&& folders.migrations_folder == Ok::<_, String>(settings.migrations_folder)
    &&& folders.cache_folder == Ok::<_, String>(settings.cache_folder)
    &&& texts(settings.explicit_type_keys@) == setting_texts(
        source,
        "explicit_type_keys"@,
        seq!["type"@, "types"@],
    )
    &&& !settings.write_defaults
    &&& settings.default_validation@ == setting_text(source, "default_validation"@, "warn"@)
    &&& settings.default_strict@ == match member_of(source, "default_strict"@) {
        Some(value) => value,
        None => JsonModel::Bool(false),
    }
    &&& crate::text::optional_text(settings.timezone) == text_member(source, "timezone"@)
    &&& settings.id_field@ == setting_text(source, "id_field"@, "id"@)
    &&& settings.id_field_explicit == setting_bool(source, "id_field_explicit"@, false)
    &&& settings.write_nulls@ == "explicit"@
    &&& settings.write_empty_lists == setting_bool(source, "write_empty_lists"@, true)
    &&& settings.rename_update_refs == setting_bool(source, "rename_update_refs"@, true)
}

/// The text of a folder setting before it is normalized.
pub open spec fn folder_setting(config: JsonModel, key: Seq<char>, otherwise: Seq<char>) -> Seq<
    char,
> {
    match member_of(config, "settings"@) {
        Some(settings) => setting_text(settings, key, otherwise),
        None => otherwise,
    }
}

/// The folder settings of a configuration before they are normalized, in the order
/// of types, contracts, migrations, and cache.
pub fn configured_folders(config: &Json) -> (result: (String, String, String, String))
    ensures
        result.0@ == folder_setting(config@, "types_folder"@, "_types"@),
        result.1@ == folder_setting(config@, "contracts_folder"@, "_contracts"@),
        result.2@ == folder_setting(config@, "migrations_folder"@, "_types/_migrations"@),
        result.3@ == folder_setting(config@, "cache_folder"@, ".mdbase"@),
{
    match config.get("settings") {
        Some(settings) => (
            string(settings, "types_folder", "_types"),
            string(settings, "contracts_folder", "_contracts"),
            string(settings, "migrations_folder", "_types/_migrations"),
            string(settings, "cache_folder", ".mdbase"),
        ),
        None => (
            "_types".to_owned(),
            "_contracts".to_owned(),
            "_types/_migrations".to_owned(),
            ".mdbase".to_owned(),
        ),
    }
}

fn string(settings: &Json, key: &str, otherwise: &str) -> (result: String)
    ensures
        result@ == setting_text(settings@, key@, otherwise@),
{
    match settings.get_str(key) {
        Some(text) => text.to_owned(),
        None => otherwise.to_owned(),
    }
}

fn boolean(settings: &Json, key: &str, otherwise: bool) -> (result: bool)
    ensures
        result == setting_bool(settings@, key@, otherwise),
{
    match settings.get_bool(key) {
        Some(value) => value,
        None => otherwise,
    }
}

fn strings(settings: &Json, key: &str, otherwise: Vec<String>) -> (result: Vec<String>)
    ensures
        texts(result@) == setting_texts(settings@, key@, texts(otherwise@)),
{
    match settings.get(key) {
        Some(member) => {
            if member.as_array().is_some() {
                texts_of(Some(member))
            } else {
                otherwise
            }
        },
        None => otherwise,
    }
}

fn is_hidden_folder(path: &str) -> (result: bool)
    ensures
        result == has_hidden_folder(path@),
{
    let chars = crate::text::chars_of(path);
    let mut i: usize = 0;
    while i < chars.len()
        invariant
            i <= chars@.len(),
            chars@ == path@,
            forall|k: int|
                0 <= k < i ==> !((#[trigger] path@[k]) == '.' && (k == 0 || path@[k - 1] == '/')),
        decreases chars@.len() - i,
    {
        if chars[i] == '.' {
            if i == 0 {
                return true;
            }
            if chars[i - 1] == '/' {
                return true;
            }
        }
        i = i + 1;
    }
    false
}

fn config_error(message: &str) -> (result: CatalogError)
    ensures
        fault_of(result) == fault("invalid_config"@, message@),
{
    CatalogError::new("invalid_config", message)
}

fn check_folder(label: &str, folder: &Result<String, String>, allow_hidden: bool) -> (result:
    Result<String, CatalogError>)
    ensures
        match result {
            Ok(normal) => folder_fault(label@, *folder, allow_hidden) is None && *folder == Ok::<
                _,
                String,
            >(normal),
            Err(error) => folder_fault(label@, *folder, allow_hidden) == Some(fault_of(error)),
        },
{
    match folder {
        Err(message) => Err(
            config_error(
                concat3("settings.", label, " is not a portable collection path: ").concat(
                    message.as_str(),
                ).as_str(),
            ),
        ),
        Ok(normal) => {
            if !allow_hidden && is_hidden_folder(normal.as_str()) {
                Err(
                    config_error(
                        concat3("settings.", label, " must not use a hidden filesystem namespace").as_str(),
                    ),
                )
            } else {
                Ok(normal.clone())
            }
        },
    }
}

fn two_texts(first: &str, second: &str) -> (result: Vec<String>)
    ensures
        texts(result@) == seq![first@, second@],
{
    let mut result: Vec<String> = Vec::new();
    result.push(first.to_owned());
    result.push(second.to_owned());
    proof {
        assert(texts(result@) =~= seq![first@, second@]);
    }
    result
}

/// The settings of a configuration.
pub fn settings_from_config(config: &Json, folders: &FolderFacts) -> (result: Result<
    Settings,
    CatalogError,
>)
    ensures
        match result {
            Ok(settings) => settings_fault(config@, *folders) is None && are_settings(
                settings,
                config@,
                *folders,
            ),
            Err(error) => settings_fault(config@, *folders) == Some(fault_of(error)),
        },
{
    let settings = match config.get("settings") {
        Some(settings) => settings,
        None => {
            return Err(config_error("Parsed configuration settings are missing."));
        },
    };
    if !settings.is_object() {
        return Err(config_error("Parsed configuration settings are missing."));
    }
    let types_folder = match check_folder("types_folder", &folders.types_folder, false) {
        Ok(folder) => folder,
        Err(error) => {
            return Err(error);
        },
    };
    let contracts_folder = match check_folder(
        "contracts_folder",
        &folders.contracts_folder,
        false,
    ) {
        Ok(folder) => folder,
        Err(error) => {
            return Err(error);
        },
    };
    let migrations_folder = match check_folder(
        "migrations_folder",
        &folders.migrations_folder,
        false,
    ) {
        Ok(folder) => folder,
        Err(error) => {
            return Err(error);
        },
    };
    let cache_folder = match check_folder("cache_folder", &folders.cache_folder, true) {
        Ok(folder) => folder,
        Err(error) => {
            return Err(error);
        },
    };
    let none: Vec<String> = Vec::new();
    proof {
        assert(texts(none@) =~= Seq::empty());
    }
    let mut exclude = two_texts(".git", "node_modules");
    let ghost first_two = exclude@;
    let third = ".mdbase".to_owned();
    exclude.push(third);
    proof {
        crate::text::lemma_texts_push(first_two, third);
        assert(texts(exclude@) =~= seq![".git"@, "node_modules"@, ".mdbase"@]);
    }
    Ok(
        Settings {
            extensions: strings(settings, "extensions", none),
            exclude: strings(settings, "exclude", exclude),
            include_subfolders: boolean(settings, "include_subfolders", true),
            types_folder,
            contracts_folder,
            migrations_folder,
            explicit_type_keys: strings(
                settings,
                "explicit_type_keys",
                two_texts("type", "types"),
            ),
            write_defaults: false,
            default_validation: string(settings, "default_validation", "warn"),
            default_strict: match settings.get("default_strict") {
                Some(value) => value.copy(),
                None => Json::Bool(false),
            },
            timezone: match settings.get_str("timezone") {
                Some(zone) => Some(zone.to_owned()),
                None => None,
            },
            id_field: string(settings, "id_field", "id"),
            id_field_explicit: boolean(settings, "id_field_explicit", false),
            write_nulls: "explicit".to_owned(),
            write_empty_lists: boolean(settings, "write_empty_lists", true),
            rename_update_refs: boolean(settings, "rename_update_refs", true),
            cache_folder,
        },
    )
}

// ---------------------------------------------------------------------------
// Errors
// ---------------------------------------------------------------------------
/// The error that a failed configuration reports.
pub open spec fn reported_fault(value: JsonModel, otherwise: Seq<char>) -> CatalogFault {
    let error = match member_of(value, "error"@) {
        Some(error) => error,
        None => value,
    };
    fault(
        setting_text(error, "code"@, otherwise),
        setting_text(error, "message"@, "Catalog compilation failed."@),
    )
}

pub fn catalog_error_from_value(value: &Json, fallback_code: &str) -> (result: CatalogError)
    ensures
        fault_of(result) == reported_fault(value@, fallback_code@),
{
    let error = match value.get("error") {
        Some(error) => error,
        None => value,
    };
    let code = string(error, "code", fallback_code);
    let message = string(error, "message", "Catalog compilation failed.");
    CatalogError::new(code.as_str(), message.as_str())
}

/// The code for a fault in the inheritance between types.
pub open spec fn inheritance_code(message: Seq<char>) -> Seq<char> {
    if has_part(message, "Circular"@) {
        "circular_inheritance"@
    } else if has_part(message, "Unknown type"@) || has_part(message, "extends unknown"@) {
        "missing_parent_type"@
    } else {
        "invalid_type_definition"@
    }
}

/// The first error among diagnostics.
pub open spec fn first_error(list: Seq<Diagnostic>) -> Option<CatalogFault>
    decreases list.len(),
{
    if list.len() == 0 {
        None
    } else if list[0].severity@ == "error"@ {
        Some(fault(list[0].code@, list[0].message@))
    } else {
        first_error(list.drop_first())
    }
}

/// What is wrong with one type resource.
pub open spec fn resource_fault(resource: ResolvedTypeResource) -> Option<CatalogFault> {
    if !(resource.definition@ is Object) {
        Some(
            fault(
                "invalid_type_definition"@,
                "Type resource '"@ + resource.path@ + "' is not an object."@,
            ),
        )
    } else if let Some(fault) = first_error(resource.diagnostics@) {
        Some(fault)
    } else if !(resource.schema@ is Object) {
        Some(
            fault(
                "invalid_embedded_schema"@,
                "Type resource '"@ + resource.path@
                    + "' did not resolve to a JSON Schema object."@,
            ),
        )
    } else {
        None
    }
}

/// What is wrong with the first type resource that has a fault.
pub open spec fn resources_fault(resources: Seq<ResolvedTypeResource>) -> Option<CatalogFault>
    decreases resources.len(),
{
    if resources.len() == 0 {
        None
    } else if let Some(fault) = resource_fault(resources[0]) {
        Some(fault)
    } else {
        resources_fault(resources.drop_first())
    }
}

/// What is wrong with the loaded types.
pub open spec fn loaded_fault(loaded: Result<LoadedTypes, String>) -> Option<CatalogFault> {
    match loaded {
        Err(message) => Some(fault("invalid_type_definition"@, message@)),
        Ok(loaded) => match (
            loaded.inheritance_fault,
            loaded.plan_fault,
            loaded.contract_fault,
        ) {
            (Some(message), _, _) => Some(fault(inheritance_code(message@), message@)),
            (None, Some(error), _) => Some(fault_of(error)),
            (None, None, Some(error)) => Some(fault_of(error)),
            (None, None, None) => None,
        },
    }
}

/// What is wrong with the input of a catalog, in the order in which it is looked
/// at.
pub open spec fn catalog_fault(input: CatalogInput) -> Option<CatalogFault> {
    let configuration = input.configuration@;
    if bool_member(configuration, "valid"@) != Some(true) {
        Some(reported_fault(configuration, "invalid_config"@))
    } else {
        match member_of(configuration, "config"@) {
            None => Some(
                fault("invalid_config"@, "Parsed configuration has no config object."@),
            ),
            Some(config) => if text_member(config, "spec_profile"@) != Some("v0.3"@) {
                Some(
                    fault(
                        "unsupported_profile"@,
                        "Incremental record catalogs require the canonical v0.3 profile."@,
                    ),
                )
            } else if let Some(fault) = settings_fault(config, input.folders) {
                Some(fault)
            } else if let Some(fault) = resources_fault(input.types@) {
                Some(fault)
            } else {
                loaded_fault(input.loaded)
            },
        }
    }
}

fn check_resource(resource: &ResolvedTypeResource) -> (result: Option<CatalogError>)
    ensures
        match result {
            Some(error) => resource_fault(*resource) == Some(fault_of(error)),
            None => resource_fault(*resource) is None,
        },
{
    if !resource.definition.is_object() {
        return Some(
            CatalogError::new(
                "invalid_type_definition",
                concat3("Type resource '", resource.path.as_str(), "' is not an object.").as_str(),
            ),
        );
    }
    let mut i: usize = 0;
    proof {
        assert(resource.diagnostics@.skip(0) =~= resource.diagnostics@);
    }
    while i < resource.diagnostics.len()
        invariant
            i <= resource.diagnostics@.len(),
            resource.definition@ is Object,
            first_error(resource.diagnostics@) == first_error(
                resource.diagnostics@.skip(i as int),
            ),
        decreases resource.diagnostics@.len() - i,
    {
        let diagnostic = &resource.diagnostics[i];
        proof {
            assert(resource.diagnostics@.skip(i as int)[0] == resource.diagnostics@[i as int]);
            assert(resource.diagnostics@.skip(i as int).drop_first()
                =~= resource.diagnostics@.skip(i + 1));
        }
        if same_text(diagnostic.severity.as_str(), "error") {
            return Some(catalog_error_from_diagnostic(diagnostic));
        }
        i = i + 1;
    }
    if !resource.schema.is_object() {
        return Some(
            CatalogError::new(
                "invalid_embedded_schema",
                concat3(
                    "Type resource '",
                    resource.path.as_str(),
                    "' did not resolve to a JSON Schema object.",
                ).as_str(),
            ),
        );
    }
    None
}

pub fn catalog_error_from_diagnostic(diagnostic: &Diagnostic) -> (result: CatalogError)
    ensures
        fault_of(result) == fault(diagnostic.code@, diagnostic.message@),
{
    CatalogError::new(diagnostic.code.as_str(), diagnostic.message.as_str())
}

fn check_resources(resources: &Vec<ResolvedTypeResource>) -> (result: Option<CatalogError>)
    ensures
        match result {
            Some(error) => resources_fault(resources@) == Some(fault_of(error)),
            None => resources_fault(resources@) is None,
        },
{
    let mut i: usize = 0;
    proof {
        assert(resources@.skip(0) =~= resources@);
    }
    while i < resources.len()
        invariant
            i <= resources@.len(),
            resources_fault(resources@) == resources_fault(resources@.skip(i as int)),
        decreases resources@.len() - i,
    {
        proof {
            assert(resources@.skip(i as int)[0] == resources@[i as int]);
            assert(resources@.skip(i as int).drop_first() =~= resources@.skip(i + 1));
        }
        if let Some(error) = check_resource(&resources[i]) {
            return Some(error);
        }
        i = i + 1;
    }
    None
}

fn inheritance_error(message: &str) -> (result: CatalogError)
    ensures
        fault_of(result) == fault(inheritance_code(message@), message@),
{
    let code = if contains_text(message, "Circular") {
        "circular_inheritance"
    } else if contains_text(message, "Unknown type") || contains_text(message, "extends unknown") {
        "missing_parent_type"
    } else {
        "invalid_type_definition"
    };
    CatalogError::new(code, message)
}

/// The members of a configuration that extend it.
pub open spec fn extensions_of(config: JsonModel) -> Seq<(Seq<char>, JsonModel)> {
    match config {
        JsonModel::Object(members) => prefixed_members(members, "x-"@),
        _ => Seq::empty(),
    }
}

/// The definition of a type as it is staged: where it has a schema, the schema it
/// resolved to stands in it in place of a reference.
pub open spec fn staged_definition(definition: JsonModel, schema: JsonModel) -> JsonModel {
    match member_of(definition, "schema"@) {
        Some(JsonModel::Object(members)) => JsonModel::Object(
            with_member(
                definition->Object_0,
                "schema"@,
                JsonModel::Object(
                    with_member(without_member(members, "$ref"@), "value"@, schema),
                ),
            ),
        ),
        _ => definition,
    }
}

impl ResolvedTypeResource {
    /// The definition as it is staged.
    pub fn staged_definition(&self) -> (result: Json)
        ensures
            result@ == staged_definition(self.definition@, self.schema@),
    {
        broadcast use crate::json::lemma_object_model;

        if let Some(members) = self.definition.as_object() {
            if let Some(Json::Object(schema)) = find_member(members, "schema") {
                let mut inner = drop_member(schema, "$ref");
                put_member(&mut inner, "value", self.schema.copy());
                let mut outer = copy_members(members);
                put_member(&mut outer, "schema", Json::Object(inner));
                return Json::Object(outer);
            }
        }
        self.definition.copy()
    }

    /// The document as it is staged: the definition, in YAML, as frontmatter.
    pub fn staged_document(&self) -> (result: Result<String, CatalogError>)
        ensures
            match (result, yaml_text(staged_definition(self.definition@, self.schema@))) {
                (Ok(document), Some(yaml)) => document@ == "---\n"@ + yaml + "---\n"@,
                (Err(error), None) => error.code@ == "hosted_mutation_stage_failed"@,
                _ => false,
            },
    {
        match to_yaml_text(&self.staged_definition()) {
            Ok(yaml) => Ok(concat3("---\n", yaml.as_str(), "---\n")),
            Err(reason) => Err(
                CatalogError {
                    code: "hosted_mutation_stage_failed".to_owned(),
                    message: "Hosted type resource could not be staged: ".to_owned().concat(
                        reason.as_str(),
                    ),
                },
            ),
        }
    }
}

/// The record of a document: its parts as they were parsed.
#[derive(Debug)]
pub struct ParsedDocument {
    pub frontmatter: Json,
    pub body: String,
    pub types: Vec<String>,
    pub frontmatter_error: Option<String>,
}

/// A record with what is known of its path and the parts of its document.
#[derive(Debug)]
pub struct ExactRecord {
    pub record: CanonicalRecordInput,
    pub path: RecordPathFacts,
    pub parsed: ParsedDocument,
}

impl ExactRecord {
    /// The record that a catalog classifies it as.
    pub open spec fn classification(&self) -> Result<SnapshotModel, CatalogFault> {
        classification(self.record.document@, self.path, self.parsed)
    }
}

/// The record that a catalog classifies a document as, with the revision of its
/// bytes; or the fault of its path.
pub open spec fn classification(
    document: Seq<char>,
    path: RecordPathFacts,
    parsed: ParsedDocument,
) -> Result<SnapshotModel, CatalogFault> {
    match record_path_of(path) {
        Ok(normal) => Ok(
            SnapshotModel {
                path: normal,
                revision: digest_of(encode_utf8(document)),
                frontmatter: parsed.frontmatter@,
                body: parsed.body@,
                types: texts(parsed.types@),
                document,
                frontmatter_error: optional_text(parsed.frontmatter_error),
            },
        ),
        Err(_) => Err(path_fault(path)),
    }
}

/// The fault of a path that is no record's.
pub open spec fn path_fault(facts: RecordPathFacts) -> CatalogFault {
    fault(
        "invalid_path"@,
        "The record path is invalid: "@ + (record_path_of(facts)->Err_0).text(),
    )
}

impl CompiledCatalog {
    /// Compiles a catalog.
    pub fn compile(input: CatalogInput) -> (result: Result<CompiledCatalog, CatalogError>)
        ensures
            match result {
                Ok(catalog) => {
                    let config = member_of(input.configuration@, "config"@)->0;
                    &&& catalog_fault(input) is None
                    &&& catalog.resource_revision == input.resource_revision
                    &&& catalog.engine_version == input.engine_version
                    &&& are_settings(catalog.collection.settings, config, input.folders)
                    &&& member_models(catalog.collection.config_extensions@) == extensions_of(
                        config,
                    )
                    &&& catalog.collection.types == (input.loaded->Ok_0).types
                    &&& catalog.collection.type_warnings == (input.loaded->Ok_0).warnings
                },
                Err(error) => catalog_fault(input) == Some(fault_of(error)),
            },
    {
        let valid = match input.configuration.get_bool("valid") {
            Some(valid) => valid,
            None => false,
        };
        if !valid {
            return Err(catalog_error_from_value(&input.configuration, "invalid_config"));
        }
        let config = match input.configuration.get("config") {
            Some(config) => config,
            None => {
                return Err(config_error("Parsed configuration has no config object."));
            },
        };
        let canonical = match config.get_str("spec_profile") {
            Some(profile) => same_text(profile, "v0.3"),
            None => false,
        };
        if !canonical {
            return Err(
                CatalogError::new(
                    "unsupported_profile",
                    "Incremental record catalogs require the canonical v0.3 profile.",
                ),
            );
        }
        let settings = match settings_from_config(config, &input.folders) {
            Ok(settings) => settings,
            Err(error) => {
                return Err(error);
            },
        };
        let config_extensions = match config.as_object() {
            Some(members) => select_prefixed(members, "x-"),
            None => crate::json::no_members(),
        };
        if let Some(error) = check_resources(&input.types) {
            return Err(error);
        }
        let loaded = match input.loaded {
            Ok(loaded) => loaded,
            Err(message) => {
                return Err(CatalogError::new("invalid_type_definition", message.as_str()));
            },
        };
        if let Some(message) = &loaded.inheritance_fault {
            return Err(inheritance_error(message.as_str()));
        }
        if let Some(error) = &loaded.plan_fault {
            return Err(CatalogError::new(error.code.as_str(), error.message.as_str()));
        }
        if let Some(error) = &loaded.contract_fault {
            return Err(CatalogError::new(error.code.as_str(), error.message.as_str()));
        }
        Ok(
            CompiledCatalog {
                resource_revision: input.resource_revision,
                engine_version: input.engine_version,
                collection: Collection {
                    settings,
                    config_extensions,
                    types: loaded.types,
                    type_warnings: loaded.warnings,
                },
            },
        )
    }

    pub fn resource_revision(&self) -> (result: &str)
        ensures
            result@ == self.resource_revision@,
    {
        self.resource_revision.as_str()
    }

    pub fn type_warnings(&self) -> (result: &Vec<String>)
        ensures
            *result == self.collection.type_warnings,
    {
        &self.collection.type_warnings
    }

    pub fn id_field(&self) -> (result: &str)
        ensures
            result@ == self.collection.settings.id_field@,
    {
        self.collection.settings.id_field.as_str()
    }

    pub fn record_extensions(&self) -> (result: &Vec<String>)
        ensures
            *result == self.collection.settings.extensions,
    {
        &self.collection.settings.extensions
    }

    /// Checks the path of a record.
    pub fn check_record_path(&self, path: &RecordPathFacts) -> (result: Result<
        String,
        CatalogError,
    >)
        ensures
            match result {
                Ok(normal) => record_path_of(*path) is Ok && normal@ == record_path_of(
                    *path,
                )->Ok_0,
                Err(error) => record_path_of(*path) is Err && fault_of(error) == path_fault(*path),
            },
    {
        match self.collection.validate_record_path(path) {
            Ok(normal) => Ok(normal),
            Err(error) => Err(
                CatalogError::new(
                    "invalid_path",
                    "The record path is invalid: ".to_owned().concat(
                        error.to_text().as_str(),
                    ).as_str(),
                ),
            ),
        }
    }

    /// The record of an exact document, with the revision of its bytes.
    pub fn classify_record(
        &self,
        record: &CanonicalRecordInput,
        path: &RecordPathFacts,
        parsed: &ParsedDocument,
    ) -> (result: Result<CollectionSnapshotRecord, CatalogError>)
        ensures
            match (result, classification(record.document@, *path, *parsed)) {
                (Ok(classified), Ok(expected)) => classified@ == expected,
                (Err(error), Err(expected)) => fault_of(error) == expected,
                _ => false,
            },
    {
        let normal = match self.check_record_path(path) {
            Ok(normal) => normal,
            Err(error) => {
                return Err(error);
            },
        };
        Ok(
            CollectionSnapshotRecord {
                path: normal,
                revision: revision(record.document.as_str().as_bytes()),
                frontmatter: parsed.frontmatter.copy(),
                body: parsed.body.clone(),
                types: copy_texts(&parsed.types),
                document: record.document.clone(),
                frontmatter_error: copy_optional(&parsed.frontmatter_error),
            },
        )
    }

    /// The record of an exact record.
    pub fn classify_exact(&self, exact: &ExactRecord) -> (result: Result<
        CollectionSnapshotRecord,
        CatalogError,
    >)
        ensures
            match (result, exact.classification()) {
                (Ok(classified), Ok(expected)) => classified@ == expected,
                (Err(error), Err(expected)) => fault_of(error) == expected,
                _ => false,
            },
    {
        self.classify_record(&exact.record, &exact.path, &exact.parsed)
    }

    /// The structure of a record, once its path is known to be one.
    pub fn parse_record_structure<T>(&self, path: &RecordPathFacts, structure: T) -> (result:
        Result<T, CatalogError>)
        ensures
            match result {
                Ok(found) => record_path_of(*path) is Ok && found == structure,
                Err(error) => record_path_of(*path) is Err && fault_of(error) == path_fault(*path),
            },
    {
        match self.check_record_path(path) {
            Ok(_) => Ok(structure),
            Err(error) => Err(error),
        }
    }

    /// The structure of a record as a projection.
    pub fn project_record_structure<T>(&self, path: &RecordPathFacts, structure: T) -> (result:
        Result<T, CatalogError>)
        ensures
            match result {
                Ok(found) => record_path_of(*path) is Ok && found == structure,
                Err(error) => record_path_of(*path) is Err && fault_of(error) == path_fault(*path),
            },
    {
        self.parse_record_structure(path, structure)
    }
}

} // verus!
