use mdbase::base_graph::projection_file;
use mdbase::catalog::{
    catalog_error_from_diagnostic, catalog_error_from_value, configured_folders,
    settings_from_config, CatalogInput, FolderFacts, LoadedTypes, ParsedDocument,
    ResolvedTypeResource,
};
use mdbase::collection::TypeDefinition;
use mdbase::context::{
    CaptureLimits, OperationCancellation, OperationContext, OperationDeadline,
};
use mdbase::diagnostics::{CatalogError, Diagnostic};
use mdbase::digest::revision;
use mdbase::gate::GateState;
use mdbase::cache_source::{local_record, LocalRecord};
use mdbase::hosted_base::{
    BaseAnalysis, BaseFailure, BaseTerm, BaseView, HostedBaseEvaluation, HostedBasePlan,
    HostedBasePlanning, HostedBaseRecordContext, HostedBaseRow, NamedBaseView, ParsedBase, PropertyOutcome,
    ViewRequest,
};
use mdbase::hosted_query::CompiledCatalog;
use mdbase::json::{Json, JsonNumber, Member};
use mdbase::projection::{
    CanonicalRecordInput, ProjectedFile, ResolvedRecordStructure, ResolvedStructuralOccurrence,
    SemanticProjection, SemanticProjectionFacts, StructuralResolution, StructuralSourceKind,
};
use mdbase::provider_error::ProviderError;
use mdbase::record_load::{
    admit_part, classify_bytes, facts, finish_open_record, record_open_error, FrontmatterState,
    InvalidRecordReason, InvalidRecordView, ParsedDocumentLayout, ReadWitness, RecordAnalysis,
    RecordLoadOutcome,
};
use mdbase::record_path::{has_hidden_component, RecordPathError, RecordPathFacts};
use mdbase::text::Order;
use mdbase::text_map::TextMap;
use std::time::Duration;

fn convert(value: &serde_json::Value) -> Json {
    match value {
        serde_json::Value::Null => Json::Null,
        serde_json::Value::Bool(value) => Json::Bool(*value),
        serde_json::Value::Number(number) => {
            if let Some(value) = number.as_u64() {
                Json::Number(JsonNumber::Unsigned(value))
            } else if let Some(value) = number.as_i64() {
                Json::Number(JsonNumber::Negative(value))
            } else {
                Json::Number(JsonNumber::Decimal(number.to_string()))
            }
        }
        serde_json::Value::String(text) => Json::Text(text.clone()),
        serde_json::Value::Array(items) => Json::Array(items.iter().map(convert).collect()),
        serde_json::Value::Object(members) => Json::Object(
            members
                .iter()
                .map(|(key, value)| Member {
                    key: key.clone(),
                    value: convert(value),
                })
                .collect(),
        ),
    }
}

fn json(text: &str) -> Json {
    convert(&serde_json::from_str(text).unwrap())
}

fn members(text: &str) -> Vec<Member> {
    match json(text) {
        Json::Object(members) => members,
        _ => panic!("expected an object"),
    }
}

// Catalogs

fn folders() -> FolderFacts {
    FolderFacts {
        types_folder: Ok("_types".to_string()),
        contracts_folder: Ok("_contracts".to_string()),
        migrations_folder: Ok("_types/_migrations".to_string()),
        cache_folder: Ok(".mdbase".to_string()),
    }
}

fn catalog_input() -> CatalogInput {
    CatalogInput {
        resource_revision: "resources-1".to_string(),
        engine_version: "engine-1".to_string(),
        configuration: json(
            "{\"valid\": true, \"config\": {\"spec_version\": \"0.3.0\", \"spec_profile\": \"v0.3\", \"x-mine\": 1, \"settings\": {\"default_validation\": \"warn\"}}}",
        ),
        folders: folders(),
        types: vec![ResolvedTypeResource {
            path: "_types/task.md".to_string(),
            revision: "type-1".to_string(),
            definition: json("{\"kind\": \"mdbase.type\", \"name\": \"task\", \"version\": 1}"),
            schema: json("{\"type\": \"object\"}"),
            diagnostics: Vec::new(),
        }],
        loaded: Ok(LoadedTypes {
            types: vec![TypeDefinition {
                name: "task".to_string(),
                fields: Vec::new(),
                has_match_expression: false,
                has_computed_fields: false,
                unique_fields: Vec::new(),
            }],
            warnings: vec!["note".to_string()],
            inheritance_fault: None,
            plan_fault: None,
            contract_fault: None,
        }),
    }
}

fn catalog() -> CompiledCatalog {
    CompiledCatalog::compile(catalog_input()).unwrap()
}

fn path_facts(path: &str, excluded: bool, record_extension: bool) -> RecordPathFacts {
    RecordPathFacts {
        normal: Ok(path.to_string()),
        excluded,
        record_extension,
    }
}

fn record(path: &str, document: &str) -> CanonicalRecordInput {
    CanonicalRecordInput {
        stable_id: None,
        path: path.to_string(),
        document: document.to_string(),
        file_size: document.len() as u64,
        file_mtime: None,
    }
}

#[test]
fn compiled_catalogs_hold_their_input() {
    let catalog = catalog();
    assert_eq!(catalog.resource_revision(), "resources-1");
    assert_eq!(catalog.type_warnings(), &vec!["note".to_string()]);
    assert_eq!(catalog.id_field(), "id");
    assert!(catalog.record_extensions().is_empty());
    assert_eq!(catalog.collection.types[0].name, "task");
    assert_eq!(catalog.collection.config_extensions.len(), 1);
    assert_eq!(catalog.collection.config_extensions[0].key, "x-mine");
    assert_eq!(catalog.collection.settings.default_validation, "warn");
    assert_eq!(
        catalog.collection.settings.exclude,
        vec![".git", "node_modules", ".mdbase"]
    );
}

fn compile_code(change: fn(&mut CatalogInput)) -> String {
    let mut input = catalog_input();
    change(&mut input);
    CompiledCatalog::compile(input).unwrap_err().code
}

fn loaded(input: &mut CatalogInput) -> &mut LoadedTypes {
    input.loaded.as_mut().unwrap()
}

#[test]
fn catalogs_are_refused_with_their_own_errors() {
    assert_eq!(
        compile_code(|input| {
            input.configuration =
                json("{\"valid\": false, \"error\": {\"code\": \"bad\", \"message\": \"m\"}}")
        }),
        "bad"
    );
    assert_eq!(
        compile_code(|input| input.configuration = json("{}")),
        "invalid_config"
    );
    assert_eq!(
        compile_code(|input| input.configuration = json("{\"valid\": true}")),
        "invalid_config"
    );
    assert_eq!(
        compile_code(|input| input.configuration = json("{\"valid\": true, \"config\": {}}")),
        "unsupported_profile"
    );
    assert_eq!(
        compile_code(|input| input.folders.types_folder = Ok("a/.hidden".to_string())),
        "invalid_config"
    );
    assert_eq!(
        compile_code(|input| input.types[0].definition = Json::Null),
        "invalid_type_definition"
    );
    assert_eq!(
        compile_code(|input| input.types[0].schema = Json::Bool(true)),
        "invalid_embedded_schema"
    );
    assert_eq!(
        compile_code(|input| {
            input.types[0]
                .diagnostics
                .push(Diagnostic::error("type_fault", "wrong", None))
        }),
        "type_fault"
    );
    assert_eq!(
        compile_code(|input| input.loaded = Err("wrong".to_string())),
        "invalid_type_definition"
    );
    assert_eq!(
        compile_code(|input| loaded(input).inheritance_fault =
            Some("Circular inheritance: a".to_string())),
        "circular_inheritance"
    );
    assert_eq!(
        compile_code(
            |input| loaded(input).plan_fault = Some(CatalogError::new("plan_fault", "wrong"))
        ),
        "plan_fault"
    );
    assert_eq!(
        compile_code(|input| loaded(input).contract_fault =
            Some(CatalogError::new("contract_fault", "wrong"))),
        "contract_fault"
    );
}

#[test]
fn folder_settings_have_usual_values_and_messages() {
    let config = json("{\"settings\": {\"types_folder\": \"kinds\"}}");
    assert_eq!(
        configured_folders(&config),
        (
            "kinds".to_string(),
            "_contracts".to_string(),
            "_types/_migrations".to_string(),
            ".mdbase".to_string()
        )
    );
    let mut broken = folders();
    broken.cache_folder = Err("it is absolute".to_string());
    let error = settings_from_config(&config, &broken).unwrap_err();
    assert_eq!(
        error.message,
        "settings.cache_folder is not a portable collection path: it is absolute"
    );
    let mut hidden = folders();
    hidden.contracts_folder = Ok(".contracts".to_string());
    let error = settings_from_config(&config, &hidden).unwrap_err();
    assert_eq!(
        error.message,
        "settings.contracts_folder must not use a hidden filesystem namespace"
    );
    assert_eq!(
        catalog_error_from_value(&json("{\"message\": \"own\"}"), "other").to_text(),
        "other: own"
    );
    let error = catalog_error_from_diagnostic(&Diagnostic::error("code", "message", None));
    assert_eq!(error.code, "code");
    assert_eq!(error.message, "message");
}

#[test]
fn classifies_exact_records_without_a_collection_root() {
    let classified = catalog()
        .classify_record(
            &record("tasks/one.md", "---\nscore: 3\n---\nBody\n"),
            &path_facts("tasks/one.md", false, true),
            &ParsedDocument {
                frontmatter: json("{\"score\": 3}"),
                body: "Body\n".to_string(),
                types: vec!["task".to_string()],
                frontmatter_error: None,
            },
        )
        .unwrap();
    assert_eq!(classified.path, "tasks/one.md");
    assert_eq!(
        classified.revision,
        revision(classified.document.as_bytes())
    );
    assert_eq!(
        classified.frontmatter.get("score"),
        Some(&Json::unsigned(3))
    );
    assert_eq!(classified.body, "Body\n");
    assert_eq!(classified.types, ["task"]);
    assert_eq!(classified.frontmatter_error, None);
}

#[test]
fn exact_classification_rejects_non_record_paths() {
    let escaping = RecordPathFacts {
        normal: Err("path escapes the collection".to_string()),
        excluded: false,
        record_extension: true,
    };
    for (path, known) in [
        ("../escape.md", escaping),
        ("_types/task.md", path_facts("_types/task.md", true, true)),
        ("payload.bin", path_facts("payload.bin", false, false)),
    ] {
        let error = catalog()
            .classify_record(
                &record(path, "Body\n"),
                &known,
                &ParsedDocument {
                    frontmatter: json("{}"),
                    body: "Body\n".to_string(),
                    types: Vec::new(),
                    frontmatter_error: None,
                },
            )
            .unwrap_err();
        assert_eq!(error.code, "invalid_path");
        assert!(catalog().parse_record_structure(&known, 1_u8).is_err());
        assert!(catalog().project_record_structure(&known, 1_u8).is_err());
    }
    let known = path_facts("a.md", false, true);
    assert_eq!(catalog().parse_record_structure(&known, 1_u8).unwrap(), 1);
    assert_eq!(catalog().project_record_structure(&known, 2_u8).unwrap(), 2);
}

// Record paths

#[test]
fn record_policy_separates_records_from_control_and_hidden_namespaces() {
    let collection = catalog().collection;
    assert_eq!(
        collection.validate_record_path(&path_facts("notes/example.mdx", false, true)),
        Ok("notes/example.mdx".to_string())
    );
    assert_eq!(
        collection.validate_record_path(&path_facts("payload.bat", false, false)),
        Err(RecordPathError::UnsupportedExtension)
    );
    for (path, excluded) in [
        ("mdbase.yaml", true),
        ("_types/task.md", true),
        ("_contracts/task.md", true),
        (".git/hooks/post-checkout.md", true),
        (".obsidian/plugins/example/main.md", false),
        ("notes/.private/example.md", false),
    ] {
        assert!(
            collection
                .validate_record_path(&path_facts(path, excluded, true))
                .is_err(),
            "{path} must not be an ordinary record path"
        );
    }
}

#[test]
fn path_errors_tell_what_is_wrong() {
    let collection = catalog().collection;
    let text = |facts: &RecordPathFacts| {
        collection
            .validate_record_path(facts)
            .unwrap_err()
            .to_text()
    };
    assert_eq!(
        text(&path_facts("a/.b/c.md", true, false)),
        "record paths must not use hidden filesystem components"
    );
    assert_eq!(
        text(&path_facts("a.md", true, false)),
        "path is reserved or excluded from ordinary collection records"
    );
    assert_eq!(
        text(&path_facts("a", false, false)),
        "path does not use a configured record extension"
    );
    assert!(!has_hidden_component("a/b.c/d."));
    assert!(has_hidden_component(".a"));
    assert!(has_hidden_component("a/.b"));
}

// Loading

fn analysis(had_bom: bool, body: &str, frontmatter: FrontmatterState) -> RecordAnalysis {
    RecordAnalysis {
        layout: ParsedDocumentLayout {
            had_bom,
            body: body.to_string(),
            frontmatter,
        },
        path_types: vec!["path".to_string()],
        path_frontmatter: json("{\"from\": \"path\"}"),
        types: vec!["full".to_string()],
        effective_frontmatter: json("{\"from\": \"record\"}"),
    }
}

fn classify(source: &[u8], analysis: RecordAnalysis) -> RecordLoadOutcome {
    let known = facts(&source.to_vec(), Some(1), None);
    classify_bytes("note.md", source.to_vec(), known, analysis)
}

#[test]
fn parsed_outcome_retains_rewrite_parse_and_bom() {
    let outcome = classify(
        b"\xef\xbb\xbf---\ntitle: retained\n---\nBody\n",
        analysis(
            true,
            "Body\n",
            FrontmatterState::Mapping(json("{\"title\": \"retained\"}")),
        ),
    );
    let view = outcome.parsed().unwrap();
    assert_eq!(view.raw_frontmatter, &json("{\"title\": \"retained\"}"));
    assert_eq!(view.effective_frontmatter, &json("{\"from\": \"record\"}"));
    assert_eq!(view.type_names, &vec!["full".to_string()]);
    assert!(outcome.invalid().is_none());
    assert_eq!(outcome.reason(), None);
    assert_eq!(outcome.path(), "note.md");
    let RecordLoadOutcome::Parsed {
        document, layout, ..
    } = outcome
    else {
        panic!("expected parsed record");
    };
    assert!(layout.had_bom);
    assert!(document.starts_with('\u{feff}'));
    assert_eq!(layout.body, "Body\n");
}

#[test]
fn invalid_owned_states_have_closed_borrowed_views() {
    let frontmatter = classify(
        b"\xef\xbb\xbf---\na: [broken\n---\nBody\n",
        analysis(true, "Body\n", FrontmatterState::InvalidYaml),
    );
    match frontmatter.invalid() {
        Some(InvalidRecordView::Frontmatter {
            document,
            layout,
            reason,
            ..
        }) => {
            assert_eq!(reason, InvalidRecordReason::InvalidYaml);
            assert!(layout.had_bom);
            assert_eq!(layout.body, "Body\n");
            assert_eq!(frontmatter.document(), Some(document));
            assert_eq!(frontmatter.body(), Some("Body\n"));
            assert_eq!(frontmatter.had_bom(), Some(true));
        }
        Some(InvalidRecordView::InvalidUtf8 { .. }) | None => {
            panic!("expected authored invalid state")
        }
    }
    assert_eq!(
        frontmatter.effective_frontmatter(),
        Some(&json("{\"from\": \"path\"}"))
    );
    assert_eq!(frontmatter.type_names(), &vec!["path".to_string()]);

    let invalid_utf8 = classify(
        b"bad\xffutf8",
        analysis(false, "", FrontmatterState::Absent),
    );
    assert!(matches!(
        invalid_utf8.invalid(),
        Some(InvalidRecordView::InvalidUtf8 { .. })
    ));
    assert_eq!(
        invalid_utf8.reason(),
        Some(InvalidRecordReason::InvalidUtf8)
    );
    assert_eq!(invalid_utf8.document(), None);
    assert_eq!(invalid_utf8.body(), None);
    assert_eq!(invalid_utf8.had_bom(), None);
}

#[test]
fn byte_first_loader_matrix_has_closed_reasons_and_byte_revisions() {
    let parsed = [
        (b"Body only".as_slice(), FrontmatterState::Absent),
        (
            b"---\n---\nBody".as_slice(),
            FrontmatterState::Mapping(json("{}")),
        ),
        (
            b"\xef\xbb\xbf---\ntitle: yes\n---\nBody".as_slice(),
            FrontmatterState::Mapping(json("{\"title\": true}")),
        ),
    ];
    for (source, state) in parsed {
        let outcome = classify(source, analysis(false, "Body", state));
        assert!(matches!(outcome, RecordLoadOutcome::Parsed { .. }));
        assert_eq!(outcome.facts().revision, revision(source));
    }
    let invalid = [
        (
            b"---\na: 1\na: 2\n---\n".as_slice(),
            FrontmatterState::InvalidYaml,
            InvalidRecordReason::InvalidYaml,
        ),
        (
            b"---\n\ttab: bad\n---\n".as_slice(),
            FrontmatterState::InvalidYaml,
            InvalidRecordReason::InvalidYaml,
        ),
        (
            b"---\na: [broken\n---\n".as_slice(),
            FrontmatterState::InvalidYaml,
            InvalidRecordReason::InvalidYaml,
        ),
        (
            b"---\nnull\n---\n".as_slice(),
            FrontmatterState::Null,
            InvalidRecordReason::NonMappingFrontmatter,
        ),
        (
            b"---\n- item\n---\n".as_slice(),
            FrontmatterState::NonMapping,
            InvalidRecordReason::NonMappingFrontmatter,
        ),
        (
            b"---\nscalar\n---\n".as_slice(),
            FrontmatterState::NonMapping,
            InvalidRecordReason::NonMappingFrontmatter,
        ),
        (
            b"bad\xffutf8.md".as_slice(),
            FrontmatterState::Absent,
            InvalidRecordReason::InvalidUtf8,
        ),
    ];
    for (source, state, expected) in invalid {
        let outcome = classify(source, analysis(false, "", state));
        assert_eq!(outcome.reason(), Some(expected));
        assert_eq!(outcome.facts().revision, revision(source));
    }
    assert_eq!(InvalidRecordReason::InvalidYaml.as_str(), "invalid_yaml");
    assert_eq!(
        InvalidRecordReason::NonMappingFrontmatter.as_str(),
        "non_mapping_frontmatter"
    );
    assert_eq!(InvalidRecordReason::InvalidUtf8.as_str(), "invalid_utf8");
}

#[test]
fn changed_files_are_not_loaded() {
    let witness = |after: u64, modified: Option<i64>| ReadWitness {
        size_before: 4,
        size_after: after,
        modified_before_ns: Some(7),
        modified_after_ns: modified,
        created_ns: Some(5),
    };
    let load = |witness: &ReadWitness, bytes: &[u8]| {
        finish_open_record(
            "note.md",
            witness,
            bytes.to_vec(),
            analysis(false, "Body", FrontmatterState::Absent),
        )
    };
    let loaded = load(&witness(4, Some(7)), b"Body").unwrap();
    assert_eq!(loaded.facts().size, 4);
    assert_eq!(loaded.facts().mtime_ns, 7);
    assert_eq!(loaded.facts().ctime_ns, Some(5));
    for (witness, bytes) in [
        (witness(5, Some(7)), b"Body".as_slice()),
        (witness(4, None), b"Body".as_slice()),
        (witness(4, Some(7)), b"Bodies".as_slice()),
    ] {
        assert!(matches!(
            load(&witness, bytes),
            Err(ProviderError::CollectionOpen(message))
                if message == "failed to read collection record 'note.md': record changed while it was being loaded"
        ));
    }
    assert!(matches!(
        record_open_error("a.md", "denied"),
        ProviderError::CollectionOpen(message)
            if message == "failed to open collection record 'a.md': denied"
    ));
}

#[test]
fn parts_are_admitted_within_the_budget() {
    let limits = CaptureLimits::builder()
        .max_file_bytes(10)
        .max_aggregate_bytes(12)
        .max_retained_bytes(12)
        .build();
    let context = OperationContext::with_capture_limits(
        &OperationCancellation::new(),
        OperationDeadline::after(Duration::from_secs(60)),
        limits,
    );
    assert!(admit_part(&context, 0, 6).is_ok());
    assert!(matches!(
        admit_part(&context, 6, 5),
        Err(ProviderError::CaptureLimitExceeded(_))
    ));
    assert!(admit_part(&context, 0, 6).is_ok());
    assert!(matches!(
        admit_part(&context, 0, 1),
        Err(ProviderError::CaptureLimitExceeded(_))
    ));
    assert!(matches!(
        admit_part(&context, u64::MAX, 1),
        Err(ProviderError::CaptureLimitExceeded(_))
    ));
}

// Text maps

#[test]
fn text_maps_hold_one_value_for_each_key() {
    let mut map = TextMap::new();
    assert_eq!(map.insert("b", "1"), None);
    assert_eq!(map.insert("a", "2"), None);
    assert_eq!(map.insert("b", "3"), Some("1".to_string()));
    assert_eq!(map.get("b"), Some("3"));
    assert_eq!(map.get("c"), None);
    assert_eq!(map.keys(), vec!["a", "b"]);
    let inverse = map.invert();
    assert_eq!(inverse.get("3"), Some("b"));
    assert_eq!(inverse.get("1"), None);
    let kept = map.copy();
    assert_eq!(map.remove("a"), Some("2".to_string()));
    assert_eq!(map.get("a"), None);
    assert_eq!(kept.get("a"), Some("2"));
}

// Readers and writers

#[test]
fn waiting_writers_keep_readers_out_until_they_withdraw() {
    let mut state = GateState {
        active_readers: 0,
        writer_active: false,
        waiting_writers: 0,
    };
    assert_eq!(state.enter_reader().unwrap(), true);
    state.announce_writer().unwrap();
    assert_eq!(state.enter_reader().unwrap(), false);
    assert!(!state.enter_writer());
    state.leave_reader();
    assert!(state.enter_writer());
    assert!(state.writer_active);
    assert_eq!(state.enter_reader().unwrap(), false);
    state.leave_writer();
    state.announce_writer().unwrap();
    state.withdraw_writer();
    assert_eq!(state.enter_reader().unwrap(), true);
}

// Bases

fn projection(path: &str, name: &str, frontmatter: &str) -> SemanticProjection {
    SemanticProjection {
        facts: SemanticProjectionFacts {
            schema_version: "projection-1".to_string(),
            format_version: 1,
            semantic_engine_version: "engine-1".to_string(),
            catalog_revision: "resources-1".to_string(),
            semantic_complete: true,
            path: path.to_string(),
            types: vec!["task".to_string()],
            file: ProjectedFile {
                path: path.to_string(),
                name: format!("{name}.md"),
                basename: name.to_string(),
                extension: "md".to_string(),
                size: 0,
                mtime: None,
            },
            persisted_frontmatter: members(frontmatter),
            effective_frontmatter: members(frontmatter),
            resolution_keys: Vec::new(),
        },
        structure: ResolvedRecordStructure {
            schema_version: "structure-1".to_string(),
            path: path.to_string(),
            structural_digest_is_valid: true,
            occurrences: Vec::new(),
            body_tags: Vec::new(),
            body_links: Vec::new(),
            body_embeds: Vec::new(),
        },
    }
}

fn base_analysis(path: &str, view: &str, source: &str, backlinks: bool) -> BaseAnalysis {
    let document = convert(&serde_yaml::from_str::<serde_json::Value>(source).unwrap());
    let source = match document.get("views") {
        Some(Json::Array(views)) => views[0].copy(),
        _ => Json::Null,
    };
    BaseAnalysis {
        request: Ok(ViewRequest {
            path: path.to_string(),
            view_id: view.to_string(),
            render: false,
            context: None,
            timezone: None,
            limit: None,
            offset: None,
        }),
        configured: true,
        base: Ok(ParsedBase {
            document,
            views: vec![NamedBaseView {
                id: view.to_string(),
                view: BaseView {
                    order: match source.get("order") {
                        Some(Json::Array(items)) => items
                            .iter()
                            .map(|item| item.as_str().unwrap().to_string())
                            .collect(),
                        _ => Vec::new(),
                    },
                    sort: match source.get("sort") {
                        Some(Json::Array(items)) => items
                            .iter()
                            .map(|item| BaseTerm {
                                property: item.get_str("property").unwrap().to_string(),
                                direction: item.get_str("direction").unwrap().to_string(),
                            })
                            .collect(),
                        _ => Vec::new(),
                    },
                    group_by: None,
                    limit: None,
                    source,
                },
                diagnostics: Vec::new(),
                uses_backlinks: backlinks,
            }],
        }),
        timezone: Ok(None),
        base_timezone_error: None,
    }
}

fn planned(analysis: &BaseAnalysis, record: &CanonicalRecordInput) -> HostedBasePlan {
    match catalog()
        .plan_hosted_obsidian_base(analysis, record, &Vec::new())
        .unwrap()
    {
        HostedBasePlanning::Planned { plan } => *plan,
        HostedBasePlanning::Invalid { .. } => panic!("expected hosted Base plan"),
    }
}

fn context_of(
    projection: SemanticProjection,
    related: Vec<SemanticProjection>,
    complete: bool,
) -> HostedBaseRecordContext {
    HostedBaseRecordContext {
        projection,
        related,
        relationship_neighborhood_complete: complete,
        query_context: None,
    }
}

fn outcome(property: &str, value: Json) -> PropertyOutcome {
    PropertyOutcome {
        property: property.to_string(),
        outcome: Ok(value),
    }
}

#[test]
fn plans_and_evaluates_tasknotes_base_from_projection_only() {
    let document = r#"filters:
  and:
    - 'file.hasTag("task")'
formulas:
  urgency: 'if(priority == "high", 2, 1)'
views:
  - type: tasknotesTaskList
    name: Open tasks
    filters:
      and:
        - 'status != "done"'
    order: [status, formula.urgency, file.name]
    sort:
      - property: formula.urgency
        direction: DESC
"#;
    let path = "TaskNotes/Views/tasks.base";
    let plan = planned(
        &base_analysis(path, "open-tasks", document, false),
        &record(path, document),
    );
    plan.validate_integrity().unwrap();
    assert!(!plan.requirements.backlinks);
    assert_eq!(
        plan.planned_properties(),
        vec!["file.name", "formula.urgency", "status"]
    );
    let task = || {
        projection(
            "tasks/high.md",
            "high",
            "{\"status\": \"todo\", \"priority\": \"high\", \"tags\": [\"task\"]}",
        )
    };
    assert_eq!(projection_file(&task()).tags, vec!["task"]);
    let values = || {
        vec![
            outcome("file.name", Json::text("high")),
            outcome("formula.urgency", Json::unsigned(2)),
            outcome("status", Json::text("todo")),
        ]
    };
    let evaluate = |filter: Result<bool, BaseFailure>| {
        plan.evaluate_record(
            &context_of(task(), Vec::new(), false),
            None,
            filter,
            &values(),
        )
    };
    let budget_error = evaluate(Err(BaseFailure::WorkBudget("too many steps".to_string())))
        .unwrap_err();
    assert_eq!(budget_error.code, "hosted_base_operator_budget_exceeded");
    let cancelled = evaluate(Err(BaseFailure::Cancelled("stopped".to_string()))).unwrap_err();
    assert_eq!(cancelled.code, "operation_cancelled");
    match evaluate(Err(BaseFailure::Other("no value".to_string()))).unwrap() {
        HostedBaseEvaluation::Excluded { diagnostics } => {
            assert_eq!(diagnostics[0].code, "expression_evaluation_error")
        }
        HostedBaseEvaluation::Included { .. } => panic!("expected an excluded row"),
    }
    assert!(matches!(
        evaluate(Ok(false)).unwrap(),
        HostedBaseEvaluation::Excluded { diagnostics } if diagnostics.is_empty()
    ));
    let HostedBaseEvaluation::Included { row } = evaluate(Ok(true)).unwrap() else {
        panic!("expected included row")
    };
    assert_eq!(row.path, "tasks/high.md");
    let value = |name: &str| {
        row.values
            .iter()
            .find(|member| member.key == name)
            .map(|member| member.value.copy())
    };
    assert_eq!(value("formula.urgency"), Some(Json::unsigned(2)));
    assert_eq!(value("file.name"), Some(Json::text("high")));
}

#[test]
fn plan_digest_and_scope_fail_closed() {
    let document =
        "views:\n  - type: table\n    name: Projects\n    filters: 'file.backlinks.length > 0'\n";
    let path = "views/projects.base";
    let analysis = base_analysis(path, "projects", document, true);
    let view = record(path, document);
    let scoped = catalog()
        .plan_hosted_obsidian_base(&analysis, &view, &vec!["task".to_string()])
        .unwrap();
    let HostedBasePlanning::Invalid { result } = scoped else {
        panic!("relationship view must fail closed for scoped capability")
    };
    assert_eq!(result.diagnostics[0].code, "scope_denied");

    let mut plan = planned(&analysis, &view);
    plan.view_id.push_str("-tampered");
    assert_eq!(
        plan.validate_integrity().unwrap_err().code,
        "hosted_base_plan_mismatch"
    );
}

#[test]
fn tasknotes_project_backlink_filter_uses_bounded_relationship_context() {
    let document = r##"views:
  - type: tasknotesProjects
    name: Projects
    filters:
      and:
        - 'file.backlinks.filter((value.asFile().properties["status"].isEmpty() == false) && (value.asFile().properties["status"] != "done") && (list(value.asFile().properties["projects"]).map(file(value.replace(/^\[[^\]]+\]\((.*)\)$/, "$1").replace("[[", "").replace("]]", "").split("|")[0].split("#")[0].replace(/%20/g, " ")).asLink()).contains(file.asLink()))).length > 0'
    order: [file.name, file.folder]
"##;
    let path = "views/projects.base";
    let plan = planned(
        &base_analysis(path, "projects", document, true),
        &record(path, document),
    );
    assert!(plan.requirements.backlinks);
    let project = || projection("Projects/mobile.md", "mobile", "{\"title\": \"Mobile roadmap\"}");
    let task = || {
        let mut task = projection(
            "tasks/project-task.md",
            "project-task",
            "{\"status\": \"todo\", \"projects\": [\"[[Projects/mobile]]\"]}",
        );
        task.structure
            .occurrences
            .push(ResolvedStructuralOccurrence {
                source_kind: StructuralSourceKind::Frontmatter,
                raw_target: "Projects/mobile".to_string(),
                normalized_target: Some("Projects/mobile".to_string()),
                resolution: StructuralResolution::Resolved,
                target_path: Some("Projects/mobile.md".to_string()),
            });
        task
    };
    let values = vec![
        outcome("file.folder", Json::text("Projects")),
        outcome("file.name", Json::text("mobile")),
    ];
    let incomplete = plan
        .evaluate_record(
            &context_of(project(), vec![task()], false),
            None,
            Ok(true),
            &values,
        )
        .unwrap_err();
    assert_eq!(incomplete.code, "hosted_base_relationship_state_incomplete");

    let evaluated = plan
        .evaluate_record(
            &context_of(project(), vec![task()], true),
            None,
            Ok(true),
            &values,
        )
        .unwrap();
    let HostedBaseEvaluation::Included { row } = evaluated else {
        panic!("bounded backlink context should include the project")
    };
    assert_eq!(row.path, "Projects/mobile.md");
    assert_eq!(row.effective_frontmatter[0].key, "title");
    assert_eq!(
        row.effective_frontmatter[0].value,
        Json::text("Mobile roadmap")
    );
    let stale = || {
        let mut stale = project();
        stale.facts.catalog_revision = "older".to_string();
        stale
    };
    let error = plan
        .evaluate_record(&context_of(stale(), Vec::new(), true), None, Ok(true), &values)
        .unwrap_err();
    assert_eq!(error.code, "hosted_base_projection_stale");
    let mut misplaced = project();
    misplaced.facts.file.path = "elsewhere.md".to_string();
    let error = plan
        .evaluate_record(&context_of(misplaced, Vec::new(), true), None, Ok(true), &values)
        .unwrap_err();
    assert_eq!(error.code, "hosted_base_projection_mismatch");
    let error = plan
        .evaluate_record(
            &context_of(project(), Vec::new(), true),
            Some("unknown zone".to_string()),
            Ok(true),
            &values,
        )
        .unwrap_err();
    assert_eq!(error.code, "invalid_timezone");
}

fn row(path: &str, urgency: Option<u64>) -> HostedBaseRow {
    let value = match urgency {
        Some(urgency) => Json::unsigned(urgency),
        None => Json::Null,
    };
    HostedBaseRow {
        path: path.to_string(),
        file: json("{}"),
        effective_frontmatter: Vec::new(),
        types: Vec::new(),
        values: Vec::new(),
        sort_values: vec![Member {
            key: "urgency".to_string(),
            value: value.copy(),
        }],
        group_value: Some(value),
    }
}

#[test]
fn base_rows_are_ordered_paged_and_grouped() {
    let document = "views:\n  - name: All\n    order: [urgency]\n    sort:\n      - property: urgency\n        direction: DESC\n";
    let mut analysis = base_analysis("views/all.base", "all", document, false);
    if let Ok(base) = &mut analysis.base {
        base.views[0].view.group_by = Some(BaseTerm {
            property: "urgency".to_string(),
            direction: "ASC".to_string(),
        });
    }
    let plan = planned(&analysis, &record("views/all.base", document));
    assert_eq!(plan.order_arity(), 1);
    let high = row("b.md", Some(2));
    let low = row("a.md", Some(1));
    let equal = row("c.md", Some(2));
    assert_eq!(plan.compare_rows(&high, &low), Order::Less);
    assert_eq!(plan.compare_rows(&low, &high), Order::Greater);
    assert_eq!(plan.compare_rows(&high, &equal), Order::Less);
    assert_eq!(plan.compare_rows(&high, &high), Order::Equal);
    let boundary = plan.row_order_values(&high);
    assert_eq!(boundary, vec![Json::unsigned(2)]);
    assert_eq!(
        plan.compare_row_to_boundary(&equal, &boundary, "b.md")
            .unwrap(),
        Order::Greater
    );
    assert_eq!(
        plan.compare_row_to_boundary(&equal, &Vec::new(), "b.md")
            .unwrap_err()
            .code,
        "hosted_base_cursor_mismatch"
    );
    let groups = plan
        .groups(&vec![row("x.md", Some(2)), row("y.md", None), row("z.md", Some(2))])
        .unwrap();
    assert_eq!(groups.len(), 2);
    let counts = groups
        .iter()
        .map(|group| group.get("count").unwrap().as_u64().unwrap())
        .sum::<u64>();
    assert_eq!(counts, 3);
}

#[test]
fn loaded_files_become_local_records() {
    let valid = classify(
        b"---\na: 1\n---\nBody",
        analysis(false, "Body", FrontmatterState::Mapping(json("{\"a\": 1}"))),
    );
    let LocalRecord::Parsed(record) = local_record(valid, false) else {
        panic!("expected a record")
    };
    assert_eq!(record.body, "");
    assert_eq!(record.raw_frontmatter, json("{\"a\": 1}"));
    assert_eq!(record.type_names, vec!["full"]);
    assert_eq!(
        record.file_mtime_iso.as_deref(),
        Some("1970-01-01T00:00:00Z")
    );
    let broken = classify(
        b"---\n- a\n---\n",
        analysis(false, "", FrontmatterState::NonMapping),
    );
    let LocalRecord::Invalid(stub) = local_record(broken, true) else {
        panic!("expected a stub")
    };
    assert_eq!(stub.reason, "non_mapping_frontmatter");
    assert_eq!(stub.type_names, vec!["path"]);
    assert_eq!(stub.source_revision, revision(b"---\n- a\n---\n"));
}

#[test]
fn types_are_staged_with_the_schema_they_resolve_to() {
    let resource = |definition: &str| ResolvedTypeResource {
        path: "_types/task.md".to_string(),
        revision: "type-1".to_string(),
        definition: json(definition),
        schema: json("{\"type\": \"object\"}"),
        diagnostics: Vec::new(),
    };
    assert_eq!(
        resource("{\"name\": \"task\", \"schema\": {\"$ref\": \"./task.json\", \"dialect\": \"x\"}}")
            .staged_definition(),
        json("{\"name\": \"task\", \"schema\": {\"dialect\": \"x\", \"value\": {\"type\": \"object\"}}}")
    );
    assert_eq!(
        resource("{\"name\": \"task\"}").staged_definition(),
        json("{\"name\": \"task\"}")
    );
    assert_eq!(
        resource("{\"name\": \"task\", \"schema\": {\"$ref\": \"./task.json\", \"dialect\": \"x\"}}")
            .staged_document()
            .unwrap(),
        "---\nname: task\nschema:\n  dialect: x\n  value:\n    type: object\n---\n"
    );
}
