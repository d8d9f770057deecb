use mdbase::canonical_operation::{
    BatchItemResult, BatchOperationResult, BatchResult, CanonicalCollectionSetupValue,
    CanonicalDeleteValue, CanonicalOperationOutcome, CanonicalOperationValue, CanonicalQueryValue,
    CanonicalRenameValue, CanonicalTypePackValue, CommittedFileFacts, DeleteResult, RenameResult,
    WireOnlyOperationValue,
};
use mdbase::catalog::ParsedDocument;
use mdbase::changes::{
    CanonicalChange, ChangeSet, CollectionGeneration, RecordChange, RecordChangeKind,
};
use mdbase::collection::{Collection, Settings};
use mdbase::diagnostics::{CatalogError, Diagnostic, OperationResult};
use mdbase::diff::CollectionSnapshotRecord;
use mdbase::digest::revision;
use mdbase::filesystem::CommitRejection;
use mdbase::hosted_mutation::{
    batch_after_paths, hosted_record_change, HostedMutationRequest, MutationFacts, StagedCapture,
    StagedDocument,
};
use mdbase::hosted_query::CompiledCatalog;
use mdbase::json::{Json, JsonNumber, Member};
use mdbase::operation_values::{
    OperationKind, RecordDocument, RecordFile, Severity, TypedDiagnostic,
};
use mdbase::projection::CanonicalRecordInput;
use mdbase::provider_error::ProviderError;
use mdbase::record_path::RecordPathFacts;
use mdbase::resolutions::ExecutionOutcome;
use mdbase::text_map::TextMap;

fn convert(value: &serde_json::Value) -> Json {
    match value {
        serde_json::Value::Null => Json::Null,
        serde_json::Value::Bool(value) => Json::Bool(*value),
        serde_json::Value::Number(number) => {
            if let Some(value) = number.as_u64() {
                Json::Number(JsonNumber::Unsigned(value))
            } else if let Some(value) = number.as_i64() {
                Json::Number(JsonNumber::Negative(value))
            } else {
                Json::Number(JsonNumber::Decimal(number.to_string()))
            }
        }
        serde_json::Value::String(text) => Json::Text(text.clone()),
        serde_json::Value::Array(items) => Json::Array(items.iter().map(convert).collect()),
        serde_json::Value::Object(members) => Json::Object(
            members
                .iter()
                .map(|(key, value)| Member {
                    key: key.clone(),
                    value: convert(value),
                })
                .collect(),
        ),
    }
}

fn json(text: &str) -> Json {
    convert(&serde_json::from_str(text).unwrap())
}

fn record(path: &str) -> String {
    format!(
        "\"path\": \"{path}\", \"revision\": \"sha256:revision\", \"types\": [\"task\"],
         \"frontmatter\": {{\"title\": \"Typed\"}},
         \"effective_frontmatter\": {{\"title\": \"Typed\"}}, \"body\": \"body\\n\",
         \"document\": \"---\\ntitle: Typed\\n---\\nbody\\n\",
         \"file\": {{\"name\": \"{path}\", \"folder\": \"\", \"size\": 30, \"mtime\": \"2026-01-01T00:00:00Z\"}}"
    )
}

fn record_json(path: &str) -> Json {
    json(&format!("{{{}}}", record(path)))
}

fn wire(result: Json) -> OperationResult {
    let mut diagnostics = Vec::new();
    for severity in ["error", "warning", "info"] {
        diagnostics.push(Diagnostic {
            severity: severity.to_string(),
            code: format!("fixture_{severity}"),
            message: "fixture".to_string(),
            path: Some("a.md".to_string()),
            field: Some("title".to_string()),
            record_type: Some("task".to_string()),
            schema_location: Some("#/title".to_string()),
            details: Some(json(&format!(
                "{{\"exact\": true, \"severity\": \"{severity}\"}}"
            ))),
        });
    }
    OperationResult {
        valid: true,
        result,
        diagnostics,
    }
}

fn roundtrip(kind: OperationKind, value: Json) -> CanonicalOperationOutcome {
    let expected = wire(value);
    let typed = CanonicalOperationOutcome::recover_v03(kind, &expected).unwrap();
    assert_eq!(typed.to_v03(), expected);
    typed
}

#[test]
fn migrated_runtime_variants_are_typed_and_wire_exact() {
    assert!(matches!(
        roundtrip(OperationKind::Read, record_json("a.md")).value,
        CanonicalOperationValue::Read(Some(_))
    ));
    assert!(matches!(
        roundtrip(
            OperationKind::Query,
            json(&format!(
                "{{\"results\": [{{{}}}], \"meta\": {{\"total_count\": 1, \"has_more\": false}}, \"diagnostics\": []}}",
                record("a.md")
            ))
        )
        .value,
        CanonicalOperationValue::Query(Some(_))
    ));
    assert!(matches!(
        roundtrip(OperationKind::Create, record_json("a.md")).value,
        CanonicalOperationValue::Create(Some(_))
    ));
    assert!(matches!(
        roundtrip(OperationKind::Update, record_json("a.md")).value,
        CanonicalOperationValue::Update(Some(_))
    ));
    assert!(matches!(
        roundtrip(
            OperationKind::Delete,
            json("{\"path\": \"a.md\", \"deleted\": true}")
        )
        .value,
        CanonicalOperationValue::Delete(Some(CanonicalDeleteValue::Deleted(_)))
    ));
    assert!(matches!(
        roundtrip(
            OperationKind::Delete,
            json("{\"path\": \"a.md\", \"would_delete\": true, \"broken_links\": []}")
        )
        .value,
        CanonicalOperationValue::Delete(Some(CanonicalDeleteValue::Preflight(_)))
    ));
    assert!(matches!(
        roundtrip(
            OperationKind::Rename,
            json(&format!(
                "{{{}, \"from\": \"a.md\", \"to\": \"b.md\"}}",
                record("b.md")
            ))
        )
        .value,
        CanonicalOperationValue::Rename(Some(CanonicalRenameValue::Renamed(_)))
    ));
    assert!(matches!(
        roundtrip(
            OperationKind::Rename,
            json("{\"from\": \"a.md\", \"to\": \"b.md\", \"dry_run\": true, \"would_rename\": true}")
        )
        .value,
        CanonicalOperationValue::Rename(Some(CanonicalRenameValue::Preflight(_)))
    ));
    assert!(matches!(
        roundtrip(
            OperationKind::Batch,
            json("{\"operations\": [], \"succeeded\": 0, \"failed\": 0, \"preflight\": false, \"dry_run\": false}")
        )
        .value,
        CanonicalOperationValue::Batch(Some(_))
    ));
}

#[test]
fn query_wire_omits_deferred_total_but_retains_outcome() {
    let deferred = CanonicalOperationOutcome {
        valid: true,
        value: CanonicalOperationValue::Query(Some(CanonicalQueryValue {
            records: Vec::new(),
            total_count: None,
            has_more: true,
            meta: json(
                "{\"total_count\": 999, \"total_count_outcome\": {\"status\": \"deferred\"}}",
            ),
            embedded_diagnostics: Vec::new(),
        })),
        diagnostics: Vec::new(),
    };
    assert_eq!(
        deferred.to_v03().result,
        json(
            "{\"results\": [], \"meta\": {\"has_more\": true, \"total_count_outcome\": {\"status\": \"deferred\"}}, \"diagnostics\": []}"
        )
    );

    let exact = CanonicalOperationOutcome {
        value: CanonicalOperationValue::Query(Some(CanonicalQueryValue {
            records: Vec::new(),
            total_count: Some(7),
            has_more: false,
            meta: json("{}"),
            embedded_diagnostics: Vec::new(),
        })),
        ..deferred
    };
    assert_eq!(
        exact.to_v03().result.get_nested("meta", "total_count"),
        Some(&Json::unsigned(7))
    );
}

#[test]
fn deprecated_ephemeral_result_fields_compile_and_match_the_adapter() {
    let operation = roundtrip(OperationKind::Read, record_json("a.md"));
    let outcome = ExecutionOutcome::new(
        operation.copy(),
        CollectionGeneration {
            runtime_epoch: "epoch".to_string(),
            sequence: 0,
        },
        ChangeSet::Nothing,
        None,
        None,
    );
    assert_eq!(outcome.operation.to_v03(), operation.to_v03());

    let rejected = CanonicalOperationOutcome::invalid(
        OperationKind::Read,
        operation.diagnostics.iter().map(|item| item.copy()).collect(),
    );
    let rejection = CommitRejection {
        operation: rejected.copy(),
    };
    assert_eq!(rejection.operation.to_v03(), rejected.to_v03());
    assert!(!rejected.valid);
    assert_eq!(rejected.to_v03().result, json("{}"));
}

#[test]
fn wire_only_families_are_explicit_and_exact() {
    for kind in [
        OperationKind::Validate,
        OperationKind::ListViews,
        OperationKind::ReadType,
    ] {
        let typed = roundtrip(kind, json(&format!("{{\"family\": \"{}\"}}", kind.as_str())));
        assert!(matches!(typed.value, CanonicalOperationValue::WireOnly(_)));
    }
}

#[test]
fn definition_families_are_closed_typed_values_and_wire_exact() {
    let pack = roundtrip(
        OperationKind::AssessTypePack,
        json("{\"applicable\": true, \"assessment_digest\": \"sha256:pack\", \"status\": \"current\"}"),
    );
    assert!(matches!(
        pack.value,
        CanonicalOperationValue::TypePack(Some(CanonicalTypePackValue {
            applicable: true,
            ..
        }))
    ));

    let setup = roundtrip(
        OperationKind::AssessCollectionSetup,
        json(
            "{\"status\": \"current\", \"applicable\": true,
              \"application_id\": \"dev.mdbase.test\", \"declaration_digest\": \"sha256:d\",
              \"provision_digest\": \"sha256:p\", \"collection_revision\": \"sha256:c\",
              \"final_collection_revision\": \"sha256:c\", \"configuration\": [],
              \"type_packs\": [], \"final_resource_revisions\": {},
              \"baseline_diagnostic_count\": 0, \"final_diagnostic_count\": 0,
              \"resolved_diagnostic_count\": 0, \"introduced_diagnostic_count\": 0,
              \"baseline_diagnostic_digest\": \"sha256:b\", \"assessment_digest\": \"sha256:a\"}",
        ),
    );
    assert!(matches!(
        setup.value,
        CanonicalOperationValue::CollectionSetup(Some(CanonicalCollectionSetupValue::Assessment(
            _
        )))
    ));
}

#[test]
fn setup_values_with_a_receipt_or_conflicts_are_told_apart() {
    let applied = roundtrip(
        OperationKind::ApplyCollectionSetup,
        json("{\"assessment\": {\"status\": \"ready\"}, \"receipt\": {\"id\": 1}}"),
    );
    assert!(matches!(
        applied.value,
        CanonicalOperationValue::CollectionSetup(Some(
            CanonicalCollectionSetupValue::Applied(_)
        ))
    ));
    let conflict = roundtrip(
        OperationKind::ApplyCollectionSetup,
        json("{\"assessment\": {\"status\": \"blocked\"}, \"conflicts\": [1]}"),
    );
    assert!(matches!(
        conflict.value,
        CanonicalOperationValue::CollectionSetup(Some(
            CanonicalCollectionSetupValue::Conflict(_)
        ))
    ));
}

#[test]
fn results_of_another_shape_are_refused() {
    let missing = CanonicalOperationOutcome::recover_v03(
        OperationKind::Query,
        &wire(json("{\"meta\": {}}")),
    );
    assert_eq!(
        missing,
        Err(ProviderError::Transaction {
            code: "typed_outcome_decode_failed".to_string(),
            message: "query results must contain an array".to_string(),
        })
    );
    let other =
        CanonicalOperationOutcome::recover_v03(OperationKind::Read, &wire(json("{\"path\": 1}")));
    assert_eq!(
        other,
        Err(ProviderError::Transaction {
            code: "typed_outcome_decode_failed".to_string(),
            message: "operation value has another shape".to_string(),
        })
    );
}

#[test]
fn totals_of_queries_fall_back_to_the_number_of_records() {
    let outcome = CanonicalOperationOutcome::recover_v03(
        OperationKind::Query,
        &wire(json("{\"results\": [1, 2], \"meta\": {}}")),
    )
    .unwrap();
    match outcome.value {
        CanonicalOperationValue::Query(Some(query)) => {
            assert_eq!(query.total_count, Some(2));
            assert!(!query.has_more);
        }
        _ => panic!("expected a query"),
    }
    let deferred = CanonicalOperationOutcome::recover_v03(
        OperationKind::Query,
        &wire(json(
            "{\"results\": [1], \"meta\": {\"total_count_outcome\": \"deferred\", \"has_more\": true}}",
        )),
    )
    .unwrap();
    match deferred.value {
        CanonicalOperationValue::Query(Some(query)) => {
            assert_eq!(query.total_count, None);
            assert!(query.has_more);
        }
        _ => panic!("expected a query"),
    }
}

#[test]
fn kinds_name_their_values() {
    assert_eq!(
        CanonicalOperationValue::Rename(None).kind(),
        Some(OperationKind::Rename)
    );
    assert_eq!(
        CanonicalOperationValue::WireOnly(WireOnlyOperationValue::TypeResource(Json::Null)).kind(),
        Some(OperationKind::ReadType)
    );
    assert_eq!(
        CanonicalOperationValue::LegacyRecoveredV03(wire(Json::Null)).kind(),
        None
    );
    assert!(OperationKind::ApplyTypePack.is_mutation());
    assert!(!OperationKind::ReadType.is_mutation());
    assert_eq!(OperationKind::DeleteViewSource.as_str(), "delete_view_source");
}

#[test]
fn recovered_journals_keep_their_wire_result() {
    let legacy = CanonicalOperationOutcome::legacy_recovered(wire(json("{\"any\": [1]}")));
    assert_eq!(legacy.to_v03(), wire(json("{\"any\": [1]}")));
    assert_eq!(legacy.diagnostics[1].severity, Severity::Warning);
}

#[test]
fn mutations_with_another_result_are_invalid() {
    let outcome = CanonicalOperationOutcome::record_mutation(
        OperationKind::Create,
        true,
        BatchOperationResult::Delete(CanonicalDeleteValue::Deleted(DeleteResult {
            path: "a.md".to_string(),
            deleted: true,
        })),
        Vec::new(),
    );
    assert!(!outcome.valid);
    assert_eq!(outcome.value, CanonicalOperationValue::Create(None));

    let deleted = CanonicalOperationOutcome::record_mutation(
        OperationKind::Delete,
        true,
        BatchOperationResult::Delete(CanonicalDeleteValue::Deleted(DeleteResult {
            path: "a.md".to_string(),
            deleted: true,
        })),
        Vec::new(),
    );
    assert!(deleted.valid);
    assert!(matches!(
        deleted.value,
        CanonicalOperationValue::Delete(Some(CanonicalDeleteValue::Deleted(_)))
    ));
}

#[test]
fn failures_carry_the_error_text_without_diagnostics_of_their_own() {
    let failed =
        CanonicalOperationOutcome::failure(OperationKind::Query, &Vec::new(), "it went wrong");
    assert_eq!(failed.value, CanonicalOperationValue::Query(None));
    assert_eq!(
        failed.diagnostics,
        vec![TypedDiagnostic::error("invalid_request", "it went wrong")]
    );
    let own = vec![TypedDiagnostic::error("known", "known failure")];
    let failed = CanonicalOperationOutcome::failure(OperationKind::Query, &own, "it went wrong");
    assert_eq!(failed.diagnostics, own);
}

#[test]
fn batches_are_valid_without_failures_and_errors() {
    let result = |failed: u64| BatchResult {
        operations: Vec::new(),
        succeeded: 1,
        failed,
        preflight: false,
        dry_run: false,
    };
    assert!(CanonicalOperationOutcome::batch(result(0), Vec::new()).valid);
    assert!(!CanonicalOperationOutcome::batch(result(1), Vec::new()).valid);
    assert!(
        !CanonicalOperationOutcome::batch(result(0), vec![TypedDiagnostic::error("e", "m")]).valid
    );
}

fn document(path: &str) -> RecordDocument {
    RecordDocument {
        path: path.to_string(),
        revision: revision(path.as_bytes()),
        types: vec!["task".to_string()],
        frontmatter: json("{}"),
        effective_frontmatter: json("{}"),
        body: String::new(),
        document: Some(String::new()),
        file: RecordFile {
            name: path.rsplit('/').next().unwrap().to_string(),
            folder: path
                .rsplit_once('/')
                .map_or("", |value| value.0)
                .to_string(),
            size: 0,
            mtime: String::new(),
        },
    }
}

#[test]
fn committed_file_facts_reach_every_record_of_a_mutation() {
    let facts = vec![
        CommittedFileFacts {
            path: "b.md".to_string(),
            size: 7,
            mtime: "later".to_string(),
        },
        CommittedFileFacts {
            path: "a.md".to_string(),
            size: 5,
            mtime: "now".to_string(),
        },
    ];
    let mut created = CanonicalOperationOutcome {
        valid: true,
        value: CanonicalOperationValue::Create(Some(document("a.md"))),
        diagnostics: Vec::new(),
    };
    created.attach_committed_file_facts(&facts);
    let record = created.record().unwrap();
    assert_eq!(record.file.size, 5);
    assert_eq!(record.file.mtime, "now");
    assert_eq!(record.file.name, "a.md");

    let mut batch = CanonicalOperationOutcome::batch(
        BatchResult {
            operations: vec![
                item(0, "create", BatchOperationResult::Record(document("c.md"))),
                rename(1, "a.md", "b.md"),
            ],
            succeeded: 2,
            failed: 0,
            preflight: false,
            dry_run: false,
        },
        Vec::new(),
    );
    batch.attach_committed_file_facts(&facts);
    match &batch.value {
        CanonicalOperationValue::Batch(Some(batch)) => {
            match &batch.operations[0].result {
                BatchOperationResult::Record(record) => assert_eq!(record.file.size, 0),
                _ => panic!("expected a record"),
            }
            match &batch.operations[1].result {
                BatchOperationResult::Rename(CanonicalRenameValue::Renamed(renamed)) => {
                    assert_eq!(renamed.document.file.size, 7)
                }
                _ => panic!("expected a rename"),
            }
        }
        _ => panic!("expected a batch"),
    }
}

fn item(index: u64, kind: &str, result: BatchOperationResult) -> BatchItemResult {
    BatchItemResult {
        index,
        kind: kind.to_string(),
        valid: true,
        result,
        diagnostics: Vec::new(),
    }
}

fn rename(index: u64, from: &str, to: &str) -> BatchItemResult {
    item(
        index,
        "rename",
        BatchOperationResult::Rename(CanonicalRenameValue::Renamed(RenameResult {
            document: document(to),
            from: from.to_string(),
            to: to.to_string(),
            references_updated: Vec::new(),
            partial_updates: None,
        })),
    )
}

fn failed_item(index: u64, kind: &str) -> BatchItemResult {
    BatchItemResult {
        index,
        kind: kind.to_string(),
        valid: false,
        result: BatchOperationResult::Other(json("{}")),
        diagnostics: Vec::new(),
    }
}

#[test]
fn typed_batch_path_evidence_handles_dependencies_repeated_paths_and_rename_chains() {
    let request = HostedMutationRequest {
        operation: "batch".to_string(),
        primary_stable_id: "new-id".to_string(),
        input: json(
            "{\"allow_partial\": true,
              \"operations\": [
                {\"kind\": \"create\", \"stable_id\": \"new-id\", \"input\": {\"type\": \"task\"}},
                {\"kind\": \"update\", \"input\": {\"path\": \"generated.md\"}},
                {\"kind\": \"rename\", \"input\": {\"from\": \"generated.md\", \"to\": \"generated-one.md\"}},
                {\"kind\": \"create\", \"stable_id\": \"failed-generated\", \"input\": {\"type\": \"task\"}},
                {\"kind\": \"rename\", \"input\": {\"from\": \"generated-one.md\", \"to\": \"generated-two.md\"}},
                {\"kind\": \"rename\", \"input\": {\"from\": \"existing.md\", \"to\": \"existing-one.md\"}},
                {\"kind\": \"rename\", \"input\": {\"from\": \"existing-one.md\", \"to\": \"existing-two.md\"}},
                {\"kind\": \"delete\", \"input\": {\"path\": \"missing.md\"}}
              ]}",
        ),
        records: Vec::new(),
    };
    let batch = BatchResult {
        operations: vec![
            item(0, "create", BatchOperationResult::Record(document("generated.md"))),
            item(1, "update", BatchOperationResult::Record(document("generated.md"))),
            rename(2, "generated.md", "generated-one.md"),
            failed_item(3, "create"),
            rename(4, "generated-one.md", "generated-two.md"),
            rename(5, "existing.md", "existing-one.md"),
            rename(6, "existing-one.md", "existing-two.md"),
            failed_item(7, "delete"),
        ],
        succeeded: 6,
        failed: 2,
        preflight: false,
        dry_run: false,
    };
    let mut before = TextMap::new();
    assert_eq!(before.insert("existing-id", "existing.md"), None);
    let applied = batch_after_paths(&request, &before, &batch).unwrap();
    let mut expected = TextMap::new();
    expected.insert("existing-id", "existing-two.md");
    expected.insert("new-id", "generated-two.md");
    assert_eq!(applied.after_by_stable, expected);
    assert_eq!(applied.affected, vec!["existing-id", "new-id"]);
    assert!(applied.after_by_stable.get("failed-generated").is_none());
}

fn batch_error(request_items: &str, items: Vec<BatchItemResult>) -> CatalogError {
    let request = HostedMutationRequest {
        operation: "batch".to_string(),
        primary_stable_id: "primary".to_string(),
        input: json(&format!("{{\"operations\": {request_items}}}")),
        records: Vec::new(),
    };
    let mut before = TextMap::new();
    before.insert("one", "one.md");
    before.insert("two", "two.md");
    let batch = BatchResult {
        succeeded: items.len() as u64,
        operations: items,
        failed: 0,
        preflight: false,
        dry_run: false,
    };
    match batch_after_paths(&request, &before, &batch) {
        Err(error) => error,
        Ok(_) => panic!("expected an error"),
    }
}

#[test]
fn batch_evidence_that_does_not_fit_is_refused() {
    let error = batch_error("[{}]", vec![rename(3, "one.md", "three.md")]);
    assert_eq!(
        error.message,
        "Canonical batch item evidence is not in request order."
    );
    let error = batch_error("[]", vec![rename(0, "one.md", "three.md")]);
    assert_eq!(
        error.message,
        "Canonical batch item evidence has no matching request item."
    );
    let error = batch_error("[{}]", vec![rename(0, "nine.md", "three.md")]);
    assert_eq!(
        error.message,
        "A successful hosted batch rename has no current source identity."
    );
    let error = batch_error("[{}]", vec![rename(0, "one.md", "two.md")]);
    assert_eq!(
        error.message,
        "A successful hosted batch rename replaced another identity."
    );
    let error = batch_error(
        "[{}]",
        vec![item(0, "create", BatchOperationResult::Record(document("one.md")))],
    );
    assert_eq!(
        error.message,
        "A successful hosted batch create replaced an existing identity."
    );
    let error = batch_error(
        "[{}, {}]",
        vec![
            item(0, "create", BatchOperationResult::Record(document("x.md"))),
            item(1, "create", BatchOperationResult::Record(document("y.md"))),
        ],
    );
    assert_eq!(error.code, "hosted_mutation_identity_required");
    let error = batch_error(
        "[{}]",
        vec![item(0, "update", BatchOperationResult::Record(document("nine.md")))],
    );
    assert_eq!(
        error.message,
        "Successful canonical batch evidence references unknown path 'nine.md'."
    );
    let error = batch_error(
        "[{}]",
        vec![item(0, "delete", BatchOperationResult::Record(document("one.md")))],
    );
    assert_eq!(
        error.message,
        "Successful canonical batch item 0 has mismatched 'delete' evidence."
    );
}

fn settings() -> Settings {
    Settings {
        extensions: vec!["md".to_string()],
        exclude: Vec::new(),
        include_subfolders: true,
        types_folder: "_types".to_string(),
        contracts_folder: "_contracts".to_string(),
        migrations_folder: "_types/_migrations".to_string(),
        explicit_type_keys: vec!["type".to_string(), "types".to_string()],
        write_defaults: false,
        default_validation: "warn".to_string(),
        default_strict: Json::Bool(false),
        timezone: None,
        id_field: "id".to_string(),
        id_field_explicit: false,
        write_nulls: "explicit".to_string(),
        write_empty_lists: true,
        rename_update_refs: true,
        cache_folder: ".mdbase".to_string(),
    }
}

fn catalog() -> CompiledCatalog {
    CompiledCatalog {
        resource_revision: "catalog-1".to_string(),
        engine_version: "engine-1".to_string(),
        collection: Collection {
            settings: settings(),
            config_extensions: Vec::new(),
            types: Vec::new(),
            type_warnings: Vec::new(),
        },
    }
}

fn input(stable_id: &str, path: &str, document: &str) -> CanonicalRecordInput {
    CanonicalRecordInput {
        stable_id: Some(stable_id.to_string()),
        path: path.to_string(),
        document: document.to_string(),
        file_size: document.len() as u64,
        file_mtime: None,
    }
}

fn valid_path(path: &str) -> RecordPathFacts {
    RecordPathFacts {
        normal: Ok(path.to_string()),
        excluded: false,
        record_extension: true,
    }
}

fn classified(path: &str, frontmatter: &str, body: &str, document: &str) -> CollectionSnapshotRecord {
    CollectionSnapshotRecord {
        path: path.to_string(),
        revision: revision(document.as_bytes()),
        frontmatter: json(frontmatter),
        body: body.to_string(),
        types: vec!["task".to_string()],
        document: document.to_string(),
        frontmatter_error: None,
    }
}

fn parts(frontmatter: &str, body: &str) -> ParsedDocument {
    ParsedDocument {
        frontmatter: json(frontmatter),
        body: body.to_string(),
        types: vec!["task".to_string()],
        frontmatter_error: None,
    }
}

fn plain(valid: bool, result: Json) -> OperationResult {
    OperationResult {
        valid,
        result,
        diagnostics: Vec::new(),
    }
}

fn capture(path: &str, frontmatter: &str, body: &str, document: &str) -> StagedCapture {
    StagedCapture {
        path: path.to_string(),
        capture: Ok(StagedDocument {
            path: path.to_string(),
            document: document.to_string(),
            path_facts: valid_path(path),
            parsed: parts(frontmatter, body),
        }),
    }
}

#[test]
fn plans_create_update_and_delete_from_bounded_exact_context() {
    let catalog = catalog();
    assert!(!catalog
        .hosted_mutation_requires_incoming_context("rename", &json("{\"update_refs\": false}")));
    assert!(catalog.hosted_mutation_requires_incoming_context("rename", &json("{}")));
    assert!(!catalog.hosted_mutation_requires_incoming_context("delete", &json("{}")));

    let created_document = "---\nstatus: open\n---\nHello\n";
    let request = HostedMutationRequest {
        operation: "create".to_string(),
        primary_stable_id: "record-1".to_string(),
        input: json(
            "{\"path\": \"tasks/one.md\", \"type\": \"task\", \"frontmatter\": {\"status\": \"open\"}, \"body\": \"Hello\\n\"}",
        ),
        records: Vec::new(),
    };
    let created = catalog
        .plan_hosted_mutation(
            &request,
            &MutationFacts {
                paths: Vec::new(),
                parsed: Vec::new(),
                staged: plain(true, record_json("tasks/one.md")),
                committed: plain(true, Json::Null),
                captures: vec![capture(
                    "tasks/one.md",
                    "{\"status\": \"open\"}",
                    "Hello\n",
                    created_document,
                )],
            },
        )
        .unwrap();
    assert!(created.result.valid);
    let created_record = created.changes[0].record.as_ref().unwrap();
    assert!(created_record.document.contains("status: open"));
    assert_eq!(created_record.stable_id.as_deref(), Some("record-1"));
    assert_eq!(created_record.file_size, created_document.len() as u64);

    let created_revision = revision(created_record.document.as_bytes());
    let updated_document = "---\nstatus: done\n---\nHello\n";
    let request = HostedMutationRequest {
        operation: "update".to_string(),
        primary_stable_id: "record-1".to_string(),
        input: json(&format!(
            "{{\"patch\": {{\"status\": \"done\"}}, \"if_revision\": \"{created_revision}\"}}"
        )),
        records: vec![input("record-1", "tasks/one.md", created_document)],
    };
    let context = catalog
        .check_mutation_context(&request, &vec![valid_path("tasks/one.md")])
        .unwrap();
    assert_eq!(
        catalog.staged_mutation_input(&request, &context).unwrap(),
        json(&format!(
            "{{\"fields\": {{\"status\": \"done\"}}, \"if_revision\": \"{created_revision}\", \"path\": \"tasks/one.md\"}}"
        ))
    );
    assert_eq!(
        catalog.committed_mutation_input(&request, &context).unwrap(),
        json(&format!(
            "{{\"dry_run\": false, \"fields\": {{\"status\": \"done\"}}, \"if_revision\": \"{created_revision}\", \"path\": \"tasks/one.md\"}}"
        ))
    );
    let updated = catalog
        .plan_hosted_mutation(
            &request,
            &MutationFacts {
                paths: vec![valid_path("tasks/one.md")],
                parsed: vec![parts("{\"status\": \"open\"}", "Hello\n")],
                staged: plain(true, record_json("tasks/one.md")),
                committed: plain(true, Json::Null),
                captures: vec![capture(
                    "tasks/one.md",
                    "{\"status\": \"done\"}",
                    "Hello\n",
                    updated_document,
                )],
            },
        )
        .unwrap();
    assert!(updated.result.valid);
    assert!(updated.changes[0]
        .record
        .as_ref()
        .unwrap()
        .document
        .contains("status: done"));

    let request = HostedMutationRequest {
        operation: "delete".to_string(),
        primary_stable_id: "record-1".to_string(),
        input: json(&format!("{{\"if_revision\": \"{created_revision}\"}}")),
        records: vec![input("record-1", "tasks/one.md", created_document)],
    };
    let deleted = catalog
        .plan_hosted_mutation(
            &request,
            &MutationFacts {
                paths: vec![valid_path("tasks/one.md")],
                parsed: vec![parts("{\"status\": \"open\"}", "Hello\n")],
                staged: plain(true, json("{\"path\": \"tasks/one.md\", \"deleted\": true}")),
                committed: plain(true, Json::Null),
                captures: Vec::new(),
            },
        )
        .unwrap();
    assert!(deleted.result.valid);
    assert!(deleted.changes[0].record.is_none());
    assert_eq!(deleted.changes[0].before_path.as_deref(), Some("tasks/one.md"));
}

#[test]
fn typed_batch_returns_exact_created_and_updated_record_evidence() {
    let catalog = catalog();
    let before = "---\nstatus: open\n---\nBefore\n";
    let known = revision(before.as_bytes());
    let request = HostedMutationRequest {
        operation: "batch".to_string(),
        primary_stable_id: "record-2".to_string(),
        input: json(&format!(
            "{{\"operations\": [
               {{\"kind\": \"update\", \"input\": {{\"path\": \"tasks/one.md\", \"fields\": {{\"status\": \"done\"}}, \"if_revision\": \"{known}\"}}}},
               {{\"kind\": \"create\", \"stable_id\": \"record-2\", \"input\": {{\"path\": \"tasks/two.md\", \"type\": \"task\", \"body\": \"Created\"}}}}
             ]}}"
        )),
        records: vec![input("record-1", "tasks/one.md", before)],
    };
    let batch = BatchResult {
        operations: vec![
            item(0, "update", BatchOperationResult::Record(document("tasks/one.md"))),
            item(1, "create", BatchOperationResult::Record(document("tasks/two.md"))),
        ],
        succeeded: 2,
        failed: 0,
        preflight: false,
        dry_run: false,
    };
    let planned = catalog
        .plan_hosted_mutation_typed(
            &request,
            &MutationFacts {
                paths: vec![valid_path("tasks/one.md")],
                parsed: vec![parts("{\"status\": \"open\"}", "Before\n")],
                staged: plain(true, batch.to_json()),
                committed: plain(true, Json::Null),
                captures: vec![
                    capture(
                        "tasks/one.md",
                        "{\"status\": \"done\"}",
                        "Before\n",
                        "---\nstatus: done\n---\nBefore\n",
                    ),
                    capture("tasks/two.md", "{}", "Created", "Created"),
                ],
            },
        )
        .unwrap();
    assert!(planned.operation.valid, "{:#?}", planned.operation);
    assert!(matches!(
        planned.operation.value,
        CanonicalOperationValue::Batch(Some(_))
    ));
    assert_eq!(planned.changes.len(), 2);
    assert!(matches!(planned.change_set, ChangeSet::Exact(_)));
    assert!(planned.changes.iter().all(|change| change.after.is_some()));
}

fn deleted(index: u64, path: &str) -> BatchItemResult {
    item(
        index,
        "delete",
        BatchOperationResult::from_json(&json(&format!(
            "{{\"path\": \"{path}\", \"deleted\": true}}"
        ))),
    )
}

#[test]
fn partial_batch_changes_follow_only_successful_typed_items_in_request_order() {
    let catalog = catalog();
    let open = |name: &str| format!("---\nstatus: open\n---\n{name}\n");
    let a_document = open("A");
    let b_document = open("B");
    let c_document = open("C");
    let d_document = open("D");
    let e_document = open("E");
    let a_revision = revision(a_document.as_bytes());
    let stale = "sha256:0000000000000000000000000000000000000000000000000000000000000000";
    let request = HostedMutationRequest {
        operation: "batch".to_string(),
        primary_stable_id: "record-new".to_string(),
        input: json(&format!(
            "{{\"allow_partial\": true, \"operations\": [
               {{\"kind\": \"create\", \"stable_id\": \"record-new\", \"input\": {{\"path\": \"tasks/new.md\", \"type\": \"task\", \"frontmatter\": {{\"status\": \"new\"}}, \"body\": \"New\"}}}},
               {{\"kind\": \"create\", \"stable_id\": \"failed-create\", \"input\": {{\"path\": \"tasks/d.md\", \"type\": \"task\"}}}},
               {{\"kind\": \"update\", \"input\": {{\"path\": \"tasks/a.md\", \"fields\": {{\"status\": \"done\"}}, \"if_revision\": \"{a_revision}\"}}}},
               {{\"kind\": \"update\", \"input\": {{\"path\": \"tasks/e.md\", \"fields\": {{\"status\": \"wrong\"}}, \"if_revision\": \"{stale}\"}}}},
               {{\"kind\": \"delete\", \"input\": {{\"path\": \"tasks/missing.md\"}}}},
               {{\"kind\": \"delete\", \"input\": {{\"path\": \"tasks/c.md\"}}}},
               {{\"kind\": \"rename\", \"input\": {{\"from\": \"tasks/b.md\", \"to\": \"tasks/b-two.md\", \"update_refs\": false}}}},
               {{\"kind\": \"rename\", \"input\": {{\"from\": \"tasks/missing-rename.md\", \"to\": \"tasks/nope.md\", \"update_refs\": false}}}},
               {{\"kind\": \"create\", \"stable_id\": \"failed-generated\", \"input\": {{\"type\": \"task\", \"frontmatter\": {{\"id\": \"generated-but-invalid\"}}}}}}
             ]}}"
        )),
        records: vec![
            input("record-a", "tasks/a.md", &a_document),
            input("record-b", "tasks/b.md", &b_document),
            input("record-c", "tasks/c.md", &c_document),
            input("record-d", "tasks/d.md", &d_document),
            input("record-e", "tasks/e.md", &e_document),
        ],
    };
    let batch = BatchResult {
        operations: vec![
            item(0, "create", BatchOperationResult::Record(document("tasks/new.md"))),
            failed_item(1, "create"),
            item(2, "update", BatchOperationResult::Record(document("tasks/a.md"))),
            failed_item(3, "update"),
            failed_item(4, "delete"),
            deleted(5, "tasks/c.md"),
            rename(6, "tasks/b.md", "tasks/b-two.md"),
            failed_item(7, "rename"),
            failed_item(8, "create"),
        ],
        succeeded: 4,
        failed: 5,
        preflight: false,
        dry_run: false,
    };
    let known = |body: &str| parts("{\"status\": \"open\"}", body);
    let planned = catalog
        .plan_hosted_mutation_typed(
            &request,
            &MutationFacts {
                paths: ["a", "b", "c", "d", "e"]
                    .iter()
                    .map(|name| valid_path(&format!("tasks/{name}.md")))
                    .collect(),
                parsed: vec![
                    known("A\n"),
                    known("B\n"),
                    known("C\n"),
                    known("D\n"),
                    known("E\n"),
                ],
                staged: plain(false, batch.to_json()),
                committed: plain(true, Json::Null),
                captures: vec![
                    capture(
                        "tasks/new.md",
                        "{\"status\": \"new\"}",
                        "New",
                        "---\nstatus: new\n---\nNew",
                    ),
                    capture(
                        "tasks/a.md",
                        "{\"status\": \"done\"}",
                        "A\n",
                        "---\nstatus: done\n---\nA\n",
                    ),
                    capture("tasks/b-two.md", "{\"status\": \"open\"}", "B\n", &b_document),
                ],
            },
        )
        .unwrap();

    let CanonicalOperationValue::Batch(Some(batch)) = &planned.operation.value else {
        panic!(
            "partial batch must retain typed item evidence: {:#?}",
            planned.operation
        )
    };
    assert_eq!(batch.operations.len(), 9);
    assert_eq!(batch.succeeded, 4);
    assert_eq!(batch.failed, 5);
    assert_eq!(planned.changes.len(), 4);
    assert_eq!(
        planned.change_set,
        ChangeSet::Exact(
            planned
                .changes
                .iter()
                .map(|change| change.change.copy())
                .collect()
        )
    );
    assert!(planned.changes.iter().all(|change| !matches!(
        change.stable_id.as_str(),
        "failed-create" | "failed-generated"
    )));
    let change_of = |stable_id: &str| {
        planned
            .changes
            .iter()
            .find(|change| change.stable_id == stable_id)
            .unwrap()
    };
    let record_of = |stable_id: &str| match &change_of(stable_id).change {
        CanonicalChange::Record(change) => change,
        CanonicalChange::Resource(_) => panic!("expected a record change"),
    };

    let created = change_of("record-new");
    assert!(created.before.is_none());
    let created_after = created.after.as_ref().unwrap();
    assert_eq!(created_after.path, "tasks/new.md");
    assert!(created_after.document.contains("status: new"));
    assert_eq!(
        record_of("record-new").after_revision.as_deref(),
        Some(revision(created_after.document.as_bytes()).as_str())
    );

    let updated = change_of("record-a");
    assert_eq!(updated.before.as_ref().unwrap().document, a_document);
    assert!(updated
        .after
        .as_ref()
        .unwrap()
        .document
        .contains("status: done"));
    assert_eq!(
        record_of("record-a").before_revision.as_deref(),
        Some(a_revision.as_str())
    );
    assert_eq!(record_of("record-a").changed_fields, vec!["/status"]);

    let removed = change_of("record-c");
    assert_eq!(removed.before.as_ref().unwrap().document, c_document);
    assert!(removed.after.is_none());

    let renamed = change_of("record-b");
    assert_eq!(renamed.before.as_ref().unwrap().document, b_document);
    assert_eq!(renamed.after.as_ref().unwrap().path, "tasks/b-two.md");
    assert_eq!(record_of("record-b").kind, RecordChangeKind::Renamed);
    assert_eq!(record_of("record-b").from.as_deref(), Some("tasks/b.md"));
}

#[test]
fn rename_rewrites_only_supplied_incoming_reference_records() {
    let catalog = catalog();
    let one = "---\ntitle: One\n---\nBody\n";
    let reference = "---\ntitle: Ref\nlinks:\n  nested:\n    - '[[../tasks/one]]'\nsummary: 'See [[../tasks/one]] and [[../tasks/one#part]].'\n---\nSee [[../tasks/one]].\n";
    let rewritten = reference.replace("tasks/one", "tasks/moved");
    let known = revision(one.as_bytes());
    let request = HostedMutationRequest {
        operation: "rename".to_string(),
        primary_stable_id: "record-1".to_string(),
        input: json(&format!(
            "{{\"path\": \"tasks/moved.md\", \"if_revision\": \"{known}\", \"update_refs\": true}}"
        )),
        records: vec![
            input("record-1", "tasks/one.md", one),
            input("record-2", "notes/ref.md", reference),
        ],
    };
    let result = RenameResult {
        document: document("tasks/moved.md"),
        from: "tasks/one.md".to_string(),
        to: "tasks/moved.md".to_string(),
        references_updated: vec![json("{\"path\": \"notes/ref.md\"}")],
        partial_updates: None,
    };
    let renamed = catalog
        .plan_hosted_mutation(
            &request,
            &MutationFacts {
                paths: vec![valid_path("tasks/one.md"), valid_path("notes/ref.md")],
                parsed: vec![
                    parts("{\"title\": \"One\"}", "Body\n"),
                    parts("{\"title\": \"Ref\"}", ""),
                ],
                staged: plain(true, CanonicalRenameValue::Renamed(result).to_json()),
                committed: plain(true, Json::Null),
                captures: vec![
                    capture("tasks/moved.md", "{\"title\": \"One\"}", "Body\n", one),
                    capture("notes/ref.md", "{\"title\": \"Ref\"}", "", &rewritten),
                ],
            },
        )
        .unwrap();
    assert!(renamed.result.valid);
    assert_eq!(renamed.changes.len(), 2);
    assert_eq!(
        renamed.changes[0].record.as_ref().unwrap().path,
        "tasks/moved.md"
    );
    assert!(renamed.changes[1]
        .record
        .as_ref()
        .unwrap()
        .document
        .contains("moved"));
    assert!(!renamed.changes[1]
        .record
        .as_ref()
        .unwrap()
        .document
        .contains("tasks/one"));
}

fn mutation_error(request: &HostedMutationRequest, facts: &MutationFacts) -> CatalogError {
    match catalog().plan_hosted_mutation_typed(request, facts) {
        Err(error) => error,
        Ok(_) => panic!("expected an error"),
    }
}

fn facts(paths: Vec<RecordPathFacts>, records: usize) -> MutationFacts {
    MutationFacts {
        paths,
        parsed: (0..records).map(|_| parts("{}", "")).collect(),
        staged: plain(true, json("{}")),
        committed: plain(true, json("{}")),
        captures: Vec::new(),
    }
}

#[test]
fn mutation_contexts_fail_with_their_own_errors() {
    let request = |operation: &str, input_value: &str, records: Vec<CanonicalRecordInput>| {
        HostedMutationRequest {
            operation: operation.to_string(),
            primary_stable_id: "one".to_string(),
            input: json(input_value),
            records,
        }
    };
    assert_eq!(
        mutation_error(&request("merge", "{}", Vec::new()), &facts(Vec::new(), 0)).code,
        "unsupported_hosted_mutation"
    );
    assert_eq!(
        mutation_error(&request("update", "{}", Vec::new()), &facts(Vec::new(), 0)).code,
        "record_not_found"
    );
    assert_eq!(
        mutation_error(&request("create", "[]", Vec::new()), &facts(Vec::new(), 0)).code,
        "invalid_mutation"
    );
    let mut anonymous = input("one", "a.md", "A");
    anonymous.stable_id = None;
    assert_eq!(
        mutation_error(
            &request("delete", "{}", vec![anonymous]),
            &facts(vec![valid_path("a.md")], 1)
        )
        .code,
        "hosted_mutation_identity_required"
    );
    assert_eq!(
        mutation_error(
            &request("delete", "{}", vec![input("one", ".a.md", "A")]),
            &facts(vec![valid_path(".a.md")], 1)
        )
        .message,
        "Hosted mutation record path is invalid: record paths must not use hidden filesystem components"
    );
    assert_eq!(
        mutation_error(
            &request(
                "delete",
                "{}",
                vec![input("one", "a.md", "A"), input("two", "a.md", "B")]
            ),
            &facts(vec![valid_path("a.md"), valid_path("a.md")], 2)
        )
        .code,
        "hosted_mutation_context_ambiguous"
    );
    assert_eq!(
        mutation_error(
            &request("rename", "{}", vec![input("one", "a.md", "A")]),
            &facts(vec![valid_path("a.md")], 1)
        )
        .message,
        "Hosted rename requires a destination."
    );
    let mut dry = facts(vec![valid_path("a.md")], 1);
    dry.committed = plain(false, json("{}"));
    assert_eq!(
        mutation_error(
            &request(
                "delete",
                "{\"dry_run\": true}",
                vec![input("one", "a.md", "A")]
            ),
            &dry
        )
        .code,
        "hosted_mutation_dry_run_mismatch"
    );
}

#[test]
fn invalid_mutations_change_nothing() {
    let request = HostedMutationRequest {
        operation: "create".to_string(),
        primary_stable_id: "one".to_string(),
        input: json("{\"path\": \"a.md\"}"),
        records: Vec::new(),
    };
    let mut refused = facts(Vec::new(), 0);
    refused.staged = plain(false, json("{}"));
    let planned = catalog()
        .plan_hosted_mutation_typed(&request, &refused)
        .unwrap();
    assert!(planned.changes.is_empty());
    assert_eq!(planned.change_set, ChangeSet::Nothing);
    assert!(!planned.operation.valid);
}

#[test]
fn transitions_name_both_paths_of_a_rename() {
    let before = classified("old.md", "{\"a\": 1}", "Body", "x");
    let after = classified("new.md", "{\"a\": 2}", "Body", "y");
    match hosted_record_change(Some(&before), Some(&after)) {
        CanonicalChange::Record(RecordChange {
            kind,
            path,
            from,
            changed_fields,
            body_changed,
            ..
        }) => {
            assert_eq!(kind, RecordChangeKind::Renamed);
            assert_eq!(path, "new.md");
            assert_eq!(from.as_deref(), Some("old.md"));
            assert_eq!(changed_fields, vec!["/a"]);
            assert!(!body_changed);
        }
        CanonicalChange::Resource(_) => panic!("expected a record change"),
    }
}
