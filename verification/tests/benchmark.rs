use mdbase::benchmark::{
    benchmark_relationships, file_name_parts, normalize_relationship_target, BenchmarkFileFacts,
    BenchmarkProjection, CandidateExpression, CandidateTruth, ProjectionRelationship,
    PROJECTION_SCHEMA_VERSION,
};
use mdbase::catalog::{ExactRecord, ParsedDocument};
use mdbase::collection::{Collection, Settings};
use mdbase::diagnostics::{Diagnostic, OperationResult};
use mdbase::hosted_query::CompiledCatalog;
use mdbase::json::{put_member, Json, JsonNumber, Member};
use mdbase::projection::CanonicalRecordInput;
use mdbase::record_path::RecordPathFacts;

fn convert(value: &serde_json::Value) -> Json {
    match value {
        serde_json::Value::Null => Json::Null,
        serde_json::Value::Bool(value) => Json::Bool(*value),
        serde_json::Value::Number(number) => {
            if let Some(value) = number.as_u64() {
                Json::Number(JsonNumber::Unsigned(value))
            } else if let Some(value) = number.as_i64() {
                Json::Number(JsonNumber::Negative(value))
            } else {
                Json::Number(JsonNumber::Decimal(number.to_string()))
            }
        }
        serde_json::Value::String(text) => Json::Text(text.clone()),
        serde_json::Value::Array(items) => Json::Array(items.iter().map(convert).collect()),
        serde_json::Value::Object(members) => Json::Object(
            members
                .iter()
                .map(|(key, value)| Member {
                    key: key.clone(),
                    value: convert(value),
                })
                .collect(),
        ),
    }
}

fn json(text: &str) -> Json {
    convert(&serde_json::from_str(text).unwrap())
}

fn members(text: &str) -> Vec<Member> {
    match json(text) {
        Json::Object(members) => members,
        _ => panic!("expected an object"),
    }
}

fn projection() -> BenchmarkProjection {
    BenchmarkProjection {
        schema_version: PROJECTION_SCHEMA_VERSION.to_string(),
        path: "tasks/one.md".to_string(),
        types: vec!["task".to_string()],
        file: BenchmarkFileFacts {
            path: "tasks/one.md".to_string(),
            name: "one.md".to_string(),
            basename: "one".to_string(),
            extension: "md".to_string(),
            size: 30,
            mtime: "2026-01-01T00:00:00Z".to_string(),
        },
        persisted_frontmatter: members("{\"status\": \"open\"}"),
        effective_frontmatter: members("{\"status\": \"open\", \"projects\": [\"project-7\"]}"),
        relationships: Vec::new(),
        diagnostics: Vec::new(),
    }
}

fn body_contains(text: &str) -> CandidateExpression {
    CandidateExpression::BodyContains {
        text: text.to_string(),
    }
}

fn type_in(name: &str) -> CandidateExpression {
    CandidateExpression::TypeIn {
        type_in: vec![name.to_string()],
    }
}

fn field_eq(field: &str, value: &str) -> CandidateExpression {
    CandidateExpression::FieldEq {
        field: field.to_string(),
        value: Json::text(value),
    }
}

fn field_contains(field: &str, value: &str) -> CandidateExpression {
    CandidateExpression::FieldContains {
        field: field.to_string(),
        value: Json::text(value),
    }
}

#[test]
fn body_predicate_is_unknown_for_projection_and_exact_for_body() {
    let expression = body_contains("needle");
    assert_eq!(
        expression.evaluate_candidate(&projection()),
        CandidateTruth::Unknown
    );
    assert!(expression.evaluate_canonical(&projection(), "A NEEDLE here"));
}

#[test]
fn projection_predicates_can_exclude_without_false_negatives() {
    let expression = CandidateExpression::All {
        all: vec![
            type_in("task"),
            field_eq("effective_frontmatter.status", "done"),
        ],
    };
    assert_eq!(
        expression.evaluate_candidate(&projection()),
        CandidateTruth::Impossible
    );
    assert!(!expression.evaluate_canonical(&projection(), ""));
}

#[test]
fn digest_is_stable() {
    assert_eq!(
        projection().canonical_digest().unwrap(),
        projection().canonical_digest().unwrap()
    );
    assert!(projection().canonical_digest().unwrap().starts_with("sha256:"));
    let mut other = projection();
    other.path = "tasks/two.md".to_string();
    assert_ne!(
        projection().canonical_digest().unwrap(),
        other.canonical_digest().unwrap()
    );
}

fn catalog() -> CompiledCatalog {
    CompiledCatalog {
        resource_revision: "fixture-v1".to_string(),
        engine_version: "engine-1".to_string(),
        collection: Collection {
            settings: Settings {
                extensions: vec!["md".to_string()],
                exclude: Vec::new(),
                include_subfolders: true,
                types_folder: "_types".to_string(),
                contracts_folder: "_contracts".to_string(),
                migrations_folder: "_types/_migrations".to_string(),
                explicit_type_keys: Vec::new(),
                write_defaults: false,
                default_validation: "warn".to_string(),
                default_strict: Json::Bool(false),
                timezone: None,
                id_field: "id".to_string(),
                id_field_explicit: false,
                write_nulls: "explicit".to_string(),
                write_empty_lists: true,
                rename_update_refs: true,
                cache_folder: ".mdbase".to_string(),
            },
            config_extensions: Vec::new(),
            types: Vec::new(),
            type_warnings: Vec::new(),
        },
    }
}

fn input(document: &str) -> CanonicalRecordInput {
    CanonicalRecordInput {
        stable_id: Some("record-1".to_string()),
        path: "tasks/one.md".to_string(),
        document: document.to_string(),
        file_size: document.len() as u64,
        file_mtime: Some("2026-01-01T00:00:00Z".to_string()),
    }
}

fn exact(document: &str, parsed: ParsedDocument) -> ExactRecord {
    ExactRecord {
        record: input(document),
        path: RecordPathFacts {
            normal: Ok("tasks/one.md".to_string()),
            excluded: false,
            record_extension: true,
        },
        parsed,
    }
}

#[test]
fn catalog_projection_uses_canonical_defaults_and_relationship_ids() {
    let document = "---\nsource: \"[[src_0000042]]\"\n---\nBody\n";
    let exact = exact(
        document,
        ParsedDocument {
            frontmatter: json("{\"source\": \"[[src_0000042]]\"}"),
            body: "Body\n".to_string(),
            types: vec!["task".to_string()],
            frontmatter_error: None,
        },
    );
    let read = OperationResult {
        valid: true,
        result: json(
            "{\"effective_frontmatter\": {\"source\": \"[[src_0000042]]\", \"status\": \"open\"}}",
        ),
        diagnostics: Vec::new(),
    };
    let projected = catalog()
        .benchmark_project_record(&exact, &read)
        .unwrap();
    assert_eq!(projected.types, ["task"]);
    assert_eq!(
        Json::Object(projected.effective_frontmatter).get("status"),
        Some(&Json::text("open"))
    );
    assert_eq!(projected.file.basename, "one");
    assert_eq!(
        projected.relationships,
        [ProjectionRelationship {
            kind: "source".to_string(),
            target: "src_0000042".to_string()
        }]
    );
}

#[test]
fn unparsed_frontmatter_is_reported_once() {
    let mut exact = exact(
        "x",
        ParsedDocument {
            frontmatter: json("{}"),
            body: String::new(),
            types: Vec::new(),
            frontmatter_error: Some("broken".to_string()),
        },
    );
    let read = OperationResult {
        valid: false,
        result: json("{\"effective_frontmatter\": {\"a\": 1}}"),
        diagnostics: vec![
            Diagnostic::error("z_code", "z", None),
            Diagnostic::error("a_code", "a", None),
            Diagnostic::error("z_code", "again", None),
        ],
    };
    let projected = catalog()
        .benchmark_project_record(&exact, &read)
        .unwrap();
    let codes: Vec<&str> = projected
        .diagnostics
        .iter()
        .map(|item| item.code.as_str())
        .collect();
    assert_eq!(codes, vec!["a_code", "frontmatter_parse_failed", "z_code"]);
    assert!(projected.effective_frontmatter.is_empty());

    exact.path.normal = Err("no".to_string());
    match catalog().benchmark_project_record(&exact, &read) {
        Err(error) => assert_eq!(error.code, "invalid_path"),
        Ok(_) => panic!("expected an error"),
    }
}

#[test]
fn candidate_evaluation_never_excludes_a_canonical_match() {
    let expressions = [
        CandidateExpression::All {
            all: vec![type_in("task"), body_contains("needle")],
        },
        CandidateExpression::Any {
            any: vec![
                field_eq("effective_frontmatter.status", "done"),
                body_contains("needle"),
            ],
        },
        CandidateExpression::Not {
            not: Box::new(body_contains("absent")),
        },
        field_contains("effective_frontmatter.projects", "project-7"),
    ];
    for expression in &expressions {
        for body in ["needle", "absent", "other"] {
            let canonical = expression.evaluate_canonical(&projection(), body);
            let candidate = expression.evaluate_candidate(&projection());
            assert!(
                !canonical || candidate != CandidateTruth::Impossible,
                "canonical match was excluded: {expression:?} / {body}"
            );
        }
    }
}

#[test]
fn generated_candidate_corpus_has_no_false_negatives() {
    let expressions = [
        CandidateExpression::All {
            all: vec![
                type_in("task"),
                field_eq("effective_frontmatter.status", "open"),
            ],
        },
        CandidateExpression::Any {
            any: vec![
                field_contains("effective_frontmatter.projects", "project-7"),
                body_contains("needle"),
            ],
        },
        CandidateExpression::FieldLt {
            field: "effective_frontmatter.priority".to_string(),
            value: Json::unsigned(50),
        },
        CandidateExpression::Not {
            not: Box::new(body_contains("forbidden")),
        },
    ];
    let mut state = 0x5eed_u64;
    for case in 0..1_024 {
        state = state
            .wrapping_mul(6_364_136_223_846_793_005)
            .wrapping_add(1);
        let mut projected = projection();
        projected.types = if state & 1 == 0 {
            vec!["task".to_string()]
        } else {
            vec!["note".to_string()]
        };
        put_member(
            &mut projected.effective_frontmatter,
            "status",
            Json::text(if state & 2 == 0 { "open" } else { "done" }),
        );
        let priority = (state >> 8) % 100;
        put_member(
            &mut projected.effective_frontmatter,
            "priority",
            Json::unsigned(priority),
        );
        put_member(
            &mut projected.effective_frontmatter,
            "projects",
            if state & 4 == 0 {
                json("[\"project-7\"]")
            } else {
                json("[\"project-9\"]")
            },
        );
        let body = match (state >> 4) & 3 {
            0 => "needle",
            1 => "forbidden",
            _ => "ordinary body",
        };
        assert_eq!(
            expressions[2].evaluate_canonical(&projected, body),
            priority < 50
        );
        for expression in &expressions {
            let canonical = expression.evaluate_canonical(&projected, body);
            let candidate = expression.evaluate_candidate(&projected);
            assert!(
                !canonical || candidate != CandidateTruth::Impossible,
                "generated case {case} produced a false negative: {expression:?} / {body}"
            );
        }
    }
}

#[test]
fn compiled_expressions_state_what_they_need() {
    let compiled = CandidateExpression::All {
        all: vec![
            field_eq("persisted_frontmatter.status", "open"),
            CandidateExpression::RelationshipTargetEq {
                target: "a".to_string(),
            },
            body_contains("x"),
        ],
    }
    .compile()
    .unwrap();
    assert!(compiled.requirements.persisted_frontmatter);
    assert!(!compiled.requirements.effective_frontmatter);
    assert!(compiled.requirements.relationships);
    assert!(compiled.requirements.body);
    assert!(compiled.requirements.exact_document);
    assert!(!compiled.requirements.file_facts);
    assert_eq!(
        compiled.evaluate_candidate(&projection()),
        CandidateTruth::Impossible
    );
}

fn message(expression: CandidateExpression) -> String {
    match expression.compile() {
        Err(error) => {
            assert_eq!(error.code, "invalid_candidate_expression");
            error.message
        }
        Ok(_) => panic!("expected an error"),
    }
}

#[test]
fn faulty_expressions_are_refused_with_their_first_fault() {
    assert_eq!(
        message(CandidateExpression::TypeIn {
            type_in: Vec::new()
        }),
        "typeIn must contain at least one type"
    );
    assert_eq!(
        message(CandidateExpression::FieldIn {
            field: "nope".to_string(),
            values: Vec::new()
        }),
        "fieldIn must contain at least one value"
    );
    assert_eq!(
        message(field_eq("nope", "x")),
        "field is not allowed: nope"
    );
    assert_eq!(
        message(CandidateExpression::FieldContainsText {
            field: "path".to_string(),
            text: String::new()
        }),
        "fieldContainsText must not be empty"
    );
    assert_eq!(
        message(CandidateExpression::RelationshipTargetEq {
            target: String::new()
        }),
        "relationshipTargetEq must not be empty"
    );
    assert_eq!(
        message(CandidateExpression::Any {
            any: vec![
                type_in("task"),
                CandidateExpression::Not {
                    not: Box::new(body_contains(""))
                },
                field_eq("nope", "x"),
            ]
        }),
        "bodyContains must not be empty"
    );
}

#[test]
fn names_and_targets_are_taken_apart() {
    assert_eq!(
        file_name_parts("a/b/c.tar.gz"),
        ("c.tar.gz".to_string(), "c.tar".to_string(), "gz".to_string())
    );
    assert_eq!(
        file_name_parts("plain"),
        ("plain".to_string(), "plain".to_string(), String::new())
    );
    assert_eq!(normalize_relationship_target("[[note|Label]]"), "note");
    assert_eq!(normalize_relationship_target("[[]]"), "");
    assert_eq!(normalize_relationship_target("[[note]"), "[[note]");
    assert_eq!(
        benchmark_relationships(&members(
            "{\"related\": [\"b\", 1, \"[[a]]\", \"b\"], \"blockedBy\": \"z\", \"source\": 3}"
        )),
        [
            ProjectionRelationship {
                kind: "blockedBy".to_string(),
                target: "z".to_string()
            },
            ProjectionRelationship {
                kind: "related".to_string(),
                target: "a".to_string()
            },
            ProjectionRelationship {
                kind: "related".to_string(),
                target: "b".to_string()
            },
        ]
    );
}
