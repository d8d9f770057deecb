use mdbase::canonical::digest_json;
use mdbase::catalog::{ExactRecord, ParsedDocument};
use mdbase::collection::{Collection, FieldDef, Settings, TypeDefinition};
use mdbase::diagnostics::{CatalogError, Diagnostic, OperationResult};
use mdbase::diff::CollectionSnapshotRecord;
use mdbase::digest::revision;
use mdbase::execute::{EvaluatedCandidate, StageFault};
use mdbase::expressions::{BinOp, Expr, UnaryOp};
use mdbase::hosted_links::{
    hosted_link_graph, HostedRelationshipNeighborhood, LinkedFile,
};
use mdbase::hosted_plan::{
    CandidateComparisonPruning, CandidateField, CandidatePredicate, HostedQueryPlan,
    HostedScalarKind, HostedSortSemantics, HOSTED_QUERY_PLAN_VERSION, MAX_PAGE_SIZE,
};
use mdbase::hosted_query::{
    CompiledCatalog, PreflightFacts, QueryEnvelope, QueryFacts,
};
use mdbase::hosted_reduction::HostedReductionInput;
use mdbase::hosted_residual::{
    complete_file_value_from_projection, hosted_query_context, CandidateVerdict, ClockFacts, ContextRecord, HostedResidualEvaluation,
    ProjectionAvailability, ResidualAnalysis, ResidualEvidence, ResidualFacts,
};
use mdbase::hosted_resource::{escapes_stage, HostedResource};
use mdbase::hosted_validation::{
    comparable_value, persisted_frontmatter, FieldValue, HostedValidationRequirementKind,
    ResolutionLookupKey, ValidationFacts,
};
use mdbase::hosted_view::{HostedCanonicalViewPlanning, PreparedView, ViewFacts};
use mdbase::json::{Json, JsonNumber, Member};
use mdbase::ordering::HostedOrderDirection;
use mdbase::planner::EvaluationError;
use mdbase::projection::{
    CanonicalRecordInput, ProjectedFile, ProjectionFormat, RecordResolutionKeyKind,
    ResolvedRecordStructure, ResolvedStructuralOccurrence, SemanticProjection,
    SemanticProjectionFacts, StructuralResolution, StructuralSourceKind,
};
use mdbase::record_path::RecordPathFacts;

fn convert(value: &serde_json::Value) -> Json {
    match value {
        serde_json::Value::Null => Json::Null,
        serde_json::Value::Bool(value) => Json::Bool(*value),
        serde_json::Value::Number(number) => {
            if let Some(value) = number.as_u64() {
                Json::Number(JsonNumber::Unsigned(value))
            } else if let Some(value) = number.as_i64() {
                Json::Number(JsonNumber::Negative(value))
            } else {
                Json::Number(JsonNumber::Decimal(number.to_string()))
            }
        }
        serde_json::Value::String(text) => Json::Text(text.clone()),
        serde_json::Value::Array(items) => Json::Array(items.iter().map(convert).collect()),
        serde_json::Value::Object(members) => Json::Object(
            members
                .iter()
                .map(|(key, value)| Member {
                    key: key.clone(),
                    value: convert(value),
                })
                .collect(),
        ),
    }
}

fn json(text: &str) -> Json {
    convert(&serde_json::from_str(text).unwrap())
}

fn members(text: &str) -> Vec<Member> {
    match json(text) {
        Json::Object(members) => members,
        _ => panic!("expected an object"),
    }
}

// A catalog with one type

fn settings() -> Settings {
    Settings {
        extensions: vec!["md".to_string()],
        exclude: Vec::new(),
        include_subfolders: true,
        types_folder: "_types".to_string(),
        contracts_folder: "_contracts".to_string(),
        migrations_folder: "_types/_migrations".to_string(),
        explicit_type_keys: Vec::new(),
        write_defaults: false,
        default_validation: "warn".to_string(),
        default_strict: Json::Bool(false),
        timezone: None,
        id_field: "id".to_string(),
        id_field_explicit: false,
        write_nulls: "explicit".to_string(),
        write_empty_lists: true,
        rename_update_refs: true,
        cache_folder: ".mdbase".to_string(),
    }
}

fn field(name: &str, field_type: &str) -> FieldDef {
    FieldDef {
        name: name.to_string(),
        field_type: field_type.to_string(),
        values: None,
        fields: None,
    }
}

fn catalog_with(match_expression: bool) -> CompiledCatalog {
    CompiledCatalog {
        resource_revision: "catalog-7".to_string(),
        engine_version: "engine-1".to_string(),
        collection: Collection {
            settings: settings(),
            config_extensions: Vec::new(),
            types: vec![TypeDefinition {
                name: "task".to_string(),
                fields: vec![field("status", "string"), field("effort", "number")],
                has_match_expression: match_expression,
                has_computed_fields: false,
                unique_fields: vec!["slug".to_string()],
            }],
            type_warnings: Vec::new(),
        },
    }
}

fn catalog() -> CompiledCatalog {
    catalog_with(false)
}

fn format_of() -> ProjectionFormat {
    ProjectionFormat {
        projection_schema: "projection-1".to_string(),
        format_version: 1,
        structure_schema: "structure-1".to_string(),
    }
}

fn projection_at(path: &str, frontmatter: &str, complete: bool) -> SemanticProjection {
    SemanticProjection {
        facts: SemanticProjectionFacts {
            schema_version: "projection-1".to_string(),
            format_version: 1,
            semantic_engine_version: "engine-1".to_string(),
            catalog_revision: "catalog-7".to_string(),
            semantic_complete: complete,
            path: path.to_string(),
            types: vec!["task".to_string()],
            file: ProjectedFile {
                path: path.to_string(),
                name: "one.md".to_string(),
                basename: "one".to_string(),
                extension: "md".to_string(),
                size: 0,
                mtime: None,
            },
            persisted_frontmatter: members(frontmatter),
            effective_frontmatter: members(frontmatter),
            resolution_keys: Vec::new(),
        },
        structure: ResolvedRecordStructure {
            schema_version: "structure-1".to_string(),
            path: path.to_string(),
            structural_digest_is_valid: true,
            occurrences: Vec::new(),
            body_tags: Vec::new(),
            body_links: Vec::new(),
            body_embeds: Vec::new(),
        },
    }
}

fn projection(status: &str, complete: bool) -> SemanticProjection {
    projection_at(
        "tasks/one.md",
        &format!("{{\"status\": \"{status}\"}}"),
        complete,
    )
}

// Queries

fn query_facts(filter: Option<Expr>) -> QueryFacts {
    QueryFacts {
        schema_errors: Vec::new(),
        preflight: Ok(PreflightFacts {
            this_context: false,
            link_graph: false,
            file_body_metadata: false,
        }),
        timezone_error: None,
        filter: Ok(filter.unwrap_or(Expr::Bool(true))),
    }
}

fn compile(query: &str, filter: Option<Expr>) -> HostedQueryPlan {
    let query = json(query);
    catalog()
        .compile_hosted_query(&query, &query_facts(filter))
        .unwrap()
}

fn refusal_of(query: &str) -> CatalogError {
    let query = json(query);
    catalog()
        .compile_hosted_query(&query, &query_facts(None))
        .unwrap_err()
}

fn dot(object: &str, name: &str) -> Expr {
    Expr::Dot(Box::new(Expr::Ident(object.to_string())), name.to_string())
}

fn record_field(name: &str) -> Expr {
    dot("record", name)
}

fn equals(left: Expr, right: Expr) -> Expr {
    Expr::BinOp(Box::new(left), BinOp::Eq, Box::new(right))
}

fn text(value: &str) -> Expr {
    Expr::Str(value.to_string())
}

fn status_is(value: &str) -> Expr {
    equals(record_field("status"), text(value))
}

fn body_contains(value: &str) -> Expr {
    Expr::Call(
        Box::new(Expr::Dot(
            Box::new(Expr::Dot(
                Box::new(Expr::Ident("file".to_string())),
                "body".to_string(),
            )),
            "contains".to_string(),
        )),
        vec![text(value)],
    )
}

#[test]
fn exact_json_comparisons_prune_but_still_use_canonical_residuals() {
    let plan = compile(
        "{\"types\": [\"task\"], \"where\": \"record.status == 'open'\", \"order_by\": [{\"field\": \"file.path\"}], \"limit\": 50}",
        Some(status_is("open")),
    );
    assert!(!plan.residual.filter_fully_projected);
    assert!(matches!(
        plan.candidate,
        CandidatePredicate::And { ref terms }
            if terms.iter().any(|term| matches!(
                term,
                CandidatePredicate::Compare { comparison }
                    if comparison.pruning == CandidateComparisonPruning::ExactJson
            ))
    ));
    assert_eq!(plan.page_size, 50);
    assert_eq!(
        plan.candidate_verdict(
            Some(&projection("closed", true)),
            ProjectionAvailability::Current,
            &format_of()
        ),
        CandidateVerdict::Reject
    );
    assert_eq!(
        plan.candidate_verdict(
            Some(&projection("closed", true)),
            ProjectionAvailability::Stale,
            &format_of()
        ),
        CandidateVerdict::CanonicalRequired
    );
}

#[test]
fn datetime_and_numeric_coercions_are_never_exact_json_pruning_proofs() {
    let date = compile(
        "{\"where\": \"record.due < '2026-06-01'\", \"limit\": 10}",
        Some(Expr::BinOp(
            Box::new(record_field("due")),
            BinOp::Lt,
            Box::new(text("2026-06-01")),
        )),
    );
    assert!(matches!(
        date.candidate,
        CandidatePredicate::Compare { ref comparison }
            if comparison.pruning == CandidateComparisonPruning::IsoDateOnlyString
    ));
    let numeric = compile(
        "{\"where\": \"record.count == 42\", \"limit\": 10}",
        Some(equals(
            record_field("count"),
            Expr::Number(JsonNumber::Unsigned(42)),
        )),
    );
    assert!(matches!(
        numeric.candidate,
        CandidatePredicate::Compare { ref comparison }
            if comparison.pruning == CandidateComparisonPruning::Conservative
    ));
    for plan in [date, numeric] {
        assert_eq!(
            plan.candidate_verdict(
                Some(&projection("open", true)),
                ProjectionAvailability::Current,
                &format_of()
            ),
            CandidateVerdict::CanonicalRequired
        );
    }
}

fn ready() -> ResidualAnalysis {
    ResidualAnalysis::Ready(ResidualFacts {
        has_projections: false,
        has_selections: false,
        link_graph: false,
        context_path: None,
    })
}

fn evaluated(path: &str, filter: Option<bool>, serialized: &str) -> EvaluatedCandidate {
    EvaluatedCandidate {
        path: path.to_string(),
        types: vec!["task".to_string()],
        match_diagnostics: Vec::new(),
        projections: Vec::new(),
        filter: filter.map(|value| Ok(Json::Bool(value))),
        selections: Vec::new(),
        sort_values: Vec::new(),
        serialized: json(serialized),
    }
}

fn evidence(evaluated: EvaluatedCandidate, frontmatter: &str) -> ResidualEvidence {
    ResidualEvidence {
        effective: json(frontmatter),
        file: json("{\"ext\": \"md\"}"),
        evaluated,
    }
}

fn running() -> ClockFacts {
    ClockFacts {
        timezone_error: None,
        clock_error: None,
    }
}

#[test]
fn projection_complete_filter_uses_canonical_residual_without_exact_body() {
    let catalog = catalog();
    let plan = compile(
        "{\"types\": [\"task\"], \"where\": \"record.status == 'open'\", \"limit\": 10}",
        Some(status_is("open")),
    );
    assert!(!plan.requirements.exact_document);

    let evaluate = |status: &str, matches: bool| -> HostedResidualEvaluation {
        catalog
            .evaluate_hosted_projection_residual(
                &plan,
                &projection(status, true),
                &format_of(),
                &ready(),
                &running(),
                json("{}"),
                Some(Ok(Json::Bool(matches))),
                &json("{\"effective_frontmatter\": {\"status\": \"open\"}}"),
            )
            .unwrap()
    };
    let matching = evaluate("open", true);
    assert!(matching.matched);
    assert_eq!(
        matching
            .record
            .unwrap()
            .get_nested("effective_frontmatter", "status"),
        Some(&Json::text("open"))
    );
    let missing = evaluate("closed", false);
    assert!(!missing.matched);
    assert!(missing.record.is_none());
}

#[test]
fn projection_binding_mismatch_requires_exact_fallback() {
    let catalog = catalog();
    let plan = compile("{\"types\": [\"task\"], \"limit\": 10}", None);
    let mut stale_projection = projection("open", true);
    stale_projection.facts.catalog_revision = "stale-catalog".to_string();
    let mut forged_projection = projection("open", true);
    forged_projection.structure.structural_digest_is_valid = false;
    forged_projection
        .structure
        .body_links
        .push("forged.md".to_string());
    for broken in [stale_projection, forged_projection] {
        assert_eq!(
            plan.candidate_verdict(Some(&broken), ProjectionAvailability::Current, &format_of()),
            CandidateVerdict::CanonicalRequired
        );
        let error = catalog
            .evaluate_hosted_projection_residual(
                &plan,
                &broken,
                &format_of(),
                &ready(),
                &running(),
                json("{}"),
                None,
                &json("{}"),
            )
            .unwrap_err();
        assert_eq!(error.code, "hosted_exact_residual_required");
    }
}

#[test]
fn diagnostic_matchers_prevent_type_candidate_pruning() {
    let catalog = catalog_with(true);
    let query = json("{\"types\": [\"task\"], \"limit\": 10}");
    let plan = catalog
        .compile_hosted_query(&query, &query_facts(None))
        .unwrap();
    let mut other = projection("open", true);
    other.facts.types = Vec::new();
    assert!(plan.requirements.diagnostic_type_matchers);
    assert_eq!(
        plan.candidate_verdict(Some(&other), ProjectionAvailability::Current, &format_of()),
        CandidateVerdict::CanonicalRequired
    );
}

#[test]
fn body_structural_filters_require_exact_until_query_context_supports_them() {
    let plan = compile(
        "{\"where\": \"file.tags.contains('urgent')\", \"limit\": 10}",
        Some(Expr::Call(
            Box::new(Expr::Dot(
                Box::new(Expr::Dot(
                    Box::new(Expr::Ident("file".to_string())),
                    "tags".to_string(),
                )),
                "contains".to_string(),
            )),
            vec![text("urgent")],
        )),
    );
    assert!(plan.requirements.structural_body_facts);
    assert!(plan.requirements.exact_document);
    let error = catalog()
        .evaluate_hosted_projection_residual(
            &plan,
            &projection("open", true),
            &format_of(),
            &ready(),
            &running(),
            json("{}"),
            None,
            &json("{}"),
        )
        .unwrap_err();
    assert_eq!(error.code, "hosted_exact_residual_required");
}

#[test]
fn incomplete_projection_is_fail_closed_even_under_negation() {
    let plan = compile(
        "{\"where\": \"!(record.status == 'closed')\", \"limit\": 10}",
        Some(Expr::UnaryOp(UnaryOp::Not, Box::new(status_is("closed")))),
    );
    assert_eq!(
        plan.candidate_verdict(
            Some(&projection("closed", false)),
            ProjectionAvailability::Current,
            &format_of()
        ),
        CandidateVerdict::CanonicalRequired
    );
}

#[test]
fn proven_conjunct_may_prune_before_an_exact_body_residual() {
    let plan = compile(
        "{\"where\": \"record.status == 'open' && file.body.contains('needle')\", \"include_body\": true, \"limit\": 10}",
        Some(Expr::BinOp(
            Box::new(status_is("open")),
            BinOp::And,
            Box::new(body_contains("needle")),
        )),
    );
    assert!(!plan.residual.filter_fully_projected);
    assert!(plan.requirements.canonical_residual);
    assert_eq!(
        plan.candidate_verdict(
            Some(&projection("closed", true)),
            ProjectionAvailability::Current,
            &format_of()
        ),
        CandidateVerdict::Reject
    );
}

#[test]
fn partial_disjunction_and_negation_never_narrow_candidates() {
    let sources = [
        (
            "record.status == 'open' || file.body.contains('needle')",
            Expr::BinOp(
                Box::new(status_is("open")),
                BinOp::Or,
                Box::new(body_contains("needle")),
            ),
        ),
        (
            "!(record.status == 'open' && file.body.contains('needle'))",
            Expr::UnaryOp(
                UnaryOp::Not,
                Box::new(Expr::BinOp(
                    Box::new(status_is("open")),
                    BinOp::And,
                    Box::new(body_contains("needle")),
                )),
            ),
        ),
    ];
    for (source, expression) in sources {
        let plan = compile(
            &format!("{{\"where\": \"{source}\", \"limit\": 10}}"),
            Some(expression),
        );
        assert_eq!(plan.candidate, CandidatePredicate::All);
        assert!(!plan.residual.filter_fully_projected);
        assert_eq!(
            plan.candidate_verdict(
                Some(&projection("closed", true)),
                ProjectionAvailability::Current,
                &format_of()
            ),
            CandidateVerdict::CanonicalRequired
        );
    }
}

#[test]
fn type_filter_is_disjunctive() {
    let plan = compile("{\"types\": [\"task\", \"note\"], \"limit\": 5}", None);
    assert!(matches!(
        plan.candidate,
        CandidatePredicate::Or { ref terms } if terms.len() == 2
    ));
}

#[test]
fn exact_residual_evaluates_body_without_collection_enumeration() {
    let catalog = catalog();
    let plan = compile(
        "{\"where\": \"record.status == 'open' && file.body.contains('needle')\", \"include_body\": true, \"limit\": 10}",
        Some(Expr::BinOp(
            Box::new(status_is("open")),
            BinOp::And,
            Box::new(body_contains("needle")),
        )),
    );
    let evaluate = |matches: bool| {
        catalog
            .evaluate_hosted_residual(
                &plan,
                &exact(
                    input("one", "tasks/one.md", "secret needle\n"),
                    "{\"status\": \"open\"}",
                ),
                &ready(),
                &running(),
                evidence(
                    evaluated(
                        "tasks/one.md",
                        Some(matches),
                        "{\"body\": \"secret needle\\n\"}",
                    ),
                    "{\"status\": \"open\"}",
                ),
            )
            .unwrap()
    };
    let evaluation = evaluate(true);
    assert!(evaluation.matched);
    assert_eq!(
        evaluation.record.as_ref().unwrap().get_str("body"),
        Some("secret needle\n")
    );
    assert!(!evaluate(false).matched);
}

#[test]
fn residual_plan_binding_is_fail_closed() {
    let catalog = catalog();
    let judge = |plan: &HostedQueryPlan| {
        catalog
            .evaluate_hosted_residual(
                plan,
                &exact(input("one", "tasks/one.md", ""), "{\"status\": \"open\"}"),
                &ready(),
                &running(),
                evidence(
                    evaluated("tasks/one.md", Some(true), "{}"),
                    "{\"status\": \"open\"}",
                ),
            )
            .unwrap_err()
    };
    let mut plan = compile(
        "{\"where\": \"record.status == 'open'\", \"limit\": 5}",
        Some(status_is("open")),
    );
    plan.residual.query = json("{\"where\": \"true\"}");
    assert_eq!(judge(&plan).code, "hosted_query_plan_mismatch");

    let mut plan = compile("{\"types\": [\"task\"], \"limit\": 5}", None);
    plan.candidate = CandidatePredicate::Nothing;
    assert_eq!(judge(&plan).code, "hosted_query_plan_mismatch");
}

#[test]
fn residual_honors_query_timezone_and_provider_file_size() {
    let catalog = catalog();
    let query = json("{\"timezone\": \"local\", \"limit\": 5}");
    let mut invalid = query_facts(None);
    invalid.timezone_error = Some("unsupported time zone".to_string());
    let invalid = catalog.compile_hosted_query(&query, &invalid).unwrap_err();
    assert_eq!(invalid.code, "invalid_timezone");

    let plan = compile(
        "{\"timezone\": \"Australia/Melbourne\", \"where\": \"file.size == 999\", \"limit\": 5}",
        Some(equals(
            dot("file", "size"),
            Expr::Number(JsonNumber::Unsigned(999)),
        )),
    );
    let mut record = input(
        "one",
        "tasks/one.md",
        "---\nstatus: open\n---\nshort\n",
    );
    record.file_size = 999;
    let record = exact(record, "{\"status\": \"open\"}");
    let evaluation = catalog
        .evaluate_hosted_residual(
            &plan,
            &record,
            &ready(),
            &running(),
            evidence(
                evaluated("tasks/one.md", Some(record.record.file_size == 999), "{}"),
                "{\"status\": \"open\"}",
            ),
        )
        .unwrap();
    assert!(evaluation.matched);
}

#[test]
fn residuals_fail_with_their_own_errors() {
    let catalog = catalog();
    let plan = |wanted: &str| compile(&format!("{{\"types\": [\"{wanted}\"], \"limit\": 5}}"), None);
    let context = |path: &str, valid: bool| ContextRecord {
        record: input("context", path, "text"),
        read: OperationResult {
            valid,
            result: json(
                "{\"effective_frontmatter\": {\"a\": 1}, \"types\": [\"task\"], \"body\": \"text\"}",
            ),
            diagnostics: Vec::new(),
        },
    };
    let code_of = |plan: &HostedQueryPlan,
                   path: &RecordPathFacts,
                   supplied: Option<&ContextRecord>,
                   facts: &ResidualAnalysis,
                   clock: &ClockFacts| {
        catalog
            .evaluate_hosted_residual_with_context(
                plan,
                &ExactRecord {
                    path: RecordPathFacts {
                        normal: path.normal.clone(),
                        excluded: path.excluded,
                        record_extension: path.record_extension,
                    },
                    ..exact(input("one", "tasks/one.md", ""), "{}")
                },
                supplied,
                facts,
                clock,
                evidence(evaluated("tasks/one.md", None, "{}"), "{}"),
            )
            .map(|evaluation| evaluation.matched)
            .map_err(|error| error.code)
    };
    let task = plan("task");
    let code = |path: &RecordPathFacts,
                supplied: Option<&ContextRecord>,
                facts: &ResidualAnalysis,
                clock: &ClockFacts| code_of(&task, path, supplied, facts, clock);
    let facts = |link_graph: bool, context_path: Option<&str>| {
        ResidualAnalysis::Ready(ResidualFacts {
            has_projections: false,
            has_selections: false,
            link_graph,
            context_path: context_path.map(|path| path.to_string()),
        })
    };
    let known = path_facts("tasks/one.md");
    let failed = |code: &str| Err(code.to_string());
    assert_eq!(
        code(
            &known,
            None,
            &ResidualAnalysis::Unprepared(vec!["broken".to_string()]),
            &running()
        ),
        failed("invalid_query")
    );
    assert_eq!(
        code(&known, None, &facts(true, None), &running()),
        failed("hosted_collection_context_required")
    );
    let needs = facts(false, Some("context.md"));
    assert_eq!(
        code(&known, Some(&context("other.md", true)), &needs, &running()),
        failed("context_not_found")
    );
    assert_eq!(
        code(&known, Some(&context("context.md", false)), &needs, &running()),
        failed("context_invalid")
    );
    assert_eq!(
        code(&known, Some(&context("context.md", true)), &needs, &running()),
        Ok(true)
    );
    assert_eq!(
        code(
            &path_facts(".hidden.md"),
            None,
            &facts(false, None),
            &running()
        ),
        failed("invalid_path")
    );
    let zoneless = ClockFacts {
        timezone_error: Some("unknown zone".to_string()),
        clock_error: None,
    };
    let clockless = ClockFacts {
        timezone_error: None,
        clock_error: Some(StageFault {
            code: "clock_failed".to_string(),
            message: "no clock".to_string(),
        }),
    };
    let plain = facts(false, None);
    assert_eq!(
        code_of(&plan("TASK"), &known, None, &plain, &zoneless),
        failed("invalid_timezone")
    );
    assert_eq!(
        code_of(&plan("TASK"), &known, None, &plain, &clockless),
        failed("clock_failed")
    );
    assert_eq!(
        code_of(&plan("note"), &known, None, &plain, &clockless),
        Ok(false)
    );
    let mut undecodable = plan("task");
    undecodable.residual.query = json("{\"types\": 1}");
    undecodable.canonical_query_digest = digest_json(&undecodable.residual.query).unwrap();
    undecodable.plan_digest = undecodable.integrity_digest().unwrap();
    assert_eq!(
        code_of(&undecodable, &known, None, &plain, &running()),
        failed("invalid_query")
    );
    let supplied = context("context.md", true);
    let read = hosted_query_context(
        &CanonicalRecordInput {
            stable_id: None,
            path: "context.md".to_string(),
            document: "text".to_string(),
            file_size: 0,
            file_mtime: None,
        },
        &supplied.read,
    )
    .unwrap();
    assert_eq!(read.file_size, 4);
    assert_eq!(read.types, vec!["task"]);
    assert_eq!(read.effective, json("{\"a\": 1}"));
    assert_eq!(read.persisted, json("{}"));
    assert_eq!(read.body.as_deref(), Some("text"));
}

#[test]
fn projections_complete_the_facts_of_files() {
    let catalog = catalog();
    let plan = compile(
        "{\"types\": [\"task\"], \"order_by\": [{\"field\": \"file.ext\"}], \"limit\": 10}",
        None,
    );
    let mut one = projection("open", true);
    one.facts.effective_frontmatter = members("{\"tags\": [\"frontmatter\"]}");
    one.structure.body_tags = vec!["body".to_string(), "frontmatter".to_string()];
    one.structure.body_links = vec!["target".to_string(), "other.md".to_string()];
    one.structure.body_embeds = vec!["embed#part".to_string(), "asset.png".to_string()];
    let file = complete_file_value_from_projection(
        json("{\"ext\": \"md\"}"),
        &json("{\"tags\": [\"frontmatter\"]}"),
        &one,
    );
    assert_eq!(
        file.get("tags"),
        Some(&json("[\"frontmatter\", \"body\"]"))
    );
    assert_eq!(
        file.get("links"),
        Some(&json("[\"target\", \"other.md\"]"))
    );
    assert_eq!(
        file.get("embeds"),
        Some(&json("[\"embed#part\", \"asset.png\"]"))
    );
    let evaluation = catalog
        .evaluate_hosted_projection_residual(
            &plan,
            &one,
            &format_of(),
            &ready(),
            &running(),
            json("{\"ext\": \"md\"}"),
            None,
            &json("{}"),
        )
        .unwrap();
    assert_eq!(evaluation.order_values, vec![Json::text("md")]);
    assert!(evaluation.matched);
}

#[test]
fn projection_result_preserves_canonical_body_metadata_without_body_prose() {
    let catalog = catalog();
    let document = "---\nstatus: open\ntags: [frontmatter]\n---\n#body [[target#anchor|Alias]] [other](other.md#section) ![[embed#part]] ![image](asset.png)\n";
    let frontmatter = "{\"status\": \"open\", \"tags\": [\"frontmatter\"]}";
    let mut projection = projection_at("tasks/one.md", frontmatter, true);
    projection.structure.body_tags = vec!["body".to_string()];
    projection.structure.body_links = vec!["target".to_string(), "other.md".to_string()];
    projection.structure.body_embeds = vec!["embed#part".to_string(), "asset.png".to_string()];
    let plan = compile("{\"types\": [\"task\"], \"limit\": 10}", None);

    let full = "{\"ext\": \"md\", \"tags\": [\"frontmatter\", \"body\"], \"links\": [\"target\", \"other.md\"], \"embeds\": [\"embed#part\", \"asset.png\"]}";
    let mut record = input("record-1", "tasks/one.md", document);
    record.file_size = 0;
    let exact = catalog
        .evaluate_hosted_residual(
            &plan,
            &exact(record, frontmatter),
            &ready(),
            &running(),
            ResidualEvidence {
                effective: json(frontmatter),
                file: json(full),
                evaluated: evaluated(
                    "tasks/one.md",
                    None,
                    &format!("{{\"file\": {full}, \"path\": \"tasks/one.md\"}}"),
                ),
            },
        )
        .unwrap()
        .record
        .unwrap();
    let projected = catalog
        .evaluate_hosted_projection_residual(
            &plan,
            &projection,
            &format_of(),
            &ready(),
            &running(),
            json("{\"ext\": \"md\"}"),
            None,
            &json("{\"file\": {\"ext\": \"md\"}, \"path\": \"tasks/one.md\"}"),
        )
        .unwrap()
        .record
        .unwrap();
    for field in ["tags", "links", "embeds"] {
        assert_eq!(
            projected.get_nested("file", field),
            exact.get_nested("file", field)
        );
    }
    assert_eq!(
        projected.get_nested("file", "tags"),
        Some(&json("[\"frontmatter\", \"body\"]"))
    );
    assert_eq!(
        projected.get_nested("file", "links"),
        Some(&json("[\"target\", \"other.md\"]"))
    );
    assert_eq!(
        projected.get_nested("file", "embeds"),
        Some(&json("[\"embed#part\", \"asset.png\"]"))
    );
    assert!(!format!("{projected:?}").contains("Alias"));
}

#[test]
fn queries_are_decoded_member_by_member() {
    let decoded = |text: &str| QueryEnvelope::from_json(&json(text));
    let envelope = decoded(
        "{\"types\": [\"task\"], \"where\": \"true\", \"timezone\": null,
          \"order_by\": [{\"field\": \"file.path\"}, {\"field\": \"x\", \"direction\": \"desc\"}],
          \"summaries\": [{\"field\": \"x\", \"function\": \"sum\", \"name\": null}],
          \"summary_functions\": {\"own\": \"1\"}, \"limit\": null, \"offset\": 3,
          \"include_body\": true, \"projections\": {}, \"select\": [], \"unknown\": 1}",
    )
    .unwrap();
    assert_eq!(envelope.types, ["task"]);
    assert_eq!(envelope.filter.as_deref(), Some("true"));
    assert_eq!(envelope.order_by[0].direction, HostedOrderDirection::Ascending);
    assert_eq!(envelope.order_by[1].direction, HostedOrderDirection::Descending);
    assert_eq!(envelope.summaries[0].function, "sum");
    assert_eq!(envelope.summaries[0].name, None);
    assert_eq!(envelope.summary_functions, ["own"]);
    assert_eq!((envelope.limit, envelope.offset), (None, 3));
    assert!(envelope.include_body && !envelope.has_projections && envelope.has_select);
    for text in [
        "[]",
        "{\"types\": null}",
        "{\"types\": [1]}",
        "{\"where\": 1}",
        "{\"timezone\": 1}",
        "{\"order_by\": [{\"field\": \"x\", \"direction\": \"up\"}]}",
        "{\"group_by\": [{}]}",
        "{\"summaries\": [{\"field\": \"x\"}]}",
        "{\"summary_functions\": []}",
        "{\"limit\": -1}",
        "{\"offset\": null}",
        "{\"include_body\": \"yes\"}",
        "{\"projections\": []}",
        "{\"select\": {}}",
        "{\"pagination\": 1}",
    ] {
        assert!(decoded(text).is_none(), "{text}");
    }
    let error = refusal_of("{\"limit\": \"ten\"}");
    assert_eq!(error.code, "invalid_query");
    assert_eq!(
        error.message,
        "Query could not be decoded: a member has an unexpected shape."
    );
    // A filter is read only where the query has one.
    let mut facts = query_facts(None);
    facts.filter = Err(EvaluationError {
        code: "invalid_expression".to_string(),
        message: "no".to_string(),
    });
    let query = json("{\"limit\": 1}");
    assert!(catalog().compile_hosted_query(&query, &facts).is_ok());
    let query = json("{\"where\": \"(\"}");
    let error = catalog().compile_hosted_query(&query, &facts).unwrap_err();
    assert_eq!(error.code, "invalid_expression");
    assert_eq!(error.message, "Query filter did not compile: no");
}

#[test]
fn transport_controls_do_not_change_plans() {
    let plain = compile(
        "{\"types\": [\"task\"], \"order_by\": [{\"field\": \"record.status\"}]}",
        None,
    );
    let paged = compile(
        "{\"types\": [\"task\"], \"order_by\": [{\"field\": \"record.status\"}], \"limit\": 7, \"offset\": 3, \"pagination\": \"cursor\", \"cursor\": \"x\", \"snapshot\": \"y\", \"release_cursor\": true}",
        None,
    );
    assert_eq!(plain.canonical_query_digest, paged.canonical_query_digest);
    assert_eq!(plain.residual.query, paged.residual.query);
    assert_eq!(plain.candidate, paged.candidate);
    assert_eq!(plain.order[0].value_kind, paged.order[0].value_kind);
    assert_eq!(plain.requirements, paged.requirements);
    assert_eq!((plain.page_size, paged.page_size), (100, 7));
    assert_ne!(plain.plan_digest, paged.plan_digest);
    for control in ["pagination", "cursor", "release_cursor", "snapshot", "limit", "offset"] {
        assert_eq!(paged.residual.query.get(control), None);
    }
}

#[test]
fn one_query_has_one_plan() {
    let query = "{\"types\": [\"task\"], \"where\": \"record.status == 'open'\", \"limit\": 7, \"offset\": 3}";
    let first = compile(query, Some(status_is("open")));
    let second = compile(query, Some(status_is("open")));
    assert_eq!(first.plan_digest, second.plan_digest);
    assert_eq!(first.candidate, second.candidate);
    assert_eq!(
        (first.page_size, first.requested_limit, first.offset),
        (7, Some(7), 3)
    );
    first.validate_integrity().unwrap();
}

#[test]
fn rejected_records_do_not_match_their_exact_text() {
    let plan = compile(
        "{\"types\": [\"Task\"], \"where\": \"record.status == 'open'\", \"limit\": 10}",
        Some(status_is("open")),
    );
    assert_eq!(
        plan.candidate_verdict(
            Some(&projection("closed", true)),
            ProjectionAvailability::Current,
            &format_of()
        ),
        CandidateVerdict::Reject
    );
    let judged = catalog()
        .evaluate_hosted_residual(
            &plan,
            &exact(input("one", "tasks/one.md", ""), "{\"status\": \"closed\"}"),
            &ready(),
            &running(),
            evidence(
                evaluated("tasks/one.md", Some(false), "{}"),
                "{\"status\": \"closed\"}",
            ),
        )
        .unwrap();
    assert!(!judged.matched);
    assert!(judged.record.is_none());
}

#[test]
fn invalid_time_zones_are_refused_before_anything_is_planned() {
    let query = json("{\"timezone\": \"local\", \"limit\": 5}");
    let mut facts = query_facts(None);
    facts.timezone_error = Some("unsupported time zone".to_string());
    let invalid = catalog().compile_hosted_query(&query, &facts).unwrap_err();
    assert_eq!(invalid.code, "invalid_timezone");
}

#[test]
fn page_maximum_is_a_typed_error_not_a_clamp() {
    let error = refusal_of(&format!("{{\"limit\": {}}}", MAX_PAGE_SIZE + 1));
    assert_eq!(error.code, "hosted_result_budget_exceeded");

    let error = refusal_of("{\"offset\": 10001, \"limit\": 1}");
    assert_eq!(error.code, "hosted_offset_budget_exceeded");
}

#[test]
fn exact_order_is_rejected_until_a_bounded_sorter_exists() {
    let error = refusal_of("{\"order_by\": [{\"field\": \"file.body\"}]}");
    assert_eq!(error.code, "unsupported_hosted_order");
}

#[test]
fn plan_is_closed_versioned_and_deterministic() {
    let first = compile("{\"types\": [\"task\"], \"limit\": 5}", None);
    let second = compile("{\"types\": [\"task\"], \"limit\": 5}", None);
    assert_eq!(first.plan_digest, second.plan_digest);
    assert_eq!(first.candidate, second.candidate);
    assert_eq!(first.version, HOSTED_QUERY_PLAN_VERSION);
    assert_eq!(first.version, 8);
    assert!(first.canonical_query_digest.starts_with("sha256:"));
    assert!(first.plan_digest.starts_with("sha256:"));
    assert!(first.validate_integrity().is_ok());
}

#[test]
fn cursor_control_is_host_transport_and_ordering_is_explicit() {
    let plan = compile(
        "{\"pagination\": \"cursor\", \"order_by\": [{\"field\": \"file.ext\", \"direction\": \"desc\"}], \"limit\": 20}",
        None,
    );
    assert_eq!(plan.order[0].field, CandidateField::File("ext".to_string()));
    assert_eq!(plan.order[0].semantics, HostedSortSemantics::CanonicalV03);
    assert!(plan.order[0].canonical_path_tiebreak);
    assert!(plan.requirements.bounded_top_k);

    let grouped = compile(
        "{\"types\": [\"task\"], \"group_by\": [{\"field\": \"record.status\"}], \"limit\": 20}",
        None,
    );
    assert_eq!(grouped.groups[0].output_name, "record.status");
    assert!(grouped.requirements.bounded_grouping);
    assert_eq!(grouped.groups[0].value_kind, Some(HostedScalarKind::String));

    let ordered = compile(
        "{\"types\": [\"task\"], \"order_by\": [{\"field\": \"record.status\"}, {\"field\": \"file.mtime\", \"direction\": \"desc\"}]}",
        None,
    );
    assert_eq!(ordered.order[0].value_kind, Some(HostedScalarKind::String));
    assert_eq!(ordered.order[1].value_kind, Some(HostedScalarKind::String));
}

#[test]
fn canonical_operator_values_drive_bounded_order_and_reduction() {
    let catalog = catalog();
    let plan = compile(
        "{\"order_by\": [{\"field\": \"record.effort\", \"direction\": \"desc\"}],
          \"group_by\": [{\"field\": \"record.status\"}],
          \"summaries\": [
            {\"field\": \"record.effort\", \"function\": \"sum\", \"name\": \"effort\"},
            {\"field\": \"record.status\", \"function\": \"count\", \"name\": \"records\"}
          ]}",
        None,
    );
    let evaluate = |path: &str, status: &str, effort: u64| {
        let frontmatter = format!("{{\"effort\": {effort}, \"status\": \"{status}\"}}");
        catalog
            .evaluate_hosted_residual(
                &plan,
                &exact(input("one", path, ""), &frontmatter),
                &ready(),
                &running(),
                evidence(evaluated(path, None, "{}"), &frontmatter),
            )
            .unwrap()
    };
    let low = evaluate("tasks/low.md", "open", 2);
    let high = evaluate("tasks/high.md", "open", 5);
    assert!(plan
        .compare_order_values(
            &high.order_values,
            "tasks/high.md",
            &low.order_values,
            "tasks/low.md"
        )
        .is_lt());
    let reduction = plan
        .reduce_matches(&vec![
            HostedReductionInput {
                group_values: low.group_values,
                aggregate_values: low.aggregate_values,
            },
            HostedReductionInput {
                group_values: high.group_values,
                aggregate_values: high.aggregate_values,
            },
        ])
        .unwrap();
    assert_eq!(
        reduction.groups,
        Some(vec![json(
            "{\"values\": {\"record.status\": \"open\"}, \"count\": 2, \"summaries\": {\"effort\": 7, \"records\": 2}}"
        )])
    );
    assert!(reduction.diagnostics.is_empty());
}

#[test]
fn streaming_reduction_retains_only_bounded_group_state() {
    let plan = compile(
        "{\"group_by\": [{\"field\": \"record.status\"}],
          \"summaries\": [
            {\"field\": \"record.effort\", \"function\": \"sum\", \"name\": \"sum\"},
            {\"field\": \"record.effort\", \"function\": \"average\", \"name\": \"average\"},
            {\"field\": \"record.effort\", \"function\": \"minimum\", \"name\": \"minimum\"},
            {\"field\": \"record.effort\", \"function\": \"maximum\", \"name\": \"maximum\"},
            {\"field\": \"record.effort\", \"function\": \"count\", \"name\": \"count\"}
          ]}",
        None,
    );
    let mut accumulator = plan.start_reduction();
    for index in 0..100_000_u64 {
        accumulator
            .push(&HostedReductionInput {
                group_values: vec![Json::text(if index % 2 == 0 { "even" } else { "odd" })],
                aggregate_values: (0..5).map(|_| Json::unsigned(index)).collect(),
            })
            .unwrap();
    }
    assert_eq!(accumulator.groups.len(), 2);
    let reduction = accumulator.finish();
    let groups = reduction.groups.unwrap();
    assert_eq!(groups.len(), 2);
    let count = |group: usize, name: &str| {
        groups[group]
            .get("summaries")
            .unwrap()
            .get(name)
            .unwrap()
            .as_u64()
    };
    assert_eq!(groups[0].get("count"), Some(&Json::unsigned(50_000)));
    assert_eq!(count(0, "count"), Some(50_000));
    assert_eq!(count(0, "minimum"), Some(0));
    assert_eq!(count(0, "maximum"), Some(99_998));
    assert_eq!(count(1, "minimum"), Some(1));
    assert_eq!(count(1, "maximum"), Some(99_999));
    assert!(reduction.diagnostics.is_empty());
}

#[test]
fn transport_controls_are_absent_from_semantic_plan_and_digest() {
    let base = compile(
        "{\"types\": [\"task\"], \"order_by\": [{\"field\": \"file.path\"}], \"limit\": 20}",
        None,
    );
    let with_transport = compile(
        "{\"types\": [\"task\"], \"order_by\": [{\"field\": \"file.path\"}], \"limit\": 250, \"offset\": 50,
          \"pagination\": \"cursor\", \"cursor\": \"opaque-secret-token\",
          \"snapshot\": \"provider-snapshot-id\", \"release_cursor\": true}",
        None,
    );
    assert_eq!(
        with_transport.canonical_query_digest,
        base.canonical_query_digest
    );
    assert_eq!(with_transport.residual.query, base.residual.query);
    assert_ne!(with_transport.plan_digest, base.plan_digest);
    for control in [
        "pagination",
        "cursor",
        "snapshot",
        "release_cursor",
        "limit",
        "offset",
    ] {
        assert!(with_transport.residual.query.get(control).is_none());
    }
}

// Links

fn link(raw: &str, kind: StructuralSourceKind, target: &str) -> ResolvedStructuralOccurrence {
    ResolvedStructuralOccurrence {
        source_kind: kind,
        raw_target: raw.to_string(),
        normalized_target: None,
        resolution: StructuralResolution::Resolved,
        target_path: Some(target.to_string()),
    }
}

fn linked(path: &str) -> LinkedFile {
    LinkedFile {
        path: path.to_string(),
        frontmatter: json("{}"),
        body: String::new(),
    }
}

fn task_and_project() -> (SemanticProjection, SemanticProjection) {
    let mut task = projection_at("tasks/a.md", "{\"project\": \"[[projects/alpha]]\"}", true);
    task.structure.occurrences = vec![
        link(
            "projects/alpha#part",
            StructuralSourceKind::Body,
            "projects/body.md",
        ),
        link(
            " projects/alpha ",
            StructuralSourceKind::Frontmatter,
            "projects/alpha.md",
        ),
    ];
    let alpha = projection_at("projects/alpha.md", "{\"title\": \"Alpha\"}", true);
    (task, alpha)
}

#[test]
fn follows_a_candidate_link_through_its_neighborhood() {
    let plan = compile("{\"types\": [\"task\"], \"limit\": 10}", None);
    let (task, alpha) = task_and_project();
    let neighborhood = HostedRelationshipNeighborhood {
        projection: Some(task),
        related: vec![alpha],
        complete: true,
    };
    let graph = hosted_link_graph(
        linked("tasks/a.md"),
        Some(&neighborhood),
        &plan,
        &format_of(),
    )
    .unwrap();
    assert_eq!(
        graph.target_of("tasks/a.md", "projects/alpha"),
        Some("projects/alpha.md")
    );
    assert_eq!(graph.files.len(), 2);
    assert_eq!(
        graph.files[1].frontmatter.get_str("title"),
        Some("Alpha")
    );
    assert_eq!(graph.target_of("tasks/a.md", "unknown"), None);
}

#[test]
fn reads_backlinks_from_neighbors() {
    let plan = compile("{\"limit\": 10}", None);
    let (task, alpha) = task_and_project();
    let neighborhood = HostedRelationshipNeighborhood {
        projection: Some(alpha),
        related: vec![task],
        complete: true,
    };
    let graph = hosted_link_graph(
        linked("projects/alpha.md"),
        Some(&neighborhood),
        &plan,
        &format_of(),
    )
    .unwrap();
    assert_eq!(graph.backlinks("projects/alpha.md"), vec!["tasks/a.md"]);
}

#[test]
fn fails_closed_without_the_candidate_s_complete_neighborhood() {
    let plan = compile("{\"types\": [\"task\"], \"limit\": 10}", None);
    let (own, _) = task_and_project();
    let (other_own, alpha) = task_and_project();
    let incomplete = HostedRelationshipNeighborhood {
        projection: Some(own),
        related: Vec::new(),
        complete: false,
    };
    let foreign = HostedRelationshipNeighborhood {
        projection: Some(alpha),
        related: vec![other_own],
        complete: true,
    };
    for (neighborhood, code) in [
        (None, "hosted_collection_context_required"),
        (Some(&incomplete), "hosted_collection_context_required"),
        (Some(&foreign), "hosted_projection_mismatch"),
    ] {
        let error = hosted_link_graph(linked("tasks/a.md"), neighborhood, &plan, &format_of())
            .unwrap_err();
        assert_eq!(error.code, code);
    }
    let mut stale = projection_at("tasks/b.md", "{}", true);
    stale.facts.format_version = 0;
    let (own, _) = task_and_project();
    let outdated = HostedRelationshipNeighborhood {
        projection: Some(own),
        related: vec![stale],
        complete: true,
    };
    let error = hosted_link_graph(linked("tasks/a.md"), Some(&outdated), &plan, &format_of())
        .unwrap_err();
    assert_eq!(
        error.to_text(),
        "hosted_projection_stale: Link traversal requires a current projection for 'tasks/b.md'."
    );
}

// Validation

fn input(id: &str, path: &str, document: &str) -> CanonicalRecordInput {
    CanonicalRecordInput {
        stable_id: Some(id.to_string()),
        path: path.to_string(),
        document: document.to_string(),
        file_size: document.len() as u64,
        file_mtime: None,
    }
}

fn classified(path: &str, frontmatter: &str) -> CollectionSnapshotRecord {
    CollectionSnapshotRecord {
        path: path.to_string(),
        revision: "sha256:revision".to_string(),
        frontmatter: json(frontmatter),
        body: String::new(),
        types: vec!["task".to_string()],
        document: String::new(),
        frontmatter_error: None,
    }
}

fn exact(record: CanonicalRecordInput, frontmatter: &str) -> ExactRecord {
    ExactRecord {
        path: path_facts(&record.path),
        parsed: ParsedDocument {
            frontmatter: json(frontmatter),
            body: String::new(),
            types: vec!["task".to_string()],
            frontmatter_error: None,
        },
        record,
    }
}

fn values(id: &str, slug: &str) -> Vec<FieldValue> {
    vec![
        FieldValue {
            reference: "id".to_string(),
            value: Some(Json::text(id)),
        },
        FieldValue {
            reference: "slug".to_string(),
            value: Some(Json::text(slug)),
        },
    ]
}

fn path_facts(path: &str) -> RecordPathFacts {
    RecordPathFacts {
        normal: Ok(path.to_string()),
        excluded: false,
        record_extension: true,
    }
}

#[test]
fn plans_projection_candidates_and_validates_exact_conflicts() {
    let catalog = catalog();
    let target_input = || input(
        "one",
        "tasks/one.md",
        "---\nid: task-1\nslug: shared\nrelated: '[[task-2]]'\n---\nOne\n",
    );
    let conflict = input(
        "two",
        "tasks/two.md",
        "---\nid: task-2\nslug: shared\n---\nTwo\n",
    );
    let plan = catalog
        .plan_hosted_validation(
            &json("{\"path\": \"tasks/one.md\"}"),
            &exact(target_input(), "{}"),
            ValidationFacts {
                types: vec!["task".to_string()],
                values: values("task-1", "shared"),
                lookups: vec![ResolutionLookupKey {
                    kind: RecordResolutionKeyKind::Id,
                    value: "task-2".to_string(),
                }],
            },
        )
        .unwrap();
    assert!(plan
        .resolution_lookups
        .iter()
        .any(|lookup| lookup.kind == RecordResolutionKeyKind::Id && lookup.value == "task-2"));
    assert_eq!(plan.requirements.len(), 2);
    assert_eq!(
        plan.requirements[0].kind,
        HostedValidationRequirementKind::Identity
    );
    assert_eq!(plan.requirements[1].field_reference, "slug");
    assert!(plan.projection_may_conflict(&values("task-2", "shared")));
    assert!(!plan.projection_may_conflict(&values("task-3", "other")));
    let staged = OperationResult {
        valid: false,
        result: json("{}"),
        diagnostics: vec![Diagnostic::error("duplicate_value", "shared", None)],
    };
    let result = catalog
        .execute_hosted_validation(
            &plan,
            &vec![target_input(), conflict],
            &vec![path_facts("tasks/one.md"), path_facts("tasks/two.md")],
            &staged,
        )
        .unwrap();
    assert!(!result.valid);
    assert!(result
        .diagnostics
        .iter()
        .any(|diagnostic| diagnostic.code == "duplicate_value"));
}

#[test]
fn validations_fail_with_their_own_errors() {
    let catalog = catalog();
    let facts = || ValidationFacts {
        types: Vec::new(),
        values: Vec::new(),
        lookups: Vec::new(),
    };
    let mut anonymous = input("one", "tasks/one.md", "");
    anonymous.stable_id = None;
    let query = json("{\"path\": \"tasks/one.md\"}");
    assert_eq!(
        catalog
            .plan_hosted_validation(&query, &exact(anonymous, "{}"), facts())
            .unwrap_err()
            .code,
        "hosted_validation_identity_required"
    );
    assert_eq!(
        catalog
            .plan_hosted_validation(&query, &exact(input("one", "tasks/two.md", ""), "{}"), facts())
            .unwrap_err()
            .code,
        "hosted_validation_path_mismatch"
    );
    let mut plan = catalog
        .plan_hosted_validation(&query, &exact(input("one", "tasks/one.md", ""), "{}"), facts())
        .unwrap();
    let check = |plan: &mdbase::hosted_validation::HostedValidationPlan,
                 records: Vec<CanonicalRecordInput>,
                 paths: Vec<RecordPathFacts>| {
        catalog
            .check_hosted_validation(plan, &records, &paths)
            .unwrap_err()
            .code
    };
    assert_eq!(
        check(&plan, Vec::new(), Vec::new()),
        "hosted_validation_target_missing"
    );
    assert_eq!(
        check(
            &plan,
            vec![input("a", "x.md", ""), input("a", "y.md", "")],
            vec![path_facts("x.md"), path_facts("y.md")]
        ),
        "hosted_validation_context_ambiguous"
    );
    assert_eq!(
        check(&plan, vec![input("a", ".x.md", "")], vec![path_facts(".x.md")]),
        "invalid_path"
    );
    plan.catalog_revision = "other".to_string();
    assert_eq!(
        check(&plan, Vec::new(), Vec::new()),
        "hosted_validation_catalog_mismatch"
    );
}

#[test]
fn values_are_compared_in_one_form() {
    assert_eq!(comparable_value(&Json::Null), None);
    assert_eq!(comparable_value(&Json::text("x")), Some("x".to_string()));
    assert_eq!(
        comparable_value(&json("{\"b\": 1, \"a\": [true]}")),
        Some("{\"a\":[true],\"b\":1}".to_string())
    );
    let record = classified("a.md", "{\"own\": 1}");
    assert_eq!(
        persisted_frontmatter(&json("{\"frontmatter\": 5}"), &record),
        json("{}")
    );
    assert_eq!(persisted_frontmatter(&json("{}"), &record), json("{\"own\": 1}"));
}

// Resources

fn resource(path: &str, document: &str) -> HostedResource {
    HostedResource {
        path: path.to_string(),
        document: document.to_string(),
    }
}

#[test]
fn reads_types_and_views_without_record_documents() {
    let catalog = catalog();
    let type_document = "---\nkind: mdbase.type\nname: task\n---\n";
    let resources = vec![
        resource("mdbase.yaml", "spec_version: 0.3.0\n"),
        resource("_types/task.md", type_document),
        resource("views/open.md", "---\ntype: view\n---\n"),
    ];
    let staged = |result: Json| OperationResult {
        valid: true,
        result,
        diagnostics: Vec::new(),
    };
    let type_result = catalog
        .execute_hosted_resource_read(
            "read_type",
            &resources,
            staged(Json::Object(vec![Member {
                key: "document".to_string(),
                value: Json::text(type_document),
            }])),
        )
        .unwrap();
    assert!(type_result.valid);
    assert_eq!(type_result.result.get_str("document"), Some(type_document));
    let view_result = catalog
        .execute_hosted_resource_read(
            "read_view_source",
            &resources,
            staged(json("{\"path\": \"views/open.md\"}")),
        )
        .unwrap();
    assert!(view_result.valid);
    assert_eq!(view_result.result.get_str("path"), Some("views/open.md"));
}

#[test]
fn resource_reads_fail_with_their_own_errors() {
    let catalog = catalog();
    let code = |operation: &str, resources: Vec<HostedResource>| {
        catalog
            .check_hosted_resource_read(operation, &resources)
            .unwrap_err()
            .code
    };
    assert_eq!(code("read", Vec::new()), "unsupported_hosted_resource_read");
    assert_eq!(
        code("list_views", vec![resource("a/../b", "")]),
        "invalid_resource_path"
    );
    assert_eq!(
        code("list_views", vec![resource("/a", "")]),
        "invalid_resource_path"
    );
    assert_eq!(
        code(
            "list_views",
            (0..2_001).map(|index| resource(&format!("{index}"), "")).collect()
        ),
        "hosted_resource_count_budget_exceeded"
    );
    let large = "x".repeat(17 * 1024 * 1024);
    assert_eq!(
        code("list_views", vec![resource("a", &large), resource("b", &large)]),
        "hosted_resource_byte_budget_exceeded"
    );
    assert!(!escapes_stage("a/b..c"));
    assert!(escapes_stage(".."));
}

// Views

#[test]
fn canonical_view_compiles_to_the_closed_query_plan() {
    let view = exact(
        input("view-id", "views/tasks.md", "---\ntype: view\n---\n"),
        "{}",
    );
    let query = json(
        "{\"types\": [\"task\"], \"where\": \"record.status == 'open'\", \"order_by\": [{\"field\": \"file.path\"}], \"limit\": 25}",
    );
    let facts = |context_path: Option<&str>| ViewFacts {
        prepared: Ok(PreparedView {
            view_path: "views/tasks.md".to_string(),
            view_id: "open".to_string(),
            context_path: context_path.map(|path| path.to_string()),
            query: query.copy(),
        }),
        context_fault: None,
        query: query_facts(Some(status_is("open"))),
    };
    let request = json("{\"path\": \"views/tasks.md\", \"view\": \"open\", \"limit\": 25}");
    let plan_of = |facts: &ViewFacts, request: &Json| {
        catalog()
            .plan_hosted_canonical_view(request, &view, None, facts)
            .unwrap()
    };
    match plan_of(&facts(None), &request) {
        HostedCanonicalViewPlanning::Planned { plan } => {
            assert_eq!(plan.view_id, "open");
            assert_eq!(plan.query.page_size, 25);
            assert!(plan.invocation_digest.starts_with("sha256:"));
            assert_eq!(plan.context_revision, None);
        }
        HostedCanonicalViewPlanning::Invalid { .. } => panic!("view should compile"),
    }
    match plan_of(&facts(Some("views/tasks.md")), &request) {
        HostedCanonicalViewPlanning::Planned { plan } => {
            assert_eq!(
                plan.context_revision.as_deref(),
                Some(revision(b"---\ntype: view\n---\n").as_str())
            )
        }
        HostedCanonicalViewPlanning::Invalid { .. } => panic!("view should compile"),
    }
    let refused = |planning: HostedCanonicalViewPlanning| match planning {
        HostedCanonicalViewPlanning::Invalid { result } => result.diagnostics[0].code.clone(),
        HostedCanonicalViewPlanning::Planned { .. } => panic!("view should be refused"),
    };
    assert_eq!(
        refused(plan_of(&facts(Some("other.md")), &request)),
        "context_not_found"
    );
    assert_eq!(
        refused(plan_of(&facts(None), &json("{\"path\": \"x.md\"}"))),
        "view_not_found"
    );
}
