use mdbase::cache_source::{
    after_cache_read_failed, after_graph_read, after_opening, after_refresh, cached_record,
    cached_row, graph_source, linked_files, mtime_iso, partition_records, plan_metadata_page,
    row_frontmatter, CacheFailure, CacheOpening, CacheRow, GraphSource, InvalidRecordStub, LoadStep, LocalRecord, SnapshotFailure as CacheSnapshotFailure,
};
use mdbase::calendar::{ambiguous_canonical_string, is_iso_date_only, ns_to_iso};
use mdbase::canonical::{canonical_text_or_empty, digest_json};
use mdbase::collection::{Collection, FieldDef, Settings, TypeDefinition};
use mdbase::diagnostics::Diagnostic;
use mdbase::digest::revision;
use mdbase::engine::{
    evaluate_where, get_enum_values_for_field, get_sort_value, sort_entries, validate_where_clause,
    where_clause_uses_link_graph, EvaluatedRecord, ExpressionTruth, FileRecord, FilterExpression,
    FormulaResult, SortTerm,
};
use mdbase::execute::{
    apply_load_performance, execute_model, has_diagnostic_matchers, micros, plan_query_load,
    record_metadata_value, serialize_invalid_stub, CompiledQuery, EvaluatedCandidate,
    ExecutionStages, LoadQueryPerf, LoadedPage, LoadedRecord, OrderTerm, PageRecord,
    QueryExecution, QueryNeeds, QueryPerformance, SnapshotFailure, StageFault,
};
use mdbase::expressions::{
    expr_uses_link_graph, expression_path, has_literal_div_by_zero, literal, BinOp, Expr,
};
use mdbase::json::{drop_member, put_member, Json, JsonNumber, Member};
use mdbase::numbers::{compare_numbers, integral};
use mdbase::ordering::{compare_base_values, compare_values, HostedOrderDirection};
use mdbase::planner::{extract_formula_refs, EvaluationError, Formula, Formulas};
use mdbase::query::{collect_entries, group_candidates, page_bounds};
use mdbase::results::{built_in_summary, compute_summaries};
use mdbase::text::{
    decimal_text, eq_ignore_ascii_case, file_folder, file_name, parse_decimal, split_once,
    split_text, trim_text, Order,
};

fn convert(value: &serde_json::Value) -> Json {
    match value {
        serde_json::Value::Null => Json::Null,
        serde_json::Value::Bool(value) => Json::Bool(*value),
        serde_json::Value::Number(number) => {
            if let Some(value) = number.as_u64() {
                Json::Number(JsonNumber::Unsigned(value))
            } else if let Some(value) = number.as_i64() {
                Json::Number(JsonNumber::Negative(value))
            } else {
                Json::Number(JsonNumber::Decimal(number.to_string()))
            }
        }
        serde_json::Value::String(text) => Json::Text(text.clone()),
        serde_json::Value::Array(items) => Json::Array(items.iter().map(convert).collect()),
        serde_json::Value::Object(members) => Json::Object(
            members
                .iter()
                .map(|(key, value)| Member {
                    key: key.clone(),
                    value: convert(value),
                })
                .collect(),
        ),
    }
}

fn json(text: &str) -> Json {
    convert(&serde_json::from_str(text).unwrap())
}

fn items(text: &str) -> Vec<Json> {
    match json(text) {
        Json::Array(items) => items,
        _ => panic!("expected an array"),
    }
}

fn members(text: &str) -> Vec<Member> {
    match json(text) {
        Json::Object(members) => members,
        _ => panic!("expected an object"),
    }
}

fn ident(name: &str) -> Expr {
    Expr::Ident(name.to_string())
}

fn dot(object: Expr, name: &str) -> Expr {
    Expr::Dot(Box::new(object), name.to_string())
}

fn number(value: u64) -> Expr {
    Expr::Number(JsonNumber::Unsigned(value))
}

fn operation(left: Expr, operator: BinOp, right: Expr) -> Expr {
    Expr::BinOp(Box::new(left), operator, Box::new(right))
}

// Canonical text, digests, and dates

#[test]
fn canonical_text_sorts_keys_and_digests_are_known() {
    assert_eq!(
        canonical_text_or_empty(&json("{\"b\": 1, \"a\": [true, null, 1.50]}")),
        "{\"a\":[true,null,1.5],\"b\":1}"
    );
    assert_eq!(
        revision(b"abc"),
        "sha256:ba7816bf8f01cfea414140de5dae2223b00361a396177a9cb410ff61f20015ad"
    );
    assert_eq!(
        digest_json(&json("{}")).unwrap(),
        "sha256:44136fa355b3678a1146ad16f7e8649e94fb4fc21fe77e8310c060f61caaff8a"
    );
    assert_eq!(
        digest_json(&json("{\"a\": 1, \"b\": 2}")),
        digest_json(&json("{\"b\": 2, \"a\": 1}"))
    );
}

#[test]
fn times_are_written_in_utc() {
    assert_eq!(ns_to_iso(0), "1970-01-01T00:00:00Z");
    assert_eq!(ns_to_iso(1_000_000_000), "1970-01-01T00:00:01Z");
    assert_eq!(ns_to_iso(86_400_000_000_000), "1970-01-02T00:00:00Z");
    assert_eq!(mtime_iso(0), None);
    assert_eq!(
        mtime_iso(1_500_000_000),
        Some("1970-01-01T00:00:01Z".to_string())
    );
}

#[test]
fn texts_that_look_like_dates_or_numbers_are_ambiguous() {
    for value in [
        "2026-06-01",
        "2026-06-01T10:00:00",
        "2026-06-01T10:00:00Z",
        "42",
        "1.5",
        "inf",
    ] {
        assert!(ambiguous_canonical_string(value), "{value}");
    }
    for value in ["open", "", "2026-13-01", "42x"] {
        assert!(!ambiguous_canonical_string(value), "{value}");
    }
    assert!(is_iso_date_only("2026-06-01"));
    assert!(!is_iso_date_only("2026-6-1"));
    assert!(!is_iso_date_only("2026-02-30"));
}

// Text

#[test]
fn names_and_folders_are_those_of_paths() {
    let pieces = ["/", ".", "..", "a", "b.md", "./", "//"];
    let mut paths = vec![String::new()];
    let mut start = 0;
    for _ in 0..5 {
        let end = paths.len();
        for index in start..end {
            for piece in pieces {
                let path = format!("{}{piece}", paths[index]);
                paths.push(path);
            }
        }
        start = end;
    }
    for path in &paths {
        let known = std::path::Path::new(path);
        let name = known.file_name().and_then(|name| name.to_str()).unwrap_or("");
        let folder = known.parent().and_then(|folder| folder.to_str()).unwrap_or("");
        assert_eq!(file_name(path), name, "{path}");
        assert_eq!(file_folder(path), folder, "{path}");
    }
}

#[test]
fn text_helpers_follow_their_definitions() {
    assert_eq!(split_text("a,b,,c", ','), vec!["a", "b", "", "c"]);
    assert_eq!(
        split_once("a=b=c", '='),
        Some(("a".to_string(), "b=c".to_string()))
    );
    assert_eq!(file_name("a/b/c.md"), "c.md");
    assert_eq!(file_folder("a/b/c.md"), "a/b");
    for text in ["", " ", "a", " a b\t\n", "\u{3000}x\u{a0}", "\u{200b}y "] {
        assert_eq!(trim_text(text), text.trim());
    }
    assert_eq!(file_folder("c.md"), "");
    assert_eq!(file_folder("/x"), "/");
    assert_eq!(file_folder("a//x"), "a");
    assert_eq!(file_name("a/"), "a");
    assert_eq!(decimal_text(0), "0");
    assert_eq!(decimal_text(u64::MAX), "18446744073709551615");
    assert_eq!(parse_decimal("18446744073709551615"), Some(u64::MAX));
    assert_eq!(parse_decimal("18446744073709551616"), None);
    assert_eq!(parse_decimal("x"), None);
    assert!(eq_ignore_ascii_case("DeSC", "desc"));
    assert!(!eq_ignore_ascii_case("\u{c4}", "\u{e4}"));
}

// Numbers and order

fn decimal(text: &str) -> JsonNumber {
    JsonNumber::Decimal(text.to_string())
}

#[test]
fn numbers_are_ordered_by_value() {
    assert_eq!(
        compare_numbers(&JsonNumber::Unsigned(2), &decimal("1.5")),
        Order::Greater
    );
    assert_eq!(
        compare_numbers(&JsonNumber::Negative(-2), &JsonNumber::Unsigned(0)),
        Order::Less
    );
    assert_eq!(
        compare_numbers(&decimal("2.0"), &JsonNumber::Unsigned(2)),
        Order::Equal
    );
    assert_eq!(integral(&decimal("2.0")), Some(2));
    assert_eq!(integral(&decimal("2.5")), None);
}

#[test]
fn values_are_ordered_with_null_last() {
    assert_eq!(compare_values(&Json::Null, &Json::text("a")), Order::Greater);
    assert_eq!(compare_values(&Json::text("a"), &Json::text("b")), Order::Less);
    assert_eq!(
        compare_values(&Json::unsigned(10), &Json::unsigned(9)),
        Order::Greater
    );
    assert_eq!(
        compare_base_values(&Json::unsigned(1), &Json::unsigned(1)),
        Order::Equal
    );
}

// Expressions and formulas

#[test]
fn expressions_tell_what_they_use() {
    let backlinks = dot(ident("file"), "backlinks");
    assert!(expr_uses_link_graph(&backlinks));
    assert!(!expr_uses_link_graph(&dot(ident("record"), "backlinks")));
    assert!(expr_uses_link_graph(&Expr::Call(
        Box::new(dot(ident("x"), "asFile")),
        Vec::new()
    )));
    assert_eq!(
        expression_path(&dot(dot(ident("a"), "b"), "c")),
        Some("a.b.c".to_string())
    );
    assert_eq!(expression_path(&number(1)), None);
    assert_eq!(literal(&Expr::Bool(true)), Some(Json::Bool(true)));
    assert_eq!(literal(&ident("a")), None);
    assert!(has_literal_div_by_zero(&operation(
        number(1),
        BinOp::Div,
        number(0)
    )));
    assert!(!has_literal_div_by_zero(&operation(
        number(0),
        BinOp::Div,
        number(1)
    )));
}

fn formula(name: &str, expression: Expr) -> Formula {
    Formula {
        name: name.to_string(),
        parsed: Ok(expression),
        static_error: None,
    }
}

fn refers(name: &str) -> Expr {
    dot(ident("formula"), name)
}

fn formulas(list: Vec<Formula>) -> Formulas {
    let mut result = Formulas::new();
    for item in list {
        result.insert(item);
    }
    result
}

#[test]
fn formulas_are_evaluated_after_those_they_refer_to() {
    let ordered = formulas(vec![
        formula("a", operation(refers("b"), BinOp::Add, refers("c"))),
        formula("b", refers("c")),
        formula("c", number(1)),
    ]);
    assert!(ordered.validate_formulas().is_ok());
    assert_eq!(ordered.topological_sort_formulas(), vec!["c", "b", "a"]);
    assert_eq!(
        extract_formula_refs(&operation(refers("b"), BinOp::Add, refers("b"))),
        vec!["b"]
    );
}

#[test]
fn formulas_that_cannot_be_evaluated_are_refused() {
    let error = |list: Vec<Formula>| formulas(list).validate_formulas().unwrap_err();
    let itself = error(vec![formula("a", refers("a"))]);
    assert_eq!(itself.code, "circular_formula");
    assert_eq!(itself.message, "Formula 'a' references itself");
    let cycle = error(vec![formula("a", refers("b")), formula("b", refers("a"))]);
    assert_eq!(cycle.code, "circular_formula");
    assert_eq!(
        cycle.message,
        "Circular formula reference involving 'a'"
    );
    let broken = error(vec![Formula {
        name: "a".to_string(),
        parsed: Err("unexpected end".to_string()),
        static_error: None,
    }]);
    assert_eq!(broken.code, "invalid_formula");
    assert_eq!(broken.message, "Formula 'a': unexpected end");
    let zero = error(vec![formula(
        "a",
        operation(number(1), BinOp::Div, number(0)),
    )]);
    assert_eq!(zero.code, "formula_evaluation_error");
    let unknown = error(vec![Formula {
        name: "a".to_string(),
        parsed: Ok(number(1)),
        static_error: Some(EvaluationError {
            code: "unknown_function".to_string(),
            message: "no such function".to_string(),
        }),
    }]);
    assert_eq!(unknown.message, "Formula 'a': no such function");
}

// Filters

fn truth(source: &str, holds: bool) -> ExpressionTruth {
    ExpressionTruth {
        source: source.to_string(),
        holds,
    }
}

#[test]
fn filters_combine_their_expressions() {
    let truths = vec![truth("yes", true), truth("no", false)];
    let holds = |filter: &str| evaluate_where(&json(filter), &truths);
    assert!(holds("\"yes\""));
    assert!(!holds("\"no\""));
    assert!(!holds("\"unknown\""));
    assert!(holds("{\"and\": [\"yes\", {\"not\": \"no\"}]}"));
    assert!(!holds("{\"and\": [\"yes\", \"no\"]}"));
    assert!(holds("{\"and\": []}"));
    assert!(holds("{\"or\": [\"no\", \"yes\"]}"));
    assert!(!holds("{\"or\": []}"));
    assert!(!holds("{}"));
    assert!(!holds("null"));
}

fn parsed(source: &str, expression: Expr) -> FilterExpression {
    FilterExpression {
        source: source.to_string(),
        parsed: Ok(expression),
        static_error: None,
    }
}

#[test]
fn filters_are_checked_before_records_are_read() {
    let expressions = vec![
        parsed("a", ident("a")),
        parsed("links", dot(ident("file"), "backlinks")),
        FilterExpression {
            source: "b(".to_string(),
            parsed: Err("unexpected end".to_string()),
            static_error: None,
        },
        FilterExpression {
            source: "deep".to_string(),
            parsed: Err("expression_depth_exceeded: 65".to_string()),
            static_error: None,
        },
    ];
    assert!(validate_where_clause(&json("{\"and\": [\"a\", \"links\"]}"), &expressions).is_ok());
    let error = validate_where_clause(&json("{\"or\": [\"a\", \"b(\"]}"), &expressions)
        .unwrap_err();
    assert_eq!(error.code, "invalid_expression");
    let error = validate_where_clause(&json("{\"not\": \"deep\"}"), &expressions).unwrap_err();
    assert_eq!(error.code, "expression_depth_exceeded");
    assert!(where_clause_uses_link_graph(
        &json("{\"or\": [\"a\", \"links\"]}"),
        &expressions
    ));
    assert!(!where_clause_uses_link_graph(&json("\"a\""), &expressions));
}

// Sorting

fn types() -> Vec<TypeDefinition> {
    vec![TypeDefinition {
        name: "task".to_string(),
        fields: vec![FieldDef {
            name: "priority".to_string(),
            field_type: "enum".to_string(),
            values: Some(vec!["low".to_string(), "high".to_string()]),
            fields: None,
        }],
        has_match_expression: false,
        has_computed_fields: false,
        unique_fields: Vec::new(),
    }]
}

#[test]
fn entries_are_sorted_by_enumeration_rank_then_path() {
    let entries = items(
        "[{\"path\": \"b\", \"types\": [\"task\"], \"frontmatter\": {\"priority\": \"high\"}},
          {\"path\": \"a\", \"types\": [\"task\"], \"frontmatter\": {\"priority\": \"high\"}},
          {\"path\": \"c\", \"types\": [\"task\"], \"frontmatter\": {\"priority\": \"low\"}},
          {\"path\": \"d\", \"types\": [\"task\"], \"frontmatter\": {}}]",
    );
    let paths = |ascending: bool| {
        let terms = vec![SortTerm {
            field: "priority".to_string(),
            ascending,
        }];
        sort_entries(&entries, &terms, &types())
            .iter()
            .map(|entry| entry.get_str("path").unwrap().to_string())
            .collect::<Vec<String>>()
    };
    assert_eq!(paths(true), vec!["c", "a", "b", "d"]);
    assert_eq!(paths(false), vec!["d", "a", "b", "c"]);
    assert_eq!(
        get_enum_values_for_field("priority", &entries[0], &types()),
        Some(&vec!["low".to_string(), "high".to_string()])
    );
    let entry = json(
        "{\"formulas\": {\"x\": 1}, \"file\": {\"tags\": [1, 2], \"name\": \"abc\"}, \"frontmatter\": {\"y\": 2}}",
    );
    assert_eq!(get_sort_value(&entry, "formula.x"), Json::unsigned(1));
    assert_eq!(get_sort_value(&entry, "file.tags.length"), Json::unsigned(2));
    assert_eq!(get_sort_value(&entry, "file.name.length"), Json::unsigned(3));
    assert_eq!(get_sort_value(&entry, "file.name"), Json::text("abc"));
    assert_eq!(get_sort_value(&entry, "y"), Json::unsigned(2));
    assert_eq!(get_sort_value(&entry, "z"), Json::Null);
}

// Summaries

#[test]
fn built_in_summaries_have_exact_values() {
    let candidates = items(
        "[{\"frontmatter\": {\"n\": 1, \"d\": \"2026-01-02\", \"c\": true, \"t\": \"x\"}},
          {\"frontmatter\": {\"n\": 2.5, \"d\": \"2026-01-01\", \"c\": false, \"t\": \"x\"}},
          {\"frontmatter\": {\"n\": 4, \"c\": true, \"t\": \"\"}},
          {\"frontmatter\": {\"c\": null}}]",
    );
    let summary = |kind: &str, field: &str| built_in_summary(kind, &candidates, field);
    assert_eq!(summary("Average", "n"), json("2.5"));
    assert_eq!(summary("Sum", "n"), json("7.5"));
    assert_eq!(summary("Min", "n"), Json::unsigned(1));
    assert_eq!(summary("Max", "n"), Json::unsigned(4));
    assert_eq!(summary("Earliest", "d"), Json::text("2026-01-01"));
    assert_eq!(summary("Latest", "d"), Json::text("2026-01-02"));
    assert_eq!(summary("Checked", "c"), Json::unsigned(2));
    assert_eq!(summary("Unchecked", "c"), Json::unsigned(1));
    assert_eq!(summary("Unique", "t"), Json::unsigned(2));
    assert_eq!(summary("Average", "missing"), Json::Null);
    assert_eq!(summary("Sum", "missing"), Json::unsigned(0));
    assert_eq!(summary("unknown", "n"), Json::Null);
    let count = |kind: &str| summary(kind, "t").as_u64().unwrap();
    assert_eq!(count("Empty") + count("Filled"), 4);
    assert_eq!(
        compute_summaries(
            &candidates,
            &members("{\"n\": \"Max\", \"d\": \"mine\", \"c\": 5}"),
            &members("{\"mine\": \"values.length\"}"),
            &members("{\"d\": 9}"),
        ),
        json("{\"n\": 4, \"d\": 9}")
    );
}

#[test]
fn whole_sums_and_means_are_integers() {
    let candidates = items(
        "[{\"frontmatter\": {\"n\": 1}}, {\"frontmatter\": {\"n\": 2}}, {\"frontmatter\": {\"n\": 6}}]",
    );
    assert_eq!(
        built_in_summary("Sum", &candidates, "n"),
        Json::unsigned(9)
    );
    assert_eq!(
        built_in_summary("Average", &candidates, "n"),
        Json::unsigned(3)
    );
}

// Queries

fn collection() -> Collection {
    Collection {
        settings: Settings {
            extensions: vec!["md".to_string()],
            exclude: Vec::new(),
            include_subfolders: true,
            types_folder: "_types".to_string(),
            contracts_folder: "_contracts".to_string(),
            migrations_folder: "_types/_migrations".to_string(),
            explicit_type_keys: Vec::new(),
            write_defaults: false,
            default_validation: "warn".to_string(),
            default_strict: Json::Bool(false),
            timezone: None,
            id_field: "id".to_string(),
            id_field_explicit: false,
            write_nulls: "explicit".to_string(),
            write_empty_lists: true,
            rename_update_refs: true,
            cache_folder: ".mdbase".to_string(),
        },
        config_extensions: Vec::new(),
        types: types(),
        type_warnings: Vec::new(),
    }
}

fn file_record(path: &str, frontmatter: &str) -> FileRecord {
    FileRecord {
        rel_path: path.to_string(),
        raw_frontmatter: json(frontmatter),
        effective_frontmatter: json(frontmatter),
        body: format!("body of {path}"),
        type_names: vec!["task".to_string()],
        file_size: 7,
        file_mtime_iso: None,
        file_ctime_iso: None,
    }
}

fn evaluated(path: &str, frontmatter: &str, holds: bool) -> EvaluatedRecord {
    EvaluatedRecord {
        record: file_record(path, frontmatter),
        effective: json(frontmatter),
        formulas: vec![FormulaResult {
            name: "double".to_string(),
            outcome: Ok(Json::unsigned(4)),
        }],
        truths: vec![truth("open", holds)],
        body_tags: vec!["body".to_string(), "own".to_string()],
        body_links: Vec::new(),
        body_embeds: Vec::new(),
    }
}

fn records() -> Vec<EvaluatedRecord> {
    vec![
        evaluated(
            "tasks/b.md",
            "{\"status\": \"open\", \"n\": 2, \"tags\": [\"own\"]}",
            true,
        ),
        evaluated("tasks/a.md", "{\"status\": \"open\", \"n\": 1}", true),
        evaluated("tasks/c.md", "{\"status\": \"done\", \"n\": 3}", false),
        evaluated("other/d.md", "{\"status\": \"open\", \"n\": 4}", true),
        evaluated("tasksets/e.md", "{\"n\": 5}", true),
    ]
}

fn answer(query: &str, formulas: &Formulas, records: &Vec<EvaluatedRecord>) -> Json {
    collection().query(
        &json(query),
        &vec![parsed("open", ident("open"))],
        formulas,
        records,
        &Vec::new(),
    )
}

fn result_paths(answer: &Json) -> Vec<String> {
    match answer.get("results") {
        Some(Json::Array(items)) => items
            .iter()
            .map(|item| item.get_str("path").unwrap().to_string())
            .collect(),
        _ => panic!("expected results"),
    }
}

#[test]
fn queries_select_sort_and_page_records() {
    let none = Formulas::new();
    let found = answer(
        "{\"query\": {\"folder\": \"tasks/\", \"types\": [\"TASK\"], \"where\": \"open\"}}",
        &none,
        &records(),
    );
    assert_eq!(result_paths(&found), vec!["tasks/a.md", "tasks/b.md"]);
    assert_eq!(
        found.get("meta"),
        Some(&json("{\"total_count\": 2, \"has_more\": false}"))
    );
    let page = answer(
        "{\"order_by\": [{\"field\": \"n\", \"direction\": \"desc\"}], \"limit\": 2, \"offset\": 1}",
        &none,
        &records(),
    );
    assert_eq!(result_paths(&page), vec!["other/d.md", "tasks/c.md"]);
    assert_eq!(
        page.get("meta"),
        Some(&json("{\"total_count\": 5, \"has_more\": true}"))
    );
    assert_eq!(page_bounds(5, 1, Some(2)), (1, 3));
    assert_eq!(page_bounds(5, 9, Some(2)), (5, 5));
    assert_eq!(page_bounds(5, 1, None), (1, 5));
}

#[test]
fn pages_are_cut_from_the_whole_answer() {
    let none = Formulas::new();
    let order = "\"order_by\": [{\"field\": \"n\", \"direction\": \"desc\"}], \"property_summaries\": {\"n\": \"Sum\"}";
    let whole = answer(&format!("{{{order}}}"), &none, &records());
    let all = result_paths(&whole);
    assert_eq!(all.len(), 5);
    for offset in 0..7_usize {
        for limit in 0..7_usize {
            let page = answer(
                &format!("{{{order}, \"limit\": {limit}, \"offset\": {offset}}}"),
                &none,
                &records(),
            );
            let start = offset.min(5);
            let end = (start + limit).min(5);
            assert_eq!(result_paths(&page), all[start..end].to_vec());
            assert_eq!(
                page.get_nested("meta", "total_count"),
                Some(&Json::unsigned(5))
            );
            assert_eq!(
                page.get_nested("meta", "has_more"),
                Some(&Json::Bool(offset + limit < 5))
            );
            assert_eq!(page.get("summaries"), whole.get("summaries"));
        }
    }
}

#[test]
fn pages_agree_where_the_order_goes_in_a_circle() {
    let none = Formulas::new();
    let mixed = || {
        vec![
            evaluated("a.md", "{\"n\": 2}", true),
            evaluated("b.md", "{\"n\": \"x\"}", true),
            evaluated("c.md", "{\"n\": 1}", true),
            evaluated("d.md", "{}", true),
        ]
    };
    let order = "\"order_by\": [{\"field\": \"n\"}]";
    let all = result_paths(&answer(&format!("{{{order}}}"), &none, &mixed()));
    assert_eq!(all.len(), 4);
    for offset in 0..4_usize {
        let page = answer(
            &format!("{{{order}, \"limit\": 1, \"offset\": {offset}}}"),
            &none,
            &mixed(),
        );
        assert_eq!(result_paths(&page), all[offset..offset + 1].to_vec());
    }
}

#[test]
fn another_order_gives_the_same_results() {
    let none = Formulas::new();
    let plain = result_paths(&answer("{}", &none, &records()));
    for (field, direction) in [("n", "asc"), ("n", "desc"), ("status", "asc")] {
        let ordered = answer(
            &format!("{{\"order_by\": [{{\"field\": \"{field}\", \"direction\": \"{direction}\"}}]}}"),
            &none,
            &records(),
        );
        let mut paths = result_paths(&ordered);
        paths.sort();
        let mut expected = plain.clone();
        expected.sort();
        assert_eq!(paths, expected);
    }
}

#[test]
fn members_stay_in_key_order() {
    let mut members: Vec<Member> = Vec::new();
    for key in ["m", "a", "z", "m", "b"] {
        put_member(&mut members, key, Json::text(key));
    }
    let keys = |members: &Vec<Member>| {
        members
            .iter()
            .map(|member| member.key.clone())
            .collect::<Vec<String>>()
    };
    assert_eq!(keys(&members), ["a", "b", "m", "z"]);
    assert_eq!(keys(&drop_member(&members, "b")), ["a", "m", "z"]);
    assert_eq!(keys(&drop_member(&members, "x")), ["a", "b", "m", "z"]);
}

#[test]
fn entries_hold_formulas_tags_and_bodies() {
    let doubled = formulas(vec![
        formula("double", number(4)),
        formula("unevaluated", number(1)),
    ]);
    let found = answer(
        "{\"include_body\": true, \"folder\": \"tasks\", \"where\": \"open\", \"property_summaries\": {\"n\": \"Sum\"}}",
        &doubled,
        &records(),
    );
    let Some(Json::Array(results)) = found.get("results") else {
        panic!("expected results")
    };
    assert_eq!(
        results[1].get("formulas"),
        Some(&json("{\"double\": 4, \"unevaluated\": null}"))
    );
    assert_eq!(results[1].get_str("body"), Some("body of tasks/b.md"));
    assert_eq!(
        results[1].get("file"),
        Some(&json(
            "{\"name\": \"b.md\", \"folder\": \"tasks\", \"size\": 7, \"mtime\": \"\", \"tags\": [\"own\", \"body\"], \"links\": [], \"embeds\": []}"
        ))
    );
    assert_eq!(found.get("summaries"), Some(&json("{\"n\": 3}")));
}

#[test]
fn queries_answer_with_the_first_error() {
    let none = Formulas::new();
    let code = |answer: &Json| {
        answer
            .get_nested("error", "code")
            .unwrap()
            .as_str()
            .unwrap()
            .to_string()
    };
    let broken = collection().query(
        &json("{\"where\": \"b(\"}"),
        &vec![FilterExpression {
            source: "b(".to_string(),
            parsed: Err("unexpected end".to_string()),
            static_error: None,
        }],
        &formulas(vec![formula("a", refers("a"))]),
        &records(),
        &Vec::new(),
    );
    assert_eq!(code(&broken), "invalid_expression");
    let circular = answer(
        "{\"where\": \"open\"}",
        &formulas(vec![formula("a", refers("a"))]),
        &records(),
    );
    assert_eq!(code(&circular), "circular_formula");
    let mut failing = records();
    failing[0].formulas[0].outcome = Err(EvaluationError {
        code: "division_by_zero".to_string(),
        message: "cannot divide".to_string(),
    });
    let double = formulas(vec![formula("double", number(4))]);
    let fatal = answer("{}", &double, &failing);
    assert_eq!(
        fatal,
        json(
            "{\"error\": {\"code\": \"formula_evaluation_error\", \"message\": \"Formula 'double': cannot divide\"}}"
        )
    );
    failing[0].formulas[0].outcome = Err(EvaluationError {
        code: "type_error".to_string(),
        message: "null has no length".to_string(),
    });
    assert!(answer("{}", &double, &failing).get("error").is_none());
    assert_eq!(answer("{}", &none, &failing).get("error"), None);
    assert_eq!(
        collect_entries(&failing, &None, &Vec::new(), None, &Vec::new(), false)
            .unwrap()
            .len(),
        5
    );
}

#[test]
fn groups_come_in_key_order_with_null_last() {
    let none = Formulas::new();
    let keys = |query: &str| {
        let found = answer(query, &none, &records());
        let Some(Json::Array(groups)) = found.get("groups") else {
            panic!("expected groups")
        };
        groups
            .iter()
            .map(|group| group.get("key").unwrap().copy())
            .collect::<Vec<Json>>()
    };
    assert_eq!(
        keys("{\"groupBy\": {\"property\": \"status\"}}"),
        vec![Json::text("done"), Json::text("open"), Json::Null]
    );
    assert_eq!(
        keys("{\"group_by\": {\"property\": \"status\", \"direction\": \"desc\"}}"),
        vec![Json::Null, Json::text("open"), Json::text("done")]
    );
    let entries = items(
        "[{\"frontmatter\": {\"k\": 1}}, {\"frontmatter\": {\"k\": \"1\"}}, {\"frontmatter\": {\"k\": 1}}]",
    );
    let groups = group_candidates(&entries, "k", false);
    assert_eq!(groups.len(), 2);
    assert_eq!(groups[0].entries.len() + groups[1].entries.len(), 3);
}

// The cache

#[test]
fn metadata_pages_are_planned_as_statements() {
    let plan = plan_metadata_page(
        &vec!["Task".to_string()],
        &vec![SortTerm {
            field: "file.path".to_string(),
            ascending: false,
        }],
        3,
        None,
    )
    .unwrap();
    assert_eq!(plan.types, vec!["task"]);
    assert_eq!(plan.offset, 3);
    assert_eq!(plan.limit, -1);
    assert!(plan.page_statement.contains("ORDER BY"));
    assert!(plan_metadata_page(
        &Vec::new(),
        &vec![SortTerm {
            field: "record.status".to_string(),
            ascending: true,
        }],
        0,
        Some(1)
    )
    .is_none());
}

fn row(failure: Option<&str>) -> CacheRow {
    CacheRow {
        path: "a.md".to_string(),
        body: "Body".to_string(),
        size: 4,
        mtime_ns: 1_000_000_000,
        ctime_ns: None,
        source_revision: "sha256:x".to_string(),
        failure_reason: failure.map(|reason| reason.to_string()),
    }
}

fn stub() -> InvalidRecordStub {
    InvalidRecordStub {
        rel_path: "b.md".to_string(),
        type_names: vec!["task".to_string()],
        file_size: 1,
        file_mtime_iso: None,
        file_ctime_iso: None,
        source_revision: "sha256:y".to_string(),
        reason: "invalid_yaml".to_string(),
    }
}

#[test]
fn cached_rows_become_records_or_stubs() {
    let derived = vec!["derived".to_string()];
    let valid = cached_record(row(None), Vec::new(), json("{\"a\": 1}"), None, &derived);
    assert_eq!(valid.path(), "a.md");
    assert_eq!(valid.types(), &derived);
    let LocalRecord::Parsed(record) = valid else {
        panic!("expected a record")
    };
    assert_eq!(record.effective_frontmatter, json("{\"a\": 1}"));
    assert_eq!(
        record.file_mtime_iso.as_deref(),
        Some("1970-01-01T00:00:01Z")
    );
    let invalid = cached_record(
        row(Some("invalid_yaml")),
        vec!["task".to_string()],
        json("{}"),
        None,
        &derived,
    );
    assert!(matches!(invalid, LocalRecord::Invalid(ref stub) if stub.reason == "invalid_yaml"));
    let (parsed, stubs) = partition_records(vec![
        invalid,
        LocalRecord::Parsed(record),
        LocalRecord::Invalid(stub()),
    ]);
    assert_eq!(parsed.len(), 1);
    assert_eq!(stubs.len(), 2);
    assert_eq!(stubs[1].rel_path, "b.md");
}

#[test]
fn cached_rows_are_read_from_their_texts() {
    let derived = vec!["derived".to_string()];
    let read = |text: &str, effective: Option<&str>| {
        cached_row(row(None), text, effective, Vec::new(), &derived)
    };
    let Some(LocalRecord::Parsed(record)) = read("{\"a\": 1}", Some("{\"a\": 1, \"b\": 2}")) else {
        panic!("expected a record")
    };
    assert_eq!(record.raw_frontmatter, json("{\"a\": 1}"));
    assert_eq!(record.effective_frontmatter, json("{\"a\": 1, \"b\": 2}"));
    let Some(LocalRecord::Parsed(record)) = read("{\"a\": 1}", None) else {
        panic!("expected a record")
    };
    assert_eq!(record.effective_frontmatter, json("{\"a\": 1}"));
    assert!(read("{\"a\":", None).is_none());
    assert!(read("{}", Some("nonsense")).is_none());
    let stub = cached_row(
        row(Some("invalid_yaml")),
        "{\"a\":",
        None,
        vec!["task".to_string()],
        &derived,
    );
    assert!(matches!(stub, Some(LocalRecord::Invalid(_))));

    assert_eq!(
        row_frontmatter(&row(None), "{\"a\": 1.5}"),
        Some(json("{\"a\": 1.5}"))
    );
    assert_eq!(row_frontmatter(&row(None), "{"), None);
    assert_eq!(row_frontmatter(&row(Some("invalid_yaml")), "{}"), None);
}

#[test]
fn link_graphs_come_from_the_cache_or_the_records() {
    assert_eq!(graph_source(false, true, false), GraphSource::Nowhere);
    assert_eq!(graph_source(true, true, false), GraphSource::Cache);
    assert_eq!(graph_source(true, true, true), GraphSource::Records);
    assert_eq!(graph_source(true, false, false), GraphSource::Records);
    assert_eq!(after_graph_read(true), GraphSource::Cache);
    assert_eq!(after_graph_read(false), GraphSource::Records);
    let records = vec![file_record("a.md", "{\"x\": 1}")];
    assert!(linked_files(false, &records).is_none());
    let files = linked_files(true, &records).unwrap();
    assert_eq!(files.len(), 1);
    assert_eq!(files[0].path, "a.md");
}

#[test]
fn a_cache_that_fails_falls_back_to_the_files() {
    assert!(matches!(
        after_opening(CacheOpening::Opened, true),
        LoadStep::Refresh
    ));
    assert!(matches!(
        after_opening(CacheOpening::Opened, false),
        LoadStep::ReadCache
    ));
    assert!(matches!(
        after_opening(CacheOpening::Missing, true),
        LoadStep::ReadDisk { fallback: false }
    ));
    assert!(matches!(
        after_opening(
            CacheOpening::Failed(CacheFailure::Other("locked".to_string())),
            false
        ),
        LoadStep::Fail(CacheSnapshotFailure::Cache(message)) if message == "locked"
    ));
    assert!(matches!(
        after_refresh(true, Ok(())),
        LoadStep::Fail(CacheSnapshotFailure::Cancelled)
    ));
    assert!(matches!(after_refresh(false, Ok(())), LoadStep::ReadCache));
    assert!(matches!(
        after_cache_read_failed(CacheFailure::Other("broken".to_string()), true),
        LoadStep::ReadDisk { fallback: true }
    ));
}

// Executions

fn compiled(by_page: bool) -> CompiledQuery {
    CompiledQuery {
        needs: QueryNeeds {
            supports_metadata_page: by_page,
            include_body: false,
            link_graph: false,
            file_body_metadata: false,
        },
        types: vec!["task".to_string()],
        terms: vec![OrderTerm {
            field: "file.path".to_string(),
            direction: HostedOrderDirection::Descending,
        }],
        offset: 0,
        limit: Some(1),
        context: None,
    }
}

fn loaded(path: &str) -> LoadedRecord {
    LoadedRecord {
        record: LocalRecord::Parsed(file_record(path, "{}")),
        page: PageRecord::Parsed {
            serialized: Json::text(path),
            diagnostics: Vec::new(),
        },
    }
}

fn candidate(path: &str, filter: bool) -> EvaluatedCandidate {
    EvaluatedCandidate {
        path: path.to_string(),
        types: vec!["task".to_string()],
        match_diagnostics: Vec::new(),
        projections: Vec::new(),
        filter: Some(Ok(Json::Bool(filter))),
        selections: Vec::new(),
        sort_values: vec![Json::text(path)],
        serialized: Json::text(path),
    }
}

fn stages(by_page: bool) -> ExecutionStages {
    ExecutionStages {
        compiled: Ok(compiled(by_page)),
        timezone_fault: None,
        clock_fault: None,
        capture_fault: None,
        page: None,
        loaded: Ok(vec![loaded("a.md"), loaded("b.md")]),
        load: Some(load_performance(2)),
        context_record_loads: 1,
        context_fault: None,
        candidates: vec![
            candidate("a.md", true),
            candidate("b.md", false),
            candidate("c.md", true),
        ],
        groups: None,
        group_diagnostics: Vec::new(),
    }
}

fn no_time() -> QueryPerformance {
    QueryPerformance {
        total_us: 1,
        schema_us: 0,
        preflight_us: 0,
        clock_us: 0,
        load_us: 0,
        cache_open_us: 0,
        cache_refresh_us: 0,
        records_load_us: 0,
        all_files_us: 0,
        link_graph_us: 0,
        context_us: 0,
        evaluate_us: 0,
        sort_us: 0,
        groups_us: 0,
        serialize_us: 0,
        records_loaded: 0,
        record_source_loads: 0,
        context_record_loads: 1,
        total_source_loads: 0,
        candidates: 0,
        results: 0,
        cache_used: false,
        cache_fallback: false,
        link_graph_built: false,
    }
}


fn load_performance(file_records: usize) -> LoadQueryPerf {
    LoadQueryPerf {
        try_open_cache_us: 1,
        refresh_cache_us: 2,
        load_records_us: 3,
        build_all_files_us: 4,
        build_backlinks_us: 5,
        file_records,
        cache_used: true,
        cache_fallback: false,
        built_link_graph: false,
    }
}

fn execute(stages: ExecutionStages) -> Result<QueryExecution, Vec<Diagnostic>> {
    execute_model(stages, &types(), no_time()).0
}

#[test]
fn executions_count_what_they_loaded_and_gave() {
    let (result, counted) = execute_model(stages(false), &types(), no_time());
    assert_eq!(result.unwrap().records.len(), 1);
    assert_eq!(counted.results, 1);
    assert_eq!(counted.candidates, 2);
    assert_eq!(counted.record_source_loads, 1);
    assert_eq!(counted.context_record_loads, 1);
    assert_eq!(counted.total_source_loads, 2);
    assert_eq!(counted.records_loaded, 2);
    assert!(counted.cache_used);

    let mut from_database = stages(true);
    from_database.page = Some(LoadedPage {
        records: Vec::new(),
        total: 7,
        performance: load_performance(0),
    });
    let (result, counted) = execute_model(from_database, &types(), no_time());
    assert_eq!(result.unwrap().total_count, 7);
    assert_eq!((counted.results, counted.candidates), (0, 7));
    assert_eq!(counted.record_source_loads, 1);

    let mut refused = stages(false);
    refused.compiled = Err(vec![Diagnostic::error("invalid_query", "broken", None)]);
    let (result, counted) = execute_model(refused, &types(), no_time());
    assert!(result.is_err());
    assert_eq!(counted.record_source_loads, 0);
}

#[test]
fn executions_page_records_or_evaluate_them() {
    let page = execute(stages(true)).unwrap();
    assert_eq!(page.records, vec![Json::text("b.md")]);
    assert_eq!(page.total_count, 2);
    assert!(page.has_more);

    let evaluated = execute(stages(false)).unwrap();
    assert_eq!(evaluated.records, vec![Json::text("c.md")]);
    assert_eq!(evaluated.total_count, 2);
    assert!(evaluated.has_more);

    let mut from_database = stages(true);
    from_database.page = Some(LoadedPage {
        records: vec![PageRecord::Invalid {
            stub: stub(),
            diagnostic: Diagnostic::error("invalid_yaml", "broken", Some("b.md".to_string())),
        }],
        total: 1,
        performance: load_performance(1),
    });
    let page = execute(from_database).unwrap();
    assert_eq!(page.records, vec![serialize_invalid_stub(&stub())]);
    assert_eq!(page.diagnostics[0].code, "invalid_yaml");
    assert!(!page.has_more);
}

#[test]
fn executions_end_at_the_first_failure() {
    let fault = |code: &str| {
        Some(StageFault {
            code: code.to_string(),
            message: "stopped".to_string(),
        })
    };
    let code = |stages: ExecutionStages| {
        execute(stages).unwrap_err()[0]
            .code
            .clone()
    };
    let mut refused = stages(false);
    refused.compiled = Err(vec![Diagnostic::error("invalid_query", "broken", None)]);
    assert_eq!(code(refused), "invalid_query");
    let mut zoned = stages(false);
    zoned.timezone_fault = Some("unknown zone".to_string());
    assert_eq!(code(zoned), "invalid_timezone");
    let mut clocked = stages(false);
    clocked.clock_fault = fault("operation_clock_failed");
    assert_eq!(code(clocked), "operation_clock_failed");
    let mut captured = stages(true);
    captured.capture_fault = fault("capture_limit_exceeded");
    assert_eq!(code(captured), "capture_limit_exceeded");
    let mut unread = stages(false);
    unread.loaded = Err(SnapshotFailure {
        message: "denied".to_string(),
        path: None,
    });
    assert_eq!(code(unread), "collection_snapshot_failed");
    let mut contextless = stages(false);
    contextless.context_fault = Some(Diagnostic::error("context_not_found", "gone", None));
    assert_eq!(code(contextless), "context_not_found");
}

#[test]
fn loading_is_planned_by_need() {
    let needs = QueryNeeds {
        supports_metadata_page: true,
        include_body: false,
        link_graph: false,
        file_body_metadata: true,
    };
    let plan = plan_query_load(needs, &types());
    assert!(plan.metadata_page);
    assert!(plan.bodies);
    let mut matched = types();
    matched[0].has_match_expression = true;
    assert!(has_diagnostic_matchers(&matched));
    assert!(!plan_query_load(needs, &matched).metadata_page);
    assert_eq!(micros(u128::MAX), u64::MAX);
    assert_eq!(micros(5), 5);
    let record = LocalRecord::Parsed(file_record("a/b.md", "{}"));
    assert_eq!(
        record_metadata_value(&record, "file.folder"),
        Json::text("a")
    );
    assert_eq!(
        record_metadata_value(&record, "file.size"),
        Json::unsigned(7)
    );
    assert_eq!(record_metadata_value(&record, "file.mtime"), Json::Null);
}

#[test]
fn loading_is_measured() {
    let mut performance = no_time();
    apply_load_performance(
        &mut performance,
        &LoadQueryPerf {
            try_open_cache_us: 2,
            refresh_cache_us: 3,
            load_records_us: 4,
            build_all_files_us: 5,
            build_backlinks_us: 6,
            file_records: 7,
            cache_used: true,
            cache_fallback: false,
            built_link_graph: true,
        },
    );
    assert_eq!(performance.records_loaded, 7);
    assert_eq!(performance.record_source_loads, 1);
    assert_eq!(performance.total_source_loads, 2);
    assert_eq!(performance.total_us, 1);
    assert!(performance.cache_used);
}
