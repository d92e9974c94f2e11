use linguagraph::cypher::CypherQuery;
use linguagraph::db::{Column, DbValue, QueryResult, Row};
use linguagraph::dsl::{Action, DslQuery, Filter, NodePattern};
use linguagraph::e2e::case::{
    case_step, AnswerReply, Answered, CaseReplies, CaseStep, CompileReply, JudgeReply, ParseReply,
    ParsedQuery, RunReply,
};
use linguagraph::e2e::extract::{extract_decided, extract_json_object, first_object};
use linguagraph::e2e::mask::{
    is_masked_embedding_name, literal_to_json, mask_cypher_params, result_rows_json,
};
use linguagraph::e2e::prompts::{
    force_prefix, force_traversal_prefix, judge_request, judge_verdict, repair_step,
    synthesis_request, traversal_summary, Attempt, RepairStep,
};
use linguagraph::e2e::rows::{
    compare_number, json_values_equal, numeric_cells, validate_answer_contains,
    validate_expected_rows, validate_result, NumberReading, Readings,
};
use linguagraph::e2e::suite::{
    cleanup_goes_on, cleanup_query, effective_settings, index_plan, sanitize_ident,
    select_questions, suite_prefix, suite_report, unique_prefix, SuitePaths,
};
use linguagraph::e2e::types::{
    CellExpectation, DslValidationSpec, E2eRunOptions, ExpectedRow, IndexSpec, JudgeReport,
    JudgeSpec, MatchMode, NumericExpectation, NumericOp, QuestionCase, RowCountSpec,
    SuiteSettings, TraversalQuery, ValidationSpec,
};
use linguagraph::e2e::validate::{field_matches, validate_dsl};
use linguagraph::graph::builder::GraphBuilder;
use linguagraph::graph::schema::EntityGraph;
use linguagraph::json::{Float, Json, JsonNumber};
use linguagraph::literal::Literal;
use linguagraph::strmap::StrMap;

fn float(value: f64) -> Float {
    Float {
        bits: value.to_bits(),
        text: serde_json::to_string(&value).unwrap(),
        debug: format!("{value:?}"),
        truncated: value as i64,
        integral: value.fract() == 0.0,
    }
}

fn text(s: &str) -> Json {
    Json::Str(s.to_string())
}

fn number(i: i64) -> Json {
    Json::Number(JsonNumber::Int(i))
}

fn decimal(value: f64) -> Json {
    Json::Number(JsonNumber::Float(float(value)))
}

fn map<T: vstd::view::DeepView>(entries: Vec<(&str, T)>) -> StrMap<T> {
    let mut out = StrMap::new();
    for (key, value) in entries {
        out.insert(key.to_string(), value);
    }
    out
}

fn strings(items: &[&str]) -> Vec<String> {
    items.iter().map(|s| s.to_string()).collect()
}

fn query() -> DslQuery {
    DslQuery {
        action: Action::Find,
        start: NodePattern {
            label: "Account".to_string(),
            alias: "a".to_string(),
        },
        traversals: Vec::new(),
        filters: vec![Filter {
            field: "a.region".to_string(),
            op: "in".to_string(),
            value: Json::Array(vec![text("CIS"), text("EMEA")]),
            field_type: None,
            cardinality: None,
        }],
        return_: Vec::new(),
        group_by: Vec::new(),
        sort: Vec::new(),
        limit: None,
        distinct: false,
        prefix_label: None,
        prefix_index: None,
    }
}

fn row(entries: Vec<(&str, DbValue)>) -> Row {
    Row {
        fields: map(entries),
    }
}

fn word(s: &str) -> DbValue {
    DbValue::String(s.to_string())
}

fn result(rows: Vec<Row>) -> QueryResult {
    QueryResult {
        columns: Vec::new(),
        rows,
    }
}

fn no_readings() -> Readings {
    Readings {
        near: Vec::new(),
        numbers: Vec::new(),
    }
}

fn options() -> E2eRunOptions {
    E2eRunOptions {
        config_path: "config.yaml".to_string(),
        suite_path: "suite.json".to_string(),
        graph_path: None,
        ontology_path: None,
        questions_path: None,
        case_id: None,
        report_path: None,
        prefix: None,
        cleanup_after: None,
        keep_data: false,
        include_embeddings_in_report: None,
        llm_base_url: None,
        llm_model: None,
    }
}

fn question(id: &str) -> QuestionCase {
    QuestionCase {
        id: id.to_string(),
        question: "Who?".to_string(),
        dsl: None,
        traversal: None,
        validation: ValidationSpec::default(),
    }
}

#[test]
fn validate_dsl_checks_structure_without_alias_exactness() {
    let spec = DslValidationSpec {
        start_label: Some("account".to_string()),
        required_filter_fields: strings(&["region"]),
        required_filter_ops: strings(&["in"]),
        ..Default::default()
    };
    assert!(validate_dsl(&Some(spec), &query()).is_empty());
}

#[test]
fn validate_dsl_lists_what_is_wrong_in_order() {
    let spec = DslValidationSpec {
        start_label: Some("Person".to_string()),
        required_filter_fields: strings(&["name"]),
        forbidden_filter_ops: strings(&["in"]),
        required_return_fields: strings(&["name"]),
        required_traversal_labels: strings(&["OWNS"]),
        min_returns: Some(1),
        ..Default::default()
    };
    assert_eq!(
        validate_dsl(&Some(spec), &query()),
        strings(&[
            "dsl start label mismatch: expected `Person`, got `Account`",
            "dsl return count below minimum: expected at least 1, got 0",
            "dsl missing filter field matching `name`",
            "dsl contains forbidden filter op `in`",
            "dsl missing return item matching `name`",
            "dsl missing traversal edge or target matching `OWNS`",
        ])
    );
    assert!(validate_dsl(&None, &query()).is_empty());
    assert!(field_matches("a.region", "REGION"));
    assert!(!field_matches("a.region", "a"));
}

#[test]
fn validate_expected_rows_matches_subset_rows() {
    let found = result(vec![
        row(vec![
            ("name", word("Eastline Logistics")),
            ("region", word("EMEA")),
        ]),
        row(vec![
            ("name", word("Northwind Kazakhstan")),
            ("region", word("CIS")),
        ]),
    ]);
    let expected = vec![ExpectedRow {
        fields: map(vec![("name", text("Eastline Logistics"))]),
    }];
    assert!(validate_expected_rows(&Vec::new(), &expected, &found).is_empty());
}

#[test]
fn each_row_answers_one_expectation() {
    let found = result(vec![row(vec![("name", word("Ada"))])]);
    let ada = || ExpectedRow {
        fields: map(vec![("name", text("Ada"))]),
    };
    assert_eq!(
        validate_expected_rows(&Vec::new(), &vec![ada(), ada()], &found),
        strings(&["no row matched expected subset: {\"name\":\"Ada\"}"])
    );
}

#[test]
fn numbers_that_read_alike_are_equal() {
    let one = || JsonNumber::Int(1);
    let whole = || JsonNumber::Float(float(1.0));
    let near = vec![(one(), whole())];
    assert!(json_values_equal(
        &near,
        &Json::Number(one()),
        &Json::Number(whole())
    ));
    assert!(!json_values_equal(
        &Vec::new(),
        &Json::Number(one()),
        &Json::Number(whole())
    ));
    assert!(json_values_equal(&Vec::new(), &text("a"), &text("a")));
}

#[test]
fn validate_result_reports_each_failed_expectation() {
    let found = QueryResult {
        columns: vec![Column::new("name")],
        rows: vec![row(vec![("name", word("Ada")), ("age", DbValue::Int(36))])],
    };
    let spec = ValidationSpec {
        row_count: Some(RowCountSpec {
            exact: Some(2),
            min: None,
            max: Some(0),
        }),
        columns: strings(&["name", "role"]),
        contains: vec![CellExpectation {
            column: "name".to_string(),
            value: text("Ad"),
            mode: MatchMode::Exact,
        }],
        not_contains: vec![CellExpectation {
            column: "*".to_string(),
            value: text("ad"),
            mode: MatchMode::Contains,
        }],
        numbers: vec![NumericExpectation {
            column: "age".to_string(),
            op: NumericOp::Gt,
            value: 40f64.to_bits(),
            shown: "40".to_string(),
        }],
        ..Default::default()
    };
    let readings = Readings {
        near: Vec::new(),
        numbers: vec![vec![NumberReading {
            bits: 36f64.to_bits(),
            near: false,
            apart: true,
        }]],
    };
    assert_eq!(
        validate_result(&spec, &found, &readings, None),
        strings(&[
            "row_count exact mismatch: expected 2, got 1",
            "row_count max mismatch: expected at most 0, got 1",
            "missing expected column `role`",
            "no row contains expected value in `name`: \"Ad\"",
            "unexpected value found in `*`: \"ad\"",
            "no numeric value in `age` satisfies Gt 40",
        ])
    );
    assert_eq!(numeric_cells(&found, "*").len(), 2);
    assert!(validate_result(&ValidationSpec::default(), &found, &no_readings(), None).is_empty());
}

#[test]
fn numbers_are_compared_by_value() {
    let reading = NumberReading {
        bits: (-1f64).to_bits(),
        near: false,
        apart: true,
    };
    assert!(compare_number(reading, NumericOp::Lt, 0f64.to_bits()));
    assert!(!compare_number(reading, NumericOp::Gte, 0f64.to_bits()));
    assert!(compare_number(reading, NumericOp::Neq, 0f64.to_bits()));
    assert!(!compare_number(reading, NumericOp::Eq, 0f64.to_bits()));
    assert!(compare_number(reading, NumericOp::Lte, (-1f64).to_bits()));
}

#[test]
fn answers_are_searched_without_case() {
    assert_eq!(
        validate_answer_contains(&strings(&["ADA", "Grace"]), "It was Ada."),
        strings(&["answer does not contain `Grace`"])
    );
}

#[test]
fn mask_cypher_params_hides_embedding_vector() {
    let params = map(vec![
        (
            "embedding",
            Literal::List(vec![Literal::Float(float(1.0)), Literal::Float(float(2.0))]),
        ),
        ("limit", Literal::Int(10)),
    ]);
    let masked = mask_cypher_params(&params, false);
    assert_eq!(
        masked.get("embedding"),
        Some(&text("<masked embedding len=2>"))
    );
    assert_eq!(masked.get("limit"), Some(&number(10)));
}

#[test]
fn mask_cypher_params_hides_positional_embedding_vectors() {
    let params = map(vec![
        (
            "p2",
            Literal::List((0..32).map(|i| Literal::Float(float(i as f64))).collect()),
        ),
        (
            "ids",
            Literal::List(vec![
                Literal::String("a".to_string()),
                Literal::String("b".to_string()),
            ]),
        ),
    ]);
    let masked = mask_cypher_params(&params, false);
    assert_eq!(masked.get("p2"), Some(&text("<masked embedding len=32>")));
    assert_eq!(
        masked.get("ids"),
        Some(&Json::Array(vec![text("a"), text("b")]))
    );
}

#[test]
fn result_rows_json_masks_nested_embedding_vectors_by_default() {
    let vector = || Json::Array(vec![decimal(1.0), decimal(2.0), decimal(3.0)]);
    let entity = Json::Object(map(vec![
        ("name", text("Acme")),
        ("embedding", vector()),
        (
            "payload",
            Json::Object(map(vec![(
                "vec",
                Json::Array(vec![decimal(1.0), decimal(2.0)]),
            )])),
        ),
    ]));
    let found = result(vec![row(vec![(
        "entities",
        DbValue::Json(Json::Array(vec![entity])),
    )])]);

    let first = |rows: &Vec<StrMap<Json>>, name: &str| -> Json {
        let Some(Json::Array(items)) = rows[0].get("entities") else {
            panic!("entities is an array");
        };
        let Json::Object(fields) = &items[0] else {
            panic!("an entity is an object");
        };
        linguagraph::json::copy_json(fields.get(name).unwrap())
    };

    let rows = result_rows_json(&found, false);
    assert_eq!(first(&rows, "embedding"), text("<masked embedding len=3>"));
    assert_eq!(
        first(&rows, "payload"),
        Json::Object(map(vec![("vec", text("<masked embedding len=2>"))]))
    );
    let full = result_rows_json(&found, true);
    assert_eq!(first(&full, "embedding"), vector());
}

#[test]
fn embedding_names_are_known_by_their_words() {
    assert!(is_masked_embedding_name("embedding"));
    assert!(is_masked_embedding_name("Embedding"));
    assert!(is_masked_embedding_name("vec"));
    assert!(!is_masked_embedding_name("name"));
    assert_eq!(literal_to_json(&Literal::Bool(true)), Json::Bool(true));
    assert_eq!(literal_to_json(&Literal::Null), Json::Null);
}

#[test]
fn objects_are_cut_out_of_replies() {
    assert_eq!(
        first_object("say {\"a\": \"}\", \"b\": {}} now"),
        Some("{\"a\": \"}\", \"b\": {}}".to_string())
    );
    assert_eq!(first_object("no braces"), None);
    assert_eq!(
        extract_json_object("```json\n{\"a\": 1}\n```"),
        Ok("{\"a\": 1}".to_string())
    );
    assert_eq!(
        extract_json_object("nothing"),
        Err("LLM output did not contain a JSON object".to_string())
    );
    assert_eq!(
        extract_json_object("see {a}"),
        Err("invalid extracted JSON: {a}".to_string())
    );
    assert_eq!(extract_json_object(" {} "), Ok("{}".to_string()));
    assert_eq!(
        extract_decided("x {y}", false, true),
        Ok("{y}".to_string())
    );
}

#[test]
fn prompts_hold_the_question_and_the_rows() {
    let rows = vec![map(vec![("name", text("Ada"))])];
    let request = synthesis_request("Who?", "finds people", &rows);
    assert_eq!(
        linguagraph::json::render_json(&request.user),
        "{\"query_summary\":\"finds people\",\"question\":\"Who?\",\"rows\":[{\"name\":\"Ada\"}]}"
    );
    let spec = JudgeSpec {
        expected: "Ada".to_string(),
        require_pass: true,
    };
    let judged = judge_request("Who?", Some("Ada"), &rows, &spec);
    assert_eq!(
        linguagraph::json::render_json(&judged.user),
        "{\"answer\":\"Ada\",\"expected\":\"Ada\",\"question\":\"Who?\",\"rows\":[{\"name\":\"Ada\"}]}"
    );
}

#[test]
fn verdicts_are_read_with_defaults() {
    let value = Json::Object(map(vec![
        ("passed", Json::Bool(true)),
        ("reason", text("fine")),
    ]));
    assert_eq!(
        judge_verdict(&value),
        JudgeReport {
            passed: true,
            reason: "fine".to_string()
        }
    );
    assert!(!judge_verdict(&Json::Null).passed);
}

#[test]
fn traversals_are_summed_up_and_scoped() {
    let mut t = TraversalQuery {
        goal: "roles".to_string(),
        entities: strings(&["Ada", "Grace"]),
        limit: Some(3),
        prefix_label: None,
        prefix_index: None,
    };
    assert_eq!(
        traversal_summary(&t),
        "Retrieving text chunks for goal: roles; entities: Ada, Grace; limit: Some(3)."
    );
    force_traversal_prefix(&mut t, "E2E_x");
    assert_eq!(t.prefix_label, Some("E2E_x".to_string()));
    assert_eq!(t.prefix_index, Some("E2E_x".to_string()));
    let mut q = query();
    force_prefix(&mut q, "E2E_x");
    assert_eq!(q.prefix_label, Some("E2E_x".to_string()));
    assert_eq!(q.prefix_index, Some("E2E_x".to_string()));
}

#[test]
fn repairs_stop_at_their_bound() {
    let attempts = vec![Attempt {
        output: "{}".to_string(),
        error: "no start".to_string(),
    }];
    assert_eq!(
        repair_step("Who?", 1, &Vec::new()),
        RepairStep::Ask(
            "Question:\nWho?\n\nReturn only one JSON DSL object. Do not wrap it in Markdown."
                .to_string()
        )
    );
    assert_eq!(
        repair_step("Who?", 1, &attempts),
        RepairStep::Ask(
            "Repair the JSON DSL for this question.\n\nQuestion:\nWho?\n\nPrevious output:\n{}\n\nValidation error:\nno start\n\nReturn only the corrected JSON object."
                .to_string()
        )
    );
    assert_eq!(
        repair_step("Who?", 0, &attempts),
        RepairStep::Fail(
            "could not produce valid DSL: no start; last output: {}".to_string()
        )
    );
}

#[test]
fn a_written_query_is_parsed_compiled_run_and_reported() {
    let mut case = question("q1");
    case.dsl = Some(Json::Object(StrMap::new()));
    let settings = SuiteSettings {
        answer_with_llm: false,
        judge_with_llm: false,
        ..Default::default()
    };
    let mut replies = CaseReplies::default();
    assert!(matches!(
        case_step(&case, &settings, "E2E_x", &replies),
        CaseStep::ParseDsl(_)
    ));
    replies.parsed = ParseReply::Done(ParsedQuery {
        query: query(),
        json: Some(Json::Null),
        summary: String::new(),
    });
    assert!(matches!(
        case_step(&case, &settings, "E2E_x", &replies),
        CaseStep::Compile(_)
    ));
    replies.compiled = CompileReply::Done(CypherQuery {
        text: "RETURN 1".to_string(),
        params: StrMap::new(),
    });
    let CaseStep::RunDsl(sent) = case_step(&case, &settings, "E2E_x", &replies) else {
        panic!("the query is run");
    };
    assert_eq!(sent.prefix_label, Some("E2E_x".to_string()));
    replies.run = RunReply::Done(Answered {
        result: result(vec![row(vec![("name", word("Ada"))])]),
        readings: no_readings(),
    });
    let CaseStep::Report(report) = case_step(&case, &settings, "E2E_x", &replies) else {
        panic!("the case is reported");
    };
    assert!(report.passed);
    assert_eq!(report.row_count, 1);
    assert_eq!(report.cypher, Some("RETURN 1".to_string()));
    replies.run = RunReply::Failed("gone".to_string());
    let CaseStep::Report(report) = case_step(&case, &settings, "E2E_x", &replies) else {
        panic!("the failure is reported");
    };
    assert!(!report.passed);
    assert_eq!(report.errors, strings(&["query failed: gone"]));
}

#[test]
fn a_case_is_answered_and_judged_when_it_asks_for_it() {
    let mut case = question("q1");
    case.traversal = Some(TraversalQuery {
        goal: "roles".to_string(),
        entities: Vec::new(),
        limit: None,
        prefix_label: None,
        prefix_index: None,
    });
    case.validation.answer_contains = strings(&["Ada"]);
    case.validation.judge = Some(JudgeSpec {
        expected: "Ada".to_string(),
        require_pass: true,
    });
    let settings = SuiteSettings::default();
    let mut replies = CaseReplies::default();
    let CaseStep::RunTraversal(sent) = case_step(&case, &settings, "E2E_x", &replies) else {
        panic!("the traversal is run");
    };
    assert_eq!(sent.prefix_index, Some("E2E_x".to_string()));
    replies.run = RunReply::Done(Answered {
        result: result(Vec::new()),
        readings: no_readings(),
    });
    assert!(matches!(
        case_step(&case, &settings, "E2E_x", &replies),
        CaseStep::Synthesize(_)
    ));
    replies.answer = AnswerReply::Done(" Grace \n".to_string());
    assert!(matches!(
        case_step(&case, &settings, "E2E_x", &replies),
        CaseStep::Judge(_)
    ));
    replies.judge = JudgeReply::Done(JudgeReport {
        passed: false,
        reason: "wrong name".to_string(),
    });
    let CaseStep::Report(report) = case_step(&case, &settings, "E2E_x", &replies) else {
        panic!("the case is reported");
    };
    assert_eq!(report.answer, Some("Grace".to_string()));
    assert_eq!(
        report.errors,
        strings(&[
            "answer does not contain `Ada`",
            "LLM judge failed: wrong name",
        ])
    );
}

#[test]
fn a_case_has_one_kind_of_query() {
    let mut case = question("q1");
    case.dsl = Some(Json::Null);
    case.traversal = Some(TraversalQuery {
        goal: String::new(),
        entities: Vec::new(),
        limit: None,
        prefix_label: None,
        prefix_index: None,
    });
    let settings = SuiteSettings::default();
    let CaseStep::Report(report) =
        case_step(&case, &settings, "E2E_x", &CaseReplies::default())
    else {
        panic!("the case is refused");
    };
    assert_eq!(
        report.errors,
        strings(&["case cannot define both `dsl` and `traversal`"])
    );
}

#[test]
fn prefixes_are_identifiers() {
    assert_eq!(sanitize_ident("my suite"), Some("my_suite".to_string()));
    assert_eq!(sanitize_ident("9lives"), Some("E2E_9lives".to_string()));
    assert_eq!(sanitize_ident("-a-"), Some("_a_".to_string()));
    assert_eq!(sanitize_ident(""), Some("E2E_".to_string()));
    assert_eq!(unique_prefix("demo", 17), "E2E_demo_17");
    let settings = SuiteSettings {
        prefix: Some("my prefix".to_string()),
        ..Default::default()
    };
    assert_eq!(suite_prefix(&settings, "demo", 17), Ok("my_prefix".to_string()));
    assert_eq!(
        suite_prefix(&SuiteSettings::default(), "demo-1", 17),
        Ok("E2E_demo_1_17".to_string())
    );
}

#[test]
fn cases_are_chosen_by_id() {
    let chosen = select_questions(
        vec![question("q1"), question("q2")],
        &Some("q2".to_string()),
        "questions.json",
    );
    assert_eq!(chosen, Ok(vec![question("q2")]));
    assert_eq!(
        select_questions(vec![question("q1")], &Some("q9".to_string()), "questions.json"),
        Err("question id `q9` not found in questions.json".to_string())
    );
    assert_eq!(
        select_questions(vec![question("q1")], &None, "questions.json"),
        Ok(vec![question("q1")])
    );
}

#[test]
fn options_override_settings() {
    let mut opts = options();
    opts.prefix = Some("mine".to_string());
    opts.keep_data = true;
    let settings = effective_settings(
        SuiteSettings {
            cleanup_after: true,
            ..Default::default()
        },
        &opts,
    );
    assert_eq!(settings.prefix, Some("mine".to_string()));
    assert!(!settings.cleanup_after);
}

#[test]
fn cleanup_goes_on_while_nodes_are_found() {
    assert_eq!(
        cleanup_query("E2E_x", false).text,
        "MATCH (n:E2E_x) WITH n LIMIT 1000 DETACH DELETE n RETURN count(*) AS nodes"
    );
    let counted = |n: i64| result(vec![row(vec![("nodes", DbValue::Int(n))])]);
    assert!(cleanup_goes_on(&counted(1000), None));
    assert!(!cleanup_goes_on(&counted(0), None));
    assert!(!cleanup_goes_on(&result(Vec::new()), None));
    let said = result(vec![row(vec![("nodes", word("1000"))])]);
    assert!(cleanup_goes_on(&said, Some(&float(1000.0))));
    assert!(!cleanup_goes_on(&said, None));
}

#[test]
fn indexes_of_a_graph_are_created_once() {
    let mut builder = GraphBuilder::new();
    builder.add_entity(EntityGraph::new("Person").strict_primary_key("name"));
    builder.add_entity(EntityGraph::new("Person").strict_primary_key("name"));
    let plan = index_plan(
        &builder.build(),
        &vec![
            IndexSpec {
                label: "Person".to_string(),
                property: "name".to_string(),
            },
            IndexSpec {
                label: "Movie".to_string(),
                property: "title".to_string(),
            },
        ],
    );
    let texts: Vec<String> = plan.statements.iter().map(|q| q.text.clone()).collect();
    assert_eq!(
        texts,
        strings(&[
            "CREATE INDEX ON :Movie(title)",
            "CREATE INDEX ON :Person(name)",
        ])
    );
    assert_eq!(plan.error, None);
}

#[test]
fn a_suite_succeeds_when_all_cases_pass() {
    let paths = || SuitePaths {
        graph: "g".to_string(),
        ontology: "o".to_string(),
        questions: "q".to_string(),
    };
    let empty = suite_report("demo".to_string(), "E2E_x".to_string(), paths(), false, Vec::new());
    assert!(empty.is_success());
    assert_eq!(empty.total, 0);
    assert_eq!(empty.prefix_index, "E2E_x");
}
