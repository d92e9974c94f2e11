use linguagraph::e2e::case::{case_step, CaseReplies, CaseStep, ParseReply};
use linguagraph::e2e::run::{advance, suite_step, SuiteProgress, SuiteReply, SuiteStep};
use linguagraph::e2e::suite::{index_plan, IndexPlan};
use linguagraph::e2e::types::{
    E2eCaseReport, IndexSpec, QuestionCase, SuiteSettings, ValidationSpec,
};
use linguagraph::graph::builder::GraphBuilder;

fn plan(label: &str) -> IndexPlan {
    index_plan(
        &GraphBuilder::new().build(),
        &vec![IndexSpec {
            label: label.to_string(),
            property: "name".to_string(),
        }],
    )
}

fn failed_case(id: &str) -> E2eCaseReport {
    let case = QuestionCase {
        id: id.to_string(),
        question: "Who?".to_string(),
        dsl: None,
        traversal: None,
        validation: ValidationSpec::default(),
    };
    let replies = CaseReplies {
        parsed: ParseReply::Failed("no query".to_string()),
        ..Default::default()
    };
    match case_step(&case, &SuiteSettings::default(), "E2E_x", &replies) {
        CaseStep::Report(report) => report,
        _ => panic!("a case without a query is reported"),
    }
}

/// Run a suite whose removals find nodes `full` times each.
fn steps(settings: &SuiteSettings, plan: &IndexPlan, questions: usize, full: usize) -> Vec<String> {
    let mut progress = SuiteProgress::default();
    let mut left = full;
    let mut out = Vec::new();
    loop {
        let reply = match suite_step(settings, plan, "E2E_x", questions, &progress) {
            SuiteStep::MakeIndex(query) => {
                out.push(query.text);
                SuiteReply::Indexed
            }
            SuiteStep::Clean(query) => {
                assert!(query.text.starts_with("MATCH (n:E2E_x) "));
                out.push("clean".to_string());
                let more = left > 0;
                left = if more { left - 1 } else { full };
                SuiteReply::Cleaned { more }
            }
            SuiteStep::Ingest => {
                out.push("ingest".to_string());
                SuiteReply::Ingested
            }
            SuiteStep::RunCase(i) => {
                out.push(format!("case {i}"));
                SuiteReply::Ran(failed_case("q"))
            }
            SuiteStep::Finish => {
                out.push(format!("finish after {}", progress.cases.len()));
                return out;
            }
            SuiteStep::Fail(e) => {
                out.push(e);
                return out;
            }
        };
        advance(&mut progress, reply);
        assert!(out.len() < 100);
    }
}

fn settings(before: bool, after: bool) -> SuiteSettings {
    SuiteSettings {
        cleanup_before: before,
        cleanup_after: after,
        ..Default::default()
    }
}

#[test]
fn a_suite_indexes_cleans_ingests_runs_and_sweeps() {
    assert_eq!(
        steps(&settings(true, true), &plan("Person"), 2, 1),
        [
            "CREATE INDEX ON :Person(name)",
            "clean",
            "clean",
            "ingest",
            "case 0",
            "case 1",
            "clean",
            "clean",
            "finish after 2",
        ]
    );
}

#[test]
fn kept_data_is_not_removed() {
    assert_eq!(
        steps(&settings(false, false), &plan("Person"), 1, 1),
        [
            "CREATE INDEX ON :Person(name)",
            "ingest",
            "case 0",
            "finish after 1",
        ]
    );
}

#[test]
fn an_index_on_no_identifier_fails_the_suite() {
    let done = steps(&settings(false, false), &plan("Per son"), 1, 0);
    assert_eq!(done, ["invalid e2e index `Per son.name`"]);
}
