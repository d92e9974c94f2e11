//! Running one case: what is done next, and what is reported at the end.

use vstd::prelude::*;
use crate::cypher::CypherQuery;
use crate::cypher::CypherQueryModel;
use crate::db::QueryResult;
use crate::db::QueryResultModel;
use crate::dsl;
use crate::dsl::DslQuery;
use crate::dsl::DslQueryModel;
use crate::e2e::mask;
use crate::e2e::prompts;
use crate::e2e::prompts::PromptRequest;
use crate::e2e::prompts::PromptRequestModel;
use crate::e2e::prompts::RowsModel;
use crate::e2e::rows;
use crate::e2e::rows::Readings;
use crate::e2e::rows::ReadingsModel;
use crate::e2e::types::E2eCaseReport;
use crate::e2e::types::E2eCaseReportModel;
use crate::e2e::types::JudgeReport;
use crate::e2e::types::JudgeReportModel;
use crate::e2e::types::QuestionCase;
use crate::e2e::types::QuestionCaseModel;
use crate::e2e::types::SuiteSettings;
use crate::e2e::types::SuiteSettingsModel;
use crate::e2e::types::TraversalQuery;
use crate::e2e::types::TraversalQueryModel;
use crate::e2e::validate;
use crate::json::Json;
use crate::json::JsonModel;
use crate::seqs;
use crate::seqs::Copied;
use crate::strmap::StrMap;
use crate::text;

verus! {

broadcast use vstd::string::group_string_axioms;

/// A valid query, with its JSON and what it does in words.
#[derive(Debug, PartialEq)]
pub struct ParsedQuery {
    pub query: DslQuery,
    pub json: Option<Json>,
    pub summary: String,
}

pub struct ParsedQueryModel {
    pub query: DslQueryModel,
    pub json: Option<JsonModel>,
    pub summary: Seq<char>,
}

impl DeepView for ParsedQuery {
    type V = ParsedQueryModel;

    open spec fn deep_view(&self) -> ParsedQueryModel {
        ParsedQueryModel {
            query: self.query.deep_view(),
            json: self.json.deep_view(),
            summary: self.summary@,
        }
    }
}

/// A result, with what floating-point arithmetic says of it.
#[derive(Debug, PartialEq)]
pub struct Answered {
    pub result: QueryResult,
    pub readings: Readings,
}

pub struct AnsweredModel {
    pub result: QueryResultModel,
    pub readings: ReadingsModel,
}

impl DeepView for Answered {
    type V = AnsweredModel;

    open spec fn deep_view(&self) -> AnsweredModel {
        AnsweredModel {
            result: self.result.deep_view(),
            readings: self.readings.deep_view(),
        }
    }
}

/// What came of making a query: nothing yet, the query, or the reason why there is
/// none.
#[derive(Debug, PartialEq)]
pub enum ParseReply {
    Waiting,
    Done(ParsedQuery),
    Failed(String),
}

pub enum ParseReplyModel {
    Waiting,
    Done(ParsedQueryModel),
    Failed(Seq<char>),
}

impl DeepView for ParseReply {
    type V = ParseReplyModel;

    open spec fn deep_view(&self) -> ParseReplyModel {
        match self {
            ParseReply::Waiting => ParseReplyModel::Waiting,
            ParseReply::Done(x) => ParseReplyModel::Done(x.deep_view()),
            ParseReply::Failed(x) => ParseReplyModel::Failed(x@),
        }
    }
}

/// What came of compiling a query.
#[derive(Debug, PartialEq)]
pub enum CompileReply {
    Waiting,
    Done(CypherQuery),
    Failed(String),
}

pub enum CompileReplyModel {
    Waiting,
    Done(CypherQueryModel),
    Failed(Seq<char>),
}

impl DeepView for CompileReply {
    type V = CompileReplyModel;

    open spec fn deep_view(&self) -> CompileReplyModel {
        match self {
            CompileReply::Waiting => CompileReplyModel::Waiting,
            CompileReply::Done(x) => CompileReplyModel::Done(x.deep_view()),
            CompileReply::Failed(x) => CompileReplyModel::Failed(x@),
        }
    }
}

/// What came of running a query or a search.
#[derive(Debug, PartialEq)]
pub enum RunReply {
    Waiting,
    Done(Answered),
    Failed(String),
}

pub enum RunReplyModel {
    Waiting,
    Done(AnsweredModel),
    Failed(Seq<char>),
}

impl DeepView for RunReply {
    type V = RunReplyModel;

    open spec fn deep_view(&self) -> RunReplyModel {
        match self {
            RunReply::Waiting => RunReplyModel::Waiting,
            RunReply::Done(x) => RunReplyModel::Done(x.deep_view()),
            RunReply::Failed(x) => RunReplyModel::Failed(x@),
        }
    }
}

/// What came of asking for an answer in words: what the language model wrote.
#[derive(Debug, PartialEq)]
pub enum AnswerReply {
    Waiting,
    Done(String),
    Failed(String),
}

pub enum AnswerReplyModel {
    Waiting,
    Done(Seq<char>),
    Failed(Seq<char>),
}

impl DeepView for AnswerReply {
    type V = AnswerReplyModel;

    open spec fn deep_view(&self) -> AnswerReplyModel {
        match self {
            AnswerReply::Waiting => AnswerReplyModel::Waiting,
            AnswerReply::Done(x) => AnswerReplyModel::Done(x@),
            AnswerReply::Failed(x) => AnswerReplyModel::Failed(x@),
        }
    }
}

/// What came of asking for a judgement.
#[derive(Debug, PartialEq)]
pub enum JudgeReply {
    Waiting,
    Done(JudgeReport),
    Failed(String),
}

pub enum JudgeReplyModel {
    Waiting,
    Done(JudgeReportModel),
    Failed(Seq<char>),
}

impl DeepView for JudgeReply {
    type V = JudgeReplyModel;

    open spec fn deep_view(&self) -> JudgeReplyModel {
        match self {
            JudgeReply::Waiting => JudgeReplyModel::Waiting,
            JudgeReply::Done(x) => JudgeReplyModel::Done(x.deep_view()),
            JudgeReply::Failed(x) => JudgeReplyModel::Failed(x@),
        }
    }
}

/// All that has come back in a case so far.
#[derive(Debug, PartialEq)]
pub struct CaseReplies {
    /// The search under its prefix, as JSON.
    pub traversal_json: Option<Json>,
    pub parsed: ParseReply,
    pub compiled: CompileReply,
    pub run: RunReply,
    pub answer: AnswerReply,
    pub judge: JudgeReply,
}

pub struct CaseRepliesModel {
    pub traversal_json: Option<JsonModel>,
    pub parsed: ParseReplyModel,
    pub compiled: CompileReplyModel,
    pub run: RunReplyModel,
    pub answer: AnswerReplyModel,
    pub judge: JudgeReplyModel,
}

impl DeepView for CaseReplies {
    type V = CaseRepliesModel;

    open spec fn deep_view(&self) -> CaseRepliesModel {
        CaseRepliesModel {
            traversal_json: self.traversal_json.deep_view(),
            parsed: self.parsed.deep_view(),
            compiled: self.compiled.deep_view(),
            run: self.run.deep_view(),
            answer: self.answer.deep_view(),
            judge: self.judge.deep_view(),
        }
    }
}

/// What is done next in a case.
#[derive(Debug, PartialEq)]
pub enum CaseStep {
    RunTraversal(TraversalQuery),
    ParseDsl(Json),
    GenerateDsl,
    Compile(DslQuery),
    RunDsl(DslQuery),
    Synthesize(PromptRequest),
    Judge(PromptRequest),
    Report(E2eCaseReport),
}

pub enum CaseStepModel {
    RunTraversal(TraversalQueryModel),
    ParseDsl(JsonModel),
    GenerateDsl,
    Compile(DslQueryModel),
    RunDsl(DslQueryModel),
    Synthesize(PromptRequestModel),
    Judge(PromptRequestModel),
    Report(E2eCaseReportModel),
}

impl DeepView for CaseStep {
    type V = CaseStepModel;

    open spec fn deep_view(&self) -> CaseStepModel {
        match self {
            CaseStep::RunTraversal(x) => CaseStepModel::RunTraversal(x.deep_view()),
            CaseStep::ParseDsl(x) => CaseStepModel::ParseDsl(x.deep_view()),
            CaseStep::GenerateDsl => CaseStepModel::GenerateDsl,
            CaseStep::Compile(x) => CaseStepModel::Compile(x.deep_view()),
            CaseStep::RunDsl(x) => CaseStepModel::RunDsl(x.deep_view()),
            CaseStep::Synthesize(x) => CaseStepModel::Synthesize(x.deep_view()),
            CaseStep::Judge(x) => CaseStepModel::Judge(x.deep_view()),
            CaseStep::Report(x) => CaseStepModel::Report(x.deep_view()),
        }
    }
}

impl Default for CaseReplies {
    fn default() -> (r: CaseReplies)
        ensures
            r.deep_view() == (CaseRepliesModel {
                traversal_json: None,
                parsed: ParseReplyModel::Waiting,
                compiled: CompileReplyModel::Waiting,
                run: RunReplyModel::Waiting,
                answer: AnswerReplyModel::Waiting,
                judge: JudgeReplyModel::Waiting,
            }),
    {
        CaseReplies {
            traversal_json: None,
            parsed: ParseReply::Waiting,
            compiled: CompileReply::Waiting,
            run: RunReply::Waiting,
            answer: AnswerReply::Waiting,
            judge: JudgeReply::Waiting,
        }
    }
}

/// What is known of a case while it runs.
pub struct Progress {
    pub errors: Seq<Seq<char>>,
    pub dsl: Option<JsonModel>,
    pub traversal: Option<JsonModel>,
    pub cypher: Option<Seq<char>>,
    pub cypher_params: Option<Seq<(Seq<char>, JsonModel)>>,
}

/// The report of a case that ends early.
pub open spec fn broken_report(case: QuestionCaseModel, p: Progress, error: Seq<char>) ->
    E2eCaseReportModel {
    E2eCaseReportModel {
        id: case.id,
        question: case.question,
        passed: false,
        errors: p.errors.push(error),
        dsl: p.dsl,
        traversal: p.traversal,
        cypher: p.cypher,
        cypher_params: p.cypher_params,
        row_count: 0,
        rows: Seq::empty(),
        answer: None,
        judge: None,
    }
}

/// The answer in words, where there is one, without the space around it.
pub open spec fn answer_text(reply: AnswerReplyModel) -> Option<Seq<char>> {
    match reply {
        AnswerReplyModel::Done(a) => Some(text::trimmed(a)),
        _ => None,
    }
}

/// What is wrong with the answer in words.
pub open spec fn answer_faults(case: QuestionCaseModel, reply: AnswerReplyModel) -> Seq<Seq<char>> {
    match reply {
        AnswerReplyModel::Done(a) => rows::answer_errors(
            case.validation.answer_contains,
            text::trimmed(a),
        ),
        AnswerReplyModel::Failed(e) => seq!["answer synthesis failed: "@ + e],
        AnswerReplyModel::Waiting => Seq::empty(),
    }
}

/// What the judgement has against the answer.
pub open spec fn judge_faults(case: QuestionCaseModel, reply: JudgeReplyModel) -> Seq<Seq<char>> {
    match reply {
        JudgeReplyModel::Done(j) => if case.validation.judge is Some
            && case.validation.judge->0.require_pass && !j.passed {
            seq!["LLM judge failed: "@ + j.reason]
        } else {
            Seq::empty()
        },
        JudgeReplyModel::Failed(e) => seq!["LLM judge failed to run: "@ + e],
        JudgeReplyModel::Waiting => Seq::empty(),
    }
}

/// The judgement, where there is one.
pub open spec fn judge_verdict(reply: JudgeReplyModel) -> Option<JudgeReportModel> {
    match reply {
        JudgeReplyModel::Done(j) => Some(j),
        _ => None,
    }
}

/// Is an answer in words asked for?
pub open spec fn wants_answer(case: QuestionCaseModel, settings: SuiteSettingsModel) -> bool {
    settings.answer_with_llm || case.validation.answer_contains.len() > 0
}

/// The report of a case that ran to its end.
pub open spec fn full_report(
    case: QuestionCaseModel,
    p: Progress,
    result: QueryResultModel,
    rows: RowsModel,
    answer: AnswerReplyModel,
    judge: JudgeReplyModel,
) -> E2eCaseReportModel {
    let errors = p.errors + answer_faults(case, answer) + judge_faults(case, judge);
    E2eCaseReportModel {
        id: case.id,
        question: case.question,
        passed: errors.len() == 0,
        errors,
        dsl: p.dsl,
        traversal: p.traversal,
        cypher: p.cypher,
        cypher_params: p.cypher_params,
        row_count: result.rows.len() as usize,
        rows,
        answer: answer_text(answer),
        judge: judge_verdict(judge),
    }
}

/// What is done once there is a result: ask for an answer in words, have it
/// judged, and report.
pub open spec fn after_result(
    case: QuestionCaseModel,
    settings: SuiteSettingsModel,
    p: Progress,
    found: AnsweredModel,
    summary: Seq<char>,
    replies: CaseRepliesModel,
) -> CaseStepModel {
    let rows = mask::rows_json(found.result.rows, settings.include_embeddings_in_report);
    let checked = Progress {
        errors: p.errors + rows::result_errors(
            case.validation,
            found.result,
            found.readings,
            None,
        ),
        ..p
    };
    let answer = if wants_answer(case, settings) {
        replies.answer
    } else {
        AnswerReplyModel::Waiting
    };
    let judge = if case.validation.judge is Some {
        replies.judge
    } else {
        JudgeReplyModel::Waiting
    };
    if wants_answer(case, settings) && answer is Waiting {
        CaseStepModel::Synthesize(prompts::synthesis(case.question, summary, rows))
    } else if case.validation.judge is Some && judge is Waiting {
        CaseStepModel::Judge(
            prompts::judgement(
                case.question,
                answer_text(answer),
                rows,
                case.validation.judge->0,
            ),
        )
    } else {
        CaseStepModel::Report(full_report(case, checked, found.result, rows, answer, judge))
    }
}

/// Nothing is known yet.
pub open spec fn fresh() -> Progress {
    Progress {
        errors: Seq::empty(),
        dsl: None,
        traversal: None,
        cypher: None,
        cypher_params: None,
    }
}

/// What is done next in a case that searches for text.
pub open spec fn traversal_step(
    case: QuestionCaseModel,
    settings: SuiteSettingsModel,
    search: TraversalQueryModel,
    replies: CaseRepliesModel,
) -> CaseStepModel {
    let p = Progress {
        errors: if case.validation.dsl_expect is Some {
            seq!["`dsl_expect` is not applicable to traversal cases"@]
        } else {
            Seq::empty()
        },
        traversal: replies.traversal_json,
        ..fresh()
    };
    match replies.run {
        RunReplyModel::Waiting => CaseStepModel::RunTraversal(search),
        RunReplyModel::Failed(e) => CaseStepModel::Report(
            broken_report(case, p, "traversal query failed: "@ + e),
        ),
        RunReplyModel::Done(found) => after_result(
            case,
            settings,
            p,
            found,
            prompts::traversal_text(search),
            replies,
        ),
    }
}

/// A valid query under a prefix.
pub open spec fn prefixed_parsed(parsed: ParsedQueryModel, prefix: Seq<char>) -> ParsedQueryModel {
    ParsedQueryModel {
        query: dsl::prefixed_query(parsed.query, Some(prefix), Some(prefix)),
        ..parsed
    }
}

/// What is done next in a case with a valid query.
pub open spec fn query_step(
    case: QuestionCaseModel,
    settings: SuiteSettingsModel,
    parsed: ParsedQueryModel,
    replies: CaseRepliesModel,
) -> CaseStepModel {
    let p = Progress {
        errors: validate::dsl_errors(case.validation.dsl_expect, parsed.query),
        dsl: parsed.json,
        ..fresh()
    };
    match replies.compiled {
        CompileReplyModel::Waiting => CaseStepModel::Compile(parsed.query),
        CompileReplyModel::Failed(e) => CaseStepModel::Report(
            broken_report(case, p, "cypher compile failed: "@ + e),
        ),
        CompileReplyModel::Done(cypher) => {
            let q = Progress {
                cypher: Some(cypher.text),
                cypher_params: Some(
                    mask::masked_params(cypher.params, settings.include_embeddings_in_report),
                ),
                ..p
            };
            match replies.run {
                RunReplyModel::Waiting => CaseStepModel::RunDsl(parsed.query),
                RunReplyModel::Failed(e) => CaseStepModel::Report(
                    broken_report(case, q, "query failed: "@ + e),
                ),
                RunReplyModel::Done(found) => after_result(
                    case,
                    settings,
                    q,
                    found,
                    parsed.summary,
                    replies,
                ),
            }
        },
    }
}

/// What is done next in a case, after all that has come back.
pub open spec fn next_step(
    case: QuestionCaseModel,
    settings: SuiteSettingsModel,
    prefix: Seq<char>,
    replies: CaseRepliesModel,
) -> CaseStepModel {
    if case.dsl is Some && case.traversal is Some {
        CaseStepModel::Report(
            broken_report(case, fresh(), "case cannot define both `dsl` and `traversal`"@),
        )
    } else if case.traversal is Some {
        traversal_step(
            case,
            settings,
            prompts::prefixed_traversal(case.traversal->0, prefix),
            replies,
        )
    } else {
        match replies.parsed {
            ParseReplyModel::Waiting => match case.dsl {
                Some(fixed) => CaseStepModel::ParseDsl(fixed),
                None => CaseStepModel::GenerateDsl,
            },
            ParseReplyModel::Failed(e) => CaseStepModel::Report(broken_report(case, fresh(), e)),
            ParseReplyModel::Done(parsed) => query_step(
                case,
                settings,
                prefixed_parsed(parsed, prefix),
                replies,
            ),
        }
    }
}

/// A case is reported under its own name and question, and has passed exactly when
/// nothing is wrong with it.
pub proof fn law_passed_means_no_errors(
    case: QuestionCaseModel,
    settings: SuiteSettingsModel,
    prefix: Seq<char>,
    replies: CaseRepliesModel,
)
    ensures
        match next_step(case, settings, prefix, replies) {
            CaseStepModel::Report(r) => r.id == case.id && r.question == case.question && (r.passed
                <==> r.errors.len() == 0),
            _ => true,
        },
{
}

/// Nothing is done twice: what a step asks for has not come back yet.
pub proof fn law_steps_ask_for_what_is_missing(
    case: QuestionCaseModel,
    settings: SuiteSettingsModel,
    prefix: Seq<char>,
    replies: CaseRepliesModel,
)
    ensures
        match next_step(case, settings, prefix, replies) {
            CaseStepModel::RunTraversal(_) => replies.run is Waiting,
            CaseStepModel::ParseDsl(_) => replies.parsed is Waiting,
            CaseStepModel::GenerateDsl => replies.parsed is Waiting,
            CaseStepModel::Compile(_) => replies.compiled is Waiting,
            CaseStepModel::RunDsl(_) => replies.run is Waiting,
            CaseStepModel::Synthesize(_) => replies.answer is Waiting,
            CaseStepModel::Judge(_) => replies.judge is Waiting,
            CaseStepModel::Report(_) => true,
        },
{
}

/// A search or a query runs under the prefix of the suite, whatever the case says.
pub proof fn law_searches_run_under_the_prefix(
    case: QuestionCaseModel,
    settings: SuiteSettingsModel,
    prefix: Seq<char>,
    replies: CaseRepliesModel,
)
    ensures
        match next_step(case, settings, prefix, replies) {
            CaseStepModel::RunTraversal(t) => t.prefix_label == Some(prefix) && t.prefix_index
                == Some(prefix),
            CaseStepModel::RunDsl(q) => q.prefix_label == Some(prefix) && q.prefix_index == Some(
                prefix,
            ),
            _ => true,
        },
{
}

struct Known {
    errors: Vec<String>,
    dsl: Option<Json>,
    traversal: Option<Json>,
    cypher: Option<String>,
    cypher_params: Option<StrMap<Json>>,
}

impl DeepView for Known {
    type V = Progress;

    closed spec fn deep_view(&self) -> Progress {
        Progress {
            errors: self.errors.deep_view(),
            dsl: self.dsl.deep_view(),
            traversal: self.traversal.deep_view(),
            cypher: self.cypher.deep_view(),
            cypher_params: self.cypher_params.deep_view(),
        }
    }
}

fn start() -> (r: Known)
    ensures
        r.deep_view() == fresh(),
{
    Known {
        errors: seqs::no_items(),
        dsl: None,
        traversal: None,
        cypher: None,
        cypher_params: None,
    }
}

fn report_broken(case: &QuestionCase, known: Known, head: &str, error: &str) -> (r: CaseStep)
    ensures
        r.deep_view() == CaseStepModel::Report(
            broken_report(case.deep_view(), known.deep_view(), head@ + error@),
        ),
{
    let mut s = head.to_owned();
    s.append(error);
    let mut errors = known.errors;
    seqs::push_item(&mut errors, s);
    CaseStep::Report(
        E2eCaseReport {
            id: case.id.clone(),
            question: case.question.clone(),
            passed: false,
            errors,
            dsl: known.dsl,
            traversal: known.traversal,
            cypher: known.cypher,
            cypher_params: known.cypher_params,
            row_count: 0,
            rows: seqs::no_items(),
            answer: None,
            judge: None,
        },
    )
}

fn one_text(head: &str, rest: &str) -> (r: Vec<String>)
    ensures
        r.deep_view() == seq![head@ + rest@],
{
    let mut s = head.to_owned();
    s.append(rest);
    let mut out: Vec<String> = seqs::no_items();
    seqs::push_item(&mut out, s);
    assert(out.deep_view() =~= seq![head@ + rest@]);
    out
}

fn faults_of_answer(case: &QuestionCase, reply: &AnswerReply) -> (r: Vec<String>)
    ensures
        r.deep_view() == answer_faults(case.deep_view(), reply.deep_view()),
{
    match reply {
        AnswerReply::Done(a) => rows::validate_answer_contains(
            &case.validation.answer_contains,
            text::trim(a.as_str()).as_str(),
        ),
        AnswerReply::Failed(e) => one_text("answer synthesis failed: ", e.as_str()),
        AnswerReply::Waiting => seqs::no_items(),
    }
}

fn faults_of_judge(case: &QuestionCase, reply: &JudgeReply) -> (r: Vec<String>)
    ensures
        r.deep_view() == judge_faults(case.deep_view(), reply.deep_view()),
{
    match reply {
        JudgeReply::Done(j) => {
            let required = match &case.validation.judge {
                Some(spec) => spec.require_pass,
                None => false,
            };
            if required && !j.passed {
                one_text("LLM judge failed: ", j.reason.as_str())
            } else {
                seqs::no_items()
            }
        },
        JudgeReply::Failed(e) => one_text("LLM judge failed to run: ", e.as_str()),
        JudgeReply::Waiting => seqs::no_items(),
    }
}

fn step_after_result(
    case: &QuestionCase,
    settings: &SuiteSettings,
    known: Known,
    found: &Answered,
    summary: &str,
    replies: &CaseReplies,
) -> (r: CaseStep)
    ensures
        r.deep_view() == after_result(
            case.deep_view(),
            settings.deep_view(),
            known.deep_view(),
            found.deep_view(),
            summary@,
            replies.deep_view(),
        ),
{
    let shown = mask::result_rows_json(&found.result, settings.include_embeddings_in_report);
    let found_errors = rows::validate_result(
        &case.validation,
        &found.result,
        &found.readings,
        None,
    );
    let mut errors = known.errors;
    seqs::append_items(&mut errors, found_errors);
    let answer_wanted = settings.answer_with_llm || case.validation.answer_contains.len() > 0;
    proof {
        assert(case.validation.answer_contains.deep_view().len()
            == case.validation.answer_contains@.len());
        assert(found.result.rows.deep_view().len() == found.result.rows@.len());
    }
    let not_asked = AnswerReply::Waiting;
    let not_judged = JudgeReply::Waiting;
    let answer = if answer_wanted {
        &replies.answer
    } else {
        &not_asked
    };
    let said: Option<String> = match answer {
        AnswerReply::Done(a) => Some(text::trim(a.as_str())),
        _ => None,
    };
    if answer_wanted {
        if let AnswerReply::Waiting = answer {
            return CaseStep::Synthesize(
                prompts::synthesis_request(case.question.as_str(), summary, &shown),
            );
        }
    }
    let judge = match &case.validation.judge {
        Some(spec) => {
            if let JudgeReply::Waiting = &replies.judge {
                return CaseStep::Judge(
                    prompts::judge_request(
                        case.question.as_str(),
                        seqs::as_deref(&said),
                        &shown,
                        spec,
                    ),
                );
            }
            &replies.judge
        },
        None => &not_judged,
    };
    seqs::append_items(&mut errors, faults_of_answer(case, answer));
    seqs::append_items(&mut errors, faults_of_judge(case, judge));
    let verdict = match judge {
        JudgeReply::Done(j) => Some(j.copied()),
        _ => None,
    };
    let passed = errors.len() == 0;
    assert(errors.deep_view().len() == errors@.len());
    CaseStep::Report(
        E2eCaseReport {
            id: case.id.clone(),
            question: case.question.clone(),
            passed,
            errors,
            dsl: known.dsl,
            traversal: known.traversal,
            cypher: known.cypher,
            cypher_params: known.cypher_params,
            row_count: found.result.rows.len(),
            rows: shown,
            answer: said,
            judge: verdict,
        },
    )
}

fn step_of_traversal(
    case: &QuestionCase,
    settings: &SuiteSettings,
    search: TraversalQuery,
    replies: &CaseReplies,
) -> (r: CaseStep)
    ensures
        r.deep_view() == traversal_step(
            case.deep_view(),
            settings.deep_view(),
            search.deep_view(),
            replies.deep_view(),
        ),
{
    let mut known = start();
    known.traversal = replies.traversal_json.copied();
    if case.validation.dsl_expect.is_some() {
        seqs::push_item(
            &mut known.errors,
            "`dsl_expect` is not applicable to traversal cases".to_owned(),
        );
        assert(known.errors.deep_view() =~= seq![
            "`dsl_expect` is not applicable to traversal cases"@,
        ]);
    }
    match &replies.run {
        RunReply::Waiting => CaseStep::RunTraversal(search),
        RunReply::Failed(e) => report_broken(case, known, "traversal query failed: ", e.as_str()),
        RunReply::Done(found) => {
            let summary = prompts::traversal_summary(&search);
            step_after_result(case, settings, known, found, summary.as_str(), replies)
        },
    }
}

fn step_of_query(
    case: &QuestionCase,
    settings: &SuiteSettings,
    parsed: &ParsedQuery,
    prefix: &str,
    replies: &CaseReplies,
) -> (r: CaseStep)
    ensures
        r.deep_view() == query_step(
            case.deep_view(),
            settings.deep_view(),
            prefixed_parsed(parsed.deep_view(), prefix@),
            replies.deep_view(),
        ),
{
    let mut query = parsed.query.copied();
    prompts::force_prefix(&mut query, prefix);
    let mut known = start();
    known.dsl = parsed.json.copied();
    known.errors = validate::validate_dsl(&case.validation.dsl_expect, &query);
    match &replies.compiled {
        CompileReply::Waiting => CaseStep::Compile(query),
        CompileReply::Failed(e) => report_broken(
            case,
            known,
            "cypher compile failed: ",
            e.as_str(),
        ),
        CompileReply::Done(cypher) => {
            known.cypher = Some(cypher.text.clone());
            known.cypher_params = Some(
                mask::mask_cypher_params(&cypher.params, settings.include_embeddings_in_report),
            );
            match &replies.run {
                RunReply::Waiting => CaseStep::RunDsl(query),
                RunReply::Failed(e) => report_broken(case, known, "query failed: ", e.as_str()),
                RunReply::Done(found) => step_after_result(
                    case,
                    settings,
                    known,
                    found,
                    parsed.summary.as_str(),
                    replies,
                ),
            }
        },
    }
}

/// What is done next in a case, after all that has come back.
pub fn case_step(
    case: &QuestionCase,
    settings: &SuiteSettings,
    prefix: &str,
    replies: &CaseReplies,
) -> (r: CaseStep)
    ensures
        r.deep_view() == next_step(
            case.deep_view(),
            settings.deep_view(),
            prefix@,
            replies.deep_view(),
        ),
{
    if let Some(search) = &case.traversal {
        if case.dsl.is_some() {
            let known = start();
            proof {
                let s = "case cannot define both `dsl` and `traversal`"@;
                assert(s + Seq::<char>::empty() =~= s);
                reveal_strlit("");
            }
            return report_broken(
                case,
                known,
                "case cannot define both `dsl` and `traversal`",
                "",
            );
        }
        let mut search = search.copied();
        prompts::force_traversal_prefix(&mut search, prefix);
        return step_of_traversal(case, settings, search, replies);
    }
    match &replies.parsed {
        ParseReply::Waiting => match &case.dsl {
            Some(fixed) => CaseStep::ParseDsl(fixed.copied()),
            None => CaseStep::GenerateDsl,
        },
        ParseReply::Failed(e) => {
            let known = start();
            proof {
                reveal_strlit("");
                assert(""@ + e@ =~= e@);
            }
            report_broken(case, known, "", e.as_str())
        },
        ParseReply::Done(parsed) => step_of_query(case, settings, parsed, prefix, replies),
    }
}

/// A case whose query was parsed, compiled and run passes exactly when the query is as
/// expected, the result without errors, the answer says what it should where one is wanted,
/// and the judge, where there is one, did not object to what has to pass. The report tells the
/// number of rows, the query, the answer and the verdict.
pub proof fn law_cases_pass_when_all_is_well(
    case: QuestionCaseModel,
    settings: SuiteSettingsModel,
    prefix: Seq<char>,
    replies: CaseRepliesModel,
)
    requires
        case.traversal is None,
        replies.parsed is Done,
        replies.compiled is Done,
        replies.run is Done,
        !(replies.answer is Waiting),
        !(replies.judge is Waiting),
        replies.run->Done_0.result.rows.len() <= usize::MAX,
    ensures
        ({
            let parsed = replies.parsed->Done_0;
            let found = replies.run->Done_0;
            let wanted = settings.answer_with_llm || case.validation.answer_contains.len() > 0;
            let step = next_step(case, settings, prefix, replies);
            let r = step->Report_0;
            &&& step is Report
            &&& r.passed <==> {
                &&& validate::dsl_errors(
                    case.validation.dsl_expect,
                    dsl::prefixed_query(parsed.query, Some(prefix), Some(prefix)),
                ).len() == 0
                &&& rows::result_errors(
                    case.validation,
                    found.result,
                    found.readings,
                    None,
                ).len() == 0
                &&& wanted ==> replies.answer is Done && forall|i: int|
                    0 <= i < case.validation.answer_contains.len() ==> text::has_substring(
                        text::lowercase(text::trimmed(replies.answer->Done_0)),
                        text::lowercase(#[trigger] case.validation.answer_contains[i]),
                    )
                &&& case.validation.judge is Some ==> replies.judge is Done && (
                case.validation.judge->0.require_pass ==> replies.judge->Done_0.passed)
            }
            &&& r.row_count == found.result.rows.len()
            &&& r.cypher == Some(replies.compiled->Done_0.text)
            &&& r.dsl == parsed.json
            &&& r.answer == (if wanted && replies.answer is Done {
                Some(text::trimmed(replies.answer->Done_0))
            } else {
                None
            })
            &&& r.judge == (if case.validation.judge is Some && replies.judge is Done {
                Some(replies.judge->Done_0)
            } else {
                None
            })
        }),
{
    if replies.answer is Done {
        let a = text::trimmed(replies.answer->Done_0);
        let said = rows::mentions(text::lowercase(a));
        validate::no_complaints(
            case.validation.answer_contains,
            said,
            "answer does not contain `"@,
        );
        assert forall|i: int| 0 <= i < case.validation.answer_contains.len() implies said(
            #[trigger] case.validation.answer_contains[i],
        ) == text::has_substring(
            text::lowercase(a),
            text::lowercase(case.validation.answer_contains[i]),
        ) by {}
    }
}

/// What goes wrong on the way ends a case: it has not passed, and its errors say what failed.
pub proof fn law_failures_are_reported(
    case: QuestionCaseModel,
    settings: SuiteSettingsModel,
    prefix: Seq<char>,
    replies: CaseRepliesModel,
)
    ensures
        ({
            let step = next_step(case, settings, prefix, replies);
            let both = case.dsl is Some && case.traversal is Some;
            let failed = if case.traversal is Some {
                replies.run is Failed
            } else {
                replies.parsed is Failed || (replies.parsed is Done && (replies.compiled is Failed || (
                replies.compiled is Done && replies.run is Failed)))
            };
            both || failed ==> step is Report && !step->Report_0.passed
                && step->Report_0.errors.len() > 0
        }),
{
}

/// A case takes its steps in their order: its query is parsed where it is given and made from
/// the question where it is not, then compiled, then run; then the answer is made where one is
/// wanted, and judged where there is a judge.
pub proof fn law_steps_come_in_order(
    case: QuestionCaseModel,
    settings: SuiteSettingsModel,
    prefix: Seq<char>,
    replies: CaseRepliesModel,
)
    requires
        case.traversal is None,
    ensures
        ({
            let step = next_step(case, settings, prefix, replies);
            let wanted = settings.answer_with_llm || case.validation.answer_contains.len() > 0;
            &&& replies.parsed is Waiting ==> (case.dsl is Some ==> step
                == CaseStepModel::ParseDsl(case.dsl->0)) && (case.dsl is None ==> step is GenerateDsl)
            &&& replies.parsed is Done && replies.compiled is Waiting ==> step is Compile
            &&& replies.parsed is Done && replies.compiled is Done && replies.run is Waiting
                ==> step is RunDsl
            &&& replies.parsed is Done && replies.compiled is Done && replies.run is Done && wanted
                && replies.answer is Waiting ==> step is Synthesize
            &&& replies.parsed is Done && replies.compiled is Done && replies.run is Done && (!wanted
                || !(replies.answer is Waiting)) && case.validation.judge is Some
                && replies.judge is Waiting ==> step is Judge
        }),
{
}

/// What is compiled and run is the query of the case, or its search, which differs only in the prefix.
/// An answer is made from the question and the rows of the result, and a judge is shown that
/// answer, without the white around it, with the same question and rows.
pub proof fn law_steps_carry_the_case(
    case: QuestionCaseModel,
    settings: SuiteSettingsModel,
    prefix: Seq<char>,
    replies: CaseRepliesModel,
)
    ensures
        match next_step(case, settings, prefix, replies) {
            CaseStepModel::Compile(q) => {
                let asked = replies.parsed->Done_0.query;
                &&& replies.parsed is Done
                &&& q.prefix_label == Some(prefix) && q.prefix_index == Some(prefix)
                &&& dsl::prefixed_query(q, asked.prefix_label, asked.prefix_index) == asked
            },
            CaseStepModel::RunDsl(q) => {
                let asked = replies.parsed->Done_0.query;
                &&& replies.parsed is Done && replies.compiled is Done
                &&& dsl::prefixed_query(q, asked.prefix_label, asked.prefix_index) == asked
            },
            CaseStepModel::RunTraversal(t) => {
                let asked = case.traversal->0;
                &&& case.traversal is Some
                &&& (TraversalQueryModel {
                    prefix_label: asked.prefix_label,
                    prefix_index: asked.prefix_index,
                    ..t
                }) == asked
            },
            CaseStepModel::Synthesize(p) => {
                let summary = if case.traversal is Some {
                    prompts::traversal_text(prompts::prefixed_traversal(case.traversal->0, prefix))
                } else {
                    replies.parsed->Done_0.summary
                };
                replies.run is Done && p == prompts::synthesis(
                    case.question,
                    summary,
                    mask::rows_json(
                        replies.run->Done_0.result.rows,
                        settings.include_embeddings_in_report,
                    ),
                )
            },
            CaseStepModel::Judge(p) => {
                let wanted = settings.answer_with_llm || case.validation.answer_contains.len() > 0;
                replies.run is Done && case.validation.judge is Some && p == prompts::judgement(
                    case.question,
                    if wanted && replies.answer is Done {
                        Some(text::trimmed(replies.answer->Done_0))
                    } else {
                        None
                    },
                    mask::rows_json(
                        replies.run->Done_0.result.rows,
                        settings.include_embeddings_in_report,
                    ),
                    case.validation.judge->0,
                )
            },
            _ => true,
        },
{
}

/// A search that was run passes exactly when no query is expected of it, its result is without
/// errors, the answer says what it should where one is wanted, and the judge, where there is one,
/// did not object to what has to pass. The report tells the rows, the search, the answer and the
/// verdict.
pub proof fn law_searches_pass_when_all_is_well(
    case: QuestionCaseModel,
    settings: SuiteSettingsModel,
    prefix: Seq<char>,
    replies: CaseRepliesModel,
)
    requires
        case.traversal is Some,
        case.dsl is None,
        replies.run is Done,
        !(replies.answer is Waiting),
        !(replies.judge is Waiting),
        replies.run->Done_0.result.rows.len() <= usize::MAX,
    ensures
        ({
            let found = replies.run->Done_0;
            let wanted = settings.answer_with_llm || case.validation.answer_contains.len() > 0;
            let step = next_step(case, settings, prefix, replies);
            let r = step->Report_0;
            &&& step is Report
            &&& r.passed <==> {
                &&& case.validation.dsl_expect is None
                &&& rows::result_errors(
                    case.validation,
                    found.result,
                    found.readings,
                    None,
                ).len() == 0
                &&& wanted ==> replies.answer is Done && forall|i: int|
                    0 <= i < case.validation.answer_contains.len() ==> text::has_substring(
                        text::lowercase(text::trimmed(replies.answer->Done_0)),
                        text::lowercase(#[trigger] case.validation.answer_contains[i]),
                    )
                &&& case.validation.judge is Some ==> replies.judge is Done && (
                case.validation.judge->0.require_pass ==> replies.judge->Done_0.passed)
            }
            &&& r.row_count == found.result.rows.len()
            &&& r.rows == mask::rows_json(found.result.rows, settings.include_embeddings_in_report)
            &&& r.traversal == replies.traversal_json
            &&& r.cypher is None && r.dsl is None
            &&& r.answer == (if wanted && replies.answer is Done {
                Some(text::trimmed(replies.answer->Done_0))
            } else {
                None
            })
            &&& r.judge == (if case.validation.judge is Some && replies.judge is Done {
                Some(replies.judge->Done_0)
            } else {
                None
            })
        }),
{
    if replies.answer is Done {
        let a = text::trimmed(replies.answer->Done_0);
        let said = rows::mentions(text::lowercase(a));
        validate::no_complaints(
            case.validation.answer_contains,
            said,
            "answer does not contain `"@,
        );
        assert forall|i: int| 0 <= i < case.validation.answer_contains.len() implies said(
            #[trigger] case.validation.answer_contains[i],
        ) == text::has_substring(
            text::lowercase(a),
            text::lowercase(case.validation.answer_contains[i]),
        ) by {}
    }
}

/// The report of a query shows the rows of its result, and the parameters of what was run.
pub proof fn law_reports_show_the_rows(
    case: QuestionCaseModel,
    settings: SuiteSettingsModel,
    prefix: Seq<char>,
    replies: CaseRepliesModel,
)
    requires
        case.traversal is None,
        replies.parsed is Done,
        replies.compiled is Done,
        replies.run is Done,
        !(replies.answer is Waiting),
        !(replies.judge is Waiting),
    ensures
        ({
            let r = next_step(case, settings, prefix, replies)->Report_0;
            &&& r.rows == mask::rows_json(
                replies.run->Done_0.result.rows,
                settings.include_embeddings_in_report,
            )
            &&& r.cypher_params == Some(
                mask::masked_params(
                    replies.compiled->Done_0.params,
                    settings.include_embeddings_in_report,
                ),
            )
            &&& r.traversal is None
        }),
{
}

} // verus!
