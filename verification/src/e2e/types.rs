//! What a test suite is made of, and what is reported of a run.

use vstd::prelude::*;
use crate::json::Json;
use crate::json::JsonModel;
use crate::seqs;
use crate::seqs::Copied;
use crate::strmap::StrMap;

verus! {

broadcast use vstd::string::group_string_axioms;

/// How a suite is run.
#[derive(Debug, PartialEq)]
pub struct E2eRunOptions {
    pub config_path: String,
    pub suite_path: String,
    pub graph_path: Option<String>,
    pub ontology_path: Option<String>,
    pub questions_path: Option<String>,
    /// Run this case alone.
    pub case_id: Option<String>,
    pub report_path: Option<String>,
    pub prefix: Option<String>,
    pub cleanup_after: Option<bool>,
    /// Keep the data whatever the settings say.
    pub keep_data: bool,
    pub include_embeddings_in_report: Option<bool>,
    pub llm_base_url: Option<String>,
    pub llm_model: Option<String>,
}

pub struct E2eRunOptionsModel {
    pub config_path: Seq<char>,
    pub suite_path: Seq<char>,
    pub graph_path: Option<Seq<char>>,
    pub ontology_path: Option<Seq<char>>,
    pub questions_path: Option<Seq<char>>,
    pub case_id: Option<Seq<char>>,
    pub report_path: Option<Seq<char>>,
    pub prefix: Option<Seq<char>>,
    pub cleanup_after: Option<bool>,
    pub keep_data: bool,
    pub include_embeddings_in_report: Option<bool>,
    pub llm_base_url: Option<Seq<char>>,
    pub llm_model: Option<Seq<char>>,
}

impl DeepView for E2eRunOptions {
    type V = E2eRunOptionsModel;

    open spec fn deep_view(&self) -> E2eRunOptionsModel {
        E2eRunOptionsModel {
            config_path: self.config_path@,
            suite_path: self.suite_path@,
            graph_path: self.graph_path.deep_view(),
            ontology_path: self.ontology_path.deep_view(),
            questions_path: self.questions_path.deep_view(),
            case_id: self.case_id.deep_view(),
            report_path: self.report_path.deep_view(),
            prefix: self.prefix.deep_view(),
            cleanup_after: self.cleanup_after.deep_view(),
            keep_data: self.keep_data,
            include_embeddings_in_report: self.include_embeddings_in_report.deep_view(),
            llm_base_url: self.llm_base_url.deep_view(),
            llm_model: self.llm_model.deep_view(),
        }
    }
}

/// What the judge said of an answer.
#[derive(Debug, PartialEq)]
pub struct JudgeReport {
    pub passed: bool,
    pub reason: String,
}

pub struct JudgeReportModel {
    pub passed: bool,
    pub reason: Seq<char>,
}

impl DeepView for JudgeReport {
    type V = JudgeReportModel;

    open spec fn deep_view(&self) -> JudgeReportModel {
        JudgeReportModel {
            passed: self.passed,
            reason: self.reason@,
        }
    }
}

impl Copied for JudgeReport {
    fn copied(&self) -> (r: Self) {
        JudgeReport {
            passed: self.passed,
            reason: self.reason.clone(),
        }
    }
}

/// What came of one case.
#[derive(Debug, PartialEq)]
pub struct E2eCaseReport {
    pub id: String,
    pub question: String,
    pub passed: bool,
    pub errors: Vec<String>,
    pub dsl: Option<Json>,
    pub traversal: Option<Json>,
    pub cypher: Option<String>,
    pub cypher_params: Option<StrMap<Json>>,
    pub row_count: usize,
    pub rows: Vec<StrMap<Json>>,
    pub answer: Option<String>,
    pub judge: Option<JudgeReport>,
}

pub struct E2eCaseReportModel {
    pub id: Seq<char>,
    pub question: Seq<char>,
    pub passed: bool,
    pub errors: Seq<Seq<char>>,
    pub dsl: Option<JsonModel>,
    pub traversal: Option<JsonModel>,
    pub cypher: Option<Seq<char>>,
    pub cypher_params: Option<Seq<(Seq<char>, JsonModel)>>,
    pub row_count: usize,
    pub rows: Seq<Seq<(Seq<char>, JsonModel)>>,
    pub answer: Option<Seq<char>>,
    pub judge: Option<JudgeReportModel>,
}

impl DeepView for E2eCaseReport {
    type V = E2eCaseReportModel;

    open spec fn deep_view(&self) -> E2eCaseReportModel {
        E2eCaseReportModel {
            id: self.id@,
            question: self.question@,
            passed: self.passed,
            errors: self.errors.deep_view(),
            dsl: self.dsl.deep_view(),
            traversal: self.traversal.deep_view(),
            cypher: self.cypher.deep_view(),
            cypher_params: self.cypher_params.deep_view(),
            row_count: self.row_count,
            rows: self.rows.deep_view(),
            answer: self.answer.deep_view(),
            judge: self.judge.deep_view(),
        }
    }
}

/// What came of a suite.
#[derive(Debug, PartialEq)]
pub struct E2eReport {
    pub suite: String,
    pub prefix_label: String,
    pub prefix_index: String,
    pub graph_path: String,
    pub ontology_path: String,
    pub questions_path: String,
    pub total: usize,
    pub passed: usize,
    pub failed: usize,
    pub include_embeddings_in_report: bool,
    pub cases: Vec<E2eCaseReport>,
}

pub struct E2eReportModel {
    pub suite: Seq<char>,
    pub prefix_label: Seq<char>,
    pub prefix_index: Seq<char>,
    pub graph_path: Seq<char>,
    pub ontology_path: Seq<char>,
    pub questions_path: Seq<char>,
    pub total: usize,
    pub passed: usize,
    pub failed: usize,
    pub include_embeddings_in_report: bool,
    pub cases: Seq<E2eCaseReportModel>,
}

impl DeepView for E2eReport {
    type V = E2eReportModel;

    open spec fn deep_view(&self) -> E2eReportModel {
        E2eReportModel {
            suite: self.suite@,
            prefix_label: self.prefix_label@,
            prefix_index: self.prefix_index@,
            graph_path: self.graph_path@,
            ontology_path: self.ontology_path@,
            questions_path: self.questions_path@,
            total: self.total,
            passed: self.passed,
            failed: self.failed,
            include_embeddings_in_report: self.include_embeddings_in_report,
            cases: self.cases.deep_view(),
        }
    }
}

/// An index to have before data is loaded.
#[derive(Debug, PartialEq)]
pub struct IndexSpec {
    pub label: String,
    pub property: String,
}

pub struct IndexSpecModel {
    pub label: Seq<char>,
    pub property: Seq<char>,
}

impl DeepView for IndexSpec {
    type V = IndexSpecModel;

    open spec fn deep_view(&self) -> IndexSpecModel {
        IndexSpecModel {
            label: self.label@,
            property: self.property@,
        }
    }
}

impl Copied for IndexSpec {
    fn copied(&self) -> (r: Self) {
        IndexSpec {
            label: self.label.clone(),
            property: self.property.clone(),
        }
    }
}

/// How a suite runs unless its caller says otherwise.
#[derive(Debug, PartialEq)]
pub struct SuiteSettings {
    pub prefix: Option<String>,
    pub batch_size: usize,
    pub cleanup_before: bool,
    pub cleanup_after: bool,
    pub cleanup_vectors: bool,
    pub answer_with_llm: bool,
    pub judge_with_llm: bool,
    /// Put raw vectors into the report. They make it huge.
    pub include_embeddings_in_report: bool,
    pub max_repairs: usize,
    pub llm_base_url: Option<String>,
    pub llm_model: Option<String>,
    pub indexes: Vec<IndexSpec>,
}

pub struct SuiteSettingsModel {
    pub prefix: Option<Seq<char>>,
    pub batch_size: usize,
    pub cleanup_before: bool,
    pub cleanup_after: bool,
    pub cleanup_vectors: bool,
    pub answer_with_llm: bool,
    pub judge_with_llm: bool,
    pub include_embeddings_in_report: bool,
    pub max_repairs: usize,
    pub llm_base_url: Option<Seq<char>>,
    pub llm_model: Option<Seq<char>>,
    pub indexes: Seq<IndexSpecModel>,
}

impl DeepView for SuiteSettings {
    type V = SuiteSettingsModel;

    open spec fn deep_view(&self) -> SuiteSettingsModel {
        SuiteSettingsModel {
            prefix: self.prefix.deep_view(),
            batch_size: self.batch_size,
            cleanup_before: self.cleanup_before,
            cleanup_after: self.cleanup_after,
            cleanup_vectors: self.cleanup_vectors,
            answer_with_llm: self.answer_with_llm,
            judge_with_llm: self.judge_with_llm,
            include_embeddings_in_report: self.include_embeddings_in_report,
            max_repairs: self.max_repairs,
            llm_base_url: self.llm_base_url.deep_view(),
            llm_model: self.llm_model.deep_view(),
            indexes: self.indexes.deep_view(),
        }
    }
}

impl Copied for SuiteSettings {
    fn copied(&self) -> (r: Self) {
        SuiteSettings {
            prefix: self.prefix.copied(),
            batch_size: self.batch_size,
            cleanup_before: self.cleanup_before,
            cleanup_after: self.cleanup_after,
            cleanup_vectors: self.cleanup_vectors,
            answer_with_llm: self.answer_with_llm,
            judge_with_llm: self.judge_with_llm,
            include_embeddings_in_report: self.include_embeddings_in_report,
            max_repairs: self.max_repairs,
            llm_base_url: self.llm_base_url.copied(),
            llm_model: self.llm_model.copied(),
            indexes: self.indexes.copied(),
        }
    }
}

/// The settings of a suite that has none.
pub open spec fn default_settings() -> SuiteSettingsModel {
    SuiteSettingsModel {
        prefix: None,
        batch_size: 1000,
        cleanup_before: true,
        cleanup_after: false,
        cleanup_vectors: true,
        answer_with_llm: true,
        judge_with_llm: false,
        include_embeddings_in_report: false,
        max_repairs: 1,
        llm_base_url: None,
        llm_model: None,
        indexes: Seq::empty(),
    }
}

impl Default for SuiteSettings {
    fn default() -> (r: SuiteSettings)
        ensures
            r.deep_view() == default_settings(),
    {
        SuiteSettings {
            prefix: None,
            batch_size: 1000,
            cleanup_before: true,
            cleanup_after: false,
            cleanup_vectors: true,
            answer_with_llm: true,
            judge_with_llm: false,
            include_embeddings_in_report: false,
            max_repairs: 1,
            llm_base_url: None,
            llm_model: None,
            indexes: seqs::no_items(),
        }
    }
}

/// How many rows are expected.
#[derive(Debug, PartialEq)]
pub struct RowCountSpec {
    pub exact: Option<usize>,
    pub min: Option<usize>,
    pub max: Option<usize>,
}

pub struct RowCountSpecModel {
    pub exact: Option<usize>,
    pub min: Option<usize>,
    pub max: Option<usize>,
}

impl DeepView for RowCountSpec {
    type V = RowCountSpecModel;

    open spec fn deep_view(&self) -> RowCountSpecModel {
        RowCountSpecModel {
            exact: self.exact.deep_view(),
            min: self.min.deep_view(),
            max: self.max.deep_view(),
        }
    }
}

impl Copied for RowCountSpec {
    fn copied(&self) -> (r: Self) {
        RowCountSpec {
            exact: self.exact,
            min: self.min,
            max: self.max,
        }
    }
}

/// How a cell is held against an expected value.
#[derive(Debug, Clone, Copy, PartialEq, Eq, Structural)]
pub enum MatchMode {
    Exact,
    Contains,
}

impl DeepView for MatchMode {
    type V = MatchMode;

    open spec fn deep_view(&self) -> MatchMode {
        *self
    }
}

/// A value that some cell of a column should hold. The column `*` is any.
#[derive(Debug, PartialEq)]
pub struct CellExpectation {
    pub column: String,
    pub value: Json,
    pub mode: MatchMode,
}

pub struct CellExpectationModel {
    pub column: Seq<char>,
    pub value: JsonModel,
    pub mode: MatchMode,
}

impl DeepView for CellExpectation {
    type V = CellExpectationModel;

    open spec fn deep_view(&self) -> CellExpectationModel {
        CellExpectationModel {
            column: self.column@,
            value: self.value.deep_view(),
            mode: self.mode,
        }
    }
}

impl Copied for CellExpectation {
    fn copied(&self) -> (r: Self) {
        CellExpectation {
            column: self.column.clone(),
            value: self.value.copied(),
            mode: self.mode,
        }
    }
}

/// Fields that some row should have.
#[derive(Debug, PartialEq)]
pub struct ExpectedRow {
    pub fields: StrMap<Json>,
}

pub struct ExpectedRowModel {
    pub fields: Seq<(Seq<char>, JsonModel)>,
}

impl DeepView for ExpectedRow {
    type V = ExpectedRowModel;

    open spec fn deep_view(&self) -> ExpectedRowModel {
        ExpectedRowModel {
            fields: self.fields.deep_view(),
        }
    }
}

impl Copied for ExpectedRow {
    fn copied(&self) -> (r: Self) {
        ExpectedRow {
            fields: self.fields.copied(),
        }
    }
}

/// How a number is compared.
#[derive(Debug, Clone, Copy, PartialEq, Eq, Structural)]
pub enum NumericOp {
    Eq,
    Neq,
    Gt,
    Gte,
    Lt,
    Lte,
}

impl DeepView for NumericOp {
    type V = NumericOp;

    open spec fn deep_view(&self) -> NumericOp {
        *self
    }
}

/// A number that some cell of a column should compare to. The column `*` is any.
#[derive(Debug, PartialEq)]
pub struct NumericExpectation {
    pub column: String,
    pub op: NumericOp,
    /// The bits of the number.
    pub value: u64,
    /// The number as it is shown.
    pub shown: String,
}

pub struct NumericExpectationModel {
    pub column: Seq<char>,
    pub op: NumericOp,
    pub value: u64,
    pub shown: Seq<char>,
}

impl DeepView for NumericExpectation {
    type V = NumericExpectationModel;

    open spec fn deep_view(&self) -> NumericExpectationModel {
        NumericExpectationModel {
            column: self.column@,
            op: self.op,
            value: self.value,
            shown: self.shown@,
        }
    }
}

impl Copied for NumericExpectation {
    fn copied(&self) -> (r: Self) {
        NumericExpectation {
            column: self.column.clone(),
            op: self.op,
            value: self.value,
            shown: self.shown.clone(),
        }
    }
}

/// What the judge is told.
#[derive(Debug, PartialEq)]
pub struct JudgeSpec {
    pub expected: String,
    pub require_pass: bool,
}

pub struct JudgeSpecModel {
    pub expected: Seq<char>,
    pub require_pass: bool,
}

impl DeepView for JudgeSpec {
    type V = JudgeSpecModel;

    open spec fn deep_view(&self) -> JudgeSpecModel {
        JudgeSpecModel {
            expected: self.expected@,
            require_pass: self.require_pass,
        }
    }
}

impl Copied for JudgeSpec {
    fn copied(&self) -> (r: Self) {
        JudgeSpec {
            expected: self.expected.clone(),
            require_pass: self.require_pass,
        }
    }
}

/// What a structured query should look like.
#[derive(Debug, PartialEq)]
pub struct DslValidationSpec {
    pub start_label: Option<String>,
    pub start_alias: Option<String>,
    pub required_filter_fields: Vec<String>,
    pub required_filter_ops: Vec<String>,
    pub forbidden_filter_ops: Vec<String>,
    pub required_return_fields: Vec<String>,
    pub required_traversal_labels: Vec<String>,
    pub min_filters: Option<usize>,
    pub max_filters: Option<usize>,
    pub min_returns: Option<usize>,
    pub max_returns: Option<usize>,
}

pub struct DslValidationSpecModel {
    pub start_label: Option<Seq<char>>,
    pub start_alias: Option<Seq<char>>,
    pub required_filter_fields: Seq<Seq<char>>,
    pub required_filter_ops: Seq<Seq<char>>,
    pub forbidden_filter_ops: Seq<Seq<char>>,
    pub required_return_fields: Seq<Seq<char>>,
    pub required_traversal_labels: Seq<Seq<char>>,
    pub min_filters: Option<usize>,
    pub max_filters: Option<usize>,
    pub min_returns: Option<usize>,
    pub max_returns: Option<usize>,
}

impl DeepView for DslValidationSpec {
    type V = DslValidationSpecModel;

    open spec fn deep_view(&self) -> DslValidationSpecModel {
        DslValidationSpecModel {
            start_label: self.start_label.deep_view(),
            start_alias: self.start_alias.deep_view(),
            required_filter_fields: self.required_filter_fields.deep_view(),
            required_filter_ops: self.required_filter_ops.deep_view(),
            forbidden_filter_ops: self.forbidden_filter_ops.deep_view(),
            required_return_fields: self.required_return_fields.deep_view(),
            required_traversal_labels: self.required_traversal_labels.deep_view(),
            min_filters: self.min_filters.deep_view(),
            max_filters: self.max_filters.deep_view(),
            min_returns: self.min_returns.deep_view(),
            max_returns: self.max_returns.deep_view(),
        }
    }
}

impl Copied for DslValidationSpec {
    fn copied(&self) -> (r: Self) {
        DslValidationSpec {
            start_label: self.start_label.copied(),
            start_alias: self.start_alias.copied(),
            required_filter_fields: self.required_filter_fields.copied(),
            required_filter_ops: self.required_filter_ops.copied(),
            forbidden_filter_ops: self.forbidden_filter_ops.copied(),
            required_return_fields: self.required_return_fields.copied(),
            required_traversal_labels: self.required_traversal_labels.copied(),
            min_filters: self.min_filters,
            max_filters: self.max_filters,
            min_returns: self.min_returns,
            max_returns: self.max_returns,
        }
    }
}

impl Default for DslValidationSpec {
    fn default() -> (r: DslValidationSpec)
        ensures
            r.deep_view() == (DslValidationSpecModel {
                start_label: None,
                start_alias: None,
                required_filter_fields: Seq::empty(),
                required_filter_ops: Seq::empty(),
                forbidden_filter_ops: Seq::empty(),
                required_return_fields: Seq::empty(),
                required_traversal_labels: Seq::empty(),
                min_filters: None,
                max_filters: None,
                min_returns: None,
                max_returns: None,
            }),
    {
        DslValidationSpec {
            start_label: None,
            start_alias: None,
            required_filter_fields: seqs::no_items(),
            required_filter_ops: seqs::no_items(),
            forbidden_filter_ops: seqs::no_items(),
            required_return_fields: seqs::no_items(),
            required_traversal_labels: seqs::no_items(),
            min_filters: None,
            max_filters: None,
            min_returns: None,
            max_returns: None,
        }
    }
}

/// What the answer to a case should look like.
#[derive(Debug, PartialEq)]
pub struct ValidationSpec {
    pub row_count: Option<RowCountSpec>,
    pub rows: Vec<ExpectedRow>,
    pub columns: Vec<String>,
    pub contains: Vec<CellExpectation>,
    pub not_contains: Vec<CellExpectation>,
    pub numbers: Vec<NumericExpectation>,
    pub answer_contains: Vec<String>,
    pub dsl_expect: Option<DslValidationSpec>,
    pub judge: Option<JudgeSpec>,
}

pub struct ValidationSpecModel {
    pub row_count: Option<RowCountSpecModel>,
    pub rows: Seq<ExpectedRowModel>,
    pub columns: Seq<Seq<char>>,
    pub contains: Seq<CellExpectationModel>,
    pub not_contains: Seq<CellExpectationModel>,
    pub numbers: Seq<NumericExpectationModel>,
    pub answer_contains: Seq<Seq<char>>,
    pub dsl_expect: Option<DslValidationSpecModel>,
    pub judge: Option<JudgeSpecModel>,
}

impl DeepView for ValidationSpec {
    type V = ValidationSpecModel;

    open spec fn deep_view(&self) -> ValidationSpecModel {
        ValidationSpecModel {
            row_count: self.row_count.deep_view(),
            rows: self.rows.deep_view(),
            columns: self.columns.deep_view(),
            contains: self.contains.deep_view(),
            not_contains: self.not_contains.deep_view(),
            numbers: self.numbers.deep_view(),
            answer_contains: self.answer_contains.deep_view(),
            dsl_expect: self.dsl_expect.deep_view(),
            judge: self.judge.deep_view(),
        }
    }
}

impl Copied for ValidationSpec {
    fn copied(&self) -> (r: Self) {
        ValidationSpec {
            row_count: self.row_count.copied(),
            rows: self.rows.copied(),
            columns: self.columns.copied(),
            contains: self.contains.copied(),
            not_contains: self.not_contains.copied(),
            numbers: self.numbers.copied(),
            answer_contains: self.answer_contains.copied(),
            dsl_expect: self.dsl_expect.copied(),
            judge: self.judge.copied(),
        }
    }
}

impl Default for ValidationSpec {
    fn default() -> (r: ValidationSpec)
        ensures
            r.deep_view() == (ValidationSpecModel {
                row_count: None,
                rows: Seq::empty(),
                columns: Seq::empty(),
                contains: Seq::empty(),
                not_contains: Seq::empty(),
                numbers: Seq::empty(),
                answer_contains: Seq::empty(),
                dsl_expect: None,
                judge: None,
            }),
    {
        ValidationSpec {
            row_count: None,
            rows: seqs::no_items(),
            columns: seqs::no_items(),
            contains: seqs::no_items(),
            not_contains: seqs::no_items(),
            numbers: seqs::no_items(),
            answer_contains: seqs::no_items(),
            dsl_expect: None,
            judge: None,
        }
    }
}

/// A search for text that starts from named entities.
#[derive(Debug, PartialEq)]
pub struct TraversalQuery {
    /// What the text should be about.
    pub goal: String,
    /// The names of the entities to start from.
    pub entities: Vec<String>,
    pub limit: Option<usize>,
    pub prefix_label: Option<String>,
    pub prefix_index: Option<String>,
}

pub struct TraversalQueryModel {
    pub goal: Seq<char>,
    pub entities: Seq<Seq<char>>,
    pub limit: Option<usize>,
    pub prefix_label: Option<Seq<char>>,
    pub prefix_index: Option<Seq<char>>,
}

impl DeepView for TraversalQuery {
    type V = TraversalQueryModel;

    open spec fn deep_view(&self) -> TraversalQueryModel {
        TraversalQueryModel {
            goal: self.goal@,
            entities: self.entities.deep_view(),
            limit: self.limit.deep_view(),
            prefix_label: self.prefix_label.deep_view(),
            prefix_index: self.prefix_index.deep_view(),
        }
    }
}

impl Copied for TraversalQuery {
    fn copied(&self) -> (r: Self) {
        TraversalQuery {
            goal: self.goal.clone(),
            entities: self.entities.copied(),
            limit: self.limit,
            prefix_label: self.prefix_label.copied(),
            prefix_index: self.prefix_index.copied(),
        }
    }
}

/// One case of a suite.
#[derive(Debug, PartialEq)]
pub struct QuestionCase {
    pub id: String,
    pub question: String,
    /// A fixed query. Without one it is made from the question.
    pub dsl: Option<Json>,
    /// A search for text in place of a query.
    pub traversal: Option<TraversalQuery>,
    pub validation: ValidationSpec,
}

pub struct QuestionCaseModel {
    pub id: Seq<char>,
    pub question: Seq<char>,
    pub dsl: Option<JsonModel>,
    pub traversal: Option<TraversalQueryModel>,
    pub validation: ValidationSpecModel,
}

impl DeepView for QuestionCase {
    type V = QuestionCaseModel;

    open spec fn deep_view(&self) -> QuestionCaseModel {
        QuestionCaseModel {
            id: self.id@,
            question: self.question@,
            dsl: self.dsl.deep_view(),
            traversal: self.traversal.deep_view(),
            validation: self.validation.deep_view(),
        }
    }
}

impl Copied for QuestionCase {
    fn copied(&self) -> (r: Self) {
        QuestionCase {
            id: self.id.clone(),
            question: self.question.clone(),
            dsl: self.dsl.copied(),
            traversal: self.traversal.copied(),
            validation: self.validation.copied(),
        }
    }
}

/// A report is a success when no case failed.
pub open spec fn succeeded(r: E2eReportModel) -> bool {
    r.failed == 0
}

impl E2eReport {
    /// Did every case pass?
    pub fn is_success(&self) -> (r: bool)
        ensures
            r == succeeded(self.deep_view()),
    {
        self.failed == 0
    }
}

} // verus!
