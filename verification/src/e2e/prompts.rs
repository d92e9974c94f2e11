//! What the language model is asked during a run, and how its replies are read.

use vstd::prelude::*;
use crate::dsl;
use crate::dsl::DslQuery;
use crate::e2e::types::JudgeReport;
use crate::e2e::types::JudgeReportModel;
use crate::e2e::types::JudgeSpec;
use crate::e2e::types::JudgeSpecModel;
use crate::e2e::types::TraversalQuery;
use crate::e2e::types::TraversalQueryModel;
use crate::json;
use crate::json::Json;
use crate::json::JsonModel;
use crate::seqs;
use crate::seqs::Copied;
use crate::strmap;
use crate::strmap::StrMap;
use crate::text;

verus! {

broadcast use vstd::string::group_string_axioms;

/// A request to the language model.
#[derive(Debug, PartialEq)]
pub struct PromptRequest {
    pub system: String,
    pub user: Json,
}

pub struct PromptRequestModel {
    pub system: Seq<char>,
    pub user: JsonModel,
}

impl DeepView for PromptRequest {
    type V = PromptRequestModel;

    open spec fn deep_view(&self) -> PromptRequestModel {
        PromptRequestModel { system: self.system@, user: self.user.deep_view() }
    }
}

pub const SYNTHESIS_SYSTEM: &'static str =
    "Answer the user's question using only the supplied graph query rows. Be concise. If the rows are empty, say that the data does not contain the answer.";

pub const JUDGE_SYSTEM: &'static str =
    "You are a strict E2E test judge. Decide whether the answer is fully supported by the provided rows and satisfies the expected answer. Return only JSON: {\"passed\": boolean, \"reason\": string}.";

pub type RowsModel = Seq<Seq<(Seq<char>, JsonModel)>>;

/// Rows as one JSON value.
pub open spec fn rows_value(rows: RowsModel) -> JsonModel {
    JsonModel::Array(Seq::new(rows.len(), |i: int| JsonModel::Object(rows[i])))
}

fn rows_to_value(rows: &Vec<StrMap<Json>>) -> (r: Json)
    ensures
        r.deep_view() == rows_value(rows.deep_view()),
{
    let ghost want = rows_value(rows.deep_view())->Array_0;
    let mut out: Vec<Json> = seqs::no_items();
    let mut i: usize = 0;
    while i < rows.len()
        invariant
            JsonModel::Array(want) == rows_value(rows.deep_view()),
            want.len() == rows@.len(),
            0 <= i <= rows@.len(),
            out.deep_view() == want.take(i as int),
        decreases rows@.len() - i,
    {
        let row = rows[i].copied();
        proof {
            assert(rows.deep_view()[i as int] == rows@[i as int].deep_view());
            json::json_object_model(row);
        }
        seqs::push_item(&mut out, Json::Object(row));
        i += 1;
        assert(out.deep_view() =~= want.take(i as int));
    }
    assert(out.deep_view() =~= want);
    proof {
        json::json_array_model(out);
    }
    Json::Array(out)
}

pub open spec fn no_fields() -> Seq<(Seq<char>, JsonModel)> {
    Seq::empty()
}

/// The request for an answer in words.
pub open spec fn synthesis(question: Seq<char>, summary: Seq<char>, rows: RowsModel) ->
    PromptRequestModel {
    let fields = strmap::assoc_insert(no_fields(), "question"@, JsonModel::Str(question));
    let fields = strmap::assoc_insert(fields, "query_summary"@, JsonModel::Str(summary));
    let fields = strmap::assoc_insert(fields, "rows"@, rows_value(rows));
    PromptRequestModel { system: SYNTHESIS_SYSTEM@, user: JsonModel::Object(fields) }
}

/// The request for an answer in words.
pub fn synthesis_request(question: &str, summary: &str, rows: &Vec<StrMap<Json>>) -> (r:
    PromptRequest)
    ensures
        r.deep_view() == synthesis(question@, summary@, rows.deep_view()),
{
    let mut m: StrMap<Json> = StrMap::new();
    m.insert("question".to_owned(), Json::Str(question.to_owned()));
    m.insert("query_summary".to_owned(), Json::Str(summary.to_owned()));
    m.insert("rows".to_owned(), rows_to_value(rows));
    proof {
        json::json_object_model(m);
    }
    PromptRequest { system: SYNTHESIS_SYSTEM.to_owned(), user: Json::Object(m) }
}

/// The request for a judgement.
pub open spec fn judgement(
    question: Seq<char>,
    answer: Option<Seq<char>>,
    rows: RowsModel,
    spec: JudgeSpecModel,
) -> PromptRequestModel {
    let said = match answer {
        Some(a) => a,
        None => Seq::empty(),
    };
    let fields = strmap::assoc_insert(no_fields(), "question"@, JsonModel::Str(question));
    let fields = strmap::assoc_insert(fields, "expected"@, JsonModel::Str(spec.expected));
    let fields = strmap::assoc_insert(fields, "answer"@, JsonModel::Str(said));
    let fields = strmap::assoc_insert(fields, "rows"@, rows_value(rows));
    PromptRequestModel { system: JUDGE_SYSTEM@, user: JsonModel::Object(fields) }
}

/// The request for a judgement.
pub fn judge_request(
    question: &str,
    answer: Option<&str>,
    rows: &Vec<StrMap<Json>>,
    spec: &JudgeSpec,
) -> (r: PromptRequest)
    ensures
        r.deep_view() == judgement(
            question@,
            answer.deep_view(),
            rows.deep_view(),
            spec.deep_view(),
        ),
{
    let said = match answer {
        Some(a) => a.to_owned(),
        None => String::new(),
    };
    let mut m: StrMap<Json> = StrMap::new();
    m.insert("question".to_owned(), Json::Str(question.to_owned()));
    m.insert("expected".to_owned(), Json::Str(spec.expected.clone()));
    m.insert("answer".to_owned(), Json::Str(said));
    m.insert("rows".to_owned(), rows_to_value(rows));
    proof {
        json::json_object_model(m);
    }
    PromptRequest { system: JUDGE_SYSTEM.to_owned(), user: Json::Object(m) }
}

/// A field of a JSON object; nothing else has fields.
pub open spec fn field_of(value: JsonModel, name: Seq<char>) -> Option<JsonModel> {
    match value {
        JsonModel::Object(fields) => strmap::assoc_get(fields, name),
        _ => None,
    }
}

/// What a judgement says. Without a truth value it has not passed.
pub open spec fn verdict_of(value: JsonModel) -> JudgeReportModel {
    JudgeReportModel {
        passed: match field_of(value, "passed"@) {
            Some(JsonModel::Bool(b)) => b,
            _ => false,
        },
        reason: match field_of(value, "reason"@) {
            Some(JsonModel::Str(s)) => s,
            _ => Seq::empty(),
        },
    }
}

/// What a judgement says.
pub fn judge_verdict(value: &Json) -> (r: JudgeReport)
    ensures
        r.deep_view() == verdict_of(value.deep_view()),
{
    match value {
        Json::Object(fields) => {
            proof {
                json::json_object_model(*fields);
            }
            let passed = match fields.get("passed") {
                Some(Json::Bool(b)) => *b,
                _ => false,
            };
            let reason = match fields.get("reason") {
                Some(Json::Str(s)) => s.clone(),
                _ => String::new(),
            };
            JudgeReport { passed, reason }
        },
        _ => JudgeReport { passed: false, reason: String::new() },
    }
}

/// Texts with a comma between them.
pub open spec fn listed(items: Seq<Seq<char>>) -> Seq<char>
    decreases items.len(),
{
    if items.len() == 0 {
        Seq::empty()
    } else if items.len() == 1 {
        items[0]
    } else {
        listed(items.drop_last()) + ", "@ + items.last()
    }
}

fn list_texts(items: &Vec<String>) -> (r: String)
    ensures
        r@ == listed(items.deep_view()),
{
    let ghost all = items.deep_view();
    let mut out = String::new();
    let mut i: usize = 0;
    while i < items.len()
        invariant
            all == items.deep_view(),
            0 <= i <= items@.len(),
            out@ == listed(all.take(i as int)),
        decreases items@.len() - i,
    {
        if i > 0 {
            out.append(", ");
        }
        out.append(items[i].as_str());
        proof {
            let next = all.take(i + 1);
            assert(next.drop_last() =~= all.take(i as int));
            assert(next.last() == items@[i as int]@);
            assert(out@ =~= listed(next));
        }
        i += 1;
    }
    assert(all.take(i as int) =~= all);
    out
}

/// A limit as it is shown.
pub open spec fn limit_text(limit: Option<usize>) -> Seq<char> {
    match limit {
        Some(n) => "Some("@ + text::nat_text(n as nat) + ")"@,
        None => "None"@,
    }
}

/// What a search for text is about, in words.
pub open spec fn traversal_text(t: TraversalQueryModel) -> Seq<char> {
    let entities = if t.entities.len() == 0 {
        "none"@
    } else {
        listed(t.entities)
    };
    "Retrieving text chunks for goal: "@ + t.goal + "; entities: "@ + entities + "; limit: "@
        + limit_text(t.limit) + "."@
}

/// What a search for text is about, in words.
pub fn traversal_summary(t: &TraversalQuery) -> (r: String)
    ensures
        r@ == traversal_text(t.deep_view()),
{
    let mut s = "Retrieving text chunks for goal: ".to_owned();
    s.append(t.goal.as_str());
    s.append("; entities: ");
    assert(t.entities.deep_view().len() == t.entities@.len());
    if t.entities.len() == 0 {
        s.append("none");
    } else {
        s.append(list_texts(&t.entities).as_str());
    }
    s.append("; limit: ");
    let limit = match t.limit {
        Some(n) => {
            let mut l = "Some(".to_owned();
            l.append(text::usize_text(n).as_str());
            l.append(")");
            l
        },
        None => "None".to_owned(),
    };
    s.append(limit.as_str());
    s.append(".");
    s
}

/// The search under a prefix.
pub open spec fn prefixed_traversal(t: TraversalQueryModel, prefix: Seq<char>) ->
    TraversalQueryModel {
    TraversalQueryModel { prefix_label: Some(prefix), prefix_index: Some(prefix), ..t }
}

/// Put a query under a prefix.
pub fn force_prefix(q: &mut DslQuery, prefix: &str)
    ensures
        final(q).deep_view() == dsl::prefixed_query(
            old(q).deep_view(),
            Some(prefix@),
            Some(prefix@),
        ),
{
    q.prefix_label = Some(prefix.to_owned());
    q.prefix_index = Some(prefix.to_owned());
}

/// Put a search under a prefix.
pub fn force_traversal_prefix(t: &mut TraversalQuery, prefix: &str)
    ensures
        final(t).deep_view() == prefixed_traversal(old(t).deep_view(), prefix@),
{
    t.prefix_label = Some(prefix.to_owned());
    t.prefix_index = Some(prefix.to_owned());
}

/// An attempt at a query that was not valid.
#[derive(Debug, PartialEq)]
pub struct Attempt {
    pub output: String,
    pub error: String,
}

pub struct AttemptModel {
    pub output: Seq<char>,
    pub error: Seq<char>,
}

impl DeepView for Attempt {
    type V = AttemptModel;

    open spec fn deep_view(&self) -> AttemptModel {
        AttemptModel { output: self.output@, error: self.error@ }
    }
}

/// What comes after the attempts so far.
#[derive(Debug, PartialEq)]
pub enum RepairStep {
    /// Ask the language model this.
    Ask(String),
    /// Give up, for this reason.
    Fail(String),
}

pub enum RepairStepModel {
    Ask(Seq<char>),
    Fail(Seq<char>),
}

impl DeepView for RepairStep {
    type V = RepairStepModel;

    open spec fn deep_view(&self) -> RepairStepModel {
        match self {
            RepairStep::Ask(s) => RepairStepModel::Ask(s@),
            RepairStep::Fail(s) => RepairStepModel::Fail(s@),
        }
    }
}

/// What comes after the attempts so far: first the question, then repairs as long
/// as there are any left.
pub open spec fn next_attempt(
    question: Seq<char>,
    max_repairs: nat,
    attempts: Seq<AttemptModel>,
) -> RepairStepModel {
    if attempts.len() == 0 {
        RepairStepModel::Ask(
            "Question:\n"@ + question
                + "\n\nReturn only one JSON DSL object. Do not wrap it in Markdown."@,
        )
    } else if attempts.len() <= max_repairs {
        RepairStepModel::Ask(
            "Repair the JSON DSL for this question.\n\nQuestion:\n"@ + question
                + "\n\nPrevious output:\n"@ + attempts.last().output + "\n\nValidation error:\n"@
                + attempts.last().error + "\n\nReturn only the corrected JSON object."@,
        )
    } else {
        RepairStepModel::Fail(
            "could not produce valid DSL: "@ + attempts.last().error + "; last output: "@
                + attempts.last().output,
        )
    }
}

/// The model is asked once, and once more for each repair.
pub proof fn law_repairs_are_bounded(
    question: Seq<char>,
    max_repairs: nat,
    attempts: Seq<AttemptModel>,
)
    ensures
        next_attempt(question, max_repairs, attempts) is Ask <==> attempts.len() < max_repairs + 1,
{
}

/// What comes after the attempts so far.
pub fn repair_step(question: &str, max_repairs: usize, attempts: &Vec<Attempt>) -> (r: RepairStep)
    ensures
        r.deep_view() == next_attempt(question@, max_repairs as nat, attempts.deep_view()),
{
    let n = attempts.len();
    assert(attempts.deep_view().len() == n);
    if n == 0 {
        let mut s = "Question:\n".to_owned();
        s.append(question);
        s.append("\n\nReturn only one JSON DSL object. Do not wrap it in Markdown.");
        return RepairStep::Ask(s);
    }
    let last = &attempts[n - 1];
    assert(attempts.deep_view().last() == last.deep_view());
    if n <= max_repairs {
        let mut s = "Repair the JSON DSL for this question.\n\nQuestion:\n".to_owned();
        s.append(question);
        s.append("\n\nPrevious output:\n");
        s.append(last.output.as_str());
        s.append("\n\nValidation error:\n");
        s.append(last.error.as_str());
        s.append("\n\nReturn only the corrected JSON object.");
        RepairStep::Ask(s)
    } else {
        let mut s = "could not produce valid DSL: ".to_owned();
        s.append(last.error.as_str());
        s.append("; last output: ");
        s.append(last.output.as_str());
        RepairStep::Fail(s)
    }
}

/// The request for an answer holds the question, the summary and the rows, each under its name.
pub proof fn law_answers_are_asked_of_the_rows(
    question: Seq<char>,
    summary: Seq<char>,
    rows: RowsModel,
)
    ensures
        ({
            let user = synthesis(question, summary, rows).user;
            &&& field_of(user, "question"@) == Some(JsonModel::Str(question))
            &&& field_of(user, "query_summary"@) == Some(JsonModel::Str(summary))
            &&& match field_of(user, "rows"@) {
                Some(JsonModel::Array(items)) => items.len() == rows.len() && forall|i: int|
                    0 <= i < items.len() ==> #[trigger] items[i] == JsonModel::Object(rows[i]),
                _ => false,
            }
        }),
{
    reveal_strlit("question");
    reveal_strlit("query_summary");
    reveal_strlit("rows");
    assert("question"@.len() == 8 && "query_summary"@.len() == 13 && "rows"@.len() == 4);
    let q = JsonModel::Str(question);
    let s = JsonModel::Str(summary);
    let r = rows_value(rows);
    let a = strmap::assoc_insert(no_fields(), "question"@, q);
    let b = strmap::assoc_insert(a, "query_summary"@, s);
    strmap::law_get_after_insert(no_fields(), "question"@, q);
    strmap::law_get_after_insert(a, "query_summary"@, s);
    strmap::law_get_after_insert(b, "rows"@, r);
    strmap::law_get_other_after_insert(a, "query_summary"@, s, "question"@);
    strmap::law_get_other_after_insert(b, "rows"@, r, "question"@);
    strmap::law_get_other_after_insert(b, "rows"@, r, "query_summary"@);
}

/// The request for a judgement holds the question, what is expected, the answer, and the rows,
/// each under its name; an answer that is not there is empty.
pub proof fn law_judges_see_the_answer(
    question: Seq<char>,
    answer: Option<Seq<char>>,
    rows: RowsModel,
    spec: JudgeSpecModel,
)
    ensures
        ({
            let user = judgement(question, answer, rows, spec).user;
            &&& field_of(user, "question"@) == Some(JsonModel::Str(question))
            &&& field_of(user, "expected"@) == Some(JsonModel::Str(spec.expected))
            &&& match field_of(user, "answer"@) {
                Some(JsonModel::Str(s)) => (answer is Some ==> s == answer->0) && (answer is None
                    ==> s.len() == 0),
                _ => false,
            }
            &&& field_of(user, "rows"@) == Some(rows_value(rows))
        }),
{
    reveal_strlit("question");
    reveal_strlit("expected");
    reveal_strlit("answer");
    reveal_strlit("rows");
    assert("question"@.len() == 8 && "expected"@.len() == 8 && "answer"@.len() == 6 && "rows"@.len()
        == 4);
    assert("question"@[0] == 'q' && "expected"@[0] == 'e');
    let said = match answer {
        Some(a) => a,
        None => Seq::empty(),
    };
    let q = JsonModel::Str(question);
    let x = JsonModel::Str(spec.expected);
    let y = JsonModel::Str(said);
    let r = rows_value(rows);
    let a = strmap::assoc_insert(no_fields(), "question"@, q);
    let b = strmap::assoc_insert(a, "expected"@, x);
    let c = strmap::assoc_insert(b, "answer"@, y);
    strmap::law_get_after_insert(no_fields(), "question"@, q);
    strmap::law_get_after_insert(a, "expected"@, x);
    strmap::law_get_after_insert(b, "answer"@, y);
    strmap::law_get_after_insert(c, "rows"@, r);
    strmap::law_get_other_after_insert(a, "expected"@, x, "question"@);
    strmap::law_get_other_after_insert(b, "answer"@, y, "question"@);
    strmap::law_get_other_after_insert(b, "answer"@, y, "expected"@);
    strmap::law_get_other_after_insert(c, "rows"@, r, "question"@);
    strmap::law_get_other_after_insert(c, "rows"@, r, "expected"@);
    strmap::law_get_other_after_insert(c, "rows"@, r, "answer"@);
}

/// A judgement passes only where it says so.
pub proof fn law_verdicts_pass_when_they_say_so(value: JsonModel)
    ensures
        verdict_of(value).passed <==> value is Object && strmap::assoc_get(
            value->Object_0,
            "passed"@,
        ) == Some(JsonModel::Bool(true)),
{
}

/// A repair is asked with the question, with the last output and with what was wrong with it.
pub proof fn law_repairs_show_the_last_attempt(
    question: Seq<char>,
    max_repairs: nat,
    attempts: Seq<AttemptModel>,
)
    requires
        attempts.len() > 0,
    ensures
        ({
            let said = match next_attempt(question, max_repairs, attempts) {
                RepairStepModel::Ask(s) => s,
                RepairStepModel::Fail(s) => s,
            };
            &&& text::has_substring(said, attempts.last().output)
            &&& text::has_substring(said, attempts.last().error)
            &&& next_attempt(question, max_repairs, attempts) is Ask ==> text::has_substring(
                said,
                question,
            )
        }),
{
    let out = attempts.last().output;
    let err = attempts.last().error;
    if attempts.len() <= max_repairs {
        let h = "Repair the JSON DSL for this question.\n\nQuestion:\n"@;
        let m = "\n\nPrevious output:\n"@;
        let n = "\n\nValidation error:\n"@;
        let t = "\n\nReturn only the corrected JSON object."@;
        let s = h + question + m + out + n + err + t;
        let x = h.len() as int;
        let y = (h + question + m).len() as int;
        let z = (h + question + m + out + n).len() as int;
        assert(s.subrange(x, x + question.len()) =~= question);
        assert(s.subrange(y, y + out.len()) =~= out);
        assert(s.subrange(z, z + err.len()) =~= err);
        assert(text::occurs_at(s, question, x));
        assert(text::occurs_at(s, out, y));
        assert(text::occurs_at(s, err, z));
    } else {
        let h = "could not produce valid DSL: "@;
        let m = "; last output: "@;
        let s = h + err + m + out;
        let x = h.len() as int;
        let y = (h + err + m).len() as int;
        assert(s.subrange(x, x + err.len()) =~= err);
        assert(s.subrange(y, y + out.len()) =~= out);
        assert(text::occurs_at(s, err, x));
        assert(text::occurs_at(s, out, y));
    }
}

/// What was searched for is told: the goal, every entity, and the limit.
pub proof fn law_searches_are_told(t: TraversalQueryModel)
    ensures
        text::has_prefix(
            traversal_text(t),
            "Retrieving text chunks for goal: "@ + t.goal + "; entities: "@,
        ),
        t.entities.len() == 0 ==> text::has_substring(traversal_text(t), "entities: none"@),
        t.entities.len() == 1 ==> text::has_substring(traversal_text(t), t.entities[0]),
        text::has_suffix(traversal_text(t), "; limit: "@ + limit_text(t.limit) + "."@),
{
    let whole = traversal_text(t);
    let head = "Retrieving text chunks for goal: "@ + t.goal + "; entities: "@;
    assert(whole.subrange(0, head.len() as int) =~= head);
    let tail = "; limit: "@ + limit_text(t.limit) + "."@;
    assert(whole.subrange(whole.len() - tail.len(), whole.len() as int) =~= tail);
    if t.entities.len() == 0 {
        reveal_strlit("; entities: ");
        reveal_strlit("none");
        reveal_strlit("entities: none");
        let at = "Retrieving text chunks for goal: "@.len() + t.goal.len() + 2int;
        let x = "entities: none"@;
        assert(whole.subrange(at, at + x.len()) =~= x);
        assert(text::occurs_at(whole, x, at));
    }
    if t.entities.len() == 1 {
        let at = head.len() as int;
        let x = t.entities[0];
        assert(whole.subrange(at, at + x.len()) =~= x);
        assert(text::occurs_at(whole, x, at));
    }
}

} // verus!
