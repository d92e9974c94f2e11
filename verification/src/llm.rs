//! Language-model clients: what is sent, what an answer is, and a client that
//! replays canned answers.

use vstd::prelude::*;
use crate::json;
use crate::json::Float;
use crate::json::FloatModel;
use crate::json::Json;
use crate::json::JsonModel;
use crate::json::JsonNumber;
use crate::json::NumberModel;
use crate::seqs;
use crate::strmap;
use crate::strmap::StrMap;
use crate::text;

verus! {

broadcast use vstd::string::group_string_axioms;

/// Why there is no completion.
#[derive(Debug, PartialEq)]
pub enum LlmError {
    Http(String),
    Api { status: u16, message: String },
    Decode(String),
    MissingApiKey(String),
    EmptyResponse,
}

pub enum LlmErrorModel {
    Http(Seq<char>),
    Api { status: u16, message: Seq<char> },
    Decode(Seq<char>),
    MissingApiKey(Seq<char>),
    EmptyResponse,
}

impl DeepView for LlmError {
    type V = LlmErrorModel;

    open spec fn deep_view(&self) -> LlmErrorModel {
        match self {
            LlmError::Http(x) => LlmErrorModel::Http(x@),
            LlmError::Api { status, message } => LlmErrorModel::Api {
                status: *status,
                message: message@,
            },
            LlmError::Decode(x) => LlmErrorModel::Decode(x@),
            LlmError::MissingApiKey(x) => LlmErrorModel::MissingApiKey(x@),
            LlmError::EmptyResponse => LlmErrorModel::EmptyResponse,
        }
    }
}

/// The text of a language-model error.
pub open spec fn llm_error_text(e: LlmErrorModel) -> Seq<char> {
    match e {
        LlmErrorModel::Http(m) => "LLM transport error: "@ + m,
        LlmErrorModel::Api { status, message } => "LLM API error (status "@ + text::nat_text(
            status as nat,
        ) + "): "@ + message,
        LlmErrorModel::Decode(m) => "failed to decode LLM response: "@ + m,
        LlmErrorModel::MissingApiKey(m) => "missing API key: environment variable `"@ + m
            + "` is not set"@,
        LlmErrorModel::EmptyResponse => "LLM returned an empty completion"@,
    }
}

impl LlmError {
    /// The text of the error.
    pub fn message(&self) -> (r: String)
        ensures
            r@ == llm_error_text(self.deep_view()),
    {
        match self {
            LlmError::Http(m) => {
                let mut s = "LLM transport error: ".to_owned();
                s.append(m.as_str());
                s
            },
            LlmError::Api { status, message } => {
                let mut s = "LLM API error (status ".to_owned();
                s.append(text::u64_text(*status as u64).as_str());
                s.append("): ");
                s.append(message.as_str());
                s
            },
            LlmError::Decode(m) => {
                let mut s = "failed to decode LLM response: ".to_owned();
                s.append(m.as_str());
                s
            },
            LlmError::MissingApiKey(m) => {
                let mut s = "missing API key: environment variable `".to_owned();
                s.append(m.as_str());
                s.append("` is not set");
                s
            },
            LlmError::EmptyResponse => "LLM returned an empty completion".to_owned(),
        }
    }
}

/// What a completion gave.
pub open spec fn completion_model(r: Result<String, LlmError>) -> Result<Seq<char>, LlmErrorModel> {
    match r {
        Ok(s) => Ok(s@),
        Err(e) => Err(e.deep_view()),
    }
}

/// A client that replays answers in order, the last one again and again, and
/// keeps what it was asked.
#[derive(Debug, PartialEq)]
pub struct MockLlmClient {
    pub responses: Vec<String>,
    pub last: Option<String>,
    pub calls: Vec<(String, String)>,
}

pub struct MockLlmClientModel {
    pub responses: Seq<Seq<char>>,
    pub last: Option<Seq<char>>,
    pub calls: Seq<(Seq<char>, Seq<char>)>,
}

impl DeepView for MockLlmClient {
    type V = MockLlmClientModel;

    open spec fn deep_view(&self) -> MockLlmClientModel {
        MockLlmClientModel {
            responses: self.responses.deep_view(),
            last: self.last.deep_view(),
            calls: self.calls.deep_view(),
        }
    }
}

/// The answer to the next call.
pub open spec fn next_answer(m: MockLlmClientModel) -> Result<Seq<char>, LlmErrorModel> {
    if m.responses.len() > 0 {
        Ok(m.responses[0])
    } else {
        match m.last {
            Some(s) => Ok(s),
            None => Err(LlmErrorModel::EmptyResponse),
        }
    }
}

/// The client after a call.
pub open spec fn after_call(m: MockLlmClientModel, system: Seq<char>, user: Seq<char>) ->
    MockLlmClientModel {
    MockLlmClientModel {
        responses: if m.responses.len() > 0 {
            m.responses.drop_first()
        } else {
            m.responses
        },
        last: if m.responses.len() > 0 {
            Some(m.responses[0])
        } else {
            m.last
        },
        calls: m.calls.push((system, user)),
    }
}

/// The client after all of the calls.
pub open spec fn after_calls(m: MockLlmClientModel, calls: Seq<(Seq<char>, Seq<char>)>) ->
    MockLlmClientModel
    decreases calls.len(),
{
    if calls.len() == 0 {
        m
    } else {
        after_call(after_calls(m, calls.drop_last()), calls.last().0, calls.last().1)
    }
}

/// A client that was made from answers gives them in order and then repeats the
/// last one; without answers every call fails.
pub proof fn law_answers_in_order_then_last(
    answers: Seq<Seq<char>>,
    calls: Seq<(Seq<char>, Seq<char>)>,
)
    ensures
        ({
            let fresh = MockLlmClientModel { responses: answers, last: None, calls: Seq::empty() };
            let m = after_calls(fresh, calls);
            &&& m.calls == calls
            &&& next_answer(m) == (if answers.len() == 0 {
                Err(LlmErrorModel::EmptyResponse)
            } else if calls.len() < answers.len() {
                Ok(answers[calls.len() as int])
            } else {
                Ok(answers.last())
            })
        }),
{
    let fresh = MockLlmClientModel { responses: answers, last: None, calls: Seq::empty() };
    calls_consume(fresh, calls);
    assert(after_calls(fresh, calls).calls =~= calls);
}

proof fn calls_consume(m: MockLlmClientModel, calls: Seq<(Seq<char>, Seq<char>)>)
    requires
        m.last is None,
    ensures
        ({
            let n = after_calls(m, calls);
            let k = calls.len();
            &&& n.calls == m.calls + calls
            &&& k <= m.responses.len() ==> n.responses == m.responses.skip(k as int)
            &&& k > m.responses.len() ==> n.responses.len() == 0
            &&& k == 0 || m.responses.len() == 0 ==> n.last is None
            &&& 0 < k <= m.responses.len() ==> n.last == Some(m.responses[k - 1])
            &&& k > m.responses.len() > 0 ==> n.last == Some(m.responses.last())
        }),
    decreases calls.len(),
{
    if calls.len() == 0 {
        assert(m.calls + calls =~= m.calls);
        assert(m.responses.skip(0) =~= m.responses);
    } else {
        calls_consume(m, calls.drop_last());
        let before = after_calls(m, calls.drop_last());
        let k = calls.len();
        assert(before.calls.push((calls.last().0, calls.last().1)) =~= m.calls + calls);
        if k <= m.responses.len() {
            assert(before.responses.drop_first() =~= m.responses.skip(k as int));
            assert(before.responses[0] == m.responses[k - 1]);
        }
    }
}

impl MockLlmClient {
    /// A client that replays the answers in order.
    pub fn new(responses: Vec<String>) -> (r: Self)
        ensures
            r.deep_view() == (MockLlmClientModel {
                responses: responses.deep_view(),
                last: None,
                calls: Seq::empty(),
            }),
    {
        let calls: Vec<(String, String)> = seqs::no_items();
        MockLlmClient { responses, last: None, calls }
    }

    /// A client that always gives one answer.
    pub fn single(response: &str) -> (r: Self)
        ensures
            r.deep_view() == (MockLlmClientModel {
                responses: seq![response@],
                last: None,
                calls: Seq::empty(),
            }),
    {
        let mut responses: Vec<String> = seqs::no_items();
        seqs::push_item(&mut responses, response.to_owned());
        assert(responses.deep_view() =~= seq![response@]);
        MockLlmClient::new(responses)
    }

    /// Give the next answer and keep the call.
    pub fn complete(&mut self, system: &str, user: &str) -> (r: Result<String, LlmError>)
        ensures
            completion_model(r) == next_answer(old(self).deep_view()),
            final(self).deep_view() == after_call(old(self).deep_view(), system@, user@),
    {
        seqs::push_item(&mut self.calls, (system.to_owned(), user.to_owned()));
        let ghost left = self.responses.deep_view();
        if self.responses.len() > 0 {
            assert(left[0] == self.responses@[0]@);
            let answer = self.responses.remove(0);
            assert(self.responses.deep_view() =~= left.drop_first());
            self.last = Some(answer.clone());
            Ok(answer)
        } else {
            match &self.last {
                Some(answer) => Ok(answer.clone()),
                None => Err(LlmError::EmptyResponse),
            }
        }
    }

    /// How often the client was asked.
    pub fn call_count(&self) -> (r: usize)
        ensures
            r == self.deep_view().calls.len(),
    {
        self.calls.len()
    }

    /// Every call so far.
    pub fn calls(&self) -> (r: Vec<(String, String)>)
        ensures
            r.deep_view() == self.deep_view().calls,
    {
        let ghost all = self.calls.deep_view();
        let mut out: Vec<(String, String)> = seqs::no_items();
        let mut i: usize = 0;
        while i < self.calls.len()
            invariant
                all == self.calls.deep_view(),
                0 <= i <= self.calls@.len(),
                out.deep_view() == all.take(i as int),
            decreases self.calls@.len() - i,
        {
            seqs::push_item(&mut out, (self.calls[i].0.clone(), self.calls[i].1.clone()));
            i += 1;
            assert(out.deep_view() =~= all.take(i as int));
        }
        assert(out.deep_view() =~= all);
        out
    }

    /// What the user part of the last call was.
    pub fn last_user_prompt(&self) -> (r: Option<String>)
        ensures
            r.deep_view() == (if self.deep_view().calls.len() == 0 {
                None
            } else {
                Some(self.deep_view().calls.last().1)
            }),
    {
        if self.calls.len() == 0 {
            None
        } else {
            let last = self.calls.len() - 1;
            assert(self.calls.deep_view()[last as int] == self.calls@[last as int].deep_view());
            Some(self.calls[last].1.clone())
        }
    }
}

/// A text without slashes at its end.
pub open spec fn without_slashes(s: Seq<char>) -> Seq<char>
    decreases s.len(),
{
    if s.len() > 0 && s.last() == '/' {
        without_slashes(s.drop_last())
    } else {
        s
    }
}

/// A text without slashes at its end.
pub fn trim_slashes(s: &str) -> (r: String)
    ensures
        r@ == without_slashes(s@),
{
    let cs = text::chars_of(s);
    let mut end = cs.len();
    assert(cs@.take(end as int) =~= s@);
    while end > 0 && cs[end - 1] == '/'
        invariant
            0 <= end <= cs@.len(),
            without_slashes(s@) == without_slashes(cs@.take(end as int)),
        decreases end,
    {
        assert(cs@.take(end as int).drop_last() =~= cs@.take(end - 1));
        end -= 1;
    }
    assert(cs@.subrange(0, end as int) =~= cs@.take(end as int));
    text::text_range(&cs, 0, end)
}

/// An endpoint of chat completions: where it is, what is asked of it and how.
#[derive(Debug, PartialEq)]
pub struct OpenAiClient {
    /// Without a slash at the end.
    pub base_url: String,
    pub model: String,
    pub api_key: Option<String>,
    pub temperature: Float,
    pub max_tokens: Option<u32>,
}

pub struct OpenAiClientModel {
    pub base_url: Seq<char>,
    pub model: Seq<char>,
    pub api_key: Option<Seq<char>>,
    pub temperature: FloatModel,
    pub max_tokens: Option<u32>,
}

impl DeepView for OpenAiClient {
    type V = OpenAiClientModel;

    open spec fn deep_view(&self) -> OpenAiClientModel {
        OpenAiClientModel {
            base_url: self.base_url@,
            model: self.model@,
            api_key: self.api_key.deep_view(),
            temperature: self.temperature.deep_view(),
            max_tokens: self.max_tokens,
        }
    }
}

/// A key that is not blank.
pub open spec fn usable_key(raw: Option<Seq<char>>) -> Option<Seq<char>> {
    match raw {
        Some(k) => if text::trimmed(k).len() > 0 {
            Some(k)
        } else {
            None
        },
        None => None,
    }
}

/// A message of a conversation.
pub open spec fn message_json(role: Seq<char>, content: Seq<char>) -> JsonModel {
    JsonModel::Object(
        strmap::assoc_insert(
            strmap::assoc_insert(Seq::empty(), "role"@, JsonModel::Str(role)),
            "content"@,
            JsonModel::Str(content),
        ),
    )
}

/// What is sent for a completion.
pub open spec fn chat_body(c: OpenAiClientModel, system: Seq<char>, user: Seq<char>) -> JsonModel {
    let base = strmap::assoc_insert(
        strmap::assoc_insert(
            strmap::assoc_insert(Seq::empty(), "model"@, JsonModel::Str(c.model)),
            "temperature"@,
            JsonModel::Number(NumberModel::Float(c.temperature)),
        ),
        "messages"@,
        JsonModel::Array(seq![message_json("system"@, system), message_json("user"@, user)]),
    );
    JsonModel::Object(
        match c.max_tokens {
            Some(n) => strmap::assoc_insert(
                base,
                "max_tokens"@,
                JsonModel::Number(NumberModel::Int(n as i64)),
            ),
            None => base,
        },
    )
}

/// The completion among choices: the first one, unless it is blank.
pub open spec fn first_choice(choices: Seq<Seq<char>>) -> Result<Seq<char>, LlmErrorModel> {
    if choices.len() > 0 && text::trimmed(choices[0]).len() > 0 {
        Ok(choices[0])
    } else {
        Err(LlmErrorModel::EmptyResponse)
    }
}

fn chat_message(role: &str, content: &str) -> (r: Json)
    ensures
        r.deep_view() == message_json(role@, content@),
{
    let mut m: StrMap<Json> = StrMap::new();
    m.insert("role".to_owned(), Json::Str(role.to_owned()));
    m.insert("content".to_owned(), Json::Str(content.to_owned()));
    proof {
        json::json_object_model(m);
    }
    Json::Object(m)
}

impl OpenAiClient {
    /// A client for an endpoint. A blank key is none.
    pub fn new(
        base_url: &str,
        model: &str,
        api_key: Option<String>,
        temperature: Float,
        max_tokens: Option<u32>,
    ) -> (r: Self)
        ensures
            r.deep_view() == (OpenAiClientModel {
                base_url: without_slashes(base_url@),
                model: model@,
                api_key: usable_key(api_key.deep_view()),
                temperature: temperature.deep_view(),
                max_tokens,
            }),
    {
        let key = match api_key {
            Some(k) => if text::is_empty_text(text::trim(k.as_str()).as_str()) {
                None
            } else {
                Some(k)
            },
            None => None,
        };
        OpenAiClient {
            base_url: trim_slashes(base_url),
            model: model.to_owned(),
            api_key: key,
            temperature,
            max_tokens,
        }
    }

    /// The client with another model.
    pub fn with_model(self, model: &str) -> (r: Self)
        ensures
            r.deep_view() == (OpenAiClientModel { model: model@, ..self.deep_view() }),
    {
        OpenAiClient {
            base_url: self.base_url,
            model: model.to_owned(),
            api_key: self.api_key,
            temperature: self.temperature,
            max_tokens: self.max_tokens,
        }
    }

    /// The client with another endpoint.
    pub fn with_base_url(self, base_url: &str) -> (r: Self)
        ensures
            r.deep_view() == (OpenAiClientModel {
                base_url: without_slashes(base_url@),
                ..self.deep_view()
            }),
    {
        OpenAiClient {
            base_url: trim_slashes(base_url),
            model: self.model,
            api_key: self.api_key,
            temperature: self.temperature,
            max_tokens: self.max_tokens,
        }
    }

    /// Where completions are asked for.
    pub fn url(&self) -> (r: String)
        ensures
            r@ == self.base_url@ + "/chat/completions"@,
    {
        let mut s = self.base_url.clone();
        s.append("/chat/completions");
        s
    }

    /// What is sent for a completion.
    pub fn body(&self, system: &str, user: &str) -> (r: Json)
        ensures
            r.deep_view() == chat_body(self.deep_view(), system@, user@),
    {
        let mut messages: Vec<Json> = seqs::no_items();
        seqs::push_item(&mut messages, chat_message("system", system));
        seqs::push_item(&mut messages, chat_message("user", user));
        proof {
            assert(messages.deep_view() =~= seq![
                message_json("system"@, system@),
                message_json("user"@, user@),
            ]);
            json::json_array_model(messages);
        }
        let mut m: StrMap<Json> = StrMap::new();
        m.insert("model".to_owned(), Json::Str(self.model.clone()));
        m.insert(
            "temperature".to_owned(),
            Json::Number(JsonNumber::Float(self.temperature.copy())),
        );
        m.insert("messages".to_owned(), Json::Array(messages));
        if let Some(n) = self.max_tokens {
            m.insert("max_tokens".to_owned(), Json::Number(JsonNumber::Int(n as i64)));
        }
        proof {
            json::json_object_model(m);
        }
        Json::Object(m)
    }

    /// The completion among the contents of the choices that came back.
    pub fn answer(&self, choices: Vec<String>) -> (r: Result<String, LlmError>)
        ensures
            completion_model(r) == first_choice(choices.deep_view()),
    {
        if choices.len() == 0 {
            return Err(LlmError::EmptyResponse);
        }
        assert(choices.deep_view()[0] == choices@[0]@);
        if text::is_empty_text(text::trim(choices[0].as_str()).as_str()) {
            return Err(LlmError::EmptyResponse);
        }
        Ok(choices[0].clone())
    }
}

/// What a JSON object holds under a key.
pub open spec fn field_under(j: JsonModel, key: Seq<char>) -> Option<JsonModel> {
    match j {
        JsonModel::Object(m) => strmap::assoc_get(m, key),
        _ => None,
    }
}

/// A message says its role and its content, each under its name.
pub proof fn law_messages_say_who_speaks(role: Seq<char>, content: Seq<char>)
    ensures
        field_under(message_json(role, content), "role"@) == Some(JsonModel::Str(role)),
        field_under(message_json(role, content), "content"@) == Some(JsonModel::Str(content)),
{
    reveal_strlit("role");
    reveal_strlit("content");
    assert("role"@.len() == 4 && "content"@.len() == 7);
    let a = strmap::assoc_insert(Seq::empty(), "role"@, JsonModel::Str(role));
    strmap::law_get_after_insert(Seq::empty(), "role"@, JsonModel::Str(role));
    strmap::law_get_after_insert(a, "content"@, JsonModel::Str(content));
    strmap::law_get_other_after_insert(a, "content"@, JsonModel::Str(content), "role"@);
}

/// What is sent names the model and the temperature of the client, and holds two messages: what
/// the system says, then what the user says. The limit of tokens is there where there is one.
pub proof fn law_requests_hold_both_messages(
    c: OpenAiClientModel,
    system: Seq<char>,
    user: Seq<char>,
)
    ensures
        ({
            let body = chat_body(c, system, user);
            &&& field_under(body, "model"@) == Some(JsonModel::Str(c.model))
            &&& field_under(body, "temperature"@) == Some(
                JsonModel::Number(NumberModel::Float(c.temperature)),
            )
            &&& match field_under(body, "messages"@) {
                Some(JsonModel::Array(m)) => {
                    &&& m.len() == 2
                    &&& field_under(m[0], "role"@) == Some(JsonModel::Str("system"@))
                    &&& field_under(m[0], "content"@) == Some(JsonModel::Str(system))
                    &&& field_under(m[1], "role"@) == Some(JsonModel::Str("user"@))
                    &&& field_under(m[1], "content"@) == Some(JsonModel::Str(user))
                },
                _ => false,
            }
            &&& match c.max_tokens {
                Some(n) => field_under(body, "max_tokens"@) == Some(
                    JsonModel::Number(NumberModel::Int(n as i64)),
                ),
                None => field_under(body, "max_tokens"@) is None,
            }
        }),
{
    reveal_strlit("model");
    reveal_strlit("temperature");
    reveal_strlit("messages");
    reveal_strlit("max_tokens");
    assert("model"@.len() == 5 && "temperature"@.len() == 11 && "messages"@.len() == 8
        && "max_tokens"@.len() == 10);
    law_messages_say_who_speaks("system"@, system);
    law_messages_say_who_speaks("user"@, user);
    let none = Seq::<(Seq<char>, JsonModel)>::empty();
    let m = JsonModel::Str(c.model);
    let t = JsonModel::Number(NumberModel::Float(c.temperature));
    let all = JsonModel::Array(seq![message_json("system"@, system), message_json("user"@, user)]);
    let a = strmap::assoc_insert(none, "model"@, m);
    let b = strmap::assoc_insert(a, "temperature"@, t);
    let base = strmap::assoc_insert(b, "messages"@, all);
    strmap::law_get_after_insert(none, "model"@, m);
    strmap::law_get_after_insert(a, "temperature"@, t);
    strmap::law_get_after_insert(b, "messages"@, all);
    strmap::law_get_other_after_insert(a, "temperature"@, t, "model"@);
    strmap::law_get_other_after_insert(b, "messages"@, all, "model"@);
    strmap::law_get_other_after_insert(b, "messages"@, all, "temperature"@);
    strmap::law_get_other_after_insert(none, "model"@, m, "max_tokens"@);
    strmap::law_get_other_after_insert(a, "temperature"@, t, "max_tokens"@);
    strmap::law_get_other_after_insert(b, "messages"@, all, "max_tokens"@);
    if let Some(n) = c.max_tokens {
        let x = JsonModel::Number(NumberModel::Int(n as i64));
        strmap::law_get_after_insert(base, "max_tokens"@, x);
        strmap::law_get_other_after_insert(base, "max_tokens"@, x, "model"@);
        strmap::law_get_other_after_insert(base, "max_tokens"@, x, "temperature"@);
        strmap::law_get_other_after_insert(base, "max_tokens"@, x, "messages"@);
    }
}

/// Taking the slashes off the end leaves none there, and takes nothing else.
pub proof fn law_slashes_are_taken_off(s: Seq<char>)
    ensures
        without_slashes(s).len() <= s.len(),
        s.take(without_slashes(s).len() as int) == without_slashes(s),
        forall|i: int| without_slashes(s).len() <= i < s.len() ==> #[trigger] s[i] == '/',
        without_slashes(s).len() > 0 ==> without_slashes(s).last() != '/',
    decreases s.len(),
{
    if s.len() > 0 && s.last() == '/' {
        let rest = s.drop_last();
        law_slashes_are_taken_off(rest);
        let n = without_slashes(s).len() as int;
        assert(s.take(n) =~= rest.take(n));
        assert forall|i: int| n <= i < s.len() implies #[trigger] s[i] == '/' by {
            if i < rest.len() {
                assert(rest[i] == s[i]);
            }
        }
    } else {
        assert(s.take(s.len() as int) =~= s);
    }
}

/// The answer is the first choice as it is, where it is not blank; otherwise there is none.
pub proof fn law_first_choices_are_answers(choices: Seq<Seq<char>>)
    ensures
        match first_choice(choices) {
            Ok(s) => choices.len() > 0 && s == choices[0] && exists|i: int|
                0 <= i < s.len() && !text::is_white(#[trigger] s[i]),
            Err(e) => e is EmptyResponse && (choices.len() > 0 ==> forall|i: int|
                0 <= i < choices[0].len() ==> text::is_white(#[trigger] choices[0][i])),
        },
{
    if choices.len() > 0 {
        let s = choices[0];
        let (a, b) = text::law_trimming_takes_white_only(s);
        let t = text::trimmed(s);
        if t.len() > 0 {
            assert(s[a.len() as int] == t[0]);
        } else {
            assert forall|i: int| 0 <= i < s.len() implies text::is_white(#[trigger] s[i]) by {
                if i < a.len() {
                    assert(s[i] == a[i]);
                } else {
                    assert(s[i] == b[i - a.len()]);
                }
            }
        }
    }
}

/// A key that is blank is none; any other is taken as it is.
pub proof fn law_blank_keys_are_none(k: Seq<char>)
    ensures
        usable_key(None) is None,
        usable_key(Some(k)) is None <==> text::trimmed(k).len() == 0,
        usable_key(Some(k)) is Some ==> usable_key(Some(k))->0 == k,
{
}

} // verus!
