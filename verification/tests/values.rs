use linguagraph::db::DbValue;
use linguagraph::debug::{render_cell_debug, render_json_debug};
use linguagraph::error::Error;
use linguagraph::floats::integer_bits;
use linguagraph::ids::{hyphenated, simple};
use linguagraph::json::{json_eq, render_json, Float, Json, JsonNumber};
use linguagraph::literal::{literal_before, literal_same, render_debug, Literal};
use linguagraph::llm::{LlmError, MockLlmClient, OpenAiClient};
use linguagraph::strmap::StrMap;

fn float(value: f64) -> Float {
    Float {
        bits: value.to_bits(),
        text: serde_json::to_string(&value).unwrap(),
        debug: format!("{value:?}"),
        truncated: value as i64,
        integral: value.fract() == 0.0,
    }
}

fn text(s: &str) -> Json {
    Json::Str(s.to_string())
}

fn number(i: i64) -> Json {
    Json::Number(JsonNumber::Int(i))
}

fn decimal(value: f64) -> Json {
    Json::Number(JsonNumber::Float(float(value)))
}

fn map<T: vstd::view::DeepView>(entries: Vec<(&str, T)>) -> StrMap<T> {
    let mut out = StrMap::new();
    for (key, value) in entries {
        out.insert(key.to_string(), value);
    }
    out
}

fn strings(items: &[&str]) -> Vec<String> {
    items.iter().map(|s| s.to_string()).collect()
}

#[test]
fn integers_have_the_bits_of_floats() {
    for i in [
        0,
        1,
        -1,
        3,
        i64::MAX,
        i64::MIN,
        (1 << 53) + 1,
        (1 << 53) + 2,
        (1 << 54) + 6,
        -((1 << 60) + 129),
    ] {
        assert_eq!(integer_bits(i), (i as f64).to_bits(), "{i}");
    }
}

#[test]
fn json_is_written_compactly() {
    let value = Json::Object(map(vec![
        ("b", Json::Array(vec![number(1), decimal(2.5), Json::Null])),
        ("a", text("say \"hi\"\n")),
        ("c", Json::Bool(false)),
    ]));
    assert_eq!(
        render_json(&value),
        "{\"a\":\"say \\\"hi\\\"\\n\",\"b\":[1,2.5,null],\"c\":false}"
    );
    assert!(json_eq(&value, &value));
    assert!(!json_eq(&number(1), &decimal(1.0)));
}

#[test]
fn debug_texts_are_those_of_the_values() {
    assert_eq!(render_json_debug(&text("a")), "String(\"a\")");
    assert_eq!(render_json_debug(&Json::Null), "Null");
    assert_eq!(render_cell_debug(&DbValue::Int(3)), "Int(3)");
    assert_eq!(
        render_debug(&Literal::List(vec![
            Literal::Int(1),
            Literal::String("a".to_string())
        ])),
        "List([Int(1), String(\"a\")])"
    );
}

#[test]
fn literals_are_ordered_within_their_kind() {
    let word = |s: &str| Literal::String(s.to_string());
    assert!(literal_before(&word("a"), &word("b")));
    assert!(!literal_before(&word("b"), &word("a")));
    assert!(literal_before(&Literal::Int(-1), &Literal::Int(2)));
    assert!(literal_same(&word("a"), &word("a")));
    assert!(!literal_same(&word("a"), &Literal::Null));
}

#[test]
fn ids_are_written_with_hyphens() {
    let id = 0x6c69_6e67_7561_6772_6170_6864_6f63_5f31u128;
    assert_eq!(
        hyphenated(id),
        uuid::Uuid::from_u128(id).hyphenated().to_string()
    );
    assert_eq!(simple(id), uuid::Uuid::from_u128(id).simple().to_string());
}

#[test]
fn a_mock_replays_then_repeats_its_last_answer() {
    let mut mock = MockLlmClient::new(strings(&["first", "second"]));
    assert_eq!(mock.complete("s", "a"), Ok("first".to_string()));
    assert_eq!(mock.complete("s", "b"), Ok("second".to_string()));
    assert_eq!(mock.complete("s", "c"), Ok("second".to_string()));
    assert_eq!(mock.call_count(), 3);
    assert_eq!(mock.last_user_prompt().as_deref(), Some("c"));
    let mut nothing = MockLlmClient::new(Vec::new());
    assert_eq!(nothing.complete("s", "u"), Err(LlmError::EmptyResponse));
}

#[test]
fn a_client_speaks_to_its_endpoint() {
    let client = OpenAiClient::new(
        "http://localhost:1234/v1/",
        "small",
        None,
        float(0.5),
        Some(64),
    );
    assert_eq!(client.url(), "http://localhost:1234/v1/chat/completions");
    assert_eq!(
        render_json(&client.body("be brief", "who?")),
        "{\"max_tokens\":64,\"messages\":[{\"content\":\"be brief\",\"role\":\"system\"},{\"content\":\"who?\",\"role\":\"user\"}],\"model\":\"small\",\"temperature\":0.5}"
    );
    assert_eq!(client.answer(Vec::new()), Err(LlmError::EmptyResponse));
    assert_eq!(client.answer(strings(&["Ada"])), Ok("Ada".to_string()));
}

#[test]
fn errors_name_their_layer() {
    let all = [
        Error::Dsl("x".to_string()).message(),
        Error::Ast("x".to_string()).message(),
        Error::Db("x".to_string()).message(),
        Error::Config("x".to_string()).message(),
    ];
    for (i, a) in all.iter().enumerate() {
        for b in all.iter().skip(i + 1) {
            assert_ne!(a, b);
        }
    }
    let nothing: StrMap<String> = StrMap::new();
    assert!(nothing.get("a").is_none());
}
