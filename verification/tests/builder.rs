use linguagraph::graph::builder::GraphBuilder;
use linguagraph::graph::builtins::{
    is_builtin_entity, new_chunk, new_source, source_with_id, CHUNK_LABEL, MENTION_REL,
    PART_OF_REL, SOURCE_LABEL,
};
use linguagraph::graph::canonical::build_canonical_text;
use linguagraph::graph::schema::{
    canonical_handler_id, EntityGraph, PrimaryKey, PropertyType, RelationGraph,
};
use linguagraph::graph::types::{EntityRef, GraphBuildError};
use linguagraph::json::{Float, Json, JsonNumber};
use linguagraph::strmap::StrMap;

fn float(value: f64) -> Float {
    Float {
        bits: value.to_bits(),
        text: serde_json::to_string(&value).unwrap(),
        debug: format!("{value:?}"),
        truncated: value as i64,
        integral: value.fract() == 0.0,
    }
}

fn text(s: &str) -> Json {
    Json::Str(s.to_string())
}

fn number(i: i64) -> Json {
    Json::Number(JsonNumber::Int(i))
}

fn decimal(value: f64) -> Json {
    Json::Number(JsonNumber::Float(float(value)))
}

fn map<T: vstd::view::DeepView>(entries: Vec<(&str, T)>) -> StrMap<T> {
    let mut out = StrMap::new();
    for (key, value) in entries {
        out.insert(key.to_string(), value);
    }
    out
}

fn value<'a>(entity: &'a EntityGraph, name: &str) -> &'a Json {
    &entity.properties.get(name).unwrap().value
}

#[test]
fn creates_entity_values_conveniently() {
    let entity = EntityGraph::new("Person")
        .label("Human")
        .strict_primary_key("id")
        .property("id", PropertyType::Keyword, text("person-1"))
        .property("age", PropertyType::Number, number(42));

    assert_eq!(entity.kind, "Person");
    assert_eq!(entity.labels, vec!["Human"]);
    assert_eq!(
        entity.primary_key,
        Some(PrimaryKey::Strict("id".to_string()))
    );
    assert_eq!(value(&entity, "id"), &text("person-1"));
    assert_eq!(value(&entity, "age"), &number(42));
}

#[test]
fn builds_entities_and_relationships_fluently() {
    let mut builder = GraphBuilder::new();

    let alice = builder
        .entity("Person")
        .label("User")
        .strict_primary_key("id")
        .property("id", PropertyType::Keyword, text("alice"))
        .property("name", PropertyType::Text, text("Alice"))
        .add();

    let bob = builder
        .entity("Person")
        .label("User")
        .strict_primary_key("id")
        .property("id", PropertyType::Keyword, text("bob"))
        .property("name", PropertyType::Text, text("Bob"))
        .add();

    let knows = builder
        .relationship(alice, "KNOWS", bob)
        .property("since", PropertyType::Number, number(2024))
        .add()
        .unwrap();

    let graph = builder.build();

    assert_eq!(alice.index(), 0);
    assert_eq!(bob.index(), 1);
    assert_eq!(knows.index(), 0);
    assert_eq!(graph.entities().len(), 2);
    assert_eq!(graph.relations().len(), 1);
    assert_eq!(value(graph.entity(alice).unwrap(), "name"), &text("Alice"));
    assert_eq!(graph.relation(knows).unwrap().kind, "KNOWS");
    assert_eq!(graph.relation(knows).unwrap().from, alice);
    assert_eq!(graph.relation(knows).unwrap().to, bob);
}

#[test]
fn also_accepts_prebuilt_relationships() {
    let mut builder = GraphBuilder::new();
    let article = builder.add_entity(EntityGraph::new("Article").strict_primary_key("id"));
    let author = builder.add_entity(EntityGraph::new("Author").strict_primary_key("id"));

    let relation = RelationGraph::new(article, "WRITTEN_BY", author).property(
        "confidence",
        PropertyType::Number,
        decimal(0.98),
    );
    let relation_ref = builder.add_relationship(relation).unwrap();
    let graph = builder.build();

    let found = graph.relation(relation_ref).unwrap();
    assert_eq!(found.kind, "WRITTEN_BY");
    assert_eq!(
        found.properties.get("confidence").unwrap().value,
        decimal(0.98)
    );
}

#[test]
fn rejects_relationships_with_unknown_endpoints() {
    let mut builder = GraphBuilder::new();
    let known = builder.add_entity(EntityGraph::new("Known"));

    let err = builder
        .relationship(known, "POINTS_TO", EntityRef::from_index(99))
        .add()
        .unwrap_err();

    assert_eq!(err, GraphBuildError::UnknownEntityRef(99));
}

#[test]
fn with_source_auto_creates_source_and_attaches_mention_edges() {
    let mut builder = GraphBuilder::with_source("My Doc");
    let source = builder.source().expect("source created");

    let alice = builder
        .entity("Person")
        .strict_primary_key("id")
        .property("id", PropertyType::Keyword, text("alice"))
        .add();
    let bob = builder
        .entity("Person")
        .strict_primary_key("id")
        .property("id", PropertyType::Keyword, text("bob"))
        .add();

    let graph = builder.build();

    assert_eq!(graph.entities().len(), 3);
    assert_eq!(graph.entity(source).unwrap().kind, SOURCE_LABEL);

    let mentions: Vec<_> = graph
        .relations()
        .iter()
        .filter(|r| r.kind == MENTION_REL)
        .collect();
    assert_eq!(mentions.len(), 2);
    for m in &mentions {
        assert_eq!(m.to, source);
        assert!(m.from == alice || m.from == bob);
    }
}

#[test]
fn chunk_emits_part_of_edge_to_source() {
    let mut builder = GraphBuilder::with_source("Doc");
    let source = builder.source().unwrap();
    let chunk = builder.chunk("hello world").add().unwrap();

    let graph = builder.build();

    assert_eq!(graph.entity(chunk).unwrap().kind, CHUNK_LABEL);

    let edges: Vec<_> = graph
        .relations()
        .iter()
        .filter(|r| r.from == chunk)
        .collect();
    assert_eq!(edges.len(), 1);
    assert_eq!(edges[0].kind, PART_OF_REL);
    assert_eq!(edges[0].to, source);
}

#[test]
fn chunk_requires_a_source() {
    let mut builder = GraphBuilder::new();
    let err = builder.chunk("orphan").add().unwrap_err();
    assert_eq!(err, GraphBuildError::ChunkWithoutSource);
}

#[test]
fn bare_builder_does_not_attach_auto_edges() {
    let mut builder = GraphBuilder::new();
    builder
        .entity("Person")
        .strict_primary_key("id")
        .property("id", PropertyType::Keyword, text("alice"))
        .add();
    let graph = builder.build();
    assert_eq!(graph.entities().len(), 1);
    assert!(graph.relations().is_empty());
}

fn id_of(entity: &EntityGraph) -> String {
    match value(entity, "id") {
        Json::Str(id) => id.clone(),
        other => panic!("id should be a string, got {other:?}"),
    }
}

#[test]
fn source_has_uuid_v4_and_named_text_property() {
    let s = new_source("My Doc");
    assert_eq!(s.kind, SOURCE_LABEL);
    let parsed = uuid::Uuid::parse_str(&id_of(&s)).expect("id parses as UUID");
    assert_eq!(parsed.get_version_num(), 4, "expected UUID v4");
    assert_eq!(
        s.properties.get("name").unwrap().property_type,
        PropertyType::Text
    );
}

#[test]
fn chunk_has_uuid_v4_and_text_field() {
    let c = new_chunk("hello world");
    assert_eq!(c.kind, CHUNK_LABEL);
    let parsed = uuid::Uuid::parse_str(&id_of(&c)).expect("id parses as UUID");
    assert_eq!(parsed.get_version_num(), 4);
    assert_eq!(
        c.properties.get("text").unwrap().property_type,
        PropertyType::Text
    );
    assert_eq!(value(&c, "text"), &text("hello world"));
}

#[test]
fn two_sources_have_distinct_ids() {
    let a = new_source("a");
    let b = new_source("b");
    assert_ne!(value(&a, "id"), value(&b, "id"));
}

#[test]
fn a_source_keeps_the_id_it_is_given() {
    let s = source_with_id("s1", "My Doc");
    assert_eq!(id_of(&s), "s1");
    assert_eq!(value(&s, "name"), &text("My Doc"));
    assert!(is_builtin_entity("Chunk"));
    assert!(!is_builtin_entity("Person"));
}

#[test]
fn empty_props_yields_type_only() {
    let props = StrMap::new();
    assert_eq!(build_canonical_text("Person", &props), "type: Person");
}

#[test]
fn single_string_property_appears_in_canonical() {
    let props = map(vec![("name", text("Alice"))]);
    assert_eq!(
        build_canonical_text("Person", &props),
        "type: Person\nname: Alice"
    );
}

#[test]
fn properties_sorted_alphabetically_for_determinism() {
    let props = map(vec![
        ("role", text("CEO")),
        ("age", number(42)),
        ("name", text("Elon Musk")),
    ]);
    assert_eq!(
        build_canonical_text("Person", &props),
        "type: Person\nage: 42\nname: Elon Musk\nrole: CEO"
    );
}

#[test]
fn non_string_values_rendered_via_json_to_string() {
    let props = map(vec![("count", number(7)), ("active", Json::Bool(true))]);
    assert_eq!(
        build_canonical_text("Thing", &props),
        "type: Thing\nactive: true\ncount: 7"
    );
}

#[test]
fn identical_inputs_produce_identical_outputs() {
    let a = map(vec![("name", text("X")), ("kind", text("Y"))]);
    let b = map(vec![("kind", text("Y")), ("name", text("X"))]);
    assert_eq!(build_canonical_text("T", &a), build_canonical_text("T", &b));
}

#[test]
fn spellings_of_types_name_their_handlers() {
    assert_eq!(canonical_handler_id("String"), "Keyword");
    assert_eq!(canonical_handler_id("Text"), "SemanticText");
    assert_eq!(canonical_handler_id("Float"), "Number");
    assert_eq!(canonical_handler_id("Date"), "Timestamp");
    assert_eq!(canonical_handler_id("Money"), "Money");
}

#[test]
fn build_errors_say_what_is_wrong() {
    assert_ne!(
        GraphBuildError::UnknownEntityRef(7).message(),
        GraphBuildError::ChunkWithoutSource.message()
    );
    assert!(GraphBuildError::UnknownEntityRef(7).message().contains('7'));
}
