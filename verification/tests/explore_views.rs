use linguagraph::explore::classify::{
    classify_properties, confidence, display_name, primary_label,
};
use linguagraph::explore::dto::{EdgeView, ExportDoc, NodeView, PropertyGroups, Subgraph};
use linguagraph::explore::export::export_subgraph;
use linguagraph::graph::ontology::{DomainOntology, EntityTypeSpec, OntologyCatalog, PropertySpec};
use linguagraph::graph::schema::OntologyPropertyType;
use linguagraph::json::{Float, Json, JsonNumber};
use linguagraph::strmap::StrMap;

fn float(value: f64) -> Float {
    Float {
        bits: value.to_bits(),
        text: value.to_string(),
        debug: format!("{value:?}"),
        truncated: value as i64,
        integral: value.fract() == 0.0,
    }
}

fn text(s: &str) -> Json {
    Json::Str(s.to_string())
}

fn number(i: i64) -> Json {
    Json::Number(JsonNumber::Int(i))
}

fn decimal(value: f64) -> Json {
    Json::Number(JsonNumber::Float(float(value)))
}

fn map<T: vstd::view::DeepView>(entries: Vec<(&str, T)>) -> StrMap<T> {
    let mut out = StrMap::new();
    for (key, value) in entries {
        out.insert(key.to_string(), value);
    }
    out
}

fn property(name: &str, property_type: OntologyPropertyType) -> PropertySpec {
    PropertySpec {
        name: name.to_string(),
        description: None,
        property_type,
        required: false,
        allowed_values: Vec::new(),
    }
}

fn catalog_with_movie() -> OntologyCatalog {
    let mut catalog = OntologyCatalog::default();
    catalog.insert(
        "movies",
        DomainOntology {
            name: None,
            description: None,
            entity_types: vec![EntityTypeSpec {
                name: "Movie".to_string(),
                description: None,
                properties: vec![
                    property("id", OntologyPropertyType::Keyword),
                    property("tagline", OntologyPropertyType::Text),
                    property("released", OntologyPropertyType::Datetime),
                    property("votes", OntologyPropertyType::Number),
                ],
            }],
            relation_types: Vec::new(),
        },
    );
    catalog
}

#[test]
fn classify_buckets_by_catalog_and_falls_back_by_shape() {
    let props = map(vec![
        ("id", text("m1")),
        ("tagline", text("Welcome to the Real World")),
        ("released", text("1999-03-31")),
        ("votes", number(4500)),
        ("box_office", decimal(463.5)),
        ("note", text("uncatalogued")),
        ("_canonical", text("hidden")),
    ]);
    let groups = classify_properties("Movie", props, Some(&catalog_with_movie()));
    assert_eq!(groups.identifiers.get("id"), Some(&text("m1")));
    assert!(groups.descriptions.contains_key("tagline"));
    assert!(groups.dates.contains_key("released"));
    assert_eq!(groups.facts.get("votes"), Some(&number(4500)));
    assert_eq!(groups.facts.get("box_office"), Some(&decimal(463.5)));
    assert!(groups.other.contains_key("note"));
    assert!(groups.iter().iter().all(|(k, _)| *k != "_canonical"));
}

#[test]
fn classify_without_catalog_uses_shape_only() {
    let props = map(vec![
        ("age", number(42)),
        ("active", Json::Bool(true)),
        ("name", text("Alice")),
    ]);
    let groups = classify_properties("Person", props, None);
    assert!(groups.facts.contains_key("age"));
    assert!(groups.facts.contains_key("active"));
    assert!(groups.other.contains_key("name"));
}

#[test]
fn primary_label_skips_prefix_scope_and_domain_labels() {
    let labels = vec![
        "E2E_TCM".to_string(),
        "scope_structured".to_string(),
        "movies".to_string(),
        "Movie".to_string(),
    ];
    let catalog = catalog_with_movie();
    assert_eq!(
        primary_label(&labels, Some("E2E_TCM"), Some(&catalog)),
        "Movie"
    );
    assert_eq!(primary_label(&labels, Some("E2E_TCM"), None), "movies");
}

#[test]
fn display_name_prefers_name_then_title_then_id() {
    let with_name = map(vec![("name", text("Alice"))]);
    assert_eq!(display_name(&with_name, "x"), "Alice");
    let with_title = map(vec![("title", text("The Matrix"))]);
    assert_eq!(display_name(&with_title, "x"), "The Matrix");
    assert_eq!(display_name(&StrMap::new(), "m1"), "m1");
}

#[test]
fn confidence_is_read_never_invented() {
    assert_eq!(
        confidence(&map(vec![("confidence", decimal(0.9))])),
        Some(JsonNumber::Float(float(0.9)))
    );
    assert_eq!(confidence(&StrMap::new()), None);
}

fn subgraph() -> Subgraph {
    let person = NodeView {
        id: "p1".into(),
        name: "Keanu Reeves".into(),
        entity_type: "Person".into(),
        labels: vec!["E2E".into(), "Person".into()],
        properties: PropertyGroups {
            identifiers: map(vec![("id", text("p1")), ("name", text("Keanu Reeves"))]),
            ..Default::default()
        },
        confidence: Some(JsonNumber::Float(float(0.9))),
        ephemeral_handle: false,
    };
    let movie = NodeView {
        id: "m1".into(),
        name: "The Matrix".into(),
        entity_type: "Movie".into(),
        labels: vec!["E2E".into(), "Movie".into()],
        properties: PropertyGroups {
            identifiers: map(vec![("title", text("The Matrix"))]),
            descriptions: map(vec![("tagline", text("Welcome to the Real World"))]),
            dates: map(vec![("released", text("1999-03-31"))]),
            facts: map(vec![("votes", number(4500))]),
            ..Default::default()
        },
        confidence: None,
        ephemeral_handle: false,
    };
    let edge = EdgeView {
        id: "p1:ACTED_IN:m1".into(),
        edge_type: "ACTED_IN".into(),
        from: "p1".into(),
        to: "m1".into(),
        properties: map(vec![("roles", Json::Array(vec![text("Neo")]))]),
        confidence: None,
    };
    let dangling = EdgeView {
        id: "p1:KNOWS:ghost".into(),
        edge_type: "KNOWS".into(),
        from: "p1".into(),
        to: "ghost".into(),
        properties: StrMap::new(),
        confidence: None,
    };
    Subgraph {
        nodes: vec![person, movie],
        edges: vec![edge, dangling],
        truncated: false,
    }
}

fn field<'a>(value: &'a Json, name: &str) -> &'a Json {
    match value {
        Json::Object(fields) => fields.get(name).unwrap(),
        _ => panic!("not an object"),
    }
}

fn items(value: &Json) -> &Vec<Json> {
    match value {
        Json::Array(list) => list,
        _ => panic!("not a list"),
    }
}

#[test]
fn confidence_exports_as_numeric_property() {
    let ExportDoc(doc) = export_subgraph(&subgraph());
    let person = items(field(&doc, "entities"))
        .iter()
        .find(|e| field(e, "id") == &text("p1"))
        .unwrap();
    assert_eq!(
        field(field(field(person, "properties"), "confidence"), "value"),
        &decimal(0.9)
    );
}

#[test]
fn dangling_edges_are_not_exported() {
    let ExportDoc(doc) = export_subgraph(&subgraph());
    let relations = items(field(&doc, "relations"));
    assert_eq!(relations.len(), 1);
    assert_eq!(field(&relations[0], "type"), &text("ACTED_IN"));
    let movie = &items(field(&doc, "entities"))[1];
    let properties = field(movie, "properties");
    assert_eq!(field(field(properties, "tagline"), "type"), &text("Text"));
    assert_eq!(
        field(field(properties, "released"), "type"),
        &text("Datetime")
    );
    assert_eq!(field(field(properties, "votes"), "type"), &text("Number"));
}
