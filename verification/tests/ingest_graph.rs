use linguagraph::graph::builder::GraphBuilder;
use linguagraph::graph::builtins::{MENTION_REL, PART_OF_REL, SOURCE_LABEL};
use linguagraph::graph::schema::{EntityGraph, PropertyType};
use linguagraph::graph::scope::Scope;
use linguagraph::ingest::convert::literal_from_json;
use linguagraph::ingest::error::{self, IngestError};
use linguagraph::ingest::graph::{
    plan_graph_with_registry, plan_graph_with_registry_and_prefix,
    plan_graph_with_registry_and_prefixes,
};
use linguagraph::ingest::planner::{
    contexts_align, plan, plan_with_options, Extracted, ExtractedEntity, ExtractedRow, Mapping,
    PlannerOptions, RelationMapping,
};
use linguagraph::json::{Float, Json, JsonNumber};
use linguagraph::literal::Literal;
use linguagraph::strmap::StrMap;
use linguagraph::types::{BuiltinRegistry, SideEffect};

fn float(value: f64) -> Float {
    Float {
        bits: value.to_bits(),
        text: serde_json::to_string(&value).unwrap(),
        debug: format!("{value:?}"),
        truncated: value as i64,
        integral: value.fract() == 0.0,
    }
}

fn text(s: &str) -> Json {
    Json::Str(s.to_string())
}

fn number(i: i64) -> Json {
    Json::Number(JsonNumber::Int(i))
}

fn map<T: vstd::view::DeepView>(entries: Vec<(&str, T)>) -> StrMap<T> {
    let mut out = StrMap::new();
    for (key, value) in entries {
        out.insert(key.to_string(), value);
    }
    out
}

fn registry() -> BuiltinRegistry {
    BuiltinRegistry {
        semantic_collection: Some("docs".to_string()),
    }
}

fn person(graph: &mut GraphBuilder, id: &str) -> linguagraph::graph::types::EntityRef {
    graph
        .entity("Person")
        .strict_primary_key("id")
        .property("id", PropertyType::Keyword, text(id))
        .add()
}

fn named_person(
    graph: &mut GraphBuilder,
    id: &str,
    name: &str,
) -> linguagraph::graph::types::EntityRef {
    graph
        .entity("Person")
        .strict_primary_key("id")
        .property("id", PropertyType::Keyword, text(id))
        .property("name", PropertyType::Text, text(name))
        .add()
}

#[test]
fn graph_text_properties_are_semantic_text() {
    let mut graph = GraphBuilder::new();
    let alice = named_person(&mut graph, "a", "Alice");
    let bob = named_person(&mut graph, "b", "Bob");
    graph
        .relationship(alice, "KNOWS", bob)
        .property("since", PropertyType::Number, number(2024))
        .add()
        .unwrap();

    let mut effects = Vec::new();
    let insert = plan_graph_with_registry(
        &graph.build(),
        error::PlannerOptions {
            max_batch_size: 1000,
        },
        &registry(),
        &StrMap::new(),
        &mut effects,
    )
    .unwrap();

    assert_eq!(insert.node_batches.len(), 1);
    assert_eq!(insert.node_batches[0].rows.len(), 2);
    assert_eq!(insert.relation_batches.len(), 1);
    assert_eq!(
        insert.relation_batches[0].rows[0].props.get("since"),
        Some(&Literal::Int(2024))
    );
    assert_eq!(effects.len(), 2);
}

#[test]
fn source_rooted_builder_lowers_with_mention_edges() {
    let mut graph = GraphBuilder::with_source("Manual.pdf");
    named_person(&mut graph, "alice", "Alice");
    graph.chunk("Alice met Bob.").add().unwrap();

    let mut effects = Vec::new();
    let insert = plan_graph_with_registry(
        &graph.build(),
        error::PlannerOptions::default(),
        &registry(),
        &StrMap::new(),
        &mut effects,
    )
    .unwrap();

    let node_labels: Vec<&str> = insert
        .node_batches
        .iter()
        .map(|b| b.label.as_str())
        .collect();
    assert!(node_labels.contains(&SOURCE_LABEL));
    assert!(node_labels.contains(&"Person"));
    assert!(node_labels.contains(&"Chunk"));

    let rel_types: Vec<&str> = insert
        .relation_batches
        .iter()
        .map(|b| b.rel_type.as_str())
        .collect();
    assert!(rel_types.contains(&MENTION_REL));
    assert!(rel_types.contains(&PART_OF_REL));

    assert_eq!(effects.len(), 3);
}

#[test]
fn prefix_label_is_propagated_to_every_batch() {
    let mut graph = GraphBuilder::new();
    let a = person(&mut graph, "a");
    let b = person(&mut graph, "b");
    graph.relationship(a, "KNOWS", b).add().unwrap();

    let mut effects = Vec::new();
    let insert = plan_graph_with_registry_and_prefix(
        &graph.build(),
        error::PlannerOptions::default(),
        &registry(),
        &StrMap::new(),
        &mut effects,
        Some("Tenant1"),
    )
    .unwrap();

    for batch in &insert.node_batches {
        assert_eq!(batch.prefix_label.as_deref(), Some("Tenant1"));
    }
    for batch in &insert.relation_batches {
        assert_eq!(batch.prefix_label.as_deref(), Some("Tenant1"));
    }
}

#[test]
fn prefix_index_scopes_embedding_side_effects() {
    let mut graph = GraphBuilder::new();
    named_person(&mut graph, "a", "Alice");

    let mut effects = Vec::new();
    plan_graph_with_registry_and_prefixes(
        &graph.build(),
        error::PlannerOptions::default(),
        &registry(),
        &StrMap::new(),
        &mut effects,
        None,
        Some("Tenant1"),
    )
    .unwrap();

    assert_eq!(effects.len(), 1);
    match &effects[0] {
        SideEffect::EmbedAndStore { collection, .. } => {
            assert!(
                collection.starts_with("Tenant1__"),
                "expected prefix in collection name, got {collection}"
            );
        }
    }
}

#[test]
fn empty_prefix_label_is_normalised_to_none() {
    let mut graph = GraphBuilder::new();
    person(&mut graph, "a");

    let insert = plan_graph_with_registry_and_prefix(
        &graph.build(),
        error::PlannerOptions::default(),
        &registry(),
        &StrMap::new(),
        &mut Vec::new(),
        Some("   "),
    )
    .unwrap();
    assert!(insert.node_batches[0].prefix_label.is_none());
}

#[test]
fn strict_primary_key_value_is_required() {
    let mut graph = GraphBuilder::new();
    graph.entity("Person").strict_primary_key("id").add();

    let err = plan_graph_with_registry(
        &graph.build(),
        error::PlannerOptions::default(),
        &registry(),
        &StrMap::new(),
        &mut Vec::new(),
    )
    .unwrap_err();

    assert!(matches!(
        err,
        IngestError::MissingGraphPrimaryKeyValue { .. }
    ));
}

#[test]
fn string_primary_key_converts_numeric_json_to_string() {
    let mut graph = GraphBuilder::new();
    graph
        .entity("Person")
        .strict_primary_key("id")
        .property("id", PropertyType::Keyword, number(100))
        .add();

    let insert = plan_graph_with_registry(
        &graph.build(),
        error::PlannerOptions::default(),
        &registry(),
        &StrMap::new(),
        &mut Vec::new(),
    )
    .unwrap();

    assert_eq!(
        insert.node_batches[0].rows[0].id,
        Literal::String("100".to_string())
    );
}

#[test]
fn literal_from_json_uses_requested_property_type() {
    let floats = StrMap::new();
    assert_eq!(
        literal_from_json(&text("42"), "count", Some(PropertyType::Number), &floats).unwrap(),
        Literal::Int(42)
    );
    assert_eq!(
        literal_from_json(&text("yes"), "active", Some(PropertyType::Bool), &floats).unwrap(),
        Literal::Bool(true)
    );
    assert_eq!(
        literal_from_json(
            &Json::Array(vec![text("a"), number(1)]),
            "label",
            Some(PropertyType::Keyword),
            &floats
        )
        .unwrap(),
        Literal::String("[\"a\",1]".to_string())
    );
}

#[test]
fn texts_that_read_as_floats_are_numbers() {
    let floats = map(vec![("2.5", float(2.5))]);
    assert_eq!(
        literal_from_json(&text("2.5"), "price", Some(PropertyType::Number), &floats),
        Ok(Literal::Float(float(2.5)))
    );
    assert!(matches!(
        literal_from_json(&text("cheap"), "price", Some(PropertyType::Number), &floats),
        Err(IngestError::Type(_))
    ));
}

fn row(id: &str, context: Vec<usize>) -> ExtractedRow {
    ExtractedRow {
        id: Literal::String(id.to_string()),
        context,
        properties: map(vec![("id", Literal::String(id.to_string()))]),
    }
}

fn entities(label: &str, rows: Vec<ExtractedRow>) -> ExtractedEntity {
    ExtractedEntity {
        label: label.to_string(),
        primary_key_field: "id".to_string(),
        rows,
    }
}

fn mapping(kind: &str, from: &str, to: &str) -> Mapping {
    Mapping {
        relationships: vec![RelationMapping {
            kind: kind.to_string(),
            from: from.to_string(),
            to: to.to_string(),
        }],
    }
}

#[test]
fn plans_nodes_and_one_to_one_relationships() {
    let extracted = Extracted {
        entities: vec![
            entities("Camera", vec![row("c1", vec![0]), row("c2", vec![1])]),
            entities("Place", vec![row("p1", vec![0]), row("p2", vec![1])]),
        ],
    };
    let q = plan(&mapping("LOCATED_IN", "Camera", "Place"), extracted).unwrap();

    assert_eq!(q.node_batches.len(), 2);
    assert_eq!(q.node_batches[0].label, "Camera");
    assert_eq!(q.node_batches[0].rows.len(), 2);
    assert_eq!(q.node_batches[1].label, "Place");
    assert_eq!(q.node_batches[1].rows.len(), 2);

    assert_eq!(q.relation_batches.len(), 1);
    let r = &q.relation_batches[0];
    assert_eq!(r.rel_type, "LOCATED_IN");
    assert_eq!(r.rows.len(), 2);
}

#[test]
fn deduplicates_shared_destinations() {
    let extracted = Extracted {
        entities: vec![
            entities("Camera", vec![row("c1", vec![0]), row("c2", vec![1])]),
            entities("Place", vec![row("shared", vec![0]), row("shared", vec![1])]),
        ],
    };
    let q = plan(&mapping("LOCATED_IN", "Camera", "Place"), extracted).unwrap();

    let place_batch = q.node_batches.iter().find(|b| b.label == "Place").unwrap();
    assert_eq!(place_batch.rows.len(), 1, "shared place should dedupe");

    let rel_rows = &q.relation_batches[0].rows;
    assert_eq!(rel_rows.len(), 2, "two cameras both link to the shared place");
}

#[test]
fn parent_child_context_alignment() {
    let extracted = Extracted {
        entities: vec![
            entities("Camera", vec![row("c1", vec![0]), row("c2", vec![1])]),
            entities(
                "Module",
                vec![
                    row("m1", vec![0, 0]),
                    row("m2", vec![0, 1]),
                    row("m3", vec![1, 0]),
                ],
            ),
        ],
    };
    let q = plan(&mapping("HAS", "Camera", "Module"), extracted).unwrap();

    let rel = &q.relation_batches[0];
    assert_eq!(rel.rows.len(), 3);
    let bad = rel.rows.iter().any(|r| {
        r.from_id == Literal::String("c1".to_string())
            && r.to_id == Literal::String("m3".to_string())
    });
    assert!(!bad, "context-prefix alignment must not cross siblings");
    assert!(contexts_align(&vec![0, 1], &vec![0]));
    assert!(!contexts_align(&vec![0, 1], &vec![1]));
}

#[test]
fn batch_size_is_respected() {
    let extracted = Extracted {
        entities: vec![
            entities(
                "Camera",
                (0..2500).map(|i| row(&format!("c{i}"), vec![i])).collect(),
            ),
            entities(
                "Place",
                (0..2500).map(|i| row(&format!("p{i}"), vec![i])).collect(),
            ),
        ],
    };
    let q = plan_with_options(
        &mapping("LOCATED_IN", "Camera", "Place"),
        extracted,
        PlannerOptions {
            max_batch_size: 1000,
        },
    )
    .unwrap();
    let camera_batches: Vec<_> = q
        .node_batches
        .iter()
        .filter(|b| b.label == "Camera")
        .collect();
    assert_eq!(camera_batches.len(), 3);
    assert_eq!(camera_batches[0].rows.len(), 1000);
    assert_eq!(camera_batches[2].rows.len(), 500);
}

#[test]
fn unknown_relationship_endpoint_is_rejected() {
    let extracted = Extracted {
        entities: vec![entities("Camera", vec![row("c1", vec![0])])],
    };
    assert!(matches!(
        plan(&mapping("X", "Camera", "Ghost"), extracted),
        Err(IngestError::UnknownEntityType(_))
    ));
}

#[test]
fn an_empty_batch_is_refused() {
    let extracted = Extracted {
        entities: Vec::new(),
    };
    assert_eq!(
        plan_with_options(
            &Mapping {
                relationships: Vec::new()
            },
            extracted,
            PlannerOptions { max_batch_size: 0 },
        ),
        Err(IngestError::InvalidBatchSize)
    );
}

#[test]
fn the_last_properties_of_an_id_are_kept() {
    let with = |id: &str, props: Vec<(&str, &str)>| ExtractedRow {
        id: Literal::String(id.to_string()),
        context: Vec::new(),
        properties: map(
            props
                .into_iter()
                .map(|(k, v)| (k, Literal::String(v.to_string())))
                .collect(),
        ),
    };
    let extracted = Extracted {
        entities: vec![entities(
            "Place",
            vec![
                with("p2", vec![("name", "Rome"), ("zone", "old")]),
                with("p1", vec![("name", "Oslo")]),
                with("p2", vec![("name", "Roma")]),
            ],
        )],
    };
    let mapping = Mapping {
        relationships: Vec::new(),
    };
    let q = plan(&mapping, extracted).unwrap();
    let rows = &q.node_batches[0].rows;
    assert_eq!(rows.len(), 2);
    assert_eq!(rows[0].id, Literal::String("p1".to_string()));
    assert_eq!(
        rows[1].props,
        map(vec![("name", Literal::String("Roma".to_string()))])
    );
}

#[test]
fn entities_carry_the_labels_of_their_scopes_and_domain() {
    let tagged = |id: &str| {
        EntityGraph::new("Person")
            .strict_primary_key("id")
            .property("id", PropertyType::Keyword, text(id))
            .domain("hr")
    };
    let mut graph = GraphBuilder::new();
    graph.add_entity(tagged("a").scope(Scope::Structured).scope(Scope::Text));
    graph.add_entity(tagged("b"));
    graph.add_entity(tagged("c").scopes(vec![Scope::Table]));

    let mut effects = Vec::new();
    let insert = plan_graph_with_registry(
        &graph.build(),
        error::PlannerOptions {
            max_batch_size: 1000,
        },
        &registry(),
        &StrMap::new(),
        &mut effects,
    )
    .unwrap();

    assert_eq!(insert.node_batches.len(), 1);
    let batch = &insert.node_batches[0];
    assert_eq!(batch.label, "Person");
    assert_eq!(batch.domain_label, Some("hr".to_string()));
    let labels: Vec<Vec<String>> = batch.rows.iter().map(|r| r.scope_labels.clone()).collect();
    assert_eq!(
        labels,
        vec![
            vec!["scope_text".to_string(), "scope_structured".to_string()],
            Vec::new(),
            vec!["scope_table".to_string()],
        ]
    );
}
