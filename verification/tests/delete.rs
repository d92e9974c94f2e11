use linguagraph::graph::spec::GraphSpecification;
use linguagraph::ingest::delete::{DeletePlan, DeletePlanError, DiscoveredNodes};
use linguagraph::literal::Literal;
use linguagraph::graph::schema::PropertyType;

fn plan(source: &str) -> DeletePlan {
    DeletePlan::new(source, "semantic_text").unwrap()
}

#[test]
fn discover_query_renders_with_no_prefix() {
    let q = plan("src-1").discover_query();
    assert!(q.text.contains("MATCH (s:Source {id: $source_id})"));
    assert!(q.text.contains("OPTIONAL MATCH (s)<-[:mention]-(e)"));
    assert!(q.text.contains("MATCH (e)-[:mention]->(other:Source)"));
    assert!(q.text.contains("OPTIONAL MATCH (s)<-[:part_of]-(c:Chunk)"));
    assert!(q
        .text
        .contains("RETURN id(s) AS source_id, orphan_ids, chunk_ids"));
    assert_eq!(
        q.params.get("source_id"),
        Some(&Literal::String("src-1".into()))
    );
}

#[test]
fn discover_query_threads_prefix_label_through_every_match() {
    let q = plan("src-1")
        .with_prefix_label(Some("Tenant1".into()))
        .unwrap()
        .discover_query();
    assert!(q.text.contains("(s:Source:Tenant1 {id: $source_id})"));
    assert!(q.text.contains("(other:Source:Tenant1)"));
    assert!(q.text.contains("(c:Chunk:Tenant1)"));
}

#[test]
fn discover_rejects_bad_prefix_label() {
    let err = plan("src")
        .with_prefix_label(Some("1Bad".into()))
        .unwrap_err();
    assert!(matches!(err, DeletePlanError::InvalidPrefixLabel(_)));
}

#[test]
fn empty_source_id_rejected() {
    assert!(matches!(
        DeletePlan::new("", "semantic_text"),
        Err(DeletePlanError::EmptySourceId)
    ));
}

#[test]
fn qlink_delete_query_binds_collection_and_ids() {
    let q = plan("src").qlink_delete_batch_query("semantic_text__name", &[1, 2, 3]);
    assert!(q.text.contains("libqlink.delete_batch($coll, $ids)"));
    assert_eq!(
        q.params.get("coll"),
        Some(&Literal::String("semantic_text__name".into()))
    );
    match q.params.get("ids").unwrap() {
        Literal::List(items) => {
            assert_eq!(items.len(), 3);
            assert_eq!(items[0], Literal::Int(1));
        }
        other => panic!("expected list, got {other:?}"),
    }
}

#[test]
fn detach_delete_renders_unwind_loop() {
    let q = plan("src").detach_delete_query(&[10, 20]);
    assert!(q.text.contains("UNWIND $ids AS i"));
    assert!(q.text.contains("MATCH (n) WHERE id(n) = i"));
    assert!(q.text.contains("DETACH DELETE n"));
}

#[test]
fn qlink_collections_unions_spec_props_with_builtins() {
    let spec = GraphSpecification::new()
        .with_entity("Person", "a human")
        .with_property("Person", "bio", PropertyType::Text, "biography")
        .with_property("Person", "age", PropertyType::Number, "age");
    let cols = plan("src").qlink_collections(Some(&spec));
    // bio (from spec), name + text (builtins). age is Number — skipped.
    assert!(cols.contains(&"semantic_text__bio".into()));
    assert!(cols.contains(&"semantic_text__name".into()));
    assert!(cols.contains(&"semantic_text__text".into()));
    assert!(!cols.iter().any(|c| c.ends_with("__age")));
}

#[test]
fn qlink_collections_applies_prefix_index() {
    let cols = plan("src")
        .with_prefix_index(Some("tenant1".into()))
        .qlink_collections(None);
    for c in &cols {
        assert!(c.starts_with("tenant1__semantic_text__"), "got {c}");
    }
}

#[test]
fn qlink_collections_without_spec_still_covers_builtins() {
    let cols = plan("src").qlink_collections(None);
    assert!(cols.contains(&"semantic_text__name".into()));
    assert!(cols.contains(&"semantic_text__text".into()));
}

#[test]
fn discovered_nodes_all_ids_appends_source_last() {
    let d = DiscoveredNodes {
        source_id: Some(42),
        orphan_ids: vec![1, 2],
        chunk_ids: vec![10],
    };
    assert_eq!(d.all_ids(), vec![1, 2, 10, 42]);
    assert_eq!(d.total_nodes(), 4);
    assert!(!d.is_empty());
}

#[test]
fn discovered_nodes_empty_when_no_source() {
    let d = DiscoveredNodes::default();
    assert!(d.is_empty());
    assert_eq!(d.total_nodes(), 0);
    assert!(d.all_ids().is_empty());
}

#[test]
fn delete_errors_have_texts() {
    assert_eq!(DeletePlanError::EmptySourceId.message(), "source id is empty");
}
