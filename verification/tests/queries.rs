use linguagraph::explore::dto::RelDirection;
use linguagraph::explore::error::ExploreError;
use linguagraph::explore::queries::{
    entity_by_id, entity_count, entity_table_page, id_list_predicate, keyword_search, label_suffix,
    neighbors, normalized_property_name, NeighborQuery, NodeHandle,
};
use linguagraph::literal::Literal;

#[test]
fn node_handle_parses_nid_fallback() {
    assert_eq!(NodeHandle::parse("_nid:42"), NodeHandle::Nid(42));
    assert_eq!(NodeHandle::parse("m1"), NodeHandle::AppId("m1".to_string()));
    // Malformed nid falls back to an app id, never panics.
    assert_eq!(
        NodeHandle::parse("_nid:abc"),
        NodeHandle::AppId("_nid:abc".to_string())
    );
}

#[test]
fn label_suffix_rejects_injection() {
    assert_eq!(label_suffix(Some("T1")).unwrap(), ":T1");
    assert_eq!(label_suffix(None).unwrap(), "");
    assert!(matches!(
        label_suffix(Some("T1) DETACH DELETE (n")),
        Err(ExploreError::InvalidIdentifier(_))
    ));
}

#[test]
fn entity_by_id_scopes_prefix_and_binds_id() {
    let q = entity_by_id(&NodeHandle::parse("m1"), Some("T1")).unwrap();
    assert!(q.text.contains("MATCH (n:T1)"));
    assert!(q.text.contains("n.id = $id"));
    assert!(q.text.contains(":mention|part_of"));
    assert_eq!(q.params.get("id"), Some(&Literal::String("m1".into())));
}

#[test]
fn entity_by_nid_matches_internal_id() {
    let q = entity_by_id(&NodeHandle::parse("_nid:7"), None).unwrap();
    assert!(q.text.contains("id(n) = $nid"));
    assert_eq!(q.params.get("nid"), Some(&Literal::Int(7)));
}

#[test]
fn neighbors_renders_filters_and_pagination() {
    let handle = NodeHandle::parse("m1");
    let edge_types = vec!["ACTED_IN".to_string()];
    let target_labels = vec!["Person".to_string()];
    let q = neighbors(
        &NeighborQuery {
            handle: &handle,
            edge_types: Some(edge_types.as_slice()),
            target_labels: Some(target_labels.as_slice()),
            direction: Some(RelDirection::In),
            limit: 10,
            offset: 20,
        },
        Some("T1"),
    )
    .unwrap();
    assert!(q.text.contains("<-[r]-"));
    assert!(q.text.contains("type(r) IN $edge_types"));
    assert!(q
        .text
        .contains("any(l IN labels(m) WHERE l IN $target_labels)"));
    assert!(q.text.contains("SKIP 20 LIMIT 10"));
    assert!(
        !q.text.contains("NOT type(r) IN"),
        "explicit edge types disable the builtin guard"
    );
}

#[test]
fn neighbors_excludes_builtin_edges_by_default() {
    let handle = NodeHandle::parse("m1");
    let q = neighbors(
        &NeighborQuery {
            handle: &handle,
            edge_types: None,
            target_labels: None,
            direction: None,
            limit: 50,
            offset: 0,
        },
        None,
    )
    .unwrap();
    assert!(q.text.contains("-[r]-("));
    assert!(q.text.contains("NOT type(r) IN [\"mention\", \"part_of\"]"));
}

#[test]
fn keyword_search_builds_safe_predicates() {
    let props = vec![
        "name".to_string(),
        "bad prop".to_string(), // skipped, not an ident
    ];
    let q = keyword_search("Keanu", &props, None, false, 25, Some("T1")).unwrap();
    assert!(q
        .text
        .contains("toString(coalesce(n._lg_norm_name, \"\")) CONTAINS $q"));
    assert!(!q.text.contains("bad prop"));
    assert!(q.text.contains("NOT n:Chunk"));
    assert_eq!(q.params.get("q"), Some(&Literal::String("keanu".into())));
}

#[test]
fn keyword_search_exact_uses_equality_and_original_case() {
    let props = vec!["name".to_string()];
    let q = keyword_search("Keanu", &props, Some("Person"), true, 5, None).unwrap();
    assert!(q.text.contains("MATCH (n:Person)"));
    assert!(q.text.contains("n.name = $q"));
    assert!(!q.text.contains("NOT n:Chunk"));
    assert_eq!(q.params.get("q"), Some(&Literal::String("Keanu".into())));
}

#[test]
fn table_rejects_invalid_type_and_sort_idents() {
    assert!(matches!(
        entity_table_page("Movie) DETACH DELETE (n", "name", 10, 0, None),
        Err(ExploreError::InvalidIdentifier(_))
    ));
    assert!(matches!(
        entity_table_page("Movie", "name ASC; MATCH", 10, 0, None),
        Err(ExploreError::InvalidIdentifier(_))
    ));
}

#[test]
fn ids_are_bound_as_texts_and_numbers() {
    let ids = vec!["a".to_string(), "7".to_string()];
    let (text, params) = id_list_predicate("n.id", &ids, "");
    assert_eq!(text, "(n.id IN $ids OR n.id IN $ids_int)");
    assert_eq!(
        params.get("ids_int"),
        Some(&Literal::List(vec![Literal::Int(7)]))
    );
    let (plain, _) = id_list_predicate("n.id", &ids[..1], "x_");
    assert_eq!(plain, "n.id IN $x_ids");
}

#[test]
fn counts_are_rendered_exactly() {
    let q = entity_count("Movie", Some("T1")).unwrap();
    assert_eq!(q.text, "MATCH (n:Movie:T1) RETURN count(n) AS total");
    assert_eq!(normalized_property_name("name"), "_lg_norm_name");
}
