use linguagraph::ingest::document::{
    build_document_plan, chunk_uuid, entity_uuid, sanitize_label, sanitize_rel, ChunkInput,
    DocumentBody, DocumentIngestOptions, DocumentInput, EntityInput, RelationInput,
};
use linguagraph::ingest::dsl::InsertPlan;
use linguagraph::ingest::error::IngestError;
use linguagraph::literal::Literal;
use linguagraph::types::{BuiltinRegistry, SideEffect};

fn entity(id: &str, kind: &str, name: &str) -> EntityInput {
    EntityInput {
        id: id.to_string(),
        kind: kind.to_string(),
        name: name.to_string(),
    }
}

fn relation(from: &str, to: &str, kind: &str) -> RelationInput {
    RelationInput {
        from: from.to_string(),
        to: to.to_string(),
        kind: kind.to_string(),
    }
}

fn chunk(
    id: &str,
    text: &str,
    entities: Vec<EntityInput>,
    relations: Vec<RelationInput>,
) -> ChunkInput {
    ChunkInput {
        id: id.to_string(),
        text: text.to_string(),
        entities,
        relations,
    }
}

fn document(name: &str, path: &str, chunks: Vec<ChunkInput>) -> DocumentInput {
    DocumentInput {
        document: DocumentBody {
            name: name.to_string(),
            path: path.to_string(),
            chunks,
        },
    }
}

fn plan(doc: &DocumentInput) -> Result<(InsertPlan, Vec<SideEffect>), IngestError> {
    let registry = BuiltinRegistry {
        semantic_collection: Some("test".to_string()),
    };
    let mut effects = Vec::new();
    let plan = build_document_plan(
        doc,
        &DocumentIngestOptions::default(),
        &registry,
        &mut effects,
    )?;
    Ok((plan, effects))
}

fn alice_at_acme() -> DocumentInput {
    document(
        "doc",
        "/d.txt",
        vec![chunk(
            "c1",
            "Alice works at Acme.",
            vec![
                entity("e1", "Person", "Alice"),
                entity("e2", "Company", "Acme"),
            ],
            vec![relation("e1", "e2", "WORKS_AT")],
        )],
    )
}

#[test]
fn happy_path_builds_expected_plan() {
    let (plan, effects) = plan(&alice_at_acme()).unwrap();

    let labels: Vec<&str> = plan.nodes.iter().map(|n| n.label.as_str()).collect();
    assert!(labels.contains(&"Document"));
    assert!(labels.contains(&"Chunk"));
    assert!(labels.contains(&"Person"));
    assert!(labels.contains(&"Company"));

    let rel_types: Vec<&str> = plan.relations.iter().map(|r| r.rel_type.as_str()).collect();
    assert!(rel_types.contains(&"HAS_CHUNK"));
    assert_eq!(
        rel_types.iter().filter(|t| **t == "MENTIONS").count(),
        2,
        "one MENTIONS plan per entity label"
    );
    assert!(rel_types.contains(&"WORKS_AT"));

    assert_eq!(effects.len(), 3);
}

#[test]
fn planned_relations_end_in_planned_nodes() {
    let (plan, _) = plan(&alice_at_acme()).unwrap();
    for group in &plan.relations {
        for row in &group.rows {
            let found = |label: &str, key: &str, id: &Literal| {
                plan.nodes.iter().any(|n| {
                    n.label == label && n.merge_on == key && n.rows.iter().any(|r| &r.id == id)
                })
            };
            assert!(found(&group.from_label, &group.from_key, &row.from_id));
            assert!(found(&group.to_label, &group.to_key, &row.to_id));
        }
    }
}

#[test]
fn entity_names_are_embedded_per_label() {
    let doc = document(
        "d",
        "/d",
        vec![chunk(
            "c1",
            "...",
            vec![
                entity("e1", "Person", "Alice"),
                entity("e2", "Company", "Acme"),
            ],
            Vec::new(),
        )],
    );
    let (_, effects) = plan(&doc).unwrap();

    let texts_of = |wanted: &str| -> Vec<String> {
        effects
            .iter()
            .filter_map(|e| match e {
                SideEffect::EmbedAndStore { label, text, .. } => {
                    (label == wanted).then_some(text.clone())
                }
            })
            .collect()
    };
    assert_eq!(texts_of("Chunk").len(), 1);
    assert_eq!(texts_of("Person").len(), 1);
    assert_eq!(texts_of("Company").len(), 1);
    assert!(texts_of("Person").contains(&"Alice".to_string()));
    assert!(texts_of("Company").contains(&"Acme".to_string()));
}

#[test]
fn requires_semantic_text_handler() {
    let registry = BuiltinRegistry {
        semantic_collection: None,
    };
    let mut effects = Vec::new();
    let doc = document("d", "/d", vec![chunk("c1", "x", Vec::new(), Vec::new())]);
    let err = build_document_plan(
        &doc,
        &DocumentIngestOptions::default(),
        &registry,
        &mut effects,
    )
    .unwrap_err();
    match err {
        IngestError::Type(msg) => assert!(
            msg.contains("SemanticText"),
            "expected SemanticText-required message, got: {msg}"
        ),
        other => panic!("expected IngestError::Type, got {other:?}"),
    }
}

#[test]
fn a_batch_holds_at_least_one_row() {
    let registry = BuiltinRegistry {
        semantic_collection: Some("test".to_string()),
    };
    let doc = document("d", "/d", Vec::new());
    assert_eq!(
        build_document_plan(
            &doc,
            &DocumentIngestOptions { max_batch_size: 0 },
            &registry,
            &mut Vec::new(),
        ),
        Err(IngestError::InvalidBatchSize)
    );
}

fn first_id(plan: &InsertPlan, label: &str) -> String {
    match &plan.nodes.iter().find(|n| n.label == label).unwrap().rows[0].id {
        Literal::String(s) => s.clone(),
        _ => unreachable!(),
    }
}

#[test]
fn idempotent_uuids() {
    let doc = || {
        document(
            "d",
            "/d.txt",
            vec![chunk("c1", "x", vec![entity("e1", "Person", "A")], Vec::new())],
        )
    };
    let (p1, _) = plan(&doc()).unwrap();
    let (p2, _) = plan(&doc()).unwrap();
    assert_eq!(first_id(&p1, "Person"), first_id(&p2, "Person"));
}

#[test]
fn ids_are_derived_from_their_place() {
    let namespace = uuid::Uuid::from_u128(0x6c69_6e67_7561_6772_6170_6864_6f63_5f31);
    assert_eq!(
        chunk_uuid("/d.txt", "c1"),
        uuid::Uuid::new_v5(&namespace, b"chunk:/d.txt#c1")
            .hyphenated()
            .to_string()
    );
    assert_eq!(
        entity_uuid("/d.txt", "c1", "e1"),
        uuid::Uuid::new_v5(&namespace, b"entity:/d.txt#c1#e1")
            .hyphenated()
            .to_string()
    );
    assert_eq!(chunk_uuid("/d.txt", "c1").len(), 36);
}

#[test]
fn sanitizes_dynamic_labels_and_relations() {
    let doc = document(
        "d",
        "/d.txt",
        vec![chunk(
            "c1",
            "x",
            vec![
                entity("e1", "Music Group", "Beatles"),
                entity("e2", "Person", "John"),
            ],
            vec![relation("e2", "e1", "member-of")],
        )],
    );
    let (plan, _) = plan(&doc).unwrap();
    assert!(plan.nodes.iter().any(|n| n.label == "Music_Group"));
    assert!(plan.relations.iter().any(|r| r.rel_type == "MEMBER_OF"));
}

#[test]
fn labels_become_identifiers() {
    assert_eq!(sanitize_label("Music Group"), Some("Music_Group".to_string()));
    assert_eq!(sanitize_label("3D-Model"), Some("_3D_Model".to_string()));
    assert_eq!(sanitize_label("---"), None);
    assert_eq!(sanitize_rel("works at"), Some("WORKS_AT".to_string()));
}

#[test]
fn reserved_label_rejected() {
    let doc = document(
        "d",
        "/d",
        vec![chunk("c1", "x", vec![entity("e1", "Document", "x")], Vec::new())],
    );
    let err = plan(&doc).unwrap_err();
    assert!(matches!(err, IngestError::ReservedLabel(s) if s == "Document"));
}

#[test]
fn reserved_relation_rejected() {
    let doc = document(
        "d",
        "/d",
        vec![chunk(
            "c1",
            "x",
            vec![entity("e1", "Person", "A"), entity("e2", "Person", "B")],
            vec![relation("e1", "e2", "MENTIONS")],
        )],
    );
    let err = plan(&doc).unwrap_err();
    assert!(matches!(err, IngestError::ReservedRelation(s) if s == "MENTIONS"));
}

#[test]
fn dangling_local_id_rejected() {
    let doc = document(
        "d",
        "/d",
        vec![chunk(
            "c1",
            "x",
            vec![entity("e1", "Person", "A")],
            vec![relation("e1", "e9", "KNOWS")],
        )],
    );
    let err = plan(&doc).unwrap_err();
    match err {
        IngestError::UnknownLocalId { chunk, local_id } => {
            assert_eq!(chunk, "c1");
            assert_eq!(local_id, "e9");
        }
        other => panic!("expected UnknownLocalId, got {other:?}"),
    }
}

#[test]
fn label_starting_with_digit_gets_underscore_prefix() {
    let doc = document(
        "d",
        "/d",
        vec![chunk("c1", "x", vec![entity("e1", "3D-Model", "cube")], Vec::new())],
    );
    let (plan, _) = plan(&doc).unwrap();
    assert!(plan.nodes.iter().any(|n| n.label == "_3D_Model"));
}

#[test]
fn pure_symbol_label_rejected() {
    let doc = document(
        "d",
        "/d",
        vec![chunk("c1", "x", vec![entity("e1", "---", "x")], Vec::new())],
    );
    let err = plan(&doc).unwrap_err();
    assert!(matches!(err, IngestError::InvalidLabel(_)));
}

#[test]
fn cross_chunk_entities_are_distinct() {
    let doc = document(
        "d",
        "/d",
        vec![
            chunk("c1", "Alice 1", vec![entity("e1", "Person", "Alice")], Vec::new()),
            chunk("c2", "Alice 2", vec![entity("e1", "Person", "Alice")], Vec::new()),
        ],
    );
    let (plan, effects) = plan(&doc).unwrap();
    let person = plan.nodes.iter().find(|n| n.label == "Person").unwrap();
    assert_eq!(person.rows.len(), 2);
    let ids: Vec<&Literal> = person.rows.iter().map(|r| &r.id).collect();
    assert_ne!(ids[0], ids[1]);
    assert_eq!(effects.len(), 4);
}

#[test]
fn rows_of_a_plan_are_counted() {
    let (plan, _) = plan(&alice_at_acme()).unwrap();
    assert_eq!(plan.total_node_rows(), 4);
    assert_eq!(plan.total_relation_rows(), 4);
    assert!(!plan.is_empty());
    let nothing = InsertPlan::new();
    assert!(nothing.is_empty());
    assert_eq!(nothing.total_node_rows(), 0);
    assert_eq!(nothing.total_relation_rows(), 0);
}

#[test]
fn ingest_errors_have_messages_of_their_own() {
    let all = [
        IngestError::Ast("a".to_string()),
        IngestError::UnknownEntityType("t".to_string()),
        IngestError::InvalidBatchSize,
        IngestError::Type("t".to_string()),
        IngestError::ReservedLabel("l".to_string()),
        IngestError::ReservedRelation("r".to_string()),
        IngestError::InvalidLabel("l".to_string()),
        IngestError::UnknownLocalId {
            chunk: "c".to_string(),
            local_id: "e".to_string(),
        },
        IngestError::MissingGraphPrimaryKey("l".to_string()),
        IngestError::MissingGraphPrimaryKeyValue {
            label: "l".to_string(),
            field: "f".to_string(),
        },
        IngestError::UnknownGraphEntityRef(7),
        IngestError::SoftMergeBackendUnavailable("b".to_string()),
        IngestError::SoftMerge("s".to_string()),
    ];
    for (i, a) in all.iter().enumerate() {
        for b in all.iter().skip(i + 1) {
            assert_ne!(a.message(), b.message());
        }
    }
}
