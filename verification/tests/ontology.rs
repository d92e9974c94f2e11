use linguagraph::graph::ontology::{
    DomainOntology, EntityTypeSpec, OntologyCatalog, PropertySpec, RelationTypeSpec,
};
use linguagraph::graph::projection::{domain_query_text, merged_allowed_values};
use linguagraph::graph::schema::OntologyPropertyType;
use linguagraph::prompt::{GraphSchema, NodeKind, Property, PropertyType, RelKind};

fn strings(items: &[&str]) -> Vec<String> {
    items.iter().map(|s| s.to_string()).collect()
}

#[test]
fn loads_builtin_catalog_with_legal_domain() {
    let cat = OntologyCatalog::builtin();
    let legal = cat.get("legal").expect("legal domain must be present");
    let entity_names: Vec<&str> = legal.entity_types.iter().map(|e| e.name.as_str()).collect();
    assert!(entity_names.contains(&"LegalNorm"));
    assert!(entity_names.contains(&"StateBody"));
    let rel_names: Vec<&str> = legal
        .relation_types
        .iter()
        .map(|r| r.name.as_str())
        .collect();
    assert!(rel_names.contains(&"GRANTS"));
    assert!(rel_names.contains(&"APPLIES_TO"));
}

#[test]
fn unknown_domain_returns_none() {
    let cat = OntologyCatalog::builtin();
    assert!(cat.get("nope").is_none());
}

#[test]
fn project_schema_keeps_only_ontology_declared_schema_and_enriches_descriptions() {
    let mut cat = OntologyCatalog::default();
    cat.insert(
        "shop",
        DomainOntology {
            name: None,
            description: None,
            entity_types: vec![
                EntityTypeSpec {
                    name: "Order".to_string(),
                    description: Some("A customer order".to_string()),
                    properties: vec![PropertySpec {
                        name: "status".to_string(),
                        description: Some("lifecycle state".to_string()),
                        property_type: OntologyPropertyType::Keyword,
                        required: false,
                        allowed_values: vec!["Refunded".to_string()],
                    }],
                },
                EntityTypeSpec {
                    name: "Customer".to_string(),
                    description: Some("A buyer".to_string()),
                    properties: vec![PropertySpec {
                        name: "name".to_string(),
                        description: Some("Customer display name".to_string()),
                        property_type: OntologyPropertyType::Text,
                        required: true,
                        allowed_values: Vec::new(),
                    }],
                },
            ],
            relation_types: vec![
                RelationTypeSpec::with_description("PLACED", "Customer placed an order"),
                RelationTypeSpec::with_description("AUDITED", "Audit relation"),
            ],
        },
    );
    cat.insert(
        "debug",
        DomainOntology {
            name: None,
            description: None,
            entity_types: vec![EntityTypeSpec {
                name: "DebugNode".to_string(),
                description: Some("Debug-only node".to_string()),
                properties: Vec::new(),
            }],
            relation_types: vec![RelationTypeSpec::with_description(
                "AUDITED",
                "Audit relation",
            )],
        },
    );

    let mut schema = GraphSchema {
        nodes: vec![
            NodeKind {
                label: "Order".to_string(),
                domain: None,
                extra_labels: vec!["shop".to_string()],
                scopes: Vec::new(),
                description: None,
                properties: vec![
                    Property {
                        name: "status".to_string(),
                        ty: PropertyType::String,
                        description: None,
                        allowed_values: vec!["pending".to_string(), "completed".to_string()],
                    },
                    Property {
                        name: "internal_note".to_string(),
                        ty: PropertyType::String,
                        description: Some("not from ontology".to_string()),
                        allowed_values: Vec::new(),
                    },
                ],
            },
            NodeKind {
                label: "Customer".to_string(),
                domain: None,
                extra_labels: vec!["shop".to_string()],
                scopes: Vec::new(),
                description: None,
                properties: vec![Property {
                    name: "name".to_string(),
                    ty: PropertyType::String,
                    description: None,
                    allowed_values: Vec::new(),
                }],
            },
            NodeKind {
                label: "DebugNode".to_string(),
                domain: None,
                extra_labels: vec!["debug".to_string()],
                scopes: Vec::new(),
                description: Some("live only".to_string()),
                properties: Vec::new(),
            },
        ],
        relationships: vec![
            RelKind {
                label: "PLACED".to_string(),
                domain: None,
                description: None,
                from: Some("Customer".to_string()),
                to: Some("Order".to_string()),
                properties: vec![Property {
                    name: "since".to_string(),
                    ty: PropertyType::Date,
                    description: None,
                    allowed_values: Vec::new(),
                }],
            },
            RelKind {
                label: "IGNORED".to_string(),
                domain: None,
                description: None,
                from: Some("Customer".to_string()),
                to: Some("Order".to_string()),
                properties: Vec::new(),
            },
            RelKind {
                label: "AUDITED".to_string(),
                domain: None,
                description: None,
                from: Some("Order".to_string()),
                to: Some("DebugNode".to_string()),
                properties: Vec::new(),
            },
        ],
    };

    let selected_domains = vec![cat.get("shop").unwrap()];
    OntologyCatalog::project_schema(&mut schema, selected_domains);

    let node_labels: Vec<&str> = schema
        .nodes
        .iter()
        .map(|node| node.label.as_str())
        .collect();
    assert_eq!(node_labels, vec!["Order", "Customer"]);
    assert_eq!(
        schema.nodes[0].description.as_deref(),
        Some("A customer order")
    );
    assert_eq!(schema.nodes[0].properties.len(), 1);
    let prop = &schema.nodes[0].properties[0];
    assert_eq!(prop.name, "status");
    assert_eq!(prop.description.as_deref(), Some("lifecycle state"));
    assert_eq!(
        prop.allowed_values,
        vec![
            "completed".to_string(),
            "pending".to_string(),
            "refunded".to_string()
        ]
    );

    assert_eq!(schema.nodes[1].description.as_deref(), Some("A buyer"));
    assert_eq!(schema.nodes[1].properties.len(), 1);
    assert_eq!(
        schema.nodes[1].properties[0].description.as_deref(),
        Some("Customer display name")
    );

    assert_eq!(schema.relationships.len(), 1);
    let rel = &schema.relationships[0];
    assert_eq!(rel.label, "PLACED");
    assert_eq!(rel.description.as_deref(), Some("Customer placed an order"));
    assert!(rel.properties.is_empty());
}

#[test]
fn project_schema_keeps_relationships_inside_their_projected_domain() {
    let mut cat = OntologyCatalog::default();
    cat.insert(
        "core",
        DomainOntology {
            name: None,
            description: None,
            entity_types: vec![
                EntityTypeSpec::new("Person"),
                EntityTypeSpec::new("Location"),
            ],
            relation_types: vec![RelationTypeSpec::with_description(
                "LOCATED_AT",
                "Generic location relation",
            )],
        },
    );
    cat.insert(
        "camera",
        DomainOntology {
            name: None,
            description: None,
            entity_types: vec![EntityTypeSpec::new("Camera"), EntityTypeSpec::new("Place")],
            relation_types: vec![RelationTypeSpec::new("LOCATED_AT")],
        },
    );

    let mut schema = GraphSchema {
        nodes: vec![
            NodeKind {
                label: "Camera".to_string(),
                domain: None,
                extra_labels: vec!["camera".to_string()],
                scopes: Vec::new(),
                description: None,
                properties: Vec::new(),
            },
            NodeKind {
                label: "Place".to_string(),
                domain: None,
                extra_labels: vec!["camera".to_string()],
                scopes: Vec::new(),
                description: None,
                properties: Vec::new(),
            },
        ],
        relationships: vec![RelKind {
            label: "LOCATED_AT".to_string(),
            domain: None,
            description: None,
            from: Some("Camera".to_string()),
            to: Some("Place".to_string()),
            properties: Vec::new(),
        }],
    };

    OntologyCatalog::project_schema(&mut schema, cat.all_domains());

    assert_eq!(schema.relationships.len(), 1);
    let rel = &schema.relationships[0];
    assert_eq!(rel.label, "LOCATED_AT");
    assert_eq!(rel.domain.as_deref(), Some("camera"));
    assert_eq!(rel.description, None);
}

#[test]
fn project_schema_keeps_unscoped_nodes_for_e2e_prefix_labels() {
    let mut cat = OntologyCatalog::default();
    cat.insert(
        "camera_domain",
        DomainOntology {
            name: None,
            description: None,
            entity_types: vec![EntityTypeSpec::new("Camera"), EntityTypeSpec::new("Place")],
            relation_types: vec![RelationTypeSpec::with_description(
                "LOCATED_AT",
                "Camera to place",
            )],
        },
    );

    let mut schema = GraphSchema {
        nodes: vec![
            NodeKind {
                label: "Camera".to_string(),
                domain: None,
                extra_labels: vec!["E2E_CAMERAS_BASIC".to_string()],
                scopes: Vec::new(),
                description: None,
                properties: Vec::new(),
            },
            NodeKind {
                label: "Place".to_string(),
                domain: None,
                extra_labels: vec!["E2E_CAMERAS_BASIC".to_string()],
                scopes: Vec::new(),
                description: None,
                properties: Vec::new(),
            },
        ],
        relationships: vec![RelKind {
            label: "LOCATED_AT".to_string(),
            domain: None,
            description: None,
            from: Some("Camera".to_string()),
            to: Some("Place".to_string()),
            properties: Vec::new(),
        }],
    };

    OntologyCatalog::project_schema(&mut schema, cat.all_domains());

    let labels: Vec<&str> = schema
        .nodes
        .iter()
        .map(|node| node.label.as_str())
        .collect();
    assert_eq!(labels, vec!["Camera", "Place"]);
    assert_eq!(schema.relationships.len(), 1);
    assert_eq!(schema.relationships[0].label, "LOCATED_AT");
}

#[test]
fn schemas_are_split_by_domain() {
    let node = |label: &str, domain: Option<&str>| NodeKind {
        label: label.to_string(),
        domain: domain.map(|d| d.to_string()),
        extra_labels: Vec::new(),
        scopes: Vec::new(),
        description: None,
        properties: Vec::new(),
    };
    let schema = GraphSchema {
        nodes: vec![
            node("Person", Some("core")),
            node("Camera", Some("camera")),
            node("Place", Some("core")),
        ],
        relationships: Vec::new(),
    };
    let split = OntologyCatalog::split_schema_by_domain(&schema);
    assert_eq!(split.len(), 2);
    let labels: Vec<&str> = split
        .get("core")
        .unwrap()
        .nodes
        .iter()
        .map(|n| n.label.as_str())
        .collect();
    assert_eq!(labels, vec!["Person", "Place"]);
}

#[test]
fn declared_and_seen_values_are_joined() {
    assert_eq!(
        merged_allowed_values(&strings(&["b", "A"]), &strings(&["a", "c"])),
        strings(&["a", "b", "c"])
    );
}

#[test]
fn catalogs_are_merged_by_domain_and_type() {
    let domain = |entity: &str| DomainOntology {
        name: None,
        description: None,
        entity_types: vec![EntityTypeSpec::new(entity)],
        relation_types: Vec::new(),
    };
    let mut catalog = OntologyCatalog::new();
    catalog.insert("a", domain("Person"));
    let mut other = OntologyCatalog::new();
    other.insert("b", domain("Movie"));
    catalog.merge(&other);
    assert_eq!(catalog.domains(), vec!["a", "b"]);
    assert_eq!(catalog.get_entity("Movie").map(|e| e.0), Some("b"));
    assert!(catalog.get_entity("Book").is_none());
}

#[test]
fn domains_are_named_by_their_keys() {
    let mut catalog = OntologyCatalog::new();
    catalog.insert("core", DomainOntology::empty());
    catalog.hydrate_domain_names();
    assert_eq!(catalog.get("core").unwrap().name(), Some("core"));
    assert!(domain_query_text("who?").contains("who?"));
}

#[test]
fn types_and_properties_are_looked_up_in_a_domain_or_in_all() {
    let since = PropertySpec {
        name: "since".to_string(),
        description: None,
        property_type: OntologyPropertyType::Number,
        required: false,
        allowed_values: Vec::new(),
    };
    let code = PropertySpec {
        name: "code".to_string(),
        description: None,
        property_type: OntologyPropertyType::Keyword,
        required: true,
        allowed_values: Vec::new(),
    };
    let mut catalog = OntologyCatalog::new();
    catalog.insert(
        "a",
        DomainOntology {
            name: None,
            description: None,
            entity_types: vec![EntityTypeSpec {
                name: "Person".to_string(),
                description: None,
                properties: vec![code],
            }],
            relation_types: vec![RelationTypeSpec {
                name: "KNOWS".to_string(),
                description: None,
                properties: vec![since],
            }],
        },
    );
    catalog.insert("b", DomainOntology::empty());
    assert!(catalog.get_entity_in("a", "Person").is_some());
    assert!(catalog.get_entity_in("b", "Person").is_none());
    assert!(catalog.get_entity_in("c", "Person").is_none());
    assert!(catalog.get_relation_in("a", "KNOWS").is_some());
    assert!(catalog.get_relation_in("b", "KNOWS").is_none());
    assert_eq!(catalog.get_relation("KNOWS").map(|r| r.0), Some("a"));
    assert!(catalog.get_property_in("a", "KNOWS", "since").is_some());
    assert!(catalog.get_property_in("b", "KNOWS", "since").is_none());
    assert!(catalog.get_property("Person", "code").unwrap().required);
    assert_eq!(catalog.get_query_type("Person", "code"), Some("Keyword"));
    assert_eq!(catalog.get_query_type("KNOWS", "since"), None);
    assert_eq!(catalog.get_query_type("Person", "since"), None);
}

#[test]
fn descriptions_are_filled_in_where_there_are_none() {
    let mut catalog = OntologyCatalog::new();
    catalog.insert_entity_description("core", "Person", "A human being.");
    catalog.insert_entity_description("core", "Person", "Somebody.");
    assert_eq!(catalog.get("core").unwrap().name(), Some("core"));
    let described = catalog.get_entity_in("core", "Person").unwrap();
    assert_eq!(described.description, Some("A human being.".to_string()));
    assert_eq!(catalog.get("core").unwrap().entity_types.len(), 1);
    catalog.insert(
        "bare",
        DomainOntology {
            name: None,
            description: None,
            entity_types: vec![EntityTypeSpec::with_description("Movie", "")],
            relation_types: Vec::new(),
        },
    );
    catalog.insert_entity_description("bare", "Movie", "A film.");
    assert_eq!(
        catalog.get_entity_in("bare", "Movie").unwrap().description,
        Some("A film.".to_string())
    );
}
