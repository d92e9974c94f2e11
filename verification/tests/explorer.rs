use linguagraph::db::{DbValue, QueryResult, Row};
use linguagraph::explore::classify::classify_properties;
use linguagraph::explore::dto::{
    EntityTable, NeighborOptions, PageOptions, RelDirection, SearchChannel, SearchMode, SourceRef,
    TypeCount,
};
use linguagraph::explore::error::ExploreError;
use linguagraph::explore::explorer::{
    description_of, falls_back, plan_search, rank_scores, score_rows, Explorer, ExplorerLimits,
    LookupStep, SearchPlan,
};
use linguagraph::explore::queries::{NodeHandle, NID_HANDLE_PREFIX};
use linguagraph::explore::subgraph::visible_table;
use linguagraph::explore::summary::{overview, reduce_relation_summary};
use linguagraph::json::{Float, Json, JsonNumber};
use linguagraph::prompt::{GraphSchema, NodeKind, Property, PropertyType, RelKind};
use linguagraph::strmap::StrMap;

fn float(value: f64) -> Float {
    Float {
        bits: value.to_bits(),
        text: value.to_string(),
        debug: format!("{value:?}"),
        truncated: value as i64,
        integral: value.fract() == 0.0,
    }
}

fn text(s: &str) -> Json {
    Json::Str(s.to_string())
}

fn word(s: &str) -> DbValue {
    DbValue::String(s.to_string())
}

fn strings(items: &[&str]) -> Vec<String> {
    items.iter().map(|s| s.to_string()).collect()
}

fn object(entries: Vec<(&str, Json)>) -> Json {
    let mut out = StrMap::new();
    for (key, value) in entries {
        out.insert(key.to_string(), value);
    }
    Json::Object(out)
}

fn labels(items: &[&str]) -> DbValue {
    DbValue::Json(Json::Array(items.iter().map(|s| text(s)).collect()))
}

fn row(entries: Vec<(&str, DbValue)>) -> Row {
    let mut fields = StrMap::new();
    for (key, value) in entries {
        fields.insert(key.to_string(), value);
    }
    Row { fields }
}

fn result(rows: Vec<Row>) -> QueryResult {
    QueryResult {
        columns: Vec::new(),
        rows,
    }
}

fn person(nid: i64, id: &str, name: &str) -> Row {
    row(vec![
        ("nid", DbValue::Int(nid)),
        ("id", word(id)),
        ("labels", labels(&["Person"])),
        ("props", DbValue::Json(object(vec![("name", text(name))]))),
    ])
}

fn property(name: &str, ty: PropertyType) -> Property {
    Property {
        name: name.to_string(),
        ty,
        description: None,
        allowed_values: Vec::new(),
    }
}

fn schema() -> GraphSchema {
    GraphSchema {
        nodes: vec![NodeKind {
            label: "Person".to_string(),
            domain: None,
            extra_labels: Vec::new(),
            scopes: Vec::new(),
            description: Some("Somebody".to_string()),
            properties: vec![
                property("name", PropertyType::String),
                property("email", PropertyType::String),
                property("age", PropertyType::Int),
                property("_canonical", PropertyType::String),
            ],
        }],
        relationships: vec![RelKind {
            label: "KNOWS".to_string(),
            domain: None,
            description: None,
            from: Some("Person".to_string()),
            to: Some("Person".to_string()),
            properties: Vec::new(),
        }],
    }
}

fn explorer() -> Explorer {
    Explorer::new(Some("tenant".to_string()), None)
}

#[test]
fn limits_have_defaults_and_pages_hold_one_entity_at_least() {
    let explorer = explorer();
    assert_eq!(explorer.limits, ExplorerLimits::default());
    assert_eq!(explorer.prefix(), Some("tenant"));
    assert!(explorer.catalog().is_none());
    assert_eq!(explorer.page_limit(None), 50);
    assert_eq!(explorer.page_limit(Some(0)), 1);
    assert_eq!(explorer.page_limit(Some(7)), 7);
    let small = ExplorerLimits {
        default_page: 3,
        ..ExplorerLimits::default()
    };
    assert_eq!(explorer.with_limits(small).page_limit(None), 3);
}

#[test]
fn rows_become_nodes_with_lasting_or_passing_handles() {
    let explorer = explorer();
    let node = explorer
        .node_view_from_row(&row(vec![
            ("nid", DbValue::Int(7)),
            ("id", DbValue::Int(42)),
            ("labels", labels(&["tenant", "Person"])),
            (
                "props",
                DbValue::Json(object(vec![
                    ("name", text("Ada")),
                    ("_canonical", text("Person\nname: Ada")),
                ])),
            ),
        ]))
        .unwrap();
    assert_eq!(node.id, "42");
    assert_eq!(node.name, "Ada");
    assert_eq!(node.entity_type, "Person");
    assert_eq!(node.labels, strings(&["tenant", "Person"]));
    assert!(!node.ephemeral_handle);
    assert!(node.properties.iter().iter().all(|(k, _)| *k != "_canonical"));

    let passing = explorer
        .node_view_from_row(&row(vec![("nid", DbValue::Int(7))]))
        .unwrap();
    assert_eq!(passing.id, "_nid:7");
    assert!(passing.ephemeral_handle);
    assert!(explorer.node_view_from_row(&row(Vec::new())).is_none());
}

#[test]
fn passing_handles_name_their_node() {
    for nid in [0, 7, -3, i64::MAX, i64::MIN] {
        let written = format!("{NID_HANDLE_PREFIX}{nid}");
        assert_eq!(NodeHandle::parse(&written), NodeHandle::Nid(nid));
    }
}

#[test]
fn digits_are_looked_up_as_ids_first() {
    let explorer = explorer();
    let mut replies: Vec<QueryResult> = Vec::new();
    let Ok(LookupStep::Ask(first)) = explorer.lookup_step("7", &replies) else {
        panic!("the id is looked up");
    };
    replies.push(result(Vec::new()));
    let Ok(LookupStep::Ask(second)) = explorer.lookup_step("7", &replies) else {
        panic!("the internal id is looked up");
    };
    assert_ne!(first, second);
    replies.push(result(vec![person(7, "p", "Ada")]));
    assert_eq!(
        explorer.lookup_step("7", &replies),
        Ok(LookupStep::Found {
            handle: NodeHandle::Nid(7),
            reply: 1,
        })
    );
    assert_eq!(
        explorer.lookup_step("p1", &vec![result(Vec::new())]),
        Ok(LookupStep::Missing)
    );
    let odd = Explorer::new(Some("a b".to_string()), None);
    assert_eq!(
        odd.lookup_step("p1", &Vec::new()),
        Err(ExploreError::InvalidIdentifier("a b".to_string()))
    );
}

#[test]
fn relation_counts_are_merged_by_type_and_direction() {
    let rows = result(vec![
        row(vec![
            ("rel", word("KNOWS")),
            ("dir", word("out")),
            ("neighbor_labels", labels(&["Person"])),
            ("cnt", DbValue::Int(2)),
        ]),
        row(vec![
            ("rel", word("KNOWS")),
            ("dir", word("out")),
            ("neighbor_labels", labels(&["tenant", "Person"])),
            ("cnt", DbValue::Int(3)),
        ]),
        row(vec![
            ("rel", word("KNOWS")),
            ("dir", word("in")),
            ("neighbor_labels", labels(&["Person"])),
            ("cnt", DbValue::Int(-1)),
        ]),
        row(vec![("dir", word("out"))]),
    ]);
    let merged = reduce_relation_summary(&rows, Some("tenant"), None);
    assert_eq!(merged.len(), 2);
    assert_eq!(merged[0].direction, RelDirection::Out);
    assert_eq!((merged[0].edge_type.as_str(), merged[0].count), ("KNOWS", 5));
    assert_eq!(merged[1].direction, RelDirection::In);
    assert_eq!((merged[1].neighbor_type.as_str(), merged[1].count), ("Person", 0));
}

#[test]
fn a_card_holds_the_node_its_sources_and_its_relations() {
    let found = row(vec![
        ("nid", DbValue::Int(1)),
        ("id", word("p1")),
        ("labels", labels(&["Person"])),
        ("props", DbValue::Json(object(vec![("name", text("Ada"))]))),
        (
            "sources",
            DbValue::Json(Json::Array(vec![
                object(vec![("id", text("s1")), ("name", text("Report"))]),
                object(vec![("id", Json::Null), ("name", Json::Null)]),
            ])),
        ),
    ]);
    let card = explorer().entity(&found, &result(Vec::new())).unwrap();
    assert_eq!(card.node.id, "p1");
    assert_eq!(
        card.sources,
        vec![SourceRef {
            id: Some("s1".to_string()),
            name: Some("Report".to_string()),
        }]
    );
    assert!(card.relations.is_empty());
    assert!(explorer().entity(&row(Vec::new()), &result(Vec::new())).is_none());
}

#[test]
fn the_overview_counts_business_types_alone() {
    let counted = |names: &[&str], n: i64| {
        row(vec![("labels", labels(names)), ("cnt", DbValue::Int(n))])
    };
    let related = |name: &str, n: i64| row(vec![("rel", word(name)), ("cnt", DbValue::Int(n))]);
    let report = overview(
        &schema(),
        &result(vec![
            counted(&["Movie"], 2),
            counted(&["tenant", "Person"], 4),
            counted(&["Person"], 1),
            counted(&["Source"], 9),
            counted(&["Chunk"], 90),
            counted(&["Award"], 2),
        ]),
        &result(vec![
            related("mention", 50),
            related("KNOWS", 3),
            related("part_of", 60),
            related("LIKES", 1),
        ]),
        &result(vec![
            row(vec![("id", word("s1")), ("name", word("Report"))]),
            row(vec![("id", DbValue::Null)]),
        ]),
        Some("tenant"),
        None,
    );
    assert_eq!(
        report.entity_types,
        vec![
            TypeCount {
                name: "Person".to_string(),
                count: 5,
                description: Some("Somebody".to_string()),
            },
            TypeCount {
                name: "Award".to_string(),
                count: 2,
                description: None,
            },
            TypeCount {
                name: "Movie".to_string(),
                count: 2,
                description: None,
            },
        ]
    );
    assert_eq!(report.total_entities, 9);
    assert_eq!(report.total_relations, 4);
    assert_eq!(report.relation_types.len(), 2);
    assert_eq!(report.relation_types[0].name, "KNOWS");
    assert_eq!(report.relation_types[0].from, Some("Person".to_string()));
    assert_eq!(report.relation_types[1].to, None);
    assert_eq!(report.sources.len(), 1);
    assert_eq!(description_of(&schema().nodes, "Person"), Some("Somebody".to_string()));
    assert_eq!(description_of(&schema().nodes, "Movie"), None);
}

#[test]
fn a_hop_joins_the_origin_to_its_neighbors() {
    let explorer = explorer();
    let origin = person(1, "p1", "Ada");
    let hop = |id: &str, rel: &str, outgoing: bool| {
        let mut r = person(2, id, "Bob");
        r.fields.insert("rel".to_string(), word(rel));
        r.fields.insert("outgoing".to_string(), DbValue::Bool(outgoing));
        r
    };
    let found = result(vec![
        hop("p2", "KNOWS", true),
        hop("p2", "LIKES", false),
        hop("p2", "KNOWS", true),
        row(Vec::new()),
    ]);
    let subgraph = explorer.neighbors("p1", &origin, &found, 50).unwrap();
    let ids: Vec<&str> = subgraph.nodes.iter().map(|n| n.id.as_str()).collect();
    assert_eq!(ids, ["p1", "p2"]);
    let edges: Vec<&str> = subgraph.edges.iter().map(|e| e.id.as_str()).collect();
    assert_eq!(edges, ["p1:KNOWS:p2", "p2:LIKES:p1"]);
    assert!(!subgraph.truncated);
    assert!(explorer.neighbors("p1", &origin, &found, 4).unwrap().truncated);
    assert_eq!(
        explorer.neighbors("p9", &row(Vec::new()), &found, 50),
        Err(ExploreError::UnknownEntity("p9".to_string()))
    );
    let query = explorer
        .neighbors_query(&NodeHandle::Nid(1), &NeighborOptions::default())
        .unwrap();
    assert!(query.text.contains("tenant"));
}

#[test]
fn tables_show_a_page_and_its_columns() {
    let explorer = explorer();
    let page = PageOptions {
        limit: Some(2),
        offset: 4,
        sort_by: None,
    };
    let table = explorer.entities_of_type(
        "Person",
        &page,
        Some(&schema()),
        &result(vec![person(1, "p1", "Ada"), row(Vec::new())]),
        &result(vec![row(vec![("total", DbValue::Int(9))])]),
    );
    assert_eq!(table.rows.len(), 1);
    assert_eq!((table.total, table.offset), (9, 4));
    assert_eq!(table.key_columns, strings(&["id", "name", "email"]));
    assert_eq!(explorer.key_columns_for(None, "Person"), strings(&["id", "name"]));
    assert_eq!(
        explorer.searchable_string_props(&schema(), None),
        strings(&["id", "name", "title", "email"])
    );
    assert_eq!(
        explorer.searchable_string_props(&schema(), Some("Movie")),
        strings(&["id", "name", "title"])
    );
    assert!(explorer.table_query("Per son", &page).is_err());
}

#[test]
fn a_type_is_shown_with_the_edges_among_its_entities() {
    let explorer = explorer();
    let table = || EntityTable {
        entity_type: "Person".to_string(),
        key_columns: Vec::new(),
        rows: explorer.node_views(&vec![
            person(1, "p1", "Ada"),
            row(vec![("nid", DbValue::Int(5))]),
        ]),
        total: 2,
        offset: 0,
    };
    assert_eq!(explorer.lasting_handles(&table()), strings(&["p1"]));
    let edge = row(vec![
        ("from_id", word("p1")),
        ("to_id", DbValue::Int(3)),
        ("rel", word("KNOWS")),
        (
            "props",
            DbValue::Json(object(vec![(
                "confidence",
                Json::Number(JsonNumber::Float(float(0.5))),
            )])),
        ),
    ]);
    let shown = explorer.subgraph_of_type(
        table(),
        Some(&result(vec![edge, row(vec![("rel", word("KNOWS"))])])),
    );
    assert_eq!(shown.nodes.len(), 2);
    assert_eq!(shown.edges.len(), 1);
    assert_eq!(shown.edges[0].id, "p1:KNOWS:3");
    assert_eq!(shown.edges[0].confidence, Some(JsonNumber::Float(float(0.5))));
    assert!(!shown.truncated);
    let alone = explorer.subgraph_of_type(table(), None);
    assert!(alone.edges.is_empty());
}

#[test]
fn automatic_search_falls_back_to_words() {
    assert_eq!(plan_search(SearchMode::Keyword, true), SearchPlan::Keyword);
    assert_eq!(plan_search(SearchMode::Semantic, false), SearchPlan::Semantic);
    assert_eq!(plan_search(SearchMode::Auto, false), SearchPlan::Keyword);
    assert_eq!(plan_search(SearchMode::Auto, true), SearchPlan::SemanticElseKeyword);
    assert!(falls_back(SearchPlan::SemanticElseKeyword, None));
    assert!(falls_back(SearchPlan::SemanticElseKeyword, Some(0)));
    assert!(!falls_back(SearchPlan::SemanticElseKeyword, Some(1)));
    assert!(!falls_back(SearchPlan::Semantic, None));
}

#[test]
fn nodes_are_ranked_by_their_best_score() {
    let scored = |nid: i64, score: DbValue| row(vec![("nid", DbValue::Int(nid)), ("score", score)]);
    let rows = score_rows(&result(vec![
        scored(1, DbValue::Float(float(0.25))),
        scored(2, DbValue::Float(float(0.5))),
        scored(1, DbValue::Int(1)),
        row(vec![("score", DbValue::Int(9))]),
        row(vec![("nid", DbValue::Int(3))]),
    ]));
    assert_eq!(rows.len(), 5);
    assert_eq!(rows[2], (Some(1), Some(1.0f64.to_bits())));
    assert_eq!(rows[3].0, None);
    let ranked = rank_scores(&rows, 50);
    assert_eq!(
        ranked,
        vec![
            (1, 1.0f64.to_bits()),
            (2, 0.5f64.to_bits()),
            (3, 0.0f64.to_bits()),
        ]
    );
    assert_eq!(rank_scores(&rows, 1).len(), 1);

    let explorer = explorer();
    let found = explorer.semantic_hits(
        &ranked,
        &result(vec![person(2, "p2", "Bob"), person(1, "p1", "Ada")]),
    );
    let ids: Vec<&str> = found.hits.iter().map(|h| h.node.id.as_str()).collect();
    assert_eq!(ids, ["p1", "p2"]);
    assert_eq!(found.hits[0].score, Some(1.0f64.to_bits()));
    assert_eq!(found.hits[0].channel, SearchChannel::Semantic);
    let words = explorer.keyword_hits(&result(vec![person(1, "p1", "Ada")]));
    assert_eq!(words.hits[0].score, None);
    assert_eq!(words.hits[0].channel, SearchChannel::Keyword);
}

#[test]
fn a_subgraph_is_put_together_from_its_nodes_and_edges() {
    let explorer = explorer();
    let ids = strings(&["p1", "p2"]);
    let edge = |to: &str| {
        row(vec![
            ("from_id", word("p1")),
            ("to_id", word(to)),
            ("rel", word("KNOWS")),
        ])
    };
    let built = explorer.materialize_subgraph(
        &ids,
        true,
        &result(vec![person(1, "p1", "Ada"), person(2, "p2", "Bob")]),
        &result(vec![edge("p2"), edge("p2")]),
    );
    assert_eq!(built.nodes.len(), 2);
    assert_eq!(built.edges.len(), 1);
    assert!(built.truncated);
    assert!(!built.is_empty());
}

#[test]
fn every_property_stands_in_one_group() {
    let mut props = StrMap::new();
    for (name, value) in [
        ("email", text("ada@example.org")),
        ("bio", text("A pioneer")),
        ("born", text("1815-12-10")),
        ("age", Json::Number(JsonNumber::Int(36))),
        ("tags", Json::Array(vec![text("maths")])),
        ("_canonical", text("Person")),
    ] {
        props.insert(name.to_string(), value);
    }
    let groups = classify_properties("Person", props, None);
    let mut names: Vec<&str> = groups.iter().iter().map(|(k, _)| k.as_str()).collect();
    names.sort();
    assert_eq!(names, ["age", "bio", "born", "email", "tags"]);
}

#[test]
fn tables_hold_distinct_rows_up_to_their_cap() {
    let named = |name: &str, id: &str| row(vec![("name", word(name)), ("__id_p", word(id))]);
    let found = QueryResult {
        columns: vec![
            linguagraph::db::Column::new("name"),
            linguagraph::db::Column::new("__id_p"),
        ],
        rows: vec![named("Ada", "p1"), named("Ada", "p2"), named("Bob", "p3")],
    };
    let all = visible_table(&found, false, None);
    assert_eq!((all.rows.len(), all.row_entities.len()), (3, 3));
    assert_eq!(all.columns, strings(&["name"]));
    let distinct = visible_table(&found, true, None);
    assert_eq!((distinct.rows.len(), distinct.row_entities.len()), (2, 2));
    assert_ne!(distinct.rows[0], distinct.rows[1]);
    assert_eq!(visible_table(&found, false, Some(2)).rows.len(), 2);
    assert_eq!(visible_table(&found, true, Some(1)).rows.len(), 1);
    let none = visible_table(&found, false, Some(0));
    assert_eq!(none.columns, strings(&["name"]));
    assert!(none.rows.is_empty() && none.row_entities.is_empty());
}

#[test]
fn counts_of_other_groups_do_not_limit_each_other() {
    let counted = |rel: Option<&str>, dir: &str| {
        let mut entries = vec![
            ("dir", word(dir)),
            ("neighbor_labels", labels(&["Person"])),
            ("cnt", DbValue::Int(i64::MAX)),
        ];
        if let Some(rel) = rel {
            entries.push(("rel", word(rel)));
        }
        row(entries)
    };
    let rows = result(vec![
        counted(Some("KNOWS"), "out"),
        counted(Some("KNOWS"), "in"),
        counted(Some("LIKES"), "out"),
        counted(None, "out"),
    ]);
    let merged = reduce_relation_summary(&rows, None, None);
    assert_eq!(merged.len(), 3);
    assert!(merged.iter().all(|s| s.count == i64::MAX as u64));
}

#[test]
fn scores_that_are_not_numbers_are_ranked_too() {
    let nan = f64::NAN.to_bits();
    let bits = |x: f64| x.to_bits();
    assert_eq!(rank_scores(&vec![(Some(7), Some(nan))], 10), vec![(7, nan)]);
    assert_eq!(
        rank_scores(&vec![(Some(7), Some(nan)), (Some(7), Some(bits(0.5)))], 10),
        vec![(7, bits(0.5))]
    );
    assert_eq!(
        rank_scores(&vec![(Some(7), Some(bits(-1.0))), (Some(7), Some(nan))], 10),
        vec![(7, bits(-1.0))]
    );
    assert_eq!(
        rank_scores(&vec![(Some(1), Some(nan)), (Some(2), Some(bits(3.0)))], 10),
        vec![(1, nan), (2, bits(3.0))]
    );
    assert_eq!(
        rank_scores(
            &vec![
                (None, Some(nan)),
                (Some(1), Some(bits(1.0))),
                (Some(2), Some(bits(3.0))),
            ],
            10
        ),
        vec![(2, bits(3.0)), (1, bits(1.0))]
    );
}
