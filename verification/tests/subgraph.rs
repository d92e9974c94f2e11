use linguagraph::db::{Column, DbValue, QueryResult, Row};
use linguagraph::dsl::{
    Action, DslQuery, EdgeDirection, EdgePattern, NodePattern, ReturnItem, TraversalStep,
};
use linguagraph::explore::explorer::Explorer;
use linguagraph::explore::subgraph::{
    collect_row_sources, column_entity_aliases, gather_ids, inject_node_id_returns,
    is_hidden_column, visible_table,
};
use linguagraph::json::{Float, Json};
use linguagraph::strmap::StrMap;

fn float(value: f64) -> Float {
    Float {
        bits: value.to_bits(),
        text: value.to_string(),
        debug: format!("{value:?}"),
        truncated: value as i64,
        integral: value.fract() == 0.0,
    }
}

fn text(s: &str) -> Json {
    Json::Str(s.to_string())
}

fn object(entries: Vec<(&str, Json)>) -> Json {
    let mut out = StrMap::new();
    for (key, value) in entries {
        out.insert(key.to_string(), value);
    }
    Json::Object(out)
}

fn names(entries: Vec<(&str, &str)>) -> StrMap<String> {
    let mut out = StrMap::new();
    for (key, value) in entries {
        out.insert(key.to_string(), value.to_string());
    }
    out
}

fn query(label: &str, alias: &str, items: Vec<ReturnItem>) -> DslQuery {
    DslQuery {
        action: Action::Find,
        start: NodePattern {
            label: label.to_string(),
            alias: alias.to_string(),
        },
        traversals: Vec::new(),
        filters: Vec::new(),
        return_: items,
        group_by: Vec::new(),
        sort: Vec::new(),
        limit: None,
        distinct: false,
        prefix_label: None,
        prefix_index: None,
    }
}

fn plain(field: &str, alias: Option<&str>) -> ReturnItem {
    ReturnItem::Field {
        field: field.to_string(),
        alias: alias.map(String::from),
    }
}

fn find_dsl() -> DslQuery {
    let mut q = query("Person", "p", vec![plain("p.name", Some("name"))]);
    q.traversals.push(TraversalStep {
        edge: EdgePattern {
            label: "ACTED_IN".to_string(),
            alias: Some("r".to_string()),
            direction: EdgeDirection::Out,
        },
        target: NodePattern {
            label: "Movie".to_string(),
            alias: "m".to_string(),
        },
    });
    q
}

#[test]
fn inject_adds_id_projection_per_node_alias() {
    let rewritten = inject_node_id_returns(&find_dsl()).expect("find query rewrites");
    let aliases: Vec<_> = rewritten
        .return_
        .iter()
        .filter_map(|item| match item {
            ReturnItem::Field { field, alias } => Some((field.clone(), alias.clone())),
            _ => None,
        })
        .collect();
    assert!(aliases.contains(&("p.id".to_string(), Some("__id_p".to_string()))));
    assert!(aliases.contains(&("m.id".to_string(), Some("__id_m".to_string()))));
    assert_eq!(rewritten.return_.len(), 3);
}

#[test]
fn inject_is_idempotent() {
    let once = inject_node_id_returns(&find_dsl()).unwrap();
    let twice = inject_node_id_returns(&once).unwrap();
    assert_eq!(once.return_.len(), twice.return_.len());
}

#[test]
fn inject_skips_aggregates_and_group_by() {
    let aggregate = query(
        "Person",
        "p",
        vec![ReturnItem::Aggregate {
            function: "count".to_string(),
            field: "p".to_string(),
            alias: Some("total".to_string()),
        }],
    );
    assert!(inject_node_id_returns(&aggregate).is_none());
}

fn sample() -> QueryResult {
    let mut row_a = Row::default();
    row_a
        .fields
        .insert("name".into(), DbValue::String("Keanu".into()));
    row_a
        .fields
        .insert("__id_p".into(), DbValue::String("p1".into()));
    row_a.fields.insert("score".into(), DbValue::Float(float(0.9)));
    row_a.fields.insert(
        "sources".into(),
        DbValue::Json(Json::Array(vec![object(vec![("id", text("s1"))])])),
    );
    let mut row_b = Row::default();
    row_b
        .fields
        .insert("name".into(), DbValue::String("Keanu".into()));
    row_b
        .fields
        .insert("__id_p".into(), DbValue::String("p2".into()));
    QueryResult {
        columns: vec![
            Column::new("name"),
            Column::new("__id_p"),
            Column::new("score"),
            Column::new("sources"),
        ],
        rows: vec![row_a, row_b],
    }
}

#[test]
fn visible_table_strips_hidden_columns_and_restores_distinct() {
    let result = sample();

    let table = visible_table(&result, true, None);
    assert_eq!(table.columns, vec!["name".to_string()]);
    assert_eq!(table.rows.len(), 1, "distinct restored after stripping");
    assert_eq!(table.row_entities, vec![names(vec![("p", "p1")])]);

    let plain = visible_table(&result, false, None);
    assert_eq!(plain.rows.len(), 2);
    assert_eq!(
        plain.row_entities,
        vec![names(vec![("p", "p1")]), names(vec![("p", "p2")])],
        "row_entities stays index-aligned with rows"
    );

    let capped = visible_table(&result, false, Some(1));
    assert_eq!(capped.rows.len(), 1);
    assert_eq!(capped.row_entities.len(), 1);
}

#[test]
fn column_entity_aliases_maps_aliased_and_raw_fields_and_skips_non_fields() {
    let dsl = query(
        "Listing",
        "l",
        vec![
            plain("l.price", Some("price")),
            plain("l.title", None),
            ReturnItem::DatePart {
                field: "l.created_at".to_string(),
                part: "year".to_string(),
                alias: Some("created_year".to_string()),
            },
            ReturnItem::Aggregate {
                function: "count".to_string(),
                field: "l".to_string(),
                alias: Some("total".to_string()),
            },
        ],
    );
    let mapping = column_entity_aliases(&dsl);
    assert_eq!(mapping.get("price").map(String::as_str), Some("l"));
    assert_eq!(mapping.get("l.title").map(String::as_str), Some("l"));
    assert!(
        !mapping.contains_key("created_year"),
        "date_part group keys have no single owning property"
    );
    assert!(
        !mapping.contains_key("total"),
        "aggregates have no single owning entity"
    );
    assert_eq!(mapping.len(), 2);
}

#[test]
fn collect_row_sources_dedups_across_rows() {
    let mut row_a = Row::default();
    row_a.fields.insert(
        "sources".into(),
        DbValue::Json(Json::Array(vec![object(vec![
            ("id", text("s1")),
            ("name", text("doc")),
        ])])),
    );
    let mut row_b = Row::default();
    row_b.fields.insert(
        "sources".into(),
        DbValue::Json(Json::Array(vec![
            object(vec![("id", text("s1")), ("name", text("doc"))]),
            object(vec![("id", Json::Null), ("name", Json::Null)]),
        ])),
    );
    let result = QueryResult {
        columns: Vec::new(),
        rows: vec![row_a, row_b],
    };
    let sources = collect_row_sources(&result);
    assert_eq!(sources.len(), 1);
    assert_eq!(sources[0].id.as_deref(), Some("s1"));
}

#[test]
fn gathered_ids_stop_at_the_cap() {
    let result = sample();
    assert_eq!(
        gather_ids(&result, 5),
        (vec!["p1".to_string(), "p2".to_string()], false)
    );
    assert_eq!(gather_ids(&result, 1), (vec!["p1".to_string()], true));
    assert!(is_hidden_column("__id_p"));
    assert!(!is_hidden_column("name"));
}

#[test]
fn a_query_runs_under_the_given_prefixes() {
    let query = DslQuery {
        prefix_label: Some("own".to_string()),
        limit: Some(3),
        ..find_dsl()
    };
    let scoped = Explorer::new(None, None).scoped_query(query, None, Some("T1".to_string()));
    assert_eq!(scoped.prefix_label, None);
    assert_eq!(scoped.prefix_index, Some("T1".to_string()));
    assert_eq!(scoped.limit, Some(3));
    assert_eq!(scoped.start, find_dsl().start);
}
