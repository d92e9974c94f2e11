use linguagraph::db::{DbValue, QueryResult, Row};
use linguagraph::graph::builder::{Graph, GraphBuilder, CANONICAL_FIELD};
use linguagraph::graph::schema::{EntityGraph, Property, PropertyType};
use linguagraph::ingest::error::IngestError;
use linguagraph::ingest::soft_merge::decision::{
    classify, incoming_name, Decision, GateReason, Measure, SoftMergeConfig,
};
use linguagraph::ingest::soft_merge::lexical::{
    is_type_only, lexical_resemblance, primary_name_of, resemblance, Resemblance,
};
use linguagraph::ingest::soft_merge::query::{
    build_search_query, decode_rows, hits_for, parse_hits, sanitize_ident, EmbeddedCandidate, Hit,
};
use linguagraph::ingest::soft_merge::resolve::{
    add_in_batch, collect_candidates, group_candidates, has_soft_merge_candidates, in_batch_hits,
    keep_representatives, known_by, search_collection, settle_existing, settle_in_batch, InBatchState,
    ReviewSource, SoftMergeReport,
};
use linguagraph::json::{Float, Json, JsonNumber};
use linguagraph::literal::Literal;
use linguagraph::strmap::StrMap;

fn float(value: f64) -> Float {
    Float {
        bits: value.to_bits(),
        text: serde_json::to_string(&value).unwrap(),
        debug: format!("{value:?}"),
        truncated: value as i64,
        integral: value.fract() == 0.0,
    }
}

fn text(s: &str) -> Json {
    Json::Str(s.to_string())
}

fn number(i: i64) -> Json {
    Json::Number(JsonNumber::Int(i))
}

fn decimal(value: f64) -> Json {
    Json::Number(JsonNumber::Float(float(value)))
}

fn map<T: vstd::view::DeepView>(entries: Vec<(&str, T)>) -> StrMap<T> {
    let mut out = StrMap::new();
    for (key, value) in entries {
        out.insert(key.to_string(), value);
    }
    out
}

fn strings(items: &[&str]) -> Vec<String> {
    items.iter().map(|s| s.to_string()).collect()
}

fn score_of(r: Resemblance) -> f64 {
    match r {
        Resemblance::Nothing => 0.0,
        Resemblance::Same => 1.0,
        Resemblance::Partly {
            a,
            b,
            shared,
            swapped,
            start,
        } => {
            let m = shared as f64;
            let t = swapped as f64;
            let jaro = (m / a as f64 + m / b as f64 + (m - t) / m) / 3.0;
            jaro + start as f64 * 0.1 * (1.0 - jaro)
        }
    }
}

fn jaro_winkler(a: &str, b: &str) -> f64 {
    score_of(resemblance(a, b))
}

fn lexical_score(a: &str, b: &str) -> f64 {
    score_of(lexical_resemblance(a, b))
}

#[test]
fn jaro_winkler_reference_pairs() {
    let martha = jaro_winkler("MARTHA", "MARHTA");
    assert!(
        (martha - 0.961).abs() < 0.01,
        "MARTHA/MARHTA expected ~0.961, got {martha}"
    );
    let dixon = jaro_winkler("DIXON", "DICKSONX");
    assert!(
        (dixon - 0.813).abs() < 0.01,
        "DIXON/DICKSONX expected ~0.813, got {dixon}"
    );
    assert_eq!(
        resemblance("MARTHA", "MARHTA"),
        Resemblance::Partly {
            a: 6,
            b: 6,
            shared: 6,
            swapped: 1,
            start: 3
        }
    );
}

#[test]
fn equal_strings_score_one() {
    assert_eq!(jaro_winkler("alice", "alice"), 1.0);
}

#[test]
fn disjoint_strings_score_zero() {
    assert_eq!(jaro_winkler("abc", "xyz"), 0.0);
}

#[test]
fn empty_string_pair_scores_zero() {
    assert_eq!(jaro_winkler("", ""), 0.0);
    assert_eq!(jaro_winkler("", "abc"), 0.0);
    assert_eq!(jaro_winkler("abc", ""), 0.0);
}

#[test]
fn unicode_codepoint_comparison_matches_cyrillic_fixture() {
    let s = jaro_winkler("общественное согласие", "общественное соглас.");
    assert!(s >= 0.85, "Cyrillic near-duplicate expected ≥0.85, got {s}");
}

#[test]
fn primary_name_of_extracts_name_line() {
    let canonical = "type: Person\nage: 42\nname: Elon Musk\nrole: CEO";
    assert_eq!(primary_name_of(canonical), "Elon Musk");
}

#[test]
fn primary_name_of_falls_back_to_first_non_type_line() {
    let canonical = "type: Organization\ncountry: US";
    assert_eq!(primary_name_of(canonical), "US");
}

#[test]
fn primary_name_of_passes_through_non_canonical_text() {
    assert_eq!(primary_name_of("Alice"), "Alice");
}

#[test]
fn lexical_score_is_case_insensitive_for_ascii() {
    assert_eq!(lexical_score("alice", "ALICE"), 1.0);
}

#[test]
fn lexical_score_unwraps_canonical_on_both_sides() {
    let a = "type: Person\nname: Elon Musk";
    let b = "type: Person\nname: Elon Mask";
    let s = lexical_score(a, b);
    assert!(s >= 0.85, "expected ≥0.85 for Elon Musk / Elon Mask, got {s}");
}

#[test]
fn is_type_only_recognises_canonical_pattern() {
    assert!(is_type_only("type: Person"));
    assert!(is_type_only("\ntype: Person\n"));
    assert!(!is_type_only("type: Person\nname: Alice"));
    assert!(!is_type_only("Alice"));
    assert!(!is_type_only(""));
}

fn strict_cfg() -> SoftMergeConfig {
    SoftMergeConfig {
        top_k: 10,
        similarity_threshold: float(0.85),
        review_threshold: 0.8f64.to_bits(),
        auto_merge_threshold: 0.95f64.to_bits(),
        min_margin: 0.08f64.to_bits(),
        min_lexical_similarity: 0.85f64.to_bits(),
        close_candidate_delta: 0.03f64.to_bits(),
        max_close_candidates: 1,
        conflict_properties: strings(&["email"]),
        allow_type_only_auto_merge: false,
        review_max_candidates: 5,
        emit_review_candidates: true,
    }
}

fn hit(score: f64, canonical: &str) -> Hit {
    Hit {
        id: 1,
        score: score.to_bits(),
        canonical: canonical.to_string(),
        props: StrMap::new(),
    }
}

fn hit_with_props(score: f64, canonical: &str, props: Vec<(&str, Json)>) -> Hit {
    Hit {
        id: 42,
        score: score.to_bits(),
        canonical: canonical.to_string(),
        props: map(props),
    }
}

fn props_with(pairs: Vec<(&str, Json)>) -> StrMap<Property> {
    let mut out = StrMap::new();
    for (key, value) in pairs {
        out.insert(
            key.to_string(),
            Property::new(key, PropertyType::Keyword, value),
        );
    }
    out
}

fn measured(canonical: &str, hits: &[Hit]) -> Vec<Measure> {
    hits.iter()
        .map(|h| Measure {
            gap: (f64::from_bits(hits[0].score) - f64::from_bits(h.score)).to_bits(),
            lexical: lexical_score(canonical, &h.canonical).to_bits(),
        })
        .collect()
}

fn decide(
    canonical: &str,
    props: &StrMap<Property>,
    hits: Vec<Hit>,
    cfg: &SoftMergeConfig,
) -> Decision {
    let measures = measured(canonical, &hits);
    classify(canonical, props, &hits, &measures, cfg)
}

fn reasons(d: Decision) -> Vec<GateReason> {
    match d {
        Decision::NeedsReview { rejected_by, .. } => rejected_by,
        other => panic!("expected NeedsReview, got {other:?}"),
    }
}

#[test]
fn automerge_when_all_gates_pass() {
    let d = decide(
        "Microsoft",
        &StrMap::new(),
        vec![hit(0.97, "Microsoft")],
        &strict_cfg(),
    );
    match d {
        Decision::AutoMerge {
            canonical,
            hit_id: _,
            top_score,
        } => {
            assert_eq!(canonical, "Microsoft");
            assert!((f64::from_bits(top_score) - 0.97).abs() < 1e-9);
        }
        other => panic!("expected AutoMerge, got {other:?}"),
    }
}

#[test]
fn below_review_threshold_is_no_merge() {
    assert!(matches!(
        decide("Acme", &StrMap::new(), vec![hit(0.70, "Other")], &strict_cfg()),
        Decision::NoMerge
    ));
    assert!(matches!(
        decide("Acme", &StrMap::new(), Vec::new(), &strict_cfg()),
        Decision::NoMerge
    ));
}

#[test]
fn between_review_and_auto_is_review() {
    let rejected = reasons(decide(
        "Microsoft",
        &StrMap::new(),
        vec![hit(0.90, "Microsoft")],
        &strict_cfg(),
    ));
    assert!(rejected
        .iter()
        .any(|r| matches!(r, GateReason::BelowAutoMergeThreshold { .. })));
}

#[test]
fn margin_gate_blocks_automerge() {
    let rejected = reasons(decide(
        "Microsoft",
        &StrMap::new(),
        vec![hit(0.97, "Microsoft"), hit(0.94, "Apple Microsoft")],
        &strict_cfg(),
    ));
    assert!(rejected
        .iter()
        .any(|r| matches!(r, GateReason::InsufficientMargin { .. })));
}

#[test]
fn lexical_gate_blocks_automerge() {
    let rejected = reasons(decide(
        "Alice Smith",
        &StrMap::new(),
        vec![hit(0.99, "Бенедикт Иванович")],
        &strict_cfg(),
    ));
    assert!(rejected
        .iter()
        .any(|r| matches!(r, GateReason::InsufficientLexical { .. })));
}

#[test]
fn close_candidates_gate_blocks_automerge() {
    let rejected = reasons(decide(
        "Microsoft",
        &StrMap::new(),
        vec![
            hit(0.97, "Microsoft"),
            hit(0.96, "Microsoft Corp"),
            hit(0.95, "Microsoft Inc"),
        ],
        &strict_cfg(),
    ));
    assert!(rejected
        .iter()
        .any(|r| matches!(r, GateReason::TooManyCloseCandidates { .. })));
}

#[test]
fn hard_conflict_email_blocks_automerge() {
    let incoming = props_with(vec![("email", text("a@example.com"))]);
    let rejected = reasons(decide(
        "Alice",
        &incoming,
        vec![hit_with_props(
            0.99,
            "Alice",
            vec![("email", text("b@example.com"))],
        )],
        &strict_cfg(),
    ));
    assert!(rejected
        .iter()
        .any(|r| matches!(r, GateReason::HardConflict { property, .. } if property == "email")));
}

#[test]
fn hard_conflict_one_side_null_does_not_block() {
    let incoming = props_with(vec![("email", text("a@example.com"))]);
    assert!(matches!(
        decide(
            "Alice",
            &incoming,
            vec![hit_with_props(0.99, "Alice", Vec::new())],
            &strict_cfg()
        ),
        Decision::AutoMerge { .. }
    ));
}

#[test]
fn type_only_blocks_automerge_by_default() {
    let rejected = reasons(decide(
        "type: Person",
        &StrMap::new(),
        vec![hit(0.99, "type: Person\nname: Alice")],
        &strict_cfg(),
    ));
    assert!(rejected.iter().any(|r| matches!(r, GateReason::TypeOnly)));
}

#[test]
fn type_only_allowed_when_configured() {
    let cfg = SoftMergeConfig {
        allow_type_only_auto_merge: true,
        ..strict_cfg()
    };
    assert!(matches!(
        decide(
            "type: Person",
            &StrMap::new(),
            vec![hit(0.99, "type: Person")],
            &cfg
        ),
        Decision::AutoMerge { .. }
    ));
}

#[test]
fn all_gates_failing_records_every_reason() {
    let incoming = props_with(vec![("email", text("a@example.com"))]);
    let cfg = SoftMergeConfig {
        max_close_candidates: 0,
        ..strict_cfg()
    };
    let rejected = reasons(decide(
        "type: Person",
        &incoming,
        vec![
            hit_with_props(0.90, "Xyz", vec![("email", text("b@example.com"))]),
            hit_with_props(0.89, "Pqr", Vec::new()),
        ],
        &cfg,
    ));
    let kinds: Vec<&str> = rejected
        .iter()
        .map(|r| match r {
            GateReason::BelowAutoMergeThreshold { .. } => "below_auto",
            GateReason::InsufficientMargin { .. } => "margin",
            GateReason::InsufficientLexical { .. } => "lexical",
            GateReason::TooManyCloseCandidates { .. } => "close",
            GateReason::HardConflict { .. } => "conflict",
            GateReason::TypeOnly => "type_only",
        })
        .collect();
    for expected in [
        "below_auto",
        "margin",
        "lexical",
        "close",
        "conflict",
        "type_only",
    ] {
        assert!(
            kinds.contains(&expected),
            "expected {expected} in {kinds:?}"
        );
    }
}

#[test]
fn runners_up_capped_at_review_max_candidates() {
    let cfg = SoftMergeConfig {
        review_max_candidates: 3,
        auto_merge_threshold: 0.99f64.to_bits(),
        ..strict_cfg()
    };
    match decide(
        "Microsoft",
        &StrMap::new(),
        vec![
            hit(0.95, "Microsoft"),
            hit(0.94, "Microsoft Corp"),
            hit(0.93, "Microsoft Inc"),
            hit(0.92, "MS"),
            hit(0.91, "MSFT"),
        ],
        &cfg,
    ) {
        Decision::NeedsReview { runners_up, .. } => {
            assert_eq!(runners_up.len(), 2, "top + 2 runners-up = 3 max");
        }
        other => panic!("expected NeedsReview, got {other:?}"),
    }
}

#[test]
fn single_hit_passes_margin_gate() {
    assert!(matches!(
        decide(
            "Microsoft",
            &StrMap::new(),
            vec![hit(0.97, "Microsoft")],
            &strict_cfg()
        ),
        Decision::AutoMerge { .. }
    ));
    assert_eq!(incoming_name("type: Person\nname: Ada"), "Ada");
}

#[test]
fn build_search_query_returns_top_k_with_properties() {
    let group = vec![EmbeddedCandidate {
        entity_index: 7,
        vec: vec![float(1.0), float(0.0)],
    }];
    let q = build_search_query(
        "c1__name",
        "LegalConcept",
        "name",
        10,
        &float(0.85),
        &group,
    );
    assert!(
        q.text.contains("properties(n) AS props"),
        "Cypher must pull full props: {}",
        q.text
    );
    assert!(
        q.text.contains("collect({id: hit_id"),
        "Cypher must collect hits as a list, not pick [0]: {}",
        q.text
    );
    assert!(
        !q.text.contains(")[0] AS best"),
        "Cypher must not single-pick best hit: {}",
        q.text
    );
    assert!(
        q.text.contains("WHERE hit_score >= $threshold"),
        "Cypher must gate hits at the threshold: {}",
        q.text
    );
}

#[test]
fn build_search_query_binds_top_k_and_threshold() {
    let group = vec![EmbeddedCandidate {
        entity_index: 0,
        vec: vec![float(1.0)],
    }];
    let q = build_search_query("c1", "Label", "name", 10, &float(0.85), &group);
    assert_eq!(q.params.get("top_k"), Some(&Literal::Int(10)));
    assert_eq!(
        q.params.get("threshold"),
        Some(&Literal::Float(float(0.85)))
    );
}

fn found(id: i64, score: f64, canonical: &str, props: Vec<(&str, Json)>) -> Json {
    Json::Object(map(vec![
        ("id", number(id)),
        ("score", decimal(score)),
        ("canonical", text(canonical)),
        ("props", Json::Object(map(props))),
    ]))
}

#[test]
fn parse_hits_accepts_json_array() {
    let raw = DbValue::Json(Json::Array(vec![
        found(
            7,
            0.95,
            "Microsoft",
            vec![("name", text("Microsoft")), ("country", text("US"))],
        ),
        found(
            9,
            0.85,
            "Microsoft Inc",
            vec![("name", text("Microsoft Inc"))],
        ),
    ]));
    let hits = parse_hits(&raw).unwrap();
    assert_eq!(hits.len(), 2);
    assert_eq!(hits[0].id, 7);
    assert!((f64::from_bits(hits[0].score) - 0.95).abs() < 1e-9);
    assert_eq!(hits[0].canonical, "Microsoft");
    assert_eq!(hits[0].props.get("country"), Some(&text("US")));
    assert_eq!(hits[1].id, 9);
}

#[test]
fn parse_hits_returns_empty_for_null() {
    assert!(parse_hits(&DbValue::Null).unwrap().is_empty());
    assert!(parse_hits(&DbValue::Json(Json::Null)).unwrap().is_empty());
}

#[test]
fn parse_hits_rejects_non_list() {
    let err = parse_hits(&DbValue::String("oops".to_string())).unwrap_err();
    assert!(matches!(err, IngestError::SoftMerge(_)));
}

#[test]
fn parse_hits_rejects_malformed_hit_missing_canonical_is_ok() {
    let raw = DbValue::Json(Json::Array(vec![Json::Object(map(vec![
        ("id", number(1)),
        ("score", decimal(0.9)),
    ]))]));
    let hits = parse_hits(&raw).unwrap();
    assert_eq!(hits.len(), 1);
    assert_eq!(hits[0].canonical, "");
    assert_eq!(hits[0].props.len(), 0);
}

#[test]
fn parse_hits_rejects_missing_id() {
    let raw = DbValue::Json(Json::Array(vec![Json::Object(map(vec![(
        "score",
        decimal(0.9),
    )]))]));
    let err = parse_hits(&raw).unwrap_err();
    assert!(matches!(err, IngestError::SoftMerge(_)));
}

#[test]
fn whole_scores_are_read_as_floats() {
    let raw = DbValue::Json(Json::Array(vec![Json::Object(map(vec![
        ("id", number(1)),
        ("score", number(1)),
    ]))]));
    assert_eq!(parse_hits(&raw).unwrap()[0].score, 1f64.to_bits());
}

#[test]
fn rows_are_decoded_by_entity() {
    let rows = QueryResult {
        columns: Vec::new(),
        rows: vec![Row {
            fields: map(vec![
                ("idx", DbValue::Int(3)),
                (
                    "hits",
                    DbValue::Json(Json::Array(vec![found(7, 0.95, "Microsoft", Vec::new())])),
                ),
            ]),
        }],
    };
    let decoded = decode_rows(&rows).unwrap();
    assert_eq!(hits_for(&decoded, 3).len(), 1);
    assert!(hits_for(&decoded, 4).is_empty());
    assert_eq!(sanitize_ident("a b;c"), "abc");
}

fn concept(name: &str) -> EntityGraph {
    EntityGraph::new("LegalConcept")
        .soft_primary_key()
        .property("name", PropertyType::Text, text(name))
}

fn concepts(names: &[&str]) -> Graph {
    let mut b = GraphBuilder::new();
    for name in names {
        b.add_entity(concept(name));
    }
    b.build()
}

#[test]
fn picks_soft_entities_only() {
    let mut b = GraphBuilder::new();
    b.add_entity(concept("общественное согласие"));
    b.add_entity(
        EntityGraph::new("Person")
            .strict_primary_key("id")
            .property("id", PropertyType::Keyword, text("p1")),
    );
    let graph = b.build();

    assert!(has_soft_merge_candidates(&graph));
    let got = collect_candidates(&graph).unwrap();
    assert_eq!(got.len(), 1);
    assert_eq!(got[0].entity_index, 0);
    assert_eq!(got[0].label, "LegalConcept");
    assert_eq!(got[0].field, CANONICAL_FIELD);
}

#[test]
fn soft_entity_uses_builder_created_canonical_field() {
    let mut b = GraphBuilder::new();
    b.add_entity(EntityGraph::new("LegalConcept").soft_primary_key());
    let graph = b.build();
    let got = collect_candidates(&graph).unwrap();
    assert_eq!(got.len(), 1);
    assert_eq!(got[0].field, CANONICAL_FIELD);
    assert_eq!(got[0].text, "type: LegalConcept");
}

#[test]
fn candidates_are_grouped_by_label_and_field() {
    let graph = concepts(&["a", "b"]);
    let candidates = collect_candidates(&graph).unwrap();
    let vectors = vec![vec![float(1.0)], vec![float(0.5)]];
    let groups = group_candidates(&candidates, &vectors).unwrap();
    assert_eq!(groups.len(), 1);
    assert_eq!(groups[0].0, strings(&["LegalConcept", CANONICAL_FIELD]));
    assert_eq!(groups[0].1.len(), 2);
    assert!(matches!(
        group_candidates(&candidates, &Vec::new()),
        Err(IngestError::SoftMerge(_))
    ));
    assert_eq!(
        search_collection(&Some("T1".to_string()), "docs", "name"),
        "T1__docs__name"
    );
    assert_eq!(search_collection(&None, "docs", "name"), "docs__name");
}

fn canonical_of(graph: &Graph, index: usize) -> String {
    match &graph.entities[index]
        .properties
        .get(CANONICAL_FIELD)
        .unwrap()
        .value
    {
        Json::Str(s) => s.clone(),
        other => panic!("a canonical text is a string, got {other:?}"),
    }
}

fn settle_pair(names: &[&str], score: f64) -> (Graph, InBatchState) {
    let mut graph = concepts(names);
    let candidates = collect_candidates(&graph).unwrap();
    let vectors = vec![vec![float(1.0)], vec![float(1.0)]];
    let groups = group_candidates(&candidates, &vectors).unwrap();
    let group = &groups[0].1;
    let cfg = strict_cfg();
    let mut state = InBatchState::default();
    for i in 0..group.len() {
        let scores: Vec<u64> = state.representatives.iter().map(|_| score.to_bits()).collect();
        let hits = in_batch_hits(
            &graph,
            group,
            &state,
            &scores,
            cfg.similarity_threshold.bits,
            CANONICAL_FIELD,
            i,
        )
        .unwrap();
        let measures = measured(&canonical_of(&graph, group[i].entity_index), &hits);
        settle_in_batch(
            &mut graph,
            group,
            &mut state,
            i,
            "LegalConcept",
            CANONICAL_FIELD,
            &hits,
            &measures,
            &cfg,
        )
        .unwrap();
    }
    (graph, state)
}

#[test]
fn in_batch_duplicates_collapse_above_the_threshold() {
    let (graph, state) = settle_pair(&["public accord", "public accords"], 0.99);
    assert_eq!(state.collapsed, 1);
    assert_eq!(state.representatives, vec![0]);
    assert_eq!(canonical_of(&graph, 0), canonical_of(&graph, 1));
}

#[test]
fn in_batch_strangers_stay_apart() {
    let (graph, state) = settle_pair(&["public accord", "state budget"], 0.5);
    assert_eq!(state.collapsed, 0);
    assert_eq!(state.representatives, vec![0, 1]);
    assert_ne!(canonical_of(&graph, 0), canonical_of(&graph, 1));
}

#[test]
fn in_batch_doubts_are_reviewed() {
    let (graph, state) = settle_pair(&["public accord", "state budget"], 0.99);
    assert_eq!(state.collapsed, 0);
    assert_eq!(state.needs_review, 1);
    assert_eq!(state.review_candidates[0].source, ReviewSource::InBatch);
    assert_ne!(canonical_of(&graph, 0), canonical_of(&graph, 1));
    let mut report = SoftMergeReport::default();
    add_in_batch(&mut report, state, 2);
    assert_eq!(report.candidates, 2);
    assert_eq!(report.needs_review, 1);
}

#[test]
fn existing_matches_rewrite_the_field() {
    let mut graph = concepts(&["public accord"]);
    let group = vec![EmbeddedCandidate {
        entity_index: 0,
        vec: vec![float(1.0)],
    }];
    let canonical = "type: LegalConcept\nname: public accords";
    let hits = vec![vec![hit(0.99, canonical)]];
    let measures = vec![measured(&canonical_of(&graph, 0), &hits[0])];
    let mut report = SoftMergeReport::default();
    settle_existing(
        &mut graph,
        &mut report,
        &group,
        CANONICAL_FIELD,
        &hits,
        &measures,
        &strict_cfg(),
    )
    .unwrap();
    assert_eq!(report.auto_merges, 1);
    assert_eq!(canonical_of(&graph, 0), canonical);
    assert_eq!(
        graph.entities[0].properties.get("name").unwrap().value,
        text("public accord")
    );
}

#[test]
fn without_hits_nothing_is_rewritten() {
    let mut graph = concepts(&["public accord"]);
    let before = canonical_of(&graph, 0);
    let group = vec![EmbeddedCandidate {
        entity_index: 0,
        vec: vec![float(1.0)],
    }];
    let mut report = SoftMergeReport::default();
    settle_existing(
        &mut graph,
        &mut report,
        &group,
        CANONICAL_FIELD,
        &vec![Vec::new()],
        &vec![Vec::new()],
        &strict_cfg(),
    )
    .unwrap();
    assert_eq!(report.no_merge, 1);
    assert_eq!(canonical_of(&graph, 0), before);
}

#[test]
fn representatives_are_what_is_searched_for() {
    let group = vec![
        EmbeddedCandidate {
            entity_index: 4,
            vec: Vec::new(),
        },
        EmbeddedCandidate {
            entity_index: 6,
            vec: Vec::new(),
        },
    ];
    let state = InBatchState {
        representatives: vec![1],
        ..Default::default()
    };
    let kept = keep_representatives(&group, &state);
    assert_eq!(kept.len(), 1);
    assert_eq!(kept[0].entity_index, 6);
}

#[test]
fn the_name_is_of_the_first_line_that_is_no_type() {
    assert_eq!(primary_name_of("\ntype: Organization\ncountry: US"), "US");
    assert_eq!(primary_name_of("type: A\ntype: B\ncity: Rome"), "Rome");
    assert_eq!(primary_name_of("type: A\n\nRome"), "Rome");
    assert_eq!(primary_name_of("type: A\ntype: B"), "type: A");
    assert_eq!(primary_name_of("\ntype: A\ncity: Rome\nname: Acme"), "Acme");
}

#[test]
fn a_similarity_that_is_not_a_number_is_a_hit() {
    let graph = concepts(&["a", "b"]);
    let candidates = collect_candidates(&graph).unwrap();
    let vectors = vec![vec![float(1.0)], vec![float(1.0)]];
    let groups = group_candidates(&candidates, &vectors).unwrap();
    let state = InBatchState {
        representatives: vec![0],
        ..InBatchState::default()
    };
    let hits = in_batch_hits(
        &graph,
        &groups[0].1,
        &state,
        &vec![f64::NAN.to_bits()],
        0.9f64.to_bits(),
        CANONICAL_FIELD,
        1,
    )
    .unwrap();
    assert_eq!(hits.len(), 1);
    assert_eq!(hits[0].id, 0);
    assert_eq!(hits[0].canonical, canonical_of(&graph, 0));
}

#[test]
fn an_entity_is_known_by_the_text_in_its_field() {
    let graph = concepts(&["a", "b"]);
    assert_eq!(known_by(&graph, 1, CANONICAL_FIELD), canonical_of(&graph, 1));
    assert_eq!(known_by(&graph, 1, "no such field"), "");
    assert_eq!(known_by(&graph, 2, CANONICAL_FIELD), "");
}
