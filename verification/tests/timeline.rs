use linguagraph::explore::calendar::{days_from_civil, epoch_to_ymdhms};
use linguagraph::explore::dto::{NodeView, PropertyGroups};
use linguagraph::explore::timeline::{format_epoch, nodes_timeline, parse_iso_epoch};
use linguagraph::json::{Json, JsonNumber};
use linguagraph::strmap::StrMap;

fn text(s: &str) -> Json {
    Json::Str(s.to_string())
}

fn number(i: i64) -> Json {
    Json::Number(JsonNumber::Int(i))
}

fn map(entries: Vec<(&str, Json)>) -> StrMap<Json> {
    let mut out = StrMap::new();
    for (key, value) in entries {
        out.insert(key.to_string(), value);
    }
    out
}

fn node(id: &str, dates: Vec<(&str, Json)>, other: Vec<(&str, Json)>) -> NodeView {
    NodeView {
        id: id.to_string(),
        name: id.to_string(),
        entity_type: "Movie".to_string(),
        labels: vec!["Movie".to_string()],
        properties: PropertyGroups {
            dates: map(dates),
            other: map(other),
            ..Default::default()
        },
        confidence: None,
        ephemeral_handle: false,
    }
}

#[test]
fn parse_iso_epoch_round_trips_epoch_to_ymdhms() {
    for secs in [0_i64, 951_782_400, 1_234_567_890, -86_400] {
        let (y, m, d, h, mi, s) = epoch_to_ymdhms(secs);
        let rendered = format!("{y:04}-{m:02}-{d:02}T{h:02}:{mi:02}:{s:02}");
        assert_eq!(parse_iso_epoch(&rendered), Some(secs), "for {rendered}");
    }
}

#[test]
fn parse_iso_epoch_rejects_non_dates() {
    assert_eq!(parse_iso_epoch("not a date"), None);
    assert_eq!(parse_iso_epoch("2024-13-01"), None);
    assert_eq!(parse_iso_epoch("2024-001-ab"), None);
    assert_eq!(parse_iso_epoch("m1"), None);
}

#[test]
fn events_sort_chronologically_with_unparseable_last() {
    let nodes = vec![
        node(
            "b",
            vec![("released", text("2003-11-05"))],
            vec![("note", text("around March"))],
        ),
        node("a", vec![("released", text("1999-03-31"))], vec![]),
        node("c", vec![("released", text("someday"))], vec![]),
    ];
    let events = nodes_timeline(&nodes);
    assert_eq!(events.len(), 3);
    assert_eq!(events[0].entity_id, "a");
    assert_eq!(events[1].entity_id, "b");
    assert_eq!(events[2].entity_id, "c");
    assert_eq!(events[2].epoch_seconds, None, "kept, sorted last");
}

#[test]
fn epoch_number_dates_render_as_iso() {
    let nodes = vec![node("a", vec![("ingested_at", number(0))], vec![])];
    let events = nodes_timeline(&nodes);
    assert_eq!(events[0].date, "1970-01-01");
    assert_eq!(events[0].epoch_seconds, Some(0));
}

#[test]
fn other_bucket_strings_need_strict_iso_shape() {
    let nodes = vec![node(
        "a",
        vec![],
        vec![
            ("founded", text("2015-06-01")),
            ("code", text("A-2015-06")),
            ("votes", number(4500)),
        ],
    )];
    let events = nodes_timeline(&nodes);
    assert_eq!(events.len(), 1);
    assert_eq!(events[0].property, "founded");
}

#[test]
fn days_are_counted_from_the_epoch() {
    assert_eq!(days_from_civil(1970, 1, 1), 0);
    assert_eq!(days_from_civil(2000, 3, 1), 11_017);
    assert_eq!(days_from_civil(1969, 12, 31), -1);
    assert_eq!(days_from_civil(20_000_000_000_000_000, 3, 1), 7_304_849_999_999_280_532);
    assert_eq!(epoch_to_ymdhms(-1), (1969, 12, 31, 23, 59, 59));
}

#[test]
fn moments_are_written_and_read_back() {
    assert_eq!(format_epoch(951_782_400), "2000-02-29");
    assert_eq!(format_epoch(951_782_401), "2000-02-29T00:00:01");
    assert_eq!(parse_iso_epoch("2000-02-29T00:00:01.250Z"), Some(951_782_401));
}
