use request_analytics::codec::parse_structured;
use request_analytics::codec::render_plain;
use request_analytics::codec::render_structured;
use request_analytics::reader::OutputFormat;
use request_analytics::reader::negotiate;
use request_analytics::reader::respond;
use request_analytics::snapshot::AnalyticsEntry;
use request_analytics::snapshot::AnalyticsSnapshot;

fn sample() -> AnalyticsSnapshot {
    AnalyticsSnapshot {
        entries: vec![
            AnalyticsEntry { country: String::from("FR"), count: 3 },
            AnalyticsEntry { country: String::from("DEV"), count: 2 },
        ],
    }
}

#[test]
fn wildcard_accept_selects_structured() {
    assert_eq!(negotiate(Some("*/*")), OutputFormat::Structured);
}

#[test]
fn other_or_missing_accept_selects_plain_text() {
    assert_eq!(negotiate(None), OutputFormat::PlainText);
    assert_eq!(negotiate(Some("text/plain")), OutputFormat::PlainText);
    assert_eq!(negotiate(Some("application/json")), OutputFormat::PlainText);
    assert_eq!(negotiate(Some("*/* ")), OutputFormat::PlainText);
}

#[test]
fn wildcard_accept_gets_structured_document() {
    let body = respond(&sample(), Some("*/*"));
    assert_eq!(body, "[{\"country\":\"FR\",\"count\":3},{\"country\":\"DEV\",\"count\":2}]");
}

#[test]
fn missing_accept_gets_one_line_per_entry() {
    let body = respond(&sample(), None);
    assert_eq!(body, "FR: 3\nDEV: 2");
}

#[test]
fn other_accept_gets_plain_text_too() {
    let body = respond(&sample(), Some("text/html"));
    assert_eq!(body, "FR: 3\nDEV: 2");
}

#[test]
fn empty_snapshot_renders_in_both_formats() {
    let empty = AnalyticsSnapshot { entries: Vec::new() };
    assert_eq!(respond(&empty, Some("*/*")), "[]");
    assert_eq!(respond(&empty, None), "");
}

#[test]
fn repeated_reads_agree() {
    let first = respond(&sample(), Some("*/*"));
    let second = respond(&sample(), Some("*/*"));
    assert_eq!(first, second);
    let first = respond(&sample(), None);
    let second = respond(&sample(), None);
    assert_eq!(first, second);
}

#[test]
fn structured_document_round_trips() {
    let rendered = render_structured(&sample());
    let parsed = parse_structured(rendered.as_str()).expect("rendered snapshot must parse");
    assert_eq!(parsed.entries.len(), 2);
    assert_eq!(parsed.entries[0].country, "FR");
    assert_eq!(parsed.entries[0].count, 3);
    assert_eq!(parsed.entries[1].country, "DEV");
    assert_eq!(parsed.entries[1].count, 2);
}

#[test]
fn round_trip_matches_plain_lines_entry_for_entry() {
    let snapshot = sample();
    let parsed = parse_structured(render_structured(&snapshot).as_str()).unwrap();
    let lines = render_plain(&snapshot);
    let expected: Vec<String> = parsed
        .entries
        .iter()
        .map(|e| format!("{}: {}", e.country, e.count))
        .collect();
    assert_eq!(lines, expected.join("\n"));
}

#[test]
fn empty_document_round_trips() {
    let empty = AnalyticsSnapshot { entries: Vec::new() };
    let parsed = parse_structured(render_structured(&empty).as_str()).unwrap();
    assert_eq!(parsed.entries.len(), 0);
}

#[test]
fn structured_document_is_valid_json() {
    let rendered = render_structured(&sample());
    let value: serde_json::Value = serde_json::from_str(rendered.as_str()).unwrap();
    let arr = value.as_array().unwrap();
    assert_eq!(arr.len(), 2);
    assert_eq!(arr[0].get("country").unwrap().as_str().unwrap(), "FR");
    assert_eq!(arr[0].get("count").unwrap().as_u64().unwrap(), 3);
    assert_eq!(arr[1].get("country").unwrap().as_str().unwrap(), "DEV");
    assert_eq!(arr[1].get("count").unwrap().as_u64().unwrap(), 2);
}

#[test]
fn malformed_documents_are_rejected() {
    assert!(parse_structured("").is_none());
    assert!(parse_structured("not json").is_none());
    assert!(parse_structured("[").is_none());
    assert!(parse_structured("[]x").is_none());
    assert!(parse_structured("[{\"country\":\"FR\",\"count\":}]").is_none());
    assert!(parse_structured("[{\"country\":\"FR\",\"count\":3}").is_none());
    assert!(parse_structured("[{\"country\":\"FR\",\"count\":3},]").is_none());
}

#[test]
fn count_overflow_is_rejected() {
    assert!(parse_structured("[{\"country\":\"FR\",\"count\":18446744073709551616}]").is_none());
    let max = parse_structured("[{\"country\":\"FR\",\"count\":18446744073709551615}]").unwrap();
    assert_eq!(max.entries[0].count, u64::MAX);
}
