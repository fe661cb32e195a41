//! The wire-line grammar: parsing, serialization, and their round trip.

use libdatadog::decimal::DecNum;
use libdatadog::metric::{parse, serialize, MetricKind, ParseError};

fn dec(neg: bool, mant: u128, scale: u32) -> DecNum {
    DecNum { neg, mant, scale }
}

#[test]
fn parse_plain_counter() {
    let m = parse("metric123:99123|c").unwrap();
    assert_eq!(m.name, "metric123");
    assert_eq!(m.kind, MetricKind::Counter);
    assert_eq!(m.value, dec(false, 99123, 0));
    assert!(m.rate.is_none());
    assert!(m.tags.is_empty());
}

#[test]
fn parse_gauge_with_tags() {
    let m = parse("temp:21.5|g|#room:kitchen,floor:2").unwrap();
    assert_eq!(m.kind, MetricKind::Gauge);
    assert_eq!(m.value, dec(false, 215, 1));
    assert_eq!(m.tags, vec!["room:kitchen".to_string(), "floor:2".to_string()]);
}

#[test]
fn parse_distribution_fraction() {
    let m = parse("single_machine_performance.rouster.metrics_min_timestamp_latency:1426.90870216|d")
        .unwrap();
    assert_eq!(m.kind, MetricKind::Distribution);
    assert_eq!(m.value, dec(false, 142690870216, 8));
}

#[test]
fn parse_negative_value() {
    let m = parse("drift:-0.25|g").unwrap();
    assert_eq!(m.value, dec(true, 25, 2));
}

#[test]
fn parse_rate_is_kept_verbatim() {
    let m = parse("hits:1|c|@0.5|#env:prod").unwrap();
    assert_eq!(m.rate.as_deref(), Some("0.5"));
    // The rate is carried, not applied: the value stays 1.
    assert_eq!(m.value, dec(false, 1, 0));
    assert_eq!(m.tags, vec!["env:prod".to_string()]);
}

#[test]
fn histogram_and_timing_fold_into_distribution() {
    assert_eq!(parse("x:1|h").unwrap().kind, MetricKind::Distribution);
    assert_eq!(parse("x:1|ms").unwrap().kind, MetricKind::Distribution);
}

#[test]
fn error_empty_name() {
    assert_eq!(parse(":1|c").unwrap_err(), ParseError::EmptyName);
}

#[test]
fn error_missing_value() {
    assert_eq!(parse("justaname").unwrap_err(), ParseError::MissingValue);
    assert_eq!(parse("name:1").unwrap_err(), ParseError::MissingValue);
}

#[test]
fn error_non_numeric_value() {
    assert_eq!(parse("name:abc|c").unwrap_err(), ParseError::NonNumericValue);
    assert_eq!(parse("name:1.2.3|c").unwrap_err(), ParseError::NonNumericValue);
    assert_eq!(parse("name:007|c").unwrap_err(), ParseError::NonNumericValue);
    // More digits than the value grammar admits.
    assert_eq!(
        parse("name:12345678901234567890|c").unwrap_err(),
        ParseError::NonNumericValue
    );
}

#[test]
fn error_unknown_type() {
    assert_eq!(parse("name:1|z").unwrap_err(), ParseError::UnknownType);
    assert_eq!(parse("name:1|").unwrap_err(), ParseError::UnknownType);
}

#[test]
fn error_trailing_data() {
    assert_eq!(parse("name:1|c|junk").unwrap_err(), ParseError::TrailingData);
}

#[test]
fn serialize_writes_the_canonical_line() {
    let m = parse("temp:21.50|g|#room:kitchen").unwrap();
    assert_eq!(serialize(&m), "temp:21.50|g|#room:kitchen");
}

#[test]
fn round_trip_reparses_to_the_same_metric() {
    for line in [
        "metric1:1|c",
        "metric2:2|c|#tag2:val2",
        "metric3:3|c|#tag3:val3,tag4:val4",
        "gauge:-17.25|g|@1.0",
        "lat:1426.90870216|d|@0.5|#svc:api,env:prod",
        "zero:0.00|g",
        "neg_zero:-0|c",
    ] {
        let m = parse(line).unwrap();
        let out = serialize(&m);
        assert_eq!(out, line);
        let m2 = parse(&out).unwrap();
        assert_eq!(m2.name, m.name);
        assert_eq!(m2.kind, m.kind);
        assert_eq!(m2.value, m.value);
        assert_eq!(m2.tags, m.tags);
    }
}

#[test]
fn alias_round_trip_preserves_the_fields() {
    // `h` serializes as `d`: the line changes, the fields do not.
    let m = parse("x:1.5|h|#a:b").unwrap();
    let m2 = parse(&serialize(&m)).unwrap();
    assert_eq!(m2.name, m.name);
    assert_eq!(m2.kind, m.kind);
    assert_eq!(m2.value, m.value);
    assert_eq!(m2.tags, m.tags);
}

#[test]
fn multibyte_names_survive() {
    let m = parse("caf\u{e9}.temp\u{00e9}rature:1|c").unwrap();
    assert_eq!(m.name, "caf\u{e9}.temp\u{00e9}rature");
    assert_eq!(serialize(&m), "caf\u{e9}.temp\u{00e9}rature:1|c");
}
