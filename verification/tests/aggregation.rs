//! The aggregator and the datagram ingestion step.

use libdatadog::aggregator::{Aggregator, AggregatorError, ConfigError, SeriesRecord};
use libdatadog::decimal::DecNum;
use libdatadog::dogstatsd::{consume_payload, IngestError};
use libdatadog::metric::parse;

fn fresh(capacity: usize) -> Aggregator {
    Aggregator::new(Vec::new(), capacity).expect("aggregator creation failed")
}

fn ingest(agg: &mut Aggregator, payload: &str) {
    consume_payload(agg, &payload.as_bytes().to_vec()).expect("payload not accepted");
}

fn find_series<'a>(series: &'a [SeriesRecord], name: &str) -> &'a SeriesRecord {
    series
        .iter()
        .find(|r| r.name == name)
        .expect("series entry missing")
}

/// Reads one little-endian base-128 varint.
fn read_varint(bytes: &[u8], at: &mut usize) -> u128 {
    let mut value: u128 = 0;
    let mut shift: u32 = 0;
    loop {
        let b = bytes[*at];
        *at += 1;
        value |= u128::from(b & 0x7f) << shift;
        if b < 0x80 {
            return value;
        }
        shift += 7;
    }
}

/// Reads one encoded decimal: sign byte, mantissa varint, scale varint.
fn read_dec(bytes: &[u8], at: &mut usize) -> DecNum {
    let neg = bytes[*at] == 1;
    *at += 1;
    let mant = read_varint(bytes, at);
    let scale = read_varint(bytes, at) as u32;
    DecNum { neg, mant, scale }
}

/// The leading statistics of an encoded sketch: count, min, max, sum.
fn sketch_stats(payload: &[u8]) -> (u64, DecNum, DecNum, DecNum) {
    let mut at = 0usize;
    let cnt = read_varint(payload, &mut at) as u64;
    let min = read_dec(payload, &mut at);
    let max = read_dec(payload, &mut at);
    let sum = read_dec(payload, &mut at);
    (cnt, min, max, sum)
}

fn assert_value(agg: &Aggregator, name: &str, value: DecNum, tags: &str) {
    let series = agg.to_series();
    let rec = find_series(&series, name);
    assert_eq!(rec.value, value);
    assert_eq!(rec.tags, tags);
}

fn assert_sketch(agg: &Aggregator, name: &str, value: DecNum) {
    let payload = agg.distributions_to_protobuf();
    let rec = payload
        .sketches
        .iter()
        .find(|r| r.name == name)
        .expect("sketch entry missing");
    let (cnt, min, max, _sum) = sketch_stats(&rec.payload);
    assert_eq!(cnt, 1);
    assert_eq!(min, value);
    assert_eq!(max, value);
}

#[test]
fn test_dogstatsd_multi_distribution() {
    let mut aggregator = fresh(1_024);
    ingest(
        &mut aggregator,
        "single_machine_performance.rouster.api.series_v2.payload_size_bytes:269942|d
single_machine_performance.rouster.metrics_min_timestamp_latency:1426.90870216|d
single_machine_performance.rouster.metrics_max_timestamp_latency:1376.90870216|d
",
    );

    let parsed_metrics = aggregator.distributions_to_protobuf();

    assert_eq!(parsed_metrics.sketches.len(), 3);
    assert_eq!(aggregator.to_series().len(), 0);

    assert_sketch(
        &aggregator,
        "single_machine_performance.rouster.api.series_v2.payload_size_bytes",
        DecNum { neg: false, mant: 269_942, scale: 0 },
    );
    assert_sketch(
        &aggregator,
        "single_machine_performance.rouster.metrics_min_timestamp_latency",
        DecNum { neg: false, mant: 142_690_870_216, scale: 8 },
    );
    assert_sketch(
        &aggregator,
        "single_machine_performance.rouster.metrics_max_timestamp_latency",
        DecNum { neg: false, mant: 137_690_870_216, scale: 8 },
    );
}

#[test]
fn test_dogstatsd_multi_metric() {
    let mut aggregator = fresh(1_024);
    ingest(
        &mut aggregator,
        "metric3:3|c|#tag3:val3,tag4:val4\nmetric1:1|c\nmetric2:2|c|#tag2:val2\n",
    );

    let parsed_metrics = aggregator.to_series();

    assert_eq!(parsed_metrics.len(), 3);
    assert_eq!(aggregator.distributions_to_protobuf().sketches.len(), 0);

    assert_value(&aggregator, "metric1", DecNum { neg: false, mant: 1, scale: 0 }, "");
    assert_value(&aggregator, "metric2", DecNum { neg: false, mant: 2, scale: 0 }, "tag2:val2");
    assert_value(
        &aggregator,
        "metric3",
        DecNum { neg: false, mant: 3, scale: 0 },
        "tag3:val3,tag4:val4",
    );
}

#[test]
fn test_dogstatsd_single_metric() {
    let mut aggregator = fresh(1_024);
    ingest(&mut aggregator, "metric123:99123|c");
    let parsed_metrics = aggregator.to_series();

    assert_eq!(parsed_metrics.len(), 1);
    assert_eq!(aggregator.distributions_to_protobuf().sketches.len(), 0);

    assert_value(&aggregator, "metric123", DecNum { neg: false, mant: 99_123, scale: 0 }, "");
}

#[test]
fn test_dogstatsd_filter_service_check() {
    let mut aggregator = fresh(1_024);
    let stats = consume_payload(&mut aggregator, &b"_sc|servicecheck|0".to_vec()).unwrap();

    // A service check is expected non-metric traffic: no parse failure.
    assert_eq!(stats.parse_failures, 0);
    assert_eq!(aggregator.to_series().len(), 0);
    assert_eq!(aggregator.distributions_to_protobuf().sketches.len(), 0);
}

#[test]
fn test_dogstatsd_filter_event() {
    let mut aggregator = fresh(1_024);
    let stats = consume_payload(&mut aggregator, &b"_e{5,10}:event|test event".to_vec()).unwrap();

    assert_eq!(stats.parse_failures, 0);
    assert_eq!(aggregator.to_series().len(), 0);
    assert_eq!(aggregator.distributions_to_protobuf().sketches.len(), 0);
}

#[test]
fn counters_sum_on_repeat_insert() {
    let mut aggregator = fresh(8);
    ingest(&mut aggregator, "hits:1|c\nhits:2|c");
    let series = aggregator.to_series();
    assert_eq!(series.len(), 1);
    assert_eq!(series[0].value, DecNum { neg: false, mant: 3, scale: 0 });
}

#[test]
fn gauges_replace_on_repeat_insert() {
    let mut aggregator = fresh(8);
    ingest(&mut aggregator, "temp:21.5|g\ntemp:19.25|g");
    let series = aggregator.to_series();
    assert_eq!(series.len(), 1);
    assert_eq!(series[0].value, DecNum { neg: false, mant: 1925, scale: 2 });
}

#[test]
fn counter_sum_mixes_scales_exactly() {
    let mut aggregator = fresh(8);
    ingest(&mut aggregator, "acc:0.1|c\nacc:0.2|c");
    let series = aggregator.to_series();
    // 0.1 + 0.2 is exactly 0.3: the engine sums decimals, not floats.
    assert_eq!(series[0].value, DecNum { neg: false, mant: 3, scale: 1 });
    assert_eq!(series[0].value.render(), "0.3");
}

#[test]
fn capacity_refuses_the_next_identity_but_not_updates() {
    let mut aggregator = fresh(2);
    aggregator.insert(parse("a:1|c").unwrap()).unwrap();
    aggregator.insert(parse("b:1|c").unwrap()).unwrap();
    // A third distinct identity is refused...
    assert_eq!(
        aggregator.insert(parse("c:1|c").unwrap()).unwrap_err(),
        AggregatorError::Full
    );
    // ...while a tracked identity still merges.
    aggregator.insert(parse("a:5|c").unwrap()).unwrap();
    let series = aggregator.to_series();
    assert_eq!(series.len(), 2);
    let a = find_series(&series, "a");
    assert_eq!(a.value, DecNum { neg: false, mant: 6, scale: 0 });
}

#[test]
fn same_name_different_tags_are_distinct_identities() {
    let mut aggregator = fresh(8);
    ingest(&mut aggregator, "req:1|c|#env:prod\nreq:2|c|#env:dev\nreq:3|c|#env:prod");
    let series = aggregator.to_series();
    assert_eq!(series.len(), 2);
    assert_eq!(
        series.iter().find(|r| r.tags == "env:prod").unwrap().value,
        DecNum { neg: false, mant: 4, scale: 0 }
    );
    assert_eq!(
        series.iter().find(|r| r.tags == "env:dev").unwrap().value,
        DecNum { neg: false, mant: 2, scale: 0 }
    );
}

#[test]
fn default_tags_come_first_in_export_order() {
    let mut aggregator = Aggregator::new(
        vec!["host:h1".to_string(), "dc:eu".to_string()],
        8,
    )
    .unwrap();
    ingest(&mut aggregator, "x:1|c|#extra:yes\ny:2|c");
    let series = aggregator.to_series();
    assert_eq!(find_series(&series, "x").tags, "host:h1,dc:eu,extra:yes");
    assert_eq!(find_series(&series, "y").tags, "host:h1,dc:eu");
}

#[test]
fn zero_capacity_is_refused() {
    assert_eq!(
        Aggregator::new(Vec::new(), 0).unwrap_err(),
        ConfigError::ZeroCapacity
    );
}

#[test]
fn malformed_default_tag_is_refused() {
    assert_eq!(
        Aggregator::new(vec!["a,b".to_string()], 4).unwrap_err(),
        ConfigError::InvalidDefaultTag
    );
    assert_eq!(
        Aggregator::new(vec!["".to_string()], 4).unwrap_err(),
        ConfigError::InvalidDefaultTag
    );
}

#[test]
fn undecodable_datagram_is_dropped_whole() {
    let mut aggregator = fresh(8);
    let bad = vec![b'x', b':', b'1', b'|', b'c', b'\n', 0x80, 0xff];
    assert_eq!(
        consume_payload(&mut aggregator, &bad).unwrap_err(),
        IngestError::InvalidUtf8
    );
    assert_eq!(aggregator.to_series().len(), 0);
}

#[test]
fn stats_count_parses_failures_and_drops() {
    let mut aggregator = fresh(1);
    let stats = consume_payload(
        &mut aggregator,
        &b"a:1|c\nbroken line\nb:2|c\n_sc|skip|0".to_vec(),
    )
    .unwrap();
    assert_eq!(stats.parsed, 2);
    assert_eq!(stats.parse_failures, 1);
    // Capacity 1: the second identity is dropped.
    assert_eq!(stats.dropped, 1);
}

#[test]
fn distribution_sketch_accumulates_stats() {
    let mut aggregator = fresh(8);
    ingest(&mut aggregator, "lat:3|d\nlat:1.5|d\nlat:20|d");
    let payload = aggregator.distributions_to_protobuf();
    assert_eq!(payload.sketches.len(), 1);
    let (cnt, min, max, sum) = sketch_stats(&payload.sketches[0].payload);
    assert_eq!(cnt, 3);
    assert_eq!(min, DecNum { neg: false, mant: 15, scale: 1 });
    assert_eq!(max, DecNum { neg: false, mant: 20, scale: 0 });
    // The sum accumulates at full scale: 24.5 in units of 10^-18.
    assert_eq!(sum.neg, false);
    assert_eq!(sum.scale, 18);
    assert_eq!(sum.mant, 24_500_000_000_000_000_000);
}

#[test]
fn sketch_buckets_group_by_decade_and_leading_digits() {
    let mut aggregator = fresh(8);
    // Three observations of 5, then 500, 0 and -5.
    ingest(&mut aggregator, "lat:5|d\nlat:5|d\nlat:5|d\nlat:500|d\nlat:0|d\nlat:-5|d");
    let payload = aggregator.distributions_to_protobuf();
    let bytes = &payload.sketches[0].payload;
    let mut at = 0usize;
    let cnt = read_varint(bytes, &mut at);
    assert_eq!(cnt, 6);
    read_dec(bytes, &mut at); // min
    read_dec(bytes, &mut at); // max
    read_dec(bytes, &mut at); // sum
    let nbuckets = read_varint(bytes, &mut at);
    assert_eq!(nbuckets, 4);
    let mut buckets = Vec::new();
    for _ in 0..nbuckets {
        let key = read_varint(bytes, &mut at);
        let n = read_varint(bytes, &mut at);
        buckets.push((key, n));
    }
    // Key: (digits + 17 - scale) * 90 + (two leading digits - 10) + 1,
    // shifted by 3240 for negative values; 0 sits in bucket 0.
    assert_eq!(buckets, vec![(1661, 3), (1841, 1), (0, 1), (4901, 1)]);
    assert_eq!(at, bytes.len());
}

#[test]
fn empty_payload_changes_nothing() {
    let mut aggregator = fresh(4);
    let stats = consume_payload(&mut aggregator, &Vec::new()).unwrap();
    assert_eq!(stats.parsed, 0);
    assert_eq!(stats.parse_failures, 0);
    assert_eq!(aggregator.to_series().len(), 0);
}

#[test]
fn accumulation_spans_datagrams_until_reset() {
    let mut aggregator = fresh(4);
    ingest(&mut aggregator, "hits:1|c");
    ingest(&mut aggregator, "hits:4|c");
    // Exports are snapshots: they do not clear the table.
    assert_eq!(aggregator.to_series()[0].value, DecNum { neg: false, mant: 5, scale: 0 });
    assert_eq!(aggregator.to_series()[0].value, DecNum { neg: false, mant: 5, scale: 0 });
}

#[test]
fn kind_change_restarts_the_entry() {
    let mut aggregator = fresh(8);
    ingest(&mut aggregator, "x:5|c\nx:7|g");
    let series = aggregator.to_series();
    assert_eq!(series.len(), 1);
    // The identity now accumulates as a gauge, seeded by the new value.
    assert_eq!(series[0].value, DecNum { neg: false, mant: 7, scale: 0 });
}
