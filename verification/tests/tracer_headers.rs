//! Tracer metadata to and from HTTP headers.

use libdatadog::tracer_header_tags::TracerHeaderTags;
use std::collections::HashMap;

#[test]
fn tags_to_hashmap() {
    let header_tags = TracerHeaderTags {
        lang: "test-lang".to_string(),
        lang_version: "2.0".to_string(),
        lang_interpreter: "interpreter".to_string(),
        lang_vendor: "vendor".to_string(),
        tracer_version: "1.0".to_string(),
        container_id: "id".to_string(),
        client_computed_top_level: false,
        client_computed_stats: false,
    };

    let map: HashMap<String, String> = header_tags.header_map().into_iter().collect();

    assert_eq!(map.len(), 6);
    assert_eq!(map.get("datadog-meta-lang").unwrap(), "test-lang");
    assert_eq!(map.get("datadog-meta-lang-version").unwrap(), "2.0");
    assert_eq!(map.get("datadog-meta-lang-interpreter").unwrap(), "interpreter");
    assert_eq!(map.get("datadog-meta-lang-vendor").unwrap(), "vendor");
    assert_eq!(map.get("datadog-meta-tracer-version").unwrap(), "1.0");
    assert_eq!(map.get("datadog-container-id").unwrap(), "id");
}

#[test]
fn tags_to_hashmap_empty_value() {
    let header_tags = TracerHeaderTags {
        lang: "test-lang".to_string(),
        lang_version: "2.0".to_string(),
        lang_interpreter: "interpreter".to_string(),
        lang_vendor: "vendor".to_string(),
        tracer_version: "1.0".to_string(),
        container_id: "".to_string(),
        client_computed_top_level: false,
        client_computed_stats: false,
    };

    let map: HashMap<String, String> = header_tags.header_map().into_iter().collect();

    assert_eq!(map.len(), 5);
    assert_eq!(map.get("datadog-meta-lang").unwrap(), "test-lang");
    assert_eq!(map.get("datadog-meta-lang-version").unwrap(), "2.0");
    assert_eq!(map.get("datadog-meta-lang-interpreter").unwrap(), "interpreter");
    assert_eq!(map.get("datadog-meta-lang-vendor").unwrap(), "vendor");
    assert_eq!(map.get("datadog-meta-tracer-version").unwrap(), "1.0");
    assert_eq!(map.get("datadog-container-id"), None);
}

#[test]
fn header_map_to_tags() {
    let mut header_map = hyper::HeaderMap::new();

    header_map.insert("datadog-meta-lang", "test-lang".parse().unwrap());
    header_map.insert("datadog-meta-lang-version", "2.0".parse().unwrap());
    header_map.insert("datadog-meta-lang-interpreter", "interpreter".parse().unwrap());
    header_map.insert("datadog-meta-lang-vendor", "vendor".parse().unwrap());
    header_map.insert("datadog-meta-tracer-version", "1.0".parse().unwrap());
    header_map.insert("datadog-container-id", "id".parse().unwrap());
    header_map.insert("datadog-client-computed-stats", "true".parse().unwrap());

    let tags = TracerHeaderTags::from_headers(&header_map);

    assert_eq!(tags.lang, "test-lang");
    assert_eq!(tags.lang_vendor, "vendor");
    assert_eq!(tags.lang_version, "2.0");
    assert_eq!(tags.tracer_version, "1.0");
    assert_eq!(tags.lang_interpreter, "interpreter");
    assert_eq!(tags.container_id, "id");
    assert!(tags.client_computed_stats);
    assert!(!tags.client_computed_top_level);
}

#[test]
fn header_map_ordering_is_stable() {
    let header_tags = TracerHeaderTags {
        lang: "rust".to_string(),
        lang_version: String::new(),
        lang_interpreter: String::new(),
        lang_vendor: String::new(),
        tracer_version: "9.9".to_string(),
        container_id: String::new(),
        client_computed_top_level: false,
        client_computed_stats: false,
    };
    let pairs = header_tags.header_map();
    assert_eq!(pairs.len(), 2);
    assert_eq!(pairs[0].0, "datadog-meta-lang");
    assert_eq!(pairs[0].1, "rust");
    assert_eq!(pairs[1].0, "datadog-meta-tracer-version");
    assert_eq!(pairs[1].1, "9.9");
}

#[test]
fn unreadable_header_value_reads_back_empty() {
    let mut header_map = hyper::HeaderMap::new();
    let raw = hyper::http::HeaderValue::from_bytes(&[0x80, 0x81]).unwrap();
    header_map.insert("datadog-meta-lang", raw);
    header_map.insert("datadog-client-computed-top-level", "yes".parse().unwrap());

    let tags = TracerHeaderTags::from_headers(&header_map);
    // Present but not visible ASCII: the text field stays empty.
    assert_eq!(tags.lang, "");
    assert!(tags.client_computed_top_level);
}
