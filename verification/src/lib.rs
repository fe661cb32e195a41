//! A verified metrics ingestion and aggregation engine: the wire-text
//! metric grammar, the bounded concurrent-safe aggregator with its two
//! export shapes, the profile sample model, and the header-borne tracer
//! metadata, all specified and proved with Verus.

pub mod aggregator;
pub mod decimal;
pub mod digits;
pub mod dogstatsd;
pub mod metric;
pub mod profile_api;
pub mod sketch;
pub mod text;
pub mod trace_exporter;
pub mod tracer_header_tags;
