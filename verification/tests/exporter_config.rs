//! The trace exporter configuration surface.

use libdatadog::trace_exporter::{
    ExporterErrorCode, TraceExporterConfig, TraceExporterInputFormat, TraceExporterOutputFormat,
};

fn bytes(s: &str) -> Vec<u8> {
    s.as_bytes().to_vec()
}

#[test]
fn config_constructor_test() {
    let cfg = TraceExporterConfig::default();
    assert_eq!(cfg.url, None);
    assert_eq!(cfg.tracer_version, None);
    assert_eq!(cfg.language, None);
    assert_eq!(cfg.language_version, None);
    assert_eq!(cfg.language_interpreter, None);
    assert_eq!(cfg.env, None);
    assert_eq!(cfg.hostname, None);
    assert_eq!(cfg.version, None);
    assert_eq!(cfg.service, None);
    assert_eq!(cfg.input_format, TraceExporterInputFormat::V04);
    assert_eq!(cfg.output_format, TraceExporterOutputFormat::V04);
    assert!(!cfg.compute_stats);
}

#[test]
fn config_url_test() {
    let mut config = TraceExporterConfig::default();
    let error = config.set_url(&bytes("http://localhost"));
    assert_eq!(error, None);
    assert_eq!(config.url.as_ref().unwrap(), "http://localhost");
}

#[test]
fn config_tracer_version() {
    let mut config = TraceExporterConfig::default();
    let error = config.set_tracer_version(&bytes("1.0"));
    assert_eq!(error, None);
    assert_eq!(config.tracer_version.as_ref().unwrap(), "1.0");
}

#[test]
fn config_language() {
    let mut config = TraceExporterConfig::default();
    let error = config.set_language(&bytes("lang"));
    assert_eq!(error, None);
    assert_eq!(config.language.as_ref().unwrap(), "lang");
}

#[test]
fn config_lang_version() {
    let mut config = TraceExporterConfig::default();
    let error = config.set_lang_version(&bytes("0.1"));
    assert_eq!(error, None);
    assert_eq!(config.language_version.as_ref().unwrap(), "0.1");
}

#[test]
fn config_lang_interpreter_test() {
    let mut config = TraceExporterConfig::default();
    let error = config.set_lang_interpreter(&bytes("foo"));
    assert_eq!(error, None);
    assert_eq!(config.language_interpreter.as_ref().unwrap(), "foo");
}

#[test]
fn config_hostname_test() {
    let mut config = TraceExporterConfig::default();
    let error = config.set_hostname(&bytes("hostname"));
    assert_eq!(error, None);
    assert_eq!(config.hostname.as_ref().unwrap(), "hostname");
}

#[test]
fn config_env_test() {
    let mut config = TraceExporterConfig::default();
    let error = config.set_env(&bytes("env-test"));
    assert_eq!(error, None);
    assert_eq!(config.env.as_ref().unwrap(), "env-test");
}

#[test]
fn config_version_test() {
    let mut config = TraceExporterConfig::default();
    let error = config.set_version(&bytes("1.2"));
    assert_eq!(error, None);
    assert_eq!(config.version.as_ref().unwrap(), "1.2");
}

#[test]
fn config_service_test() {
    let mut config = TraceExporterConfig::default();
    let error = config.set_service(&bytes("service"));
    assert_eq!(error, None);
    assert_eq!(config.service.as_ref().unwrap(), "service");
}

#[test]
fn config_invalid_input_test() {
    let mut config = TraceExporterConfig::default();
    let invalid: Vec<u8> = vec![0x80u8, 0xFFu8];
    let error = config.set_service(&invalid);
    assert_eq!(error.unwrap().code, ExporterErrorCode::InvalidInput);
    // The rejected input leaves the configuration untouched.
    assert_eq!(config.service, None);
}

#[test]
fn config_without_url_does_not_validate() {
    let mut config = TraceExporterConfig::default();
    assert_eq!(
        config.validate().unwrap().code,
        ExporterErrorCode::InvalidUrl
    );
    assert!(config.set_url(&bytes("http://localhost")).is_none());
    assert!(config.validate().is_none());
}
