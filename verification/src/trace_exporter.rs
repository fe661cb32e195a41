//! Trace exporter configuration.
//!
//! A foreign caller assembles the exporter's settings one field at a time,
//! handing each value over as raw bytes. Every setter validates its bytes
//! as UTF-8 and stores the decoded text, or reports the exact input error
//! and leaves the configuration untouched. The transport that consumes a
//! finished configuration lives outside this crate.

use crate::text::utf8_to_string;
use vstd::prelude::*;
use vstd::utf8::{decode_utf8, valid_utf8};

verus! {

/// What went wrong with a configuration call.
#[derive(Clone, Copy, Debug, PartialEq, Eq, Structural)]
pub enum ExporterErrorCode {
    /// A required argument was absent.
    InvalidArgument,
    /// An input was not valid UTF-8.
    InvalidInput,
    /// The configuration names no usable URL.
    InvalidUrl,
}

/// An error of the configuration surface.
#[derive(Clone, Copy, Debug, PartialEq, Eq, Structural)]
pub struct ExporterError {
    pub code: ExporterErrorCode,
}

/// The trace encoding accepted from clients.
#[derive(Clone, Copy, Debug, PartialEq, Eq, Structural)]
pub enum TraceExporterInputFormat {
    V04,
}

/// The trace encoding sent upstream.
#[derive(Clone, Copy, Debug, PartialEq, Eq, Structural)]
pub enum TraceExporterOutputFormat {
    V04,
}

/// The settings a trace exporter is built from. Each text field stays unset
/// until its setter accepts a value.
#[derive(Clone, Debug, PartialEq, Eq)]
pub struct TraceExporterConfig {
    pub url: Option<String>,
    pub tracer_version: Option<String>,
    pub language: Option<String>,
    pub language_version: Option<String>,
    pub language_interpreter: Option<String>,
    pub hostname: Option<String>,
    pub env: Option<String>,
    pub version: Option<String>,
    pub service: Option<String>,
    pub input_format: TraceExporterInputFormat,
    pub output_format: TraceExporterOutputFormat,
    pub compute_stats: bool,
}

impl Default for TraceExporterConfig {
    /// A configuration with nothing set.
    fn default() -> (r: TraceExporterConfig)
        ensures
            r.url is None,
            r.tracer_version is None,
            r.language is None,
            r.language_version is None,
            r.language_interpreter is None,
            r.hostname is None,
            r.env is None,
            r.version is None,
            r.service is None,
            r.input_format == TraceExporterInputFormat::V04,
            r.output_format == TraceExporterOutputFormat::V04,
            !r.compute_stats,
    {
        TraceExporterConfig {
            url: None,
            tracer_version: None,
            language: None,
            language_version: None,
            language_interpreter: None,
            hostname: None,
            env: None,
            version: None,
            service: None,
            input_format: TraceExporterInputFormat::V04,
            output_format: TraceExporterOutputFormat::V04,
            compute_stats: false,
        }
    }
}

/// Decodes caller bytes as text; anything else is an input error.
pub fn sanitize_string(bytes: &Vec<u8>) -> (r: Result<String, ExporterError>)
    ensures
        r is Ok <==> valid_utf8(bytes@),
        r is Ok ==> r->Ok_0@ == decode_utf8(bytes@),
        r is Err ==> r->Err_0 == (ExporterError { code: ExporterErrorCode::InvalidInput }),
{
    match utf8_to_string(bytes) {
        Some(s) => Ok(s),
        None => Err(ExporterError { code: ExporterErrorCode::InvalidInput }),
    }
}

/// What a text setter does: on valid UTF-8 the field takes the decoded
/// text and the call reports nothing; otherwise the field — and the whole
/// configuration — stays as it was and the call reports the input error.
pub open spec fn set_outcome(
    bytes: Seq<u8>,
    field: Option<String>,
    r: Option<ExporterError>,
) -> bool {
    &&& r is None <==> valid_utf8(bytes)
    &&& valid_utf8(bytes) ==> field is Some && field->Some_0@ == decode_utf8(bytes)
    &&& r is Some ==> r->Some_0 == (ExporterError { code: ExporterErrorCode::InvalidInput })
}

impl TraceExporterConfig {
    /// Sets the traces' destination.
    pub fn set_url(&mut self, url: &Vec<u8>) -> (r: Option<ExporterError>)
        ensures
            set_outcome(url@, final(self).url, r),
            valid_utf8(url@) ==> *final(self) == (TraceExporterConfig {
                url: final(self).url,
                ..*old(self)
            }),
            !valid_utf8(url@) ==> *final(self) == *old(self),
    {
        match sanitize_string(url) {
            Ok(s) => {
                self.url = Some(s);
                None
            },
            Err(e) => Some(e),
        }
    }

    /// Sets the tracer's version, for the request headers.
    pub fn set_tracer_version(&mut self, version: &Vec<u8>) -> (r: Option<ExporterError>)
        ensures
            set_outcome(version@, final(self).tracer_version, r),
            valid_utf8(version@) ==> *final(self) == (TraceExporterConfig {
                tracer_version: final(self).tracer_version,
                ..*old(self)
            }),
            !valid_utf8(version@) ==> *final(self) == *old(self),
    {
        match sanitize_string(version) {
            Ok(s) => {
                self.tracer_version = Some(s);
                None
            },
            Err(e) => Some(e),
        }
    }

    /// Sets the tracer's language, for the request headers.
    pub fn set_language(&mut self, lang: &Vec<u8>) -> (r: Option<ExporterError>)
        ensures
            set_outcome(lang@, final(self).language, r),
            valid_utf8(lang@) ==> *final(self) == (TraceExporterConfig {
                language: final(self).language,
                ..*old(self)
            }),
            !valid_utf8(lang@) ==> *final(self) == *old(self),
    {
        match sanitize_string(lang) {
            Ok(s) => {
                self.language = Some(s);
                None
            },
            Err(e) => Some(e),
        }
    }

    /// Sets the tracer's language version, for the request headers.
    pub fn set_lang_version(&mut self, version: &Vec<u8>) -> (r: Option<ExporterError>)
        ensures
            set_outcome(version@, final(self).language_version, r),
            valid_utf8(version@) ==> *final(self) == (TraceExporterConfig {
                language_version: final(self).language_version,
                ..*old(self)
            }),
            !valid_utf8(version@) ==> *final(self) == *old(self),
    {
        match sanitize_string(version) {
            Ok(s) => {
                self.language_version = Some(s);
                None
            },
            Err(e) => Some(e),
        }
    }

    /// Sets the tracer's language interpreter, for the request headers.
    pub fn set_lang_interpreter(&mut self, interpreter: &Vec<u8>) -> (r: Option<ExporterError>)
        ensures
            set_outcome(interpreter@, final(self).language_interpreter, r),
            valid_utf8(interpreter@) ==> *final(self) == (TraceExporterConfig {
                language_interpreter: final(self).language_interpreter,
                ..*old(self)
            }),
            !valid_utf8(interpreter@) ==> *final(self) == *old(self),
    {
        match sanitize_string(interpreter) {
            Ok(s) => {
                self.language_interpreter = Some(s);
                None
            },
            Err(e) => Some(e),
        }
    }

    /// Sets the reporting host's name, for the request headers.
    pub fn set_hostname(&mut self, hostname: &Vec<u8>) -> (r: Option<ExporterError>)
        ensures
            set_outcome(hostname@, final(self).hostname, r),
            valid_utf8(hostname@) ==> *final(self) == (TraceExporterConfig {
                hostname: final(self).hostname,
                ..*old(self)
            }),
            !valid_utf8(hostname@) ==> *final(self) == *old(self),
    {
        match sanitize_string(hostname) {
            Ok(s) => {
                self.hostname = Some(s);
                None
            },
            Err(e) => Some(e),
        }
    }

    /// Sets the deployment environment, for the request headers.
    pub fn set_env(&mut self, env: &Vec<u8>) -> (r: Option<ExporterError>)
        ensures
            set_outcome(env@, final(self).env, r),
            valid_utf8(env@) ==> *final(self) == (TraceExporterConfig {
                env: final(self).env,
                ..*old(self)
            }),
            !valid_utf8(env@) ==> *final(self) == *old(self),
    {
        match sanitize_string(env) {
            Ok(s) => {
                self.env = Some(s);
                None
            },
            Err(e) => Some(e),
        }
    }

    /// Sets the application version, for the request headers.
    pub fn set_version(&mut self, version: &Vec<u8>) -> (r: Option<ExporterError>)
        ensures
            set_outcome(version@, final(self).version, r),
            valid_utf8(version@) ==> *final(self) == (TraceExporterConfig {
                version: final(self).version,
                ..*old(self)
            }),
            !valid_utf8(version@) ==> *final(self) == *old(self),
    {
        match sanitize_string(version) {
            Ok(s) => {
                self.version = Some(s);
                None
            },
            Err(e) => Some(e),
        }
    }

    /// Sets the service name, for the request headers.
    pub fn set_service(&mut self, service: &Vec<u8>) -> (r: Option<ExporterError>)
        ensures
            set_outcome(service@, final(self).service, r),
            valid_utf8(service@) ==> *final(self) == (TraceExporterConfig {
                service: final(self).service,
                ..*old(self)
            }),
            !valid_utf8(service@) ==> *final(self) == *old(self),
    {
        match sanitize_string(service) {
            Ok(s) => {
                self.service = Some(s);
                None
            },
            Err(e) => Some(e),
        }
    }

    /// Whether the configuration can build an exporter: it must name a
    /// destination URL.
    pub fn validate(&self) -> (r: Option<ExporterError>)
        ensures
            r is None <==> self.url is Some,
            r is Some ==> r->Some_0 == (ExporterError { code: ExporterErrorCode::InvalidUrl }),
    {
        if self.url.is_some() {
            None
        } else {
            Some(ExporterError { code: ExporterErrorCode::InvalidUrl })
        }
    }
}

} // verus!
