//! Tracer metadata carried in HTTP headers.
//!
//! A tracing client announces its language, versions and container through a
//! fixed set of request headers. This module turns that metadata into the
//! header list to send — headers with empty values are left out — and reads
//! it back from a received header map.

use vstd::prelude::*;

verus! {

#[verifier::external_type_specification]
#[verifier::external_body]
#[verifier::reject_recursive_types(T)]
pub struct ExHeaderMap<T>(hyper::HeaderMap<T>);

#[verifier::external_type_specification]
#[verifier::external_body]
pub struct ExHeaderValue(hyper::http::HeaderValue);

/// What a header map holds, read as text: each (lowercase) header name maps
/// to its value's text, or to `None` where the value is not visible ASCII.
pub uninterp spec fn header_entries(m: hyper::HeaderMap) -> Map<Seq<char>, Option<Seq<char>>>;

/// Relies on hyper's `HeaderMap::get` and `HeaderValue::to_str`: reads one
/// header as text. `get` looks names up case-insensitively; this wrapper is
/// called with lowercase literals, the form `header_entries` is keyed by.
/// `to_str` succeeds exactly on visible-ASCII values.
#[verifier::external_body]
fn header_get_str(m: &hyper::HeaderMap, k: &str) -> (r: Option<String>)
    ensures
        r is Some ==> header_entries(*m).contains_key(k@) && header_entries(*m)[k@] == Some(
            r->Some_0@,
        ),
        r is None ==> !header_entries(*m).contains_key(k@) || header_entries(*m)[k@] is None,
{
    match m.get(k) {
        Some(v) => match v.to_str() {
            Ok(s) => Some(s.to_string()),
            Err(_) => None,
        },
        None => None,
    }
}

/// Relies on hyper's `HeaderMap::get`: whether a header is present, by its
/// lowercase name.
#[verifier::external_body]
fn header_present(m: &hyper::HeaderMap, k: &str) -> (r: bool)
    ensures
        r == header_entries(*m).contains_key(k@),
{
    m.get(k).is_some()
}

/// The tracer metadata a set of request headers carries.
#[derive(Clone, Debug)]
pub struct TracerHeaderTags {
    pub lang: String,
    pub lang_version: String,
    pub lang_interpreter: String,
    pub lang_vendor: String,
    pub tracer_version: String,
    pub container_id: String,
    /// Set when the client marked top-level spans (any value means yes).
    pub client_computed_top_level: bool,
    /// Set when the client computed stats itself (any value means yes).
    pub client_computed_stats: bool,
}

impl Default for TracerHeaderTags {
    /// Empty metadata: all texts empty, both flags off.
    fn default() -> (r: TracerHeaderTags)
        ensures
            r.lang@ == Seq::<char>::empty(),
            r.lang_version@ == Seq::<char>::empty(),
            r.lang_interpreter@ == Seq::<char>::empty(),
            r.lang_vendor@ == Seq::<char>::empty(),
            r.tracer_version@ == Seq::<char>::empty(),
            r.container_id@ == Seq::<char>::empty(),
            !r.client_computed_top_level,
            !r.client_computed_stats,
    {
        TracerHeaderTags {
            lang: String::new(),
            lang_version: String::new(),
            lang_interpreter: String::new(),
            lang_vendor: String::new(),
            tracer_version: String::new(),
            container_id: String::new(),
            client_computed_top_level: false,
            client_computed_stats: false,
        }
    }
}

/// One header pair, or nothing for an empty value.
pub open spec fn maybe_pair(k: Seq<char>, v: Seq<char>) -> Seq<(Seq<char>, Seq<char>)> {
    if v.len() == 0 {
        Seq::empty()
    } else {
        seq![(k, v)]
    }
}

/// The headers a metadata record produces, in a fixed order, headers with
/// empty values left out.
pub open spec fn spec_headers(t: TracerHeaderTags) -> Seq<(Seq<char>, Seq<char>)> {
    maybe_pair("datadog-meta-lang"@, t.lang@) + maybe_pair(
        "datadog-meta-lang-version"@,
        t.lang_version@,
    ) + maybe_pair("datadog-meta-lang-interpreter"@, t.lang_interpreter@) + maybe_pair(
        "datadog-meta-lang-vendor"@,
        t.lang_vendor@,
    ) + maybe_pair("datadog-meta-tracer-version"@, t.tracer_version@) + maybe_pair(
        "datadog-container-id"@,
        t.container_id@,
    )
}

/// The views of a pair list.
pub open spec fn pair_views(ps: Seq<(String, String)>) -> Seq<(Seq<char>, Seq<char>)> {
    ps.map_values(|p: (String, String)| (p.0@, p.1@))
}

/// Pushing a pair pushes its views.
proof fn lemma_pair_views_push(ps: Seq<(String, String)>, x: (String, String))
    ensures
        pair_views(ps.push(x)) == pair_views(ps).push((x.0@, x.1@)),
{
    assert forall|q: int| 0 <= q < pair_views(ps.push(x)).len() implies pair_views(ps.push(x))[q]
        == pair_views(ps).push((x.0@, x.1@))[q] by {
        assert(pair_views(ps.push(x))[q] == (ps.push(x)[q].0@, ps.push(x)[q].1@));
        if q < ps.len() {
            assert(ps.push(x)[q] == ps[q]);
            assert(pair_views(ps)[q] == (ps[q].0@, ps[q].1@));
        }
    }
    assert(pair_views(ps.push(x)) =~= pair_views(ps).push((x.0@, x.1@)));
}

impl TracerHeaderTags {
    /// The header pairs to send for this metadata, in a fixed order, with
    /// empty values left out.
    pub fn header_map(self) -> (r: Vec<(String, String)>)
        ensures
            pair_views(r@) == spec_headers(self),
    {
        let mut out: Vec<(String, String)> = Vec::new();
        let ghost e0 = pair_views(out@);
        proof {
            assert(e0 =~= Seq::<(Seq<char>, Seq<char>)>::empty());
        }
        push_header(&mut out, "datadog-meta-lang", self.lang);
        push_header(&mut out, "datadog-meta-lang-version", self.lang_version);
        push_header(&mut out, "datadog-meta-lang-interpreter", self.lang_interpreter);
        push_header(&mut out, "datadog-meta-lang-vendor", self.lang_vendor);
        push_header(&mut out, "datadog-meta-tracer-version", self.tracer_version);
        push_header(&mut out, "datadog-container-id", self.container_id);
        proof {
            assert(pair_views(out@) =~= spec_headers(self));
        }
        out
    }

    /// Reads the metadata out of a header map: each text field takes the
    /// header's value where it is present and visible ASCII, and stays
    /// empty otherwise; each flag is set exactly when its header is present.
    pub fn from_headers(headers: &hyper::HeaderMap) -> (r: TracerHeaderTags)
        ensures
            ({
                let m = header_entries(*headers);
                &&& r.lang@ == header_text(m, "datadog-meta-lang"@)
                &&& r.lang_version@ == header_text(m, "datadog-meta-lang-version"@)
                &&& r.lang_interpreter@ == header_text(m, "datadog-meta-lang-interpreter"@)
                &&& r.lang_vendor@ == header_text(m, "datadog-meta-lang-vendor"@)
                &&& r.tracer_version@ == header_text(m, "datadog-meta-tracer-version"@)
                &&& r.container_id@ == header_text(m, "datadog-container-id"@)
                &&& r.client_computed_top_level == m.contains_key(
                    "datadog-client-computed-top-level"@,
                )
                &&& r.client_computed_stats == m.contains_key("datadog-client-computed-stats"@)
            }),
    {
        let mut tags = TracerHeaderTags::default();
        if let Some(v) = header_get_str(headers, "datadog-meta-lang") {
            tags.lang = v;
        }
        if let Some(v) = header_get_str(headers, "datadog-meta-lang-version") {
            tags.lang_version = v;
        }
        if let Some(v) = header_get_str(headers, "datadog-meta-lang-interpreter") {
            tags.lang_interpreter = v;
        }
        if let Some(v) = header_get_str(headers, "datadog-meta-lang-vendor") {
            tags.lang_vendor = v;
        }
        if let Some(v) = header_get_str(headers, "datadog-meta-tracer-version") {
            tags.tracer_version = v;
        }
        if let Some(v) = header_get_str(headers, "datadog-container-id") {
            tags.container_id = v;
        }
        if header_present(headers, "datadog-client-computed-top-level") {
            tags.client_computed_top_level = true;
        }
        if header_present(headers, "datadog-client-computed-stats") {
            tags.client_computed_stats = true;
        }
        tags
    }
}

/// The text a header map gives a name: its value where present and
/// readable, empty otherwise.
pub open spec fn header_text(m: Map<Seq<char>, Option<Seq<char>>>, k: Seq<char>) -> Seq<char> {
    if m.contains_key(k) && m[k] is Some {
        m[k]->Some_0
    } else {
        Seq::empty()
    }
}

/// Appends one header pair unless the value is empty.
fn push_header(out: &mut Vec<(String, String)>, k: &str, v: String)
    ensures
        pair_views(final(out)@) == pair_views(old(out)@) + maybe_pair(k@, v@),
{
    if v.as_str().unicode_len() == 0 {
        proof {
            assert(pair_views(out@) =~= pair_views(old(out)@) + maybe_pair(k@, v@));
        }
        return ;
    }
    let ghost pre = out@;
    let key = k.to_owned();
    out.push((key, v));
    proof {
        lemma_pair_views_push(pre, (key, v));
        assert(pair_views(out@) =~= pair_views(old(out)@) + maybe_pair(k@, v@));
    }
}

} // verus!
