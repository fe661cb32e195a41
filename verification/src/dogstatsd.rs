//! The datagram ingestion step.
//!
//! One datagram holds newline-delimited text. The payload is decoded as
//! UTF-8 (an undecodable datagram is dropped whole, never a crash), split
//! into lines, filtered — empty lines, service checks (`_sc|…`) and events
//! (`_e{…}`) are expected non-metric traffic, skipped before parsing so they
//! never count as failures — and every line that parses is inserted into the
//! aggregator in line order. A line that fails to parse, or an insert
//! refused at capacity, is counted and dropped; the step never aborts a
//! batch.
//!
//! The caller owns the loop around this step: it awaits a datagram, takes
//! the aggregator's lock, runs this step once, and checks its cancellation
//! signal between datagrams.

use crate::aggregator::{spec_insert, spec_insert_all, Aggregator};
use crate::metric::{parse, spec_parse, MetricV};
use crate::text::{seq_views, split_on, split_str, utf8_to_string};
use vstd::prelude::*;
use vstd::utf8::{decode_utf8, valid_utf8};

verus! {

/// Where the datagram listener binds.
pub struct DogStatsDConfig {
    pub host: String,
    pub port: u16,
}

/// Why a whole datagram was dropped.
#[derive(Clone, Copy, Debug, PartialEq, Eq, Structural)]
pub enum IngestError {
    /// The payload is not valid UTF-8.
    InvalidUtf8,
}

/// What one datagram contributed.
#[derive(Clone, Copy, Debug, PartialEq, Eq, Structural)]
pub struct IngestStats {
    /// Lines that parsed and were offered to the aggregator.
    pub parsed: usize,
    /// Candidate lines the parser rejected.
    pub parse_failures: usize,
    /// Parsed metrics the aggregator refused at capacity.
    pub dropped: usize,
}

/// The frame filter: a line reaches the parser unless it is empty, a
/// service check or an event.
pub open spec fn spec_is_candidate(l: Seq<char>) -> bool {
    &&& l.len() > 0
    &&& !seq!['_', 's', 'c', '|'].is_prefix_of(l)
    &&& !seq!['_', 'e', '{'].is_prefix_of(l)
}

/// Whether the frame filter lets a line through.
pub fn is_metric_candidate(line: &str) -> (r: bool)
    ensures
        r == spec_is_candidate(line@),
{
    let n = line.unicode_len();
    if n == 0 {
        return false;
    }
    if n >= 4 && line.get_char(0) == '_' && line.get_char(1) == 's' && line.get_char(2) == 'c'
        && line.get_char(3) == '|' {
        proof {
            assert(seq!['_', 's', 'c', '|'] =~= line@.subrange(0, 4));
        }
        return false;
    }
    if n >= 3 && line.get_char(0) == '_' && line.get_char(1) == 'e' && line.get_char(2) == '{' {
        proof {
            assert(seq!['_', 'e', '{'] =~= line@.subrange(0, 3));
        }
        return false;
    }
    proof {
        if seq!['_', 's', 'c', '|'].is_prefix_of(line@) {
            assert(line@[0] == '_' && line@[1] == 's' && line@[2] == 'c' && line@[3] == '|');
        }
        if seq!['_', 'e', '{'].is_prefix_of(line@) {
            assert(line@[0] == '_' && line@[1] == 'e' && line@[2] == '{');
        }
    }
    true
}

/// The metrics a line list yields: candidates that parse, in line order.
pub open spec fn spec_line_metrics(lines: Seq<Seq<char>>) -> Seq<MetricV>
    decreases lines.len(),
{
    if lines.len() == 0 {
        Seq::empty()
    } else {
        spec_line_metrics(lines.drop_last()) + (if spec_is_candidate(lines.last()) && spec_parse(
            lines.last(),
        ) is Ok {
            seq![spec_parse(lines.last())->Ok_0]
        } else {
            Seq::empty()
        })
    }
}

/// How many candidate lines of a line list the parser rejects.
pub open spec fn spec_line_failures(lines: Seq<Seq<char>>) -> nat
    decreases lines.len(),
{
    if lines.len() == 0 {
        0
    } else {
        spec_line_failures(lines.drop_last()) + (if spec_is_candidate(lines.last()) && spec_parse(
            lines.last(),
        ) is Err {
            1nat
        } else {
            0nat
        })
    }
}

/// The metrics one decoded payload yields.
pub open spec fn spec_payload_metrics(text: Seq<char>) -> Seq<MetricV> {
    spec_line_metrics(split_on(text, '\n'))
}

/// How many inserts of a batch the table refuses.
pub open spec fn spec_insert_drops(s: Seq<crate::aggregator::EntryV>, cap: nat, ms: Seq<MetricV>) -> nat
    decreases ms.len(),
{
    if ms.len() == 0 {
        0
    } else {
        (if spec_insert(s, cap, ms[0]).1 {
            0nat
        } else {
            1nat
        }) + spec_insert_drops(spec_insert(s, cap, ms[0]).0, cap, ms.drop_first())
    }
}

/// Appending one metric to a batch runs it last.
proof fn lemma_insert_all_push(
    s: Seq<crate::aggregator::EntryV>,
    cap: nat,
    ms: Seq<MetricV>,
    m: MetricV,
)
    ensures
        spec_insert_all(s, cap, ms.push(m)) == spec_insert(spec_insert_all(s, cap, ms), cap, m).0,
        spec_insert_drops(s, cap, ms.push(m)) == spec_insert_drops(s, cap, ms) + (if spec_insert(
            spec_insert_all(s, cap, ms),
            cap,
            m,
        ).1 {
            0nat
        } else {
            1nat
        }),
    decreases ms.len(),
{
    if ms.len() == 0 {
        assert(ms.push(m)[0] == m);
        assert(ms.push(m).drop_first() =~= Seq::<MetricV>::empty());
        assert(spec_insert_all(spec_insert(s, cap, m).0, cap, Seq::empty()) == spec_insert(
            s,
            cap,
            m,
        ).0);
        assert(spec_insert_all(s, cap, Seq::empty()) == s);
        assert(spec_insert_drops(s, cap, Seq::empty()) == 0);
        assert(spec_insert_drops(spec_insert(s, cap, m).0, cap, Seq::empty()) == 0);
    } else {
        assert(ms.push(m)[0] == ms[0]);
        assert(ms.push(m).drop_first() =~= ms.drop_first().push(m));
        lemma_insert_all_push(spec_insert(s, cap, ms[0]).0, cap, ms.drop_first(), m);
        assert(spec_insert_all(s, cap, ms) == spec_insert_all(
            spec_insert(s, cap, ms[0]).0,
            cap,
            ms.drop_first(),
        ));
    }
}

/// Decodes, filters, parses and inserts one datagram payload: the pipeline
/// step the ingestion loop runs under the aggregator's lock. A payload that
/// is not UTF-8 is dropped whole and leaves the table untouched; otherwise
/// every line that the filter passes and the parser accepts is inserted, in
/// line order, and the step reports how many lines parsed, how many
/// candidates failed to parse, and how many inserts the full table refused.
pub fn consume_payload(agg: &mut Aggregator, buf: &Vec<u8>) -> (r: Result<IngestStats, IngestError>)
    requires
        old(agg).wf(),
    ensures
        final(agg).wf(),
        final(agg).spec_capacity() == old(agg).spec_capacity(),
        final(agg).spec_default_tags() == old(agg).spec_default_tags(),
        r is Err <==> !valid_utf8(buf@),
        r is Err ==> final(agg).view() == old(agg).view() && r->Err_0 == IngestError::InvalidUtf8,
        r is Ok ==> {
            let ms = spec_payload_metrics(decode_utf8(buf@));
            &&& final(agg).view() == spec_insert_all(
                old(agg).view(),
                old(agg).spec_capacity() as nat,
                ms,
            )
            &&& r->Ok_0.parsed == ms.len()
            &&& r->Ok_0.parse_failures == spec_line_failures(split_on(decode_utf8(buf@), '\n'))
            &&& r->Ok_0.dropped == spec_insert_drops(
                old(agg).view(),
                old(agg).spec_capacity() as nat,
                ms,
            )
        },
{
    let text = match utf8_to_string(buf) {
        Some(t) => t,
        None => {
            return Err(IngestError::InvalidUtf8);
        },
    };
    let lines = split_str(text.as_str(), '\n');
    let ghost lviews = seq_views(lines@);
    let ghost v0 = agg.view();
    let ghost cap = agg.spec_capacity() as nat;
    let n = lines.len();
    let mut parsed: usize = 0;
    let mut parse_failures: usize = 0;
    let mut dropped: usize = 0;
    proof {
        assert(lviews.subrange(0, 0) =~= Seq::<Seq<char>>::empty());
    }
    let mut k: usize = 0;
    while k < n
        invariant
            k <= n == lines@.len(),
            lviews == seq_views(lines@),
            agg.wf(),
            agg.spec_capacity() == old(agg).spec_capacity(),
            agg.spec_default_tags() == old(agg).spec_default_tags(),
            v0 == old(agg).view(),
            cap == old(agg).spec_capacity() as nat,
            agg.view() == spec_insert_all(v0, cap, spec_line_metrics(lviews.subrange(0, k as int))),
            parsed == spec_line_metrics(lviews.subrange(0, k as int)).len(),
            parsed <= k,
            parse_failures == spec_line_failures(lviews.subrange(0, k as int)),
            parse_failures <= k,
            dropped == spec_insert_drops(v0, cap, spec_line_metrics(lviews.subrange(0, k as int))),
            dropped <= parsed,
        decreases n - k,
    {
        let ghost pre_ms = spec_line_metrics(lviews.subrange(0, k as int));
        let line = &lines[k];
        proof {
            assert(seq_views(lines@)[k as int] == lines@[k as int]@);
            assert(lviews.subrange(0, k + 1).drop_last() =~= lviews.subrange(0, k as int));
            assert(lviews.subrange(0, k + 1).last() == lviews[k as int]);
        }
        if is_metric_candidate(line.as_str()) {
            match parse(line.as_str()) {
                Ok(m) => {
                    proof {
                        crate::metric::lemma_parse_wf(line@, m@);
                        assert(spec_line_metrics(lviews.subrange(0, k + 1)) =~= pre_ms.push(m@));
                        lemma_insert_all_push(v0, cap, pre_ms, m@);
                    }
                    let res = agg.insert(m);
                    if res.is_err() {
                        dropped = dropped + 1;
                    }
                    parsed = parsed + 1;
                },
                Err(_) => {
                    proof {
                        assert(spec_line_metrics(lviews.subrange(0, k + 1)) =~= pre_ms);
                    }
                    parse_failures = parse_failures + 1;
                },
            }
        } else {
            proof {
                assert(spec_line_metrics(lviews.subrange(0, k + 1)) =~= pre_ms);
            }
        }
        k = k + 1;
    }
    proof {
        assert(lviews.subrange(0, n as int) =~= lviews);
    }
    Ok(IngestStats { parsed, parse_failures, dropped })
}

} // verus!
