//! The wire metric model and its line grammar.
//!
//! One observation travels as a single text line
//! `name:value|type[|@rate][|#tag,tag,...]`. The type token selects a
//! counter (`c`), a gauge (`g`) or a distribution (`d`; the histogram and
//! timing aliases `h` and `ms` fold into distribution). The value is a
//! decimal literal of at most `MAX_SCALE` digits. A sample-rate suffix is
//! accepted syntactically and carried verbatim; it does not scale the value.
//! Tags are carried verbatim and never validated against a schema.
//!
//! The grammar is defined once, as spec functions over `Seq<char>`; the
//! executable parser and serializer are proved to match them, and parsing
//! followed by re-serialization round-trips every parsed metric.

use crate::decimal::{pow10, DecNum, MAX_SCALE};
use crate::digits::{
    all_digits, canonical_digits, char_digit, digits_val, is_digit_char, spec_digits,
};
use crate::text::{find_char, seq_views, split_on};
use vstd::prelude::*;

verus! {

/// The accumulation discipline a metric asks for.
#[derive(Clone, Copy, Debug, PartialEq, Eq, Structural)]
pub enum MetricKind {
    Counter,
    Gauge,
    Distribution,
}

/// Why a line was rejected. Rejected lines are dropped by the caller; they
/// never abort a batch.
#[derive(Clone, Copy, Debug, PartialEq, Eq, Structural)]
pub enum ParseError {
    /// Nothing before the first `:`.
    EmptyName,
    /// No `:` or no `|`: the line has no value/type structure.
    MissingValue,
    /// The value is not a decimal literal of the grammar.
    NonNumericValue,
    /// The type token is none of `c`, `g`, `d`, `h`, `ms`.
    UnknownType,
    /// Something follows the type token that is neither a rate nor tags.
    TrailingData,
}

/// One parsed observation.
#[derive(Clone, Debug)]
pub struct Metric {
    pub name: String,
    pub kind: MetricKind,
    pub value: DecNum,
    /// The sample-rate text, verbatim, when the line carried one.
    pub rate: Option<String>,
    /// The tag strings, verbatim, in wire order.
    pub tags: Vec<String>,
}

/// The mathematical content of a [`Metric`].
pub ghost struct MetricV {
    pub name: Seq<char>,
    pub kind: MetricKind,
    pub value: DecNum,
    pub rate: Option<Seq<char>>,
    pub tags: Seq<Seq<char>>,
}

impl View for Metric {
    type V = MetricV;

    open spec fn view(&self) -> MetricV {
        MetricV {
            name: self.name@,
            kind: self.kind,
            value: self.value,
            rate: match self.rate {
                Option::Some(r) => Option::Some(r@),
                Option::None => Option::None,
            },
            tags: seq_views(self.tags@),
        }
    }
}

/// The kind a type token names, if any.
pub open spec fn spec_kind_of(t: Seq<char>) -> Option<MetricKind> {
    if t == seq!['c'] {
        Some(MetricKind::Counter)
    } else if t == seq!['g'] {
        Some(MetricKind::Gauge)
    } else if t == seq!['d'] || t == seq!['h'] || t == seq!['m', 's'] {
        Some(MetricKind::Distribution)
    } else {
        None
    }
}

/// The canonical token of a kind (aliases serialize as `d`).
pub open spec fn spec_kind_chars(k: MetricKind) -> Seq<char> {
    match k {
        MetricKind::Counter => seq!['c'],
        MetricKind::Gauge => seq!['g'],
        MetricKind::Distribution => seq!['d'],
    }
}

/// The value grammar: `["-"] digits ["." digits]`, no superfluous leading
/// zero, at most `MAX_SCALE` digits in all.
pub open spec fn spec_parse_value(v: Seq<char>) -> Option<DecNum> {
    let neg = v.len() >= 1 && v[0] == '-';
    let d = if neg {
        v.subrange(1, v.len() as int)
    } else {
        v
    };
    let di = find_char(d, '.', 0);
    if di == d.len() {
        if canonical_digits(d) && d.len() <= MAX_SCALE {
            Some(DecNum { neg, mant: digits_val(d) as u128, scale: 0 })
        } else {
            None
        }
    } else {
        let ipart = d.subrange(0, di);
        let fpart = d.subrange(di + 1, d.len() as int);
        if canonical_digits(ipart) && fpart.len() >= 1 && all_digits(fpart) && ipart.len()
            + fpart.len() <= MAX_SCALE {
            Some(
                DecNum {
                    neg,
                    mant: (digits_val(ipart) * pow10(fpart.len()) + digits_val(fpart)) as u128,
                    scale: fpart.len() as u32,
                },
            )
        } else {
            None
        }
    }
}

/// The suffix grammar after the type token: an optional `|@rate`, then an
/// optional `|#tags` that runs to the end of the line.
pub open spec fn spec_parse_tail(t: Seq<char>) -> Result<
    (Option<Seq<char>>, Seq<Seq<char>>),
    ParseError,
> {
    if t.len() == 0 {
        Ok((None, Seq::empty()))
    } else if t.len() < 2 || t[0] != '|' {
        Err(ParseError::TrailingData)
    } else if t[1] == '@' {
        let ri = find_char(t, '|', 1);
        let rate = t.subrange(2, ri);
        if ri == t.len() {
            Ok((Some(rate), Seq::empty()))
        } else if ri + 2 <= t.len() && t[ri + 1] == '#' {
            Ok((Some(rate), split_on(t.subrange(ri + 2, t.len() as int), ',')))
        } else {
            Err(ParseError::TrailingData)
        }
    } else if t[1] == '#' {
        Ok((None, split_on(t.subrange(2, t.len() as int), ',')))
    } else {
        Err(ParseError::TrailingData)
    }
}

/// The line grammar. Everything before the first `:` is the name; the value
/// runs to the next `|`; the type token to the `|` after that (or the end);
/// the rest is rate and tags.
pub open spec fn spec_parse(l: Seq<char>) -> Result<MetricV, ParseError> {
    let ci = find_char(l, ':', 0);
    if ci == l.len() {
        Err(ParseError::MissingValue)
    } else if ci == 0 {
        Err(ParseError::EmptyName)
    } else {
        let name = l.subrange(0, ci);
        let rest = l.subrange(ci + 1, l.len() as int);
        let vi = find_char(rest, '|', 0);
        if vi == rest.len() {
            Err(ParseError::MissingValue)
        } else {
            match spec_parse_value(rest.subrange(0, vi)) {
                None => Err(ParseError::NonNumericValue),
                Some(value) => {
                    let after = rest.subrange(vi + 1, rest.len() as int);
                    let ti = find_char(after, '|', 0);
                    match spec_kind_of(after.subrange(0, ti)) {
                        None => Err(ParseError::UnknownType),
                        Some(kind) => match spec_parse_tail(
                            after.subrange(ti, after.len() as int),
                        ) {
                            Err(e) => Err(e),
                            Ok((rate, tags)) => Ok(
                                MetricV { name: l.subrange(0, ci), kind, value, rate, tags },
                            ),
                        },
                    }
                },
            }
        }
    }
}

/// The canonical line for a metric: what the serializer writes.
pub open spec fn spec_serialize(m: MetricV) -> Seq<char> {
    let rate_part: Seq<char> = match m.rate {
        Some(r) => seq!['|', '@'] + r,
        None => Seq::empty(),
    };
    let tags_part: Seq<char> = if m.tags.len() == 0 {
        Seq::empty()
    } else {
        seq!['|', '#'] + crate::text::join_with(m.tags, ',')
    };
    m.name + seq![':'] + m.value.spec_chars() + seq!['|'] + spec_kind_chars(m.kind) + rate_part
        + tags_part
}

/// A metric the serializer can write on one line and the parser read back:
/// the name is nonempty and holds no `:`, the value is well formed, the rate
/// holds no `|` and no tag holds a `,`.
pub open spec fn metric_wf(m: MetricV) -> bool {
    &&& m.name.len() >= 1
    &&& forall|j: int| 0 <= j < m.name.len() ==> m.name[j] != ':'
    &&& m.value.wf()
    &&& match m.rate {
        Some(r) => forall|j: int| 0 <= j < r.len() ==> r[j] != '|',
        None => true,
    }
    &&& forall|k: int, j: int|
        0 <= k < m.tags.len() && 0 <= j < m.tags[k].len() ==> #[trigger] m.tags[k][j] != ','
}

/// A digit character is none of the grammar's separators.
proof fn lemma_digit_not_special(c: char)
    requires
        is_digit_char(c),
    ensures
        c != ':' && c != '|' && c != '.' && c != '-' && c != ',' && c != '@' && c != '#',
{
}

/// Every character a decimal writes is a digit, the dot or the minus sign.
pub proof fn lemma_value_chars_class(d: DecNum)
    requires
        d.scale <= MAX_SCALE,
    ensures
        forall|j: int|
            0 <= j < d.spec_chars().len() ==> is_digit_char(#[trigger] d.spec_chars()[j])
                || d.spec_chars()[j] == '.' || d.spec_chars()[j] == '-',
        d.spec_chars().len() >= 1,
        !d.neg ==> is_digit_char(d.spec_chars()[0]),
        d.neg ==> d.spec_chars()[0] == '-',
{
    let p = pow10(d.scale as nat);
    let ip = (d.mant as nat) / p;
    let fp = (d.mant as nat) % p;
    crate::digits::lemma_digits_shape(ip);
    crate::digits::lemma_digits_shape(fp);
    let padded = crate::decimal::zero_pad(spec_digits(fp), d.scale as nat);
    assert forall|j: int| 0 <= j < padded.len() implies is_digit_char(#[trigger] padded[j]) by {
        if spec_digits(fp).len() < d.scale as nat {
            let z = (d.scale as nat - spec_digits(fp).len()) as int;
            if j >= z {
                assert(padded[j] == spec_digits(fp)[j - z]);
            }
        }
    }
}

/// Zeros in front do not change what a digit string denotes.
proof fn lemma_prepend_zeros_val(z: nat, s: Seq<char>)
    ensures
        digits_val(Seq::new(z, |j: int| '0') + s) == digits_val(s),
    decreases s.len(),
{
    let zs = Seq::new(z, |j: int| '0');
    if s.len() == 0 {
        assert(zs + s =~= zs);
        lemma_zeros_val(z);
    } else {
        assert((zs + s).drop_last() =~= zs + s.drop_last());
        assert((zs + s).last() == s.last());
        lemma_prepend_zeros_val(z, s.drop_last());
    }
}

/// A string of zeros denotes zero.
proof fn lemma_zeros_val(z: nat)
    ensures
        digits_val(Seq::new(z, |j: int| '0')) == 0,
    decreases z,
{
    let zs = Seq::new(z, |j: int| '0');
    if z > 0 {
        assert(zs.drop_last() =~= Seq::new((z - 1) as nat, |j: int| '0'));
        assert(zs.last() == '0');
        assert(char_digit('0') == 0);
        lemma_zeros_val((z - 1) as nat);
    }
}

/// Reading the canonical writing of a well-formed decimal yields it back.
pub proof fn lemma_value_round_trip(d: DecNum)
    requires
        d.wf(),
    ensures
        spec_parse_value(d.spec_chars()) == Some(d),
{
    let p = pow10(d.scale as nat);
    crate::decimal::lemma_pow10_pos(d.scale as nat);
    let ip = (d.mant as nat) / p;
    let fp = (d.mant as nat) % p;
    vstd::arithmetic::div_mod::lemma_fundamental_div_mod(d.mant as int, p as int);
    vstd::arithmetic::div_mod::lemma_mod_bound(d.mant as int, p as int);
    crate::digits::lemma_digits_shape(ip);
    crate::digits::lemma_digits_shape(fp);
    crate::digits::lemma_digits_val_of_digits(ip);
    crate::digits::lemma_digits_val_of_digits(fp);
    lemma_value_chars_class(d);
    let v = d.spec_chars();
    let a = spec_digits(ip);
    let neg_seen = v.len() >= 1 && v[0] == '-';
    assert(neg_seen == d.neg);
    let dd = if d.neg {
        v.subrange(1, v.len() as int)
    } else {
        v
    };
    let sign: Seq<char> = if d.neg {
        seq!['-']
    } else {
        Seq::empty()
    };
    if d.scale == 0 {
        assert(v =~= sign + a + Seq::<char>::empty());
        assert(dd =~= a);
        assert(d.mant as nat / 1 == d.mant as nat);
        crate::text::lemma_find_char(dd, '.', 0);
        let di = find_char(dd, '.', 0);
        if di < dd.len() {
            assert(is_digit_char(dd[di]));
            assert(false);
        }
        assert(canonical_digits(dd));
        assert(dd.len() == crate::decimal::spec_digit_count(ip) <= MAX_SCALE);
        assert(digits_val(dd) == d.mant as nat);
        assert(spec_parse_value(v) == Some(DecNum { neg: d.neg, mant: d.mant, scale: 0 }));
    } else {
        let f = crate::decimal::zero_pad(spec_digits(fp), d.scale as nat);
        assert(v == sign + a + (seq!['.'] + f));
        assert(dd =~= a + seq!['.'] + f);
        // The fraction block has exactly `scale` digits.
        crate::decimal::lemma_digit_count_of_bound(fp, d.scale as nat);
        assert(spec_digits(fp).len() <= d.scale as nat);
        assert(f.len() == d.scale as nat);
        assert forall|j: int| 0 <= j < f.len() implies is_digit_char(#[trigger] f[j]) by {
            if spec_digits(fp).len() < d.scale as nat {
                let z = (d.scale as nat - spec_digits(fp).len()) as int;
                if j >= z {
                    assert(f[j] == spec_digits(fp)[j - z]);
                }
            }
        }
        // The first dot sits right after the integer digits.
        assert forall|j: int| 0 <= j < a.len() implies dd[j] != '.' by {
            assert(dd[j] == a[j]);
            assert(is_digit_char(a[j]));
        }
        assert(dd[a.len() as int] == '.');
        crate::text::lemma_find_char_at(dd, '.', a.len() as int);
        let di = find_char(dd, '.', 0);
        assert(di == a.len());
        let ipart = dd.subrange(0, di);
        let fpart = dd.subrange(di + 1, dd.len() as int);
        assert(ipart =~= a);
        assert(fpart =~= f);
        assert(canonical_digits(ipart));
        assert(ipart.len() + fpart.len() == crate::decimal::spec_digit_count(ip) + d.scale
            <= MAX_SCALE);
        // The fraction reads back as `fp`, padding zeros notwithstanding.
        if spec_digits(fp).len() < d.scale as nat {
            let z = (d.scale as nat - spec_digits(fp).len()) as nat;
            assert(f =~= Seq::new(z, |j: int| '0') + spec_digits(fp));
            lemma_prepend_zeros_val(z, spec_digits(fp));
        } else {
            assert(f =~= spec_digits(fp));
        }
        assert(digits_val(fpart) == fp);
        assert(digits_val(ipart) == ip);
        // The mantissa recomposes.
        assert(ip * p + fp == d.mant as nat) by (nonlinear_arith)
            requires
                d.mant as int == p * ip + fp,
        ;
        assert(spec_parse_value(v) == Some(
            DecNum { neg: d.neg, mant: d.mant, scale: d.scale },
        ));
    }
}

/// What the value grammar accepts is well formed.
pub proof fn lemma_parse_value_wf(v: Seq<char>, d: DecNum)
    requires
        spec_parse_value(v) == Some(d),
    ensures
        d.wf(),
{
    let neg = v.len() >= 1 && v[0] == '-';
    let s = if neg {
        v.subrange(1, v.len() as int)
    } else {
        v
    };
    let di = find_char(s, '.', 0);
    crate::text::lemma_find_char(s, '.', 0);
    if di == s.len() {
        crate::digits::lemma_digits_round_trip(s);
        crate::digits::lemma_digits_shape(digits_val(s));
        crate::digits::lemma_digits_val_bound(s);
        crate::decimal::lemma_pow10_bound(s.len());
        assert(d.mant as nat == digits_val(s));
        assert(pow10(0) == 1);
        assert(d.mant as nat / 1 == d.mant as nat);
        assert(crate::decimal::spec_digit_count(d.mant as nat) == s.len());
    } else {
        let ipart = s.subrange(0, di);
        let fpart = s.subrange(di + 1, s.len() as int);
        let iv = digits_val(ipart);
        let fv = digits_val(fpart);
        let p = pow10(fpart.len());
        crate::digits::lemma_digits_round_trip(ipart);
        crate::digits::lemma_digits_shape(iv);
        crate::digits::lemma_digits_val_bound(ipart);
        crate::digits::lemma_digits_val_bound(fpart);
        crate::decimal::lemma_pow10_bound(ipart.len() + fpart.len());
        crate::decimal::lemma_pow10_pos(fpart.len());
        crate::decimal::lemma_pow10_adds(ipart.len(), fpart.len());
        assert(iv * p + fv < pow10(ipart.len()) * p) by (nonlinear_arith)
            requires
                iv < pow10(ipart.len()),
                fv < p,
                p >= 1,
        ;
        assert(d.mant as nat == iv * p + fv);
        crate::decimal::lemma_compose_parts(iv, fv, p);
        assert((d.mant as nat) / pow10(d.scale as nat) == iv);
        assert(crate::decimal::spec_digit_count(iv) == ipart.len());
    }
}

/// Whatever the line grammar accepts is a well-formed metric.
pub proof fn lemma_parse_wf(l: Seq<char>, m: MetricV)
    requires
        spec_parse(l) == Ok::<MetricV, ParseError>(m),
    ensures
        metric_wf(m),
{
    let ci = find_char(l, ':', 0);
    crate::text::lemma_find_char(l, ':', 0);
    let rest = l.subrange(ci + 1, l.len() as int);
    let vi = find_char(rest, '|', 0);
    crate::text::lemma_find_char(rest, '|', 0);
    lemma_parse_value_wf(rest.subrange(0, vi), m.value);
    let after = rest.subrange(vi + 1, rest.len() as int);
    let ti = find_char(after, '|', 0);
    crate::text::lemma_find_char(after, '|', 0);
    let t = after.subrange(ti, after.len() as int);
    if t.len() >= 2 && t[0] == '|' && t[1] == '@' {
        crate::text::lemma_find_char(t, '|', 1);
        let ri = find_char(t, '|', 1);
        assert(forall|j: int| 0 <= j < m.rate->Some_0.len() ==> m.rate->Some_0[j] != '|');
        if ri < t.len() {
            crate::text::lemma_split_on(t.subrange(ri + 2, t.len() as int), ',');
        }
    } else if t.len() >= 2 && t[0] == '|' && t[1] == '#' {
        crate::text::lemma_split_on(t.subrange(2, t.len() as int), ',');
    }
}

/// Serializing a well-formed metric yields a line that parses back to it.
#[verifier::rlimit(100)]
pub proof fn lemma_metric_round_trip(m: MetricV)
    requires
        metric_wf(m),
    ensures
        spec_parse(spec_serialize(m)) == Ok::<MetricV, ParseError>(m),
{
    let l = spec_serialize(m);
    let v = m.value.spec_chars();
    let k = spec_kind_chars(m.kind);
    let r_part: Seq<char> = match m.rate {
        Some(r) => seq!['|', '@'] + r,
        None => Seq::empty(),
    };
    let t_part: Seq<char> = if m.tags.len() == 0 {
        Seq::empty()
    } else {
        seq!['|', '#'] + crate::text::join_with(m.tags, ',')
    };
    lemma_value_chars_class(m.value);
    lemma_value_round_trip(m.value);
    let nl = m.name.len() as int;
    // The first `:` closes the name.
    assert(l[nl] == ':');
    assert forall|j: int| 0 <= j < nl implies l[j] != ':' by {
        assert(l[j] == m.name[j]);
    }
    crate::text::lemma_find_char_at(l, ':', nl);
    let ci = find_char(l, ':', 0);
    assert(l.subrange(0, ci) =~= m.name);
    let rest = l.subrange(ci + 1, l.len() as int);
    assert(rest =~= v + seq!['|'] + k + r_part + t_part);
    // The next `|` closes the value.
    let vl = v.len() as int;
    assert forall|j: int| 0 <= j < vl implies rest[j] != '|' by {
        assert(rest[j] == v[j]);
        assert(is_digit_char(v[j]) || v[j] == '.' || v[j] == '-');
    }
    assert(rest[vl] == '|');
    crate::text::lemma_find_char_at(rest, '|', vl);
    let vi = find_char(rest, '|', 0);
    assert(rest.subrange(0, vi) =~= v);
    assert(spec_parse_value(rest.subrange(0, vi)) == Some(m.value));
    let after = rest.subrange(vi + 1, rest.len() as int);
    assert(after =~= k + r_part + t_part);
    // The type token is one canonical character.
    assert(k.len() == 1);
    assert(after[0] == k[0]);
    assert(k[0] == 'c' || k[0] == 'g' || k[0] == 'd');
    if r_part.len() > 0 || t_part.len() > 0 {
        assert(after[1] == '|');
        crate::text::lemma_find_char_at(after, '|', 1);
    } else {
        assert(after.len() == 1);
        crate::text::lemma_find_char_at(after, '|', 1);
    }
    let ti = find_char(after, '|', 0);
    assert(ti == 1);
    assert(after.subrange(0, 1) =~= k);
    assert(spec_kind_of(after.subrange(0, ti)) == Some(m.kind));
    let tail = after.subrange(ti, after.len() as int);
    assert(tail =~= r_part + t_part);
    // Rate and tags read back verbatim.
    match m.rate {
        None => {
            if m.tags.len() == 0 {
                assert(tail.len() == 0);
                assert(m.tags =~= Seq::<Seq<char>>::empty());
            } else {
                let joined = crate::text::join_with(m.tags, ',');
                assert(tail =~= seq!['|', '#'] + joined);
                assert(tail[0] == '|' && tail[1] == '#');
                assert(tail.subrange(2, tail.len() as int) =~= joined);
                crate::text::lemma_split_join(m.tags, ',');
            }
        },
        Some(r) => {
            let joined = crate::text::join_with(m.tags, ',');
            if m.tags.len() == 0 {
                assert(tail =~= seq!['|', '@'] + r);
                assert(tail[0] == '|' && tail[1] == '@');
                assert forall|j: int| 1 <= j < tail.len() implies tail[j] != '|' by {
                    if j >= 2 {
                        assert(tail[j] == r[j - 2]);
                    }
                }
                crate::text::lemma_find_char_from_at(tail, '|', 1, tail.len() as int);
                assert(tail.subrange(2, tail.len() as int) =~= r);
                assert(m.tags =~= Seq::<Seq<char>>::empty());
            } else {
                assert(tail =~= seq!['|', '@'] + r + (seq!['|', '#'] + joined));
                let ri = 2 + r.len() as int;
                assert(tail[0] == '|' && tail[1] == '@');
                assert(tail[ri] == '|');
                assert forall|j: int| 1 <= j < ri implies tail[j] != '|' by {
                    if j >= 2 {
                        assert(tail[j] == r[j - 2]);
                    }
                }
                crate::text::lemma_find_char_from_at(tail, '|', 1, ri);
                assert(tail.subrange(2, ri) =~= r);
                assert(tail[ri + 1] == '#');
                assert(tail.subrange(ri + 2, tail.len() as int) =~= joined);
                crate::text::lemma_split_join(m.tags, ',');
            }
        },
    }
}

/// Parsing a line and re-serializing the metric yields a line that parses to
/// the very same metric: name, kind, value and tag set all round-trip.
pub proof fn lemma_parse_round_trip(l: Seq<char>, m: MetricV)
    requires
        spec_parse(l) == Ok::<MetricV, ParseError>(m),
    ensures
        spec_parse(spec_serialize(m)) == Ok::<MetricV, ParseError>(m),
{
    lemma_parse_wf(l, m);
    lemma_metric_round_trip(m);
}

/// Whether every character is a decimal digit.
fn is_digits(s: &str) -> (r: bool)
    ensures
        r == all_digits(s@),
{
    let n = s.unicode_len();
    let mut i: usize = 0;
    while i < n
        invariant
            i <= n == s@.len(),
            forall|j: int| 0 <= j < i ==> is_digit_char(#[trigger] s@[j]),
        decreases n - i,
    {
        let c = s.get_char(i);
        let u = c as u32;
        if u < 48 || u > 57 {
            proof {
                assert(!is_digit_char(c));
            }
            return false;
        }
        proof {
            assert(is_digit_char(c));
        }
        i = i + 1;
    }
    true
}

/// Whether `s` is a canonical digit string.
fn is_canonical(s: &str) -> (r: bool)
    ensures
        r == canonical_digits(s@),
{
    let n = s.unicode_len();
    if n == 0 {
        return false;
    }
    if !is_digits(s) {
        return false;
    }
    n == 1 || s.get_char(0) != '0'
}

/// The number a digit string of bounded length denotes.
fn digits_to_val(s: &str) -> (r: u128)
    requires
        all_digits(s@),
        s@.len() <= MAX_SCALE,
    ensures
        r == digits_val(s@),
        r < pow10(s@.len()),
{
    let n = s.unicode_len();
    let mut r: u128 = 0;
    let mut i: usize = 0;
    proof {
        assert(s@.subrange(0, 0) =~= Seq::<char>::empty());
        crate::decimal::lemma_pow10_bound(MAX_SCALE as nat);
    }
    while i < n
        invariant
            i <= n == s@.len() <= MAX_SCALE,
            all_digits(s@),
            r == digits_val(s@.subrange(0, i as int)),
            r < pow10(i as nat),
            pow10(MAX_SCALE as nat) < u128::MAX,
        decreases n - i,
    {
        proof {
            crate::decimal::lemma_pow10_increases(i as nat + 1, MAX_SCALE as nat);
            assert(pow10(i as nat + 1) == 10 * pow10(i as nat));
            assert(s@.subrange(0, i + 1).drop_last() =~= s@.subrange(0, i as int));
            assert(s@.subrange(0, i + 1).last() == s@[i as int]);
            assert(is_digit_char(s@[i as int]));
        }
        let c = s.get_char(i);
        let d = (c as u32) - 48;
        proof {
            assert(d == char_digit(c));
        }
        r = r * 10 + (d as u128);
        i = i + 1;
    }
    proof {
        assert(s@.subrange(0, n as int) =~= s@);
    }
    r
}

/// Reads a value literal of the grammar.
fn parse_value(v: &str) -> (r: Option<DecNum>)
    ensures
        r == spec_parse_value(v@),
{
    let n = v.unicode_len();
    let neg = n >= 1 && v.get_char(0) == '-';
    let lo: usize = if neg {
        1
    } else {
        0
    };
    let d = v.substring_char(lo, n);
    proof {
        if !neg {
            assert(d@ =~= v@);
        }
    }
    let dn = d.unicode_len();
    let di = crate::text::find_ch(d, '.', 0);
    if di == dn {
        if is_canonical(d) && dn <= 18 {
            let mant = digits_to_val(d);
            Some(DecNum { neg, mant, scale: 0 })
        } else {
            None
        }
    } else {
        let ipart = d.substring_char(0, di);
        let fpart = d.substring_char(di + 1, dn);
        let fn_ = dn - di - 1;
        if is_canonical(ipart) && fn_ >= 1 && is_digits(fpart) && di + fn_ <= 18 {
            let iv = digits_to_val(ipart);
            let fv = digits_to_val(fpart);
            let p = crate::decimal::pow10_u128(fn_ as u32);
            proof {
                crate::decimal::lemma_pow10_adds(di as nat, fn_ as nat);
                crate::decimal::lemma_pow10_increases((di + fn_) as nat, MAX_SCALE as nat);
                crate::decimal::lemma_pow10_bound(MAX_SCALE as nat);
                assert(iv * p + fv < pow10(di as nat) * p) by (nonlinear_arith)
                    requires
                        iv < pow10(di as nat),
                        fv < p,
                        p >= 1,
                ;
            }
            let mant = iv * p + fv;
            Some(DecNum { neg, mant, scale: fn_ as u32 })
        } else {
            None
        }
    }
}

/// Reads a type token.
fn kind_of(t: &str) -> (r: Option<MetricKind>)
    ensures
        r == spec_kind_of(t@),
{
    let n = t.unicode_len();
    if n == 1 {
        let c = t.get_char(0);
        if c == 'c' {
            proof {
                assert(t@ =~= seq!['c']);
            }
            Some(MetricKind::Counter)
        } else if c == 'g' {
            proof {
                assert(t@ =~= seq!['g']);
            }
            Some(MetricKind::Gauge)
        } else if c == 'd' {
            proof {
                assert(t@ =~= seq!['d']);
            }
            Some(MetricKind::Distribution)
        } else if c == 'h' {
            proof {
                assert(t@ =~= seq!['h']);
            }
            Some(MetricKind::Distribution)
        } else {
            None
        }
    } else if n == 2 {
        if t.get_char(0) == 'm' && t.get_char(1) == 's' {
            proof {
                assert(t@ =~= seq!['m', 's']);
            }
            Some(MetricKind::Distribution)
        } else {
            None
        }
    } else {
        None
    }
}

/// Parses one line of the wire grammar into a metric, or says exactly why
/// the line is rejected. A rejected line is the caller's to drop and log;
/// parsing never panics and never aborts a batch.
pub fn parse(line: &str) -> (r: Result<Metric, ParseError>)
    ensures
        r is Ok <==> spec_parse(line@) is Ok,
        r is Ok ==> r->Ok_0@ == spec_parse(line@)->Ok_0,
        r is Err ==> r->Err_0 == spec_parse(line@)->Err_0,
{
    let n = line.unicode_len();
    let ci = crate::text::find_ch(line, ':', 0);
    if ci == n {
        return Err(ParseError::MissingValue);
    }
    if ci == 0 {
        return Err(ParseError::EmptyName);
    }
    let name = line.substring_char(0, ci).to_owned();
    let rest = line.substring_char(ci + 1, n);
    let rn = rest.unicode_len();
    let vi = crate::text::find_ch(rest, '|', 0);
    if vi == rn {
        return Err(ParseError::MissingValue);
    }
    let vtxt = rest.substring_char(0, vi);
    let value = match parse_value(vtxt) {
        Some(d) => d,
        None => {
            return Err(ParseError::NonNumericValue);
        },
    };
    let after = rest.substring_char(vi + 1, rn);
    let an = after.unicode_len();
    let ti = crate::text::find_ch(after, '|', 0);
    let ttok = after.substring_char(0, ti);
    let kind = match kind_of(ttok) {
        Some(kk) => kk,
        None => {
            return Err(ParseError::UnknownType);
        },
    };
    let tail = after.substring_char(ti, an);
    let tn = tail.unicode_len();
    let rate: Option<String>;
    let tags: Vec<String>;
    if tn == 0 {
        rate = None;
        tags = Vec::new();
        proof {
            assert(seq_views(tags@) =~= Seq::<Seq<char>>::empty());
        }
    } else if tn < 2 || tail.get_char(0) != '|' {
        return Err(ParseError::TrailingData);
    } else if tail.get_char(1) == '@' {
        let ri = crate::text::find_ch(tail, '|', 1);
        proof {
            crate::text::lemma_find_char(tail@, '|', 1);
        }
        rate = Some(tail.substring_char(2, ri).to_owned());
        if ri == tn {
            tags = Vec::new();
            proof {
                assert(seq_views(tags@) =~= Seq::<Seq<char>>::empty());
            }
        } else if ri + 2 <= tn && tail.get_char(ri + 1) == '#' {
            tags = crate::text::split_str(tail.substring_char(ri + 2, tn), ',');
        } else {
            return Err(ParseError::TrailingData);
        }
    } else if tail.get_char(1) == '#' {
        rate = None;
        tags = crate::text::split_str(tail.substring_char(2, tn), ',');
    } else {
        return Err(ParseError::TrailingData);
    }
    let m = Metric { name, kind, value, rate, tags };
    Ok(m)
}

/// Writes a metric as one line of the wire grammar.
pub fn serialize(m: &Metric) -> (r: String)
    requires
        m.value.scale <= MAX_SCALE,
    ensures
        r@ == spec_serialize(m@),
{
    proof {
        reveal_strlit(":");
        reveal_strlit("|");
        reveal_strlit("c");
        reveal_strlit("g");
        reveal_strlit("d");
        reveal_strlit("|@");
        reveal_strlit("|#");
        reveal_strlit(",");
    }
    let mut out = String::new();
    out.append(m.name.as_str());
    out.append(":");
    let vs = m.value.render();
    out.append(vs.as_str());
    out.append("|");
    match m.kind {
        MetricKind::Counter => out.append("c"),
        MetricKind::Gauge => out.append("g"),
        MetricKind::Distribution => out.append("d"),
    }
    match &m.rate {
        Some(rr) => {
            out.append("|@");
            out.append(rr.as_str());
        },
        None => {},
    }
    if m.tags.len() > 0 {
        out.append("|#");
        let joined = crate::text::join_strings(&m.tags, ",");
        out.append(joined.as_str());
        proof {
            assert(","@[0] == ',');
            assert(out@ =~= spec_serialize(m@));
        }
    } else {
        proof {
            assert(out@ =~= spec_serialize(m@));
        }
    }
    out
}

} // verus!
