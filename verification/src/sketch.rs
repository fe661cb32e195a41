//! Bounded-memory value sketches for distributions.
//!
//! A distribution entry must absorb arbitrarily many observations in bounded
//! memory while preserving the shape of the value population. The sketch
//! buckets every nonzero value by its decimal decade and its two leading
//! significant digits: two values in one bucket agree to within a tenth of
//! their magnitude (`lemma_bucket_relative_error` proves the bound), and
//! the bucket key space is finite. Alongside the buckets the sketch keeps
//! the exact count, minimum, maximum and (saturating) sum.

use crate::decimal::{spec_digit_count, DecNum, MAX_SCALE};
use vstd::prelude::*;

verus! {

/// Keys `1..=3240` hold positive values; the same range shifted by
/// `NEG_BASE` holds negative values; key 0 holds exact zeros.
pub const NEG_BASE: u16 = 3240;

/// One bucket: a key and how many observations fell into it.
#[derive(Clone, Copy, Debug, PartialEq, Eq, Structural)]
pub struct Bucket {
    pub key: u16,
    pub n: u64,
}

/// A distribution sketch.
#[derive(Clone, Debug)]
pub struct Sketch {
    /// How many values were observed (saturating).
    pub cnt: u64,
    /// The smallest observed value.
    pub min: DecNum,
    /// The largest observed value.
    pub max: DecNum,
    /// The saturating sum of all observed values, at full scale.
    pub sum: DecNum,
    /// The occupied buckets, one entry per key, in first-use order.
    pub buckets: Vec<Bucket>,
}

/// The mathematical content of a [`Sketch`]. The buckets keep their
/// first-use order: the binary encoding depends on it.
pub ghost struct SketchV {
    pub cnt: u64,
    pub min: DecNum,
    pub max: DecNum,
    pub sum: DecNum,
    pub buckets: Seq<Bucket>,
}

/// The two leading significant digits of `m >= 1`, as a number in `10..=99`
/// (a single-digit value is padded with a trailing zero).
pub open spec fn lead_two(m: nat) -> nat
    decreases m,
{
    if m < 10 {
        m * 10
    } else if m < 100 {
        m
    } else {
        lead_two(m / 10)
    }
}

proof fn lemma_lead_two_range(m: nat)
    requires
        m >= 1,
    ensures
        10 <= lead_two(m) <= 99,
    decreases m,
{
    if m >= 100 {
        lemma_lead_two_range(m / 10);
    }
}

/// The bucket key of a value: zero gets key 0; a nonzero value is keyed by
/// its decade (the power of ten of its leading digit) and its two leading
/// digits, with negative values shifted past `NEG_BASE`.
pub open spec fn spec_key_of(d: DecNum) -> u16 {
    if d.mant == 0 {
        0u16
    } else {
        let nd = spec_digit_count(d.mant as nat);
        let base = (nd + 17 - d.scale) * 90 + (lead_two(d.mant as nat) - 10) + 1;
        if d.neg {
            (base + NEG_BASE) as u16
        } else {
            base as u16
        }
    }
}

/// The bucket key of a well-formed value.
pub fn key_of(d: &DecNum) -> (r: u16)
    requires
        d.wf(),
    ensures
        r == spec_key_of(*d),
        r <= 2 * NEG_BASE,
{
    if d.mant == 0 {
        return 0;
    }
    proof {
        crate::decimal::lemma_wf_mant_bound(*d);
        crate::decimal::lemma_digit_count_of_bound(d.mant as nat, MAX_SCALE as nat);
        lemma_lead_two_range(d.mant as nat);
    }
    let nd: u32 = crate::decimal::digit_count(d.mant) as u32;
    let mut m = d.mant;
    while m >= 100
        invariant
            lead_two(m as nat) == lead_two(d.mant as nat),
            m >= 1,
        decreases m,
    {
        m = m / 10;
    }
    let lead: u32 = if m < 10 {
        (m as u32) * 10
    } else {
        m as u32
    };
    let base: u32 = (nd + 17 - d.scale) * 90 + (lead - 10) + 1;
    if d.neg {
        (base as u16) + NEG_BASE
    } else {
        base as u16
    }
}

/// Every number has at least one digit.
proof fn lemma_dc_pos(x: nat)
    ensures
        spec_digit_count(x) >= 1,
{
}

/// Well-formedness keeps at least one integer digit, so the scale never
/// exhausts the digit budget.
proof fn lemma_wf_scale_bound(d: DecNum)
    requires
        d.wf(),
    ensures
        d.scale <= MAX_SCALE - 1,
{
    lemma_dc_pos((d.mant as nat) / crate::decimal::pow10(d.scale as nat));
}

/// `lead_two` names the first two significant digits: a number of `k + 2`
/// digits sits between `L * 10^k` and `(L+1) * 10^k`.
proof fn lemma_lead_two_bounds(m: nat, k: nat)
    requires
        m >= 1,
        spec_digit_count(m) == k + 2,
    ensures
        lead_two(m) * crate::decimal::pow10(k) <= m,
        m < (lead_two(m) + 1) * crate::decimal::pow10(k),
    decreases m,
{
    if m < 100 {
        if m < 10 {
            assert(spec_digit_count(m) == 1);
            assert(false);
        }
        assert(spec_digit_count(m / 10) == 1);
        assert(spec_digit_count(m) == 2);
        assert(k == 0);
        assert(lead_two(m) == m);
        assert(crate::decimal::pow10(0) == 1);
    } else {
        lemma_dc_pos((m / 10) / 10);
        assert(spec_digit_count(m) == 1 + spec_digit_count(m / 10));
        assert(spec_digit_count(m / 10) >= 2);
        assert(k >= 1);
        let k0 = (k - 1) as nat;
        lemma_lead_two_bounds(m / 10, k0);
        let l = lead_two(m / 10);
        assert(lead_two(m) == l);
        assert(crate::decimal::pow10(k0 + 1) == 10 * crate::decimal::pow10(k0));
        assert(m >= 10 * (m / 10) && m <= 10 * (m / 10) + 9);
        assert(10 * (l * crate::decimal::pow10(k0)) <= 10 * (m / 10)) by (nonlinear_arith)
            requires
                l * crate::decimal::pow10(k0) <= m / 10,
        ;
        assert(l * (10 * crate::decimal::pow10(k0)) == 10 * (l * crate::decimal::pow10(k0)))
            by (nonlinear_arith);
        assert(10 * (m / 10) + 10 <= 10 * ((l + 1) * crate::decimal::pow10(k0)))
            by (nonlinear_arith)
            requires
                m / 10 + 1 <= (l + 1) * crate::decimal::pow10(k0),
        ;
        assert((l + 1) * (10 * crate::decimal::pow10(k0)) == 10 * ((l + 1)
            * crate::decimal::pow10(k0))) by (nonlinear_arith);
    }
}

/// A positive well-formed value sits between `L * 10^E` and `(L+1) * 10^E`
/// at full scale, where `L` is its two leading digits and `E` its decade
/// exponent — the quantities its bucket key is built from.
proof fn lemma_key_value_bounds(d: DecNum)
    requires
        d.wf(),
        d.mant >= 1,
    ensures
        lead_two(d.mant as nat) * crate::decimal::pow10(
            (spec_digit_count(d.mant as nat) + 16 - d.scale) as nat,
        ) <= d.mant * crate::decimal::pow10((MAX_SCALE - d.scale) as nat),
        d.mant * crate::decimal::pow10((MAX_SCALE - d.scale) as nat) < (lead_two(d.mant as nat)
            + 1) * crate::decimal::pow10((spec_digit_count(d.mant as nat) + 16 - d.scale) as nat),
{
    lemma_wf_scale_bound(d);
    let m = d.mant as nat;
    let nd = spec_digit_count(m);
    let l = lead_two(m);
    let p = crate::decimal::pow10((MAX_SCALE - d.scale) as nat);
    let e = (nd + 16 - d.scale) as nat;
    crate::decimal::lemma_pow10_pos((MAX_SCALE - d.scale) as nat);
    if nd == 1 {
        // One significant digit: the value is exactly `l * 10^E`.
        if m >= 10 {
            lemma_dc_pos(m / 10);
            assert(false);
        }
        assert(l == m * 10);
        assert(e + 1 == (MAX_SCALE - d.scale) as nat);
        assert(crate::decimal::pow10(e + 1) == 10 * crate::decimal::pow10(e));
        assert((m * 10) * crate::decimal::pow10(e) == m * (10 * crate::decimal::pow10(e)))
            by (nonlinear_arith);
        assert(m * p < (l + 1) * crate::decimal::pow10(e)) by (nonlinear_arith)
            requires
                m * p == l * crate::decimal::pow10(e),
                crate::decimal::pow10(e) >= 1,
        ;
    } else {
        lemma_lead_two_bounds(m, (nd - 2) as nat);
        let q = crate::decimal::pow10((nd - 2) as nat);
        crate::decimal::lemma_pow10_adds((nd - 2) as nat, (MAX_SCALE - d.scale) as nat);
        assert((nd - 2) + (MAX_SCALE - d.scale) == e);
        assert((l * q) * p <= m * p) by (nonlinear_arith)
            requires
                l * q <= m,
                p >= 1,
        ;
        assert((l * q) * p == l * (q * p)) by (nonlinear_arith);
        assert(m * p < ((l + 1) * q) * p) by (nonlinear_arith)
            requires
                m < (l + 1) * q,
                p >= 1,
        ;
        assert(((l + 1) * q) * p == (l + 1) * (q * p)) by (nonlinear_arith);
    }
    crate::decimal::lemma_pow10_pos(e);
}

/// Two positive values that share a bucket agree to within a tenth of their
/// magnitude: the sketch's relative-error bound. (Negative values mirror
/// this bound in their own key range; zeros share the exact zero bucket.)
pub proof fn lemma_bucket_relative_error(a: DecNum, b: DecNum)
    requires
        a.wf(),
        b.wf(),
        !a.neg,
        !b.neg,
        a.mant >= 1,
        b.mant >= 1,
        spec_key_of(a) == spec_key_of(b),
    ensures
        10 * a.sval() <= 11 * b.sval(),
        10 * b.sval() <= 11 * a.sval(),
{
    crate::decimal::lemma_wf_mant_bound(a);
    crate::decimal::lemma_wf_mant_bound(b);
    crate::decimal::lemma_digit_count_of_bound(a.mant as nat, MAX_SCALE as nat);
    crate::decimal::lemma_digit_count_of_bound(b.mant as nat, MAX_SCALE as nat);
    lemma_wf_scale_bound(a);
    lemma_wf_scale_bound(b);
    lemma_lead_two_range(a.mant as nat);
    lemma_lead_two_range(b.mant as nat);
    let la = lead_two(a.mant as nat);
    let lb = lead_two(b.mant as nat);
    let qa = spec_digit_count(a.mant as nat) + 17 - a.scale;
    let qb = spec_digit_count(b.mant as nat) + 17 - b.scale;
    let base_a = qa * 90 + (la - 10) + 1;
    let base_b = qb * 90 + (lb - 10) + 1;
    // The key is injective on (decade, leading digits) for positive values.
    lemma_dc_pos(a.mant as nat);
    lemma_dc_pos(b.mant as nat);
    assert(1 <= qa <= 35 && 1 <= qb <= 35);
    assert(base_a <= 3240 && base_b <= 3240);
    assert(base_a == base_b);
    vstd::arithmetic::div_mod::lemma_fundamental_div_mod_converse(
        base_a - 1,
        90,
        qa as int,
        la - 10,
    );
    vstd::arithmetic::div_mod::lemma_fundamental_div_mod_converse(
        base_b - 1,
        90,
        qb as int,
        lb - 10,
    );
    assert(qa == qb && la == lb);
    lemma_key_value_bounds(a);
    lemma_key_value_bounds(b);
    let e = (spec_digit_count(a.mant as nat) + 16 - a.scale) as nat;
    assert((spec_digit_count(b.mant as nat) + 16 - b.scale) as nat == e);
    let pe = crate::decimal::pow10(e);
    let sa = a.sval();
    let sb = b.sval();
    assert(sa == a.mant * crate::decimal::pow10((MAX_SCALE - a.scale) as nat));
    assert(sb == b.mant * crate::decimal::pow10((MAX_SCALE - b.scale) as nat));
    assert(la * pe <= sa < (la + 1) * pe);
    assert(la * pe <= sb < (la + 1) * pe);
    assert(10 * sa <= 11 * sb && 10 * sb <= 11 * sa) by (nonlinear_arith)
        requires
            la * pe <= sa < (la + 1) * pe,
            la * pe <= sb < (la + 1) * pe,
            la >= 10,
            pe >= 0,
    ;
}

/// No two buckets share a key.
pub open spec fn buckets_unique(s: Seq<Bucket>) -> bool {
    forall|i: int, j: int| 0 <= i < j < s.len() ==> s[i].key != s[j].key
}

/// One observation's effect on the buckets: the key's count rises by one
/// (saturating), a first use appends a fresh bucket.
pub open spec fn spec_bump(s: Seq<Bucket>, k: u16) -> Seq<Bucket> {
    if exists|i: int| 0 <= i < s.len() && s[i].key == k {
        let i = choose|i: int| 0 <= i < s.len() && s[i].key == k;
        s.update(
            i,
            Bucket {
                key: k,
                n: if s[i].n == u64::MAX {
                    u64::MAX
                } else {
                    (s[i].n + 1) as u64
                },
            },
        )
    } else {
        s.push(Bucket { key: k, n: 1 })
    }
}

/// Raises the count of `k` by one (first use starts at one).
fn bump(buckets: &mut Vec<Bucket>, k: u16)
    requires
        buckets_unique(old(buckets)@),
        forall|i: int| 0 <= i < old(buckets)@.len() ==> (#[trigger] old(buckets)@[i]).key <= 2
            * NEG_BASE,
        k <= 2 * NEG_BASE,
    ensures
        forall|i: int| 0 <= i < final(buckets)@.len() ==> (#[trigger] final(buckets)@[i]).key <= 2
            * NEG_BASE,
        buckets_unique(final(buckets)@),
        final(buckets)@ == spec_bump(old(buckets)@, k),
{
    let n = buckets.len();
    let mut i: usize = 0;
    while i < n
        invariant
            i <= n == buckets@.len(),
            buckets_unique(buckets@),
            buckets@ == old(buckets)@,
            k <= 2 * NEG_BASE,
            forall|j: int| 0 <= j < buckets@.len() ==> (#[trigger] buckets@[j]).key <= 2
                * NEG_BASE,
            forall|j: int| 0 <= j < i ==> buckets@[j].key != k,
        decreases n - i,
    {
        if buckets[i].key == k {
            let cur = buckets[i].n;
            let next = cur.saturating_add(1);
            let slot = &mut buckets[i];
            *slot = Bucket { key: k, n: next };
            proof {
                let s = old(buckets)@;
                let j = choose|j: int| 0 <= j < s.len() && s[j].key == k;
                assert(j == i);
                assert(buckets@ =~= s.update(i as int, Bucket { key: k, n: next }));
                assert(buckets_unique(buckets@));
            }
            return ;
        }
        i = i + 1;
    }
    buckets.push(Bucket { key: k, n: 1 });
    proof {
        assert(buckets_unique(buckets@));
        assert(buckets@ =~= spec_bump(old(buckets)@, k));
    }
}

impl Sketch {
    /// Internal consistency: one bucket per key within the key space,
    /// well-formed extrema, the sum at full scale.
    pub open spec fn wf(self) -> bool {
        &&& buckets_unique(self.buckets@)
        &&& forall|i: int| 0 <= i < self.buckets@.len() ==> (#[trigger] self.buckets@[i]).key <= 2
            * NEG_BASE
        &&& self.min.wf()
        &&& self.max.wf()
        &&& self.sum.acc_wf()
    }

    /// However many values a sketch absorbs, its bucket table stays within
    /// the finite key space: the bounded-memory guarantee.
    pub proof fn lemma_bounded_buckets(self)
        requires
            self.wf(),
        ensures
            self.buckets@.len() <= 2 * NEG_BASE + 1,
    {
        broadcast use vstd::set::group_set_axioms;

        let keys = self.buckets@.map_values(|b: Bucket| b.key as int);
        assert forall|i: int, j: int| 0 <= i < keys.len() && 0 <= j < keys.len() && i != j
            implies keys[i] != keys[j] by {
            assert(keys[i] == self.buckets@[i].key as int);
            assert(keys[j] == self.buckets@[j].key as int);
        }
        assert(keys.no_duplicates());
        keys.unique_seq_to_set();
        let range = vstd::set_lib::set_int_range(0, 2 * NEG_BASE + 1);
        assert forall|x: int| keys.to_set().contains(x) implies range.contains(x) by {
            let i = choose|i: int| 0 <= i < keys.len() && keys[i] == x;
            assert(self.buckets@[i].key as int == x);
        }
        vstd::set_lib::lemma_int_range(0, 2 * NEG_BASE + 1);
        vstd::set_lib::lemma_len_subset(keys.to_set(), range);
    }

    /// The sketch's mathematical content.
    pub open spec fn view(self) -> SketchV {
        SketchV {
            cnt: self.cnt,
            min: self.min,
            max: self.max,
            sum: self.sum,
            buckets: self.buckets@,
        }
    }

    /// What one observation does to a sketch.
    pub open spec fn spec_observe(sv: SketchV, v: DecNum) -> SketchV {
        SketchV {
            cnt: if sv.cnt == u64::MAX {
                u64::MAX
            } else {
                (sv.cnt + 1) as u64
            },
            min: if v.sval() <= sv.min.sval() {
                v
            } else {
                sv.min
            },
            max: if sv.max.sval() <= v.sval() {
                v
            } else {
                sv.max
            },
            sum: sv.sum.spec_acc_add(v),
            buckets: spec_bump(sv.buckets, spec_key_of(v)),
        }
    }

    /// A sketch holding exactly one observation.
    pub fn of(v: DecNum) -> (r: Sketch)
        requires
            v.wf(),
        ensures
            r.wf(),
            r.view() == Self::spec_observe(
                SketchV {
                    cnt: 0,
                    min: v,
                    max: v,
                    sum: DecNum { neg: false, mant: 0, scale: MAX_SCALE },
                    buckets: Seq::empty(),
                },
                v,
            ),
    {
        let sum = DecNum::zero_acc().acc_add(v);
        let mut buckets: Vec<Bucket> = Vec::new();
        bump(&mut buckets, key_of(&v));
        Sketch { cnt: 1, min: v, max: v, sum, buckets }
    }

    /// Absorbs one observation.
    pub fn observe(&mut self, v: DecNum)
        requires
            old(self).wf(),
            v.wf(),
        ensures
            final(self).wf(),
            final(self).view() == Self::spec_observe(old(self).view(), v),
    {
        self.cnt = self.cnt.saturating_add(1);
        if v.le(&self.min) {
            self.min = v;
        }
        if self.max.le(&v) {
            self.max = v;
        }
        self.sum = self.sum.acc_add(v);
        let k = key_of(&v);
        bump(&mut self.buckets, k);
    }
}

/// A little-endian base-128 varint; each byte carries seven bits, the high
/// bit says more bytes follow.
pub open spec fn spec_varint(n: nat) -> Seq<u8>
    decreases n,
{
    if n < 128 {
        seq![n as u8]
    } else {
        seq![(n % 128 + 128) as u8] + spec_varint(n / 128)
    }
}

/// Appends the varint encoding of `n`.
pub fn push_varint(out: &mut Vec<u8>, n: u128)
    ensures
        final(out)@ == old(out)@ + spec_varint(n as nat),
    decreases n,
{
    if n < 128 {
        out.push(n as u8);
        proof {
            assert(out@ =~= old(out)@ + spec_varint(n as nat));
        }
    } else {
        out.push((n % 128 + 128) as u8);
        push_varint(out, n / 128);
        proof {
            assert(out@ =~= old(out)@ + spec_varint(n as nat));
        }
    }
}

/// The encoding of one decimal: sign byte, mantissa varint, scale varint.
pub open spec fn spec_dec_bytes(d: DecNum) -> Seq<u8> {
    seq![
        if d.neg {
            1u8
        } else {
            0u8
        },
    ] + spec_varint(d.mant as nat) + spec_varint(d.scale as nat)
}

/// Appends the encoding of one decimal.
fn push_dec(out: &mut Vec<u8>, d: &DecNum)
    ensures
        final(out)@ == old(out)@ + spec_dec_bytes(*d),
{
    if d.neg {
        out.push(1u8);
    } else {
        out.push(0u8);
    }
    push_varint(out, d.mant);
    push_varint(out, d.scale as u128);
    proof {
        assert(out@ =~= old(out)@ + spec_dec_bytes(*d));
    }
}

/// The binary encoding of a sketch: count, minimum, maximum, sum, then the
/// buckets (their number, then each key and count), in bucket order.
pub open spec fn spec_sketch_bytes(s: SketchV) -> Seq<u8> {
    spec_varint(s.cnt as nat) + spec_dec_bytes(s.min) + spec_dec_bytes(s.max) + spec_dec_bytes(
        s.sum,
    ) + spec_varint(s.buckets.len()) + spec_buckets_bytes(s.buckets)
}

/// The concatenated encodings of the buckets.
pub open spec fn spec_buckets_bytes(bs: Seq<Bucket>) -> Seq<u8>
    decreases bs.len(),
{
    if bs.len() == 0 {
        Seq::empty()
    } else {
        spec_buckets_bytes(bs.drop_last()) + spec_varint(bs.last().key as nat) + spec_varint(
            bs.last().n as nat,
        )
    }
}

impl Sketch {
    /// Serializes the sketch to its binary encoding.
    pub fn to_bytes(&self) -> (r: Vec<u8>)
        ensures
            r@ == spec_sketch_bytes(self.view()),
    {
        let mut out: Vec<u8> = Vec::new();
        push_varint(&mut out, self.cnt as u128);
        push_dec(&mut out, &self.min);
        push_dec(&mut out, &self.max);
        push_dec(&mut out, &self.sum);
        push_varint(&mut out, self.buckets.len() as u128);
        let ghost head = out@;
        let n = self.buckets.len();
        let mut i: usize = 0;
        proof {
            assert(spec_buckets_bytes(self.buckets@.subrange(0, 0)) =~= Seq::<u8>::empty());
            assert(out@ =~= head + spec_buckets_bytes(self.buckets@.subrange(0, 0)));
        }
        while i < n
            invariant
                i <= n == self.buckets@.len(),
                out@ == head + spec_buckets_bytes(self.buckets@.subrange(0, i as int)),
            decreases n - i,
        {
            let b = self.buckets[i];
            push_varint(&mut out, b.key as u128);
            push_varint(&mut out, b.n as u128);
            proof {
                let pre = self.buckets@.subrange(0, i as int);
                let cur = self.buckets@.subrange(0, i + 1);
                assert(cur.drop_last() =~= pre);
                assert(cur.last() == self.buckets@[i as int]);
                assert(out@ =~= head + spec_buckets_bytes(cur));
            }
            i = i + 1;
        }
        proof {
            assert(self.buckets@.subrange(0, n as int) =~= self.buckets@);
        }
        out
    }
}

} // verus!
