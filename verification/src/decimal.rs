//! Exact decimal numbers.
//!
//! A metric value on the wire is a decimal literal such as `1426.90870216`.
//! The engine keeps such a value exactly as a sign, an integer mantissa and a
//! decimal scale: the value denoted is `(-1)^neg * mant / 10^scale`. All
//! aggregation arithmetic (counter sums, comparisons) is done on these
//! integers, so no precision is lost and every result is fully specified.

use crate::digits::{push_digits, spec_digits};
use vstd::arithmetic::div_mod::lemma_fundamental_div_mod_converse;
use vstd::prelude::*;

verus! {

/// Largest scale a decimal carries: every value is `mant / 10^scale` with
/// `scale <= MAX_SCALE`.
pub const MAX_SCALE: u32 = 18;

/// A decimal number `(-1)^neg * mant / 10^scale`.
///
/// `neg` may be set while `mant` is zero (a parsed `-0` keeps its sign so
/// that re-serialization reproduces the input); such a value still denotes
/// zero.
#[derive(Clone, Copy, Debug, PartialEq, Eq, Structural)]
pub struct DecNum {
    pub neg: bool,
    pub mant: u128,
    pub scale: u32,
}

/// `10^e`.
pub open spec fn pow10(e: nat) -> nat
    decreases e,
{
    if e == 0 {
        1
    } else {
        10 * pow10((e - 1) as nat)
    }
}

/// The number of digits in the usual decimal writing of `n` (one digit for 0).
pub open spec fn spec_digit_count(n: nat) -> nat
    decreases n,
{
    if n < 10 {
        1
    } else {
        1 + spec_digit_count(n / 10)
    }
}

impl DecNum {
    /// The value scaled to a whole number of units of `10^-MAX_SCALE`:
    /// an exact integer representation on which sums and comparisons are
    /// defined.
    pub open spec fn sval(self) -> int {
        let mag = self.mant * pow10((MAX_SCALE - self.scale) as nat);
        if self.neg {
            -(mag as int)
        } else {
            mag as int
        }
    }

    /// A decimal as the wire grammar produces it: the scale is in range and
    /// the digits of its canonical writing (integer part plus `scale`
    /// fraction digits) fit in `MAX_SCALE` positions.
    pub open spec fn wf(self) -> bool {
        &&& self.scale <= MAX_SCALE
        &&& spec_digit_count((self.mant as nat) / pow10(self.scale as nat)) + self.scale <= MAX_SCALE
    }

    /// An accumulated counter value: always kept at full scale so that
    /// further additions never rescale the accumulator.
    pub open spec fn acc_wf(self) -> bool {
        self.scale == MAX_SCALE
    }

    /// Zero, at full scale: the starting point of a counter accumulator.
    pub fn zero_acc() -> (r: DecNum)
        ensures
            r == (DecNum { neg: false, mant: 0, scale: MAX_SCALE }),
            r.acc_wf(),
            r.sval() == 0,
    {
        DecNum { neg: false, mant: 0, scale: MAX_SCALE }
    }
}

/// `10^e` as a `u128`; defined for every exponent a decimal can carry twice
/// over (a mantissa bound times a rescaling factor).
pub fn pow10_u128(e: u32) -> (r: u128)
    requires
        e <= 2 * MAX_SCALE,
    ensures
        r == pow10(e as nat),
{
    let mut r: u128 = 1;
    let mut i: u32 = 0;
    proof {
        lemma_pow10_bound(2 * MAX_SCALE as nat);
    }
    while i < e
        invariant
            i <= e <= 2 * MAX_SCALE,
            r == pow10(i as nat),
            pow10(2 * MAX_SCALE as nat) < u128::MAX,
        decreases e - i,
    {
        proof {
            lemma_pow10_increases(i as nat + 1, 2 * MAX_SCALE as nat);
        }
        r = r * 10;
        i = i + 1;
    }
    r
}

/// Powers of ten are positive.
pub proof fn lemma_pow10_pos(e: nat)
    ensures
        pow10(e) >= 1,
    decreases e,
{
    if e > 0 {
        lemma_pow10_pos((e - 1) as nat);
    }
}

/// `10^e` grows with `e`.
pub proof fn lemma_pow10_increases(a: nat, b: nat)
    requires
        a <= b,
    ensures
        pow10(a) <= pow10(b),
    decreases b,
{
    if a < b {
        lemma_pow10_increases(a, (b - 1) as nat);
    }
}

/// `pow10` turns addition of exponents into multiplication.
pub proof fn lemma_pow10_adds(a: nat, b: nat)
    ensures
        pow10(a) * pow10(b) == pow10(a + b),
    decreases a,
{
    if a == 0 {
        assert(pow10(0) == 1);
        assert(pow10(0) * pow10(b) == pow10(b));
    } else {
        lemma_pow10_adds((a - 1) as nat, b);
        assert(pow10(a) * pow10(b) == 10 * (pow10((a - 1) as nat) * pow10(b)))
            by (nonlinear_arith)
            requires
                pow10(a) == 10 * pow10((a - 1) as nat),
        ;
    }
}

/// The largest power of ten the engine multiplies with, written out.
pub proof fn lemma_pow10_36()
    ensures
        pow10(36) == 1000000000000000000000000000000000000,
{
    reveal_with_fuel(pow10, 37);
}

/// Every power of ten a decimal can mention fits comfortably in a `u128`.
pub proof fn lemma_pow10_bound(e: nat)
    requires
        e <= 2 * MAX_SCALE,
    ensures
        pow10(e) < u128::MAX,
{
    lemma_pow10_increases(e, 36);
    lemma_pow10_36();
}

/// A number of at most `k` digits is below `10^k`.
pub proof fn lemma_digit_count_bound(n: nat, k: nat)
    requires
        spec_digit_count(n) <= k,
    ensures
        n < pow10(k),
    decreases n,
{
    if n < 10 {
        assert(pow10(1) == 10 * pow10(0));
        lemma_pow10_increases(1, k);
    } else {
        lemma_digit_count_bound(n / 10, (k - 1) as nat);
        assert(pow10(k) == 10 * pow10((k - 1) as nat));
        assert(n <= 10 * (n / 10) + 9);
    }
}

/// A number below `10^k` has at most `k` digits (for `k >= 1`).
pub proof fn lemma_digit_count_of_bound(n: nat, k: nat)
    requires
        n < pow10(k),
        k >= 1,
    ensures
        spec_digit_count(n) <= k,
    decreases n,
{
    if n >= 10 {
        if k == 1 {
            assert(pow10(1) == 10 * pow10(0));
            assert(false);
        }
        assert(pow10(k) == 10 * pow10((k - 1) as nat));
        assert(n / 10 < pow10((k - 1) as nat));
        lemma_digit_count_of_bound(n / 10, (k - 1) as nat);
    }
}

/// A well-formed decimal's mantissa is below `10^MAX_SCALE`.
pub proof fn lemma_wf_mant_bound(d: DecNum)
    requires
        d.wf(),
    ensures
        d.mant < pow10(MAX_SCALE as nat),
{
    let s = d.scale as nat;
    let p = pow10(s);
    lemma_pow10_pos(s);
    let ip = (d.mant as nat) / p;
    let fp = (d.mant as nat) % p;
    lemma_digit_count_bound(ip, (MAX_SCALE - d.scale) as nat);
    vstd::arithmetic::div_mod::lemma_fundamental_div_mod(d.mant as int, p as int);
    vstd::arithmetic::div_mod::lemma_mod_bound(d.mant as int, p as int);
    lemma_pow10_adds((MAX_SCALE - d.scale) as nat, s);
    assert(d.mant as nat == p * ip + fp);
    assert(ip * p + p <= pow10((MAX_SCALE - d.scale) as nat) * p) by (nonlinear_arith)
        requires
            ip < pow10((MAX_SCALE - d.scale) as nat),
            p > 0,
    ;
}

/// The rescaled magnitude of a well-formed decimal stays well inside `u128`.
pub proof fn lemma_mag_fits(d: DecNum)
    requires
        d.scale <= MAX_SCALE,
        d.mant < pow10(MAX_SCALE as nat),
    ensures
        d.mant * pow10((MAX_SCALE - d.scale) as nat) < pow10(2 * MAX_SCALE as nat),
{
    let f = pow10((MAX_SCALE - d.scale) as nat);
    lemma_pow10_pos((MAX_SCALE - d.scale) as nat);
    lemma_pow10_increases((MAX_SCALE - d.scale) as nat, MAX_SCALE as nat);
    lemma_pow10_adds(MAX_SCALE as nat, MAX_SCALE as nat);
    assert(d.mant * f < pow10(MAX_SCALE as nat) * pow10(MAX_SCALE as nat)) by (nonlinear_arith)
        requires
            d.mant < pow10(MAX_SCALE as nat),
            0 < f <= pow10(MAX_SCALE as nat),
    ;
}

/// The number of decimal digits of `n` (one digit for 0).
pub fn digit_count(n: u128) -> (r: u32)
    ensures
        r == spec_digit_count(n as nat),
{
    let mut m = n;
    let mut c: u32 = 1;
    while m >= 10
        invariant
            spec_digit_count(n as nat) == spec_digit_count(m as nat) + c - 1,
            c >= 1,
            c <= 40,
        decreases m,
    {
        proof {
            if c >= 40 {
                lemma_pow10_36();
                lemma_pow10_adds(36, 3);
                assert(pow10(3) == 1000) by {
                    reveal_with_fuel(pow10, 4);
                }
                assert((n as nat) < pow10(39));
                lemma_digit_count_of_bound(n as nat, 39);
                assert(spec_digit_count(m as nat) >= 1);
                assert(false);
            }
        }
        m = m / 10;
        c = c + 1;
    }
    c
}

impl DecNum {
    /// Whether `self <= other` as numbers (signs included).
    pub fn le(&self, other: &DecNum) -> (r: bool)
        requires
            self.wf(),
            other.wf(),
        ensures
            r == (self.sval() <= other.sval()),
    {
        proof {
            lemma_wf_mant_bound(*self);
            lemma_wf_mant_bound(*other);
            lemma_mag_fits(*self);
            lemma_mag_fits(*other);
            lemma_pow10_bound(2 * MAX_SCALE as nat);
        }
        let amag = self.mant * pow10_u128(MAX_SCALE - self.scale);
        let bmag = other.mant * pow10_u128(MAX_SCALE - other.scale);
        if self.neg == other.neg {
            if self.neg {
                bmag <= amag
            } else {
                amag <= bmag
            }
        } else if self.neg {
            true
        } else {
            amag == 0 && bmag == 0
        }
    }

    /// The sum of a counter accumulator and one observation, saturating at
    /// the representable magnitude.
    pub open spec fn spec_acc_add(self, v: DecNum) -> DecNum {
        let s = self.sval() + v.sval();
        let mag = if s < 0 {
            -s
        } else {
            s
        };
        let m: u128 = if mag > u128::MAX {
            u128::MAX
        } else {
            mag as u128
        };
        DecNum { neg: s < 0, mant: m, scale: MAX_SCALE }
    }

    /// Adds one well-formed observation into a counter accumulator.
    pub fn acc_add(self, v: DecNum) -> (r: DecNum)
        requires
            self.acc_wf(),
            v.wf(),
        ensures
            r == self.spec_acc_add(v),
            r.acc_wf(),
    {
        proof {
            lemma_wf_mant_bound(v);
            lemma_mag_fits(v);
            lemma_pow10_bound(2 * MAX_SCALE as nat);
            assert(pow10(0) == 1);
            assert((MAX_SCALE - self.scale) as nat == 0);
            assert(self.mant * pow10((MAX_SCALE - self.scale) as nat) == self.mant * 1);
            assert(self.sval() == if self.neg {
                -(self.mant as int)
            } else {
                self.mant as int
            });
        }
        let vmag = v.mant * pow10_u128(MAX_SCALE - v.scale);
        proof {
            assert(v.sval() == if v.neg {
                -(vmag as int)
            } else {
                vmag as int
            });
        }
        if self.neg == v.neg {
            let m = self.mant.saturating_add(vmag);
            DecNum { neg: self.neg && m != 0, mant: m, scale: MAX_SCALE }
        } else if self.mant >= vmag {
            let m = self.mant - vmag;
            DecNum { neg: self.neg && m != 0, mant: m, scale: MAX_SCALE }
        } else {
            DecNum { neg: v.neg, mant: vmag - self.mant, scale: MAX_SCALE }
        }
    }

    /// The same value with trailing fraction zeros removed.
    pub open spec fn spec_normal(self) -> DecNum
        decreases self.scale,
    {
        if self.scale == 0 || self.mant % 10 != 0 {
            self
        } else {
            DecNum {
                neg: self.neg,
                mant: self.mant / 10,
                scale: (self.scale - 1) as u32,
            }.spec_normal()
        }
    }

    /// Strips trailing fraction zeros, keeping the value.
    pub fn normal(self) -> (r: DecNum)
        ensures
            r == self.spec_normal(),
    {
        let mut m = self.mant;
        let mut s = self.scale;
        while s > 0 && m % 10 == 0
            invariant
                (DecNum { neg: self.neg, mant: m, scale: s }).spec_normal() == self.spec_normal(),
            decreases s,
        {
            m = m / 10;
            s = s - 1;
        }
        DecNum { neg: self.neg, mant: m, scale: s }
    }

    /// Normalizing keeps the value and the sign.
    pub proof fn lemma_normal_sval(self)
        requires
            self.scale <= MAX_SCALE,
        ensures
            self.spec_normal().sval() == self.sval(),
            self.spec_normal().neg == self.neg,
            self.spec_normal().scale <= self.scale,
        decreases self.scale,
    {
        if !(self.scale == 0 || self.mant % 10 != 0) {
            let d = DecNum { neg: self.neg, mant: self.mant / 10, scale: (self.scale - 1) as u32 };
            d.lemma_normal_sval();
            let e = (MAX_SCALE - self.scale) as nat;
            assert(pow10(e + 1) == 10 * pow10(e));
            assert((self.mant / 10) * (10 * pow10(e)) == self.mant * pow10(e)) by (nonlinear_arith)
                requires
                    self.mant % 10 == 0,
            ;
        }
    }

    /// The canonical wire writing of this decimal: optional sign, integer
    /// digits, and — when the scale is positive — a dot and exactly `scale`
    /// fraction digits.
    pub open spec fn spec_chars(self) -> Seq<char> {
        let p = pow10(self.scale as nat);
        let ip = (self.mant as nat) / p;
        let fp = (self.mant as nat) % p;
        let sign: Seq<char> = if self.neg {
            seq!['-']
        } else {
            Seq::empty()
        };
        let frac: Seq<char> = if self.scale == 0 {
            Seq::empty()
        } else {
            seq!['.'] + zero_pad(spec_digits(fp), self.scale as nat)
        };
        sign + spec_digits(ip) + frac
    }

    /// Writes the decimal in its canonical wire form.
    pub fn render(&self) -> (r: String)
        requires
            self.scale <= MAX_SCALE,
        ensures
            r@ == self.spec_chars(),
    {
        proof {
            reveal_strlit("-");
            reveal_strlit(".");
            reveal_strlit("0");
            lemma_pow10_bound(self.scale as nat);
            lemma_pow10_pos(self.scale as nat);
        }
        let mut out = String::new();
        if self.neg {
            out.append("-");
        }
        let ghost sign: Seq<char> = if self.neg {
            seq!['-']
        } else {
            Seq::empty()
        };
        proof {
            assert(out@ =~= sign);
        }
        let p = pow10_u128(self.scale);
        let ip = self.mant / p;
        let fp = self.mant % p;
        push_digits(&mut out, ip);
        if self.scale > 0 {
            out.append(".");
            let k = digit_count(fp);
            proof {
                lemma_digit_count_of_bound(fp as nat, self.scale as nat);
                assert(out@ =~= sign + spec_digits(ip as nat) + seq!['.'] + Seq::new(
                    0,
                    |j: int| '0',
                ));
            }
            let mut i = k;
            while i < self.scale
                invariant
                    k <= i <= self.scale,
                    out@ == sign + spec_digits(ip as nat) + seq!['.'] + Seq::new(
                        (i - k) as nat,
                        |j: int| '0',
                    ),
                decreases self.scale - i,
            {
                out.append("0");
                i = i + 1;
                proof {
                    reveal_strlit("0");
                    assert("0"@ =~= seq!['0']);
                    assert(out@ =~= sign + spec_digits(ip as nat) + seq!['.'] + Seq::new(
                        (i - k) as nat,
                        |j: int| '0',
                    ));
                }
            }
            push_digits(&mut out, fp);
            proof {
                assert(zero_pad(spec_digits(fp as nat), self.scale as nat) =~= Seq::new(
                    (self.scale - k) as nat,
                    |j: int| '0',
                ) + spec_digits(fp as nat)) by {
                    crate::digits::lemma_digits_shape(fp as nat);
                };
                assert(out@ =~= self.spec_chars());
            }
        } else {
            proof {
                assert(out@ =~= self.spec_chars());
            }
        }
        out
    }
}

/// `s` left-padded with zeros to length `k` (unchanged if already longer).
pub open spec fn zero_pad(s: Seq<char>, k: nat) -> Seq<char> {
    if s.len() >= k {
        s
    } else {
        Seq::new((k - s.len()) as nat, |j: int| '0') + s
    }
}

/// Splits a mantissa into integer and fraction parts and back.
pub proof fn lemma_compose_parts(ipv: nat, fpv: nat, p: nat)
    requires
        p > 0,
        fpv < p,
    ensures
        (ipv * p + fpv) / p == ipv,
        (ipv * p + fpv) % p == fpv,
{
    lemma_fundamental_div_mod_converse((ipv * p + fpv) as int, p as int, ipv as int, fpv as int);
}

} // verus!

