//! Decimal digit strings.
//!
//! The wire grammar writes numbers with plain decimal digits. This module
//! defines what a digit string denotes, which strings are canonical (no
//! superfluous leading zero), and proves that writing a number and reading a
//! digit string are inverse to each other — the backbone of the parser's
//! round-trip guarantee.

use vstd::prelude::*;

verus! {

/// The digit character for `d` (defined for `d < 10`).
pub open spec fn digit_char(d: nat) -> char {
    if d == 0 {
        '0'
    } else if d == 1 {
        '1'
    } else if d == 2 {
        '2'
    } else if d == 3 {
        '3'
    } else if d == 4 {
        '4'
    } else if d == 5 {
        '5'
    } else if d == 6 {
        '6'
    } else if d == 7 {
        '7'
    } else if d == 8 {
        '8'
    } else {
        '9'
    }
}

pub open spec fn is_digit_char(c: char) -> bool {
    '0' <= c && c <= '9'
}

/// The numeric value of a digit character.
pub open spec fn char_digit(c: char) -> nat {
    (c as int - '0' as int) as nat
}

/// The canonical decimal writing of `n`, most significant digit first.
pub open spec fn spec_digits(n: nat) -> Seq<char>
    decreases n,
{
    if n < 10 {
        seq![digit_char(n)]
    } else {
        spec_digits(n / 10).push(digit_char(n % 10))
    }
}

/// The number a digit string denotes (most significant digit first).
pub open spec fn digits_val(s: Seq<char>) -> nat
    decreases s.len(),
{
    if s.len() == 0 {
        0
    } else {
        digits_val(s.drop_last()) * 10 + char_digit(s.last())
    }
}

pub open spec fn all_digits(s: Seq<char>) -> bool {
    forall|i: int| 0 <= i < s.len() ==> is_digit_char(#[trigger] s[i])
}

/// A digit string as the grammar admits it: nonempty, digits only, and no
/// leading zero unless the string is exactly `0`.
pub open spec fn canonical_digits(s: Seq<char>) -> bool {
    &&& all_digits(s)
    &&& s.len() >= 1
    &&& (s.len() == 1 || s[0] != '0')
}

/// Writing a number always yields a canonical digit string of the expected
/// length.
pub proof fn lemma_digits_shape(n: nat)
    ensures
        canonical_digits(spec_digits(n)),
        spec_digits(n).len() == crate::decimal::spec_digit_count(n),
        n >= 1 ==> spec_digits(n)[0] != '0',
    decreases n,
{
    if n < 10 {
        assert(spec_digits(n) =~= seq![digit_char(n)]);
    } else {
        lemma_digits_shape(n / 10);
        let s = spec_digits(n / 10);
        assert forall|i: int| 0 <= i < s.push(digit_char(n % 10)).len() implies is_digit_char(
            #[trigger] s.push(digit_char(n % 10))[i],
        ) by {
            if i < s.len() {
                assert(s.push(digit_char(n % 10))[i] == s[i]);
            }
        }
    }
}

/// Reading back the canonical writing of `n` yields `n`.
pub proof fn lemma_digits_val_of_digits(n: nat)
    ensures
        digits_val(spec_digits(n)) == n,
    decreases n,
{
    if n < 10 {
        let s = seq![digit_char(n)];
        assert(s.drop_last() =~= Seq::<char>::empty());
        assert(digits_val(Seq::<char>::empty()) == 0);
        assert(digits_val(s) == char_digit(digit_char(n)));
    } else {
        lemma_digits_val_of_digits(n / 10);
        let s = spec_digits(n / 10).push(digit_char(n % 10));
        assert(s.drop_last() =~= spec_digits(n / 10));
        assert(s.last() == digit_char(n % 10));
        assert(char_digit(digit_char(n % 10)) == n % 10);
    }
}

/// A digit string with a nonzero leading digit denotes a nonzero number.
proof fn lemma_leading_nonzero_val(s: Seq<char>)
    requires
        all_digits(s),
        s.len() >= 1,
        s[0] != '0',
    ensures
        digits_val(s) >= 1,
    decreases s.len(),
{
    if s.len() == 1 {
        assert(s.drop_last() =~= Seq::<char>::empty());
        assert(is_digit_char(s[0]));
    } else {
        let s0 = s.drop_last();
        assert(s0[0] == s[0]);
        lemma_leading_nonzero_val(s0);
    }
}

/// A digit string denotes less than `10^len`.
pub proof fn lemma_digits_val_bound(s: Seq<char>)
    requires
        all_digits(s),
    ensures
        digits_val(s) < crate::decimal::pow10(s.len()),
    decreases s.len(),
{
    if s.len() > 0 {
        let s0 = s.drop_last();
        lemma_digits_val_bound(s0);
        assert(is_digit_char(s.last()));
        assert(char_digit(s.last()) <= 9);
    }
}

/// Writing the number a canonical digit string denotes yields that string
/// back: digit strings round-trip exactly.
pub proof fn lemma_digits_round_trip(s: Seq<char>)
    requires
        canonical_digits(s),
    ensures
        spec_digits(digits_val(s)) == s,
    decreases s.len(),
{
    if s.len() == 1 {
        assert(s.drop_last() =~= Seq::<char>::empty());
        let c = s[0];
        assert(is_digit_char(c));
        assert(digit_char(char_digit(c)) == c);
        assert(digits_val(Seq::<char>::empty()) == 0);
        assert(digits_val(s) == char_digit(c));
        assert(spec_digits(digits_val(s)) =~= s);
    } else {
        let s0 = s.drop_last();
        assert(s0[0] == s[0]);
        assert(forall|i: int| 0 <= i < s0.len() ==> is_digit_char(#[trigger] s0[i]));
        lemma_digits_round_trip(s0);
        lemma_leading_nonzero_val(s0);
        let v0 = digits_val(s0);
        let d = char_digit(s.last());
        let v = digits_val(s);
        assert(v == v0 * 10 + d);
        assert(v >= 10);
        assert(v / 10 == v0 && v % 10 == d) by (nonlinear_arith)
            requires
                v == v0 * 10 + d,
                d < 10,
        ;
        assert(is_digit_char(s.last()));
        assert(digit_char(d) == s.last());
        assert(spec_digits(v) == spec_digits(v0).push(digit_char(v % 10)));
        assert(spec_digits(v) =~= s);
    }
}

/// Appends one digit to a string under construction.
fn push_digit(s: &mut String, d: u128)
    requires
        d < 10,
    ensures
        final(s)@ == old(s)@ + seq![digit_char(d as nat)],
{
    proof {
        reveal_strlit("0");
        reveal_strlit("1");
        reveal_strlit("2");
        reveal_strlit("3");
        reveal_strlit("4");
        reveal_strlit("5");
        reveal_strlit("6");
        reveal_strlit("7");
        reveal_strlit("8");
        reveal_strlit("9");
    }
    if d == 0 {
        s.append("0");
    } else if d == 1 {
        s.append("1");
    } else if d == 2 {
        s.append("2");
    } else if d == 3 {
        s.append("3");
    } else if d == 4 {
        s.append("4");
    } else if d == 5 {
        s.append("5");
    } else if d == 6 {
        s.append("6");
    } else if d == 7 {
        s.append("7");
    } else if d == 8 {
        s.append("8");
    } else {
        s.append("9");
    }
    proof {
        assert(s@ =~= old(s)@ + seq![digit_char(d as nat)]);
    }
}

/// Appends the canonical decimal writing of `n`.
pub fn push_digits(s: &mut String, n: u128)
    ensures
        final(s)@ == old(s)@ + spec_digits(n as nat),
    decreases n,
{
    if n < 10 {
        push_digit(s, n);
    } else {
        push_digits(s, n / 10);
        push_digit(s, n % 10);
        proof {
            assert(s@ =~= old(s)@ + spec_digits(n as nat));
        }
    }
}

} // verus!
