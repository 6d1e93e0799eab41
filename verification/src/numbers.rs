//! Exact numeric values.
//!
//! A counterexample assignment is reported with exact numbers, never floating
//! approximations. An [`ExactInt`] is an arbitrary-precision integer given by
//! a sign and its decimal digits; an [`ExactRational`] is a quotient of two
//! such integers, kept exactly as decoded (no reduction to lowest terms).

use vstd::prelude::*;

verus! {

/// Well-formed decimal digits: at least one digit, each between 0 and 9,
/// most significant first.
pub open spec fn digits_wf(s: Seq<u8>) -> bool {
    s.len() >= 1 && forall|i: int| 0 <= i < s.len() ==> s[i] < 10
}

/// The natural number denoted by decimal digits, most significant first.
pub open spec fn digits_value(s: Seq<u8>) -> nat
    decreases s.len(),
{
    if s.len() == 0 {
        0
    } else {
        digits_value(s.drop_last()) * 10 + s.last() as nat
    }
}

/// The natural number denoted by decimal digits, least significant first.
pub open spec fn digits_value_lsd(s: Seq<u8>) -> nat
    decreases s.len(),
{
    if s.len() == 0 {
        0
    } else {
        s.first() as nat + digits_value_lsd(s.drop_first()) * 10
    }
}

/// Powers of ten.
pub open spec fn pow10(k: nat) -> nat
    decreases k,
{
    if k == 0 {
        1
    } else {
        10 * pow10((k - 1) as nat)
    }
}

/// Appending a digit at the least significant end multiplies the value by ten.
pub proof fn lemma_digits_value_push(s: Seq<u8>, d: u8)
    ensures
        digits_value(s.push(d)) == digits_value(s) * 10 + d,
{
    assert(s.push(d).drop_last() =~= s);
    assert(s.push(d).last() == d);
}

/// Appending a digit at the most significant end adds it with the right weight.
pub proof fn lemma_digits_value_lsd_push(s: Seq<u8>, d: u8)
    ensures
        digits_value_lsd(s.push(d)) == digits_value_lsd(s) + d * pow10(s.len()),
    decreases s.len(),
{
    if s.len() == 0 {
        assert(s.push(d).first() == d);
        assert(s.push(d).drop_first() =~= Seq::<u8>::empty());
        assert(digits_value_lsd(s.push(d)) == d + digits_value_lsd(Seq::<u8>::empty()) * 10);
        assert(pow10(s.len()) == 1);
        assert(digits_value_lsd(s) == 0);
        assert(digits_value_lsd(s.push(d)) == digits_value_lsd(s) + d * pow10(s.len()));
    } else {
        assert(s.push(d).first() == s.first());
        assert(s.push(d).drop_first() =~= s.drop_first().push(d));
        assert(digits_value_lsd(s.push(d)) == s.first() + digits_value_lsd(
            s.drop_first().push(d),
        ) * 10);
        lemma_digits_value_lsd_push(s.drop_first(), d);
        assert((digits_value_lsd(s.drop_first()) + d * pow10(s.drop_first().len())) * 10
            == digits_value_lsd(s.drop_first()) * 10 + d * (10 * pow10(s.drop_first().len())))
            by (nonlinear_arith);
        assert(digits_value_lsd(s) == s.first() + digits_value_lsd(s.drop_first()) * 10);
        assert(pow10(s.len()) == 10 * pow10(s.drop_first().len()));
        assert(digits_value_lsd(s.push(d)) == digits_value_lsd(s) + d * pow10(s.len()));
    }
}

/// Reversing the digits exchanges the two readings.
pub proof fn lemma_digits_value_reverse(s: Seq<u8>)
    ensures
        digits_value(s.reverse()) == digits_value_lsd(s),
    decreases s.len(),
{
    if s.len() == 0 {
        assert(s.reverse() =~= s);
    } else {
        lemma_digits_value_reverse(s.drop_first());
        assert(s.reverse() =~= s.drop_first().reverse().push(s.first()));
        lemma_digits_value_push(s.drop_first().reverse(), s.first());
    }
}

/// The decimal digits of `n`, most significant first.
pub fn decimal_digits(n: u64) -> (v: Vec<u8>)
    ensures
        digits_wf(v@),
        digits_value(v@) == n,
        v@.len() > 1 ==> v@[0] != 0,
{
    let mut rev: Vec<u8> = Vec::new();
    if n == 0 {
        rev.push(0);
        proof {
            assert(rev@.first() == 0u8);
            assert(rev@.drop_first() =~= Seq::<u8>::empty());
            assert(digits_value_lsd(Seq::<u8>::empty()) == 0);
            assert(digits_value_lsd(rev@) == n);
        }
    } else {
        let mut m = n;
        proof {
            assert(rev@ =~= Seq::<u8>::empty());
            assert(digits_value_lsd(rev@) == 0);
            assert(pow10(rev@.len()) == 1);
        }
        while m > 0
            invariant
                digits_value_lsd(rev@) + m * pow10(rev@.len()) == n,
                forall|i: int| 0 <= i < rev@.len() ==> rev@[i] < 10,
                m == 0 ==> rev@.len() >= 1 && rev@.last() != 0,
                m <= n,
            decreases m,
        {
            let d = (m % 10) as u8;
            let ghost old_rev = rev@;
            let ghost old_m = m as nat;
            rev.push(d);
            m = m / 10;
            proof {
                lemma_digits_value_lsd_push(old_rev, d);
                assert(old_m == (old_m / 10) * 10 + old_m % 10) by {
                    vstd::arithmetic::div_mod::lemma_fundamental_div_mod(
                        old_m as int,
                        10,
                    );
                }
                assert((((old_m / 10) * 10 + old_m % 10)) * pow10(old_rev.len())
                    == (old_m % 10) * pow10(old_rev.len()) + (old_m / 10) * (10 * pow10(
                    old_rev.len(),
                ))) by (nonlinear_arith);
                assert(pow10(rev@.len()) == 10 * pow10(old_rev.len()));
            }
        }
    }
    let mut v: Vec<u8> = Vec::new();
    let mut i: usize = 0;
    while i < rev.len()
        invariant
            i <= rev@.len(),
            v@.len() == i,
            forall|j: int| 0 <= j < i ==> v@[j] == rev@[rev@.len() - 1 - j],
        decreases rev@.len() - i,
    {
        v.push(rev[rev.len() - 1 - i]);
        i = i + 1;
    }
    proof {
        assert(v@ =~= rev@.reverse());
        lemma_digits_value_reverse(rev@);
    }
    v
}

/// An exact arbitrary-precision integer: a sign and decimal digits, most
/// significant first.
#[derive(Debug, PartialEq, Eq)]
pub struct ExactInt {
    pub negative: bool,
    pub digits: Vec<u8>,
}

impl ExactInt {
    /// Well-formed: at least one decimal digit, each below ten.
    pub open spec fn wf(&self) -> bool {
        digits_wf(self.digits@)
    }

    /// The integer this value denotes.
    pub open spec fn value(&self) -> int {
        if self.negative {
            -(digits_value(self.digits@) as int)
        } else {
            digits_value(self.digits@) as int
        }
    }

    /// The exact integer equal to the machine integer `n`.
    pub fn from_machine_int(n: i64) -> (r: ExactInt)
        ensures
            r.wf(),
            r.value() == n,
    {
        if n < 0 {
            let magnitude: u64 = (-(n + 1)) as u64 + 1;
            ExactInt { negative: true, digits: decimal_digits(magnitude) }
        } else {
            ExactInt { negative: false, digits: decimal_digits(n as u64) }
        }
    }
}

/// An exact rational: a quotient of two exact integers, kept exactly as
/// decoded. The denominator is never zero.
#[derive(Debug, PartialEq, Eq)]
pub struct ExactRational {
    pub numer: ExactInt,
    pub denom: ExactInt,
}

impl ExactRational {
    /// Well-formed: both parts well-formed and the denominator nonzero.
    pub open spec fn wf(&self) -> bool {
        self.numer.wf() && self.denom.wf() && self.denom.value() != 0
    }

}

} // verus!
