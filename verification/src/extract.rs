//! Numeric extraction: decoding a backend-native value into an exact boolean,
//! integer or rational.
//!
//! A backend reports the value of a term either natively (a boolean, a
//! machine-width integer, or a machine-width numerator/denominator pair) or,
//! when the native width is exceeded, as its canonical textual rendering
//! `(/ <int>.0 <int>.0)`. The textual fallback is parsed strictly: any
//! deviation from that shape is a decode failure, never a best-effort guess.

use vstd::prelude::*;

use crate::numbers::{digits_value, ExactInt, ExactRational};

verus! {

/// A value reported by a backend for one term of an assignment.
#[derive(Debug, PartialEq, Eq)]
pub enum SmtValue {
    /// A native boolean value.
    Bool(bool),
    /// A native machine-width integer value.
    Int(i64),
    /// A native rational as a machine-width numerator/denominator pair.
    Real(i64, i64),
    /// The canonical textual rendering of a value that exceeds the native
    /// machine width.
    Text(String),
}

/// Why an evaluation call failed.
#[derive(Debug, Clone, Copy, PartialEq, Eq, Structural)]
pub enum SmtEvalError {
    /// The backend could not produce any value for the term.
    EvalError,
    /// The backend produced a value, but it does not match the expected
    /// numeric shape.
    ParseError,
}

/// What boolean decoding yields for a backend value.
pub open spec fn spec_decode_bool(v: SmtValue) -> Result<bool, SmtEvalError> {
    match v {
        SmtValue::Bool(b) => Ok(b),
        _ => Err(SmtEvalError::ParseError),
    }
}

/// Decode a backend value as a boolean. Only a native boolean decodes; any
/// other shape is a decode failure.
pub fn decode_bool(v: &SmtValue) -> (r: Result<bool, SmtEvalError>)
    ensures
        r == spec_decode_bool(*v),
{
    match v {
        SmtValue::Bool(b) => Ok(*b),
        _ => Err(SmtEvalError::ParseError),
    }
}

/// Decode a backend value as an exact integer. Only a native machine-width
/// integer decodes; a wider value arrives as text and is a decode failure
/// here (the machine-width limitation of integer extraction).
pub fn decode_int(v: &SmtValue) -> (r: Result<ExactInt, SmtEvalError>)
    ensures
        match *v {
            SmtValue::Int(i) => r matches Ok(e) && e.wf() && e.value() == i,
            _ => r == Err::<ExactInt, SmtEvalError>(SmtEvalError::ParseError),
        },
{
    match v {
        SmtValue::Int(i) => Ok(ExactInt::from_machine_int(*i)),
        _ => Err(SmtEvalError::ParseError),
    }
}

/// A decimal digit character (code points 48 through 57, `'0'` to `'9'`).
pub open spec fn is_digit(c: char) -> bool {
    48 <= c as int && c as int <= 57
}

/// The numeric value of a decimal digit character.
pub open spec fn digit_of(c: char) -> u8 {
    (c as int - 48) as u8
}

/// The numeric values of a run of digit characters.
pub open spec fn char_digits(s: Seq<char>) -> Seq<u8> {
    Seq::new(s.len(), |i: int| digit_of(s[i]))
}

/// The first position at or after `i` holding no digit (or the end of `s`).
pub open spec fn digit_run_end(s: Seq<char>, i: int) -> int
    decreases s.len() - i,
{
    if 0 <= i < s.len() && is_digit(s[i]) {
        digit_run_end(s, i + 1)
    } else {
        i
    }
}

/// Where the numerator's sign-and-digits run starts: just after `"(/ "`, or
/// one further if a minus sign stands there.
pub open spec fn num_start(s: Seq<char>) -> int {
    if 3 < s.len() && s[3] == '-' {
        4
    } else {
        3
    }
}

/// Where the numerator's digit run ends.
pub open spec fn num_end(s: Seq<char>) -> int {
    digit_run_end(s, num_start(s))
}

/// Where the denominator's sign-and-digits run begins: just after the
/// numerator's `".0 "` decoration, or one further if a minus sign stands
/// there.
pub open spec fn den_start(s: Seq<char>) -> int {
    if num_end(s) + 3 < s.len() && s[num_end(s) + 3] == '-' {
        num_end(s) + 4
    } else {
        num_end(s) + 3
    }
}

/// Where the denominator's digit run ends.
pub open spec fn den_end(s: Seq<char>) -> int {
    digit_run_end(s, den_start(s))
}

/// The canonical textual rendering of a rational: exactly
/// `(/ <int>.0 <int>.0)`, where `<int>` is an optional minus sign followed
/// by at least one decimal digit.
pub open spec fn rational_text_wf(s: Seq<char>) -> bool {
    &&& s.len() >= 3
    &&& s[0] == '(' && s[1] == '/' && s[2] == ' '
    &&& num_end(s) > num_start(s)
    &&& num_end(s) + 3 <= s.len()
    &&& s[num_end(s)] == '.' && s[num_end(s) + 1] == '0' && s[num_end(s) + 2] == ' '
    &&& den_end(s) > den_start(s)
    &&& den_end(s) + 3 == s.len()
    &&& s[den_end(s)] == '.' && s[den_end(s) + 1] == '0' && s[den_end(s) + 2] == ')'
}

/// The numerator is negated.
pub open spec fn num_negative(s: Seq<char>) -> bool {
    num_start(s) == 4
}

/// The denominator is negated.
pub open spec fn den_negative(s: Seq<char>) -> bool {
    den_start(s) == num_end(s) + 4
}

/// The numerator's digits.
pub open spec fn num_digits(s: Seq<char>) -> Seq<u8> {
    char_digits(s.subrange(num_start(s), num_end(s)))
}

/// The denominator's digits.
pub open spec fn den_digits(s: Seq<char>) -> Seq<u8> {
    char_digits(s.subrange(den_start(s), den_end(s)))
}

/// Scan a run of digits starting at `start`, collecting their values.
/// Returns the digits collected and the position where the run ended.
fn scan_digits(s: &str, len: usize, start: usize) -> (r: (Vec<u8>, usize))
    requires
        len == s@.len(),
        start <= len,
    ensures
        r.1 == digit_run_end(s@, start as int),
        start <= r.1 <= len,
        r.0@ == char_digits(s@.subrange(start as int, r.1 as int)),
        forall|k: int| start <= k < r.1 ==> is_digit(s@[k]),
{
    let mut i: usize = start;
    let mut ds: Vec<u8> = Vec::new();
    let mut stop = false;
    proof {
        assert(ds@ =~= char_digits(s@.subrange(start as int, start as int)));
    }
    while i < len && !stop
        invariant
            len == s@.len(),
            start <= i <= len,
            !stop ==> digit_run_end(s@, start as int) == digit_run_end(s@, i as int),
            stop ==> digit_run_end(s@, start as int) == i,
            ds@ == char_digits(s@.subrange(start as int, i as int)),
            forall|k: int| start <= k < i ==> is_digit(s@[k]),
        decreases len - i, if stop { 0int } else { 1int },
    {
        let c = s.get_char(i);
        let cu = c as u32;
        if cu < 48 || cu > 57 {
            stop = true;
        } else {
            let d: u8 = (cu - 48) as u8;
            assert(d == digit_of(c));
            ds.push(d);
            i = i + 1;
            proof {
                assert(ds@ =~= char_digits(s@.subrange(start as int, i as int)));
            }
        }
    }
    proof {
        if !stop {
            assert(digit_run_end(s@, i as int) == i);
        }
    }
    (ds, i)
}

/// Parse the canonical textual rendering `(/ <int>.0 <int>.0)` of a rational
/// into an exact rational. Exactly the well-formed renderings with a nonzero
/// denominator parse; everything else is a decode failure.
pub fn parse_rational_text(s: &str) -> (r: Result<ExactRational, SmtEvalError>)
    ensures
        rational_text_wf(s@) && digits_value(den_digits(s@)) != 0 ==> (r matches Ok(q) && q.wf()
            && q.numer.negative == num_negative(s@) && q.numer.digits@ == num_digits(s@)
            && q.denom.negative == den_negative(s@) && q.denom.digits@ == den_digits(s@)),
        !(rational_text_wf(s@) && digits_value(den_digits(s@)) != 0) ==> r == Err::<
            ExactRational,
            SmtEvalError,
        >(SmtEvalError::ParseError),
{
    let len = s.unicode_len();
    if len < 3 || s.get_char(0) != '(' || s.get_char(1) != '/' || s.get_char(2) != ' ' {
        return Err(SmtEvalError::ParseError);
    }
    let num_neg = 3 < len && s.get_char(3) == '-';
    let ns: usize = if num_neg {
        4
    } else {
        3
    };
    assert(ns == num_start(s@));
    let (nds, ne) = scan_digits(s, len, ns);
    assert(ne == num_end(s@));
    if ne == ns {
        return Err(SmtEvalError::ParseError);
    }
    if ne > len - 3 {
        return Err(SmtEvalError::ParseError);
    }
    if s.get_char(ne) != '.' || s.get_char(ne + 1) != '0' || s.get_char(ne + 2) != ' ' {
        return Err(SmtEvalError::ParseError);
    }
    let den_neg = ne + 3 < len && s.get_char(ne + 3) == '-';
    let ds: usize = if den_neg {
        ne + 4
    } else {
        ne + 3
    };
    assert(ds == den_start(s@));
    let (dds, de) = scan_digits(s, len, ds);
    assert(de == den_end(s@));
    if de == ds {
        return Err(SmtEvalError::ParseError);
    }
    if de > len - 3 || de + 3 != len {
        return Err(SmtEvalError::ParseError);
    }
    if s.get_char(de) != '.' || s.get_char(de + 1) != '0' || s.get_char(de + 2) != ')' {
        return Err(SmtEvalError::ParseError);
    }
    // The shape is exactly right; only a zero denominator can still fail.
    assert(rational_text_wf(s@));
    let denom_zero = all_zero_digits(&dds);
    if denom_zero {
        return Err(SmtEvalError::ParseError);
    }
    let numer = ExactInt { negative: num_neg, digits: nds };
    let denom = ExactInt { negative: den_neg, digits: dds };
    proof {
        assert(numer.wf()) by {
            assert(forall|k: int|
                0 <= k < numer.digits@.len() ==> is_digit(
                    #[trigger] s@[num_start(s@) + k],
                ));
            assert(forall|k: int| 0 <= k < numer.digits@.len() ==> numer.digits@[k] < 10);
        }
        assert(denom.wf()) by {
            assert(forall|k: int|
                0 <= k < denom.digits@.len() ==> is_digit(
                    #[trigger] s@[den_start(s@) + k],
                ));
            assert(forall|k: int| 0 <= k < denom.digits@.len() ==> denom.digits@[k] < 10);
        }
    }
    Ok(ExactRational { numer, denom })
}

/// Whether every digit of `ds` is zero; for well-formed digits this is
/// exactly whether the denoted number is zero.
fn all_zero_digits(ds: &Vec<u8>) -> (r: bool)
    ensures
        r == (digits_value(ds@) == 0),
{
    let mut i: usize = 0;
    let mut all_zero = true;
    while i < ds.len()
        invariant
            i <= ds@.len(),
            all_zero == (digits_value(ds@.subrange(0, i as int)) == 0),
        decreases ds@.len() - i,
    {
        let ghost pre = ds@.subrange(0, i as int);
        if ds[i] != 0 {
            all_zero = false;
        }
        proof {
            assert(ds@.subrange(0, i + 1) =~= pre.push(ds@[i as int]));
            crate::numbers::lemma_digits_value_push(pre, ds@[i as int]);
        }
        i = i + 1;
    }
    proof {
        assert(ds@.subrange(0, ds@.len() as int) =~= ds@);
    }
    all_zero
}

/// Whether a backend value decodes as a rational at all.
pub open spec fn rational_decodable(v: SmtValue) -> bool {
    match v {
        SmtValue::Real(a, b) => b != 0,
        SmtValue::Text(t) => rational_text_wf(t@) && digits_value(den_digits(t@)) != 0,
        _ => false,
    }
}

/// The exact rational that decoding a backend value must yield.
pub open spec fn rational_decodes_to(v: SmtValue, q: ExactRational) -> bool {
    match v {
        SmtValue::Real(a, b) => q.wf() && q.numer.value() == a && q.denom.value() == b,
        SmtValue::Text(t) => q.wf() && q.numer.negative == num_negative(t@) && q.numer.digits@
            == num_digits(t@) && q.denom.negative == den_negative(t@) && q.denom.digits@
            == den_digits(t@),
        _ => false,
    }
}

/// What rational decoding yields for a backend value: a native
/// numerator/denominator pair is taken exactly; a textual rendering goes
/// through the strict fallback parser; anything else is a decode failure.
pub fn decode_rational(v: &SmtValue) -> (r: Result<ExactRational, SmtEvalError>)
    ensures
        rational_decodable(*v) ==> (r matches Ok(q) && rational_decodes_to(*v, q)),
        !rational_decodable(*v) ==> r == Err::<ExactRational, SmtEvalError>(
            SmtEvalError::ParseError,
        ),
{
    match v {
        SmtValue::Real(a, b) => {
            if *b == 0 {
                Err(SmtEvalError::ParseError)
            } else {
                Ok(ExactRational {
                    numer: ExactInt::from_machine_int(*a),
                    denom: ExactInt::from_machine_int(*b),
                })
            }
        },
        SmtValue::Text(t) => parse_rational_text(t.as_str()),
        _ => Err(SmtEvalError::ParseError),
    }
}

} // verus!
