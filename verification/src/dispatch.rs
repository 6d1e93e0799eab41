//! Backend dispatch: the uniform three-way outcome both backends are
//! normalized into, and the adapters around the secondary nonlinear tool —
//! filtering a rendered solver state down to what the tool accepts, and
//! classifying its textual output.

use vstd::prelude::*;

use crate::model::Model;
use crate::term::Term;
use crate::text::{has_substring, push_char, str_contains};

verus! {

/// A backend's raw satisfiability answer.
#[derive(Debug, Clone, Copy, PartialEq, Eq, Structural)]
pub enum SatResult {
    Sat,
    Unsat,
    Unknown,
}

/// The diagnostic a backend gives for an indeterminate answer.
#[derive(Debug, PartialEq, Eq)]
pub enum ReasonUnknown {
    /// The backend ran out of its configured time budget.
    Timeout,
    /// Any other reason, as the backend reported it.
    Other(String),
}

/// The reason as one line of text.
pub open spec fn reason_text(r: ReasonUnknown) -> Seq<char> {
    match r {
        ReasonUnknown::Timeout => "timeout"@,
        ReasonUnknown::Other(s) => s@,
    }
}

impl ReasonUnknown {
    /// The reason as one line of text.
    pub fn message(&self) -> (r: String)
        ensures
            r@ == reason_text(*self),
    {
        match self {
            ReasonUnknown::Timeout => String::from_str("timeout"),
            ReasonUnknown::Other(s) => s.clone(),
        }
    }

    /// An equal copy.
    pub fn duplicate(&self) -> (r: ReasonUnknown)
        ensures
            r == *self,
    {
        match self {
            ReasonUnknown::Timeout => ReasonUnknown::Timeout,
            ReasonUnknown::Other(s) => ReasonUnknown::Other(s.clone()),
        }
    }
}

/// The uniform outcome both backends are normalized into: unsatisfiable with
/// the backend's unsatisfiable core, satisfiable with the assignment found,
/// or indeterminate with a concrete reason.
#[derive(Debug)]
pub enum SatOutcome {
    Unsat(Vec<Term>),
    Sat(Model),
    Unknown(ReasonUnknown),
}

/// Classify the secondary tool's standard output by scanning for the literal
/// substrings "unsat" and "sat": "unsat" anywhere wins, then "sat", then the
/// answer is indeterminate.
pub fn classify_solver_output(stdout: &str) -> (r: SatResult)
    ensures
        has_substring(stdout@, "unsat"@) ==> r == SatResult::Unsat,
        !has_substring(stdout@, "unsat"@) && has_substring(stdout@, "sat"@) ==> r
            == SatResult::Sat,
        !has_substring(stdout@, "unsat"@) && !has_substring(stdout@, "sat"@) ==> r
            == SatResult::Unknown,
{
    if str_contains(stdout, "unsat") {
        SatResult::Unsat
    } else if str_contains(stdout, "sat") {
        SatResult::Sat
    } else {
        SatResult::Unknown
    }
}

/// A balanced top-level group is kept unless it mentions a universal
/// quantifier or declares the exponential function, neither of which the
/// secondary tool accepts.
pub open spec fn chunk_kept(chunk: Seq<char>) -> bool {
    !has_substring(chunk, "declare-fun exp"@) && !has_substring(chunk, "forall"@)
}

/// One pass of the filter: characters accumulate into `buffer`; when a `)`
/// returns the parenthesis depth to zero, the balanced group gathered in
/// `buffer` is appended to `out` if it is kept, and dropped otherwise. Text
/// after the last balanced group never reaches the output.
pub open spec fn swine_filter(s: Seq<char>, buffer: Seq<char>, depth: int, out: Seq<char>) -> Seq<
    char,
>
    decreases s.len(),
{
    if s.len() == 0 {
        out
    } else {
        let c = s[0];
        let buffer2 = buffer.push(c);
        if c == '(' {
            swine_filter(s.drop_first(), buffer2, depth + 1, out)
        } else if c == ')' {
            if depth == 1 {
                swine_filter(
                    s.drop_first(),
                    Seq::empty(),
                    0,
                    if chunk_kept(buffer2) {
                        out + buffer2
                    } else {
                        out
                    },
                )
            } else {
                swine_filter(s.drop_first(), buffer2, depth - 1, out)
            }
        } else {
            swine_filter(s.drop_first(), buffer2, depth, out)
        }
    }
}

/// What filtering a whole rendered solver state yields.
pub open spec fn swine_filtered(s: Seq<char>) -> Seq<char> {
    swine_filter(s, Seq::empty(), 0, Seq::empty())
}

/// Filter a rendered solver state for the secondary tool: scan balanced
/// parenthesis groups at the top level and drop every group that contains a
/// universal quantifier or the declaration of the exponential function.
pub fn remove_lines_for_swine(input: &str) -> (r: String)
    ensures
        r@ == swine_filtered(input@),
{
    let len = input.unicode_len();
    let mut out = String::new();
    let mut buffer = String::new();
    let mut depth: i128 = 0;
    let mut i: usize = 0;
    proof {
        assert(input@.skip(0) =~= input@);
    }
    while i < len
        invariant
            len == input@.len(),
            i <= len,
            -(i as int) <= depth <= i as int,
            swine_filtered(input@) == swine_filter(
                input@.skip(i as int),
                buffer@,
                depth as int,
                out@,
            ),
        decreases len - i,
    {
        let ghost pre_rest = input@.skip(i as int);
        proof {
            assert(pre_rest.drop_first() =~= input@.skip(i + 1));
            assert(pre_rest[0] == input@[i as int]);
        }
        let c = input.get_char(i);
        push_char(&mut buffer, c);
        if c == '(' {
            depth = depth + 1;
        } else if c == ')' {
            if depth == 1 {
                let keep = !str_contains(buffer.as_str(), "declare-fun exp") && !str_contains(
                    buffer.as_str(),
                    "forall",
                );
                if keep {
                    out.append(buffer.as_str());
                }
                buffer = String::new();
                depth = 0;
            } else {
                depth = depth - 1;
            }
        }
        i = i + 1;
    }
    proof {
        assert(input@.skip(i as int) =~= Seq::<char>::empty());
    }
    out
}

} // verus!
