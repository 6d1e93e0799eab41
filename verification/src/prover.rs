//! The proof oracle: a scoped assumption/obligation stack over an incremental
//! satisfiability backend, with exact validity semantics.
//!
//! A [`Prover`] records assumptions and proof obligations in nested scopes
//! and tracks the outermost level at which an obligation was added. A
//! validity check with no outstanding obligation is vacuously a proof and
//! never consults a backend. Otherwise the check asks one of two backends to
//! decide satisfiability of the current assertions: the caller performs the
//! backend call itself and hands the uniform outcome back (the state machine
//! decides; the backend work stays outside).

use vstd::prelude::*;

use std::rc::Rc;

use crate::dispatch::{reason_text, ReasonUnknown, SatOutcome};
use crate::model::{InstrumentedModel, ModelConsistency};
use crate::term::Term;
use crate::text::has_substring;

verus! {

/// Which decision procedure serves this oracle; fixed at construction.
#[derive(Debug, Clone, Copy, PartialEq, Eq, Structural)]
pub enum SolverType {
    /// The primary incremental solver.
    Z3,
    /// The secondary nonlinear-arithmetic tool, invoked per query.
    SWINE,
}

/// The result of a prove query.
#[derive(Debug)]
pub enum ProveResult {
    /// The obligations hold under the assumptions.
    Proof,
    /// They do not: here is a satisfying assignment of their negation.
    Counterexample(InstrumentedModel),
    /// The backend could not decide, for this reason.
    Unknown(ReasonUnknown),
}

impl ProveResult {
    /// The one-line rendering of a verdict.
    pub fn display_string(&self) -> (r: String)
        ensures
            match self {
                ProveResult::Proof => r@ == "Proof"@,
                ProveResult::Counterexample(_) => r@ == "Counterexample"@,
                ProveResult::Unknown(reason) => r@ == "Unknown (reason: "@ + reason_text(*reason)
                    + ")"@,
            },
    {
        match self {
            ProveResult::Proof => String::from_str("Proof"),
            ProveResult::Counterexample(_) => String::from_str("Counterexample"),
            ProveResult::Unknown(reason) => {
                let mut s = String::from_str("Unknown (reason: ");
                let msg = reason.message();
                s.append(msg.as_str());
                s.append(")");
                proof {
                    assert(s@ =~= "Unknown (reason: "@ + reason_text(*reason) + ")"@);
                }
                s
            },
        }
    }
}

/// One formula asserted to the backend solver.
#[derive(Debug)]
pub enum Assertion {
    /// The formula itself was asserted: an assumption, taken as given.
    Assumed(Rc<Term>),
    /// The formula's negation was asserted: a proof obligation, pursued by
    /// checking that the negation is unsatisfiable.
    Negated(Rc<Term>),
    /// The universally quantified negation of a whole earlier solver state
    /// was asserted: for the named identifiers universally quantified, the
    /// conjunction of those assertions fails (the exists-forall transform).
    ForallNegated(Rc<Vec<String>>, Rc<Vec<Assertion>>),
}

/// Relies on `Rc::clone`: the clone is a handle to the same allocation, so
/// it equals the original.
#[verifier::external_body]
fn rc_dup<T>(t: &Rc<T>) -> (r: Rc<T>)
    ensures
        r == *t,
{
    Rc::clone(t)
}

impl Assertion {
    /// An equal copy (the formula handles are shared, not copied).
    pub fn duplicate(&self) -> (r: Assertion)
        ensures
            r == *self,
    {
        match self {
            Assertion::Assumed(f) => Assertion::Assumed(rc_dup(f)),
            Assertion::Negated(f) => Assertion::Negated(rc_dup(f)),
            Assertion::ForallNegated(u, a) => Assertion::ForallNegated(rc_dup(u), rc_dup(a)),
        }
    }
}

/// An equal copy of a stack of assertions.
fn duplicate_assertions(v: &Vec<Assertion>) -> (r: Vec<Assertion>)
    ensures
        r@ == v@,
{
    let mut r: Vec<Assertion> = Vec::new();
    let mut i: usize = 0;
    while i < v.len()
        invariant
            i <= v@.len(),
            r@.len() == i,
            forall|k: int| 0 <= k < i ==> r@[k] == v@[k],
        decreases v@.len() - i,
    {
        r.push(v[i].duplicate());
        i = i + 1;
    }
    proof {
        assert(r@ =~= v@);
    }
    r
}

/// One step of a validity check: either the verdict is already determined,
/// or a backend must be consulted. The caller performs the backend call and
/// hands the outcome to [`Prover::resolve_backend_outcome`] (primary) or the
/// captured output to [`Prover::resolve_secondary_output`] (secondary).
#[derive(Debug)]
pub enum CheckStep {
    /// The verdict is determined without consulting any backend.
    Verdict(ProveResult),
    /// The primary incremental solver must decide the current assertions
    /// together with the extra assumptions given to the check.
    QueryPrimary,
    /// The secondary tool must decide: render the solver state, filter it
    /// with [`crate::dispatch::remove_lines_for_swine`], run the tool on the
    /// file, and classify its standard output.
    QuerySecondary,
}

/// The scope operations of an oracle, as abstract events; the laws about
/// scope levels and the obligation marker are stated over these.
#[derive(Debug, Clone, Copy, PartialEq, Eq, Structural)]
pub enum ProverOp {
    Push,
    Pop,
    AddAssumption,
    AddProvable,
}

/// How one operation transforms the scope level and the obligation marker.
pub open spec fn apply_op(level: int, marker: Option<int>, op: ProverOp) -> (int, Option<int>) {
    match op {
        ProverOp::Push => (level + 1, marker),
        ProverOp::Pop => (
            level - 1,
            if marker matches Some(m) && m > level - 1 {
                None
            } else {
                marker
            },
        ),
        ProverOp::AddAssumption => (level, marker),
        ProverOp::AddProvable => (
            level,
            if marker is Some {
                marker
            } else {
                Some(level)
            },
        ),
    }
}

/// How a sequence of operations transforms level and marker.
pub open spec fn apply_ops(level: int, marker: Option<int>, ops: Seq<ProverOp>) -> (
    int,
    Option<int>,
)
    decreases ops.len(),
{
    if ops.len() == 0 {
        (level, marker)
    } else {
        let (l, m) = apply_op(level, marker, ops[0]);
        apply_ops(l, m, ops.drop_first())
    }
}

/// The net scope movement of a sequence of operations.
pub open spec fn net_pushes(ops: Seq<ProverOp>) -> int
    decreases ops.len(),
{
    if ops.len() == 0 {
        0
    } else {
        (match ops[0] {
            ProverOp::Push => 1int,
            ProverOp::Pop => -1int,
            _ => 0int,
        }) + net_pushes(ops.drop_first())
    }
}

/// An oracle that never received an obligation stays vacuously valid: after
/// any sequence of operations without an obligation, the marker is still
/// unset, so a validity check returns a proof without consulting a backend.
pub proof fn lemma_vacuous_without_obligations(level: int, ops: Seq<ProverOp>)
    requires
        forall|i: int| 0 <= i < ops.len() ==> ops[i] != ProverOp::AddProvable,
    ensures
        apply_ops(level, None, ops).1 is None,
    decreases ops.len(),
{
    if ops.len() > 0 {
        assert(ops[0] != ProverOp::AddProvable);
        let (l, m) = apply_op(level, None, ops[0]);
        assert(m is None);
        assert(forall|i: int| 0 <= i < ops.drop_first().len() ==> ops.drop_first()[i] != ProverOp::AddProvable);
        lemma_vacuous_without_obligations(l, ops.drop_first());
    }
}

/// The level moves by exactly the net number of pushes.
pub proof fn lemma_level_is_net(level: int, marker: Option<int>, ops: Seq<ProverOp>)
    ensures
        apply_ops(level, marker, ops).0 == level + net_pushes(ops),
    decreases ops.len(),
{
    if ops.len() > 0 {
        let (l, m) = apply_op(level, marker, ops[0]);
        lemma_level_is_net(l, m, ops.drop_first());
    }
}

/// Push/pop symmetry: around any balanced sequence of operations, a matched
/// push and pop leave the scope level exactly where it was.
pub proof fn lemma_push_pop_symmetry(level: int, marker: Option<int>, ops: Seq<ProverOp>)
    requires
        net_pushes(ops) == 0,
    ensures
        apply_ops(level, marker, seq![ProverOp::Push] + ops + seq![ProverOp::Pop]).0 == level,
{
    let whole = seq![ProverOp::Push] + ops + seq![ProverOp::Pop];
    lemma_level_is_net(level, marker, whole);
    lemma_net_concat(seq![ProverOp::Push] + ops, seq![ProverOp::Pop]);
    lemma_net_concat(seq![ProverOp::Push], ops);
    assert(net_pushes(Seq::<ProverOp>::empty()) == 0);
    assert(net_pushes(seq![ProverOp::Push]) == 1) by {
        assert(net_pushes(Seq::<ProverOp>::empty()) == 0);
        assert(seq![ProverOp::Push][0] == ProverOp::Push);
        assert(seq![ProverOp::Push].drop_first() =~= Seq::<ProverOp>::empty());
    }
    assert(net_pushes(seq![ProverOp::Pop]) == -1) by {
        assert(net_pushes(Seq::<ProverOp>::empty()) == 0);
        assert(seq![ProverOp::Pop][0] == ProverOp::Pop);
        assert(seq![ProverOp::Pop].drop_first() =~= Seq::<ProverOp>::empty());
    }
}

/// The net movement of a concatenation is the sum of the nets.
pub proof fn lemma_net_concat(a: Seq<ProverOp>, b: Seq<ProverOp>)
    ensures
        net_pushes(a + b) == net_pushes(a) + net_pushes(b),
    decreases a.len(),
{
    if a.len() == 0 {
        assert(a + b =~= b);
    } else {
        assert((a + b).drop_first() =~= a.drop_first() + b);
        lemma_net_concat(a.drop_first(), b);
    }
}

/// Popping to below an obligation's scope clears the obligation marker, so
/// vacuous-proof behaviour is restored: the check short-circuits to a proof
/// again.
pub proof fn lemma_pop_clears_obligations(level: int, m: int)
    requires
        m > level - 1,
    ensures
        apply_op(level, Some(m), ProverOp::Pop).1 is None,
{
}

/// The proof oracle. It owns the assertion stack itself; the backend session
/// mirrors it, driven by the caller.
#[derive(Debug)]
pub struct Prover {
    /// Which backend serves this oracle.
    smt_solver: SolverType,
    /// Number of times push was called minus number of times pop was called.
    level: usize,
    /// The outermost level at which an obligation was added, while
    /// unresolved; unset exactly when no obligation is outstanding.
    min_level_with_provables: Option<usize>,
    /// Every assertion currently on the stack, oldest first.
    assertions: Vec<Assertion>,
    /// For each open scope, how many assertions were on the stack when it
    /// was opened.
    scope_marks: Vec<usize>,
    /// The backend timeout to apply, in milliseconds, if one was set.
    timeout_millis: Option<u64>,
    /// The reason the last check was indeterminate, if it was.
    last_reason_unknown: Option<ReasonUnknown>,
    /// The unsatisfiable core the last check produced, if any.
    unsat_core: Vec<Term>,
}

impl Prover {
    /// Which backend serves this oracle.
    pub closed spec fn solver_type(&self) -> SolverType {
        self.smt_solver
    }

    /// The current scope nesting depth.
    pub closed spec fn spec_level(&self) -> usize {
        self.level
    }

    /// The obligation marker.
    pub closed spec fn marker(&self) -> Option<usize> {
        self.min_level_with_provables
    }

    /// The obligation marker, as the abstract transition system sees it.
    pub open spec fn marker_int(&self) -> Option<int> {
        match self.marker() {
            Some(m) => Some(m as int),
            None => None,
        }
    }

    /// The assertion stack, oldest first.
    pub closed spec fn assertions_seq(&self) -> Seq<Assertion> {
        self.assertions@
    }

    /// The stack lengths at which the open scopes began.
    pub closed spec fn scope_marks_seq(&self) -> Seq<usize> {
        self.scope_marks@
    }

    /// The configured timeout in milliseconds, if any.
    pub closed spec fn timeout_spec(&self) -> Option<u64> {
        self.timeout_millis
    }

    /// The stored diagnostics of the last check.
    pub closed spec fn reason_unknown_spec(&self) -> Option<ReasonUnknown> {
        self.last_reason_unknown
    }

    /// The stored unsatisfiable core of the last check.
    pub closed spec fn unsat_core_seq(&self) -> Seq<Term> {
        self.unsat_core@
    }

    /// Internal consistency: one scope mark per level, each within the
    /// stack, in stack order; the marker never exceeds the level.
    pub open spec fn wf(&self) -> bool {
        &&& self.scope_marks_seq().len() == self.spec_level()
        &&& forall|k: int|
            0 <= k < self.scope_marks_seq().len() ==> #[trigger] self.scope_marks_seq()[k]
                <= self.assertions_seq().len()
        &&& forall|j: int, k: int|
            0 <= j <= k < self.scope_marks_seq().len() ==> #[trigger] self.scope_marks_seq()[j]
                <= #[trigger] self.scope_marks_seq()[k]
        &&& (self.marker() matches Some(m) ==> m <= self.spec_level())
    }

    /// A fresh oracle: level zero, no assertions, no obligations.
    pub fn new(solver_type: SolverType) -> (r: Prover)
        ensures
            r.wf(),
            r.solver_type() == solver_type,
            r.spec_level() == 0,
            r.marker() is None,
            r.assertions_seq() =~= Seq::<Assertion>::empty(),
            r.scope_marks_seq() =~= Seq::<usize>::empty(),
            r.timeout_spec() is None,
            r.reason_unknown_spec() is None,
            r.unsat_core_seq() =~= Seq::<Term>::empty(),
    {
        Prover {
            smt_solver: solver_type,
            level: 0,
            min_level_with_provables: None,
            assertions: Vec::new(),
            scope_marks: Vec::new(),
            timeout_millis: None,
            last_reason_unknown: None,
            unsat_core: Vec::new(),
        }
    }

    /// Configure the timeout, in milliseconds, that the caller applies to
    /// the backend session before each check.
    pub fn set_timeout(&mut self, millis: u64)
        ensures
            final(self).timeout_spec() == Some(millis),
            final(self).spec_level() == old(self).spec_level(),
            final(self).marker() == old(self).marker(),
            final(self).assertions_seq() == old(self).assertions_seq(),
            final(self).scope_marks_seq() == old(self).scope_marks_seq(),
            final(self).solver_type() == old(self).solver_type(),
            final(self).reason_unknown_spec() == old(self).reason_unknown_spec(),
            final(self).unsat_core_seq() == old(self).unsat_core_seq(),
    {
        self.timeout_millis = Some(millis);
    }

    /// Add an assumption: the formula is asserted as given, in the current
    /// scope. No validity semantics attach; the obligation marker does not
    /// move.
    pub fn add_assumption(&mut self, value: Term)
        requires
            old(self).wf(),
        ensures
            final(self).wf(),
            final(self).assertions_seq().len() == old(self).assertions_seq().len() + 1,
            forall|k: int|
                0 <= k < old(self).assertions_seq().len() ==> final(self).assertions_seq()[k]
                    == old(self).assertions_seq()[k],
            final(self).assertions_seq().last() matches Assertion::Assumed(g) && g == value,
            (final(self).spec_level() as int, final(self).marker_int()) == apply_op(
                old(self).spec_level() as int,
                old(self).marker_int(),
                ProverOp::AddAssumption,
            ),
            final(self).scope_marks_seq() == old(self).scope_marks_seq(),
            final(self).solver_type() == old(self).solver_type(),
            final(self).timeout_spec() == old(self).timeout_spec(),
    {
        self.assertions.push(Assertion::Assumed(Rc::new(value)));
    }

    /// Add a proof obligation: the formula's negation is asserted, and if no
    /// obligation was outstanding the marker is set to the current level.
    /// This is the only operation that makes a check consult a backend.
    pub fn add_provable(&mut self, value: Term)
        requires
            old(self).wf(),
        ensures
            final(self).wf(),
            final(self).assertions_seq().len() == old(self).assertions_seq().len() + 1,
            forall|k: int|
                0 <= k < old(self).assertions_seq().len() ==> final(self).assertions_seq()[k]
                    == old(self).assertions_seq()[k],
            final(self).assertions_seq().last() matches Assertion::Negated(g) && g == value,
            (final(self).spec_level() as int, final(self).marker_int()) == apply_op(
                old(self).spec_level() as int,
                old(self).marker_int(),
                ProverOp::AddProvable,
            ),
            final(self).scope_marks_seq() == old(self).scope_marks_seq(),
            final(self).solver_type() == old(self).solver_type(),
            final(self).timeout_spec() == old(self).timeout_spec(),
    {
        self.assertions.push(Assertion::Negated(Rc::new(value)));
        if self.min_level_with_provables.is_none() {
            self.min_level_with_provables = Some(self.level);
        }
    }

    /// Open a nested scope.
    pub fn push(&mut self)
        requires
            old(self).wf(),
            old(self).spec_level() < usize::MAX,
        ensures
            final(self).wf(),
            (final(self).spec_level() as int, final(self).marker_int()) == apply_op(
                old(self).spec_level() as int,
                old(self).marker_int(),
                ProverOp::Push,
            ),
            final(self).assertions_seq() == old(self).assertions_seq(),
            final(self).scope_marks_seq() == old(self).scope_marks_seq().push(
                old(self).assertions_seq().len() as usize,
            ),
            final(self).solver_type() == old(self).solver_type(),
            final(self).timeout_spec() == old(self).timeout_spec(),
    {
        self.scope_marks.push(self.assertions.len());
        self.level = self.level + 1;
    }

    /// Close the innermost scope: the assertions it added are discarded, and
    /// an obligation scoped to the popped region is no longer outstanding.
    /// Popping at level zero is a caller error, excluded by contract.
    pub fn pop(&mut self)
        requires
            old(self).wf(),
            old(self).spec_level() >= 1,
        ensures
            final(self).wf(),
            (final(self).spec_level() as int, final(self).marker_int()) == apply_op(
                old(self).spec_level() as int,
                old(self).marker_int(),
                ProverOp::Pop,
            ),
            final(self).assertions_seq() == old(self).assertions_seq().subrange(
                0,
                old(self).scope_marks_seq().last() as int,
            ),
            final(self).scope_marks_seq() == old(self).scope_marks_seq().drop_last(),
            final(self).solver_type() == old(self).solver_type(),
            final(self).timeout_spec() == old(self).timeout_spec(),
    {
        let mark = self.scope_marks[self.scope_marks.len() - 1];
        self.scope_marks.pop();
        self.assertions.truncate(mark);
        self.level = self.level - 1;
        match self.min_level_with_provables {
            Some(prev_min_level) => {
                if prev_min_level > self.level {
                    self.min_level_with_provables = None;
                }
            },
            None => {},
        }
    }

    /// The current scope nesting depth, for caller-side consistency checks.
    pub fn level(&self) -> (r: usize)
        ensures
            r == self.spec_level(),
    {
        self.level
    }

    /// The configured timeout, for the caller to apply to its backend
    /// session before performing a check.
    pub fn timeout(&self) -> (r: Option<u64>)
        ensures
            r == self.timeout_spec(),
    {
        self.timeout_millis
    }

    /// The assertions currently on the stack, for the caller to mirror into
    /// its backend session.
    pub fn assertions(&self) -> (r: &Vec<Assertion>)
        ensures
            r@ == self.assertions_seq(),
    {
        &self.assertions
    }

    /// One step of `check_proof_assuming(∅)`.
    pub fn check_proof(&self) -> (r: CheckStep)
        ensures
            self.marker() is None <==> (r matches CheckStep::Verdict(v) && v matches
                ProveResult::Proof),
            self.marker() is Some && self.solver_type() == SolverType::Z3 ==> r matches
                CheckStep::QueryPrimary,
            self.marker() is Some && self.solver_type() == SolverType::SWINE ==> r matches
                CheckStep::QuerySecondary,
    {
        let empty: Vec<Term> = Vec::new();
        self.check_proof_assuming(&empty)
    }

    /// Decide one validity check. With no obligation outstanding the oracle
    /// is vacuously valid and the verdict is a proof at once — even if
    /// assumptions were added, since assumptions alone cannot invalidate a
    /// proof. Otherwise the caller must consult this oracle's backend on the
    /// current assertions together with `assumptions`, and hand the outcome
    /// back.
    pub fn check_proof_assuming(&self, assumptions: &Vec<Term>) -> (r: CheckStep)
        ensures
            self.marker() is None <==> (r matches CheckStep::Verdict(v) && v matches
                ProveResult::Proof),
            self.marker() is Some && self.solver_type() == SolverType::Z3 ==> r matches
                CheckStep::QueryPrimary,
            self.marker() is Some && self.solver_type() == SolverType::SWINE ==> r matches
                CheckStep::QuerySecondary,
    {
        if self.min_level_with_provables.is_none() {
            return CheckStep::Verdict(ProveResult::Proof);
        }
        match self.smt_solver {
            SolverType::Z3 => CheckStep::QueryPrimary,
            SolverType::SWINE => CheckStep::QuerySecondary,
        }
    }

    /// The verdict for the primary backend's uniform outcome:
    /// unsatisfiable means the obligations hold; satisfiable wraps the
    /// assignment as a counterexample; indeterminate surfaces the backend's
    /// reason, never silently coerced. The outcome's diagnostics are stored
    /// for later reporting.
    pub fn resolve_backend_outcome(&mut self, outcome: SatOutcome) -> (r: ProveResult)
        ensures
            final(self).spec_level() == old(self).spec_level(),
            final(self).marker() == old(self).marker(),
            final(self).assertions_seq() == old(self).assertions_seq(),
            final(self).scope_marks_seq() == old(self).scope_marks_seq(),
            final(self).solver_type() == old(self).solver_type(),
            final(self).timeout_spec() == old(self).timeout_spec(),
            match outcome {
                SatOutcome::Unsat(core) => {
                    &&& r matches ProveResult::Proof
                    &&& final(self).unsat_core_seq() == core@
                    &&& final(self).reason_unknown_spec() is None
                },
                SatOutcome::Sat(model) => {
                    &&& r matches ProveResult::Counterexample(m) && m.wf()
                        && m.spec_consistency() == ModelConsistency::Consistent && m.spec_model()
                        == model && m.decls_accessed() =~= Set::<Seq<char>>::empty()
                        && m.exprs_accessed() =~= Set::<u64>::empty()
                    &&& final(self).unsat_core_seq() =~= Seq::<Term>::empty()
                    &&& final(self).reason_unknown_spec() is None
                },
                SatOutcome::Unknown(reason) => {
                    &&& r matches ProveResult::Unknown(re) && re == reason
                    &&& final(self).unsat_core_seq() =~= Seq::<Term>::empty()
                    &&& final(self).reason_unknown_spec() matches Some(re) && re == reason
                },
            },
    {
        match outcome {
            SatOutcome::Unsat(core) => {
                self.unsat_core = core;
                self.last_reason_unknown = None;
                ProveResult::Proof
            },
            SatOutcome::Sat(model) => {
                self.unsat_core = Vec::new();
                self.last_reason_unknown = None;
                ProveResult::Counterexample(
                    InstrumentedModel::new(ModelConsistency::Consistent, model),
                )
            },
            SatOutcome::Unknown(reason) => {
                self.unsat_core = Vec::new();
                self.last_reason_unknown = Some(reason.duplicate());
                ProveResult::Unknown(reason)
            },
        }
    }

    /// The verdict for the secondary tool's captured standard output:
    /// "unsat" anywhere in the text is a proof; "sat" is indeterminate,
    /// since the tool offers no way to recover an assignment; anything else
    /// is indeterminate with the tool's unspecific reason.
    pub fn resolve_secondary_output(&mut self, stdout: &str) -> (r: ProveResult)
        ensures
            final(self).spec_level() == old(self).spec_level(),
            final(self).marker() == old(self).marker(),
            final(self).assertions_seq() == old(self).assertions_seq(),
            final(self).scope_marks_seq() == old(self).scope_marks_seq(),
            final(self).solver_type() == old(self).solver_type(),
            final(self).timeout_spec() == old(self).timeout_spec(),
            final(self).unsat_core_seq() =~= Seq::<Term>::empty(),
            has_substring(stdout@, "unsat"@) ==> (r matches ProveResult::Proof
                && final(self).reason_unknown_spec() is None),
            !has_substring(stdout@, "unsat"@) && has_substring(stdout@, "sat"@) ==> (r matches
                ProveResult::Unknown(re) && reason_text(re)
                == "secondary backend reported sat but offers no model"@),
            !has_substring(stdout@, "unsat"@) && !has_substring(stdout@, "sat"@) ==> (r matches
                ProveResult::Unknown(re) && reason_text(re) == "unknown"@),
            r matches ProveResult::Unknown(re) ==> final(self).reason_unknown_spec()
                matches Some(r2) && r2 == re,
    {
        match crate::dispatch::classify_solver_output(stdout) {
            crate::dispatch::SatResult::Unsat => {
                self.unsat_core = Vec::new();
                self.last_reason_unknown = None;
                ProveResult::Proof
            },
            crate::dispatch::SatResult::Sat => {
                self.unsat_core = Vec::new();
                let reason = ReasonUnknown::Other(
                    String::from_str("secondary backend reported sat but offers no model"),
                );
                self.last_reason_unknown = Some(reason.duplicate());
                ProveResult::Unknown(reason)
            },
            crate::dispatch::SatResult::Unknown => {
                self.unsat_core = Vec::new();
                let reason = ReasonUnknown::Other(String::from_str("unknown"));
                self.last_reason_unknown = Some(reason.duplicate());
                ProveResult::Unknown(reason)
            },
        }
    }

    /// The unsatisfiable core the last check produced, for reporting after a
    /// proof.
    pub fn get_unsat_core(&self) -> (r: &Vec<Term>)
        ensures
            r@ == self.unsat_core_seq(),
    {
        &self.unsat_core
    }

    /// The reason the last check was indeterminate, for reporting after an
    /// unknown verdict.
    pub fn get_reason_unknown(&self) -> (r: Option<ReasonUnknown>)
        ensures
            match self.reason_unknown_spec() {
                Some(re) => r matches Some(r2) && r2 == re,
                None => r is None,
            },
    {
        match &self.last_reason_unknown {
            Some(re) => Some(re.duplicate()),
            None => None,
        }
    }

    /// Build a new, fully independent oracle whose single assumption is the
    /// universally quantified negation of this oracle's current assertions.
    /// Checking satisfiability of the new oracle answers whether the
    /// original conjunction is not a tautology over the quantified
    /// identifiers.
    pub fn to_exists_forall(&self, universal: Vec<String>) -> (r: Prover)
        ensures
            r.wf(),
            r.solver_type() == SolverType::Z3,
            r.spec_level() == 0,
            r.marker() is None,
            r.scope_marks_seq() =~= Seq::<usize>::empty(),
            r.timeout_spec() is None,
            r.reason_unknown_spec() is None,
            r.unsat_core_seq() =~= Seq::<Term>::empty(),
            r.assertions_seq().len() == 1,
            r.assertions_seq()[0] matches Assertion::ForallNegated(u, a) && u@ == universal@ && a@
                == self.assertions_seq(),
    {
        let copies = duplicate_assertions(&self.assertions);
        let mut assertions: Vec<Assertion> = Vec::new();
        assertions.push(Assertion::ForallNegated(Rc::new(universal), Rc::new(copies)));
        Prover {
            smt_solver: SolverType::Z3,
            level: 0,
            min_level_with_provables: None,
            assertions,
            scope_marks: Vec::new(),
            timeout_millis: None,
            last_reason_unknown: None,
            unsat_core: Vec::new(),
        }
    }
}

} // verus!
