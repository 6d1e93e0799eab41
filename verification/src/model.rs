//! A counterexample assignment, instrumented to track which parts of it have
//! been inspected.
//!
//! An [`InstrumentedModel`] wraps one satisfying assignment returned by a
//! backend and records which declarations and which subexpressions an
//! evaluation has visited, so that a final report can show everything that
//! was understood and everything left over. Marking a compound term's
//! children deduplicates on the backend's structural identity: a child whose
//! identity was already recorded is not traversed again, which bounds the
//! traversal cost on assignments with heavily shared substructure.

use vstd::prelude::*;

use crate::extract::{decode_bool, decode_int, decode_rational, SmtEvalError, SmtValue};
use crate::numbers::{ExactInt, ExactRational};
use crate::term::{
    constant_names, constant_names_upto, descendant_ids, descendant_ids_upto, Term, TermKind,
};

verus! {

broadcast use vstd::std_specs::vec::axiom_vec_index_decreases;

/// Whether the assignment is guaranteed to satisfy the constraints it came
/// from. A backend that answers "satisfiable" guarantees consistency; a
/// backend that gives up can still hand out an assignment, just without any
/// guarantee.
#[derive(Debug, Clone, Copy, PartialEq, Eq, Structural)]
pub enum ModelConsistency {
    /// The backend reported the constraints satisfiable: the assignment is
    /// guaranteed to be consistent with them.
    Consistent,
    /// The backend gave up: the assignment carries no guarantee, but can
    /// still help localize an error.
    Unknown,
}

/// One row of a function's interpretation: for these arguments, this value.
#[derive(Debug, PartialEq, Eq)]
pub struct FuncEntry {
    pub args: Vec<SmtValue>,
    pub value: SmtValue,
}

/// A backend's interpretation of a declared function: finitely many listed
/// rows and a default for every other argument tuple.
#[derive(Debug, PartialEq, Eq)]
pub struct FuncInterp {
    pub entries: Vec<FuncEntry>,
    pub else_value: Option<SmtValue>,
}

/// One named top-level declaration present in an assignment.
#[derive(Debug, PartialEq, Eq)]
pub struct Declaration {
    pub name: String,
    pub interp: Option<FuncInterp>,
}

/// One satisfying assignment as handed over by a backend: its named
/// declarations, and a value table keyed by the backend's structural identity
/// of term nodes. A node without a table entry has no reported value; with
/// model completion, integer evaluation assigns it zero.
#[derive(Debug, PartialEq, Eq)]
pub struct Model {
    pub decls: Vec<Declaration>,
    pub values: Vec<(u64, SmtValue)>,
}

/// The first value a table associates with `id`, if any.
pub open spec fn table_value(s: Seq<(u64, SmtValue)>, id: u64) -> Option<SmtValue>
    decreases s.len(),
{
    if s.len() == 0 {
        None
    } else if s[0].0 == id {
        Some(s[0].1)
    } else {
        table_value(s.drop_first(), id)
    }
}

impl Model {
    /// The value this assignment reports for the term node `id`, if any.
    pub open spec fn spec_value_of(&self, id: u64) -> Option<SmtValue> {
        table_value(self.values@, id)
    }

    /// Look the node `id` up in the value table.
    pub fn value_of(&self, id: u64) -> (r: Option<&SmtValue>)
        ensures
            match r {
                Some(v) => self.spec_value_of(id) == Some(*v),
                None => self.spec_value_of(id) is None,
            },
    {
        let mut i: usize = 0;
        proof {
            assert(self.values@.skip(0) =~= self.values@);
        }
        while i < self.values.len()
            invariant
                i <= self.values@.len(),
                table_value(self.values@, id) == table_value(self.values@.skip(i as int), id),
            decreases self.values@.len() - i,
        {
            proof {
                assert(self.values@.skip(i as int).drop_first() =~= self.values@.skip(i + 1));
                assert(self.values@.skip(i as int)[0] == self.values@[i as int]);
            }
            if self.values[i].0 == id {
                return Some(&self.values[i].1);
            }
            i = i + 1;
        }
        proof {
            assert(self.values@.skip(i as int) =~= Seq::<(u64, SmtValue)>::empty());
        }
        None
    }
}

/// The record of which declarations and which term nodes evaluation has
/// visited so far. Both records only ever grow; a snapshot is restored by
/// truncating back, so taking one is cheap.
#[derive(Debug)]
pub struct AccessedDecls {
    decl_names: Vec<String>,
    expr_ids: Vec<u64>,
}

impl AccessedDecls {
    /// The names of the declarations visited, in first-visit order.
    pub closed spec fn decl_names_seq(&self) -> Seq<Seq<char>> {
        self.decl_names.deep_view()
    }

    /// The identities of the term nodes visited, in first-visit order.
    pub closed spec fn expr_ids_seq(&self) -> Seq<u64> {
        self.expr_ids@
    }

    /// The set of declaration names visited.
    pub open spec fn decls_set(&self) -> Set<Seq<char>> {
        self.decl_names_seq().to_set()
    }

    /// The set of term-node identities visited.
    pub open spec fn exprs_set(&self) -> Set<u64> {
        self.expr_ids_seq().to_set()
    }

    /// Neither record holds an entry twice.
    pub open spec fn wf(&self) -> bool {
        self.decl_names_seq().no_duplicates() && self.expr_ids_seq().no_duplicates()
    }

    /// An empty record.
    pub fn new() -> (r: AccessedDecls)
        ensures
            r.wf(),
            r.decl_names_seq() =~= Seq::<Seq<char>>::empty(),
            r.expr_ids_seq() =~= Seq::<u64>::empty(),
    {
        let r = AccessedDecls { decl_names: Vec::new(), expr_ids: Vec::new() };
        proof {
            assert(r.decl_names_seq() =~= Seq::<Seq<char>>::empty());
        }
        r
    }

    /// Record the declaration `name` as visited.
    pub fn mark_func_decl(&mut self, name: &String)
        requires
            old(self).wf(),
        ensures
            final(self).wf(),
            final(self).expr_ids_seq() == old(self).expr_ids_seq(),
            old(self).decls_set().contains(name@) ==> final(self).decl_names_seq() == old(
                self,
            ).decl_names_seq(),
            !old(self).decls_set().contains(name@) ==> final(self).decl_names_seq() == old(
                self,
            ).decl_names_seq().push(name@),
            final(self).decls_set() =~= old(self).decls_set().insert(name@),
    {
        let mut i: usize = 0;
        let n = self.decl_names.len();
        while i < n
            invariant
                *self == *old(self),
                old(self).wf(),
                n == self.decl_names@.len(),
                i <= n,
                forall|k: int| 0 <= k < i ==> self.decl_names_seq()[k] != name@,
            decreases n - i,
        {
            let hit = self.decl_names[i] == *name;
            proof {
                assert(self.decl_names_seq()[i as int] == self.decl_names@[i as int]@);
            }
            if hit {
                proof {
                    assert(self.decls_set().contains(name@));
                    assert(self.decls_set() =~= self.decls_set().insert(name@));
                }
                return ;
            }
            i = i + 1;
        }
        proof {
            assert(forall|k: int|
                0 <= k < self.decl_names_seq().len() ==> self.decl_names_seq()[k] != name@);
            assert(!self.decls_set().contains(name@));
        }
        let ghost pre = *self;
        self.decl_names.push(name.clone());
        proof {
            assert(self.decl_names_seq() =~= pre.decl_names_seq().push(name@));
            assert(self.decls_set() =~= pre.decls_set().insert(name@)) by {
                assert forall|x: Seq<char>| self.decls_set().contains(x) implies pre.decls_set()
                    .insert(name@).contains(x) by {
                    let k = choose|k: int|
                        0 <= k < self.decl_names_seq().len() && self.decl_names_seq()[k] == x;
                    if k < pre.decl_names_seq().len() {
                        assert(pre.decls_set().contains(x));
                    }
                }
                assert forall|x: Seq<char>|
                    pre.decls_set().insert(name@).contains(x) implies self.decls_set().contains(
                    x,
                ) by {
                    if pre.decls_set().contains(x) {
                        let k = choose|k: int|
                            0 <= k < pre.decl_names_seq().len() && pre.decl_names_seq()[k] == x;
                        assert(self.decl_names_seq()[k] == x);
                    } else {
                        assert(self.decl_names_seq().last() == name@);
                    }
                }
            }
            assert(self.wf());
        }
    }

    /// Whether the declaration `name` was visited.
    pub fn is_func_decl_accessed(&self, name: &String) -> (r: bool)
        ensures
            r == self.decls_set().contains(name@),
    {
        let mut i: usize = 0;
        let n = self.decl_names.len();
        while i < n
            invariant
                n == self.decl_names@.len(),
                i <= n,
                forall|k: int| 0 <= k < i ==> self.decl_names_seq()[k] != name@,
            decreases n - i,
        {
            let hit = self.decl_names[i] == *name;
            proof {
                assert(self.decl_names_seq()[i as int] == self.decl_names@[i as int]@);
            }
            if hit {
                return true;
            }
            i = i + 1;
        }
        proof {
            assert(forall|k: int|
                0 <= k < self.decl_names_seq().len() ==> self.decl_names_seq()[k] != name@);
        }
        false
    }

    /// Record the term node `id` as visited; report whether it was new.
    fn insert_expr_id(&mut self, id: u64) -> (fresh: bool)
        requires
            old(self).wf(),
        ensures
            final(self).wf(),
            final(self).decl_names_seq() == old(self).decl_names_seq(),
            fresh == !old(self).exprs_set().contains(id),
            fresh ==> final(self).expr_ids_seq() == old(self).expr_ids_seq().push(id),
            !fresh ==> final(self).expr_ids_seq() == old(self).expr_ids_seq(),
            final(self).exprs_set() =~= old(self).exprs_set().insert(id),
    {
        let mut i: usize = 0;
        let n = self.expr_ids.len();
        while i < n
            invariant
                *self == *old(self),
                old(self).wf(),
                n == self.expr_ids@.len(),
                i <= n,
                forall|k: int| 0 <= k < i ==> self.expr_ids_seq()[k] != id,
            decreases n - i,
        {
            if self.expr_ids[i] == id {
                proof {
                    assert(self.exprs_set() =~= self.exprs_set().insert(id));
                }
                return false;
            }
            i = i + 1;
        }
        let ghost pre = *self;
        self.expr_ids.push(id);
        proof {
            assert(forall|k: int| 0 <= k < pre.expr_ids_seq().len() ==> pre.expr_ids_seq()[k] != id);
            assert(!pre.exprs_set().contains(id));
            assert(self.expr_ids_seq() =~= pre.expr_ids_seq().push(id));
            pre.expr_ids_seq().lemma_push_to_set_commute(id);
            assert(self.wf());
        }
        true
    }

    /// An equal copy of the record, for a snapshot.
    pub fn duplicate(&self) -> (r: AccessedDecls)
        ensures
            r.decl_names_seq() == self.decl_names_seq(),
            r.expr_ids_seq() == self.expr_ids_seq(),
    {
        let mut names: Vec<String> = Vec::new();
        let mut i: usize = 0;
        while i < self.decl_names.len()
            invariant
                i <= self.decl_names@.len(),
                names@.len() == i,
                forall|k: int| 0 <= k < i ==> names@[k] == self.decl_names@[k],
            decreases self.decl_names@.len() - i,
        {
            names.push(self.decl_names[i].clone());
            i = i + 1;
        }
        let mut ids: Vec<u64> = Vec::new();
        let mut j: usize = 0;
        while j < self.expr_ids.len()
            invariant
                j <= self.expr_ids@.len(),
                ids@.len() == j,
                forall|k: int| 0 <= k < j ==> ids@[k] == self.expr_ids@[k],
            decreases self.expr_ids@.len() - j,
        {
            ids.push(self.expr_ids[j]);
            j = j + 1;
        }
        let r = AccessedDecls { decl_names: names, expr_ids: ids };
        proof {
            assert(r.decl_names_seq() =~= self.decl_names_seq());
            assert(r.expr_ids_seq() =~= self.expr_ids_seq());
        }
        r
    }

    /// Record a term's structure as visited, as an evaluation does:
    /// a constant marks its declaration; an application walks its children,
    /// but a child whose identity was already recorded is not walked again.
    /// Returns how many term nodes were newly recorded; by deduplication this
    /// is at most the number of distinct descendant identities, however many
    /// times each is referenced.
    pub fn mark_expr(&mut self, t: &Term) -> (visits: usize)
        requires
            old(self).wf(),
        ensures
            final(self).wf(),
            old(self).decl_names_seq().is_prefix_of(final(self).decl_names_seq()),
            old(self).expr_ids_seq().is_prefix_of(final(self).expr_ids_seq()),
            final(self).decls_set().subset_of(old(self).decls_set().union(constant_names(*t))),
            final(self).exprs_set().subset_of(old(self).exprs_set().union(descendant_ids(*t))),
            visits == final(self).expr_ids_seq().len() - old(self).expr_ids_seq().len(),
            visits <= descendant_ids(*t).len(),
            t.kind matches TermKind::Constant(name) ==> final(self).decls_set().contains(name@),
            t.kind matches TermKind::Apply(_, args) ==> (forall|i: int|
                0 <= i < args@.len() ==> final(self).exprs_set().contains(#[trigger] args@[i].id)),
        decreases *t,
    {
        proof {
            lemma_descendant_ids_finite(*t);
        }
        match &t.kind {
            TermKind::Constant(name) => {
                let ghost pre = *self;
                self.mark_func_decl(name);
                proof {
                    assert(self.decls_set().subset_of(
                        old(self).decls_set().union(constant_names(*t)),
                    ));
                    lemma_prefix_reflexive(self.expr_ids_seq());
                    if pre.decls_set().contains(name@) {
                        lemma_prefix_reflexive(self.decl_names_seq());
                    } else {
                        lemma_prefix_push(pre.decl_names_seq(), name@);
                    }
                }
                0
            },
            TermKind::Apply(_, args) => {
                let start = self.expr_ids.len();
                let ghost pre = *self;
                let mut i: usize = 0;
                while i < args.len()
                    invariant
                        pre.wf(),
                        self.wf(),
                        i <= args@.len(),
                        t.kind matches TermKind::Apply(_, a) && a == args,
                        pre.decl_names_seq().is_prefix_of(self.decl_names_seq()),
                        pre.expr_ids_seq().is_prefix_of(self.expr_ids_seq()),
                        start == pre.expr_ids_seq().len(),
                        self.decls_set().subset_of(
                            pre.decls_set().union(constant_names_upto(*args, i as int)),
                        ),
                        self.exprs_set().subset_of(
                            pre.exprs_set().union(descendant_ids_upto(*args, i as int)),
                        ),
                        forall|j: int|
                            start <= j < self.expr_ids_seq().len()
                                ==> descendant_ids_upto(*args, i as int).contains(
                                #[trigger] self.expr_ids_seq()[j],
                            ),
                        forall|j: int|
                            0 <= j < i ==> self.exprs_set().contains(#[trigger] args@[j].id),
                    decreases args@.len() - i,
                {
                    let ghost loop_pre = *self;
                    let child = &args[i];
                    proof {
                        assert(descendant_ids_upto(*args, i + 1) == descendant_ids_upto(
                            *args,
                            i as int,
                        ).union(set![args@[i as int].id].union(descendant_ids(args@[i as int]))));
                        assert(constant_names_upto(*args, i + 1) == constant_names_upto(
                            *args,
                            i as int,
                        ).union(constant_names(args@[i as int])));
                    }
                    let fresh = self.insert_expr_id(child.id);
                    let ghost mid = *self;
                    proof {
                        if fresh {
                            lemma_prefix_push(loop_pre.expr_ids_seq(), child.id);
                        } else {
                            lemma_prefix_reflexive(loop_pre.expr_ids_seq());
                        }
                        assert(loop_pre.expr_ids_seq().is_prefix_of(mid.expr_ids_seq()));
                    }
                    if fresh {
                        proof {
                            assert(decreases_to!(*t => *child));
                        }
                        let _ = self.mark_expr(child);
                    } else {
                        proof {
                            lemma_prefix_reflexive(self.expr_ids_seq());
                            lemma_prefix_reflexive(self.decl_names_seq());
                            assert(self.exprs_set().subset_of(
                                mid.exprs_set().union(descendant_ids(*child)),
                            ));
                            assert(self.decls_set().subset_of(
                                mid.decls_set().union(constant_names(*child)),
                            ));
                        }
                    }
                    proof {
                        // self now extends mid, which extends the iteration's
                        // starting state, which extends the entry state
                        assert(mid.expr_ids_seq().is_prefix_of(self.expr_ids_seq()));
                        assert(mid.decl_names_seq().is_prefix_of(self.decl_names_seq()));
                        lemma_prefix_transitive(
                            loop_pre.expr_ids_seq(),
                            mid.expr_ids_seq(),
                            self.expr_ids_seq(),
                        );
                        lemma_prefix_transitive(
                            pre.expr_ids_seq(),
                            loop_pre.expr_ids_seq(),
                            self.expr_ids_seq(),
                        );
                        lemma_prefix_transitive(
                            pre.decl_names_seq(),
                            loop_pre.decl_names_seq(),
                            self.decl_names_seq(),
                        );
                        lemma_prefix_to_set_subset(
                            loop_pre.expr_ids_seq(),
                            self.expr_ids_seq(),
                        );
                        assert(self.exprs_set().contains(args@[i as int].id)) by {
                            assert(mid.exprs_set() =~= loop_pre.exprs_set().insert(child.id));
                            lemma_prefix_to_set_subset(mid.expr_ids_seq(), self.expr_ids_seq());
                        }
                        assert(self.exprs_set().subset_of(
                            pre.exprs_set().union(descendant_ids_upto(*args, i + 1)),
                        )) by {
                            assert(mid.exprs_set() =~= loop_pre.exprs_set().insert(child.id));
                        }
                        assert(self.decls_set().subset_of(
                            pre.decls_set().union(constant_names_upto(*args, i + 1)),
                        ));
                        assert forall|j: int|
                            start <= j < self.expr_ids_seq().len() implies descendant_ids_upto(
                            *args,
                            i + 1,
                        ).contains(#[trigger] self.expr_ids_seq()[j]) by {
                            let x = self.expr_ids_seq()[j];
                            if j < loop_pre.expr_ids_seq().len() {
                                assert(loop_pre.expr_ids_seq()[j] == x);
                                assert(descendant_ids_upto(*args, i as int).contains(x));
                            } else {
                                // a new entry of this iteration: since the whole
                                // record is duplicate-free, it was not recorded
                                // before, so it is the child's id or one of the
                                // child's descendants
                                assert(!loop_pre.exprs_set().contains(x)) by {
                                    if loop_pre.exprs_set().contains(x) {
                                        let k = choose|k: int|
                                            0 <= k < loop_pre.expr_ids_seq().len()
                                                && loop_pre.expr_ids_seq()[k] == x;
                                        assert(self.expr_ids_seq()[k] == x);
                                    }
                                }
                                assert(self.exprs_set().contains(x)) by {
                                    assert(self.expr_ids_seq().contains(x));
                                }
                                assert(mid.exprs_set() =~= loop_pre.exprs_set().insert(child.id));
                                assert(x == child.id || descendant_ids(*child).contains(x));
                            }
                        }
                    }
                    i = i + 1;
                }
                proof {
                    assert(descendant_ids_upto(*args, args@.len() as int) == descendant_ids(*t));
                    assert(constant_names_upto(*args, args@.len() as int) == constant_names(*t));
                    // every newly recorded id is a descendant id, and the new
                    // entries are distinct, so there are at most as many of
                    // them as there are distinct descendants
                    let new_ids = self.expr_ids_seq().skip(start as int);
                    assert(new_ids.no_duplicates()) by {
                        assert forall|a: int, b: int|
                            0 <= a < new_ids.len() && 0 <= b < new_ids.len() && a != b
                            implies new_ids[a] != new_ids[b] by {
                            assert(new_ids[a] == self.expr_ids_seq()[start + a]);
                            assert(new_ids[b] == self.expr_ids_seq()[start + b]);
                        }
                    }
                    new_ids.unique_seq_to_set();
                    assert(new_ids.to_set().subset_of(descendant_ids(*t))) by {
                        assert forall|x: u64| new_ids.to_set().contains(x)
                            implies descendant_ids(*t).contains(x) by {
                            let j = choose|j: int| 0 <= j < new_ids.len() && new_ids[j] == x;
                            assert(self.expr_ids_seq()[start + j] == x);
                        }
                    }
                    vstd::set_lib::lemma_len_subset(new_ids.to_set(), descendant_ids(*t));
                }
                self.expr_ids.len() - start
            },
            _ => {
                proof {
                    lemma_prefix_reflexive(self.expr_ids_seq());
                    lemma_prefix_reflexive(self.decl_names_seq());
                    assert(self.exprs_set().subset_of(
                        old(self).exprs_set().union(descendant_ids(*t)),
                    ));
                    assert(self.decls_set().subset_of(
                        old(self).decls_set().union(constant_names(*t)),
                    ));
                }
                0
            },
        }
    }
}

/// A prefix's elements all occur in the longer sequence.
proof fn lemma_prefix_to_set_subset<A>(a: Seq<A>, b: Seq<A>)
    requires
        a.is_prefix_of(b),
    ensures
        a.to_set().subset_of(b.to_set()),
{
    assert forall|x: A| a.to_set().contains(x) implies b.to_set().contains(x) by {
        let k = choose|k: int| 0 <= k < a.len() && a[k] == x;
        assert(b[k] == x);
    }
}

/// Every sequence is a prefix of itself.
proof fn lemma_prefix_reflexive<A>(a: Seq<A>)
    ensures
        a.is_prefix_of(a),
{
    assert(a.subrange(0, a.len() as int) =~= a);
}

/// A sequence is a prefix of itself extended by one element.
proof fn lemma_prefix_push<A>(a: Seq<A>, x: A)
    ensures
        a.is_prefix_of(a.push(x)),
{
    assert(a.push(x).subrange(0, a.len() as int) =~= a);
}

/// A prefix of a prefix is a prefix.
proof fn lemma_prefix_transitive<A>(a: Seq<A>, b: Seq<A>, c: Seq<A>)
    requires
        a.is_prefix_of(b),
        b.is_prefix_of(c),
    ensures
        a.is_prefix_of(c),
{
}

/// The set of descendant identities of a term is finite.
pub proof fn lemma_descendant_ids_finite(t: Term)
    ensures
        descendant_ids(t).finite(),
    decreases t, 0nat,
{
    match t.kind {
        TermKind::Apply(_, args) => {
            lemma_descendant_ids_upto_finite(args, args.len() as int);
        },
        _ => {},
    }
}

/// The set of descendant identities of a prefix of children is finite.
pub proof fn lemma_descendant_ids_upto_finite(args: Vec<Term>, n: int)
    ensures
        descendant_ids_upto(args, n).finite(),
    decreases args, n,
{
    if n <= 0 || n > args.len() {
    } else {
        lemma_descendant_ids_upto_finite(args, n - 1);
        lemma_descendant_ids_finite(args[n - 1]);
    }
}


/// The interpretation the assignment's first declaration named `name`
/// carries, if such a declaration exists.
pub open spec fn decl_interp(s: Seq<Declaration>, name: Seq<char>) -> Option<Option<FuncInterp>>
    decreases s.len(),
{
    if s.len() == 0 {
        None
    } else if s[0].name@ == name {
        Some(s[0].interp)
    } else {
        decl_interp(s.drop_first(), name)
    }
}

/// What boolean evaluation of `t` under the assignment `m` must yield:
/// a boolean literal is its own value; any other term must have a reported
/// value of boolean shape, without model completion.
pub open spec fn spec_eval_bool(m: Model, t: Term) -> Result<bool, SmtEvalError> {
    match t.kind {
        TermKind::BoolLiteral(b) => Ok(b),
        TermKind::IntLiteral(_) => Err(SmtEvalError::ParseError),
        _ => match m.spec_value_of(t.id) {
            Some(v) => crate::extract::spec_decode_bool(v),
            None => Err(SmtEvalError::EvalError),
        },
    }
}

/// What integer evaluation of `t` under the assignment `m` must yield, as a
/// mathematical integer: an integer literal is its own value; a term whose
/// reported value has integer shape yields it; a term without a reported
/// value is completed to zero (model completion); any other shape fails.
pub open spec fn spec_eval_int(m: Model, t: Term) -> Result<int, SmtEvalError> {
    match t.kind {
        TermKind::IntLiteral(i) => Ok(i as int),
        TermKind::BoolLiteral(_) => Err(SmtEvalError::ParseError),
        _ => match m.spec_value_of(t.id) {
            Some(SmtValue::Int(i)) => Ok(i as int),
            Some(_) => Err(SmtEvalError::ParseError),
            None => Ok(0),
        },
    }
}

/// One satisfying assignment wrapped with inspection tracking: evaluation
/// calls mark what they visit, and a failed evaluation sequence can be rolled
/// back so that it leaves no mark (see [`InstrumentedModel::atomically`]).
#[derive(Debug)]
pub struct InstrumentedModel {
    consistency: ModelConsistency,
    model: Model,
    accessed_decls: AccessedDecls,
}

impl InstrumentedModel {
    /// The consistency guarantee this assignment came with.
    pub closed spec fn spec_consistency(&self) -> ModelConsistency {
        self.consistency
    }

    /// The underlying assignment.
    pub closed spec fn spec_model(&self) -> Model {
        self.model
    }

    /// The inspection record.
    pub closed spec fn accessed(&self) -> AccessedDecls {
        self.accessed_decls
    }

    /// The set of declaration names visited so far.
    pub open spec fn decls_accessed(&self) -> Set<Seq<char>> {
        self.accessed().decls_set()
    }

    /// The set of term-node identities visited so far.
    pub open spec fn exprs_accessed(&self) -> Set<u64> {
        self.accessed().exprs_set()
    }

    /// The inspection record is duplicate-free.
    pub open spec fn wf(&self) -> bool {
        self.accessed().wf()
    }

    /// The marking clauses shared by every evaluation call: the assignment
    /// itself never changes; the inspection record only grows, and it grows
    /// by at most the term's constant names and descendant identities.
    pub open spec fn marked(&self, pre: Self, t: Term) -> bool {
        &&& self.wf()
        &&& self.spec_model() == pre.spec_model()
        &&& self.spec_consistency() == pre.spec_consistency()
        &&& pre.accessed().decl_names_seq().is_prefix_of(self.accessed().decl_names_seq())
        &&& pre.accessed().expr_ids_seq().is_prefix_of(self.accessed().expr_ids_seq())
        &&& self.decls_accessed().subset_of(pre.decls_accessed().union(constant_names(t)))
        &&& self.exprs_accessed().subset_of(pre.exprs_accessed().union(descendant_ids(t)))
        &&& (t.kind matches TermKind::Constant(name) ==> self.decls_accessed().contains(name@))
        &&& (t.kind matches TermKind::Apply(_, args) ==> (forall|i: int|
            0 <= i < args@.len() ==> self.exprs_accessed().contains(#[trigger] args@[i].id)))
    }

    /// Wrap a backend assignment with an empty inspection record.
    pub fn new(consistency: ModelConsistency, model: Model) -> (r: InstrumentedModel)
        ensures
            r.wf(),
            r.spec_consistency() == consistency,
            r.spec_model() == model,
            r.accessed().decl_names_seq() =~= Seq::<Seq<char>>::empty(),
            r.accessed().expr_ids_seq() =~= Seq::<u64>::empty(),
    {
        InstrumentedModel { consistency, model, accessed_decls: AccessedDecls::new() }
    }

    /// The consistency guarantee this assignment came with.
    pub fn consistency(&self) -> (r: ModelConsistency)
        ensures
            r == self.spec_consistency(),
    {
        self.consistency
    }

    /// Evaluate a boolean-valued term under this assignment, marking the term
    /// and (memoized) its subterms as visited. Absence of a value is an
    /// error, never defaulted.
    pub fn evaluate_boolean(&mut self, t: &Term) -> (r: Result<bool, SmtEvalError>)
        requires
            old(self).wf(),
        ensures
            final(self).marked(*old(self), *t),
            r == spec_eval_bool(old(self).spec_model(), *t),
    {
        let _ = self.accessed_decls.mark_expr(t);
        match &t.kind {
            TermKind::BoolLiteral(b) => Ok(*b),
            TermKind::IntLiteral(_) => Err(SmtEvalError::ParseError),
            _ => match self.model.value_of(t.id) {
                Some(v) => decode_bool(v),
                None => Err(SmtEvalError::EvalError),
            },
        }
    }

    /// Evaluate an integer-valued term under this assignment, with model
    /// completion: a term the assignment says nothing about is completed to
    /// zero. A value wider than the machine width arrives as text and fails
    /// to decode (the documented machine-width limitation).
    pub fn evaluate_integer(&mut self, t: &Term) -> (r: Result<ExactInt, SmtEvalError>)
        requires
            old(self).wf(),
        ensures
            final(self).marked(*old(self), *t),
            match spec_eval_int(old(self).spec_model(), *t) {
                Ok(n) => r matches Ok(e) && e.wf() && e.value() == n,
                Err(e) => r == Err::<ExactInt, SmtEvalError>(e),
            },
    {
        let _ = self.accessed_decls.mark_expr(t);
        match &t.kind {
            TermKind::IntLiteral(i) => Ok(ExactInt::from_machine_int(*i)),
            TermKind::BoolLiteral(_) => Err(SmtEvalError::ParseError),
            _ => match self.model.value_of(t.id) {
                Some(v) => decode_int(v),
                None => Ok(ExactInt::from_machine_int(0)),
            },
        }
    }

    /// Evaluate a rational-valued term under this assignment, marking as the
    /// other evaluations do. The backend's native numerator/denominator pair
    /// is preferred; a wider value arrives as text and goes through the
    /// strict textual fallback parser. Absence of a value is an error.
    pub fn evaluate_rational(&mut self, t: &Term) -> (r: Result<ExactRational, SmtEvalError>)
        requires
            old(self).wf(),
        ensures
            final(self).marked(*old(self), *t),
            match t.kind {
                TermKind::BoolLiteral(_) | TermKind::IntLiteral(_) => r == Err::<
                    ExactRational,
                    SmtEvalError,
                >(SmtEvalError::ParseError),
                _ => match old(self).spec_model().spec_value_of(t.id) {
                    Some(v) => {
                        if crate::extract::rational_decodable(v) {
                            r matches Ok(q) && crate::extract::rational_decodes_to(v, q)
                        } else {
                            r == Err::<ExactRational, SmtEvalError>(SmtEvalError::ParseError)
                        }
                    },
                    None => r == Err::<ExactRational, SmtEvalError>(SmtEvalError::EvalError),
                },
            },
    {
        let _ = self.accessed_decls.mark_expr(t);
        match &t.kind {
            TermKind::BoolLiteral(_) => Err(SmtEvalError::ParseError),
            TermKind::IntLiteral(_) => Err(SmtEvalError::ParseError),
            _ => match self.model.value_of(t.id) {
                Some(v) => decode_rational(v),
                None => Err(SmtEvalError::EvalError),
            },
        }
    }

    /// Run `f` on this assignment atomically with respect to the inspection
    /// record: if `f` fails, the record is rolled back to its state before
    /// the call, so a failed, partial evaluation never pollutes the visited
    /// accounting. The assignment itself is whatever `f` left behind.
    pub fn atomically<T, F: FnOnce(InstrumentedModel) -> (InstrumentedModel, Result<T, SmtEvalError>)>(
        self,
        f: F,
    ) -> (r: (InstrumentedModel, Result<T, SmtEvalError>))
        requires
            self.wf(),
            f.requires((self,)),
        ensures
            r.1 matches Err(_) ==> {
                &&& r.0.accessed().decl_names_seq() == self.accessed().decl_names_seq()
                &&& r.0.accessed().expr_ids_seq() == self.accessed().expr_ids_seq()
                &&& r.0.wf()
            },
            r.1 matches Ok(_) ==> f.ensures((self,), r),
            exists|m: InstrumentedModel|
                #[trigger] f.ensures((self,), (m, r.1)) && r.0.spec_model() == m.spec_model()
                    && r.0.spec_consistency() == m.spec_consistency(),
    {
        let snapshot = self.accessed_decls.duplicate();
        let ghost pre = self;
        let out = f(self);
        let ghost mid = out.0;
        let (mut m, res) = out;
        if res.is_err() {
            m.accessed_decls = snapshot;
        }
        let result = (m, res);
        proof {
            assert(f.ensures((pre,), (mid, res)));
            assert(f.ensures((pre,), (mid, result.1)) && result.0.spec_model()
                == mid.spec_model() && result.0.spec_consistency() == mid.spec_consistency());
        }
        result
    }

    /// The indices of every declaration of the assignment that no evaluation
    /// has visited, in the assignment's own order. Derived afresh from the
    /// current state on every call.
    pub fn iter_unaccessed(&self) -> (r: Vec<usize>)
        ensures
            forall|k: int|
                0 <= k < r@.len() ==> #[trigger] r@[k] < self.spec_model().decls@.len()
                    && !self.decls_accessed().contains(
                    self.spec_model().decls@[r@[k] as int].name@,
                ),
            forall|i: usize|
                i < self.spec_model().decls@.len() && !self.decls_accessed().contains(
                    self.spec_model().decls@[i as int].name@,
                ) ==> r@.contains(i),
            forall|a: int, b: int| 0 <= a < b < r@.len() ==> r@[a] < r@[b],
    {
        let mut r: Vec<usize> = Vec::new();
        let n = self.model.decls.len();
        let mut i: usize = 0;
        while i < n
            invariant
                n == self.spec_model().decls@.len(),
                i <= n,
                forall|k: int|
                    0 <= k < r@.len() ==> #[trigger] r@[k] < self.spec_model().decls@.len()
                        && !self.decls_accessed().contains(
                        self.spec_model().decls@[r@[k] as int].name@,
                    ),
                forall|j: usize|
                    j < i && !self.decls_accessed().contains(
                        self.spec_model().decls@[j as int].name@,
                    ) ==> r@.contains(j),
                forall|k: int| 0 <= k < r@.len() ==> #[trigger] r@[k] < i,
                forall|a: int, b: int| 0 <= a < b < r@.len() ==> r@[a] < r@[b],
            decreases n - i,
        {
            let ghost pre_r = r@;
            if !self.accessed_decls.is_func_decl_accessed(&self.model.decls[i].name) {
                r.push(i);
            }
            proof {
                assert forall|j: usize|
                    j < i + 1 && !self.decls_accessed().contains(
                        self.spec_model().decls@[j as int].name@,
                    ) implies r@.contains(j) by {
                    if j < i {
                        assert(pre_r.contains(j));
                        let k = choose|k: int| 0 <= k < pre_r.len() && pre_r[k] == j;
                        assert(r@[k] == j);
                    } else {
                        assert(r@[r@.len() - 1] == j);
                    }
                }
            }
            i = i + 1;
        }
        r
    }

    /// Forget the whole inspection record.
    pub fn reset_accessed(&mut self)
        ensures
            final(self).wf(),
            final(self).spec_model() == old(self).spec_model(),
            final(self).spec_consistency() == old(self).spec_consistency(),
            final(self).accessed().decl_names_seq() =~= Seq::<Seq<char>>::empty(),
            final(self).accessed().expr_ids_seq() =~= Seq::<u64>::empty(),
    {
        self.accessed_decls = AccessedDecls::new();
    }

    /// The interpretation the assignment carries for the declaration named
    /// `name`, marking that declaration as visited.
    pub fn get_func_interp(&mut self, name: &String) -> (r: Option<&FuncInterp>)
        requires
            old(self).wf(),
        ensures
            final(self).wf(),
            final(self).spec_model() == old(self).spec_model(),
            final(self).spec_consistency() == old(self).spec_consistency(),
            final(self).exprs_accessed() == old(self).exprs_accessed(),
            final(self).decls_accessed() =~= old(self).decls_accessed().insert(name@),
            match decl_interp(old(self).spec_model().decls@, name@) {
                Some(Some(fi)) => r matches Some(x) && *x == fi,
                _ => r is None,
            },
    {
        self.accessed_decls.mark_func_decl(name);
        let n = self.model.decls.len();
        let mut i: usize = 0;
        proof {
            assert(self.model.decls@.skip(0) =~= self.model.decls@);
        }
        while i < n
            invariant
                n == self.model.decls@.len(),
                i <= n,
                decl_interp(self.model.decls@, name@) == decl_interp(
                    self.model.decls@.skip(i as int),
                    name@,
                ),
                self.wf(),
                self.spec_model() == old(self).spec_model(),
                self.spec_consistency() == old(self).spec_consistency(),
                self.exprs_accessed() == old(self).exprs_accessed(),
                self.decls_accessed() =~= old(self).decls_accessed().insert(name@),
            decreases n - i,
        {
            proof {
                assert(self.model.decls@.skip(i as int).drop_first() =~= self.model.decls@.skip(
                    i + 1,
                ));
                assert(self.model.decls@.skip(i as int)[0] == self.model.decls@[i as int]);
            }
            if self.model.decls[i].name == *name {
                return match &self.model.decls[i].interp {
                    Some(fi) => Some(fi),
                    None => None,
                };
            }
            i = i + 1;
        }
        proof {
            assert(self.model.decls@.skip(i as int) =~= Seq::<Declaration>::empty());
        }
        None
    }

    /// Unwrap the underlying assignment, dropping the inspection record.
    pub fn into_model(self) -> (r: Model)
        ensures
            r == self.spec_model(),
    {
        self.model
    }
}

} // verus!
