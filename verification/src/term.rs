//! Terms of the backend's term algebra, as the oracle sees them.
//!
//! The oracle never interprets a term; it only references terms, negates
//! obligations, and walks a term's structure when recording which parts of a
//! counterexample were inspected. A [`Term`] therefore carries exactly what
//! that requires: the backend's identity for the node (`id`), its sort, and
//! its shape (a literal, a named constant, or an application with children).
//! Two occurrences of the same `id` stand for the same shared node of the
//! backend's term graph.

use vstd::prelude::*;

verus! {

broadcast use vstd::std_specs::vec::axiom_vec_index_decreases;

/// The sort of a term: the oracle works with boolean, integer and rational
/// valued terms.
#[derive(Debug, Clone, Copy, PartialEq, Eq, Structural)]
pub enum Sort {
    Bool,
    Int,
    Real,
}

/// The shape of a term node.
#[derive(Debug)]
pub enum TermKind {
    /// A boolean literal.
    BoolLiteral(bool),
    /// An integer literal.
    IntLiteral(i64),
    /// A named nullary symbol (a declaration of the problem).
    Constant(String),
    /// An application of the named operation to the argument terms.
    Apply(String, Vec<Term>),
}

/// One node of the backend's term graph. `id` is the backend's structural
/// identity for the node: equal ids stand for the same shared node.
#[derive(Debug)]
pub struct Term {
    pub id: u64,
    pub sort: Sort,
    pub kind: TermKind,
}

/// The structural identities of all proper descendants of `t` (children,
/// grandchildren, and so on; `t` itself is not included).
pub open spec fn descendant_ids(t: Term) -> Set<u64>
    decreases t, 0int,
{
    match t.kind {
        TermKind::Apply(_, args) => descendant_ids_upto(args, args.len() as int),
        _ => Set::empty(),
    }
}

/// The ids of the first `n` children of `args`, together with the ids of all
/// of their descendants.
pub open spec fn descendant_ids_upto(args: Vec<Term>, n: int) -> Set<u64>
    decreases args, n,
{
    if n <= 0 || n > args.len() {
        Set::empty()
    } else {
        descendant_ids_upto(args, n - 1).union(
            set![args[n - 1].id].union(descendant_ids(args[n - 1])),
        )
    }
}

/// The names of all constants occurring in `t`, `t` itself included: the
/// declarations an evaluation of `t` depends on.
pub open spec fn constant_names(t: Term) -> Set<Seq<char>>
    decreases t, 0int,
{
    match t.kind {
        TermKind::Constant(name) => set![name@],
        TermKind::Apply(_, args) => constant_names_upto(args, args.len() as int),
        _ => Set::empty(),
    }
}

/// The constant names of the first `n` children of `args`.
pub open spec fn constant_names_upto(args: Vec<Term>, n: int) -> Set<Seq<char>>
    decreases args, n,
{
    if n <= 0 || n > args.len() {
        Set::empty()
    } else {
        constant_names_upto(args, n - 1).union(constant_names(args[n - 1]))
    }
}

} // verus!
