use z3rro::extract::{SmtEvalError, SmtValue};
use z3rro::model::{
    AccessedDecls, Declaration, FuncEntry, FuncInterp, InstrumentedModel, Model, ModelConsistency,
};
use z3rro::numbers::{ExactInt, ExactRational};
use z3rro::term::{Sort, Term, TermKind};

fn constant(id: u64, sort: Sort, name: &str) -> Term {
    Term { id, sort, kind: TermKind::Constant(String::from(name)) }
}

fn apply(id: u64, sort: Sort, op: &str, args: Vec<Term>) -> Term {
    Term { id, sort, kind: TermKind::Apply(String::from(op), args) }
}

fn exact_int(negative: bool, digits: Vec<u8>) -> ExactInt {
    ExactInt { negative, digits }
}

fn simple_model() -> Model {
    Model {
        decls: vec![
            Declaration { name: String::from("x"), interp: None },
            Declaration { name: String::from("y"), interp: None },
        ],
        values: vec![
            (1, SmtValue::Bool(true)),
            (2, SmtValue::Int(42)),
            (3, SmtValue::Real(1, 3)),
        ],
    }
}

#[test]
fn boolean_evaluation_reads_the_assignment() {
    let mut m = InstrumentedModel::new(ModelConsistency::Consistent, simple_model());
    assert_eq!(m.consistency(), ModelConsistency::Consistent);
    let x = constant(1, Sort::Bool, "x");
    assert_eq!(m.evaluate_boolean(&x), Ok(true));
    // absence of a value is an error, not defaulted
    let z = constant(99, Sort::Bool, "z");
    assert_eq!(m.evaluate_boolean(&z), Err(SmtEvalError::EvalError));
    // a value of the wrong shape does not decode
    let y = constant(2, Sort::Bool, "y");
    assert_eq!(m.evaluate_boolean(&y), Err(SmtEvalError::ParseError));
}

#[test]
fn integer_evaluation_uses_model_completion() {
    let mut m = InstrumentedModel::new(ModelConsistency::Consistent, simple_model());
    let y = constant(2, Sort::Int, "y");
    assert_eq!(m.evaluate_integer(&y), Ok(exact_int(false, vec![4, 2])));
    // an unconstrained term is completed to zero rather than failing
    let fresh = constant(50, Sort::Int, "fresh");
    assert_eq!(m.evaluate_integer(&fresh), Ok(exact_int(false, vec![0])));
    // literals evaluate to themselves
    let lit = Term { id: 60, sort: Sort::Int, kind: TermKind::IntLiteral(-7) };
    assert_eq!(m.evaluate_integer(&lit), Ok(exact_int(true, vec![7])));
}

#[test]
fn rational_evaluation_is_exact() {
    // a satisfying assignment for x = 1/3 decodes to exactly one third
    let mut m = InstrumentedModel::new(ModelConsistency::Consistent, simple_model());
    let x = constant(3, Sort::Real, "r");
    let third = ExactRational {
        numer: exact_int(false, vec![1]),
        denom: exact_int(false, vec![3]),
    };
    assert_eq!(m.evaluate_rational(&x), Ok(third));
}

#[test]
fn rational_evaluation_falls_back_to_text() {
    let model = Model {
        decls: Vec::new(),
        values: vec![(5, SmtValue::Text(String::from("(/ 10.0 3.0)")))],
    };
    let mut m = InstrumentedModel::new(ModelConsistency::Consistent, model);
    let r = constant(5, Sort::Real, "r");
    let ten_thirds = ExactRational {
        numer: exact_int(false, vec![1, 0]),
        denom: exact_int(false, vec![3]),
    };
    assert_eq!(m.evaluate_rational(&r), Ok(ten_thirds));
}

#[test]
fn failed_evaluation_sequence_rolls_back_visited_sets() {
    // atomicity: a sequence that fails partway leaves the visited sets
    // exactly as they were before it started
    let m = InstrumentedModel::new(ModelConsistency::Consistent, simple_model());
    let (mut m, first) = m.atomically(|mut inner| {
        let r = inner.evaluate_boolean(&constant(1, Sort::Bool, "x"));
        (inner, r)
    });
    assert_eq!(first, Ok(true));
    // "x" is visited now; "y" is not
    assert_eq!(m.iter_unaccessed(), vec![1]);

    let (m, second) = m.atomically(|mut inner| {
        // visits "y" first, then fails on a term without a value
        let _ = inner.evaluate_integer(&constant(2, Sort::Int, "y"));
        match inner.evaluate_boolean(&constant(99, Sort::Bool, "z")) {
            Ok(v) => (inner, Ok(v)),
            Err(e) => (inner, Err(e)),
        }
    });
    assert_eq!(second, Err(SmtEvalError::EvalError));
    // the failed sequence left no mark: "y" still counts as unaccessed
    assert_eq!(m.iter_unaccessed(), vec![1]);
}

#[test]
fn successful_atomic_evaluation_keeps_its_marks() {
    let m = InstrumentedModel::new(ModelConsistency::Consistent, simple_model());
    let (m, r) = m.atomically(|mut inner| {
        let r = inner.evaluate_integer(&constant(2, Sort::Int, "y"));
        (inner, r)
    });
    assert_eq!(r, Ok(exact_int(false, vec![4, 2])));
    assert_eq!(m.iter_unaccessed(), vec![0]);
}

#[test]
fn shared_subterms_are_visited_once() {
    // dedup bound: the shared child graph has two distinct nodes but is
    // referenced three times; marking traverses at most the two nodes
    let mut acc = AccessedDecls::new();
    let shared = |leaf_id: u64, node_id: u64| {
        apply(node_id, Sort::Int, "f", vec![constant(leaf_id, Sort::Int, "v")])
    };
    let parent = apply(
        100,
        Sort::Int,
        "g",
        vec![shared(2, 1), shared(2, 1), shared(2, 1)],
    );
    let visits = acc.mark_expr(&parent);
    assert!(visits <= 2);
    // marking again traverses nothing new
    let again = acc.mark_expr(&parent);
    assert_eq!(again, 0);
}

#[test]
fn marking_records_constant_declarations() {
    let mut acc = AccessedDecls::new();
    let t = constant(1, Sort::Bool, "x");
    let visits = acc.mark_expr(&t);
    assert_eq!(visits, 0);
    assert!(acc.is_func_decl_accessed(&String::from("x")));
    assert!(!acc.is_func_decl_accessed(&String::from("y")));
}

#[test]
fn reset_accessed_forgets_everything() {
    let mut m = InstrumentedModel::new(ModelConsistency::Unknown, simple_model());
    assert_eq!(m.consistency(), ModelConsistency::Unknown);
    let _ = m.evaluate_boolean(&constant(1, Sort::Bool, "x"));
    let _ = m.evaluate_integer(&constant(2, Sort::Int, "y"));
    assert_eq!(m.iter_unaccessed(), Vec::<usize>::new());
    m.reset_accessed();
    assert_eq!(m.iter_unaccessed(), vec![0, 1]);
}

#[test]
fn func_interp_lookup_marks_the_declaration() {
    let interp = FuncInterp {
        entries: vec![FuncEntry { args: vec![SmtValue::Int(1)], value: SmtValue::Int(2) }],
        else_value: Some(SmtValue::Int(0)),
    };
    let model = Model {
        decls: vec![
            Declaration { name: String::from("f"), interp: Some(interp) },
            Declaration { name: String::from("g"), interp: None },
        ],
        values: Vec::new(),
    };
    let mut m = InstrumentedModel::new(ModelConsistency::Consistent, model);
    {
        let found = m.get_func_interp(&String::from("f"));
        let found = found.expect("f has an interpretation");
        assert_eq!(found.entries.len(), 1);
        assert_eq!(found.else_value, Some(SmtValue::Int(0)));
    }
    assert!(m.get_func_interp(&String::from("missing")).is_none());
    // "f" was visited; "g" was not; "missing" is not a declaration
    assert_eq!(m.iter_unaccessed(), vec![1]);
}

#[test]
fn into_model_returns_the_assignment() {
    let m = InstrumentedModel::new(ModelConsistency::Consistent, simple_model());
    let model = m.into_model();
    assert_eq!(model.decls.len(), 2);
    assert_eq!(model.values.len(), 3);
}
