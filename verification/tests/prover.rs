use z3rro::dispatch::{ReasonUnknown, SatOutcome};
use z3rro::model::{Declaration, Model};
use z3rro::prover::{Assertion, CheckStep, ProveResult, Prover, SolverType};
use z3rro::term::{Sort, Term, TermKind};

fn bool_lit(id: u64, b: bool) -> Term {
    Term { id, sort: Sort::Bool, kind: TermKind::BoolLiteral(b) }
}

fn empty_model() -> Model {
    Model { decls: Vec::new(), values: Vec::new() }
}

fn is_vacuous_proof(step: CheckStep) -> bool {
    matches!(step, CheckStep::Verdict(ProveResult::Proof))
}

#[test]
fn test_prover() {
    let mut prover = Prover::new(SolverType::Z3);
    assert!(is_vacuous_proof(prover.check_proof()));

    prover.push();
    prover.add_assumption(bool_lit(1, true));
    assert!(is_vacuous_proof(prover.check_proof()));
    prover.pop();

    assert!(is_vacuous_proof(prover.check_proof()));
}

#[test]
fn vacuous_proof_with_one_true_assumption() {
    // an oracle with one assumption `true` proves vacuously
    let mut prover = Prover::new(SolverType::Z3);
    prover.add_assumption(bool_lit(1, true));
    assert!(is_vacuous_proof(prover.check_proof()));
}

#[test]
fn vacuous_proof_with_many_assumptions() {
    let mut prover = Prover::new(SolverType::Z3);
    for id in 0..20u64 {
        prover.add_assumption(bool_lit(id, id % 2 == 0));
    }
    assert!(is_vacuous_proof(prover.check_proof()));
    let extra = vec![bool_lit(100, true)];
    assert!(is_vacuous_proof(prover.check_proof_assuming(&extra)));
}

#[test]
fn obligation_false_yields_counterexample() {
    // one obligation `false`: the backend finds the negation
    // satisfiable and the trivial witness evaluates `false` to false.
    let mut prover = Prover::new(SolverType::Z3);
    prover.add_provable(bool_lit(7, false));
    assert!(matches!(prover.check_proof(), CheckStep::QueryPrimary));
    let verdict = prover.resolve_backend_outcome(SatOutcome::Sat(empty_model()));
    match verdict {
        ProveResult::Counterexample(mut model) => {
            let value = model.evaluate_boolean(&bool_lit(7, false));
            assert_eq!(value, Ok(false));
        }
        _ => panic!("expected a counterexample"),
    }
}

#[test]
fn popped_scope_discards_obligation() {
    // an obligation added inside a scope is discarded with it
    let mut prover = Prover::new(SolverType::Z3);
    prover.push();
    prover.add_provable(bool_lit(3, false));
    assert!(matches!(prover.check_proof(), CheckStep::QueryPrimary));
    prover.pop();
    assert!(is_vacuous_proof(prover.check_proof()));
}

#[test]
fn level_restored_by_matched_push_pop() {
    let mut prover = Prover::new(SolverType::SWINE);
    assert_eq!(prover.level(), 0);
    prover.push();
    assert_eq!(prover.level(), 1);
    prover.push();
    prover.add_assumption(bool_lit(1, true));
    assert_eq!(prover.level(), 2);
    prover.pop();
    assert_eq!(prover.level(), 1);
    prover.pop();
    assert_eq!(prover.level(), 0);
}

#[test]
fn obligation_in_outer_scope_survives_inner_pop() {
    let mut prover = Prover::new(SolverType::Z3);
    prover.add_provable(bool_lit(1, false));
    prover.push();
    prover.pop();
    assert!(matches!(prover.check_proof(), CheckStep::QueryPrimary));
}

#[test]
fn unsat_outcome_is_proof_and_core_is_stored() {
    let mut prover = Prover::new(SolverType::Z3);
    prover.add_provable(bool_lit(1, true));
    let core = vec![bool_lit(1, true)];
    let verdict = prover.resolve_backend_outcome(SatOutcome::Unsat(core));
    assert!(matches!(verdict, ProveResult::Proof));
    assert_eq!(prover.get_unsat_core().len(), 1);
    assert!(prover.get_reason_unknown().is_none());
}

#[test]
fn unknown_outcome_keeps_its_reason() {
    let mut prover = Prover::new(SolverType::Z3);
    prover.add_provable(bool_lit(1, true));
    let verdict = prover.resolve_backend_outcome(SatOutcome::Unknown(ReasonUnknown::Timeout));
    match verdict {
        ProveResult::Unknown(reason) => assert_eq!(reason.message(), "timeout"),
        _ => panic!("expected an unknown verdict"),
    }
    let stored = prover.get_reason_unknown().expect("reason should be stored");
    assert_eq!(stored.message(), "timeout");
}

#[test]
fn secondary_output_unsat_is_proof() {
    let mut prover = Prover::new(SolverType::SWINE);
    prover.add_provable(bool_lit(1, true));
    assert!(matches!(prover.check_proof(), CheckStep::QuerySecondary));
    let verdict = prover.resolve_secondary_output("unsat\n");
    assert!(matches!(verdict, ProveResult::Proof));
}

#[test]
fn secondary_output_sat_has_no_model_path() {
    let mut prover = Prover::new(SolverType::SWINE);
    let verdict = prover.resolve_secondary_output("sat\n");
    match verdict {
        ProveResult::Unknown(reason) => {
            assert_eq!(
                reason.message(),
                "secondary backend reported sat but offers no model"
            );
        }
        _ => panic!("expected an unknown verdict"),
    }
}

#[test]
fn secondary_output_garbage_is_unknown() {
    let mut prover = Prover::new(SolverType::SWINE);
    let verdict = prover.resolve_secondary_output("segmentation fault");
    match verdict {
        ProveResult::Unknown(reason) => assert_eq!(reason.message(), "unknown"),
        _ => panic!("expected an unknown verdict"),
    }
}

#[test]
fn exists_forall_oracle_is_independent_and_vacuous() {
    let mut prover = Prover::new(SolverType::SWINE);
    prover.add_assumption(bool_lit(1, true));
    prover.add_provable(bool_lit(2, false));
    let universal = vec![String::from("x"), String::from("y")];
    let derived = prover.to_exists_forall(universal);
    assert_eq!(derived.level(), 0);
    assert_eq!(derived.assertions().len(), 1);
    match &derived.assertions()[0] {
        Assertion::ForallNegated(vars, inner) => {
            assert_eq!(vars.len(), 2);
            assert_eq!(vars[0], "x");
            assert_eq!(inner.len(), 2);
            assert!(matches!(inner[0], Assertion::Assumed(_)));
            assert!(matches!(inner[1], Assertion::Negated(_)));
        }
        _ => panic!("expected the exists-forall theorem"),
    }
    // the derived oracle has no obligation of its own
    assert!(is_vacuous_proof(derived.check_proof()));
    // the parent is untouched
    assert_eq!(prover.level(), 0);
    assert!(matches!(prover.check_proof(), CheckStep::QuerySecondary));
}

#[test]
fn timeout_is_stored_for_the_session() {
    let mut prover = Prover::new(SolverType::Z3);
    assert_eq!(prover.timeout(), None);
    prover.set_timeout(2500);
    assert_eq!(prover.timeout(), Some(2500));
}

#[test]
fn verdicts_render_one_line() {
    assert_eq!(ProveResult::Proof.display_string(), "Proof");
    let mut prover = Prover::new(SolverType::Z3);
    prover.add_provable(bool_lit(1, false));
    let cx = prover.resolve_backend_outcome(SatOutcome::Sat(empty_model()));
    assert_eq!(cx.display_string(), "Counterexample");
    let unknown = ProveResult::Unknown(ReasonUnknown::Timeout);
    assert_eq!(unknown.display_string(), "Unknown (reason: timeout)");
    let other = ProveResult::Unknown(ReasonUnknown::Other(String::from("canceled")));
    assert_eq!(other.display_string(), "Unknown (reason: canceled)");
}

#[test]
fn declarations_pass_through_counterexample() {
    let mut prover = Prover::new(SolverType::Z3);
    prover.add_provable(bool_lit(9, false));
    let model = Model {
        decls: vec![Declaration { name: String::from("x"), interp: None }],
        values: Vec::new(),
    };
    let verdict = prover.resolve_backend_outcome(SatOutcome::Sat(model));
    match verdict {
        ProveResult::Counterexample(model) => {
            assert_eq!(model.iter_unaccessed(), vec![0]);
        }
        _ => panic!("expected a counterexample"),
    }
}
