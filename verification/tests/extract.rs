use z3rro::dispatch::{classify_solver_output, remove_lines_for_swine, SatResult};
use z3rro::extract::{
    decode_bool, decode_int, decode_rational, parse_rational_text, SmtEvalError, SmtValue,
};
use z3rro::numbers::{decimal_digits, ExactInt, ExactRational};
use z3rro::text::str_contains;

fn exact_int(negative: bool, digits: Vec<u8>) -> ExactInt {
    ExactInt { negative, digits }
}

#[test]
fn textual_fallback_decodes_ten_thirds() {
    // the textual fallback on "(/ 10.0 3.0)" is exactly ten thirds
    let r = parse_rational_text("(/ 10.0 3.0)").expect("well-formed rendering");
    assert_eq!(r.numer, exact_int(false, vec![1, 0]));
    assert_eq!(r.denom, exact_int(false, vec![3]));
}

#[test]
fn textual_fallback_decodes_one_third_exactly() {
    let r = parse_rational_text("(/ 1.0 3.0)").expect("well-formed rendering");
    assert_eq!(
        r,
        ExactRational { numer: exact_int(false, vec![1]), denom: exact_int(false, vec![3]) }
    );
}

#[test]
fn textual_fallback_handles_signs_and_width() {
    let r = parse_rational_text("(/ -123456789012345678901.0 4.0)").expect("well-formed");
    assert!(r.numer.negative);
    assert_eq!(r.numer.digits.len(), 21);
    assert_eq!(r.denom, exact_int(false, vec![4]));
    let r = parse_rational_text("(/ 1.0 -2.0)").expect("well-formed");
    assert!(!r.numer.negative);
    assert!(r.denom.negative);
}

#[test]
fn deviations_from_the_shape_fail_to_decode() {
    for text in [
        "",
        "10.0",
        "(/ 10.0 3.0",
        "(/ 10 3)",
        "(/ .0 3.0)",
        "(/ 10.0 .0)",
        "(/ 10.0 3.0) ",
        " (/ 10.0 3.0)",
        "(/ 10.0 3.1)",
        "(/ 10.0 3.0 4.0)",
        "(/ a.0 3.0)",
    ] {
        assert_eq!(
            parse_rational_text(text),
            Err(SmtEvalError::ParseError),
            "should reject {text:?}"
        );
    }
}

#[test]
fn zero_denominator_is_a_decode_failure() {
    assert_eq!(parse_rational_text("(/ 1.0 0.0)"), Err(SmtEvalError::ParseError));
    assert_eq!(
        decode_rational(&SmtValue::Real(1, 0)),
        Err(SmtEvalError::ParseError)
    );
}

#[test]
fn native_pair_decodes_exactly() {
    let r = decode_rational(&SmtValue::Real(-7, 2)).expect("native pair");
    assert_eq!(r.numer, exact_int(true, vec![7]));
    assert_eq!(r.denom, exact_int(false, vec![2]));
}

#[test]
fn boolean_decode_never_defaults() {
    assert_eq!(decode_bool(&SmtValue::Bool(false)), Ok(false));
    assert_eq!(decode_bool(&SmtValue::Bool(true)), Ok(true));
    assert_eq!(decode_bool(&SmtValue::Int(1)), Err(SmtEvalError::ParseError));
    assert_eq!(
        decode_bool(&SmtValue::Text(String::from("true"))),
        Err(SmtEvalError::ParseError)
    );
}

#[test]
fn integer_decode_is_machine_width_only() {
    assert_eq!(decode_int(&SmtValue::Int(42)), Ok(exact_int(false, vec![4, 2])));
    assert_eq!(decode_int(&SmtValue::Int(-1)), Ok(exact_int(true, vec![1])));
    // a value wider than the machine width arrives as text and fails here
    assert_eq!(
        decode_int(&SmtValue::Text(String::from("99999999999999999999"))),
        Err(SmtEvalError::ParseError)
    );
}

#[test]
fn decimal_digits_are_exact() {
    assert_eq!(decimal_digits(0), vec![0]);
    assert_eq!(decimal_digits(1234), vec![1, 2, 3, 4]);
    assert_eq!(decimal_digits(u64::MAX), vec![1, 8, 4, 4, 6, 7, 4, 4, 0, 7, 3, 7, 0, 9, 5, 5, 1, 6, 1, 5]);
}

#[test]
fn machine_int_conversion_handles_extremes() {
    let min = ExactInt::from_machine_int(i64::MIN);
    assert!(min.negative);
    assert_eq!(min.digits, vec![9, 2, 2, 3, 3, 7, 2, 0, 3, 6, 8, 5, 4, 7, 7, 5, 8, 0, 8]);
    let zero = ExactInt::from_machine_int(0);
    assert!(!zero.negative);
    assert_eq!(zero.digits, vec![0]);
}

#[test]
fn textual_fallback_agrees_with_arbitrary_precision_arithmetic() {
    let r = parse_rational_text("(/ 10.0 3.0)").expect("well-formed rendering");
    let mut numer_text = String::new();
    if r.numer.negative {
        numer_text.push('-');
    }
    for d in &r.numer.digits {
        numer_text.push((b'0' + d) as char);
    }
    let numer: num::BigInt = numer_text.parse().unwrap();
    let mut denom_text = String::new();
    for d in &r.denom.digits {
        denom_text.push((b'0' + d) as char);
    }
    let denom: num::BigInt = denom_text.parse().unwrap();
    let q = num::BigRational::new(numer, denom);
    assert_eq!(q, num::BigRational::new(10.into(), 3.into()));
    assert_ne!(q, num::BigRational::new(3333333.into(), 1000000.into()));
}

#[test]
fn output_classification_prefers_unsat() {
    assert_eq!(classify_solver_output("unsat\n"), SatResult::Unsat);
    assert_eq!(classify_solver_output("result: unsat"), SatResult::Unsat);
    assert_eq!(classify_solver_output("sat\n"), SatResult::Sat);
    assert_eq!(classify_solver_output("it is satisfiable"), SatResult::Sat);
    assert_eq!(classify_solver_output("no answer"), SatResult::Unknown);
    assert_eq!(classify_solver_output(""), SatResult::Unknown);
}

#[test]
fn swine_filter_drops_quantifiers_and_exp() {
    let input = "(set-logic ALL)\n(declare-fun exp (Int Int) Int)\n(assert (forall ((x Int)) (> x 0)))\n(check-sat)";
    let filtered = remove_lines_for_swine(input);
    assert_eq!(filtered, "(set-logic ALL)\n(check-sat)");
}

#[test]
fn swine_filter_keeps_everything_acceptable() {
    let input = "(declare-const x Int)(assert (> x 1))(check-sat)";
    assert_eq!(remove_lines_for_swine(input), input);
}

#[test]
fn swine_filter_drops_trailing_unbalanced_text() {
    assert_eq!(remove_lines_for_swine("(assert true) stray"), "(assert true)");
    assert_eq!(remove_lines_for_swine("no parens at all"), "");
}

#[test]
fn substring_search_is_exact() {
    assert!(str_contains("hello world", "o w"));
    assert!(str_contains("abc", ""));
    assert!(!str_contains("abc", "abcd"));
    assert!(!str_contains("forall", "exists"));
    assert!(str_contains("unsat", "sat"));
}
