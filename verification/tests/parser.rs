use scoresynth::error::ParseError;
use scoresynth::samplegen::Params;
use scoresynth::waveform::parse::{parse_single, Expression, Parser, Token, Tokeniser};
use scoresynth::waveform::Waveform;

const S: i64 = 1_000_000;

fn eval(formula: &str, p: &Params) -> Option<i64> {
    let w = Waveform::new(formula.to_string()).expect("formula should parse");
    w.get_sample(p)
}

fn eval_empty(formula: &str) -> i64 {
    eval(formula, &Params::new()).expect("formula should evaluate")
}

#[test]
fn literal_value() {
    assert_eq!(eval_empty("42"), 42 * S);
}

#[test]
fn decimal_literal_value() {
    assert_eq!(eval_empty("1.5"), 1_500_000);
    assert_eq!(eval_empty("0.1"), 100_000);
    assert_eq!(eval_empty("2."), 2 * S);
}

#[test]
fn precedence_mul_binds_tighter_right() {
    assert_eq!(eval_empty("1 + 2 * 3"), 7 * S);
}

#[test]
fn precedence_mul_binds_tighter_left() {
    assert_eq!(eval_empty("2 * 3 + 1"), 7 * S);
}

#[test]
fn precedence_parentheses_group() {
    assert_eq!(eval_empty("(1 + 2) * 3"), 9 * S);
}

#[test]
fn precedence_left_associative_sub() {
    assert_eq!(eval_empty("10 - 4 - 3"), 3 * S);
}

#[test]
fn division_and_modulo() {
    assert_eq!(eval_empty("7 / 2"), 3_500_000);
    assert_eq!(eval_empty("7 % 3"), S);
}

#[test]
fn division_by_zero_is_deterministic_zero() {
    assert_eq!(eval_empty("1 / 0"), 0);
    assert_eq!(eval_empty("1 % 0"), 0);
}

#[test]
fn unary_functions() {
    assert_eq!(eval_empty("abs(0 - 2)"), 2 * S);
    assert_eq!(eval_empty("sgn(0 - 5)"), -S);
    assert_eq!(eval_empty("sgn(4)"), S);
    assert_eq!(eval_empty("-3"), -3 * S);
}

#[test]
fn unary_binds_tighter_than_infix() {
    // negate takes only its immediate operand: (-2) * 3
    assert_eq!(eval_empty("-2 * 3"), -6 * S);
}

#[test]
fn sine_crest_is_exact() {
    // the engine's sine is exact at the crest of its half cycle
    assert_eq!(eval_empty("sin(0.5)"), S);
    assert_eq!(eval_empty("sin(0)"), 0);
    assert_eq!(eval_empty("sin(1)"), 0);
    assert_eq!(eval_empty("cos(0)"), S);
}

#[test]
fn sine_is_antiperiodic() {
    assert_eq!(eval_empty("sin(1.25)"), -eval_empty("sin(0.25)"));
    assert_eq!(eval_empty("sin(0 - 0.5)"), -S);
    assert_eq!(eval_empty("cos(1)"), -S);
}

#[test]
fn comments_and_whitespace_are_trivia() {
    assert_eq!(eval_empty("1 + 2 # trailing note"), 3 * S);
    assert_eq!(eval_empty("  1\t+\n2  "), 3 * S);
}

#[test]
fn identifier_round_trip() {
    let mut p = Params::new();
    p.insert("x".to_string(), 123_456);
    assert_eq!(eval("x", &p), Some(123_456));
}

#[test]
fn identifier_round_trip_negative() {
    let mut p = Params::new();
    p.insert("x".to_string(), -S);
    assert_eq!(eval("x", &p), Some(-S));
}

#[test]
fn later_binding_shadows_earlier() {
    let mut p = Params::new();
    p.insert("x".to_string(), 1);
    p.insert("x".to_string(), 2);
    assert_eq!(eval("x", &p), Some(2));
}

#[test]
fn unbound_identifier_yields_no_sample() {
    assert_eq!(eval("y", &Params::new()), None);
}

#[test]
fn incomplete_inputs() {
    assert_eq!(parse_single("").unwrap_err(), ParseError::Incomplete);
    assert_eq!(parse_single("1 +").unwrap_err(), ParseError::Incomplete);
    assert_eq!(parse_single("(1").unwrap_err(), ParseError::Incomplete);
}

#[test]
fn unexpected_inputs() {
    assert_eq!(parse_single(")").unwrap_err(), ParseError::Unexpected);
    assert_eq!(parse_single("1 + $").unwrap_err(), ParseError::Unexpected);
    assert_eq!(parse_single("1.2.3").unwrap_err(), ParseError::Unexpected);
}

#[test]
fn modulation_sample_remaps_to_unit_range() {
    let w = Waveform::new("1".to_string()).unwrap();
    assert_eq!(w.get_mod_sample(&Params::new()), Some(S));
    let w = Waveform::new("0 - 1".to_string()).unwrap();
    assert_eq!(w.get_mod_sample(&Params::new()), Some(0));
    let w = Waveform::new("0".to_string()).unwrap();
    assert_eq!(w.get_mod_sample(&Params::new()), Some(S / 2));
}

#[test]
fn tokeniser_and_parser_stream_interface() {
    let t = Tokeniser::new_from_str("1 + 2 * 3");
    let mut p = Parser::new(t);
    let e = p.single_expression().unwrap();
    // the stream is fully consumed: nothing binds any more
    assert!(!p.next_binds_tighter_than(0));
    match e {
        Expression::Infix(_, op, _) => assert_eq!(format!("{op:?}"), "Add"),
        other => panic!("expected an infix root, got {other:?}"),
    }
    // a fresh parser can expect individual lexemes
    let t2 = Tokeniser::new_from_str("( 1");
    let mut p2 = Parser::new(t2);
    assert!(p2.expect(Token::OpenBracket).is_ok());
    assert!(p2.expect(Token::CloseBracket).is_err());
}
