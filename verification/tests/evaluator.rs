use lp_compiler::{
    create_expression, create_variables, infix_to_postfix, parse_objective_expression,
    parse_postfix_expression, tokenize, EvaluationError, PostfixToken, Rational, Variable,
    VariableBound, VariableRegistry,
};

fn registry_ab() -> VariableRegistry {
    create_variables(vec![
        ("a".to_string(), Variable { max: Some(1), min: None }),
        ("b".to_string(), Variable { max: Some(10), min: Some(2) }),
    ])
}

fn rat(num: i64, den: i64) -> Rational {
    Rational { num, den }
}

fn eval_infix(s: &str) -> Result<lp_compiler::LinearExpression, EvaluationError> {
    let postfix = infix_to_postfix(&tokenize(s)).unwrap();
    parse_postfix_expression(&postfix, &registry_ab())
}

#[test]
fn left_associative_chain() {
    // "a - b + c" folds as "(a - b) + c": postfix "a b - c +"
    let registry = create_variables(vec![
        ("a".to_string(), Variable { max: None, min: None }),
        ("b".to_string(), Variable { max: None, min: None }),
        ("c".to_string(), Variable { max: None, min: None }),
    ]);
    let postfix = infix_to_postfix(&tokenize("a - b + c")).unwrap();
    let rendered: Vec<String> = postfix.iter().map(|t| t.to_string()).collect();
    assert_eq!(rendered, vec!["a", "b", "-", "c", "+"]);
    let e = parse_postfix_expression(&postfix, &registry).unwrap();
    assert_eq!(e.coeffs, vec![rat(1, 1), rat(-1, 1), rat(1, 1)]);
    assert_eq!(e.constant, rat(0, 1));
}

#[test]
fn multiplication_of_two_variables_is_nonlinear() {
    assert_eq!(eval_infix("a * b"), Err(EvaluationError::NonlinearTerm));
}

#[test]
fn multiplication_by_constant_scales() {
    let e = eval_infix("a * 3").unwrap();
    assert_eq!(e.coeffs, vec![rat(3, 1), rat(0, 1)]);
    assert_eq!(e.constant, rat(0, 1));
}

#[test]
fn objective_scenario_coefficients() {
    // objective "10 + a - b" with a (max 1), b (min 2, max 10)
    let registry = registry_ab();
    let parsed = parse_objective_expression("10 + a - b").unwrap();
    assert_eq!(parsed, "10 a + b -");
    let e = create_expression(&parsed, &registry).unwrap();
    assert_eq!(e.coeffs, vec![rat(1, 1), rat(-1, 1)]);
    assert_eq!(e.constant, rat(10, 1));
}

#[test]
fn division_by_constant_scales_exactly() {
    // results are exact, unnormalized rationals
    let e = eval_infix("a / 2").unwrap();
    assert_eq!(e.coeffs, vec![rat(1, 2), rat(0, 2)]);
    assert_eq!(e.constant, rat(0, 2));
}

#[test]
fn division_by_zero_reported() {
    assert_eq!(eval_infix("a / 0"), Err(EvaluationError::DivisionByZero));
}

#[test]
fn unknown_variable_reported() {
    assert_eq!(
        eval_infix("a + zzz"),
        Err(EvaluationError::UnknownVariable("zzz".to_string()))
    );
}

#[test]
fn stack_underflow_reported() {
    // a postfix sequence handed in directly, with too few operands
    let registry = registry_ab();
    assert_eq!(
        create_expression("1 +", &registry),
        Err(EvaluationError::StackUnderflow)
    );
    assert_eq!(
        create_expression("", &registry),
        Err(EvaluationError::StackUnderflow)
    );
}

#[test]
fn extra_stack_residue_reported() {
    let registry = registry_ab();
    assert_eq!(
        create_expression("1 2", &registry),
        Err(EvaluationError::ExtraStackResidue)
    );
}

#[test]
fn paren_in_postfix_string_reported() {
    let registry = registry_ab();
    assert_eq!(
        create_expression("( 3", &registry),
        Err(EvaluationError::MalformedNumericLiteral)
    );
}

#[test]
fn overflow_reported_not_wrapped() {
    assert_eq!(
        eval_infix("9223372036854775807 + 1"),
        Err(EvaluationError::NumericOverflow)
    );
}

#[test]
fn postfix_rendering_round_trips() {
    // re-tokenizing the canonical postfix rendering and re-evaluating
    // yields the expression of the original evaluation
    let registry = registry_ab();
    for src in ["a + ( -1 * b ) + 5", "10 + a - b", "( a + b ) * 3 - 4 / 2"] {
        let postfix = infix_to_postfix(&tokenize(src)).unwrap();
        let direct = parse_postfix_expression(&postfix, &registry).unwrap();
        let rendered = parse_objective_expression(src).unwrap();
        let again = create_expression(&rendered, &registry).unwrap();
        assert_eq!(direct, again, "round trip differs for {:?}", src);
    }
}

#[test]
fn render_shows_fractional_coefficients() {
    let e = eval_infix("a / 2 + b").unwrap();
    assert_eq!(e.render(), "v1 + 1/2 v0");
    assert_eq!(e.render_terms(), "v1 + 1/2 v0");
    let c = eval_infix("7 - 2").unwrap();
    assert_eq!(c.render(), "5");
    assert_eq!(c.render_terms(), "0");
}

#[test]
fn invalid_objective_reports_validation_error() {
    let r = parse_objective_expression("a + ");
    assert_eq!(
        r,
        Err(lp_compiler::CompileError::Validation(
            lp_compiler::ValidationError::TrailingOperator
        ))
    );
}

#[test]
fn postfix_token_strings() {
    assert_eq!(PostfixToken::Operand(-17).to_string(), "-17");
    assert_eq!(PostfixToken::Operand(0).to_string(), "0");
    assert_eq!(
        PostfixToken::Variable("price".to_string()).to_string(),
        "price"
    );
}

#[test]
fn bound_selection_prefers_declared_minimum() {
    // when both bounds are declared, only the lower one is forwarded
    let registry = registry_ab();
    assert_eq!(registry.forwarded_bound(0), VariableBound::Upper(1));
    assert_eq!(registry.forwarded_bound(1), VariableBound::Lower(2));
    let free = create_variables(vec![("x".to_string(), Variable { max: None, min: None })]);
    assert_eq!(free.forwarded_bound(0), VariableBound::Free);
}

#[test]
fn registry_handles_are_insertion_ordered() {
    let registry = registry_ab();
    assert_eq!(registry.lookup(&"a".to_string()), Some(0));
    assert_eq!(registry.lookup(&"b".to_string()), Some(1));
    assert_eq!(registry.lookup(&"missing".to_string()), None);
}

#[test]
fn rational_arithmetic_is_exact() {
    assert_eq!(rat_addition(rat(1, 2), rat(1, 3)), rat(5, 6));
    assert_eq!(lp_compiler::rat_mul(rat(2, 3), rat(3, 4)), Some(rat(6, 12)));
    assert_eq!(lp_compiler::rat_div(rat(1, 2), rat(-2, 1)), Some(rat(-1, 4)));
    assert_eq!(lp_compiler::rat_add(rat(i64::MAX, 1), rat(1, 1)), None);
}

fn rat_addition(a: Rational, b: Rational) -> Rational {
    lp_compiler::rat_add(a, b).unwrap()
}
