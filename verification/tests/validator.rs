use lp_compiler::{check_valid, infix_to_postfix, tokenize, validate, InfixToken, Operator, ValidationError};

#[test]
fn malformed_probes_rejected_before_conversion() {
    // each probe must be rejected by the validator, so conversion yields None
    // tokens are whitespace-delimited, so the unbalanced probe is "( a":
    // the single word "(a" is one garbage token, hence a variable reference
    for probe in ["a +", "+ a", "( a", "a b", ")"] {
        let tokens = tokenize(probe);
        assert!(!check_valid(&tokens), "probe {:?} should be invalid", probe);
        assert!(infix_to_postfix(&tokens).is_none());
    }
}

#[test]
fn trailing_operator_reported() {
    assert_eq!(validate(&tokenize("a +")), Err(ValidationError::TrailingOperator));
}

#[test]
fn leading_operator_reported() {
    assert_eq!(validate(&tokenize("+ a")), Err(ValidationError::LeadingOperator));
}

#[test]
fn unbalanced_parens_reported() {
    assert_eq!(validate(&tokenize("( a")), Err(ValidationError::UnbalancedParens));
}

#[test]
fn adjacent_operands_reported() {
    assert_eq!(validate(&tokenize("a b")), Err(ValidationError::AdjacentOperands));
    assert_eq!(validate(&tokenize("3 4")), Err(ValidationError::AdjacentOperands));
    assert_eq!(validate(&tokenize("( a ) 4")), Err(ValidationError::AdjacentOperands));
}

#[test]
fn leading_close_paren_reported() {
    assert_eq!(validate(&tokenize(")")), Err(ValidationError::LeadingCloseParen));
}

#[test]
fn empty_expression_reported() {
    assert_eq!(validate(&tokenize("")), Err(ValidationError::EmptyExpression));
    assert_eq!(validate(&tokenize("   ")), Err(ValidationError::EmptyExpression));
}

#[test]
fn trailing_open_paren_reported() {
    assert_eq!(validate(&tokenize("a + (")), Err(ValidationError::TrailingOpenParen));
}

#[test]
fn misplaced_operator_reported() {
    assert_eq!(validate(&tokenize("a + + b")), Err(ValidationError::MisplacedOperator));
    assert_eq!(validate(&tokenize("( + a )")), Err(ValidationError::MisplacedOperator));
}

#[test]
fn misplaced_paren_reported() {
    assert_eq!(validate(&tokenize("a ( b )")), Err(ValidationError::MisplacedParen));
    assert_eq!(validate(&tokenize("( a + )")), Err(ValidationError::MisplacedParen));
    assert_eq!(validate(&tokenize("( )")), Err(ValidationError::MisplacedParen));
}

#[test]
fn depth_never_negative() {
    // balanced in total, but the running depth dips below zero
    assert_eq!(validate(&tokenize("a ) + ( b")), Err(ValidationError::UnbalancedParens));
}

#[test]
fn valid_expressions_accepted() {
    for good in ["a", "42", "a + b", "( a + b ) * 3", "10 + a - b", "a / 2"] {
        assert_eq!(validate(&tokenize(good)), Ok(()), "expected {:?} to validate", good);
        assert!(check_valid(&tokenize(good)));
    }
}

#[test]
fn tokenizer_is_total_on_garbage() {
    // garbage alphanumeric tokens become variable references
    let tokens = tokenize("foo12 $%& 99x");
    assert_eq!(
        tokens,
        vec![
            InfixToken::Variable("foo12".to_string()),
            InfixToken::Variable("$%&".to_string()),
            InfixToken::Variable("99x".to_string()),
        ]
    );
}

#[test]
fn tokenizer_classifies_symbols_and_numbers() {
    let tokens = tokenize("( a + -3 ) * b / 2");
    assert_eq!(
        tokens,
        vec![
            InfixToken::LeftParen,
            InfixToken::Variable("a".to_string()),
            InfixToken::Operator(Operator::Add),
            InfixToken::Operand(-3),
            InfixToken::RightParen,
            InfixToken::Operator(Operator::Mul),
            InfixToken::Variable("b".to_string()),
            InfixToken::Operator(Operator::Div),
            InfixToken::Operand(2),
        ]
    );
}

#[test]
fn tokenizer_integer_range_edges() {
    assert_eq!(
        tokenize("-9223372036854775808"),
        vec![InfixToken::Operand(i64::MIN)]
    );
    assert_eq!(
        tokenize("9223372036854775807"),
        vec![InfixToken::Operand(i64::MAX)]
    );
    // one past the range: not a parseable integer, so a variable reference
    assert_eq!(
        tokenize("9223372036854775808"),
        vec![InfixToken::Variable("9223372036854775808".to_string())]
    );
    assert_eq!(tokenize("+17"), vec![InfixToken::Operand(17)]);
}

#[test]
fn tokenizer_empty_input_yields_empty_sequence() {
    assert_eq!(tokenize(""), vec![]);
    assert_eq!(tokenize(" \t \n "), vec![]);
}
