use lp_compiler::{
    compile_constraint, compile_postfix_constraint, create_constraints, create_variables,
    Comparator, CompileError, Constraint, ConstraintError, EvaluationError, PostfixConstraint,
    Rational, Variable, VariableRegistry,
};

fn registry_ab() -> VariableRegistry {
    create_variables(vec![
        ("a".to_string(), Variable { max: Some(1), min: None }),
        ("b".to_string(), Variable { max: Some(10), min: Some(2) }),
    ])
}

fn rat(num: i64, den: i64) -> Rational {
    Rational { num, den }
}

#[test]
fn constraint_scenario_sides_and_comparator() {
    // "3 + a >= b" compiles to lhs = 1*a + 3, rhs = 1*b, comparator >=
    let cc = compile_constraint("3 + a >= b", &registry_ab()).unwrap();
    assert_eq!(cc.cmp, Comparator::Ge);
    assert_eq!(cc.lhs.coeffs, vec![rat(1, 1), rat(0, 1)]);
    assert_eq!(cc.lhs.constant, rat(3, 1));
    assert_eq!(cc.rhs.coeffs, vec![rat(0, 1), rat(1, 1)]);
    assert_eq!(cc.rhs.constant, rat(0, 1));
}

#[test]
fn missing_comparator_reported() {
    assert_eq!(
        compile_constraint("3 + a b", &registry_ab()),
        Err(CompileError::Constraint(ConstraintError::MissingComparator))
    );
}

#[test]
fn ambiguous_comparator_reported() {
    assert_eq!(
        compile_constraint("a <= b <= 3", &registry_ab()),
        Err(CompileError::Constraint(ConstraintError::AmbiguousComparator))
    );
}

#[test]
fn two_character_comparators_matched_first() {
    // "<=" must not be misread as "<" followed by a stray "="
    let cc = compile_constraint("a <= b", &registry_ab()).unwrap();
    assert_eq!(cc.cmp, Comparator::Le);
    let cc = compile_constraint("a == b", &registry_ab()).unwrap();
    assert_eq!(cc.cmp, Comparator::Eq);
    let cc = compile_constraint("a < b", &registry_ab()).unwrap();
    assert_eq!(cc.cmp, Comparator::Lt);
    let cc = compile_constraint("a > b", &registry_ab()).unwrap();
    assert_eq!(cc.cmp, Comparator::Gt);
}

#[test]
fn invalid_side_surfaces_validation_error() {
    let r = compile_constraint("a + >= b", &registry_ab());
    assert!(matches!(r, Err(CompileError::Validation(_))), "got {:?}", r);
}

#[test]
fn unknown_variable_in_side_surfaces_evaluation_error() {
    assert_eq!(
        compile_constraint("a >= q", &registry_ab()),
        Err(CompileError::Evaluation(EvaluationError::UnknownVariable(
            "q".to_string()
        )))
    );
}

#[test]
fn constraint_list_is_compiled_in_order() {
    let constraints = vec![
        Constraint { name: "first".to_string(), expression: "3 + a >= b".to_string() },
        Constraint { name: "second".to_string(), expression: "a + b <= 10".to_string() },
    ];
    let ccs = create_constraints(&constraints, &registry_ab()).unwrap();
    assert_eq!(ccs.len(), 2);
    assert_eq!(ccs[0].cmp, Comparator::Ge);
    assert_eq!(ccs[1].cmp, Comparator::Le);
    assert_eq!(ccs[1].lhs.coeffs, vec![rat(1, 1), rat(1, 1)]);
}

#[test]
fn constraint_list_stops_at_first_failure() {
    let constraints = vec![
        Constraint { name: "ok".to_string(), expression: "a <= b".to_string() },
        Constraint { name: "bad".to_string(), expression: "a b".to_string() },
    ];
    assert_eq!(
        create_constraints(&constraints, &registry_ab()),
        Err(CompileError::Constraint(ConstraintError::MissingComparator))
    );
}

#[test]
fn postfix_dialect_compiles_against_registry() {
    let pc = PostfixConstraint {
        expr: "a 2 * b -".to_string(),
        kind: "leq".to_string(),
        lhs: "a".to_string(),
        rhs: "b".to_string(),
    };
    let cc = compile_postfix_constraint(&pc, &registry_ab()).unwrap();
    assert_eq!(cc.cmp, Comparator::Le);
    assert_eq!(cc.lhs.coeffs, vec![rat(2, 1), rat(-1, 1)]);
    assert_eq!(cc.lhs.constant, rat(0, 1));
    assert_eq!(cc.rhs.coeffs, vec![rat(0, 1), rat(0, 1)]);
    assert_eq!(cc.rhs.constant, rat(0, 1));
}

#[test]
fn postfix_dialect_kind_fallback_is_equality() {
    let pc = PostfixConstraint {
        expr: "a b -".to_string(),
        kind: "whatever".to_string(),
        lhs: "a".to_string(),
        rhs: "b".to_string(),
    };
    let cc = compile_postfix_constraint(&pc, &registry_ab()).unwrap();
    assert_eq!(cc.cmp, Comparator::Eq);
    let pc = PostfixConstraint {
        expr: "a b -".to_string(),
        kind: "geq".to_string(),
        lhs: "a".to_string(),
        rhs: "b".to_string(),
    };
    assert_eq!(compile_postfix_constraint(&pc, &registry_ab()).unwrap().cmp, Comparator::Ge);
}

#[test]
fn postfix_dialect_rejects_undeclared_names() {
    let pc = PostfixConstraint {
        expr: "a b -".to_string(),
        kind: "leq".to_string(),
        lhs: "nope".to_string(),
        rhs: "b".to_string(),
    };
    assert_eq!(
        compile_postfix_constraint(&pc, &registry_ab()),
        Err(CompileError::Evaluation(EvaluationError::UnknownVariable(
            "nope".to_string()
        )))
    );
}
