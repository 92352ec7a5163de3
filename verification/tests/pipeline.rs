use lp_compiler::{
    create_constraints, create_expression, create_variables, parse_objective_expression,
    rational_string, Comparator, CompiledConstraint, Constraint, Objective, Rational,
    UnoptimizedProblem, Variable,
};

fn sample_problem(objective_expression: &str, c1: &str, c2: &str) -> UnoptimizedProblem {
    UnoptimizedProblem {
        variables: vec![
            ("a".to_string(), Variable { max: Some(1), min: None }),
            ("b".to_string(), Variable { max: Some(10), min: Some(2) }),
        ],
        objective: Objective {
            goal: "max".to_string(),
            expression: objective_expression.to_string(),
        },
        constraints: vec![
            Constraint { name: "flour".to_string(), expression: c1.to_string() },
            Constraint { name: "milk".to_string(), expression: c2.to_string() },
        ],
    }
}

/// Renders a compiled constraint the way the solver backend displays it:
/// everything moved to the smaller side, the constant on the right.
fn constraint_string(cc: &CompiledConstraint) -> String {
    let diff = match cc.cmp {
        Comparator::Ge | Comparator::Gt => cc.rhs.sub_expr(&cc.lhs).unwrap(),
        _ => cc.lhs.sub_expr(&cc.rhs).unwrap(),
    };
    let moved = Rational { num: -diff.constant.num, den: diff.constant.den };
    let op = match cc.cmp {
        Comparator::Eq => "==",
        _ => "<=",
    };
    format!("{} {} {}", diff.render_terms(), op, rational_string(moved))
}

#[test]
fn test_create_expression_simple() {
    let problem = sample_problem("10 + a - b", "3 + a >= b", "3 + a >= b");
    let registry = create_variables(problem.variables.clone());

    let parsed_expression = parse_objective_expression(&problem.objective.expression).unwrap();
    let expression = create_expression(&parsed_expression, &registry).unwrap();
    let string_expression = expression.render();
    let acceptable_expressions = ["v1 + -1 v0 + 10".to_string(), "-1 v1 + v0 + 10".to_string()];

    let matched = acceptable_expressions
        .iter()
        .any(|x| x == &string_expression);

    assert!(matched);
}

#[test]
fn test_create_constraint_simple() {
    let problem = sample_problem("a + ( -1 * b ) + 5", "3 + a >= b", "6 + a >= b");
    let registry = create_variables(problem.variables.clone());

    let parsed_expression = parse_objective_expression(&problem.objective.expression).unwrap();
    let expression = create_expression(&parsed_expression, &registry).unwrap();
    let string_expression = expression.render();

    let constraints = create_constraints(&problem.constraints, &registry).unwrap();
    assert_eq!(constraints.len(), 2);

    let mut expected_constraints =
        vec!["-1 v1 + v0 <= 3".to_string(), "-1 v1 + v0 <= 6".to_string()];
    let mut other_expected_constraints =
        vec!["v1 + -1 v0 <= 3".to_string(), "v1 + -1 v0 <= 6".to_string()];

    // sort the vectors so that we can compare them
    expected_constraints.sort();
    other_expected_constraints.sort();

    let acceptable_expressions_list = vec![
        expected_constraints.clone(),
        other_expected_constraints.clone(),
    ];

    let mut actual_constraints = constraints
        .iter()
        .map(constraint_string)
        .collect::<Vec<String>>();

    actual_constraints.sort();

    let mut matches = vec![];
    for acceptable_expressions in acceptable_expressions_list {
        let matched = acceptable_expressions
            .iter()
            .any(|x| actual_constraints.contains(x));
        matches.push(matched);
    }

    assert!(matches.iter().any(|x| x == &true));

    // must match one of the acceptable expressions
    let acceptable_expressions = [
        "-1 v1 + v0 + 5".to_string(),
        "v1 + -1 v0 + 5".to_string(),
        "-1 v1 + v0 + 5".to_string(),
    ];

    let matched = acceptable_expressions
        .iter()
        .any(|x| x == &string_expression);

    assert!(matched);
}

#[test]
fn test_create_expression() {
    let problem = sample_problem("a + ( -1 * b ) + 5", "3 + a >= b", "6 + a >= b");
    let registry = create_variables(problem.variables.clone());

    let parsed_expression = parse_objective_expression(&problem.objective.expression).unwrap();
    let expression = create_expression(&parsed_expression, &registry).unwrap();
    let string_expression = expression.render();

    // must match one of the acceptable expressions
    let acceptable_expressions = [
        "v1 + -1 v0 + 5".to_string(),
        "v0 + -1 v1 + 5".to_string(),
        "-1 v1 + v0 + 5".to_string(),
    ];

    let matched = acceptable_expressions
        .iter()
        .any(|x| x == &string_expression);

    assert!(matched);
}
