//! Compilation pipeline for linear-programming expressions.
//!
//! Whitespace-tokenized infix strings over named decision variables are
//! tokenized, checked for structural well-formedness, rewritten to postfix
//! order by a two-tier shunting-yard pass, and evaluated by a stack machine
//! into linear expressions (one exact rational coefficient per declared
//! variable plus a constant).  A constraint compiler splits comparison
//! strings on their comparator and compiles both sides.  Every stage
//! reports malformed input as a typed error instead of panicking.

pub mod constraints;
pub mod convert;
pub mod eval;
pub mod linexpr;
pub mod registry;
pub mod tokens;
pub mod validate;

pub use constraints::{
    compile_constraint, compile_postfix_constraint, compile_side, create_constraints,
    parse_objective_expression, Comparator, CompileError, CompiledConstraint, ConstraintError,
    PostfixConstraint,
};
pub use convert::infix_to_postfix;
pub use eval::{create_expression, parse_postfix_expression, EvaluationError};
pub use linexpr::{rat_add, rat_div, rat_mul, rat_sub, rational_string, LinearExpression, Rational};
pub use registry::{
    create_variables, Constraint, Objective, UnoptimizedProblem, Variable, VariableBound,
    VariableRegistry,
};
pub use tokens::{tokenize, InfixToken, Operator, PostfixToken};
pub use validate::{check_valid, validate, ValidationError};
