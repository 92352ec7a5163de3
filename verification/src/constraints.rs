//! Constraint compilation: comparator splitting and the full pipeline
//! from expression strings to compiled constraints.
//!
//! A named constraint holds one infix expression string with exactly one
//! comparator; the string is split at the first comparator (two-character
//! comparators matched before one-character ones) and each side runs
//! through tokenizer, validator, converter, and evaluator.  A second,
//! postfix dialect gives a postfix expression, a type tag, and the two
//! variable names it relates.

use crate::convert::{infix_to_postfix, spec_infix_to_postfix};
use crate::eval::{
    parse_postfix_expression, spec_create_expression, spec_eval, create_expression,
    EvalErrModel, EvaluationError,
};
use crate::linexpr::{const_model, lin_wf, LinModel, LinearExpression};
use crate::registry::{idx_of, Constraint, VariableRegistry};
use crate::tokens::{
    chars_of, render_postfix, spec_render_postfix, spec_tokenize, string_of_chars, tokenize,
    view_tokens,
};
use crate::validate::{spec_validate, validate, ValidationError};
use vstd::prelude::*;
use vstd::string::StringExecFns;

verus! {

/// Comparison operator of a constraint.
#[derive(Clone, Copy, Debug, PartialEq, Eq, Structural)]
pub enum Comparator {
    Le,
    Ge,
    Eq,
    Lt,
    Gt,
}

/// Why comparator extraction from a constraint string fails.
#[derive(Clone, Copy, Debug, PartialEq, Eq, Structural)]
pub enum ConstraintError {
    /// The expression string holds no comparator.
    MissingComparator,
    /// The expression string holds more than one comparator.
    AmbiguousComparator,
}

/// Any failure while compiling an expression or constraint.
#[derive(Clone, Debug, PartialEq, Eq)]
pub enum CompileError {
    Validation(ValidationError),
    Evaluation(EvaluationError),
    Constraint(ConstraintError),
}

/// Mathematical model of a compilation failure.
pub ghost enum CompileErrModel {
    Validation(ValidationError),
    Evaluation(EvalErrModel),
    Constraint(ConstraintError),
}

impl View for CompileError {
    type V = CompileErrModel;

    open spec fn view(&self) -> CompileErrModel {
        match self {
            CompileError::Validation(e) => CompileErrModel::Validation(*e),
            CompileError::Evaluation(e) => CompileErrModel::Evaluation(e@),
            CompileError::Constraint(e) => CompileErrModel::Constraint(*e),
        }
    }
}

/// One compiled constraint: two linear expressions and the comparator
/// between them.
#[derive(Clone, Debug, PartialEq)]
pub struct CompiledConstraint {
    pub lhs: LinearExpression,
    pub cmp: Comparator,
    pub rhs: LinearExpression,
}

/// Mathematical model of a compiled constraint.
pub ghost struct CCModel {
    pub lhs: LinModel,
    pub cmp: Comparator,
    pub rhs: LinModel,
}

impl View for CompiledConstraint {
    type V = CCModel;

    open spec fn view(&self) -> CCModel {
        CCModel { lhs: self.lhs@, cmp: self.cmp, rhs: self.rhs@ }
    }
}

/// The comparator starting at position `i`, with its width; two-character
/// comparators are matched before one-character ones.
pub open spec fn cmp_at(s: Seq<char>, i: int) -> Option<(Comparator, int)> {
    if i + 1 < s.len() && s[i] == '<' && s[i + 1] == '=' {
        Some((Comparator::Le, 2int))
    } else if i + 1 < s.len() && s[i] == '>' && s[i + 1] == '=' {
        Some((Comparator::Ge, 2int))
    } else if i + 1 < s.len() && s[i] == '=' && s[i + 1] == '=' {
        Some((Comparator::Eq, 2int))
    } else if i < s.len() && s[i] == '<' {
        Some((Comparator::Lt, 1int))
    } else if i < s.len() && s[i] == '>' {
        Some((Comparator::Gt, 1int))
    } else {
        None
    }
}

/// The first comparator at or after `i`: position, kind, width.
pub open spec fn spec_find_cmp(s: Seq<char>, i: int) -> Option<(int, Comparator, int)>
    recommends
        0 <= i,
    decreases s.len() - i,
{
    if i >= s.len() {
        None
    } else {
        match cmp_at(s, i) {
            Some((c, w)) => Some((i, c, w)),
            None => spec_find_cmp(s, i + 1),
        }
    }
}

/// Splitting a constraint string: no comparator is missing, a second one
/// after the first is ambiguous, else the substrings on both sides.
pub open spec fn spec_split_constraint(s: Seq<char>) -> Result<
    (Seq<char>, Comparator, Seq<char>),
    ConstraintError,
> {
    match spec_find_cmp(s, 0) {
        None => Err(ConstraintError::MissingComparator),
        Some((pos, c, w)) => {
            if spec_find_cmp(s, pos + w) is Some {
                Err(ConstraintError::AmbiguousComparator)
            } else {
                Ok((s.take(pos), c, s.skip(pos + w)))
            }
        },
    }
}

fn cmp_at_exec(s: &Vec<char>, i: usize) -> (r: Option<(Comparator, usize)>)
    requires
        i < s@.len(),
    ensures
        (match r {
            Some((c, w)) => cmp_at(s@, i as int) == Some((c, w as int)) && 1 <= w && i + w
                <= s@.len(),
            None => cmp_at(s@, i as int) is None,
        }),
{
    let n = s.len();
    let c0 = s[i];
    if i + 1 < n {
        let c1 = s[i + 1];
        if c0 == '<' && c1 == '=' {
            return Some((Comparator::Le, 2));
        }
        if c0 == '>' && c1 == '=' {
            return Some((Comparator::Ge, 2));
        }
        if c0 == '=' && c1 == '=' {
            return Some((Comparator::Eq, 2));
        }
    }
    if c0 == '<' {
        Some((Comparator::Lt, 1))
    } else if c0 == '>' {
        Some((Comparator::Gt, 1))
    } else {
        None
    }
}

fn find_cmp(s: &Vec<char>, start: usize) -> (r: Option<(usize, Comparator, usize)>)
    requires
        start <= s@.len(),
    ensures
        (match r {
            Some((p, c, w)) => spec_find_cmp(s@, start as int) == Some((p as int, c, w as int))
                && start <= p && 1 <= w && p + w <= s@.len(),
            None => spec_find_cmp(s@, start as int) is None,
        }),
{
    let n = s.len();
    let mut i: usize = start;
    while i < n
        invariant
            start <= i <= n,
            n == s@.len(),
            spec_find_cmp(s@, start as int) == spec_find_cmp(s@, i as int),
        decreases n - i,
    {
        match cmp_at_exec(s, i) {
            Some((c, w)) => {
                return Some((i, c, w));
            },
            None => {},
        }
        i = i + 1;
    }
    None
}

/// The full compilation of one side of a constraint (or of an objective
/// expression): tokenize, validate, convert, evaluate.
pub open spec fn spec_compile_side(s: Seq<char>, names: Seq<Seq<char>>) -> Result<
    LinModel,
    CompileErrModel,
> {
    let ts = spec_tokenize(s);
    match spec_validate(ts) {
        Err(e) => Err(CompileErrModel::Validation(e)),
        Ok(u) => match spec_eval(spec_infix_to_postfix(ts), names) {
            Ok(m) => Ok(m),
            Err(e) => Err(CompileErrModel::Evaluation(e)),
        },
    }
}

/// Compiles one infix expression side against the registry.
pub fn compile_side(expr: &str, registry: &VariableRegistry) -> (r: Result<
    LinearExpression,
    CompileError,
>)
    ensures
        (match r {
            Ok(e) => spec_compile_side(expr@, registry.names_model()) == Ok::<
                LinModel,
                CompileErrModel,
            >(e@) && lin_wf(e@, registry.names_model().len()),
            Err(err) => spec_compile_side(expr@, registry.names_model()) == Err::<
                LinModel,
                CompileErrModel,
            >(err@),
        }),
{
    let toks = tokenize(expr);
    match validate(&toks) {
        Err(e) => {
            return Err(CompileError::Validation(e));
        },
        Ok(u) => {},
    }
    match infix_to_postfix(&toks) {
        Some(p) => match parse_postfix_expression(&p, registry) {
            Ok(e) => Ok(e),
            Err(err) => Err(CompileError::Evaluation(err)),
        },
        // unreachable: validation succeeded, so conversion succeeds
        None => Err(CompileError::Validation(ValidationError::EmptyExpression)),
    }
}

/// The compilation of one named-dialect constraint string: split at its
/// single comparator, compile both sides.
pub open spec fn spec_compile_constraint(s: Seq<char>, names: Seq<Seq<char>>) -> Result<
    CCModel,
    CompileErrModel,
> {
    match spec_split_constraint(s) {
        Err(e) => Err(CompileErrModel::Constraint(e)),
        Ok((l, c, rr)) => match spec_compile_side(l, names) {
            Err(e) => Err(e),
            Ok(lm) => match spec_compile_side(rr, names) {
                Err(e) => Err(e),
                Ok(rm) => Ok(CCModel { lhs: lm, cmp: c, rhs: rm }),
            },
        },
    }
}

/// Compiles one named-dialect constraint against the registry.
pub fn compile_constraint(expression: &str, registry: &VariableRegistry) -> (r: Result<
    CompiledConstraint,
    CompileError,
>)
    ensures
        (match r {
            Ok(cc) => spec_compile_constraint(expression@, registry.names_model()) == Ok::<
                CCModel,
                CompileErrModel,
            >(cc@),
            Err(err) => spec_compile_constraint(expression@, registry.names_model()) == Err::<
                CCModel,
                CompileErrModel,
            >(err@),
        }),
{
    let cs = chars_of(expression);
    let total = cs.len();
    let found = match find_cmp(&cs, 0) {
        None => {
            return Err(CompileError::Constraint(ConstraintError::MissingComparator));
        },
        Some(f) => f,
    };
    let (pos, c, w) = found;
    proof {
        assert(pos + w <= total);
    }
    match find_cmp(&cs, pos + w) {
        Some(_) => {
            return Err(CompileError::Constraint(ConstraintError::AmbiguousComparator));
        },
        None => {},
    }
    let mut left_chars: Vec<char> = Vec::new();
    let mut k: usize = 0;
    while k < pos
        invariant
            k <= pos,
            pos <= cs@.len(),
            left_chars@ =~= cs@.take(k as int),
        decreases pos - k,
    {
        left_chars.push(cs[k]);
        proof {
            assert(cs@.take(k as int).push(cs@[k as int]) =~= cs@.take(k + 1));
        }
        k = k + 1;
    }
    let n = cs.len();
    let mut right_chars: Vec<char> = Vec::new();
    let mut j: usize = pos + w;
    while j < n
        invariant
            pos + w <= j <= n,
            n == cs@.len(),
            right_chars@ =~= cs@.subrange(pos + w, j as int),
        decreases n - j,
    {
        right_chars.push(cs[j]);
        proof {
            assert(cs@.subrange(pos + w, j as int).push(cs@[j as int]) =~= cs@.subrange(
                pos + w,
                j + 1,
            ));
        }
        j = j + 1;
    }
    proof {
        assert(left_chars@ =~= expression@.take(pos as int));
        assert(right_chars@ =~= expression@.skip(pos + w));
    }
    let left = string_of_chars(&left_chars);
    let right = string_of_chars(&right_chars);
    let lhs = match compile_side(left.as_str(), registry) {
        Ok(e) => e,
        Err(err) => {
            return Err(err);
        },
    };
    let rhs = match compile_side(right.as_str(), registry) {
        Ok(e) => e,
        Err(err) => {
            return Err(err);
        },
    };
    Ok(CompiledConstraint { lhs, cmp: c, rhs })
}

/// Compiles every named constraint, in order, stopping at the first
/// failure.
pub fn create_constraints(
    problem_constraints: &Vec<Constraint>,
    registry: &VariableRegistry,
) -> (r: Result<Vec<CompiledConstraint>, CompileError>)
    ensures
        (match r {
            Ok(v) => v@.len() == problem_constraints@.len() && forall|k: int|
                0 <= k < v@.len() ==> spec_compile_constraint(
                    (#[trigger] problem_constraints@[k]).expression@,
                    registry.names_model(),
                ) == Ok::<CCModel, CompileErrModel>(v@[k]@),
            Err(err) => exists|j: int|
                0 <= j < problem_constraints@.len() && spec_compile_constraint(
                    (#[trigger] problem_constraints@[j]).expression@,
                    registry.names_model(),
                ) == Err::<CCModel, CompileErrModel>(err@) && forall|k: int|
                    0 <= k < j ==> spec_compile_constraint(
                        (#[trigger] problem_constraints@[k]).expression@,
                        registry.names_model(),
                    ) is Ok,
        }),
{
    let n = problem_constraints.len();
    let mut out: Vec<CompiledConstraint> = Vec::new();
    let mut i: usize = 0;
    while i < n
        invariant
            i <= n,
            n == problem_constraints@.len(),
            out@.len() == i,
            forall|k: int|
                0 <= k < i ==> spec_compile_constraint(
                    (#[trigger] problem_constraints@[k]).expression@,
                    registry.names_model(),
                ) == Ok::<CCModel, CompileErrModel>(out@[k]@),
        decreases n - i,
    {
        match compile_constraint(problem_constraints[i].expression.as_str(), registry) {
            Ok(cc) => {
                out.push(cc);
            },
            Err(err) => {
                return Err(err);
            },
        }
        i = i + 1;
    }
    Ok(out)
}

/// Constraint in the postfix dialect: a whitespace-delimited postfix
/// expression, a kind tag (`"leq"`, `"geq"`, anything else meaning
/// equality), and the two declared variable names it relates.
#[derive(Clone, Debug, PartialEq, Default)]
pub struct PostfixConstraint {
    pub expr: String,
    pub kind: String,
    pub lhs: String,
    pub rhs: String,
}

/// The comparator a kind tag selects: `leq`, `geq`, or equality for
/// anything else.
pub open spec fn spec_kind_cmp(k: Seq<char>) -> Comparator {
    if k == seq!['l', 'e', 'q'] {
        Comparator::Le
    } else if k == seq!['g', 'e', 'q'] {
        Comparator::Ge
    } else {
        Comparator::Eq
    }
}

/// The compilation of a postfix-dialect constraint: both named variables
/// must be declared, the postfix expression is evaluated against the
/// registry, and the result is constrained against zero by the selected
/// comparator.
pub open spec fn spec_compile_postfix(
    expr: Seq<char>,
    kind: Seq<char>,
    lhs_name: Seq<char>,
    rhs_name: Seq<char>,
    names: Seq<Seq<char>>,
) -> Result<CCModel, CompileErrModel> {
    if idx_of(names, lhs_name) < 0 {
        Err(CompileErrModel::Evaluation(EvalErrModel::UnknownVariable(lhs_name)))
    } else if idx_of(names, rhs_name) < 0 {
        Err(CompileErrModel::Evaluation(EvalErrModel::UnknownVariable(rhs_name)))
    } else {
        match spec_create_expression(expr, names) {
            Err(e) => Err(CompileErrModel::Evaluation(e)),
            Ok(m) => Ok(
                CCModel {
                    lhs: m,
                    cmp: spec_kind_cmp(kind),
                    rhs: const_model(names.len(), 0),
                },
            ),
        }
    }
}

/// Compiles one postfix-dialect constraint against the registry.
pub fn compile_postfix_constraint(pc: &PostfixConstraint, registry: &VariableRegistry) -> (r:
    Result<CompiledConstraint, CompileError>)
    ensures
        (match r {
            Ok(cc) => spec_compile_postfix(
                pc.expr@,
                pc.kind@,
                pc.lhs@,
                pc.rhs@,
                registry.names_model(),
            ) == Ok::<CCModel, CompileErrModel>(cc@),
            Err(err) => spec_compile_postfix(
                pc.expr@,
                pc.kind@,
                pc.lhs@,
                pc.rhs@,
                registry.names_model(),
            ) == Err::<CCModel, CompileErrModel>(err@),
        }),
{
    if registry.lookup(&pc.lhs).is_none() {
        return Err(CompileError::Evaluation(EvaluationError::UnknownVariable(pc.lhs.clone())));
    }
    if registry.lookup(&pc.rhs).is_none() {
        return Err(CompileError::Evaluation(EvaluationError::UnknownVariable(pc.rhs.clone())));
    }
    let expr = match create_expression(pc.expr.as_str(), registry) {
        Ok(e) => e,
        Err(err) => {
            return Err(CompileError::Evaluation(err));
        },
    };
    let leq = String::from_str("leq");
    let geq = String::from_str("geq");
    proof {
        reveal_strlit("leq");
        reveal_strlit("geq");
        assert("leq"@ =~= seq!['l', 'e', 'q']);
        assert("geq"@ =~= seq!['g', 'e', 'q']);
    }
    let cmp = if pc.kind == leq {
        Comparator::Le
    } else if pc.kind == geq {
        Comparator::Ge
    } else {
        Comparator::Eq
    };
    let nvars = registry.len();
    let zero = LinearExpression::constant_expr(nvars, 0);
    Ok(CompiledConstraint { lhs: expr, cmp, rhs: zero })
}

/// Tokenizes the objective's infix expression, validates and converts it,
/// and renders the postfix result as a whitespace-joined string.
pub fn parse_objective_expression(objective: &str) -> (r: Result<String, CompileError>)
    ensures
        (match spec_validate(spec_tokenize(objective@)) {
            Ok(u) => r matches Ok(s) && s@ == spec_render_postfix(
                spec_infix_to_postfix(spec_tokenize(objective@)),
            ),
            Err(ve) => r == Err::<String, CompileError>(CompileError::Validation(ve)),
        }),
{
    let toks = tokenize(objective);
    match validate(&toks) {
        Err(e) => {
            return Err(CompileError::Validation(e));
        },
        Ok(u) => {},
    }
    match infix_to_postfix(&toks) {
        Some(p) => Ok(render_postfix(&p)),
        // unreachable: validation succeeded, so conversion succeeds
        None => Err(CompileError::Validation(ValidationError::EmptyExpression)),
    }
}

} // verus!
