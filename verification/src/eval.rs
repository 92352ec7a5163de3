//! Stack-machine evaluation of postfix token sequences into linear
//! expressions.
//!
//! The machine pushes constants and variable units, and applies
//! operators to the two topmost values, the right operand popped first.
//! Multiplication and division demand a pure-constant operand, so a
//! nonlinear construction fails instead of silently misbehaving.

use crate::convert::{
    count_atoms, count_ops, lemma_converted_tokens_canonical, lemma_wf_infix_to_rpn,
    post_of_infix, rpn_wf, spec_infix_to_postfix,
};
use crate::validate::{lemma_validate_ok_iff_wf, spec_validate, wf_infix};
use crate::linexpr::{
    const_model, is_constant_expr, lin_add, lin_add_fits, lin_div, lin_div_fits, lin_scale,
    lin_scale_fits, lin_sub, lin_sub_fits, lin_wf, unit_model, LinModel, LinearExpression,
};
use crate::registry::{idx_of, lemma_idx_of, VariableRegistry};
use crate::tokens::{
    canonical_token, infix_model_of, lemma_tokenize_render_postfix, spec_render_postfix,
    spec_tokenize, tokenize, view_post, view_tokens, InfixToken, Operator, PostModel,
    PostfixToken, TokenModel,
};
use vstd::prelude::*;

verus! {

/// Why evaluation of a postfix sequence fails.
#[derive(Clone, Debug, PartialEq, Eq)]
pub enum EvaluationError {
    /// An operator found fewer than two stacked operands, or the final
    /// stack was empty.
    StackUnderflow,
    /// A variable reference is not declared in the registry.
    UnknownVariable(String),
    /// Multiplication of two non-constant operands, or division by a
    /// non-constant divisor with a non-constant dividend.
    NonlinearTerm,
    /// A token unusable as a postfix operand, such as a parenthesis in a
    /// postfix expression string.
    MalformedNumericLiteral,
    /// More than one value was left on the stack at the end.
    ExtraStackResidue,
    /// Division by a zero constant.
    DivisionByZero,
    /// An exact coefficient left the representable range.
    NumericOverflow,
}

/// Mathematical model of an evaluation error.
pub ghost enum EvalErrModel {
    StackUnderflow,
    UnknownVariable(Seq<char>),
    NonlinearTerm,
    MalformedNumericLiteral,
    ExtraStackResidue,
    DivisionByZero,
    NumericOverflow,
}

impl View for EvaluationError {
    type V = EvalErrModel;

    open spec fn view(&self) -> EvalErrModel {
        match self {
            EvaluationError::StackUnderflow => EvalErrModel::StackUnderflow,
            EvaluationError::UnknownVariable(nm) => EvalErrModel::UnknownVariable(nm@),
            EvaluationError::NonlinearTerm => EvalErrModel::NonlinearTerm,
            EvaluationError::MalformedNumericLiteral => EvalErrModel::MalformedNumericLiteral,
            EvaluationError::ExtraStackResidue => EvalErrModel::ExtraStackResidue,
            EvaluationError::DivisionByZero => EvalErrModel::DivisionByZero,
            EvaluationError::NumericOverflow => EvalErrModel::NumericOverflow,
        }
    }
}

/// What one operator does to its two operands (`l` the earlier, `r` the
/// later): addition and subtraction are componentwise; multiplication
/// scales the non-constant side by the constant side and fails on two
/// non-constant sides; division divides by a constant divisor, or, when
/// only the dividend is constant, divides the divisor's components by it.
pub open spec fn spec_apply_op(op: Operator, l: LinModel, r: LinModel) -> Result<
    LinModel,
    EvalErrModel,
> {
    match op {
        Operator::Add => if lin_add_fits(l, r) {
            Ok(lin_add(l, r))
        } else {
            Err(EvalErrModel::NumericOverflow)
        },
        Operator::Sub => if lin_sub_fits(l, r) {
            Ok(lin_sub(l, r))
        } else {
            Err(EvalErrModel::NumericOverflow)
        },
        Operator::Mul => {
            if is_constant_expr(l) {
                if lin_scale_fits(r, l.constant) {
                    Ok(lin_scale(r, l.constant))
                } else {
                    Err(EvalErrModel::NumericOverflow)
                }
            } else if is_constant_expr(r) {
                if lin_scale_fits(l, r.constant) {
                    Ok(lin_scale(l, r.constant))
                } else {
                    Err(EvalErrModel::NumericOverflow)
                }
            } else {
                Err(EvalErrModel::NonlinearTerm)
            }
        },
        Operator::Div => {
            if is_constant_expr(r) {
                if r.constant.is_zero() {
                    Err(EvalErrModel::DivisionByZero)
                } else if lin_div_fits(l, r.constant) {
                    Ok(lin_div(l, r.constant))
                } else {
                    Err(EvalErrModel::NumericOverflow)
                }
            } else if is_constant_expr(l) {
                if l.constant.is_zero() {
                    Err(EvalErrModel::DivisionByZero)
                } else if lin_div_fits(r, l.constant) {
                    Ok(lin_div(r, l.constant))
                } else {
                    Err(EvalErrModel::NumericOverflow)
                }
            } else {
                Err(EvalErrModel::NonlinearTerm)
            }
        },
    }
}

/// The evaluation run from position `i` with the given value stack.
pub open spec fn spec_eval_from(
    p: Seq<PostModel>,
    i: int,
    stack: Seq<LinModel>,
    names: Seq<Seq<char>>,
) -> Result<LinModel, EvalErrModel>
    recommends
        0 <= i <= p.len(),
    decreases p.len() - i,
{
    if i < 0 || i >= p.len() {
        if stack.len() == 1 {
            Ok(stack[0])
        } else if stack.len() == 0 {
            Err(EvalErrModel::StackUnderflow)
        } else {
            Err(EvalErrModel::ExtraStackResidue)
        }
    } else {
        match p[i] {
            PostModel::Operand(v) => spec_eval_from(
                p,
                i + 1,
                stack.push(const_model(names.len(), v as int)),
                names,
            ),
            PostModel::Variable(nm) => {
                let j = idx_of(names, nm);
                if j < 0 {
                    Err(EvalErrModel::UnknownVariable(nm))
                } else {
                    spec_eval_from(p, i + 1, stack.push(unit_model(names.len(), j)), names)
                }
            },
            PostModel::Operator(op) => {
                if stack.len() < 2 {
                    Err(EvalErrModel::StackUnderflow)
                } else {
                    let r = stack.last();
                    let l = stack[stack.len() - 2];
                    match spec_apply_op(op, l, r) {
                        Err(e) => Err(e),
                        Ok(x) => spec_eval_from(
                            p,
                            i + 1,
                            stack.drop_last().drop_last().push(x),
                            names,
                        ),
                    }
                }
            },
        }
    }
}

/// The evaluation of a postfix sequence against declared names.
pub open spec fn spec_eval(p: Seq<PostModel>, names: Seq<Seq<char>>) -> Result<
    LinModel,
    EvalErrModel,
> {
    spec_eval_from(p, 0, Seq::empty(), names)
}

/// Model of a stack of linear expressions.
pub open spec fn view_lins(s: Seq<LinearExpression>) -> Seq<LinModel> {
    s.map(|i: int, e: LinearExpression| e@)
}

fn apply_op(op: Operator, l: &LinearExpression, r: &LinearExpression, nvars: usize) -> (res:
    Result<LinearExpression, EvaluationError>)
    requires
        lin_wf(l@, nvars as nat),
        lin_wf(r@, nvars as nat),
    ensures
        (match res {
            Ok(e) => spec_apply_op(op, l@, r@) == Ok::<LinModel, EvalErrModel>(e@) && lin_wf(
                e@,
                nvars as nat,
            ),
            Err(err) => spec_apply_op(op, l@, r@) == Err::<LinModel, EvalErrModel>(err@),
        }),
{
    match op {
        Operator::Add => match l.add_expr(r) {
            Some(e) => Ok(e),
            None => Err(EvaluationError::NumericOverflow),
        },
        Operator::Sub => match l.sub_expr(r) {
            Some(e) => Ok(e),
            None => Err(EvaluationError::NumericOverflow),
        },
        Operator::Mul => {
            if l.is_constant() {
                match r.mul_const(l.constant) {
                    Some(e) => Ok(e),
                    None => Err(EvaluationError::NumericOverflow),
                }
            } else if r.is_constant() {
                match l.mul_const(r.constant) {
                    Some(e) => Ok(e),
                    None => Err(EvaluationError::NumericOverflow),
                }
            } else {
                Err(EvaluationError::NonlinearTerm)
            }
        },
        Operator::Div => {
            if r.is_constant() {
                if r.constant.num == 0 {
                    Err(EvaluationError::DivisionByZero)
                } else {
                    match l.div_const(r.constant) {
                        Some(e) => Ok(e),
                        None => Err(EvaluationError::NumericOverflow),
                    }
                }
            } else if l.is_constant() {
                if l.constant.num == 0 {
                    Err(EvaluationError::DivisionByZero)
                } else {
                    match r.div_const(l.constant) {
                        Some(e) => Ok(e),
                        None => Err(EvaluationError::NumericOverflow),
                    }
                }
            } else {
                Err(EvaluationError::NonlinearTerm)
            }
        },
    }
}

/// Evaluates a postfix token sequence against the registry, building one
/// linear expression; reports exactly the first failure of the run.
pub fn parse_postfix_expression(
    postfix_tokens: &Vec<PostfixToken>,
    registry: &VariableRegistry,
) -> (r: Result<LinearExpression, EvaluationError>)
    ensures
        (match r {
            Ok(e) => spec_eval(view_post(postfix_tokens@), registry.names_model()) == Ok::<
                LinModel,
                EvalErrModel,
            >(e@) && lin_wf(e@, registry.names_model().len()),
            Err(err) => spec_eval(view_post(postfix_tokens@), registry.names_model()) == Err::<
                LinModel,
                EvalErrModel,
            >(err@),
        }),
{
    let ghost p = view_post(postfix_tokens@);
    let ghost names = registry.names_model();
    let nvars = registry.len();
    let n = postfix_tokens.len();
    let mut stack: Vec<LinearExpression> = Vec::new();
    let mut i: usize = 0;
    proof {
        assert(view_lins(stack@) =~= Seq::<LinModel>::empty());
    }
    while i < n
        invariant
            i <= n,
            n == postfix_tokens@.len(),
            p == view_post(postfix_tokens@),
            names == registry.names_model(),
            nvars == names.len(),
            spec_eval_from(p, i as int, view_lins(stack@), names) == spec_eval(p, names),
            forall|k: int| 0 <= k < stack@.len() ==> lin_wf(#[trigger] view_lins(stack@)[k], nvars as nat),
        decreases n - i,
    {
        let ghost st0 = view_lins(stack@);
        proof {
            assert(p[i as int] == postfix_tokens@[i as int]@);
        }
        match &postfix_tokens[i] {
            PostfixToken::Operand(v) => {
                let e = LinearExpression::constant_expr(nvars, *v);
                stack.push(e);
                proof {
                    assert(view_lins(stack@) =~= st0.push(const_model(nvars as nat, *v as int)));
                }
            },
            PostfixToken::Variable(name) => {
                match registry.lookup(name) {
                    Some(j) => {
                        proof {
                            lemma_idx_of(names, name@);
                        }
                        let e = LinearExpression::unit_expr(nvars, j);
                        stack.push(e);
                        proof {
                            assert(view_lins(stack@) =~= st0.push(unit_model(nvars as nat, j as int)));
                        }
                    },
                    None => {
                        return Err(EvaluationError::UnknownVariable(name.clone()));
                    },
                }
            },
            PostfixToken::Operator(op) => {
                if stack.len() < 2 {
                    return Err(EvaluationError::StackUnderflow);
                }
                let right = match stack.pop() {
                    Some(e) => e,
                    None => { return Err(EvaluationError::StackUnderflow); },
                };
                let left = match stack.pop() {
                    Some(e) => e,
                    None => { return Err(EvaluationError::StackUnderflow); },
                };
                let ghost st1 = view_lins(stack@);
                proof {
                    assert(left@ == st0[st0.len() - 2]);
                    assert(right@ == st0.last());
                    assert(st1 =~= st0.drop_last().drop_last());
                }
                match apply_op(*op, &left, &right, nvars) {
                    Ok(x) => {
                        let ghost xm = x@;
                        stack.push(x);
                        proof {
                            assert(view_lins(stack@) =~= st1.push(xm));
                        }
                    },
                    Err(err) => {
                        return Err(err);
                    },
                }
            },
        }
        i = i + 1;
    }
    if stack.len() == 1 {
        match stack.pop() {
            Some(e) => Ok(e),
            None => Err(EvaluationError::StackUnderflow),
        }
    } else if stack.len() == 0 {
        Err(EvaluationError::StackUnderflow)
    } else {
        Err(EvaluationError::ExtraStackResidue)
    }
}

proof fn lemma_count_take_step(p: Seq<PostModel>, i: int)
    requires
        0 <= i < p.len(),
    ensures
        count_atoms(p.take(i + 1)) == count_atoms(p.take(i)) + if p[i] is Operator {
            0nat
        } else {
            1nat
        },
        count_ops(p.take(i + 1)) == count_ops(p.take(i)) + if p[i] is Operator {
            1nat
        } else {
            0nat
        },
{
    assert(p.take(i + 1).drop_last() =~= p.take(i));
    assert(p.take(i + 1).last() == p[i]);
}

proof fn lemma_eval_from_no_underflow(
    p: Seq<PostModel>,
    i: int,
    stack: Seq<LinModel>,
    names: Seq<Seq<char>>,
)
    requires
        rpn_wf(p),
        0 <= i <= p.len(),
        stack.len() == count_atoms(p.take(i)) - count_ops(p.take(i)),
    ensures
        spec_eval_from(p, i, stack, names) != Err::<LinModel, EvalErrModel>(
            EvalErrModel::StackUnderflow,
        ),
        spec_eval_from(p, i, stack, names) != Err::<LinModel, EvalErrModel>(
            EvalErrModel::ExtraStackResidue,
        ),
    decreases p.len() - i,
{
    if i >= p.len() {
        assert(p.take(i) =~= p);
        assert(stack.len() == 1);
    } else {
        lemma_count_take_step(p, i);
        assert(count_atoms(p.take(i + 1)) >= count_ops(p.take(i + 1)) + 1);
        match p[i] {
            PostModel::Operand(v) => {
                lemma_eval_from_no_underflow(
                    p,
                    i + 1,
                    stack.push(const_model(names.len(), v as int)),
                    names,
                );
            },
            PostModel::Variable(nm) => {
                let j = idx_of(names, nm);
                if j >= 0 {
                    lemma_eval_from_no_underflow(
                        p,
                        i + 1,
                        stack.push(unit_model(names.len(), j)),
                        names,
                    );
                }
            },
            PostModel::Operator(op) => {
                assert(stack.len() >= 2);
                let r = stack.last();
                let l = stack[stack.len() - 2];
                match spec_apply_op(op, l, r) {
                    Err(e) => {
                        assert(e != EvalErrModel::StackUnderflow && e
                            != EvalErrModel::ExtraStackResidue);
                    },
                    Ok(x) => {
                        lemma_eval_from_no_underflow(
                            p,
                            i + 1,
                            stack.drop_last().drop_last().push(x),
                            names,
                        );
                    },
                }
            },
        }
    }
}

/// Evaluating any well-formed postfix sequence never pops an empty stack
/// and never leaves more than one value: the run either produces a linear
/// expression or fails for a reason of its own (an undeclared variable, a
/// nonlinear construction, a zero divisor, an out-of-range coefficient).
pub proof fn lemma_rpn_eval_no_underflow(p: Seq<PostModel>, names: Seq<Seq<char>>)
    requires
        rpn_wf(p),
    ensures
        spec_eval(p, names) != Err::<LinModel, EvalErrModel>(EvalErrModel::StackUnderflow),
        spec_eval(p, names) != Err::<LinModel, EvalErrModel>(EvalErrModel::ExtraStackResidue),
{
    assert(p.take(0) =~= Seq::<PostModel>::empty());
    lemma_eval_from_no_underflow(p, 0, Seq::empty(), names);
}

/// The pipeline law: tokenizing any well-formed infix string, converting
/// it, and evaluating the conversion never pops an empty stack and never
/// leaves residue, whatever the declared names are.
pub proof fn lemma_pipeline_no_underflow(s: Seq<char>, names: Seq<Seq<char>>)
    requires
        wf_infix(spec_tokenize(s)),
    ensures
        spec_validate(spec_tokenize(s)) is Ok,
        spec_eval(spec_infix_to_postfix(spec_tokenize(s)), names) != Err::<
            LinModel,
            EvalErrModel,
        >(EvalErrModel::StackUnderflow),
        spec_eval(spec_infix_to_postfix(spec_tokenize(s)), names) != Err::<
            LinModel,
            EvalErrModel,
        >(EvalErrModel::ExtraStackResidue),
{
    lemma_validate_ok_iff_wf(spec_tokenize(s));
    lemma_wf_infix_to_rpn(spec_tokenize(s));
    lemma_rpn_eval_no_underflow(spec_infix_to_postfix(spec_tokenize(s)), names);
}

/// Whether a token sequence holds a parenthesis (unusable in postfix
/// position).
pub open spec fn has_paren(ts: Seq<TokenModel>) -> bool {
    exists|k: int|
        0 <= k < ts.len() && ((#[trigger] ts[k]) is LeftParen || ts[k] is RightParen)
}

/// The postfix reading of a tokenized string: its tokens taken directly
/// as postfix tokens.
pub open spec fn to_post_tokens(ts: Seq<TokenModel>) -> Seq<PostModel> {
    ts.map(|k: int, t: TokenModel| post_of_infix(t))
}

/// The evaluation of a postfix expression string: tokenize it, reject
/// parentheses, evaluate the tokens as a postfix sequence.
pub open spec fn spec_create_expression(s: Seq<char>, names: Seq<Seq<char>>) -> Result<
    LinModel,
    EvalErrModel,
> {
    let ts = spec_tokenize(s);
    if has_paren(ts) {
        Err(EvalErrModel::MalformedNumericLiteral)
    } else {
        spec_eval(to_post_tokens(ts), names)
    }
}

/// Idempotence of the canonical rendering: reading the rendering of a
/// canonical postfix sequence back as a postfix expression string and
/// evaluating it yields exactly the evaluation of the original sequence.
pub proof fn lemma_render_reeval(p: Seq<PostModel>, names: Seq<Seq<char>>)
    requires
        forall|i: int| 0 <= i < p.len() ==> canonical_token(#[trigger] p[i]),
    ensures
        spec_create_expression(spec_render_postfix(p), names) == spec_eval(p, names),
{
    lemma_tokenize_render_postfix(p);
    let ts = spec_tokenize(spec_render_postfix(p));
    let f = |i: int, t: PostModel| infix_model_of(t);
    assert(ts == p.map(f));
    assert forall|k: int|
        0 <= k < ts.len() implies !((#[trigger] ts[k]) is LeftParen || ts[k] is RightParen) by {
        assert(ts[k] == infix_model_of(p[k]));
    }
    assert(!has_paren(ts));
    assert(to_post_tokens(ts) =~= p) by {
        assert forall|k: int| 0 <= k < ts.len() implies to_post_tokens(ts)[k] == p[k] by {
            assert(ts[k] == infix_model_of(p[k]));
            assert(to_post_tokens(ts)[k] == post_of_infix(infix_model_of(p[k])));
        }
    }
}

/// The round-trip law for the whole pipeline: for any input string,
/// re-tokenizing the canonical postfix rendering of its converted
/// expression and re-evaluating it yields the evaluation of the original
/// conversion.
pub proof fn lemma_pipeline_round_trip(s: Seq<char>, names: Seq<Seq<char>>)
    ensures
        spec_create_expression(
            spec_render_postfix(spec_infix_to_postfix(spec_tokenize(s))),
            names,
        ) == spec_eval(spec_infix_to_postfix(spec_tokenize(s)), names),
{
    lemma_converted_tokens_canonical(s);
    lemma_render_reeval(spec_infix_to_postfix(spec_tokenize(s)), names);
}

/// Parses a whitespace-delimited postfix expression string and evaluates
/// it against the registry.
pub fn create_expression(problem_expression: &str, registry: &VariableRegistry) -> (r: Result<
    LinearExpression,
    EvaluationError,
>)
    ensures
        (match r {
            Ok(e) => spec_create_expression(problem_expression@, registry.names_model()) == Ok::<
                LinModel,
                EvalErrModel,
            >(e@) && lin_wf(e@, registry.names_model().len()),
            Err(err) => spec_create_expression(problem_expression@, registry.names_model())
                == Err::<LinModel, EvalErrModel>(err@),
        }),
{
    let infix = tokenize(problem_expression);
    let ghost ts = spec_tokenize(problem_expression@);
    let n = infix.len();
    let mut post: Vec<PostfixToken> = Vec::new();
    let mut i: usize = 0;
    while i < n
        invariant
            i <= n,
            n == infix@.len(),
            ts == view_tokens(infix@),
            ts == spec_tokenize(problem_expression@),
            !has_paren(ts.take(i as int)),
            view_post(post@) =~= to_post_tokens(ts.take(i as int)),
        decreases n - i,
    {
        let ghost post0 = view_post(post@);
        proof {
            assert(ts[i as int] == infix@[i as int]@);
        }
        match &infix[i] {
            InfixToken::Operand(v) => {
                post.push(PostfixToken::Operand(*v));
            },
            InfixToken::Variable(name) => {
                post.push(PostfixToken::Variable(name.clone()));
            },
            InfixToken::Operator(op) => {
                post.push(PostfixToken::Operator(*op));
            },
            InfixToken::LeftParen => {
                proof {
                    assert(0 <= i < ts.len() && ts[i as int] is LeftParen);
                    assert(has_paren(ts));
                }
                return Err(EvaluationError::MalformedNumericLiteral);
            },
            InfixToken::RightParen => {
                proof {
                    assert(0 <= i < ts.len() && ts[i as int] is RightParen);
                    assert(has_paren(ts));
                }
                return Err(EvaluationError::MalformedNumericLiteral);
            },
        }
        proof {
            assert(view_post(post@) =~= post0.push(post_of_infix(ts[i as int])));
            assert(to_post_tokens(ts.take(i + 1)) =~= to_post_tokens(ts.take(i as int)).push(
                post_of_infix(ts[i as int]),
            ));
            assert forall|k: int|
                0 <= k < i + 1 implies !((#[trigger] ts.take(i + 1)[k]) is LeftParen || ts.take(
                i + 1,
            )[k] is RightParen) by {
                assert(ts.take(i + 1)[k] == ts[k]);
                if k < i {
                    assert(ts.take(i as int)[k] == ts[k]);
                }
            }
        }
        i = i + 1;
    }
    proof {
        assert(ts.take(n as int) =~= ts);
        assert(!has_paren(ts));
    }
    parse_postfix_expression(&post, registry)
}

} // verus!
