//! Infix to postfix conversion by the two-tier shunting-yard algorithm.

use crate::tokens::{
    all_canonical, all_canonical_infix, canonical_infix, canonical_token,
    lemma_tokenize_canonical, spec_tokenize, view_post, view_tokens, InfixToken, Operator,
    PostModel, PostfixToken, TokenModel,
};
use crate::validate::{
    check_valid, is_atom, lemma_validate_ok_iff_wf, pair_error, paren_delta, spec_depth,
    spec_validate, wf_infix,
};
use vstd::prelude::*;

verus! {

/// Precedence tier: multiplicative operators bind tighter than additive
/// ones; equal tiers fold left to right.
pub open spec fn tier(op: Operator) -> int {
    match op {
        Operator::Add => 1,
        Operator::Sub => 1,
        Operator::Mul => 2,
        Operator::Div => 2,
    }
}

fn op_tier(op: Operator) -> (t: u8)
    ensures
        t as int == tier(op),
{
    match op {
        Operator::Add => 1,
        Operator::Sub => 1,
        Operator::Mul => 2,
        Operator::Div => 2,
    }
}

/// Item on the conversion stack: an operator or an open parenthesis.
#[derive(Clone, Copy, Debug, PartialEq, Eq, Structural)]
pub enum StackItem {
    OpItem(Operator),
    ParenItem,
}

/// Postfix counterpart of an infix payload token.
pub open spec fn post_of_infix(t: TokenModel) -> PostModel
    recommends
        !(t is LeftParen),
        !(t is RightParen),
{
    match t {
        TokenModel::Operator(op) => PostModel::Operator(op),
        TokenModel::Operand(v) => PostModel::Operand(v),
        TokenModel::Variable(nm) => PostModel::Variable(nm),
        TokenModel::LeftParen => PostModel::Operand(0),
        TokenModel::RightParen => PostModel::Operand(0),
    }
}

/// Drains the operator stack at the end of the input, emitting operators.
pub open spec fn sy_drain(stack: Seq<StackItem>, out: Seq<PostModel>) -> Seq<PostModel>
    decreases stack.len(),
{
    if stack.len() == 0 {
        out
    } else {
        match stack.last() {
            StackItem::OpItem(op) => sy_drain(
                stack.drop_last(),
                out.push(PostModel::Operator(op)),
            ),
            StackItem::ParenItem => sy_drain(stack.drop_last(), out),
        }
    }
}

/// The shunting-yard run from position `i` with the given operator stack
/// and output, one push or pop per step: atoms go to the output, a close
/// parenthesis pops operators until the matching open one, an operator
/// first pops stacked operators of equal or higher tier.
pub open spec fn sy_from(
    ts: Seq<TokenModel>,
    i: int,
    stack: Seq<StackItem>,
    out: Seq<PostModel>,
) -> Seq<PostModel>
    recommends
        0 <= i <= ts.len(),
    decreases ts.len() - i, stack.len(),
{
    if i < 0 || i >= ts.len() {
        sy_drain(stack, out)
    } else {
        match ts[i] {
            TokenModel::Operand(v) => sy_from(ts, i + 1, stack, out.push(PostModel::Operand(v))),
            TokenModel::Variable(nm) => sy_from(
                ts,
                i + 1,
                stack,
                out.push(PostModel::Variable(nm)),
            ),
            TokenModel::LeftParen => sy_from(ts, i + 1, stack.push(StackItem::ParenItem), out),
            TokenModel::RightParen => {
                if stack.len() == 0 {
                    sy_from(ts, i + 1, stack, out)
                } else {
                    match stack.last() {
                        StackItem::ParenItem => sy_from(ts, i + 1, stack.drop_last(), out),
                        StackItem::OpItem(op) => sy_from(
                            ts,
                            i,
                            stack.drop_last(),
                            out.push(PostModel::Operator(op)),
                        ),
                    }
                }
            },
            TokenModel::Operator(op) => {
                if stack.len() == 0 {
                    sy_from(ts, i + 1, stack.push(StackItem::OpItem(op)), out)
                } else {
                    match stack.last() {
                        StackItem::ParenItem => sy_from(
                            ts,
                            i + 1,
                            stack.push(StackItem::OpItem(op)),
                            out,
                        ),
                        StackItem::OpItem(top) => {
                            if tier(top) >= tier(op) {
                                sy_from(
                                    ts,
                                    i,
                                    stack.drop_last(),
                                    out.push(PostModel::Operator(top)),
                                )
                            } else {
                                sy_from(ts, i + 1, stack.push(StackItem::OpItem(op)), out)
                            }
                        },
                    }
                }
            },
        }
    }
}

/// The postfix form of an infix token sequence.
pub open spec fn spec_infix_to_postfix(ts: Seq<TokenModel>) -> Seq<PostModel> {
    sy_from(ts, 0, Seq::empty(), Seq::empty())
}

/// Operands and variables in a postfix sequence.
pub open spec fn count_atoms(p: Seq<PostModel>) -> nat
    decreases p.len(),
{
    if p.len() == 0 {
        0
    } else {
        count_atoms(p.drop_last()) + if p.last() is Operator {
            0nat
        } else {
            1nat
        }
    }
}

/// Operators in a postfix sequence.
pub open spec fn count_ops(p: Seq<PostModel>) -> nat
    decreases p.len(),
{
    if p.len() == 0 {
        0
    } else {
        count_ops(p.drop_last()) + if p.last() is Operator {
            1nat
        } else {
            0nat
        }
    }
}

/// Every nonempty prefix has more atoms than operators.
pub open spec fn prefix_ok(p: Seq<PostModel>) -> bool {
    forall|k: int|
        0 < k <= p.len() ==> count_atoms(#[trigger] p.take(k)) >= count_ops(p.take(k)) + 1
}

/// A well-formed postfix sequence: evaluating it with a stack machine
/// never pops an empty stack and finishes with exactly one value.
pub open spec fn rpn_wf(p: Seq<PostModel>) -> bool {
    &&& prefix_ok(p)
    &&& count_atoms(p) == count_ops(p) + 1
}

/// Operators on the conversion stack.
pub open spec fn stack_ops(stack: Seq<StackItem>) -> nat
    decreases stack.len(),
{
    if stack.len() == 0 {
        0
    } else {
        stack_ops(stack.drop_last()) + if stack.last() is OpItem {
            1nat
        } else {
            0nat
        }
    }
}

/// Open parentheses on the conversion stack.
pub open spec fn stack_parens(stack: Seq<StackItem>) -> nat
    decreases stack.len(),
{
    if stack.len() == 0 {
        0
    } else {
        stack_parens(stack.drop_last()) + if stack.last() is ParenItem {
            1nat
        } else {
            0nat
        }
    }
}

/// After the first `i` tokens the converter expects an operator or a close
/// parenthesis (rather than an atom or an open parenthesis).
pub open spec fn op_expected(ts: Seq<TokenModel>, i: int) -> bool {
    i > 0 && (is_atom(ts[i - 1]) || ts[i - 1] is RightParen)
}

proof fn lemma_count_push(p: Seq<PostModel>, x: PostModel)
    ensures
        count_atoms(p.push(x)) == count_atoms(p) + if x is Operator {
            0nat
        } else {
            1nat
        },
        count_ops(p.push(x)) == count_ops(p) + if x is Operator {
            1nat
        } else {
            0nat
        },
{
    assert(p.push(x).drop_last() =~= p);
    assert(p.push(x).last() == x);
}

proof fn lemma_stack_push(s: Seq<StackItem>, x: StackItem)
    ensures
        stack_ops(s.push(x)) == stack_ops(s) + if x is OpItem {
            1nat
        } else {
            0nat
        },
        stack_parens(s.push(x)) == stack_parens(s) + if x is ParenItem {
            1nat
        } else {
            0nat
        },
{
    assert(s.push(x).drop_last() =~= s);
    assert(s.push(x).last() == x);
}

proof fn lemma_prefix_push(p: Seq<PostModel>, x: PostModel)
    requires
        prefix_ok(p),
        count_atoms(p) + if x is Operator {
            0nat
        } else {
            1nat
        } >= count_ops(p) + if x is Operator {
            1nat
        } else {
            0nat
        } + 1,
    ensures
        prefix_ok(p.push(x)),
{
    lemma_count_push(p, x);
    assert forall|k: int|
        0 < k <= p.push(x).len() implies count_atoms(#[trigger] p.push(x).take(k)) >= count_ops(
        p.push(x).take(k),
    ) + 1 by {
        if k <= p.len() {
            assert(p.push(x).take(k) =~= p.take(k));
        } else {
            assert(p.push(x).take(k) =~= p.push(x));
        }
    }
}

proof fn lemma_depth_take(ts: Seq<TokenModel>, i: int)
    requires
        0 <= i < ts.len(),
    ensures
        spec_depth(ts.take(i + 1)) == spec_depth(ts.take(i)) + paren_delta(ts[i]),
{
    assert(ts.take(i + 1).drop_last() =~= ts.take(i));
    assert(ts.take(i + 1).last() == ts[i]);
}

proof fn lemma_drain_rpn(stack: Seq<StackItem>, out: Seq<PostModel>)
    requires
        stack_parens(stack) == 0,
        count_atoms(out) == count_ops(out) + stack_ops(stack) + 1,
        prefix_ok(out),
    ensures
        rpn_wf(sy_drain(stack, out)),
    decreases stack.len(),
{
    if stack.len() > 0 {
        match stack.last() {
            StackItem::OpItem(op) => {
                let x = PostModel::Operator(op);
                lemma_count_push(out, x);
                lemma_prefix_push(out, x);
                lemma_drain_rpn(stack.drop_last(), out.push(x));
            },
            StackItem::ParenItem => {
                // contradicts stack_parens(stack) == 0
                assert(false);
            },
        }
    }
}

#[verifier::spinoff_prover]
#[verifier::rlimit(100)]
proof fn lemma_sy_rpn(ts: Seq<TokenModel>, i: int, stack: Seq<StackItem>, out: Seq<PostModel>)
    requires
        wf_infix(ts),
        0 <= i <= ts.len(),
        stack_parens(stack) == spec_depth(ts.take(i)),
        count_atoms(out) == count_ops(out) + stack_ops(stack) + if op_expected(ts, i) {
            1nat
        } else {
            0nat
        },
        prefix_ok(out),
    ensures
        rpn_wf(sy_from(ts, i, stack, out)),
    decreases ts.len() - i, stack.len(),
{
    assert(ts.take(ts.len() as int) =~= ts);
    if i >= ts.len() {
        assert(op_expected(ts, i)) by {
            assert(ts.len() > 0);
            assert(!(ts.last() is Operator) && !(ts.last() is LeftParen));
        }
        assert(spec_depth(ts.take(i)) == 0);
        lemma_drain_rpn(stack, out);
    } else {
        if 1 <= i {
            assert(pair_error(ts[i - 1], ts[i]) is None);
        }
        lemma_depth_take(ts, i);
        match ts[i] {
            TokenModel::Operand(v) => {
                let x = PostModel::Operand(v);
                assert(!op_expected(ts, i));
                lemma_count_push(out, x);
                lemma_prefix_push(out, x);
                lemma_sy_rpn(ts, i + 1, stack, out.push(x));
            },
            TokenModel::Variable(nm) => {
                let x = PostModel::Variable(nm);
                assert(!op_expected(ts, i));
                lemma_count_push(out, x);
                lemma_prefix_push(out, x);
                lemma_sy_rpn(ts, i + 1, stack, out.push(x));
            },
            TokenModel::LeftParen => {
                assert(!op_expected(ts, i));
                lemma_stack_push(stack, StackItem::ParenItem);
                lemma_sy_rpn(ts, i + 1, stack.push(StackItem::ParenItem), out);
            },
            TokenModel::RightParen => {
                assert(op_expected(ts, i));
                assert(spec_depth(ts.take(i + 1)) >= 0);
                assert(stack_parens(stack) >= 1);
                assert(stack.len() > 0);
                match stack.last() {
                    StackItem::ParenItem => {
                        lemma_sy_rpn(ts, i + 1, stack.drop_last(), out);
                    },
                    StackItem::OpItem(op) => {
                        let x = PostModel::Operator(op);
                        lemma_count_push(out, x);
                        lemma_prefix_push(out, x);
                        lemma_sy_rpn(ts, i, stack.drop_last(), out.push(x));
                    },
                }
            },
            TokenModel::Operator(op) => {
                assert(op_expected(ts, i));
                if stack.len() == 0 {
                    lemma_stack_push(stack, StackItem::OpItem(op));
                    lemma_sy_rpn(ts, i + 1, stack.push(StackItem::OpItem(op)), out);
                } else {
                    match stack.last() {
                        StackItem::ParenItem => {
                            lemma_stack_push(stack, StackItem::OpItem(op));
                            lemma_sy_rpn(ts, i + 1, stack.push(StackItem::OpItem(op)), out);
                        },
                        StackItem::OpItem(top) => {
                            if tier(top) >= tier(op) {
                                let x = PostModel::Operator(top);
                                lemma_count_push(out, x);
                                lemma_prefix_push(out, x);
                                lemma_sy_rpn(ts, i, stack.drop_last(), out.push(x));
                            } else {
                                lemma_stack_push(stack, StackItem::OpItem(op));
                                lemma_sy_rpn(ts, i + 1, stack.push(StackItem::OpItem(op)), out);
                            }
                        },
                    }
                }
            },
        }
    }
}

/// Converting any well-formed infix sequence yields a well-formed postfix
/// sequence: a stack evaluation of it never underflows and finishes with
/// exactly one value.
pub proof fn lemma_wf_infix_to_rpn(ts: Seq<TokenModel>)
    requires
        wf_infix(ts),
    ensures
        rpn_wf(spec_infix_to_postfix(ts)),
{
    assert(ts.take(0) =~= Seq::<TokenModel>::empty());
    lemma_sy_rpn(ts, 0, Seq::empty(), Seq::empty());
}

proof fn lemma_canonical_push(out: Seq<PostModel>, x: PostModel)
    requires
        all_canonical(out),
        canonical_token(x),
    ensures
        all_canonical(out.push(x)),
{
    assert forall|k: int|
        0 <= k < out.push(x).len() implies canonical_token(#[trigger] out.push(x)[k]) by {
        if k < out.len() {
            assert(out.push(x)[k] == out[k]);
        } else {
            assert(out.push(x)[k] == x);
        }
    }
}

proof fn lemma_drain_canonical(stack: Seq<StackItem>, out: Seq<PostModel>)
    requires
        all_canonical(out),
    ensures
        all_canonical(sy_drain(stack, out)),
    decreases stack.len(),
{
    if stack.len() > 0 {
        match stack.last() {
            StackItem::OpItem(op) => {
                lemma_canonical_push(out, PostModel::Operator(op));
                lemma_drain_canonical(stack.drop_last(), out.push(PostModel::Operator(op)));
            },
            StackItem::ParenItem => {
                lemma_drain_canonical(stack.drop_last(), out);
            },
        }
    }
}

proof fn lemma_sy_canonical(ts: Seq<TokenModel>, i: int, stack: Seq<StackItem>, out: Seq<PostModel>)
    requires
        0 <= i,
        all_canonical_infix(ts),
        all_canonical(out),
    ensures
        all_canonical(sy_from(ts, i, stack, out)),
    decreases ts.len() - i, stack.len(),
{
    if i >= ts.len() {
        lemma_drain_canonical(stack, out);
    } else {
        match ts[i] {
            TokenModel::Operand(v) => {
                lemma_canonical_push(out, PostModel::Operand(v));
                lemma_sy_canonical(ts, i + 1, stack, out.push(PostModel::Operand(v)));
            },
            TokenModel::Variable(nm) => {
                assert(canonical_infix(ts[i]));
                lemma_canonical_push(out, PostModel::Variable(nm));
                lemma_sy_canonical(ts, i + 1, stack, out.push(PostModel::Variable(nm)));
            },
            TokenModel::LeftParen => {
                lemma_sy_canonical(ts, i + 1, stack.push(StackItem::ParenItem), out);
            },
            TokenModel::RightParen => {
                if stack.len() == 0 {
                    lemma_sy_canonical(ts, i + 1, stack, out);
                } else {
                    match stack.last() {
                        StackItem::ParenItem => {
                            lemma_sy_canonical(ts, i + 1, stack.drop_last(), out);
                        },
                        StackItem::OpItem(op) => {
                            lemma_canonical_push(out, PostModel::Operator(op));
                            lemma_sy_canonical(
                                ts,
                                i,
                                stack.drop_last(),
                                out.push(PostModel::Operator(op)),
                            );
                        },
                    }
                }
            },
            TokenModel::Operator(op) => {
                if stack.len() == 0 {
                    lemma_sy_canonical(ts, i + 1, stack.push(StackItem::OpItem(op)), out);
                } else {
                    match stack.last() {
                        StackItem::ParenItem => {
                            lemma_sy_canonical(ts, i + 1, stack.push(StackItem::OpItem(op)), out);
                        },
                        StackItem::OpItem(top) => {
                            if tier(top) >= tier(op) {
                                lemma_canonical_push(out, PostModel::Operator(top));
                                lemma_sy_canonical(
                                    ts,
                                    i,
                                    stack.drop_last(),
                                    out.push(PostModel::Operator(top)),
                                );
                            } else {
                                lemma_sy_canonical(
                                    ts,
                                    i + 1,
                                    stack.push(StackItem::OpItem(op)),
                                    out,
                                );
                            }
                        },
                    }
                }
            },
        }
    }
}

/// Every token of a converted expression is canonical: its rendering
/// reads back as the same token.
pub proof fn lemma_converted_tokens_canonical(s: Seq<char>)
    ensures
        all_canonical(spec_infix_to_postfix(spec_tokenize(s))),
{
    lemma_tokenize_canonical(s);
    assert(all_canonical(Seq::<PostModel>::empty()));
    lemma_sy_canonical(spec_tokenize(s), 0, Seq::empty(), Seq::empty());
}

fn top_op(stack: &Vec<StackItem>) -> (r: Option<Operator>)
    ensures
        r matches Some(op) ==> stack@.len() > 0 && stack@.last() == StackItem::OpItem(op),
        r is None ==> stack@.len() == 0 || stack@.last() is ParenItem,
{
    if stack.len() == 0 {
        None
    } else {
        match stack[stack.len() - 1] {
            StackItem::OpItem(op) => Some(op),
            StackItem::ParenItem => None,
        }
    }
}

/// Transforms an infix expression to a postfix expression.
///
/// If the infix expression is valid, outputs `Some(_)`; otherwise, outputs
/// `None`.  The output is the shunting-yard conversion and is a
/// well-formed postfix sequence.
pub fn infix_to_postfix(tokens: &Vec<InfixToken>) -> (r: Option<Vec<PostfixToken>>)
    ensures
        r is Some <==> spec_validate(view_tokens(tokens@)) is Ok,
        r matches Some(p) ==> view_post(p@) == spec_infix_to_postfix(view_tokens(tokens@))
            && rpn_wf(view_post(p@)),
{
    let ghost v = view_tokens(tokens@);
    if !check_valid(tokens) {
        return None;
    }
    proof {
        lemma_validate_ok_iff_wf(v);
    }
    let ghost target = sy_from(v, 0, Seq::empty(), Seq::empty());
    let n = tokens.len();
    let mut stack: Vec<StackItem> = Vec::new();
    let mut out: Vec<PostfixToken> = Vec::new();
    let mut i: usize = 0;
    proof {
        assert(view_post(out@) =~= Seq::<PostModel>::empty());
    }
    while i < n
        invariant
            v == view_tokens(tokens@),
            n == tokens@.len(),
            i <= n,
            sy_from(v, i as int, stack@, view_post(out@)) == target,
        decreases n - i,
    {
        let ghost out0 = view_post(out@);
        match &tokens[i] {
            InfixToken::Operand(val) => {
                out.push(PostfixToken::Operand(*val));
                proof {
                    assert(v[i as int] == tokens@[i as int]@);
                    assert(view_post(out@) =~= out0.push(PostModel::Operand(*val)));
                }
            },
            InfixToken::Variable(name) => {
                out.push(PostfixToken::Variable(name.clone()));
                proof {
                    assert(v[i as int] == tokens@[i as int]@);
                    assert(view_post(out@) =~= out0.push(PostModel::Variable(name@)));
                }
            },
            InfixToken::LeftParen => {
                stack.push(StackItem::ParenItem);
                proof {
                    assert(v[i as int] == tokens@[i as int]@);
                }
            },
            InfixToken::RightParen => {
                proof {
                    assert(v[i as int] == tokens@[i as int]@);
                }
                loop
                    invariant
                        i < v.len(),
                        v[i as int] is RightParen,
                        sy_from(v, i as int, stack@, view_post(out@)) == target,
                    ensures
                        sy_from(v, i as int, stack@, view_post(out@)) == target,
                        stack@.len() == 0 || stack@.last() is ParenItem,
                    decreases stack@.len(),
                {
                    let ghost out1 = view_post(out@);
                    match top_op(&stack) {
                        None => { break ; },
                        Some(op) => {
                            stack.pop();
                            out.push(PostfixToken::Operator(op));
                            proof {
                                assert(view_post(out@) =~= out1.push(PostModel::Operator(op)));
                            }
                        },
                    }
                }
                if stack.len() > 0 {
                    stack.pop();
                }
            },
            InfixToken::Operator(op) => {
                proof {
                    assert(v[i as int] == tokens@[i as int]@);
                }
                let cur = *op;
                loop
                    invariant
                        i < v.len(),
                        v[i as int] == TokenModel::Operator(cur),
                        sy_from(v, i as int, stack@, view_post(out@)) == target,
                    ensures
                        sy_from(v, i as int, stack@, view_post(out@)) == target,
                        stack@.len() == 0 || stack@.last() is ParenItem || (
                        stack@.last() matches StackItem::OpItem(t) && tier(t) < tier(cur)),
                    decreases stack@.len(),
                {
                    let ghost out1 = view_post(out@);
                    match top_op(&stack) {
                        None => { break ; },
                        Some(top) => {
                            if op_tier(top) >= op_tier(cur) {
                                stack.pop();
                                out.push(PostfixToken::Operator(top));
                                proof {
                                    assert(view_post(out@) =~= out1.push(
                                        PostModel::Operator(top),
                                    ));
                                }
                            } else {
                                break ;
                            }
                        },
                    }
                }
                stack.push(StackItem::OpItem(cur));
            },
        }
        i = i + 1;
    }
    while stack.len() != 0
        invariant
            v.len() == n,
            sy_from(v, n as int, stack@, view_post(out@)) == target,
        decreases stack@.len(),
    {
        let ghost out0 = view_post(out@);
        match stack.pop() {
            Some(StackItem::OpItem(op)) => {
                out.push(PostfixToken::Operator(op));
                proof {
                    assert(view_post(out@) =~= out0.push(PostModel::Operator(op)));
                }
            },
            Some(StackItem::ParenItem) => {},
            None => {},
        }
    }
    proof {
        lemma_wf_infix_to_rpn(v);
    }
    Some(out)
}

/// Chains of equal tier fold left to right, and a higher tier folds before
/// a following lower tier: `x o1 y o2 z` converts to `x y o1 z o2`
/// whenever `tier(o1) >= tier(o2)`.  In particular `a - b + c` means
/// `(a - b) + c`.
pub proof fn lemma_left_associative(
    x: TokenModel,
    o1: Operator,
    y: TokenModel,
    o2: Operator,
    z: TokenModel,
)
    requires
        is_atom(x),
        is_atom(y),
        is_atom(z),
        tier(o1) >= tier(o2),
    ensures
        spec_infix_to_postfix(
            seq![x, TokenModel::Operator(o1), y, TokenModel::Operator(o2), z],
        ) == seq![
            post_of_infix(x),
            post_of_infix(y),
            PostModel::Operator(o1),
            post_of_infix(z),
            PostModel::Operator(o2),
        ],
{
    let ts = seq![x, TokenModel::Operator(o1), y, TokenModel::Operator(o2), z];
    let px = post_of_infix(x);
    let py = post_of_infix(y);
    let pz = post_of_infix(z);
    let e: Seq<StackItem> = Seq::empty();
    let o: Seq<PostModel> = Seq::empty();
    assert(sy_from(ts, 0, e, o) == sy_from(ts, 1, e, o.push(px)));
    assert(sy_from(ts, 1, e, o.push(px)) == sy_from(
        ts,
        2,
        e.push(StackItem::OpItem(o1)),
        o.push(px),
    ));
    let s1 = e.push(StackItem::OpItem(o1));
    assert(sy_from(ts, 2, s1, o.push(px)) == sy_from(ts, 3, s1, o.push(px).push(py)));
    let o2s = o.push(px).push(py);
    assert(s1.last() == StackItem::OpItem(o1));
    assert(sy_from(ts, 3, s1, o2s) == sy_from(ts, 3, s1.drop_last(), o2s.push(
        PostModel::Operator(o1),
    )));
    assert(s1.drop_last() =~= e);
    let o3 = o2s.push(PostModel::Operator(o1));
    assert(sy_from(ts, 3, e, o3) == sy_from(ts, 4, e.push(StackItem::OpItem(o2)), o3));
    let s2 = e.push(StackItem::OpItem(o2));
    assert(sy_from(ts, 4, s2, o3) == sy_from(ts, 5, s2, o3.push(pz)));
    let o4 = o3.push(pz);
    assert(sy_from(ts, 5, s2, o4) == sy_drain(s2, o4));
    assert(s2.last() == StackItem::OpItem(o2));
    assert(sy_drain(s2, o4) == sy_drain(s2.drop_last(), o4.push(PostModel::Operator(o2))));
    assert(s2.drop_last() =~= e);
    let o5 = o4.push(PostModel::Operator(o2));
    assert(sy_drain(e, o5) == o5);
    assert(o5 =~= seq![px, py, PostModel::Operator(o1), pz, PostModel::Operator(o2)]);
}

} // verus!
