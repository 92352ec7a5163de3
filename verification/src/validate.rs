//! Structural validation of infix token sequences.
//!
//! All rejection of malformed expressions happens here, before conversion:
//! the tokenizer is total, and the converter and evaluator only run on
//! sequences this module accepts.

use crate::tokens::{view_tokens, InfixToken, TokenModel};
use vstd::prelude::*;

verus! {

/// Why an infix token sequence is rejected.
#[derive(Clone, Copy, Debug, PartialEq, Eq, Structural)]
pub enum ValidationError {
    EmptyExpression,
    TrailingOperator,
    TrailingOpenParen,
    LeadingOperator,
    LeadingCloseParen,
    AdjacentOperands,
    UnbalancedParens,
    MisplacedOperator,
    MisplacedParen,
}

/// Operand or variable: the atoms of an expression.
pub open spec fn is_atom(t: TokenModel) -> bool {
    t is Operand || t is Variable
}

/// The rule violated by `prev` immediately followed by `cur`, if any.
pub open spec fn pair_error(prev: TokenModel, cur: TokenModel) -> Option<ValidationError> {
    if is_atom(cur) && (is_atom(prev) || prev is RightParen) {
        Some(ValidationError::AdjacentOperands)
    } else if cur is LeftParen && (is_atom(prev) || prev is RightParen) {
        Some(ValidationError::MisplacedParen)
    } else if cur is Operator && (prev is LeftParen || prev is Operator) {
        Some(ValidationError::MisplacedOperator)
    } else if cur is RightParen && (prev is LeftParen || prev is Operator) {
        Some(ValidationError::MisplacedParen)
    } else {
        None
    }
}

/// First pairwise violation at or after position `i`, scanning left to right.
pub open spec fn spec_pair_scan(ts: Seq<TokenModel>, i: int) -> Option<ValidationError>
    recommends
        1 <= i,
    decreases ts.len() - i,
{
    if i >= ts.len() {
        None
    } else {
        match pair_error(ts[i - 1], ts[i]) {
            Some(e) => Some(e),
            None => spec_pair_scan(ts, i + 1),
        }
    }
}

/// Paren-depth contribution of one token.
pub open spec fn paren_delta(t: TokenModel) -> int {
    if t is LeftParen {
        1
    } else if t is RightParen {
        -1
    } else {
        0
    }
}

/// Running paren depth after a prefix.
pub open spec fn spec_depth(ts: Seq<TokenModel>) -> int
    decreases ts.len(),
{
    if ts.len() == 0 {
        0
    } else {
        spec_depth(ts.drop_last()) + paren_delta(ts.last())
    }
}

/// Parentheses balance: the running depth never goes negative and is zero
/// at the end.
pub open spec fn balanced(ts: Seq<TokenModel>) -> bool {
    &&& forall|k: int| 0 <= k <= ts.len() ==> spec_depth(#[trigger] ts.take(k)) >= 0
    &&& spec_depth(ts) == 0
}

/// The validation outcome of a token sequence; the reported error is the
/// first violation in scan order: emptiness, the last token, the first
/// token, adjacent pairs left to right, parentheses balance.
pub open spec fn spec_validate(ts: Seq<TokenModel>) -> Result<(), ValidationError> {
    if ts.len() == 0 {
        Err(ValidationError::EmptyExpression)
    } else if ts.last() is Operator {
        Err(ValidationError::TrailingOperator)
    } else if ts.last() is LeftParen {
        Err(ValidationError::TrailingOpenParen)
    } else if ts[0] is RightParen {
        Err(ValidationError::LeadingCloseParen)
    } else if ts[0] is Operator {
        Err(ValidationError::LeadingOperator)
    } else {
        match spec_pair_scan(ts, 1) {
            Some(e) => Err(e),
            None => if !balanced(ts) {
                Err(ValidationError::UnbalancedParens)
            } else {
                Ok(())
            },
        }
    }
}

/// A structurally well-formed infix sequence, stated rule by rule.
pub open spec fn wf_infix(ts: Seq<TokenModel>) -> bool {
    &&& ts.len() > 0
    &&& !(ts.last() is Operator)
    &&& !(ts.last() is LeftParen)
    &&& !(ts[0] is RightParen)
    &&& !(ts[0] is Operator)
    &&& forall|k: int| 1 <= k < ts.len() ==> pair_error(ts[k - 1], #[trigger] ts[k]) is None
    &&& balanced(ts)
}

proof fn lemma_pair_scan_none_iff(ts: Seq<TokenModel>, i: int)
    requires
        1 <= i,
    ensures
        spec_pair_scan(ts, i) is None <==> (forall|k: int|
            i <= k < ts.len() ==> pair_error(ts[k - 1], #[trigger] ts[k]) is None),
    decreases ts.len() - i,
{
    if i < ts.len() {
        lemma_pair_scan_none_iff(ts, i + 1);
    }
}

/// Validation succeeds exactly on the well-formed sequences.
pub proof fn lemma_validate_ok_iff_wf(ts: Seq<TokenModel>)
    ensures
        spec_validate(ts) is Ok <==> wf_infix(ts),
{
    lemma_pair_scan_none_iff(ts, 1);
}

/// Checks the structural rules, reporting the first violation in scan
/// order; conversion and evaluation must not run on a rejected sequence.
#[verifier::loop_isolation(false)]
pub fn validate(tokens: &Vec<InfixToken>) -> (r: Result<(), ValidationError>)
    ensures
        r == spec_validate(view_tokens(tokens@)),
{
    let ghost v = view_tokens(tokens@);
    let n = tokens.len();
    if n == 0 {
        return Err(ValidationError::EmptyExpression);
    }
    proof {
        assert(v[n - 1] == tokens@[n - 1]@);
    }
    if matches!(tokens[n - 1], InfixToken::Operator(_)) {
        return Err(ValidationError::TrailingOperator);
    }
    if matches!(tokens[n - 1], InfixToken::LeftParen) {
        return Err(ValidationError::TrailingOpenParen);
    }
    if matches!(tokens[0], InfixToken::RightParen) {
        return Err(ValidationError::LeadingCloseParen);
    }
    if matches!(tokens[0], InfixToken::Operator(_)) {
        return Err(ValidationError::LeadingOperator);
    }
    let mut i: usize = 1;
    while i < n
        invariant
            1 <= i <= n,
            spec_pair_scan(v, 1) == spec_pair_scan(v, i as int),
        decreases n - i,
    {
        let cur_atom = matches!(tokens[i], InfixToken::Operand(_) | InfixToken::Variable(_));
        let cur_lp = matches!(tokens[i], InfixToken::LeftParen);
        let cur_op = matches!(tokens[i], InfixToken::Operator(_));
        let cur_rp = matches!(tokens[i], InfixToken::RightParen);
        let prev_atom = matches!(tokens[i - 1], InfixToken::Operand(_) | InfixToken::Variable(_));
        let prev_lp = matches!(tokens[i - 1], InfixToken::LeftParen);
        let prev_op = matches!(tokens[i - 1], InfixToken::Operator(_));
        let prev_rp = matches!(tokens[i - 1], InfixToken::RightParen);
        proof {
            assert(v[i as int] == tokens@[i as int]@);
            assert(v[i - 1] == tokens@[i - 1]@);
        }
        if cur_atom && (prev_atom || prev_rp) {
            return Err(ValidationError::AdjacentOperands);
        }
        if cur_lp && (prev_atom || prev_rp) {
            return Err(ValidationError::MisplacedParen);
        }
        if cur_op && (prev_lp || prev_op) {
            return Err(ValidationError::MisplacedOperator);
        }
        if cur_rp && (prev_lp || prev_op) {
            return Err(ValidationError::MisplacedParen);
        }
        i = i + 1;
    }
    let mut depth: i128 = 0;
    let mut j: usize = 0;
    while j < n
        invariant
            0 <= j <= n,
            depth == spec_depth(v.take(j as int)),
            -(j as int) <= depth <= j as int,
            forall|k: int| 0 <= k <= j ==> spec_depth(#[trigger] v.take(k)) >= 0,
        decreases n - j,
    {
        let delta: i128 = if matches!(tokens[j], InfixToken::LeftParen) {
            1
        } else if matches!(tokens[j], InfixToken::RightParen) {
            -1
        } else {
            0
        };
        proof {
            assert(v[j as int] == tokens@[j as int]@);
            assert(v.take(j + 1).drop_last() =~= v.take(j as int));
            assert(v.take(j + 1).last() == v[j as int]);
        }
        depth = depth + delta;
        if depth < 0 {
            return Err(ValidationError::UnbalancedParens);
        }
        j = j + 1;
    }
    proof {
        assert(v.take(n as int) =~= v);
    }
    if depth != 0 {
        return Err(ValidationError::UnbalancedParens);
    }
    Ok(())
}

/// Boolean validity: whether `validate` accepts the sequence.
pub fn check_valid(tokens: &Vec<InfixToken>) -> (r: bool)
    ensures
        r == (spec_validate(view_tokens(tokens@)) is Ok),
{
    validate(tokens).is_ok()
}

} // verus!
