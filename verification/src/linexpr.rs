//! Exact rational arithmetic and linear expressions.
//!
//! The evaluator builds linear expressions with exact rational
//! coefficients, one per declared variable, plus a rational constant.
//! Arithmetic that would leave the `i64` component range is reported
//! rather than wrapped or rounded.

use crate::tokens::{i64_string, spec_int_str, usize_string};
use vstd::prelude::*;
use vstd::string::{StrSliceExecFns, StringExecFns};

verus! {

/// Exact rational number with a positive denominator.
#[derive(Clone, Copy, Debug, PartialEq, Eq, Structural)]
pub struct Rational {
    pub num: i64,
    pub den: i64,
}

/// Bound on the magnitude of a product of two `i64` components.
pub open spec fn prod_bound() -> int {
    0x4000_0000_0000_0000_0000_0000_0000_0000
}

impl Rational {
    /// Well-formed: positive denominator.
    pub open spec fn wf(self) -> bool {
        self.den > 0
    }

    /// This rational denotes the value zero.
    pub open spec fn is_zero(self) -> bool {
        self.num == 0
    }

    /// This rational denotes exactly the integer `v`.
    pub open spec fn is_integer(self, v: int) -> bool {
        self.num == v * self.den
    }

    /// Two rationals denote the same value.
    pub open spec fn same(self, other: Rational) -> bool {
        self.num * other.den == other.num * self.den
    }
}

/// The integer `v` as a rational.
pub open spec fn rat_int(v: int) -> Rational
    recommends
        i64::MIN <= v <= i64::MAX,
{
    Rational { num: v as i64, den: 1 }
}

/// Zero as a rational.
pub open spec fn rat_zero() -> Rational {
    Rational { num: 0, den: 1 }
}

/// One as a rational.
pub open spec fn rat_one() -> Rational {
    Rational { num: 1, den: 1 }
}

/// Exact sum as a pair of unbounded integers: numerator, denominator.
pub open spec fn add_exact(a: Rational, b: Rational) -> (int, int) {
    (a.num * b.den + b.num * a.den, a.den * b.den)
}

/// Exact difference.
pub open spec fn sub_exact(a: Rational, b: Rational) -> (int, int) {
    (a.num * b.den - b.num * a.den, a.den * b.den)
}

/// Exact product.
pub open spec fn mul_exact(a: Rational, b: Rational) -> (int, int) {
    (a.num * b.num, a.den * b.den)
}

/// Exact quotient `a / b`, sign-normalized so the denominator stays
/// positive; meaningful only for `b` nonzero.
pub open spec fn div_exact(a: Rational, b: Rational) -> (int, int)
    recommends
        !b.is_zero(),
{
    if b.num > 0 {
        (a.num * b.den, a.den * b.num)
    } else {
        (-(a.num * b.den), -(a.den * b.num))
    }
}

/// Both components fit in `i64`.
pub open spec fn fits(p: (int, int)) -> bool {
    i64::MIN <= p.0 <= i64::MAX && i64::MIN <= p.1 <= i64::MAX
}

/// The rational holding an exact result that fits.
pub open spec fn rat_of(p: (int, int)) -> Rational
    recommends
        fits(p),
{
    Rational { num: p.0 as i64, den: p.1 as i64 }
}

proof fn lemma_prod_bound(x: int, y: int)
    requires
        -0x8000_0000_0000_0000 <= x <= 0x8000_0000_0000_0000,
        -0x8000_0000_0000_0000 <= y <= 0x8000_0000_0000_0000,
    ensures
        -prod_bound() <= x * y <= prod_bound(),
{
    assert(-prod_bound() <= x * y <= prod_bound()) by (nonlinear_arith)
        requires
            -0x8000_0000_0000_0000 <= x <= 0x8000_0000_0000_0000,
            -0x8000_0000_0000_0000 <= y <= 0x8000_0000_0000_0000,
    ;
}

proof fn lemma_num_den_bound(n: int, d: int)
    requires
        -0x8000_0000_0000_0000 <= n <= 0x7fff_ffff_ffff_ffff,
        0 < d <= 0x7fff_ffff_ffff_ffff,
    ensures
        -(prod_bound() - 0x8000_0000_0000_0000) <= n * d <= prod_bound() - 0x8000_0000_0000_0000,
{
    assert(-(prod_bound() - 0x8000_0000_0000_0000) <= n * d <= prod_bound()
        - 0x8000_0000_0000_0000) by (nonlinear_arith)
        requires
            -0x8000_0000_0000_0000 <= n <= 0x7fff_ffff_ffff_ffff,
            0 < d <= 0x7fff_ffff_ffff_ffff,
    ;
}

proof fn lemma_pos_prod(x: int, y: int)
    requires
        x > 0,
        y > 0,
    ensures
        x * y > 0,
{
    assert(x * y > 0) by (nonlinear_arith)
        requires
            x > 0,
            y > 0,
    ;
}

proof fn lemma_neg_prod(x: int, y: int)
    requires
        x > 0,
        y < 0,
    ensures
        x * y < 0,
{
    assert(x * y < 0) by (nonlinear_arith)
        requires
            x > 0,
            y < 0,
    ;
}

fn rat_from_parts(n: i128, d: i128) -> (r: Option<Rational>)
    requires
        d > 0,
    ensures
        r is Some <==> fits((n as int, d as int)),
        r matches Some(c) ==> c == rat_of((n as int, d as int)) && c.wf(),
{
    if n < i64::MIN as i128 || n > i64::MAX as i128 || d > i64::MAX as i128 {
        None
    } else {
        Some(Rational { num: n as i64, den: d as i64 })
    }
}

/// Checked rational addition: exact, or reported as out of range.
pub fn rat_add(a: Rational, b: Rational) -> (r: Option<Rational>)
    requires
        a.wf(),
        b.wf(),
    ensures
        r is Some <==> fits(add_exact(a, b)),
        r matches Some(c) ==> c == rat_of(add_exact(a, b)) && c.wf(),
{
    proof {
        lemma_num_den_bound(a.num as int, b.den as int);
        lemma_num_den_bound(b.num as int, a.den as int);
        lemma_prod_bound(a.den as int, b.den as int);
        lemma_pos_prod(a.den as int, b.den as int);
    }
    let n: i128 = (a.num as i128) * (b.den as i128) + (b.num as i128) * (a.den as i128);
    let d: i128 = (a.den as i128) * (b.den as i128);
    rat_from_parts(n, d)
}

/// Checked rational subtraction.
pub fn rat_sub(a: Rational, b: Rational) -> (r: Option<Rational>)
    requires
        a.wf(),
        b.wf(),
    ensures
        r is Some <==> fits(sub_exact(a, b)),
        r matches Some(c) ==> c == rat_of(sub_exact(a, b)) && c.wf(),
{
    proof {
        lemma_num_den_bound(a.num as int, b.den as int);
        lemma_num_den_bound(b.num as int, a.den as int);
        lemma_prod_bound(a.den as int, b.den as int);
        lemma_pos_prod(a.den as int, b.den as int);
    }
    let n: i128 = (a.num as i128) * (b.den as i128) - (b.num as i128) * (a.den as i128);
    let d: i128 = (a.den as i128) * (b.den as i128);
    rat_from_parts(n, d)
}

/// Checked rational multiplication.
pub fn rat_mul(a: Rational, b: Rational) -> (r: Option<Rational>)
    requires
        a.wf(),
        b.wf(),
    ensures
        r is Some <==> fits(mul_exact(a, b)),
        r matches Some(c) ==> c == rat_of(mul_exact(a, b)) && c.wf(),
{
    proof {
        lemma_prod_bound(a.num as int, b.num as int);
        lemma_prod_bound(a.den as int, b.den as int);
        lemma_pos_prod(a.den as int, b.den as int);
    }
    let n: i128 = (a.num as i128) * (b.num as i128);
    let d: i128 = (a.den as i128) * (b.den as i128);
    rat_from_parts(n, d)
}

/// Checked rational division by a nonzero rational.
pub fn rat_div(a: Rational, b: Rational) -> (r: Option<Rational>)
    requires
        a.wf(),
        b.wf(),
        !b.is_zero(),
    ensures
        r is Some <==> fits(div_exact(a, b)),
        r matches Some(c) ==> c == rat_of(div_exact(a, b)) && c.wf(),
{
    proof {
        lemma_prod_bound(a.num as int, b.den as int);
        lemma_prod_bound(a.den as int, b.num as int);
        if b.num > 0 {
            lemma_pos_prod(a.den as int, b.num as int);
        } else {
            lemma_neg_prod(a.den as int, b.num as int);
        }
    }
    let n0: i128 = (a.num as i128) * (b.den as i128);
    let d0: i128 = (a.den as i128) * (b.num as i128);
    if b.num > 0 {
        rat_from_parts(n0, d0)
    } else {
        rat_from_parts(-n0, -d0)
    }
}

/// Linear expression over the declared variables: one rational coefficient
/// per variable, indexed in registry order, plus a rational constant.
#[derive(Clone, Debug, PartialEq)]
pub struct LinearExpression {
    pub coeffs: Vec<Rational>,
    pub constant: Rational,
}

/// Mathematical model of a linear expression.
pub ghost struct LinModel {
    pub coeffs: Seq<Rational>,
    pub constant: Rational,
}

impl View for LinearExpression {
    type V = LinModel;

    open spec fn view(&self) -> LinModel {
        LinModel { coeffs: self.coeffs@, constant: self.constant }
    }
}

/// Well-formed over `n` variables: one positive-denominator coefficient
/// per variable and a positive-denominator constant.
pub open spec fn lin_wf(e: LinModel, n: nat) -> bool {
    &&& e.coeffs.len() == n
    &&& forall|k: int| 0 <= k < e.coeffs.len() ==> (#[trigger] e.coeffs[k]).wf()
    &&& e.constant.wf()
}

/// A pure constant: every variable coefficient is zero.
pub open spec fn is_constant_expr(e: LinModel) -> bool {
    forall|k: int| 0 <= k < e.coeffs.len() ==> (#[trigger] e.coeffs[k]).is_zero()
}

/// The constant expression of value `v` over `n` variables.
pub open spec fn const_model(n: nat, v: int) -> LinModel {
    LinModel { coeffs: Seq::new(n, |k: int| rat_zero()), constant: rat_int(v) }
}

/// The unit expression of variable `idx` over `n` variables.
pub open spec fn unit_model(n: nat, idx: int) -> LinModel {
    LinModel {
        coeffs: Seq::new(
            n,
            |k: int|
                if k == idx {
                    rat_one()
                } else {
                    rat_zero()
                },
        ),
        constant: rat_zero(),
    }
}

/// Componentwise sums all fit in `i64`.
pub open spec fn lin_add_fits(a: LinModel, b: LinModel) -> bool {
    &&& forall|k: int|
        0 <= k < a.coeffs.len() ==> fits(#[trigger] add_exact(a.coeffs[k], b.coeffs[k]))
    &&& fits(add_exact(a.constant, b.constant))
}

/// Componentwise sum.
pub open spec fn lin_add(a: LinModel, b: LinModel) -> LinModel {
    LinModel {
        coeffs: Seq::new(a.coeffs.len(), |k: int| rat_of(add_exact(a.coeffs[k], b.coeffs[k]))),
        constant: rat_of(add_exact(a.constant, b.constant)),
    }
}

/// Componentwise differences all fit in `i64`.
pub open spec fn lin_sub_fits(a: LinModel, b: LinModel) -> bool {
    &&& forall|k: int|
        0 <= k < a.coeffs.len() ==> fits(#[trigger] sub_exact(a.coeffs[k], b.coeffs[k]))
    &&& fits(sub_exact(a.constant, b.constant))
}

/// Componentwise difference.
pub open spec fn lin_sub(a: LinModel, b: LinModel) -> LinModel {
    LinModel {
        coeffs: Seq::new(a.coeffs.len(), |k: int| rat_of(sub_exact(a.coeffs[k], b.coeffs[k]))),
        constant: rat_of(sub_exact(a.constant, b.constant)),
    }
}

/// Componentwise products with `c` all fit in `i64`.
pub open spec fn lin_scale_fits(e: LinModel, c: Rational) -> bool {
    &&& forall|k: int| 0 <= k < e.coeffs.len() ==> fits(#[trigger] mul_exact(e.coeffs[k], c))
    &&& fits(mul_exact(e.constant, c))
}

/// Every component scaled by `c`.
pub open spec fn lin_scale(e: LinModel, c: Rational) -> LinModel {
    LinModel {
        coeffs: Seq::new(e.coeffs.len(), |k: int| rat_of(mul_exact(e.coeffs[k], c))),
        constant: rat_of(mul_exact(e.constant, c)),
    }
}

/// Componentwise quotients by `c` all fit in `i64`.
pub open spec fn lin_div_fits(e: LinModel, c: Rational) -> bool {
    &&& forall|k: int| 0 <= k < e.coeffs.len() ==> fits(#[trigger] div_exact(e.coeffs[k], c))
    &&& fits(div_exact(e.constant, c))
}

/// Every component divided by `c`.
pub open spec fn lin_div(e: LinModel, c: Rational) -> LinModel {
    LinModel {
        coeffs: Seq::new(e.coeffs.len(), |k: int| rat_of(div_exact(e.coeffs[k], c))),
        constant: rat_of(div_exact(e.constant, c)),
    }
}

impl LinearExpression {
    /// The constant expression of value `v` over `nvars` variables.
    pub fn constant_expr(nvars: usize, v: i64) -> (r: LinearExpression)
        ensures
            r@ == const_model(nvars as nat, v as int),
            lin_wf(r@, nvars as nat),
    {
        let mut coeffs: Vec<Rational> = Vec::new();
        let mut k: usize = 0;
        while k < nvars
            invariant
                k <= nvars,
                coeffs@.len() == k,
                forall|j: int| 0 <= j < k ==> coeffs@[j] == rat_zero(),
            decreases nvars - k,
        {
            coeffs.push(Rational { num: 0, den: 1 });
            k = k + 1;
        }
        let r = LinearExpression { coeffs, constant: Rational { num: v, den: 1 } };
        proof {
            assert(r@.coeffs =~= const_model(nvars as nat, v as int).coeffs);
        }
        r
    }

    /// The unit expression of the variable with index `idx`.
    pub fn unit_expr(nvars: usize, idx: usize) -> (r: LinearExpression)
        requires
            idx < nvars,
        ensures
            r@ == unit_model(nvars as nat, idx as int),
            lin_wf(r@, nvars as nat),
    {
        let mut coeffs: Vec<Rational> = Vec::new();
        let mut k: usize = 0;
        while k < nvars
            invariant
                k <= nvars,
                coeffs@.len() == k,
                forall|j: int|
                    0 <= j < k ==> coeffs@[j] == if j == idx {
                        rat_one()
                    } else {
                        rat_zero()
                    },
            decreases nvars - k,
        {
            if k == idx {
                coeffs.push(Rational { num: 1, den: 1 });
            } else {
                coeffs.push(Rational { num: 0, den: 1 });
            }
            k = k + 1;
        }
        let r = LinearExpression { coeffs, constant: Rational { num: 0, den: 1 } };
        proof {
            assert(r@.coeffs =~= unit_model(nvars as nat, idx as int).coeffs);
        }
        r
    }

    /// Whether this expression is a pure constant.
    pub fn is_constant(&self) -> (b: bool)
        ensures
            b == is_constant_expr(self@),
    {
        let mut k: usize = 0;
        while k < self.coeffs.len()
            invariant
                k <= self.coeffs@.len(),
                forall|j: int| 0 <= j < k ==> (#[trigger] self.coeffs@[j]).is_zero(),
            decreases self.coeffs@.len() - k,
        {
            if self.coeffs[k].num != 0 {
                proof {
                    assert(self@.coeffs[k as int] == self.coeffs@[k as int]);
                    assert(!self@.coeffs[k as int].is_zero());
                    assert(!is_constant_expr(self@));
                }
                return false;
            }
            k = k + 1;
        }
        true
    }

    /// Componentwise sum; reports an out-of-range component as `None`.
    pub fn add_expr(&self, other: &LinearExpression) -> (r: Option<LinearExpression>)
        requires
            self@.coeffs.len() == other@.coeffs.len(),
            lin_wf(self@, self@.coeffs.len()),
            lin_wf(other@, self@.coeffs.len()),
        ensures
            r is Some <==> lin_add_fits(self@, other@),
            r matches Some(e) ==> e@ == lin_add(self@, other@) && lin_wf(e@, self@.coeffs.len()),
    {
        let mut coeffs: Vec<Rational> = Vec::new();
        let mut k: usize = 0;
        while k < self.coeffs.len()
            invariant
                k <= self.coeffs@.len(),
                self@.coeffs.len() == other@.coeffs.len(),
                lin_wf(self@, self@.coeffs.len()),
                lin_wf(other@, self@.coeffs.len()),
                coeffs@.len() == k,
                forall|j: int|
                    0 <= j < k ==> fits(#[trigger] add_exact(self@.coeffs[j], other@.coeffs[j]))
                        && coeffs@[j] == rat_of(add_exact(self@.coeffs[j], other@.coeffs[j]))
                        && coeffs@[j].wf(),
            decreases self.coeffs@.len() - k,
        {
            match rat_add(self.coeffs[k], other.coeffs[k]) {
                Some(c) => { coeffs.push(c); },
                None => { return None; },
            }
            k = k + 1;
        }
        match rat_add(self.constant, other.constant) {
            Some(c) => {
                let r = LinearExpression { coeffs, constant: c };
                proof {
                    assert(r@.coeffs =~= lin_add(self@, other@).coeffs);
                }
                Some(r)
            },
            None => None,
        }
    }

    /// Componentwise difference; reports an out-of-range component as
    /// `None`.
    pub fn sub_expr(&self, other: &LinearExpression) -> (r: Option<LinearExpression>)
        requires
            self@.coeffs.len() == other@.coeffs.len(),
            lin_wf(self@, self@.coeffs.len()),
            lin_wf(other@, self@.coeffs.len()),
        ensures
            r is Some <==> lin_sub_fits(self@, other@),
            r matches Some(e) ==> e@ == lin_sub(self@, other@) && lin_wf(e@, self@.coeffs.len()),
    {
        let mut coeffs: Vec<Rational> = Vec::new();
        let mut k: usize = 0;
        while k < self.coeffs.len()
            invariant
                k <= self.coeffs@.len(),
                self@.coeffs.len() == other@.coeffs.len(),
                lin_wf(self@, self@.coeffs.len()),
                lin_wf(other@, self@.coeffs.len()),
                coeffs@.len() == k,
                forall|j: int|
                    0 <= j < k ==> fits(#[trigger] sub_exact(self@.coeffs[j], other@.coeffs[j]))
                        && coeffs@[j] == rat_of(sub_exact(self@.coeffs[j], other@.coeffs[j]))
                        && coeffs@[j].wf(),
            decreases self.coeffs@.len() - k,
        {
            match rat_sub(self.coeffs[k], other.coeffs[k]) {
                Some(c) => { coeffs.push(c); },
                None => { return None; },
            }
            k = k + 1;
        }
        match rat_sub(self.constant, other.constant) {
            Some(c) => {
                let r = LinearExpression { coeffs, constant: c };
                proof {
                    assert(r@.coeffs =~= lin_sub(self@, other@).coeffs);
                }
                Some(r)
            },
            None => None,
        }
    }

    /// Every component scaled by `c`; reports an out-of-range component as
    /// `None`.
    pub fn mul_const(&self, c: Rational) -> (r: Option<LinearExpression>)
        requires
            lin_wf(self@, self@.coeffs.len()),
            c.wf(),
        ensures
            r is Some <==> lin_scale_fits(self@, c),
            r matches Some(e) ==> e@ == lin_scale(self@, c) && lin_wf(e@, self@.coeffs.len()),
    {
        let mut coeffs: Vec<Rational> = Vec::new();
        let mut k: usize = 0;
        while k < self.coeffs.len()
            invariant
                k <= self.coeffs@.len(),
                lin_wf(self@, self@.coeffs.len()),
                c.wf(),
                coeffs@.len() == k,
                forall|j: int|
                    0 <= j < k ==> fits(#[trigger] mul_exact(self@.coeffs[j], c)) && coeffs@[j]
                        == rat_of(mul_exact(self@.coeffs[j], c)) && coeffs@[j].wf(),
            decreases self.coeffs@.len() - k,
        {
            match rat_mul(self.coeffs[k], c) {
                Some(x) => { coeffs.push(x); },
                None => { return None; },
            }
            k = k + 1;
        }
        match rat_mul(self.constant, c) {
            Some(x) => {
                let r = LinearExpression { coeffs, constant: x };
                proof {
                    assert(r@.coeffs =~= lin_scale(self@, c).coeffs);
                }
                Some(r)
            },
            None => None,
        }
    }

    /// Every component divided by the nonzero `c`; reports an out-of-range
    /// component as `None`.
    pub fn div_const(&self, c: Rational) -> (r: Option<LinearExpression>)
        requires
            lin_wf(self@, self@.coeffs.len()),
            c.wf(),
            !c.is_zero(),
        ensures
            r is Some <==> lin_div_fits(self@, c),
            r matches Some(e) ==> e@ == lin_div(self@, c) && lin_wf(e@, self@.coeffs.len()),
    {
        let mut coeffs: Vec<Rational> = Vec::new();
        let mut k: usize = 0;
        while k < self.coeffs.len()
            invariant
                k <= self.coeffs@.len(),
                lin_wf(self@, self@.coeffs.len()),
                c.wf(),
                !c.is_zero(),
                coeffs@.len() == k,
                forall|j: int|
                    0 <= j < k ==> fits(#[trigger] div_exact(self@.coeffs[j], c)) && coeffs@[j]
                        == rat_of(div_exact(self@.coeffs[j], c)) && coeffs@[j].wf(),
            decreases self.coeffs@.len() - k,
        {
            match rat_div(self.coeffs[k], c) {
                Some(x) => { coeffs.push(x); },
                None => { return None; },
            }
            k = k + 1;
        }
        match rat_div(self.constant, c) {
            Some(x) => {
                let r = LinearExpression { coeffs, constant: x };
                proof {
                    assert(r@.coeffs =~= lin_div(self@, c).coeffs);
                }
                Some(r)
            },
            None => None,
        }
    }
}

/// Rendering of a rational: the numerator, with `/` and the denominator
/// when the latter is not one.
pub open spec fn spec_rat_str(c: Rational) -> Seq<char> {
    if c.den == 1 {
        spec_int_str(c.num as int)
    } else {
        spec_int_str(c.num as int) + seq!['/'] + spec_int_str(c.den as int)
    }
}

/// Decimal string of a rational value.
pub fn rational_string(c: Rational) -> (r: String)
    ensures
        r@ == spec_rat_str(c),
{
    let mut s = i64_string(c.num);
    if c.den != 1 {
        s.push('/');
        let d = i64_string(c.den);
        s.append(d.as_str());
        proof {
            assert(spec_int_str(c.num as int).push('/') + spec_int_str(c.den as int)
                =~= spec_int_str(c.num as int) + seq!['/'] + spec_int_str(c.den as int));
        }
    }
    s
}

/// A coefficient that prints without a factor.
pub open spec fn spec_is_one(c: Rational) -> bool {
    c.num == c.den
}

/// One rendered term: the variable handle `v<j>`, preceded by the
/// coefficient unless it is one.
pub open spec fn spec_term_str(c: Rational, j: int) -> Seq<char> {
    if spec_is_one(c) {
        seq!['v'] + spec_int_str(j)
    } else {
        spec_rat_str(c) + seq![' ', 'v'] + spec_int_str(j)
    }
}

/// Term strings for the variable indices below `j` with nonzero
/// coefficients, highest index first.
pub open spec fn spec_terms_from(coeffs: Seq<Rational>, j: int) -> Seq<Seq<char>>
    decreases j,
{
    if j <= 0 {
        Seq::empty()
    } else {
        let rest = spec_terms_from(coeffs, j - 1);
        if coeffs[j - 1].is_zero() {
            rest
        } else {
            seq![spec_term_str(coeffs[j - 1], j - 1)] + rest
        }
    }
}

/// Parts joined by `" + "`.
pub open spec fn spec_join_plus(parts: Seq<Seq<char>>) -> Seq<char>
    decreases parts.len(),
{
    if parts.len() == 0 {
        Seq::empty()
    } else if parts.len() == 1 {
        parts[0]
    } else {
        spec_join_plus(parts.drop_last()) + seq![' ', '+', ' '] + parts.last()
    }
}

/// Rendering of a linear expression: terms in reverse declaration order,
/// then the constant, omitted when zero unless there are no terms.
pub open spec fn spec_render_expr(e: LinModel) -> Seq<char> {
    let ps = spec_terms_from(e.coeffs, e.coeffs.len() as int);
    let ps2 = if e.constant.is_zero() && ps.len() > 0 {
        ps
    } else {
        ps.push(spec_rat_str(e.constant))
    };
    spec_join_plus(ps2)
}

/// Rendering of the terms alone: `"0"` when every coefficient is zero.
pub open spec fn spec_render_terms(e: LinModel) -> Seq<char> {
    let ps = spec_terms_from(e.coeffs, e.coeffs.len() as int);
    if ps.len() == 0 {
        seq!['0']
    } else {
        spec_join_plus(ps)
    }
}

/// Model of a list of rendered parts.
pub open spec fn view_strings(s: Seq<String>) -> Seq<Seq<char>> {
    s.map(|i: int, p: String| p@)
}

fn term_string(c: Rational, j: usize) -> (r: String)
    ensures
        r@ == spec_term_str(c, j as int),
{
    proof {
        reveal_strlit("v");
        assert("v"@ =~= seq!['v']);
        reveal_strlit(" v");
        assert(" v"@ =~= seq![' ', 'v']);
    }
    if c.num == c.den {
        let mut s = String::from_str("v");
        let d = usize_string(j);
        s.append(d.as_str());
        s
    } else {
        let mut s = rational_string(c);
        s.append(" v");
        let d = usize_string(j);
        s.append(d.as_str());
        proof {
            assert((spec_rat_str(c) + seq![' ', 'v']) + spec_int_str(j as int) =~= spec_rat_str(c)
                + seq![' ', 'v'] + spec_int_str(j as int));
        }
        s
    }
}

fn join_plus(parts: &Vec<String>) -> (r: String)
    ensures
        r@ == spec_join_plus(view_strings(parts@)),
{
    proof {
        reveal_strlit(" + ");
        assert(" + "@ =~= seq![' ', '+', ' ']);
    }
    let mut r = String::new();
    let mut i: usize = 0;
    while i < parts.len()
        invariant
            i <= parts@.len(),
            r@ == spec_join_plus(view_strings(parts@.take(i as int))),
            " + "@ == seq![' ', '+', ' '],
        decreases parts@.len() - i,
    {
        if i > 0 {
            r.append(" + ");
        }
        r.append(parts[i].as_str());
        proof {
            let vp = view_strings(parts@.take(i + 1));
            assert(vp.drop_last() =~= view_strings(parts@.take(i as int)));
            assert(vp.last() == parts@[i as int]@);
            if i == 0 {
                assert(r@ =~= vp[0]);
            } else {
                assert(r@ =~= spec_join_plus(vp.drop_last()) + seq![' ', '+', ' '] + vp.last());
            }
        }
        i = i + 1;
    }
    proof {
        assert(parts@.take(parts@.len() as int) =~= parts@);
    }
    r
}

impl LinearExpression {
    fn term_parts(&self) -> (parts: Vec<String>)
        ensures
            view_strings(parts@) == spec_terms_from(self@.coeffs, self@.coeffs.len() as int),
    {
        let n = self.coeffs.len();
        let mut parts: Vec<String> = Vec::new();
        let mut j: usize = n;
        proof {
            assert(view_strings(parts@) + spec_terms_from(self@.coeffs, n as int)
                =~= spec_terms_from(self@.coeffs, n as int));
        }
        while j > 0
            invariant
                j <= n,
                n == self@.coeffs.len(),
                view_strings(parts@) + spec_terms_from(self@.coeffs, j as int) == spec_terms_from(
                    self@.coeffs,
                    n as int,
                ),
            decreases j,
        {
            let ghost parts0 = view_strings(parts@);
            j = j - 1;
            if self.coeffs[j].num != 0 {
                let t = term_string(self.coeffs[j], j);
                let ghost tm = t@;
                parts.push(t);
                proof {
                    assert(!self@.coeffs[j as int].is_zero());
                    assert(view_strings(parts@) =~= parts0.push(tm));
                    assert(spec_terms_from(self@.coeffs, j + 1) =~= seq![
                        spec_term_str(self@.coeffs[j as int], j as int),
                    ] + spec_terms_from(self@.coeffs, j as int));
                    assert(view_strings(parts@) + spec_terms_from(self@.coeffs, j as int)
                        =~= parts0 + spec_terms_from(self@.coeffs, j + 1));
                }
            } else {
                proof {
                    assert(self@.coeffs[j as int].is_zero());
                    assert(spec_terms_from(self@.coeffs, j + 1) == spec_terms_from(
                        self@.coeffs,
                        j as int,
                    ));
                }
            }
        }
        proof {
            assert(spec_terms_from(self@.coeffs, 0) =~= Seq::<Seq<char>>::empty());
            assert(view_strings(parts@) =~= view_strings(parts@) + Seq::<Seq<char>>::empty());
        }
        parts
    }

    /// Prints this expression, terms in reverse declaration order and the
    /// constant last.
    pub fn render(&self) -> (r: String)
        ensures
            r@ == spec_render_expr(self@),
    {
        let mut parts = self.term_parts();
        if self.constant.num != 0 || parts.len() == 0 {
            let ghost parts0 = view_strings(parts@);
            let c = rational_string(self.constant);
            let ghost cm = c@;
            parts.push(c);
            proof {
                assert(view_strings(parts@) =~= parts0.push(cm));
            }
        }
        join_plus(&parts)
    }

    /// Prints the terms of this expression alone; `"0"` when every
    /// coefficient is zero.
    pub fn render_terms(&self) -> (r: String)
        ensures
            r@ == spec_render_terms(self@),
    {
        let parts = self.term_parts();
        if parts.len() == 0 {
            proof {
                reveal_strlit("0");
                assert("0"@ =~= seq!['0']);
            }
            String::from_str("0")
        } else {
            join_plus(&parts)
        }
    }
}

} // verus!
