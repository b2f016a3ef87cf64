use vstd::prelude::*;

verus! {

/// Mathematical value of an exact fraction: a quotient of two unbounded
/// integers. Two values are the same rational number when `rat_eq` holds;
/// representations are never assumed canonical.
pub ghost struct Rat {
    pub num: int,
    pub den: int,
}

/// A representation denotes a rational number only when its denominator is
/// not zero.
pub open spec fn rat_wf(a: Rat) -> bool {
    a.den != 0
}

/// Equality of the denoted rational numbers, by cross-multiplication.
pub open spec fn rat_eq(a: Rat, b: Rat) -> bool {
    a.num * b.den == b.num * a.den
}

/// Strict order of the denoted rational numbers; meaningful when both
/// denominators are positive.
pub open spec fn rat_lt(a: Rat, b: Rat) -> bool {
    a.num * b.den < b.num * a.den
}

pub open spec fn rat_of_int(n: int) -> Rat {
    Rat { num: n, den: 1 }
}

pub open spec fn rat_add(a: Rat, b: Rat) -> Rat {
    Rat { num: a.num * b.den + b.num * a.den, den: a.den * b.den }
}

pub open spec fn rat_sub(a: Rat, b: Rat) -> Rat {
    Rat { num: a.num * b.den - b.num * a.den, den: a.den * b.den }
}

pub open spec fn rat_mul(a: Rat, b: Rat) -> Rat {
    Rat { num: a.num * b.num, den: a.den * b.den }
}

pub open spec fn rat_div(a: Rat, b: Rat) -> Rat {
    Rat { num: a.num * b.den, den: a.den * b.num }
}

pub open spec fn rat_is_zero(a: Rat) -> bool {
    a.num == 0
}

/// Magnitude of an integer.
pub open spec fn int_abs(x: int) -> int {
    if x >= 0 {
        x
    } else {
        -x
    }
}

/// The numerator magnitude and the denominator are within `bound`. The
/// success clauses of the exact computations promise a result when their
/// inputs lie within such an envelope.
pub open spec fn rat_in_range(v: Rat, bound: int) -> bool {
    int_abs(v.num) <= bound && 0 < v.den <= bound
}

pub proof fn lemma_rat_eq_refl(a: Rat)
    ensures
        rat_eq(a, a),
{
}

pub proof fn lemma_rat_eq_sym(a: Rat, b: Rat)
    requires
        rat_eq(a, b),
    ensures
        rat_eq(b, a),
{
}

pub proof fn lemma_rat_eq_trans(a: Rat, b: Rat, c: Rat)
    by (nonlinear_arith)
    requires
        rat_wf(b),
        rat_eq(a, b),
        rat_eq(b, c),
    ensures
        rat_eq(a, c),
{
}

/// Well-formedness of the operation results.
pub proof fn lemma_rat_ops_wf(a: Rat, b: Rat)
    by (nonlinear_arith)
    requires
        rat_wf(a),
        rat_wf(b),
    ensures
        rat_wf(rat_add(a, b)),
        rat_wf(rat_sub(a, b)),
        rat_wf(rat_mul(a, b)),
        !rat_is_zero(b) ==> rat_wf(rat_div(a, b)),
{
}

/// Multiplying a sum or difference out; proved once so the congruence
/// lemmas stay within linear reasoning.
pub(crate) proof fn lemma_mul_distribute(x: int, y: int, k: int)
    by (nonlinear_arith)
    ensures
        (x + y) * k == x * k + y * k,
        (x - y) * k == x * k - y * k,
{
}

/// The product of two products, regrouped every way the congruence lemmas
/// need.
proof fn lemma_mul_shuffle(x: int, y: int, z: int, w: int)
    by (nonlinear_arith)
    ensures
        (x * y) * (z * w) == (x * z) * (y * w),
        (x * y) * (z * w) == (x * z) * (w * y),
        (x * y) * (z * w) == (x * w) * (y * z),
        (x * y) * (z * w) == (x * w) * (z * y),
{
}

/// Addition respects rational equality.
pub proof fn lemma_rat_add_congruence(a: Rat, a2: Rat, b: Rat, b2: Rat)
    requires
        rat_wf(a),
        rat_wf(a2),
        rat_wf(b),
        rat_wf(b2),
        rat_eq(a, a2),
        rat_eq(b, b2),
    ensures
        rat_eq(rat_add(a, b), rat_add(a2, b2)),
{
    assert((a.num * a2.den) * (b.den * b2.den) == (a2.num * a.den) * (b.den * b2.den));
    assert((b.num * b2.den) * (a.den * a2.den) == (b2.num * b.den) * (a.den * a2.den));
    lemma_mul_distribute(a.num * b.den, b.num * a.den, a2.den * b2.den);
    lemma_mul_distribute(a2.num * b2.den, b2.num * a2.den, a.den * b.den);
    lemma_mul_shuffle(a.num, b.den, a2.den, b2.den);
    lemma_mul_shuffle(b.num, a.den, a2.den, b2.den);
    lemma_mul_shuffle(a2.num, b2.den, a.den, b.den);
    lemma_mul_shuffle(b2.num, a2.den, a.den, b.den);
}

/// Subtraction respects rational equality.
pub proof fn lemma_rat_sub_congruence(a: Rat, a2: Rat, b: Rat, b2: Rat)
    requires
        rat_wf(a),
        rat_wf(a2),
        rat_wf(b),
        rat_wf(b2),
        rat_eq(a, a2),
        rat_eq(b, b2),
    ensures
        rat_eq(rat_sub(a, b), rat_sub(a2, b2)),
{
    assert((a.num * a2.den) * (b.den * b2.den) == (a2.num * a.den) * (b.den * b2.den));
    assert((b.num * b2.den) * (a.den * a2.den) == (b2.num * b.den) * (a.den * a2.den));
    lemma_mul_distribute(a.num * b.den, b.num * a.den, a2.den * b2.den);
    lemma_mul_distribute(a2.num * b2.den, b2.num * a2.den, a.den * b.den);
    lemma_mul_shuffle(a.num, b.den, a2.den, b2.den);
    lemma_mul_shuffle(b.num, a.den, a2.den, b2.den);
    lemma_mul_shuffle(a2.num, b2.den, a.den, b.den);
    lemma_mul_shuffle(b2.num, a2.den, a.den, b.den);
}

/// Multiplication respects rational equality.
pub proof fn lemma_rat_mul_congruence(a: Rat, a2: Rat, b: Rat, b2: Rat)
    requires
        rat_wf(a),
        rat_wf(a2),
        rat_wf(b),
        rat_wf(b2),
        rat_eq(a, a2),
        rat_eq(b, b2),
    ensures
        rat_eq(rat_mul(a, b), rat_mul(a2, b2)),
{
    assert((a.num * a2.den) * (b.num * b2.den) == (a2.num * a.den) * (b2.num * b.den));
    lemma_mul_shuffle(a.num, b.num, a2.den, b2.den);
    lemma_mul_shuffle(a2.num, b2.num, a.den, b.den);
}

/// Division respects rational equality when the divisor is not zero.
pub proof fn lemma_rat_div_congruence(a: Rat, a2: Rat, b: Rat, b2: Rat)
    requires
        rat_wf(a),
        rat_wf(a2),
        rat_wf(b),
        rat_wf(b2),
        !rat_is_zero(b),
        !rat_is_zero(b2),
        rat_eq(a, a2),
        rat_eq(b, b2),
    ensures
        rat_eq(rat_div(a, b), rat_div(a2, b2)),
{
    assert((a.num * a2.den) * (b2.num * b.den) == (a2.num * a.den) * (b2.num * b.den));
    assert((a2.num * a.den) * (b.num * b2.den) == (a2.num * a.den) * (b2.num * b.den));
    lemma_mul_shuffle(a.num, b.den, a2.den, b2.num);
    lemma_mul_shuffle(a2.num, b2.den, a.den, b.num);
}

/// A value known to denote `a + b` also denotes `a2 + b2` whenever `a`, `b`
/// denote the same rationals as `a2`, `b2`. Computed results are rebased
/// onto the specification's own operands this way.
pub proof fn lemma_rat_add_rebase(r: Rat, a: Rat, b: Rat, a2: Rat, b2: Rat)
    requires
        rat_wf(a),
        rat_wf(b),
        rat_wf(a2),
        rat_wf(b2),
        rat_eq(r, rat_add(a, b)),
        rat_eq(a, a2),
        rat_eq(b, b2),
    ensures
        rat_eq(r, rat_add(a2, b2)),
{
    lemma_rat_ops_wf(a, b);
    lemma_rat_add_congruence(a, a2, b, b2);
    lemma_rat_eq_trans(r, rat_add(a, b), rat_add(a2, b2));
}

/// Rebase for subtraction; see `lemma_rat_add_rebase`.
pub proof fn lemma_rat_sub_rebase(r: Rat, a: Rat, b: Rat, a2: Rat, b2: Rat)
    requires
        rat_wf(a),
        rat_wf(b),
        rat_wf(a2),
        rat_wf(b2),
        rat_eq(r, rat_sub(a, b)),
        rat_eq(a, a2),
        rat_eq(b, b2),
    ensures
        rat_eq(r, rat_sub(a2, b2)),
{
    lemma_rat_ops_wf(a, b);
    lemma_rat_sub_congruence(a, a2, b, b2);
    lemma_rat_eq_trans(r, rat_sub(a, b), rat_sub(a2, b2));
}

/// Rebase for multiplication; see `lemma_rat_add_rebase`.
pub proof fn lemma_rat_mul_rebase(r: Rat, a: Rat, b: Rat, a2: Rat, b2: Rat)
    requires
        rat_wf(a),
        rat_wf(b),
        rat_wf(a2),
        rat_wf(b2),
        rat_eq(r, rat_mul(a, b)),
        rat_eq(a, a2),
        rat_eq(b, b2),
    ensures
        rat_eq(r, rat_mul(a2, b2)),
{
    lemma_rat_ops_wf(a, b);
    lemma_rat_mul_congruence(a, a2, b, b2);
    lemma_rat_eq_trans(r, rat_mul(a, b), rat_mul(a2, b2));
}

/// Rebase for division; see `lemma_rat_add_rebase`.
pub proof fn lemma_rat_div_rebase(r: Rat, a: Rat, b: Rat, a2: Rat, b2: Rat)
    requires
        rat_wf(a),
        rat_wf(b),
        rat_wf(a2),
        rat_wf(b2),
        !rat_is_zero(b),
        !rat_is_zero(b2),
        rat_eq(r, rat_div(a, b)),
        rat_eq(a, a2),
        rat_eq(b, b2),
    ensures
        rat_eq(r, rat_div(a2, b2)),
{
    lemma_rat_ops_wf(a, b);
    lemma_rat_div_congruence(a, a2, b, b2);
    lemma_rat_eq_trans(r, rat_div(a, b), rat_div(a2, b2));
}

/// Subtracting and adding back gives the original: `(c - y) + y`
/// denotes `c`.
pub proof fn lemma_rat_sub_add_cancel(c: Rat, y: Rat)
    by (nonlinear_arith)
    requires
        rat_wf(c),
        rat_wf(y),
    ensures
        rat_eq(rat_add(rat_sub(c, y), y), c),
{
}

/// A product with a zero factor denotes zero.
pub proof fn lemma_rat_mul_zero(a: Rat, z: Rat)
    by (nonlinear_arith)
    requires
        rat_is_zero(z),
    ensures
        rat_is_zero(rat_mul(a, z)),
        rat_is_zero(rat_mul(z, a)),
{
}

/// A sum of zeros denotes zero.
pub proof fn lemma_rat_zero_sum(z1: Rat, z2: Rat)
    by (nonlinear_arith)
    requires
        rat_is_zero(z1),
        rat_is_zero(z2),
    ensures
        rat_is_zero(rat_add(z1, z2)),
{
}

/// Adding a zero on either side changes nothing: `z + x` and `x + z`
/// both denote `x`.
pub proof fn lemma_rat_zero_plus(z: Rat, x: Rat)
    by (nonlinear_arith)
    requires
        rat_is_zero(z),
        rat_wf(z),
        rat_wf(x),
    ensures
        rat_eq(rat_add(z, x), x),
        rat_eq(rat_add(x, z), x),
{
}

/// Strict order of denoted rationals is transitive over positive
/// denominators.
pub proof fn lemma_rat_lt_trans(a: Rat, b: Rat, c: Rat)
    by (nonlinear_arith)
    requires
        a.den > 0,
        b.den > 0,
        c.den > 0,
        rat_lt(a, b),
        rat_lt(b, c),
    ensures
        rat_lt(a, c),
{
}

/// The difference of a strictly larger value is nonzero (and positive).
pub proof fn lemma_rat_sub_nonzero(a: Rat, b: Rat)
    requires
        rat_wf(a),
        rat_wf(b),
        rat_lt(a, b),
    ensures
        !rat_is_zero(rat_sub(b, a)),
{
}

/// Denoting the same rational as a nonzero one means being nonzero.
pub proof fn lemma_rat_nonzero_of_eq(a: Rat, b: Rat)
    by (nonlinear_arith)
    requires
        rat_wf(a),
        rat_wf(b),
        rat_eq(a, b),
        !rat_is_zero(b),
    ensures
        !rat_is_zero(a),
{
}

/// Three-factor regrouping of integer products.
proof fn lemma_mul_assoc3(x: int, y: int, z: int)
    by (nonlinear_arith)
    ensures
        (x * y) * z == x * (y * z),
        (x * y) * z == (x * z) * y,
        (x * y) * z == x * (z * y),
{
}

/// Multiplication of rationals associates.
pub proof fn lemma_rat_mul_assoc(a: Rat, b: Rat, c: Rat)
    requires
        rat_wf(a),
        rat_wf(b),
        rat_wf(c),
    ensures
        rat_eq(rat_mul(a, rat_mul(b, c)), rat_mul(rat_mul(a, b), c)),
{
    lemma_mul_assoc3(a.num, b.num, c.num);
    lemma_mul_assoc3(a.den, b.den, c.den);
}

/// Multiplication distributes over subtraction.
pub proof fn lemma_rat_mul_distributes_sub(a: Rat, b: Rat, k: Rat)
    requires
        rat_wf(a),
        rat_wf(b),
        rat_wf(k),
    ensures
        rat_eq(rat_mul(k, rat_sub(a, b)), rat_sub(rat_mul(k, a), rat_mul(k, b))),
{
    let x = k.num * (a.num * b.den - b.num * a.den);
    let d = (k.den * a.den) * (k.den * b.den);
    let u = (k.num * a.num) * (k.den * b.den);
    let v = (k.num * b.num) * (k.den * a.den);
    let w = k.den * (a.den * b.den);
    lemma_mul_distribute(a.num * b.den, b.num * a.den, k.num);
    lemma_mul_distribute(u, v, w);
    // Each expanded term regroups to a common form.
    assert((a.num * b.den) * k.num * d == u * w) by (nonlinear_arith)
        requires
            d == (k.den * a.den) * (k.den * b.den),
            u == (k.num * a.num) * (k.den * b.den),
            w == k.den * (a.den * b.den),
    ;
    assert((b.num * a.den) * k.num * d == v * w) by (nonlinear_arith)
        requires
            d == (k.den * a.den) * (k.den * b.den),
            v == (k.num * b.num) * (k.den * a.den),
            w == k.den * (a.den * b.den),
    ;
    assert(x * d == ((a.num * b.den) * k.num) * d - ((b.num * a.den) * k.num) * d)
        by (nonlinear_arith)
        requires
            x == k.num * (a.num * b.den - b.num * a.den),
    ;
}

/// The telescoping sum `(a - b) + (c - a)` denotes `c - b`.
pub proof fn lemma_rat_add_sub_pair(a: Rat, b: Rat, c: Rat)
    requires
        rat_wf(a),
        rat_wf(b),
        rat_wf(c),
    ensures
        rat_eq(rat_add(rat_sub(a, b), rat_sub(c, a)), rat_sub(c, b)),
{
    let lhs_n = (a.num * b.den - b.num * a.den) * (c.den * a.den) + (c.num * a.den - a.num
        * c.den) * (a.den * b.den);
    let lhs_d = (a.den * b.den) * (c.den * a.den);
    let rhs_n = c.num * b.den - b.num * c.den;
    let rhs_d = b.den * c.den;
    lemma_mul_distribute(a.num * b.den, b.num * a.den, c.den * a.den);
    lemma_mul_distribute(c.num * a.den, a.num * c.den, a.den * b.den);
    lemma_mul_distribute(c.num * b.den, b.num * c.den, a.den * a.den);
    lemma_mul_shuffle(a.num, b.den, c.den, a.den);
    lemma_mul_shuffle(b.num, a.den, c.den, a.den);
    lemma_mul_shuffle(c.num, a.den, a.den, b.den);
    assert(lhs_n == rhs_n * (a.den * a.den));
    assert(lhs_d == rhs_d * (a.den * a.den)) by (nonlinear_arith)
        requires
            lhs_d == (a.den * b.den) * (c.den * a.den),
            rhs_d == b.den * c.den,
    ;
    assert(lhs_n * rhs_d == rhs_n * lhs_d) by (nonlinear_arith)
        requires
            lhs_n == rhs_n * (a.den * a.den),
            lhs_d == rhs_d * (a.den * a.den),
    ;
}

/// Addition of rationals associates.
pub proof fn lemma_rat_add_assoc(a: Rat, b: Rat, c: Rat)
    requires
        rat_wf(a),
        rat_wf(b),
        rat_wf(c),
    ensures
        rat_eq(rat_add(a, rat_add(b, c)), rat_add(rat_add(a, b), c)),
{
    let lhs_n = a.num * ((b.den * c.den)) + (b.num * c.den + c.num * b.den) * a.den;
    let lhs_d = a.den * (b.den * c.den);
    let rhs_n = (a.num * b.den + b.num * a.den) * c.den + c.num * (a.den * b.den);
    let rhs_d = (a.den * b.den) * c.den;
    lemma_mul_distribute(b.num * c.den, c.num * b.den, a.den);
    lemma_mul_distribute(a.num * b.den, b.num * a.den, c.den);
    lemma_mul_assoc3(a.num, b.den, c.den);
    lemma_mul_assoc3(b.num, c.den, a.den);
    lemma_mul_assoc3(c.num, b.den, a.den);
    lemma_mul_assoc3(a.den, b.den, c.den);
    assert(lhs_n == rhs_n);
    assert(lhs_d == rhs_d);
    assert(lhs_n * rhs_d == rhs_n * lhs_d);
}

/// Half the sum plus half the difference gives the first operand back:
/// `(x + y) / 2 + (x - y) / 2` denotes `x`.
pub proof fn lemma_rat_add_halves(x: Rat, y: Rat)
    requires
        rat_wf(x),
        rat_wf(y),
    ensures
        rat_eq(
            rat_add(
                rat_div(rat_add(x, y), rat_of_int(2)),
                rat_div(rat_sub(x, y), rat_of_int(2)),
            ),
            x,
        ),
{
    let p = x.num * y.den + y.num * x.den;
    let m = x.num * y.den - y.num * x.den;
    let e = (x.den * y.den) * 2;
    lemma_mul_distribute(p, m, e);
    assert(p + m == 2 * (x.num * y.den));
    assert(((2 * (x.num * y.den)) * ((x.den * y.den) * 2)) * x.den == x.num * ((((x.den * y.den)
        * 2)) * ((x.den * y.den) * 2))) by (nonlinear_arith);
}

/// Half the sum minus half the difference gives the second operand back:
/// `(x + y) / 2 - (x - y) / 2` denotes `y`.
pub proof fn lemma_rat_sub_halves(x: Rat, y: Rat)
    requires
        rat_wf(x),
        rat_wf(y),
    ensures
        rat_eq(
            rat_sub(
                rat_div(rat_add(x, y), rat_of_int(2)),
                rat_div(rat_sub(x, y), rat_of_int(2)),
            ),
            y,
        ),
{
    let p = x.num * y.den + y.num * x.den;
    let m = x.num * y.den - y.num * x.den;
    let e = (x.den * y.den) * 2;
    lemma_mul_distribute(p, m, e);
    assert(p - m == 2 * (y.num * x.den));
    assert(((2 * (y.num * x.den)) * ((x.den * y.den) * 2)) * y.den == y.num * ((((x.den * y.den)
        * 2)) * ((x.den * y.den) * 2))) by (nonlinear_arith);
}

/// Adding back what was subtracted gives the original: `y + (c - y)`
/// denotes `c`.
pub proof fn lemma_rat_add_sub_cancel(c: Rat, y: Rat)
    by (nonlinear_arith)
    requires
        rat_wf(c),
        rat_wf(y),
    ensures
        rat_eq(rat_add(y, rat_sub(c, y)), c),
{
}

/// Every entry of the sequence is well formed.
pub open spec fn rats_wf(s: Seq<Rat>) -> bool {
    forall|i: int| 0 <= i < s.len() ==> rat_wf(#[trigger] s[i])
}

/// The sum of a sequence of rationals.
pub open spec fn rat_seq_sum(s: Seq<Rat>) -> Rat
    decreases s.len(),
{
    if s.len() == 0 {
        rat_of_int(0)
    } else {
        rat_add(rat_seq_sum(s.drop_last()), s.last())
    }
}

pub proof fn lemma_rat_seq_sum_wf(s: Seq<Rat>)
    requires
        rats_wf(s),
    ensures
        rat_wf(rat_seq_sum(s)),
    decreases s.len(),
{
    if s.len() > 0 {
        assert(rats_wf(s.drop_last()));
        lemma_rat_seq_sum_wf(s.drop_last());
        lemma_rat_ops_wf(rat_seq_sum(s.drop_last()), s.last());
    }
}

/// Multiplication distributes over addition.
pub proof fn lemma_rat_mul_distributes(a: Rat, b: Rat, k: Rat)
    requires
        rat_wf(a),
        rat_wf(b),
        rat_wf(k),
    ensures
        rat_eq(rat_mul(rat_add(a, b), k), rat_add(rat_mul(a, k), rat_mul(b, k))),
{
    let x = (a.num * b.den) * k.num;
    let y = (b.num * a.den) * k.num;
    let d = (a.den * k.den) * (b.den * k.den);
    let u = (a.num * k.num) * (b.den * k.den);
    let v = (b.num * k.num) * (a.den * k.den);
    let w = (a.den * b.den) * k.den;
    lemma_mul_distribute(a.num * b.den, b.num * a.den, k.num);
    lemma_mul_distribute(x, y, d);
    lemma_mul_distribute(u, v, w);
    // Both sides of each term pair regroup to a common form.
    lemma_mul_shuffle(a.den, k.den, b.den, k.den);
    assert(d == (a.den * b.den) * (k.den * k.den));
    lemma_mul_shuffle(a.num * b.den, k.num, a.den * b.den, k.den * k.den);
    assert(x * d == ((a.num * b.den) * (a.den * b.den)) * (k.num * (k.den * k.den)));
    lemma_mul_shuffle(a.num, k.num, b.den, k.den);
    assert(u == (a.num * b.den) * (k.num * k.den));
    lemma_mul_shuffle(a.num * b.den, k.num * k.den, a.den * b.den, k.den);
    assert(u * w == ((a.num * b.den) * (a.den * b.den)) * ((k.num * k.den) * k.den));
    assert(k.num * (k.den * k.den) == (k.num * k.den) * k.den) by (nonlinear_arith);
    assert(x * d == u * w);
    lemma_mul_shuffle(b.num * a.den, k.num, a.den * b.den, k.den * k.den);
    assert(y * d == ((b.num * a.den) * (a.den * b.den)) * (k.num * (k.den * k.den)));
    lemma_mul_shuffle(b.num, k.num, a.den, k.den);
    assert(v == (b.num * a.den) * (k.num * k.den));
    lemma_mul_shuffle(b.num * a.den, k.num * k.den, a.den * b.den, k.den);
    assert(v * w == ((b.num * a.den) * (a.den * b.den)) * ((k.num * k.den) * k.den));
    assert(y * d == v * w);
    assert(((a.num * b.den + b.num * a.den) * k.num) * d == (x + y) * d);
}

/// Dividing and multiplying back by the same nonzero value is the
/// identity: `u * (d / u)` denotes `d`.
pub proof fn lemma_rat_mul_div_cancel(u: Rat, d: Rat)
    by (nonlinear_arith)
    requires
        rat_wf(u),
        rat_wf(d),
        !rat_is_zero(u),
    ensures
        rat_eq(rat_mul(u, rat_div(d, u)), d),
{
}

/// Scaling every summand scales the sum: when `scaled` holds, entry by
/// entry, `s`'s entries multiplied by `k`, its sum denotes the sum of `s`
/// times `k`.
pub proof fn lemma_rat_seq_sum_scale(s: Seq<Rat>, scaled: Seq<Rat>, k: Rat)
    requires
        rats_wf(s),
        rat_wf(k),
        scaled.len() == s.len(),
        forall|i: int| 0 <= i < s.len() ==> #[trigger] scaled[i] == rat_mul(s[i], k),
    ensures
        rat_eq(rat_seq_sum(scaled), rat_mul(rat_seq_sum(s), k)),
    decreases s.len(),
{
    assert forall|i: int| 0 <= i < scaled.len() implies rat_wf(#[trigger] scaled[i]) by {
        lemma_rat_ops_wf(s[i], k);
    }
    if s.len() == 0 {
        assert(rat_eq(rat_seq_sum(scaled), rat_mul(rat_seq_sum(s), k))) by (nonlinear_arith)
            requires
                rat_seq_sum(scaled) == rat_of_int(0),
                rat_seq_sum(s) == rat_of_int(0),
        ;
    } else {
        let sdl = s.drop_last();
        assert(rats_wf(sdl));
        assert(rats_wf(scaled.drop_last()));
        lemma_rat_seq_sum_wf(scaled.drop_last());
        lemma_rat_seq_sum_scale(sdl, scaled.drop_last(), k);
        assert(scaled.last() == rat_mul(s.last(), k));
        lemma_rat_seq_sum_wf(sdl);
        lemma_rat_seq_sum_wf(s);
        lemma_rat_ops_wf(s.last(), k);
        lemma_rat_ops_wf(rat_seq_sum(sdl), k);
        lemma_rat_eq_refl(rat_mul(s.last(), k));
        lemma_rat_add_congruence(
            rat_seq_sum(scaled.drop_last()),
            rat_mul(rat_seq_sum(sdl), k),
            rat_mul(s.last(), k),
            rat_mul(s.last(), k),
        );
        lemma_rat_mul_distributes(rat_seq_sum(sdl), s.last(), k);
        lemma_rat_ops_wf(rat_mul(rat_seq_sum(sdl), k), rat_mul(s.last(), k));
        lemma_rat_eq_sym(
            rat_mul(rat_add(rat_seq_sum(sdl), s.last()), k),
            rat_add(rat_mul(rat_seq_sum(sdl), k), rat_mul(s.last(), k)),
        );
        lemma_rat_eq_trans(
            rat_seq_sum(scaled),
            rat_add(rat_mul(rat_seq_sum(sdl), k), rat_mul(s.last(), k)),
            rat_mul(rat_add(rat_seq_sum(sdl), s.last()), k),
        );
        assert(rat_eq(rat_seq_sum(scaled), rat_mul(rat_add(rat_seq_sum(sdl), s.last()), k)));
        assert(rat_seq_sum(s) == rat_add(rat_seq_sum(sdl), s.last()));
        assert(rat_eq(rat_seq_sum(scaled), rat_mul(rat_seq_sum(s), k))) by (nonlinear_arith)
            requires
                rat_eq(rat_seq_sum(scaled), rat_mul(rat_add(rat_seq_sum(sdl), s.last()), k)),
                rat_seq_sum(s) == rat_add(rat_seq_sum(sdl), s.last()),
        ;
    }
}

/// An exact fraction held in machine integers: `num / den` with `den > 0`
/// and both within `i64` range so that every product two such fractions
/// need is exact in `i128`. Operations return `None` when the reduced
/// result leaves that range; they never round.
#[derive(Clone, Copy, Debug)]
pub struct Frac {
    num: i64,
    den: i64,
}

impl Frac {
    /// The rational number this fraction denotes.
    pub closed spec fn view(&self) -> Rat {
        Rat { num: self.num as int, den: self.den as int }
    }

    pub open spec fn wf(&self) -> bool {
        self@.den > 0
    }

    /// The fraction `num / den`. The extreme value `i64::MIN` is excluded so
    /// that both parts can always be sign-normalized within range.
    pub fn new(num: i64, den: i64) -> (r: Frac)
        requires
            den != 0,
            num != i64::MIN,
            den != i64::MIN,
        ensures
            r.wf(),
            rat_eq(r@, (Rat { num: num as int, den: den as int })),
    {
        if den > 0 {
            Frac { num, den }
        } else {
            proof {
                assert((-(num as int)) * (den as int) == (num as int) * (-(den as int)))
                    by (nonlinear_arith);
            }
            Frac { num: -num, den: -den }
        }
    }

    /// The integer `n` as a fraction.
    pub fn of_int(n: i64) -> (r: Frac)
        ensures
            r.wf(),
            r@ == rat_of_int(n as int),
    {
        Frac { num: n, den: 1 }
    }

    pub fn is_zero(&self) -> (r: bool)
        requires
            self.wf(),
        ensures
            r == rat_is_zero(self@),
    {
        self.num == 0
    }

    /// Reduce `num / den` by the greatest common divisor of their magnitudes
    /// and return the result when the reduced parts fit `i64`. Divisibility
    /// by the computed divisor is checked at run time, so nothing is assumed
    /// of the divisor beyond positivity.
    fn reduce_wide(num: i128, den: i128) -> (r: Option<Frac>)
        requires
            den > 0,
            num > i128::MIN,
        ensures
            r matches Some(f) ==> f.wf() && rat_eq(
                f@,
                (Rat { num: num as int, den: den as int }),
            ),
            r matches Some(f) ==> int_abs(f@.num) <= int_abs(num as int) && f@.den <= den,
            int_abs(num as int) <= i64::MAX && den <= i64::MAX ==> r is Some,
    {
        let negative = num < 0;
        let mag: u128 = if negative {
            (-num) as u128
        } else {
            num as u128
        };
        let dmag: u128 = den as u128;
        proof {
            assert(mag as int == int_abs(num as int));
        }
        if mag == 0 {
            proof {
                assert(num == 0);
                assert(0 * (den as int) == (num as int) * 1);
                assert(int_abs(0) <= int_abs(num as int) && 1 <= den);
            }
            return Some(Frac { num: 0, den: 1 });
        }
        let g = gcd_u128(mag, dmag);
        let mut mag2: u128 = mag;
        let mut dmag2: u128 = dmag;
        if mag % g == 0 && dmag % g == 0 {
            mag2 = mag / g;
            dmag2 = dmag / g;
            proof {
                assert(mag as int == (g as int) * (mag2 as int) && dmag as int == (g as int) * (
                dmag2 as int) && mag2 <= mag && dmag2 <= dmag && dmag2 >= 1) by (nonlinear_arith)
                    requires
                        g >= 1,
                        mag >= 1,
                        dmag >= 1,
                        mag as int % g as int == 0,
                        dmag as int % g as int == 0,
                        mag2 as int == mag as int / g as int,
                        dmag2 as int == dmag as int / g as int,
                ;
            }
        }
        proof {
            assert((mag2 as int) * (dmag as int) == (mag as int) * (dmag2 as int))
                by (nonlinear_arith)
                requires
                    (mag as int == (g as int) * (mag2 as int) && dmag as int == (g as int) * (
                    dmag2 as int)) || (mag2 as int == mag as int && dmag2 as int == dmag as int),
            ;
            assert(mag2 <= mag && dmag2 <= dmag && dmag2 >= 1);
        }
        if mag2 <= i64::MAX as u128 && dmag2 <= i64::MAX as u128 && dmag2 > 0 {
            let n64: i64 = if negative {
                -(mag2 as i64)
            } else {
                mag2 as i64
            };
            let d64: i64 = dmag2 as i64;
            proof {
                assert((n64 as int) * (den as int) == (num as int) * (d64 as int))
                    by (nonlinear_arith)
                    requires
                        (mag2 as int) * (dmag as int) == (mag as int) * (dmag2 as int),
                        mag as int == if negative {
                            -(num as int)
                        } else {
                            num as int
                        },
                        n64 as int == if negative {
                            -(mag2 as int)
                        } else {
                            mag2 as int
                        },
                        dmag as int == den as int,
                        d64 as int == dmag2 as int,
                ;
            }
            proof {
                assert(int_abs(n64 as int) == mag2 as int && int_abs(num as int) == mag as int);
            }
            Some(Frac { num: n64, den: d64 })
        } else {
            None
        }
    }
}

impl Frac {
    /// Exact sum; `None` when the reduced result leaves `i64` range,
    /// which the raw cross products staying within range rules out.
    pub fn add(&self, other: &Frac) -> (r: Option<Frac>)
        requires
            self.wf(),
            other.wf(),
        ensures
            r matches Some(f) ==> f.wf() && rat_eq(f@, rat_add(self@, other@)),
            r matches Some(f) ==> int_abs(f@.num) <= int_abs(
                self@.num * other@.den + other@.num * self@.den,
            ) && f@.den <= self@.den * other@.den,
            int_abs(self@.num * other@.den + other@.num * self@.den) <= i64::MAX && self@.den
                * other@.den <= i64::MAX ==> r is Some,
    {
        let num = wide_mul(self.num, other.den) + wide_mul(other.num, self.den);
        let den = wide_mul(self.den, other.den);
        proof {
            assert(den > 0) by (nonlinear_arith)
                requires
                    self.den > 0 && other.den > 0 && den as int == (self.den as int) * (
                    other.den as int),
            ;
        }
        Frac::reduce_wide(num, den)
    }

    /// Exact difference; `None` when the reduced result leaves `i64`
    /// range, which the raw cross products staying within range rules out.
    pub fn sub(&self, other: &Frac) -> (r: Option<Frac>)
        requires
            self.wf(),
            other.wf(),
        ensures
            r matches Some(f) ==> f.wf() && rat_eq(f@, rat_sub(self@, other@)),
            r matches Some(f) ==> int_abs(f@.num) <= int_abs(
                self@.num * other@.den - other@.num * self@.den,
            ) && f@.den <= self@.den * other@.den,
            int_abs(self@.num * other@.den - other@.num * self@.den) <= i64::MAX && self@.den
                * other@.den <= i64::MAX ==> r is Some,
    {
        let num = wide_mul(self.num, other.den) - wide_mul(other.num, self.den);
        let den = wide_mul(self.den, other.den);
        proof {
            assert(den > 0) by (nonlinear_arith)
                requires
                    self.den > 0 && other.den > 0 && den as int == (self.den as int) * (
                    other.den as int),
            ;
        }
        Frac::reduce_wide(num, den)
    }

    /// Exact product; `None` when the reduced result leaves `i64` range,
    /// which the raw products staying within range rules out.
    pub fn mul(&self, other: &Frac) -> (r: Option<Frac>)
        requires
            self.wf(),
            other.wf(),
        ensures
            r matches Some(f) ==> f.wf() && rat_eq(f@, rat_mul(self@, other@)),
            r matches Some(f) ==> int_abs(f@.num) <= int_abs(self@.num * other@.num) && f@.den
                <= self@.den * other@.den,
            int_abs(self@.num * other@.num) <= i64::MAX && self@.den * other@.den <= i64::MAX
                ==> r is Some,
    {
        let num = wide_mul(self.num, other.num);
        let den = wide_mul(self.den, other.den);
        proof {
            assert(den > 0) by (nonlinear_arith)
                requires
                    self.den > 0 && other.den > 0 && den as int == (self.den as int) * (
                    other.den as int),
            ;
        }
        Frac::reduce_wide(num, den)
    }

    /// Exact quotient; `None` when the reduced result leaves `i64` range,
    /// which the raw cross products staying within range rules out.
    pub fn div(&self, other: &Frac) -> (r: Option<Frac>)
        requires
            self.wf(),
            other.wf(),
            !rat_is_zero(other@),
        ensures
            r matches Some(f) ==> f.wf() && rat_eq(f@, rat_div(self@, other@)),
            r matches Some(f) ==> int_abs(f@.num) <= int_abs(self@.num * other@.den) && f@.den
                <= int_abs(self@.den * other@.num),
            int_abs(self@.num * other@.den) <= i64::MAX && int_abs(self@.den * other@.num)
                <= i64::MAX ==> r is Some,
    {
        let mut num = wide_mul(self.num, other.den);
        let mut den = wide_mul(self.den, other.num);
        proof {
            assert(den != 0) by (nonlinear_arith)
                requires
                    self.den > 0 && other.num != 0 && den as int == (self.den as int) * (
                    other.num as int),
            ;
            assert((-(num as int)) * ((self.den as int) * (other.num as int)) == ((
            self.num as int) * (other.den as int)) * (-(den as int))) by (nonlinear_arith)
                requires
                    num as int == (self.num as int) * (other.den as int),
                    den as int == (self.den as int) * (other.num as int),
            ;
        }
        if den < 0 {
            num = -num;
            den = -den;
        }
        match Frac::reduce_wide(num, den) {
            Some(f) => {
                proof {
                    lemma_rat_eq_trans(
                        f@,
                        (Rat { num: num as int, den: den as int }),
                        rat_div(self@, other@),
                    );
                }
                Some(f)
            },
            None => None,
        }
    }

    /// Whether the two fractions denote the same rational number.
    pub fn eq_value(&self, other: &Frac) -> (r: bool)
        requires
            self.wf(),
            other.wf(),
        ensures
            r == rat_eq(self@, other@),
    {
        wide_mul(self.num, other.den) == wide_mul(other.num, self.den)
    }

    /// Whether this fraction denotes a strictly smaller rational number.
    pub fn lt_value(&self, other: &Frac) -> (r: bool)
        requires
            self.wf(),
            other.wf(),
        ensures
            r == rat_lt(self@, other@),
    {
        wide_mul(self.num, other.den) < wide_mul(other.num, self.den)
    }
}

/// The exact product of two machine integers, in the wider type. The bound
/// in the contract lets callers add or negate two such products without
/// leaving the wider type's range.
fn wide_mul(x: i64, y: i64) -> (r: i128)
    ensures
        r == (x as int) * (y as int),
        -0x40000000000000000000000000000000 <= r <= 0x40000000000000000000000000000000,
        y >= 0 ==> -0x3FFFFFFFFFFFFFFF8000000000000000 <= r
            <= 0x3FFFFFFFFFFFFFFF8000000000000000,
{
    proof {
        assert(-0x40000000000000000000000000000000 <= (x as int) * (y as int)
            <= 0x40000000000000000000000000000000) by (nonlinear_arith);
        assert(y >= 0 ==> -0x3FFFFFFFFFFFFFFF8000000000000000 <= (x as int) * (y as int)
            <= 0x3FFFFFFFFFFFFFFF8000000000000000) by (nonlinear_arith);
    }
    (x as i128) * (y as i128)
}

/// Greatest common divisor, by Euclid's algorithm. Only positivity is relied
/// upon: callers check divisibility of the concrete operands at run time.
fn gcd_u128(a: u128, b: u128) -> (g: u128)
    requires
        a > 0,
    ensures
        g > 0,
{
    let mut x = a;
    let mut y = b;
    while y != 0
        invariant
            x > 0 || y > 0,
        decreases y,
    {
        let r = x % y;
        x = y;
        y = r;
    }
    x
}

} // verus!
