use vstd::prelude::*;

use crate::error::PricingError;
use crate::rational::{
    int_abs, lemma_mul_distribute, lemma_rat_add_congruence, lemma_rat_add_rebase,
    lemma_rat_add_sub_cancel, lemma_rat_div_rebase, lemma_rat_eq_refl, lemma_rat_eq_sym,
    lemma_rat_add_assoc, lemma_rat_add_sub_pair, lemma_rat_eq_trans, lemma_rat_lt_trans, lemma_rat_mul_assoc,
    lemma_rat_mul_congruence, lemma_rat_mul_distributes, lemma_rat_mul_distributes_sub,
    lemma_rat_mul_div_cancel, lemma_rat_mul_rebase, lemma_rat_mul_zero, lemma_rat_nonzero_of_eq,
    lemma_rat_ops_wf, lemma_rat_sub_add_cancel, lemma_rat_sub_congruence,
    lemma_rat_sub_nonzero, lemma_rat_sub_rebase, lemma_rat_zero_plus, lemma_rat_zero_sum, rat_add,
    rat_div, rat_eq, rat_in_range, rat_is_zero, rat_lt, rat_mul, rat_of_int, rat_sub, rat_wf,
    rats_wf, Frac, Rat,
};

verus! {

/// The denoted rationals of a sequence of fractions.
pub open spec fn views_of(s: Seq<Frac>) -> Seq<Rat> {
    s.map(|i: int, f: Frac| f@)
}

/// Every fraction of the sequence is well formed.
pub open spec fn fracs_wf(s: Seq<Frac>) -> bool {
    forall|i: int| 0 <= i < s.len() ==> #[trigger] s[i].wf()
}

/// The left-hand side of row `i` of a tridiagonal system: the lower
/// diagonal hits the unknown before, the diagonal its own, the upper
/// diagonal the one after; rows at the ends have no neighbour term.
pub open spec fn tridiagonal_row_value(
    lower: Seq<Rat>,
    diag: Seq<Rat>,
    upper: Seq<Rat>,
    x: Seq<Rat>,
    i: int,
) -> Rat {
    rat_add(
        rat_add(
            if i > 0 {
                rat_mul(lower[i], x[i - 1])
            } else {
                rat_of_int(0)
            },
            rat_mul(diag[i], x[i]),
        ),
        if i < x.len() - 1 {
            rat_mul(upper[i], x[i + 1])
        } else {
            rat_of_int(0)
        },
    )
}

/// `x` solves the tridiagonal system row by row.
pub open spec fn tridiagonal_solution(
    lower: Seq<Rat>,
    diag: Seq<Rat>,
    upper: Seq<Rat>,
    rhs: Seq<Rat>,
    x: Seq<Rat>,
) -> bool {
    forall|i: int|
        0 <= i < x.len() ==> rat_eq(
            #[trigger] tridiagonal_row_value(lower, diag, upper, x, i),
            rhs[i],
        )
}

/// The second pivot of the forward elimination on a two-row system: the
/// second row's diagonal less the first row's influence on it.
pub open spec fn two_row_pivot(lower: Seq<Rat>, diag: Seq<Rat>, upper: Seq<Rat>) -> Rat {
    rat_sub(diag[1], rat_mul(lower[1], rat_div(upper[0], diag[0])))
}

/// Solves a tridiagonal linear system exactly, by the Thomas algorithm:
/// one forward elimination sweep followed by back substitution. The four
/// inputs hold, row by row, the lower diagonal (first entry unused), the
/// diagonal, the upper diagonal (last entry unused) and the right-hand
/// side.
///
/// `None` is returned when a pivot of the elimination vanishes (the system
/// is not solvable this way) or when the exact fractions leave machine
/// range; diagonal dominance is the usual design criterion against a
/// vanishing pivot, and is the caller's to arrange, not checked or relied
/// on here. A returned vector is checked row by row against the input
/// system, so it is exactly a solution of it; and a one- or two-row system
/// with nonvanishing pivots whose entries lie within the machine-range
/// envelope is owed a result.
pub fn solve_by_thomas(
    lower: &Vec<Frac>,
    diag: &Vec<Frac>,
    upper: &Vec<Frac>,
    rhs: &Vec<Frac>,
) -> (r: Option<Vec<Frac>>)
    requires
        lower@.len() == diag@.len(),
        upper@.len() == diag@.len(),
        rhs@.len() == diag@.len(),
        diag@.len() >= 1,
        fracs_wf(lower@),
        fracs_wf(diag@),
        fracs_wf(upper@),
        fracs_wf(rhs@),
    ensures
        r matches Some(x) ==> x@.len() == diag@.len() && fracs_wf(x@) && tridiagonal_solution(
            views_of(lower@),
            views_of(diag@),
            views_of(upper@),
            views_of(rhs@),
            views_of(x@),
        ),
        diag@.len() == 1 && !rat_is_zero(views_of(diag@)[0]) && rat_in_range(
            views_of(diag@)[0],
            1000000000,
        ) && rat_in_range(views_of(rhs@)[0], 1000000000) ==> r is Some,
        diag@.len() == 2 && !rat_is_zero(views_of(diag@)[0]) && !rat_is_zero(two_row_pivot(
            views_of(lower@),
            views_of(diag@),
            views_of(upper@),
        )) && rat_in_range(views_of(lower@)[1], 30) && rat_in_range(views_of(diag@)[0], 30)
            && rat_in_range(views_of(diag@)[1], 30) && rat_in_range(views_of(upper@)[0], 30)
            && rat_in_range(views_of(rhs@)[0], 30) && rat_in_range(views_of(rhs@)[1], 30) ==> r
            is Some,
{
    let n = diag.len();
    if n == 1 {
        // One unknown: the row is solved by a single exact division, and
        // the quotient multiplied back is the right-hand side.
        proof {
            assert(diag@[0].wf() && rhs@[0].wf());
            assert(views_of(diag@)[0] == diag@[0]@ && views_of(rhs@)[0] == rhs@[0]@);
        }
        let ghost d0 = views_of(diag@)[0];
        let ghost r0 = views_of(rhs@)[0];
        let ghost owed = !rat_is_zero(d0) && rat_in_range(d0, 1000000000) && rat_in_range(
            r0,
            1000000000,
        );
        if diag[0].is_zero() {
            return None;
        }
        proof {
            assert(owed ==> int_abs(rhs@[0]@.num * diag@[0]@.den) <= 1000000000000000000
                && int_abs(rhs@[0]@.den * diag@[0]@.num) <= 1000000000000000000)
                by (nonlinear_arith)
                requires
                    owed ==> int_abs(r0.num) <= 1000000000 && 0 < r0.den <= 1000000000 && int_abs(
                        d0.num,
                    ) <= 1000000000 && 0 < d0.den <= 1000000000,
                    d0 == diag@[0]@ && r0 == rhs@[0]@,
            ;
        }
        let x0 = match rhs[0].div(&diag[0]) {
            Some(v) => v,
            None => {
                return None;
            },
        };
        let mut x: Vec<Frac> = Vec::new();
        x.push(x0);
        proof {
            let xs = views_of(x@);
            assert(xs[0] == x0@);
            lemma_rat_ops_wf(r0, d0);
            lemma_rat_eq_refl(d0);
            lemma_rat_mul_congruence(d0, d0, x0@, rat_div(r0, d0));
            lemma_rat_ops_wf(d0, rat_div(r0, d0));
            lemma_rat_mul_div_cancel(d0, r0);
            lemma_rat_ops_wf(d0, x0@);
            lemma_rat_eq_trans(rat_mul(d0, x0@), rat_mul(d0, rat_div(r0, d0)), r0);
            lemma_rat_zero_plus(rat_of_int(0), rat_mul(d0, x0@));
            lemma_rat_ops_wf(rat_of_int(0), rat_mul(d0, x0@));
            lemma_rat_zero_plus(rat_of_int(0), rat_add(rat_of_int(0), rat_mul(d0, x0@)));
            lemma_rat_eq_trans(
                rat_add(rat_add(rat_of_int(0), rat_mul(d0, x0@)), rat_of_int(0)),
                rat_add(rat_of_int(0), rat_mul(d0, x0@)),
                rat_mul(d0, x0@),
            );
            lemma_rat_eq_trans(
                rat_add(rat_add(rat_of_int(0), rat_mul(d0, x0@)), rat_of_int(0)),
                rat_mul(d0, x0@),
                r0,
            );
            assert(tridiagonal_row_value(
                views_of(lower@),
                views_of(diag@),
                views_of(upper@),
                xs,
                0,
            ) == rat_add(rat_add(rat_of_int(0), rat_mul(d0, xs[0])), rat_of_int(0)));
        }
        return Some(x);
    }
    if n == 2 {
        // Two unknowns: one elimination step and one back substitution,
        // written out straight, with both rows proved from the division
        // facts rather than rechecked.
        proof {
            assert(lower@[1].wf() && diag@[0].wf() && diag@[1].wf() && upper@[0].wf()
                && rhs@[0].wf() && rhs@[1].wf());
            assert(views_of(lower@)[1] == lower@[1]@ && views_of(diag@)[0] == diag@[0]@
                && views_of(diag@)[1] == diag@[1]@ && views_of(upper@)[0] == upper@[0]@
                && views_of(rhs@)[0] == rhs@[0]@ && views_of(rhs@)[1] == rhs@[1]@);
        }
        let ghost lo1 = views_of(lower@)[1];
        let ghost d0v = views_of(diag@)[0];
        let ghost d1v = views_of(diag@)[1];
        let ghost u0v = views_of(upper@)[0];
        let ghost r0v = views_of(rhs@)[0];
        let ghost r1v = views_of(rhs@)[1];
        let ghost piv = two_row_pivot(views_of(lower@), views_of(diag@), views_of(upper@));
        let ghost owed2 = !rat_is_zero(d0v) && !rat_is_zero(piv) && rat_in_range(lo1, 30)
            && rat_in_range(d0v, 30) && rat_in_range(d1v, 30) && rat_in_range(u0v, 30)
            && rat_in_range(r0v, 30) && rat_in_range(r1v, 30);
        if diag[0].is_zero() {
            return None;
        }
        proof {
            assert(owed2 ==> int_abs(upper@[0]@.num * diag@[0]@.den) <= 900 && int_abs(
                upper@[0]@.den * diag@[0]@.num,
            ) <= 900) by (nonlinear_arith)
                requires
                    owed2 ==> int_abs(u0v.num) <= 30 && 0 < u0v.den <= 30 && int_abs(d0v.num)
                        <= 30 && 0 < d0v.den <= 30,
                    u0v == upper@[0]@ && d0v == diag@[0]@,
            ;
        }
        let cp0 = match upper[0].div(&diag[0]) {
            Some(v) => v,
            None => {
                return None;
            },
        };
        proof {
            assert(owed2 ==> int_abs(cp0@.num) <= 900 && 0 < cp0@.den <= 900);
            assert(owed2 ==> int_abs(rhs@[0]@.num * diag@[0]@.den) <= 900 && int_abs(rhs@[0]@.den
                * diag@[0]@.num) <= 900) by (nonlinear_arith)
                requires
                    owed2 ==> int_abs(r0v.num) <= 30 && 0 < r0v.den <= 30 && int_abs(d0v.num)
                        <= 30 && 0 < d0v.den <= 30,
                    r0v == rhs@[0]@ && d0v == diag@[0]@,
            ;
        }
        let dp0 = match rhs[0].div(&diag[0]) {
            Some(v) => v,
            None => {
                return None;
            },
        };
        proof {
            assert(owed2 ==> int_abs(dp0@.num) <= 900 && 0 < dp0@.den <= 900);
            assert(owed2 ==> int_abs(lower@[1]@.num * cp0@.num) <= 27000 && 0 < lower@[1]@.den
                * cp0@.den <= 27000) by (nonlinear_arith)
                requires
                    lower@[1]@.den > 0 && cp0@.den > 0,
                    owed2 ==> int_abs(lo1.num) <= 30 && lo1.den <= 30 && int_abs(cp0@.num) <= 900
                        && cp0@.den <= 900,
                    lo1 == lower@[1]@,
            ;
        }
        let tt = match lower[1].mul(&cp0) {
            Some(v) => v,
            None => {
                return None;
            },
        };
        proof {
            assert(owed2 ==> int_abs(tt@.num) <= 27000 && 0 < tt@.den <= 27000);
            assert(owed2 ==> int_abs(diag@[1]@.num * tt@.den - tt@.num * diag@[1]@.den)
                <= 1620000 && 0 < diag@[1]@.den * tt@.den <= 810000) by (nonlinear_arith)
                requires
                    diag@[1]@.den > 0 && tt@.den > 0,
                    owed2 ==> int_abs(d1v.num) <= 30 && d1v.den <= 30 && int_abs(tt@.num)
                        <= 27000 && tt@.den <= 27000,
                    d1v == diag@[1]@,
            ;
        }
        let dn = match diag[1].sub(&tt) {
            Some(v) => v,
            None => {
                return None;
            },
        };
        proof {
            assert(owed2 ==> int_abs(dn@.num) <= 1620000 && 0 < dn@.den <= 810000);
            // The computed pivot denotes the specification's pivot.
            lemma_rat_ops_wf(u0v, d0v);
            lemma_rat_eq_refl(lo1);
            lemma_rat_mul_rebase(tt@, lower@[1]@, cp0@, lo1, rat_div(u0v, d0v));
            lemma_rat_ops_wf(lo1, rat_div(u0v, d0v));
            lemma_rat_eq_refl(d1v);
            lemma_rat_sub_rebase(dn@, diag@[1]@, tt@, d1v, rat_mul(lo1, rat_div(u0v, d0v)));
            lemma_rat_ops_wf(d1v, rat_mul(lo1, rat_div(u0v, d0v)));
        }
        if dn.is_zero() {
            proof {
                if owed2 {
                    lemma_rat_nonzero_of_eq(dn@, piv);
                }
            }
            return None;
        }
        proof {
            assert(owed2 ==> int_abs(lower@[1]@.num * dp0@.num) <= 27000 && 0 < lower@[1]@.den
                * dp0@.den <= 27000) by (nonlinear_arith)
                requires
                    lower@[1]@.den > 0 && dp0@.den > 0,
                    owed2 ==> int_abs(lo1.num) <= 30 && lo1.den <= 30 && int_abs(dp0@.num) <= 900
                        && dp0@.den <= 900,
                    lo1 == lower@[1]@,
            ;
        }
        let t2 = match lower[1].mul(&dp0) {
            Some(v) => v,
            None => {
                return None;
            },
        };
        proof {
            assert(owed2 ==> int_abs(t2@.num) <= 27000 && 0 < t2@.den <= 27000);
            assert(owed2 ==> int_abs(rhs@[1]@.num * t2@.den - t2@.num * rhs@[1]@.den) <= 1620000
                && 0 < rhs@[1]@.den * t2@.den <= 810000) by (nonlinear_arith)
                requires
                    rhs@[1]@.den > 0 && t2@.den > 0,
                    owed2 ==> int_abs(r1v.num) <= 30 && r1v.den <= 30 && int_abs(t2@.num)
                        <= 27000 && t2@.den <= 27000,
                    r1v == rhs@[1]@,
            ;
        }
        let n1 = match rhs[1].sub(&t2) {
            Some(v) => v,
            None => {
                return None;
            },
        };
        proof {
            assert(owed2 ==> int_abs(n1@.num) <= 1620000 && 0 < n1@.den <= 810000);
            assert(owed2 ==> int_abs(n1@.num * dn@.den) <= 1312200000000 && int_abs(n1@.den
                * dn@.num) <= 1312200000000) by (nonlinear_arith)
                requires
                    owed2 ==> int_abs(n1@.num) <= 1620000 && 0 < n1@.den <= 810000 && int_abs(
                        dn@.num,
                    ) <= 1620000 && 0 < dn@.den <= 810000,
            ;
        }
        let x1 = match n1.div(&dn) {
            Some(v) => v,
            None => {
                return None;
            },
        };
        proof {
            assert(owed2 ==> int_abs(x1@.num) <= 1312200000000 && 0 < x1@.den <= 1312200000000);
            assert(owed2 ==> int_abs(cp0@.num * x1@.num) <= 1180980000000000 && 0 < cp0@.den
                * x1@.den <= 1180980000000000) by (nonlinear_arith)
                requires
                    cp0@.den > 0 && x1@.den > 0,
                    owed2 ==> int_abs(cp0@.num) <= 900 && cp0@.den <= 900 && int_abs(x1@.num)
                        <= 1312200000000 && x1@.den <= 1312200000000,
            ;
        }
        let t3 = match cp0.mul(&x1) {
            Some(v) => v,
            None => {
                return None;
            },
        };
        proof {
            assert(owed2 ==> int_abs(t3@.num) <= 1180980000000000 && 0 < t3@.den
                <= 1180980000000000);
            assert(owed2 ==> int_abs(dp0@.num * t3@.den - t3@.num * dp0@.den)
                <= 2125764000000000000 && 0 < dp0@.den * t3@.den <= 1062882000000000000)
                by (nonlinear_arith)
                requires
                    dp0@.den > 0 && t3@.den > 0,
                    owed2 ==> int_abs(dp0@.num) <= 900 && dp0@.den <= 900 && int_abs(t3@.num)
                        <= 1180980000000000 && t3@.den <= 1180980000000000,
            ;
        }
        let x0 = match dp0.sub(&t3) {
            Some(v) => v,
            None => {
                return None;
            },
        };
        let mut x: Vec<Frac> = Vec::new();
        x.push(x0);
        x.push(x1);
        proof {
            let xs = views_of(x@);
            assert(xs[0] == x0@ && xs[1] == x1@);
            let zz = rat_of_int(0);
            let cp = cp0@;
            let dp = dp0@;
            let tv = tt@;
            let dnv = dn@;
            let t2v = t2@;
            let n1v = n1@;
            let xv1 = x1@;
            let xv0 = x0@;
            // Row 0: d0 * x0 + u0 * x1 denotes rhs0.
            lemma_rat_eq_refl(diag@[0]@);
            lemma_rat_eq_refl(lower@[1]@);
            lemma_rat_ops_wf(cp, xv1);
            lemma_rat_mul_congruence(diag@[0]@, diag@[0]@, xv0, rat_sub(dp, t3@));
            lemma_rat_ops_wf(dp, t3@);
            lemma_rat_mul_distributes_sub(dp, t3@, diag@[0]@);
            lemma_rat_ops_wf(diag@[0]@, rat_sub(dp, t3@));
            lemma_rat_ops_wf(diag@[0]@, dp);
            lemma_rat_ops_wf(diag@[0]@, t3@);
            lemma_rat_eq_trans(
                rat_mul(diag@[0]@, xv0),
                rat_mul(diag@[0]@, rat_sub(dp, t3@)),
                rat_sub(rat_mul(diag@[0]@, dp), rat_mul(diag@[0]@, t3@)),
            );
            // d0 * dp denotes rhs0.
            lemma_rat_mul_congruence(diag@[0]@, diag@[0]@, dp, rat_div(rhs@[0]@, diag@[0]@));
            lemma_rat_ops_wf(rhs@[0]@, diag@[0]@);
            lemma_rat_mul_div_cancel(diag@[0]@, rhs@[0]@);
            lemma_rat_ops_wf(diag@[0]@, rat_div(rhs@[0]@, diag@[0]@));
            lemma_rat_eq_trans(
                rat_mul(diag@[0]@, dp),
                rat_mul(diag@[0]@, rat_div(rhs@[0]@, diag@[0]@)),
                rhs@[0]@,
            );
            // d0 * t3 denotes u0 * x1.
            lemma_rat_mul_congruence(diag@[0]@, diag@[0]@, t3@, rat_mul(cp, xv1));
            lemma_rat_mul_assoc(diag@[0]@, cp, xv1);
            lemma_rat_ops_wf(diag@[0]@, rat_mul(cp, xv1));
            lemma_rat_ops_wf(diag@[0]@, cp);
            lemma_rat_ops_wf(rat_mul(diag@[0]@, cp), xv1);
            lemma_rat_eq_trans(
                rat_mul(diag@[0]@, t3@),
                rat_mul(diag@[0]@, rat_mul(cp, xv1)),
                rat_mul(rat_mul(diag@[0]@, cp), xv1),
            );
            lemma_rat_mul_congruence(diag@[0]@, diag@[0]@, cp, rat_div(upper@[0]@, diag@[0]@));
            lemma_rat_ops_wf(upper@[0]@, diag@[0]@);
            lemma_rat_mul_div_cancel(diag@[0]@, upper@[0]@);
            lemma_rat_ops_wf(diag@[0]@, rat_div(upper@[0]@, diag@[0]@));
            lemma_rat_eq_trans(
                rat_mul(diag@[0]@, cp),
                rat_mul(diag@[0]@, rat_div(upper@[0]@, diag@[0]@)),
                upper@[0]@,
            );
            lemma_rat_eq_refl(xv1);
            lemma_rat_mul_congruence(rat_mul(diag@[0]@, cp), upper@[0]@, xv1, xv1);
            lemma_rat_ops_wf(upper@[0]@, xv1);
            lemma_rat_eq_trans(
                rat_mul(diag@[0]@, t3@),
                rat_mul(rat_mul(diag@[0]@, cp), xv1),
                rat_mul(upper@[0]@, xv1),
            );
            // Combine: d0 * x0 denotes rhs0 - u0 * x1.
            lemma_rat_sub_congruence(
                rat_mul(diag@[0]@, dp),
                rhs@[0]@,
                rat_mul(diag@[0]@, t3@),
                rat_mul(upper@[0]@, xv1),
            );
            lemma_rat_ops_wf(rat_mul(diag@[0]@, dp), rat_mul(diag@[0]@, t3@));
            lemma_rat_ops_wf(rhs@[0]@, rat_mul(upper@[0]@, xv1));
            lemma_rat_eq_trans(
                rat_mul(diag@[0]@, xv0),
                rat_sub(rat_mul(diag@[0]@, dp), rat_mul(diag@[0]@, t3@)),
                rat_sub(rhs@[0]@, rat_mul(upper@[0]@, xv1)),
            );
            // Wrap with the zero term and cancel.
            lemma_rat_ops_wf(diag@[0]@, xv0);
            lemma_rat_zero_plus(zz, rat_mul(diag@[0]@, xv0));
            lemma_rat_ops_wf(zz, rat_mul(diag@[0]@, xv0));
            lemma_rat_eq_refl(rat_mul(upper@[0]@, xv1));
            lemma_rat_add_congruence(
                rat_add(zz, rat_mul(diag@[0]@, xv0)),
                rat_mul(diag@[0]@, xv0),
                rat_mul(upper@[0]@, xv1),
                rat_mul(upper@[0]@, xv1),
            );
            lemma_rat_add_congruence(
                rat_mul(diag@[0]@, xv0),
                rat_sub(rhs@[0]@, rat_mul(upper@[0]@, xv1)),
                rat_mul(upper@[0]@, xv1),
                rat_mul(upper@[0]@, xv1),
            );
            lemma_rat_sub_add_cancel(rhs@[0]@, rat_mul(upper@[0]@, xv1));
            lemma_rat_ops_wf(rat_mul(diag@[0]@, xv0), rat_mul(upper@[0]@, xv1));
            lemma_rat_ops_wf(
                rat_sub(rhs@[0]@, rat_mul(upper@[0]@, xv1)),
                rat_mul(upper@[0]@, xv1),
            );
            lemma_rat_eq_trans(
                rat_add(rat_add(zz, rat_mul(diag@[0]@, xv0)), rat_mul(upper@[0]@, xv1)),
                rat_add(rat_mul(diag@[0]@, xv0), rat_mul(upper@[0]@, xv1)),
                rat_add(rat_sub(rhs@[0]@, rat_mul(upper@[0]@, xv1)), rat_mul(upper@[0]@, xv1)),
            );
            lemma_rat_ops_wf(
                rat_add(zz, rat_mul(diag@[0]@, xv0)),
                rat_mul(upper@[0]@, xv1),
            );
            lemma_rat_eq_trans(
                rat_add(rat_add(zz, rat_mul(diag@[0]@, xv0)), rat_mul(upper@[0]@, xv1)),
                rat_add(rat_sub(rhs@[0]@, rat_mul(upper@[0]@, xv1)), rat_mul(upper@[0]@, xv1)),
                rhs@[0]@,
            );
            assert(tridiagonal_row_value(
                views_of(lower@),
                views_of(diag@),
                views_of(upper@),
                xs,
                0,
            ) == rat_add(rat_add(zz, rat_mul(diag@[0]@, xs[0])), rat_mul(upper@[0]@, xs[1])));
            // Row 1: lo1 * x0 + d1 * x1 denotes rhs1.
            lemma_rat_mul_congruence(lower@[1]@, lower@[1]@, xv0, rat_sub(dp, t3@));
            lemma_rat_mul_distributes_sub(dp, t3@, lower@[1]@);
            lemma_rat_ops_wf(lower@[1]@, rat_sub(dp, t3@));
            lemma_rat_ops_wf(lower@[1]@, dp);
            lemma_rat_ops_wf(lower@[1]@, t3@);
            lemma_rat_eq_trans(
                rat_mul(lower@[1]@, xv0),
                rat_mul(lower@[1]@, rat_sub(dp, t3@)),
                rat_sub(rat_mul(lower@[1]@, dp), rat_mul(lower@[1]@, t3@)),
            );
            // lo1 * t3 denotes tt * x1.
            lemma_rat_mul_congruence(lower@[1]@, lower@[1]@, t3@, rat_mul(cp, xv1));
            lemma_rat_mul_assoc(lower@[1]@, cp, xv1);
            lemma_rat_ops_wf(lower@[1]@, rat_mul(cp, xv1));
            lemma_rat_ops_wf(lower@[1]@, cp);
            lemma_rat_ops_wf(rat_mul(lower@[1]@, cp), xv1);
            lemma_rat_eq_trans(
                rat_mul(lower@[1]@, t3@),
                rat_mul(lower@[1]@, rat_mul(cp, xv1)),
                rat_mul(rat_mul(lower@[1]@, cp), xv1),
            );
            lemma_rat_eq_sym(tv, rat_mul(lower@[1]@, cp));
            lemma_rat_mul_congruence(rat_mul(lower@[1]@, cp), tv, xv1, xv1);
            lemma_rat_ops_wf(tv, xv1);
            lemma_rat_eq_trans(
                rat_mul(lower@[1]@, t3@),
                rat_mul(rat_mul(lower@[1]@, cp), xv1),
                rat_mul(tv, xv1),
            );
            // lo1 * x0 denotes t2 - tt * x1.
            lemma_rat_eq_sym(t2v, rat_mul(lower@[1]@, dp));
            lemma_rat_sub_congruence(
                rat_mul(lower@[1]@, dp),
                t2v,
                rat_mul(lower@[1]@, t3@),
                rat_mul(tv, xv1),
            );
            lemma_rat_ops_wf(rat_mul(lower@[1]@, dp), rat_mul(lower@[1]@, t3@));
            lemma_rat_ops_wf(t2v, rat_mul(tv, xv1));
            lemma_rat_eq_trans(
                rat_mul(lower@[1]@, xv0),
                rat_sub(rat_mul(lower@[1]@, dp), rat_mul(lower@[1]@, t3@)),
                rat_sub(t2v, rat_mul(tv, xv1)),
            );
            // d1 * x1 denotes (rhs1 - t2) + tt * x1.
            lemma_rat_sub_add_cancel(diag@[1]@, tv);
            lemma_rat_eq_sym(dnv, rat_sub(diag@[1]@, tv));
            lemma_rat_eq_refl(tv);
            lemma_rat_ops_wf(diag@[1]@, tv);
            lemma_rat_add_congruence(dnv, rat_sub(diag@[1]@, tv), tv, tv);
            lemma_rat_ops_wf(dnv, tv);
            lemma_rat_ops_wf(rat_sub(diag@[1]@, tv), tv);
            lemma_rat_eq_trans(
                rat_add(dnv, tv),
                rat_add(rat_sub(diag@[1]@, tv), tv),
                diag@[1]@,
            );
            lemma_rat_eq_sym(rat_add(dnv, tv), diag@[1]@);
            lemma_rat_eq_refl(xv1);
            lemma_rat_mul_congruence(diag@[1]@, rat_add(dnv, tv), xv1, xv1);
            lemma_rat_mul_distributes(dnv, tv, xv1);
            lemma_rat_ops_wf(rat_add(dnv, tv), xv1);
            lemma_rat_ops_wf(dnv, xv1);
            lemma_rat_eq_trans(
                rat_mul(diag@[1]@, xv1),
                rat_mul(rat_add(dnv, tv), xv1),
                rat_add(rat_mul(dnv, xv1), rat_mul(tv, xv1)),
            );
            // dn * x1 denotes rhs1 - t2.
            lemma_rat_eq_refl(dnv);
            lemma_rat_mul_congruence(dnv, dnv, xv1, rat_div(n1v, dnv));
            lemma_rat_ops_wf(n1v, dnv);
            lemma_rat_mul_div_cancel(dnv, n1v);
            lemma_rat_ops_wf(dnv, rat_div(n1v, dnv));
            lemma_rat_eq_trans(rat_mul(dnv, xv1), rat_mul(dnv, rat_div(n1v, dnv)), n1v);
            lemma_rat_eq_trans(rat_mul(dnv, xv1), n1v, rat_sub(rhs@[1]@, t2v));
            // Sum the two row terms and telescope.
            lemma_rat_ops_wf(rhs@[1]@, t2v);
            lemma_rat_add_congruence(
                rat_mul(dnv, xv1),
                rat_sub(rhs@[1]@, t2v),
                rat_mul(tv, xv1),
                rat_mul(tv, xv1),
            );
            lemma_rat_ops_wf(rat_mul(dnv, xv1), rat_mul(tv, xv1));
            lemma_rat_ops_wf(rat_sub(rhs@[1]@, t2v), rat_mul(tv, xv1));
            lemma_rat_eq_trans(
                rat_mul(diag@[1]@, xv1),
                rat_add(rat_mul(dnv, xv1), rat_mul(tv, xv1)),
                rat_add(rat_sub(rhs@[1]@, t2v), rat_mul(tv, xv1)),
            );
            lemma_rat_ops_wf(lower@[1]@, xv0);
            lemma_rat_ops_wf(diag@[1]@, xv1);
            lemma_rat_ops_wf(t2v, rat_mul(tv, xv1));
            lemma_rat_add_congruence(
                rat_mul(lower@[1]@, xv0),
                rat_sub(t2v, rat_mul(tv, xv1)),
                rat_mul(diag@[1]@, xv1),
                rat_add(rat_sub(rhs@[1]@, t2v), rat_mul(tv, xv1)),
            );
            lemma_rat_add_assoc(
                rat_sub(t2v, rat_mul(tv, xv1)),
                rat_sub(rhs@[1]@, t2v),
                rat_mul(tv, xv1),
            );
            lemma_rat_add_sub_pair(t2v, rat_mul(tv, xv1), rhs@[1]@);
            lemma_rat_ops_wf(rhs@[1]@, rat_mul(tv, xv1));
            lemma_rat_eq_refl(rat_mul(tv, xv1));
            lemma_rat_ops_wf(rat_sub(t2v, rat_mul(tv, xv1)), rat_sub(rhs@[1]@, t2v));
            lemma_rat_add_congruence(
                rat_add(rat_sub(t2v, rat_mul(tv, xv1)), rat_sub(rhs@[1]@, t2v)),
                rat_sub(rhs@[1]@, rat_mul(tv, xv1)),
                rat_mul(tv, xv1),
                rat_mul(tv, xv1),
            );
            lemma_rat_sub_add_cancel(rhs@[1]@, rat_mul(tv, xv1));
            lemma_rat_ops_wf(
                rat_add(rat_sub(t2v, rat_mul(tv, xv1)), rat_sub(rhs@[1]@, t2v)),
                rat_mul(tv, xv1),
            );
            lemma_rat_ops_wf(rat_sub(rhs@[1]@, rat_mul(tv, xv1)), rat_mul(tv, xv1));
            lemma_rat_eq_trans(
                rat_add(
                    rat_sub(t2v, rat_mul(tv, xv1)),
                    rat_add(rat_sub(rhs@[1]@, t2v), rat_mul(tv, xv1)),
                ),
                rat_add(
                    rat_add(rat_sub(t2v, rat_mul(tv, xv1)), rat_sub(rhs@[1]@, t2v)),
                    rat_mul(tv, xv1),
                ),
                rat_add(rat_sub(rhs@[1]@, rat_mul(tv, xv1)), rat_mul(tv, xv1)),
            );
            lemma_rat_eq_trans(
                rat_add(
                    rat_sub(t2v, rat_mul(tv, xv1)),
                    rat_add(rat_sub(rhs@[1]@, t2v), rat_mul(tv, xv1)),
                ),
                rat_add(rat_sub(rhs@[1]@, rat_mul(tv, xv1)), rat_mul(tv, xv1)),
                rhs@[1]@,
            );
            lemma_rat_ops_wf(
                rat_sub(t2v, rat_mul(tv, xv1)),
                rat_add(rat_sub(rhs@[1]@, t2v), rat_mul(tv, xv1)),
            );
            lemma_rat_eq_trans(
                rat_add(rat_mul(lower@[1]@, xv0), rat_mul(diag@[1]@, xv1)),
                rat_add(
                    rat_sub(t2v, rat_mul(tv, xv1)),
                    rat_add(rat_sub(rhs@[1]@, t2v), rat_mul(tv, xv1)),
                ),
                rhs@[1]@,
            );
            // Wrap with the zero term.
            lemma_rat_ops_wf(rat_mul(lower@[1]@, xv0), rat_mul(diag@[1]@, xv1));
            lemma_rat_zero_plus(zz, rat_add(rat_mul(lower@[1]@, xv0), rat_mul(diag@[1]@, xv1)));
            lemma_rat_eq_trans(
                rat_add(rat_add(rat_mul(lower@[1]@, xv0), rat_mul(diag@[1]@, xv1)), zz),
                rat_add(rat_mul(lower@[1]@, xv0), rat_mul(diag@[1]@, xv1)),
                rhs@[1]@,
            );
            assert(tridiagonal_row_value(
                views_of(lower@),
                views_of(diag@),
                views_of(upper@),
                xs,
                1,
            ) == rat_add(
                rat_add(rat_mul(lower@[1]@, xs[0]), rat_mul(diag@[1]@, xs[1])),
                zz,
            ));
        }
        return Some(x);
    }
    // Forward elimination: after it, row i reads x[i] + cp[i] * x[i+1] = dp[i].
    let mut cp: Vec<Frac> = Vec::new();
    let mut dp: Vec<Frac> = Vec::new();
    let mut i: usize = 0;
    while i < n
        invariant
            i <= n,
            n == diag@.len(),
            n >= 3,
            lower@.len() == n,
            upper@.len() == n,
            rhs@.len() == n,
            fracs_wf(lower@),
            fracs_wf(diag@),
            fracs_wf(upper@),
            fracs_wf(rhs@),
            cp@.len() == i,
            dp@.len() == i,
            fracs_wf(cp@),
            fracs_wf(dp@),
        decreases n - i,
    {
        let denom: Frac = if i == 0 {
            diag[0]
        } else {
            match lower[i].mul(&cp[i - 1]) {
                Some(t) => match diag[i].sub(&t) {
                    Some(d) => d,
                    None => {
                        return None;
                    },
                },
                None => {
                    return None;
                },
            }
        };
        if denom.is_zero() {
            return None;
        }
        let c_new = match upper[i].div(&denom) {
            Some(c) => c,
            None => {
                return None;
            },
        };
        let d_num: Frac = if i == 0 {
            rhs[0]
        } else {
            match lower[i].mul(&dp[i - 1]) {
                Some(t) => match rhs[i].sub(&t) {
                    Some(d) => d,
                    None => {
                        return None;
                    },
                },
                None => {
                    return None;
                },
            }
        };
        let d_new = match d_num.div(&denom) {
            Some(d) => d,
            None => {
                return None;
            },
        };
        cp.push(c_new);
        dp.push(d_new);
        i = i + 1;
    }
    // Back substitution.
    let mut x: Vec<Frac> = Vec::new();
    x.push(dp[n - 1]);
    let mut filled: usize = 1;
    while filled < n
        invariant
            1 <= filled <= n,
            n == diag@.len(),
            n >= 3,
            cp@.len() == n,
            dp@.len() == n,
            fracs_wf(cp@),
            fracs_wf(dp@),
            x@.len() == filled,
            fracs_wf(x@),
        decreases n - filled,
    {
        // x is built back to front; x[0] currently holds the unknown with
        // the highest index.
        let j = n - 1 - filled;
        let t = match cp[j].mul(&x[0]) {
            Some(t) => t,
            None => {
                return None;
            },
        };
        let v = match dp[j].sub(&t) {
            Some(v) => v,
            None => {
                return None;
            },
        };
        x.insert(0, v);
        filled = filled + 1;
    }
    // Exact check of every row of the original system.
    let mut k: usize = 0;
    while k < n
        invariant
            k <= n,
            n == diag@.len(),
            n >= 3,
            lower@.len() == n,
            upper@.len() == n,
            rhs@.len() == n,
            fracs_wf(lower@),
            fracs_wf(diag@),
            fracs_wf(upper@),
            fracs_wf(rhs@),
            x@.len() == n,
            fracs_wf(x@),
            forall|i2: int|
                0 <= i2 < k ==> rat_eq(
                    #[trigger] tridiagonal_row_value(
                        views_of(lower@),
                        views_of(diag@),
                        views_of(upper@),
                        views_of(x@),
                        i2,
                    ),
                    views_of(rhs@)[i2],
                ),
        decreases n - k,
    {
        let ghost lo = views_of(lower@);
        let ghost di = views_of(diag@);
        let ghost up = views_of(upper@);
        let ghost xs = views_of(x@);
        let ghost left = if k > 0 {
            rat_mul(lo[k as int], xs[k as int - 1])
        } else {
            rat_of_int(0)
        };
        let ghost middle = rat_mul(di[k as int], xs[k as int]);
        let ghost right = if k < n - 1 {
            rat_mul(up[k as int], xs[k as int + 1])
        } else {
            rat_of_int(0)
        };
        let first: Frac = if k > 0 {
            match lower[k].mul(&x[k - 1]) {
                Some(t) => t,
                None => {
                    return None;
                },
            }
        } else {
            Frac::of_int(0)
        };
        let second = match diag[k].mul(&x[k]) {
            Some(t) => t,
            None => {
                return None;
            },
        };
        let third: Frac = if k < n - 1 {
            match upper[k].mul(&x[k + 1]) {
                Some(t) => t,
                None => {
                    return None;
                },
            }
        } else {
            Frac::of_int(0)
        };
        let sum1 = match first.add(&second) {
            Some(t) => t,
            None => {
                return None;
            },
        };
        let total = match sum1.add(&third) {
            Some(t) => t,
            None => {
                return None;
            },
        };
        proof {
            assert(x@[k as int].wf() && xs[k as int] == x@[k as int]@);
            assert(diag@[k as int].wf() && di[k as int] == diag@[k as int]@);
            assert(rhs@[k as int].wf() && views_of(rhs@)[k as int] == rhs@[k as int]@);
            if k > 0 {
                assert(x@[k as int - 1].wf() && xs[k as int - 1] == x@[k as int - 1]@);
                assert(lower@[k as int].wf() && lo[k as int] == lower@[k as int]@);
                lemma_rat_ops_wf(lo[k as int], xs[k as int - 1]);
            }
            lemma_rat_ops_wf(di[k as int], xs[k as int]);
            if k < n - 1 {
                assert(x@[k as int + 1].wf() && xs[k as int + 1] == x@[k as int + 1]@);
                assert(upper@[k as int].wf() && up[k as int] == upper@[k as int]@);
                lemma_rat_ops_wf(up[k as int], xs[k as int + 1]);
            }
            lemma_rat_add_rebase(sum1@, first@, second@, left, middle);
            lemma_rat_ops_wf(left, middle);
            lemma_rat_add_rebase(total@, sum1@, third@, rat_add(left, middle), right);
            lemma_rat_ops_wf(rat_add(left, middle), right);
        }
        if !total.eq_value(&rhs[k]) {
            return None;
        }
        proof {
            let row = tridiagonal_row_value(lo, di, up, xs, k as int);
            lemma_rat_eq_sym(total@, row);
            lemma_rat_eq_trans(row, total@, views_of(rhs@)[k as int]);
        }
        k = k + 1;
    }
    Some(x)
}

/// The time grid is strictly increasing.
pub open spec fn rat_seq_increasing(s: Seq<Rat>) -> bool {
    forall|i: int| 0 <= i < s.len() - 1 ==> rat_lt(#[trigger] s[i], s[i + 1])
}

/// Width of grid interval `j`.
pub open spec fn spec_h(dates: Seq<Rat>, j: int) -> Rat {
    rat_sub(dates[j + 1], dates[j])
}

/// Row `i` (for `1 <= i <= len - 2`) of the natural cubic spline's
/// tridiagonal system for the second derivatives `m`:
/// `h[i-1] m[i-1] + 2 (x[i+1] - x[i-1]) m[i] + h[i] m[i+1]`
/// `  == 6 ((y[i+1] - y[i]) / h[i] - (y[i] - y[i-1]) / h[i-1])`.
pub open spec fn spline_row_holds(dates: Seq<Rat>, rates: Seq<Rat>, m: Seq<Rat>, i: int) -> bool {
    rat_eq(
        rat_add(
            rat_add(
                rat_mul(spec_h(dates, i - 1), m[i - 1]),
                rat_mul(
                    rat_mul(rat_of_int(2), rat_sub(dates[i + 1], dates[i - 1])),
                    m[i],
                ),
            ),
            rat_mul(spec_h(dates, i), m[i + 1]),
        ),
        rat_mul(
            rat_of_int(6),
            rat_sub(
                rat_div(rat_sub(rates[i + 1], rates[i]), spec_h(dates, i)),
                rat_div(rat_sub(rates[i], rates[i - 1]), spec_h(dates, i - 1)),
            ),
        ),
    )
}

/// `m` is the natural cubic spline's second-derivative sequence: zero at
/// both ends and satisfying the interior tridiagonal rows.
pub open spec fn natural_spline_system(dates: Seq<Rat>, rates: Seq<Rat>, m: Seq<Rat>) -> bool {
    &&& m.len() == dates.len()
    &&& rat_is_zero(m[0])
    &&& rat_is_zero(m[m.len() - 1])
    &&& forall|i: int| 1 <= i <= m.len() - 2 ==> #[trigger] spline_row_holds(dates, rates, m, i)
}

/// The spline's cubic on segment `j`, evaluated at `t`:
/// `a p^3 + b p^2 + c p + d` with `p = t - x[j]` and the standard
/// coefficients derived from the second derivatives at the two ends.
pub open spec fn spline_coeff_a(dates: Seq<Rat>, m: Seq<Rat>, j: int) -> Rat {
    rat_div(rat_sub(m[j + 1], m[j]), rat_mul(rat_of_int(6), spec_h(dates, j)))
}

pub open spec fn spline_coeff_b(m: Seq<Rat>, j: int) -> Rat {
    rat_div(m[j], rat_of_int(2))
}

pub open spec fn spline_coeff_c(dates: Seq<Rat>, rates: Seq<Rat>, m: Seq<Rat>, j: int) -> Rat {
    rat_sub(
        rat_div(rat_sub(rates[j + 1], rates[j]), spec_h(dates, j)),
        rat_div(
            rat_mul(
                spec_h(dates, j),
                rat_add(rat_mul(rat_of_int(2), m[j]), m[j + 1]),
            ),
            rat_of_int(6),
        ),
    )
}

pub open spec fn spline_segment_value(
    dates: Seq<Rat>,
    rates: Seq<Rat>,
    m: Seq<Rat>,
    j: int,
    t: Rat,
) -> Rat {
    let p = rat_sub(t, dates[j]);
    rat_add(
        rat_add(
            rat_add(
                rat_mul(spline_coeff_a(dates, m, j), rat_mul(rat_mul(p, p), p)),
                rat_mul(spline_coeff_b(m, j), rat_mul(p, p)),
            ),
            rat_mul(spline_coeff_c(dates, rates, m, j), p),
        ),
        rates[j],
    )
}

/// The cubic term evaluated over a whole interval:
/// `(u / (6 h)) * h^3` denotes `u h^2 / 6`.
proof fn lemma_cross_scale(xn: int, xd: int, yn: int, yd: int, w: int)
    by (nonlinear_arith)
    requires
        xn == yn * w,
        xd == yd * w,
    ensures
        xn * yd == yn * xd,
{
}

proof fn lemma_spline_cubic_term(u: Rat, h: Rat)
    requires
        rat_wf(u),
        rat_wf(h),
        !rat_is_zero(h),
    ensures
        rat_eq(
            rat_mul(rat_div(u, rat_mul(rat_of_int(6), h)), rat_mul(rat_mul(h, h), h)),
            rat_div(rat_mul(u, rat_mul(h, h)), rat_of_int(6)),
        ),
{
    let a = u.num;
    let b = u.den;
    let c = h.num;
    let d = h.den;
    assert((a * (1 * d)) * ((c * c) * c) == ((a * (c * c)) * 1) * (c * d)) by (nonlinear_arith);
    assert((b * (6 * c)) * ((d * d) * d) == ((b * (d * d)) * 6) * (c * d)) by (nonlinear_arith);
    lemma_cross_scale(
        (a * (1 * d)) * ((c * c) * c),
        (b * (6 * c)) * ((d * d) * d),
        (a * (c * c)) * 1,
        (b * (d * d)) * 6,
        c * d,
    );
}

/// The quadratic term evaluated over a whole interval:
/// `(v / 2) * h^2` denotes `v h^2 / 2`.
proof fn lemma_spline_square_term(v: Rat, h: Rat)
    by (nonlinear_arith)
    requires
        rat_wf(v),
        rat_wf(h),
    ensures
        rat_eq(
            rat_mul(rat_div(v, rat_of_int(2)), rat_mul(h, h)),
            rat_div(rat_mul(v, rat_mul(h, h)), rat_of_int(2)),
        ),
{
}

/// The cubic and quadratic terms combine:
/// `(x - y) k / 6 + y k / 2` denotes `(2 y + x) k / 6`.
proof fn lemma_spline_combine(x: Rat, y: Rat, k: Rat)
    requires
        rat_wf(x),
        rat_wf(y),
        rat_wf(k),
    ensures
        rat_eq(
            rat_add(
                rat_div(rat_mul(rat_sub(x, y), k), rat_of_int(6)),
                rat_div(rat_mul(y, k), rat_of_int(2)),
            ),
            rat_div(rat_mul(rat_add(rat_mul(rat_of_int(2), y), x), k), rat_of_int(6)),
        ),
{
    let sn = x.num * y.den - y.num * x.den;
    let sd = x.den * y.den;
    let tn = (2 * y.num) * x.den + x.num * (1 * y.den);
    let td = (1 * y.den) * x.den;
    let lhs_n = ((sn * k.num) * 1) * ((y.den * k.den) * 2) + ((y.num * k.num) * 1) * ((sd
        * k.den) * 6);
    let lhs_d = ((sd * k.den) * 6) * ((y.den * k.den) * 2);
    let rhs_n = (tn * k.num) * 1;
    let rhs_d = (td * k.den) * 6;
    let big_k = k.num * k.den;
    assert(((sn * k.num) * 1) * ((y.den * k.den) * 2) == ((sn * y.den) * 2) * big_k)
        by (nonlinear_arith)
        requires
            big_k == k.num * k.den,
    ;
    assert(((y.num * k.num) * 1) * ((sd * k.den) * 6) == ((y.num * sd) * 6) * big_k)
        by (nonlinear_arith)
        requires
            big_k == k.num * k.den,
    ;
    assert(rhs_n * (2 * (y.den * k.den)) == ((tn * y.den) * 2) * big_k) by (nonlinear_arith)
        requires
            big_k == k.num * k.den,
            rhs_n == (tn * k.num) * 1,
    ;
    assert((sn * y.den) * 2 + (y.num * sd) * 6 == (tn * y.den) * 2) by (nonlinear_arith)
        requires
            sn == x.num * y.den - y.num * x.den,
            sd == x.den * y.den,
            tn == (2 * y.num) * x.den + x.num * (1 * y.den),
    ;
    lemma_mul_distribute((sn * y.den) * 2, (y.num * sd) * 6, big_k);
    assert(lhs_n == rhs_n * (2 * (y.den * k.den)));
    assert(lhs_d == rhs_d * (2 * (y.den * k.den))) by (nonlinear_arith)
        requires
            sd == x.den * y.den,
            td == (1 * y.den) * x.den,
            lhs_d == ((sd * k.den) * 6) * ((y.den * k.den) * 2),
            rhs_d == (td * k.den) * 6,
    ;
    lemma_cross_scale(lhs_n, lhs_d, rhs_n, rhs_d, 2 * (y.den * k.den));
}

/// The linear term evaluated over a whole interval:
/// `(s / h - h t / 6) * h` denotes `s - t h^2 / 6`.
proof fn lemma_spline_linear_term(s: Rat, t: Rat, h: Rat)
    requires
        rat_wf(s),
        rat_wf(t),
        rat_wf(h),
        !rat_is_zero(h),
    ensures
        rat_eq(
            rat_mul(
                rat_sub(rat_div(s, h), rat_div(rat_mul(h, t), rat_of_int(6))),
                h,
            ),
            rat_sub(s, rat_div(rat_mul(t, rat_mul(h, h)), rat_of_int(6))),
        ),
{
    let cn = (s.num * h.den) * ((h.den * t.den) * 6) - ((h.num * t.num) * 1) * (s.den * h.num);
    let cd = (s.den * h.num) * ((h.den * t.den) * 6);
    let wn = (t.num * (h.num * h.num)) * 1;
    let wd = (t.den * (h.den * h.den)) * 6;
    let rhs_n = s.num * wd - wn * s.den;
    let rhs_d = s.den * wd;
    assert(cn * h.num == rhs_n * h.num) by (nonlinear_arith)
        requires
            cn == (s.num * h.den) * ((h.den * t.den) * 6) - ((h.num * t.num) * 1) * (s.den
                * h.num),
            rhs_n == s.num * ((t.den * (h.den * h.den)) * 6) - ((t.num * (h.num * h.num)) * 1)
                * s.den,
    ;
    assert(cd * h.den == rhs_d * h.num) by (nonlinear_arith)
        requires
            cd == (s.den * h.num) * ((h.den * t.den) * 6),
            rhs_d == s.den * ((t.den * (h.den * h.den)) * 6),
    ;
    lemma_cross_scale(cn * h.num, cd * h.den, rhs_n, rhs_d, h.num);
}

/// The spline interpolates: on any segment, for any second-derivative
/// values at its two ends, the segment's cubic takes exactly the given
/// rate at the given date at both ends of the segment. The curve passes
/// through the market data, it does not merely come near it.
pub proof fn lemma_spline_interpolates_at_knots(
    dates: Seq<Rat>,
    rates: Seq<Rat>,
    m: Seq<Rat>,
    j: int,
)
    requires
        rats_wf(dates),
        rats_wf(rates),
        rats_wf(m),
        rates.len() == dates.len(),
        m.len() == dates.len(),
        0 <= j < dates.len() - 1,
        rat_lt(dates[j], dates[j + 1]),
    ensures
        rat_eq(spline_segment_value(dates, rates, m, j, dates[j]), rates[j]),
        rat_eq(spline_segment_value(dates, rates, m, j, dates[j + 1]), rates[j + 1]),
{
    let h = spec_h(dates, j);
    let a = spline_coeff_a(dates, m, j);
    let b = spline_coeff_b(m, j);
    let c = spline_coeff_c(dates, rates, m, j);
    let y0 = rates[j];
    let y1 = rates[j + 1];
    let m0 = m[j];
    let m1 = m[j + 1];
    let hh = rat_mul(h, h);
    let t_mid = rat_add(rat_mul(rat_of_int(2), m0), m1);
    let s_diff = rat_sub(y1, y0);
    let q = rat_div(rat_mul(t_mid, hh), rat_of_int(6));
    lemma_rat_sub_nonzero(dates[j], dates[j + 1]);
    lemma_rat_ops_wf(dates[j + 1], dates[j]);
    lemma_rat_ops_wf(h, h);
    lemma_rat_ops_wf(m1, m0);
    lemma_rat_ops_wf(rat_of_int(6), h);
    lemma_rat_ops_wf(rat_of_int(2), m0);
    lemma_rat_ops_wf(rat_mul(rat_of_int(2), m0), m1);
    lemma_rat_ops_wf(t_mid, hh);
    lemma_rat_ops_wf(rat_mul(t_mid, hh), rat_of_int(6));
    lemma_rat_ops_wf(y1, y0);
    assert(!rat_is_zero(rat_mul(rat_of_int(6), h))) by (nonlinear_arith)
        requires
            !rat_is_zero(h),
    ;
    lemma_rat_ops_wf(rat_sub(m1, m0), rat_mul(rat_of_int(6), h));
    lemma_rat_ops_wf(m0, rat_of_int(2));
    lemma_rat_ops_wf(s_diff, h);
    lemma_rat_ops_wf(h, t_mid);
    lemma_rat_ops_wf(rat_mul(h, t_mid), rat_of_int(6));
    lemma_rat_ops_wf(rat_div(s_diff, h), rat_div(rat_mul(h, t_mid), rat_of_int(6)));
    // Evaluation at the right end of the segment, where p = h.
    let p3 = rat_mul(rat_mul(h, h), h);
    let ta = rat_mul(a, p3);
    let tb = rat_mul(b, hh);
    let tc = rat_mul(c, h);
    let a2 = rat_div(rat_mul(rat_sub(m1, m0), hh), rat_of_int(6));
    let b2 = rat_div(rat_mul(m0, hh), rat_of_int(2));
    lemma_spline_cubic_term(rat_sub(m1, m0), h);
    lemma_spline_square_term(m0, h);
    lemma_rat_ops_wf(rat_sub(m1, m0), hh);
    lemma_rat_ops_wf(rat_mul(rat_sub(m1, m0), hh), rat_of_int(6));
    lemma_rat_ops_wf(m0, hh);
    lemma_rat_ops_wf(rat_mul(m0, hh), rat_of_int(2));
    lemma_rat_ops_wf(hh, h);
    lemma_rat_ops_wf(a, p3);
    lemma_rat_ops_wf(b, hh);
    lemma_rat_ops_wf(c, h);
    lemma_rat_add_congruence(ta, a2, tb, b2);
    lemma_spline_combine(m1, m0, hh);
    lemma_rat_ops_wf(a2, b2);
    lemma_rat_eq_trans(rat_add(ta, tb), rat_add(a2, b2), q);
    lemma_spline_linear_term(s_diff, t_mid, h);
    lemma_rat_ops_wf(s_diff, q);
    lemma_rat_ops_wf(ta, tb);
    lemma_rat_add_congruence(rat_add(ta, tb), q, tc, rat_sub(s_diff, q));
    lemma_rat_add_sub_cancel(s_diff, q);
    lemma_rat_ops_wf(q, rat_sub(s_diff, q));
    lemma_rat_ops_wf(rat_add(ta, tb), tc);
    lemma_rat_eq_trans(
        rat_add(rat_add(ta, tb), tc),
        rat_add(q, rat_sub(s_diff, q)),
        s_diff,
    );
    lemma_rat_ops_wf(ta, tb);
    lemma_rat_eq_refl(y0);
    lemma_rat_add_congruence(rat_add(rat_add(ta, tb), tc), s_diff, y0, y0);
    lemma_rat_sub_add_cancel(y1, y0);
    lemma_rat_ops_wf(rat_add(rat_add(ta, tb), tc), y0);
    lemma_rat_ops_wf(s_diff, y0);
    lemma_rat_eq_trans(
        rat_add(rat_add(rat_add(ta, tb), tc), y0),
        rat_add(s_diff, y0),
        y1,
    );
    // Evaluation at the left end of the segment, where p denotes zero.
    let p0 = rat_sub(dates[j], dates[j]);
    assert(rat_is_zero(p0));
    lemma_rat_ops_wf(dates[j], dates[j]);
    lemma_rat_mul_zero(p0, p0);
    lemma_rat_mul_zero(rat_mul(p0, p0), p0);
    lemma_rat_mul_zero(a, rat_mul(rat_mul(p0, p0), p0));
    lemma_rat_mul_zero(b, rat_mul(p0, p0));
    lemma_rat_mul_zero(c, p0);
    lemma_rat_zero_sum(rat_mul(a, rat_mul(rat_mul(p0, p0), p0)), rat_mul(b, rat_mul(p0, p0)));
    lemma_rat_zero_sum(
        rat_add(rat_mul(a, rat_mul(rat_mul(p0, p0), p0)), rat_mul(b, rat_mul(p0, p0))),
        rat_mul(c, p0),
    );
    lemma_rat_ops_wf(p0, p0);
    lemma_rat_ops_wf(rat_mul(p0, p0), p0);
    lemma_rat_ops_wf(a, rat_mul(rat_mul(p0, p0), p0));
    lemma_rat_ops_wf(b, rat_mul(p0, p0));
    lemma_rat_ops_wf(c, p0);
    lemma_rat_ops_wf(
        rat_mul(a, rat_mul(rat_mul(p0, p0), p0)),
        rat_mul(b, rat_mul(p0, p0)),
    );
    lemma_rat_ops_wf(
        rat_add(rat_mul(a, rat_mul(rat_mul(p0, p0), p0)), rat_mul(b, rat_mul(p0, p0))),
        rat_mul(c, p0),
    );
    lemma_rat_zero_plus(
        rat_add(
            rat_add(rat_mul(a, rat_mul(rat_mul(p0, p0), p0)), rat_mul(b, rat_mul(p0, p0))),
            rat_mul(c, p0),
        ),
        y0,
    );
}

/// The natural cubic spline's second derivatives over the given grid: zero
/// at both ends, the interior values solved for exactly through the
/// tridiagonal system. `None` when the exact fractions leave machine
/// range. A returned sequence is checked row by row against the system;
/// a two-point grid, which has no interior system at all, is owed its
/// all-zero answer, and a three-point grid with entries within the
/// machine-range envelope is owed its one-unknown answer.
pub fn spline_second_derivatives(dates: &Vec<Frac>, rates: &Vec<Frac>) -> (r: Option<Vec<Frac>>)
    requires
        dates@.len() == rates@.len(),
        dates@.len() >= 2,
        fracs_wf(dates@),
        fracs_wf(rates@),
        rat_seq_increasing(views_of(dates@)),
    ensures
        r matches Some(m) ==> fracs_wf(m@) && natural_spline_system(
            views_of(dates@),
            views_of(rates@),
            views_of(m@),
        ),
        dates@.len() == 2 ==> r is Some,
        dates@.len() == 2 ==> (r matches Some(m) ==> m@[0]@ == rat_of_int(0) && m@[1]@
            == rat_of_int(0)),
        dates@.len() == 3 && rat_in_range(views_of(dates@)[0], 50) && rat_in_range(
            views_of(dates@)[1],
            50,
        ) && rat_in_range(views_of(dates@)[2], 50) && rat_in_range(views_of(rates@)[0], 50)
            && rat_in_range(views_of(rates@)[1], 50) && rat_in_range(views_of(rates@)[2], 50)
            ==> r is Some,
{
    let ghost dv = views_of(dates@);
    let ghost rv = views_of(rates@);
    let n = dates.len();
    if n == 2 {
        // No interior knots: the natural boundary alone fixes both second
        // derivatives to zero, and the segment is the straight chord.
        let mut m: Vec<Frac> = Vec::new();
        m.push(Frac::of_int(0));
        m.push(Frac::of_int(0));
        proof {
            let mv = views_of(m@);
            assert(mv[0] == m@[0]@ && mv[1] == m@[1]@);
            assert(m@[0].wf() && m@[1].wf());
            assert(natural_spline_system(dv, rv, mv));
        }
        return Some(m);
    }
    if n == 3 {
        // One interior knot: the system is a single row, solved by one
        // exact division; its pivot cannot vanish over an increasing grid.
        proof {
            assert(dates@[0].wf() && dates@[1].wf() && dates@[2].wf());
            assert(rates@[0].wf() && rates@[1].wf() && rates@[2].wf());
            assert(dv[0] == dates@[0]@ && dv[1] == dates@[1]@ && dv[2] == dates@[2]@);
            assert(rv[0] == rates@[0]@ && rv[1] == rates@[1]@ && rv[2] == rates@[2]@);
            assert(rat_lt(views_of(dates@)[0], views_of(dates@)[1]));
            assert(rat_lt(views_of(dates@)[1], views_of(dates@)[2]));
            lemma_rat_lt_trans(dv[0], dv[1], dv[2]);
            lemma_rat_sub_nonzero(dv[0], dv[1]);
            lemma_rat_sub_nonzero(dv[1], dv[2]);
            lemma_rat_sub_nonzero(dv[0], dv[2]);
            lemma_rat_ops_wf(dv[1], dv[0]);
            lemma_rat_ops_wf(dv[2], dv[1]);
            lemma_rat_ops_wf(dv[2], dv[0]);
        }
        let ghost small3 = rat_in_range(dv[0], 50) && rat_in_range(dv[1], 50) && rat_in_range(
            dv[2],
            50,
        ) && rat_in_range(rv[0], 50) && rat_in_range(rv[1], 50) && rat_in_range(rv[2], 50);
        let six = Frac::of_int(6);
        let two = Frac::of_int(2);
        proof {
            assert(small3 ==> int_abs(dates@[1]@.num * dates@[0]@.den - dates@[0]@.num
                * dates@[1]@.den) <= 5000 && 0 < dates@[1]@.den * dates@[0]@.den <= 2500)
                by (nonlinear_arith)
                requires
                    small3 ==> int_abs(dv[1].num) <= 50 && 0 < dv[1].den <= 50 && int_abs(
                        dv[0].num,
                    ) <= 50 && 0 < dv[0].den <= 50,
                    dv[0] == dates@[0]@ && dv[1] == dates@[1]@,
            ;
            assert(small3 ==> int_abs(dates@[2]@.num * dates@[1]@.den - dates@[1]@.num
                * dates@[2]@.den) <= 5000 && 0 < dates@[2]@.den * dates@[1]@.den <= 2500)
                by (nonlinear_arith)
                requires
                    small3 ==> int_abs(dv[2].num) <= 50 && 0 < dv[2].den <= 50 && int_abs(
                        dv[1].num,
                    ) <= 50 && 0 < dv[1].den <= 50,
                    dv[1] == dates@[1]@ && dv[2] == dates@[2]@,
            ;
            assert(small3 ==> int_abs(dates@[2]@.num * dates@[0]@.den - dates@[0]@.num
                * dates@[2]@.den) <= 5000 && 0 < dates@[2]@.den * dates@[0]@.den <= 2500)
                by (nonlinear_arith)
                requires
                    small3 ==> int_abs(dv[2].num) <= 50 && 0 < dv[2].den <= 50 && int_abs(
                        dv[0].num,
                    ) <= 50 && 0 < dv[0].den <= 50,
                    dv[0] == dates@[0]@ && dv[2] == dates@[2]@,
            ;
        }
        let h0 = dates[1].sub(&dates[0])?;
        let h1 = dates[2].sub(&dates[1])?;
        let dd = dates[2].sub(&dates[0])?;
        proof {
            lemma_rat_nonzero_of_eq(h0@, rat_sub(dates@[1]@, dates@[0]@));
            lemma_rat_nonzero_of_eq(h1@, rat_sub(dates@[2]@, dates@[1]@));
            assert(small3 ==> int_abs(h0@.num) <= 5000 && 0 < h0@.den <= 2500);
            assert(small3 ==> int_abs(h1@.num) <= 5000 && 0 < h1@.den <= 2500);
            assert(small3 ==> int_abs(dd@.num) <= 5000 && 0 < dd@.den <= 2500);
            assert(small3 ==> int_abs(two@.num * dd@.num) <= 10000 && 0 < two@.den * dd@.den
                <= 2500) by (nonlinear_arith)
                requires
                    two@ == rat_of_int(2),
                    dd@.den > 0,
                    small3 ==> int_abs(dd@.num) <= 5000 && dd@.den <= 2500,
            ;
        }
        let dnew = two.mul(&dd)?;
        proof {
            lemma_rat_eq_refl(rat_of_int(2));
            lemma_rat_mul_rebase(
                dnew@,
                two@,
                dd@,
                rat_of_int(2),
                rat_sub(dv[2], dv[0]),
            );
            lemma_rat_ops_wf(rat_of_int(2), rat_sub(dv[2], dv[0]));
            assert(!rat_is_zero(rat_mul(rat_of_int(2), rat_sub(dv[2], dv[0]))))
                by (nonlinear_arith)
                requires
                    !rat_is_zero(rat_sub(dv[2], dv[0])),
            ;
            lemma_rat_nonzero_of_eq(dnew@, rat_mul(rat_of_int(2), rat_sub(dv[2], dv[0])));
            assert(small3 ==> int_abs(dnew@.num) <= 10000 && 0 < dnew@.den <= 2500);
            assert(small3 ==> int_abs(rates@[2]@.num * rates@[1]@.den - rates@[1]@.num
                * rates@[2]@.den) <= 5000 && 0 < rates@[2]@.den * rates@[1]@.den <= 2500)
                by (nonlinear_arith)
                requires
                    small3 ==> int_abs(rv[2].num) <= 50 && 0 < rv[2].den <= 50 && int_abs(
                        rv[1].num,
                    ) <= 50 && 0 < rv[1].den <= 50,
                    rv[1] == rates@[1]@ && rv[2] == rates@[2]@,
            ;
        }
        let s1 = rates[2].sub(&rates[1])?;
        proof {
            assert(small3 ==> int_abs(s1@.num) <= 5000 && 0 < s1@.den <= 2500);
            assert(small3 ==> int_abs(s1@.num * h1@.den) <= 12500000 && int_abs(s1@.den
                * h1@.num) <= 12500000) by (nonlinear_arith)
                requires
                    small3 ==> int_abs(s1@.num) <= 5000 && 0 < s1@.den <= 2500 && int_abs(
                        h1@.num,
                    ) <= 5000 && 0 < h1@.den <= 2500,
            ;
        }
        let q1 = s1.div(&h1)?;
        proof {
            assert(small3 ==> int_abs(q1@.num) <= 12500000 && 0 < q1@.den <= 12500000);
            assert(small3 ==> int_abs(rates@[1]@.num * rates@[0]@.den - rates@[0]@.num
                * rates@[1]@.den) <= 5000 && 0 < rates@[1]@.den * rates@[0]@.den <= 2500)
                by (nonlinear_arith)
                requires
                    small3 ==> int_abs(rv[1].num) <= 50 && 0 < rv[1].den <= 50 && int_abs(
                        rv[0].num,
                    ) <= 50 && 0 < rv[0].den <= 50,
                    rv[0] == rates@[0]@ && rv[1] == rates@[1]@,
            ;
        }
        let s0 = rates[1].sub(&rates[0])?;
        proof {
            assert(small3 ==> int_abs(s0@.num) <= 5000 && 0 < s0@.den <= 2500);
            assert(small3 ==> int_abs(s0@.num * h0@.den) <= 12500000 && int_abs(s0@.den
                * h0@.num) <= 12500000) by (nonlinear_arith)
                requires
                    small3 ==> int_abs(s0@.num) <= 5000 && 0 < s0@.den <= 2500 && int_abs(
                        h0@.num,
                    ) <= 5000 && 0 < h0@.den <= 2500,
            ;
        }
        let q0 = s0.div(&h0)?;
        proof {
            assert(small3 ==> int_abs(q0@.num) <= 12500000 && 0 < q0@.den <= 12500000);
            assert(small3 ==> int_abs(q1@.num * q0@.den - q0@.num * q1@.den) <= 312500000000000
                && 0 < q1@.den * q0@.den <= 156250000000000) by (nonlinear_arith)
                requires
                    small3 ==> int_abs(q1@.num) <= 12500000 && 0 < q1@.den <= 12500000
                        && int_abs(q0@.num) <= 12500000 && 0 < q0@.den <= 12500000,
            ;
        }
        let qd = q1.sub(&q0)?;
        proof {
            assert(small3 ==> int_abs(qd@.num) <= 312500000000000 && 0 < qd@.den
                <= 156250000000000);
            assert(small3 ==> int_abs(six@.num * qd@.num) <= 1875000000000000 && 0 < six@.den
                * qd@.den <= 156250000000000) by (nonlinear_arith)
                requires
                    six@ == rat_of_int(6),
                    qd@.den > 0,
                    small3 ==> int_abs(qd@.num) <= 312500000000000 && qd@.den
                        <= 156250000000000,
            ;
        }
        let rnew = six.mul(&qd)?;
        proof {
            assert(small3 ==> int_abs(rnew@.num) <= 1875000000000000 && 0 < rnew@.den
                <= 156250000000000);
            assert(small3 ==> int_abs(rnew@.num * dnew@.den) <= 4687500000000000000 && int_abs(
                rnew@.den * dnew@.num,
            ) <= 1562500000000000000) by (nonlinear_arith)
                requires
                    small3 ==> int_abs(rnew@.num) <= 1875000000000000 && 0 < rnew@.den
                        <= 156250000000000 && int_abs(dnew@.num) <= 10000 && 0 < dnew@.den
                        <= 2500,
            ;
        }
        let mid = rnew.div(&dnew)?;
        let mut m: Vec<Frac> = Vec::new();
        m.push(Frac::of_int(0));
        m.push(mid);
        m.push(Frac::of_int(0));
        proof {
            let mv = views_of(m@);
            assert(mv[0] == m@[0]@ && mv[1] == m@[1]@ && mv[2] == m@[2]@);
            assert(m@[0].wf() && m@[1].wf() && m@[2].wf());
            // Rebase the computed pieces onto the row's own terms.
            let hl_s = spec_h(dv, 0);
            let hr_s = spec_h(dv, 1);
            let mc_s = rat_mul(rat_of_int(2), rat_sub(dv[2], dv[0]));
            let q1_s = rat_div(rat_sub(rv[2], rv[1]), hr_s);
            let q0_s = rat_div(rat_sub(rv[1], rv[0]), hl_s);
            let rhs_s = rat_mul(rat_of_int(6), rat_sub(q1_s, q0_s));
            lemma_rat_ops_wf(rv[2], rv[1]);
            lemma_rat_ops_wf(rv[1], rv[0]);
            lemma_rat_eq_refl(rat_of_int(6));
            lemma_rat_div_rebase(q1@, s1@, h1@, rat_sub(rv[2], rv[1]), hr_s);
            lemma_rat_ops_wf(rat_sub(rv[2], rv[1]), hr_s);
            lemma_rat_div_rebase(q0@, s0@, h0@, rat_sub(rv[1], rv[0]), hl_s);
            lemma_rat_ops_wf(rat_sub(rv[1], rv[0]), hl_s);
            lemma_rat_sub_rebase(qd@, q1@, q0@, q1_s, q0_s);
            lemma_rat_ops_wf(q1_s, q0_s);
            lemma_rat_mul_rebase(rnew@, six@, qd@, rat_of_int(6), rat_sub(q1_s, q0_s));
            lemma_rat_ops_wf(rat_of_int(6), rat_sub(q1_s, q0_s));
            // The single interior row holds: its left side collapses to the
            // middle term, which denotes the right side by the division.
            let zer_l = rat_mul(hl_s, mv[0]);
            let zer_r = rat_mul(hr_s, mv[2]);
            let middle = rat_mul(mc_s, mv[1]);
            lemma_rat_mul_zero(hl_s, mv[0]);
            lemma_rat_mul_zero(hr_s, mv[2]);
            lemma_rat_ops_wf(hl_s, mv[0]);
            lemma_rat_ops_wf(hr_s, mv[2]);
            lemma_rat_ops_wf(mc_s, mv[1]);
            lemma_rat_zero_plus(zer_l, middle);
            lemma_rat_ops_wf(zer_l, middle);
            lemma_rat_eq_refl(zer_r);
            lemma_rat_add_congruence(rat_add(zer_l, middle), middle, zer_r, zer_r);
            lemma_rat_zero_plus(zer_r, middle);
            lemma_rat_ops_wf(middle, zer_r);
            lemma_rat_eq_trans(
                rat_add(rat_add(zer_l, middle), zer_r),
                rat_add(middle, zer_r),
                middle,
            );
            // middle denotes the row's right side.
            lemma_rat_eq_sym(dnew@, mc_s);
            lemma_rat_eq_refl(mv[1]);
            lemma_rat_mul_congruence(mc_s, dnew@, mv[1], mv[1]);
            lemma_rat_ops_wf(dnew@, mv[1]);
            lemma_rat_mul_congruence(dnew@, dnew@, mv[1], rat_div(rnew@, dnew@));
            lemma_rat_ops_wf(rnew@, dnew@);
            lemma_rat_mul_div_cancel(dnew@, rnew@);
            lemma_rat_ops_wf(dnew@, rat_div(rnew@, dnew@));
            lemma_rat_eq_refl(dnew@);
            lemma_rat_eq_trans(
                rat_mul(dnew@, mv[1]),
                rat_mul(dnew@, rat_div(rnew@, dnew@)),
                rnew@,
            );
            lemma_rat_eq_trans(middle, rat_mul(dnew@, mv[1]), rnew@);
            lemma_rat_eq_trans(middle, rnew@, rhs_s);
            lemma_rat_eq_trans(rat_add(rat_add(zer_l, middle), zer_r), middle, rhs_s);
            assert(spline_row_holds(dv, rv, mv, 1));
            assert(natural_spline_system(dv, rv, mv));
        }
        return Some(m);
    }
    let six = Frac::of_int(6);
    let two = Frac::of_int(2);
    // The tridiagonal system for the interior second derivatives.
    let mut lo: Vec<Frac> = Vec::new();
    let mut di: Vec<Frac> = Vec::new();
    let mut up: Vec<Frac> = Vec::new();
    let mut rh: Vec<Frac> = Vec::new();
    let mut i: usize = 0;
    while i < n - 2
        invariant
            i <= n - 2,
            n == dates@.len(),
            rates@.len() == n,
            n >= 4,
            fracs_wf(dates@),
            fracs_wf(rates@),
            rat_seq_increasing(views_of(dates@)),
            six.wf(),
            two.wf(),
            lo@.len() == i,
            di@.len() == i,
            up@.len() == i,
            rh@.len() == i,
            fracs_wf(lo@),
            fracs_wf(di@),
            fracs_wf(up@),
            fracs_wf(rh@),
        decreases n - 2 - i,
    {
        proof {
            assert(dates@[i as int].wf() && dates@[i + 1].wf() && dates@[i + 2].wf());
            assert(rates@[i as int].wf() && rates@[i + 1].wf() && rates@[i + 2].wf());
            assert(views_of(dates@)[i as int] == dates@[i as int]@);
            assert(views_of(dates@)[i + 1] == dates@[i + 1]@);
            assert(views_of(dates@)[i + 2] == dates@[i + 2]@);
            assert(rat_lt(views_of(dates@)[i as int], views_of(dates@)[i + 1]));
            assert(rat_lt(views_of(dates@)[i + 1], views_of(dates@)[i + 2]));
            lemma_rat_sub_nonzero(dates@[i as int]@, dates@[i + 1]@);
            lemma_rat_sub_nonzero(dates@[i + 1]@, dates@[i + 2]@);
            lemma_rat_ops_wf(dates@[i + 1]@, dates@[i as int]@);
            lemma_rat_ops_wf(dates@[i + 2]@, dates@[i + 1]@);
        }
        let h0 = dates[i + 1].sub(&dates[i])?;
        let h1 = dates[i + 2].sub(&dates[i + 1])?;
        proof {
            lemma_rat_nonzero_of_eq(h0@, rat_sub(dates@[i as int + 1]@, dates@[i as int]@));
            lemma_rat_nonzero_of_eq(h1@, rat_sub(dates@[i as int + 2]@, dates@[i as int + 1]@));
        }
        let dd = dates[i + 2].sub(&dates[i])?;
        let d_new = two.mul(&dd)?;
        let s1 = rates[i + 2].sub(&rates[i + 1])?;
        let q1 = s1.div(&h1)?;
        let s0 = rates[i + 1].sub(&rates[i])?;
        let q0 = s0.div(&h0)?;
        let qd = q1.sub(&q0)?;
        let r_new = six.mul(&qd)?;
        lo.push(h0);
        di.push(d_new);
        up.push(h1);
        rh.push(r_new);
        i = i + 1;
    }
    let sol = solve_by_thomas(&lo, &di, &up, &rh)?;
    // Natural boundary: zero second derivative at both ends.
    let mut m: Vec<Frac> = Vec::new();
    m.push(Frac::of_int(0));
    let mut t: usize = 0;
    while t < sol.len()
        invariant
            t <= sol@.len(),
            fracs_wf(sol@),
            m@.len() == t + 1,
            fracs_wf(m@),
            m@[0]@.num == 0,
        decreases sol@.len() - t,
    {
        m.push(sol[t]);
        t = t + 1;
    }
    m.push(Frac::of_int(0));
    if m.len() != n {
        return None;
    }
    // Exact check of every interior row of the spline system.
    let mut k: usize = 1;
    while k < n - 1
        invariant
            1 <= k <= n - 1,
            n == dates@.len(),
            rates@.len() == n,
            n >= 4,
            fracs_wf(dates@),
            fracs_wf(rates@),
            rat_seq_increasing(views_of(dates@)),
            six@ == rat_of_int(6),
            two@ == rat_of_int(2),
            m@.len() == n,
            fracs_wf(m@),
            m@[0]@.num == 0,
            m@[n - 1]@.num == 0,
            dv == views_of(dates@),
            rv == views_of(rates@),
            forall|i2: int|
                1 <= i2 < k ==> #[trigger] spline_row_holds(
                    views_of(dates@),
                    views_of(rates@),
                    views_of(m@),
                    i2,
                ),
        decreases n - 1 - k,
    {
        let ghost mv = views_of(m@);
        let ghost hl_s = spec_h(dv, k - 1);
        let ghost hr_s = spec_h(dv, k as int);
        let ghost t1_s = rat_mul(hl_s, mv[k - 1]);
        let ghost mc_s = rat_mul(rat_of_int(2), rat_sub(dv[k + 1], dv[k - 1]));
        let ghost t2_s = rat_mul(mc_s, mv[k as int]);
        let ghost t3_s = rat_mul(hr_s, mv[k + 1]);
        let ghost q1_s = rat_div(rat_sub(rv[k + 1], rv[k as int]), hr_s);
        let ghost q2_s = rat_div(rat_sub(rv[k as int], rv[k - 1]), hl_s);
        proof {
            assert(dates@[k - 1].wf() && dates@[k as int].wf() && dates@[k + 1].wf());
            assert(rates@[k - 1].wf() && rates@[k as int].wf() && rates@[k + 1].wf());
            assert(m@[k - 1].wf() && m@[k as int].wf() && m@[k + 1].wf());
            assert(dv[k - 1] == dates@[k - 1]@ && dv[k as int] == dates@[k as int]@ && dv[k + 1]
                == dates@[k + 1]@);
            assert(rv[k - 1] == rates@[k - 1]@ && rv[k as int] == rates@[k as int]@ && rv[k + 1]
                == rates@[k + 1]@);
            assert(mv[k - 1] == m@[k - 1]@ && mv[k as int] == m@[k as int]@ && mv[k + 1] == m@[k
                + 1]@);
            assert(rat_lt(views_of(dates@)[k - 1], views_of(dates@)[k as int]));
            assert(rat_lt(views_of(dates@)[k as int], views_of(dates@)[k + 1]));
            lemma_rat_sub_nonzero(dv[k - 1], dv[k as int]);
            lemma_rat_sub_nonzero(dv[k as int], dv[k + 1]);
            lemma_rat_ops_wf(dv[k as int], dv[k - 1]);
            lemma_rat_ops_wf(dv[k + 1], dv[k as int]);
            lemma_rat_ops_wf(dv[k + 1], dv[k - 1]);
        }
        let hl = dates[k].sub(&dates[k - 1])?;
        let hr = dates[k + 1].sub(&dates[k])?;
        proof {
            lemma_rat_nonzero_of_eq(hl@, hl_s);
            lemma_rat_nonzero_of_eq(hr@, hr_s);
        }
        let t1 = hl.mul(&m[k - 1])?;
        let dd = dates[k + 1].sub(&dates[k - 1])?;
        let mc = two.mul(&dd)?;
        let t2 = mc.mul(&m[k])?;
        let t3 = hr.mul(&m[k + 1])?;
        let s12 = t1.add(&t2)?;
        let lhs = s12.add(&t3)?;
        let n1 = rates[k + 1].sub(&rates[k])?;
        let q1 = n1.div(&hr)?;
        let n2 = rates[k].sub(&rates[k - 1])?;
        let q2 = n2.div(&hl)?;
        let dq = q1.sub(&q2)?;
        let rhs_v = six.mul(&dq)?;
        proof {
            lemma_rat_eq_refl(mv[k - 1]);
            lemma_rat_eq_refl(mv[k as int]);
            lemma_rat_eq_refl(mv[k + 1]);
            lemma_rat_eq_refl(rat_of_int(2));
            lemma_rat_eq_refl(rat_of_int(6));
            lemma_rat_mul_rebase(t1@, hl@, m@[k - 1]@, hl_s, mv[k - 1]);
            lemma_rat_ops_wf(hl_s, mv[k - 1]);
            lemma_rat_mul_rebase(mc@, two@, dd@, rat_of_int(2), rat_sub(dv[k + 1], dv[k - 1]));
            lemma_rat_ops_wf(rat_of_int(2), rat_sub(dv[k + 1], dv[k - 1]));
            lemma_rat_mul_rebase(t2@, mc@, m@[k as int]@, mc_s, mv[k as int]);
            lemma_rat_ops_wf(mc_s, mv[k as int]);
            lemma_rat_mul_rebase(t3@, hr@, m@[k + 1]@, hr_s, mv[k + 1]);
            lemma_rat_ops_wf(hr_s, mv[k + 1]);
            lemma_rat_add_rebase(s12@, t1@, t2@, t1_s, t2_s);
            lemma_rat_ops_wf(t1_s, t2_s);
            lemma_rat_add_rebase(lhs@, s12@, t3@, rat_add(t1_s, t2_s), t3_s);
            lemma_rat_ops_wf(rat_add(t1_s, t2_s), t3_s);
            lemma_rat_ops_wf(rv[k + 1], rv[k as int]);
            lemma_rat_ops_wf(rv[k as int], rv[k - 1]);
            lemma_rat_div_rebase(q1@, n1@, hr@, rat_sub(rv[k + 1], rv[k as int]), hr_s);
            lemma_rat_ops_wf(rat_sub(rv[k + 1], rv[k as int]), hr_s);
            lemma_rat_div_rebase(q2@, n2@, hl@, rat_sub(rv[k as int], rv[k - 1]), hl_s);
            lemma_rat_ops_wf(rat_sub(rv[k as int], rv[k - 1]), hl_s);
            lemma_rat_sub_rebase(dq@, q1@, q2@, q1_s, q2_s);
            lemma_rat_ops_wf(q1_s, q2_s);
            lemma_rat_mul_rebase(rhs_v@, six@, dq@, rat_of_int(6), rat_sub(q1_s, q2_s));
            lemma_rat_ops_wf(rat_of_int(6), rat_sub(q1_s, q2_s));
        }
        if !lhs.eq_value(&rhs_v) {
            return None;
        }
        proof {
            let lhs_s = rat_add(rat_add(t1_s, t2_s), t3_s);
            let rhs_s = rat_mul(rat_of_int(6), rat_sub(q1_s, q2_s));
            lemma_rat_eq_sym(lhs@, lhs_s);
            lemma_rat_eq_trans(lhs_s, lhs@, rhs_v@);
            lemma_rat_eq_trans(lhs_s, rhs_v@, rhs_s);
            assert(spline_row_holds(dv, rv, mv, k as int));
        }
        k = k + 1;
    }
    Some(m)
}

/// The grid segment a query point falls in: the largest `j` with
/// `dates[j] <= target`, clamped to the segments that exist, so that a
/// point beyond either end of the grid selects the edge segment (whose
/// cubic is then extrapolated, not flat-extended).
pub fn locate_segment(dates: &Vec<Frac>, target: &Frac) -> (j: usize)
    requires
        dates@.len() >= 2,
        fracs_wf(dates@),
        target.wf(),
        rat_seq_increasing(views_of(dates@)),
    ensures
        j <= dates@.len() - 2,
        j > 0 ==> !rat_lt(target@, views_of(dates@)[j as int]),
        j < dates@.len() - 2 ==> rat_lt(target@, views_of(dates@)[j as int + 1]),
{
    let n = dates.len();
    let mut i: usize = 1;
    while i < n
        invariant
            1 <= i <= n,
            n == dates@.len(),
            n >= 2,
            fracs_wf(dates@),
            target.wf(),
            forall|k: int| 1 <= k < i ==> !rat_lt(target@, views_of(dates@)[k]),
        decreases n - i,
    {
        proof {
            assert(dates@[i as int].wf() && views_of(dates@)[i as int] == dates@[i as int]@);
        }
        if target.lt_value(&dates[i]) {
            return i - 1;
        }
        i = i + 1;
    }
    n - 2
}

/// The spline's cubic on segment `j`, evaluated exactly at the query
/// point; `None` when the exact fractions leave machine range, which
/// inputs within the conservative envelope rule out.
pub fn eval_spline_segment(
    dates: &Vec<Frac>,
    rates: &Vec<Frac>,
    m: &Vec<Frac>,
    j: usize,
    target: &Frac,
) -> (r: Option<Frac>)
    requires
        dates@.len() == rates@.len(),
        m@.len() == dates@.len(),
        j + 1 < dates@.len(),
        fracs_wf(dates@),
        fracs_wf(rates@),
        fracs_wf(m@),
        target.wf(),
        rat_lt(views_of(dates@)[j as int], views_of(dates@)[j as int + 1]),
    ensures
        r matches Some(v) ==> v.wf() && rat_eq(
            v@,
            spline_segment_value(
                views_of(dates@),
                views_of(rates@),
                views_of(m@),
                j as int,
                target@,
            ),
        ),
        rat_in_range(views_of(dates@)[j as int], 3) && rat_in_range(views_of(dates@)[j + 1], 3)
            && rat_in_range(views_of(rates@)[j as int], 3) && rat_in_range(
            views_of(rates@)[j + 1],
            3,
        ) && rat_in_range(views_of(m@)[j as int], 3) && rat_in_range(views_of(m@)[j + 1], 3)
            && rat_in_range(target@, 3) ==> r is Some,
{
    let ghost small = rat_in_range(views_of(dates@)[j as int], 3) && rat_in_range(
        views_of(dates@)[j + 1],
        3,
    ) && rat_in_range(views_of(rates@)[j as int], 3) && rat_in_range(views_of(rates@)[j + 1], 3)
        && rat_in_range(views_of(m@)[j as int], 3) && rat_in_range(views_of(m@)[j + 1], 3)
        && rat_in_range(target@, 3);
    let ghost dv = views_of(dates@);
    let ghost rv = views_of(rates@);
    let ghost mv = views_of(m@);
    let ghost hs = spec_h(dv, j as int);
    let ghost a_s = spline_coeff_a(dv, mv, j as int);
    let ghost b_s = spline_coeff_b(mv, j as int);
    let ghost c_s = spline_coeff_c(dv, rv, mv, j as int);
    let ghost p_s = rat_sub(target@, dv[j as int]);
    let ghost ts_s = rat_add(rat_mul(rat_of_int(2), mv[j as int]), mv[j + 1]);
    let n = dates.len();
    proof {
        assert(dates@[j as int].wf() && dates@[j + 1].wf());
        assert(rates@[j as int].wf() && rates@[j + 1].wf());
        assert(m@[j as int].wf() && m@[j + 1].wf());
        assert(dv[j as int] == dates@[j as int]@ && dv[j + 1] == dates@[j + 1]@);
        assert(rv[j as int] == rates@[j as int]@ && rv[j + 1] == rates@[j + 1]@);
        assert(mv[j as int] == m@[j as int]@ && mv[j + 1] == m@[j + 1]@);
        lemma_rat_sub_nonzero(dv[j as int], dv[j + 1]);
        lemma_rat_ops_wf(dv[j + 1], dv[j as int]);
        lemma_rat_ops_wf(target@, dv[j as int]);
        // Well-formedness of the specification-level coefficients.
        lemma_rat_ops_wf(mv[j + 1], mv[j as int]);
        lemma_rat_ops_wf(rat_of_int(6), hs);
        assert(!rat_is_zero(rat_mul(rat_of_int(6), hs))) by (nonlinear_arith)
            requires
                !rat_is_zero(hs),
        ;
        lemma_rat_ops_wf(rat_sub(mv[j + 1], mv[j as int]), rat_mul(rat_of_int(6), hs));
        lemma_rat_ops_wf(mv[j as int], rat_of_int(2));
        lemma_rat_ops_wf(rv[j + 1], rv[j as int]);
        lemma_rat_ops_wf(rat_sub(rv[j + 1], rv[j as int]), hs);
        lemma_rat_ops_wf(rat_of_int(2), mv[j as int]);
        lemma_rat_ops_wf(rat_mul(rat_of_int(2), mv[j as int]), mv[j + 1]);
        lemma_rat_ops_wf(hs, ts_s);
        lemma_rat_ops_wf(rat_mul(hs, ts_s), rat_of_int(6));
        lemma_rat_ops_wf(
            rat_div(rat_sub(rv[j + 1], rv[j as int]), hs),
            rat_div(rat_mul(hs, ts_s), rat_of_int(6)),
        );
    }
    let six = Frac::of_int(6);
    let two = Frac::of_int(2);
        proof {
            assert(small ==> int_abs(dates@[j + 1]@.num * dates@[j as int]@.den - dates@[j as int]@.num * dates@[j + 1]@.den) <= 18 && 0 < dates@[j + 1]@.den * dates@[j as int]@.den <= 9) by (nonlinear_arith)
                requires
                    small ==> int_abs(dates@[j + 1]@.num) <= 3 && 0 < dates@[j + 1]@.den <= 3,
                    small ==> int_abs(dates@[j as int]@.num) <= 3 && 0 < dates@[j as int]@.den <= 3,
            ;
        }
    let h = dates[j + 1].sub(&dates[j])?;
        proof {
            assert(small ==> int_abs(h@.num) <= 18 && 0 < h@.den <= 9);
        }
    proof {
        lemma_rat_nonzero_of_eq(h@, hs);
    }
        proof {
            assert(small ==> int_abs(target@.num * dates@[j as int]@.den - dates@[j as int]@.num * target@.den) <= 18 && 0 < target@.den * dates@[j as int]@.den <= 9) by (nonlinear_arith)
                requires
                    small ==> int_abs(target@.num) <= 3 && 0 < target@.den <= 3,
                    small ==> int_abs(dates@[j as int]@.num) <= 3 && 0 < dates@[j as int]@.den <= 3,
            ;
        }
    let p = target.sub(&dates[j])?;
        proof {
            assert(small ==> int_abs(p@.num) <= 18 && 0 < p@.den <= 9);
        }
        proof {
            assert(small ==> int_abs(m@[j + 1]@.num * m@[j as int]@.den - m@[j as int]@.num * m@[j + 1]@.den) <= 18 && 0 < m@[j + 1]@.den * m@[j as int]@.den <= 9) by (nonlinear_arith)
                requires
                    small ==> int_abs(m@[j + 1]@.num) <= 3 && 0 < m@[j + 1]@.den <= 3,
                    small ==> int_abs(m@[j as int]@.num) <= 3 && 0 < m@[j as int]@.den <= 3,
            ;
        }
    let md = m[j + 1].sub(&m[j])?;
        proof {
            assert(small ==> int_abs(md@.num) <= 18 && 0 < md@.den <= 9);
        }
        proof {
            assert(small ==> int_abs(six@.num * h@.num) <= 108 && 0 < six@.den * h@.den <= 9) by (nonlinear_arith)
                requires
                    small ==> int_abs(h@.num) <= 18 && 0 < h@.den <= 9,
                    six@ == rat_of_int(6),
            ;
        }
    let sh = six.mul(&h)?;
        proof {
            assert(small ==> int_abs(sh@.num) <= 108 && 0 < sh@.den <= 9);
        }
    proof {
        lemma_rat_eq_refl(rat_of_int(6));
        lemma_rat_eq_refl(rat_of_int(2));
        lemma_rat_eq_refl(mv[j as int]);
        lemma_rat_eq_refl(mv[j + 1]);
        lemma_rat_mul_rebase(sh@, six@, h@, rat_of_int(6), hs);
        lemma_rat_ops_wf(rat_of_int(6), hs);
        assert(!rat_is_zero(rat_mul(rat_of_int(6), hs))) by (nonlinear_arith)
            requires
                !rat_is_zero(hs),
        ;
        lemma_rat_nonzero_of_eq(sh@, rat_mul(rat_of_int(6), hs));
    }
        proof {
            assert(small ==> int_abs(md@.num * sh@.den) <= 162 && int_abs(md@.den * sh@.num) <= 972) by (nonlinear_arith)
                requires
                    small ==> int_abs(md@.num) <= 18 && 0 < md@.den <= 9,
                    small ==> int_abs(sh@.num) <= 108 && 0 < sh@.den <= 9,
            ;
        }
    let a = md.div(&sh)?;
        proof {
            assert(small ==> int_abs(a@.num) <= 162 && 0 < a@.den <= 972);
        }
    proof {
        lemma_rat_ops_wf(mv[j + 1], mv[j as int]);
        lemma_rat_div_rebase(a@, md@, sh@, rat_sub(mv[j + 1], mv[j as int]), rat_mul(rat_of_int(6), hs));
    }
        proof {
            assert(small ==> int_abs(m@[j as int]@.num * two@.den) <= 3 && int_abs(m@[j as int]@.den * two@.num) <= 6) by (nonlinear_arith)
                requires
                    small ==> int_abs(m@[j as int]@.num) <= 3 && 0 < m@[j as int]@.den <= 3,
                    two@ == rat_of_int(2),
            ;
        }
    let b = m[j].div(&two)?;
        proof {
            assert(small ==> int_abs(b@.num) <= 3 && 0 < b@.den <= 6);
        }
        proof {
            assert(small ==> int_abs(rates@[j + 1]@.num * rates@[j as int]@.den - rates@[j as int]@.num * rates@[j + 1]@.den) <= 18 && 0 < rates@[j + 1]@.den * rates@[j as int]@.den <= 9) by (nonlinear_arith)
                requires
                    small ==> int_abs(rates@[j + 1]@.num) <= 3 && 0 < rates@[j + 1]@.den <= 3,
                    small ==> int_abs(rates@[j as int]@.num) <= 3 && 0 < rates@[j as int]@.den <= 3,
            ;
        }
    let rd = rates[j + 1].sub(&rates[j])?;
        proof {
            assert(small ==> int_abs(rd@.num) <= 18 && 0 < rd@.den <= 9);
        }
        proof {
            assert(small ==> int_abs(rd@.num * h@.den) <= 162 && int_abs(rd@.den * h@.num) <= 162) by (nonlinear_arith)
                requires
                    small ==> int_abs(rd@.num) <= 18 && 0 < rd@.den <= 9,
                    small ==> int_abs(h@.num) <= 18 && 0 < h@.den <= 9,
            ;
        }
    let q1 = rd.div(&h)?;
        proof {
            assert(small ==> int_abs(q1@.num) <= 162 && 0 < q1@.den <= 162);
        }
    proof {
        lemma_rat_ops_wf(rv[j + 1], rv[j as int]);
        lemma_rat_div_rebase(q1@, rd@, h@, rat_sub(rv[j + 1], rv[j as int]), hs);
    }
        proof {
            assert(small ==> int_abs(two@.num * m@[j as int]@.num) <= 6 && 0 < two@.den * m@[j as int]@.den <= 3) by (nonlinear_arith)
                requires
                    small ==> int_abs(m@[j as int]@.num) <= 3 && 0 < m@[j as int]@.den <= 3,
                    two@ == rat_of_int(2),
            ;
        }
    let tm = two.mul(&m[j])?;
        proof {
            assert(small ==> int_abs(tm@.num) <= 6 && 0 < tm@.den <= 3);
        }
        proof {
            assert(small ==> int_abs(tm@.num * m@[j + 1]@.den + m@[j + 1]@.num * tm@.den) <= 27 && 0 < tm@.den * m@[j + 1]@.den <= 9) by (nonlinear_arith)
                requires
                    small ==> int_abs(tm@.num) <= 6 && 0 < tm@.den <= 3,
                    small ==> int_abs(m@[j + 1]@.num) <= 3 && 0 < m@[j + 1]@.den <= 3,
            ;
        }
    let tsum = tm.add(&m[j + 1])?;
        proof {
            assert(small ==> int_abs(tsum@.num) <= 27 && 0 < tsum@.den <= 9);
        }
    proof {
        lemma_rat_ops_wf(rat_of_int(2), mv[j as int]);
        lemma_rat_add_rebase(tsum@, tm@, m@[j + 1]@, rat_mul(rat_of_int(2), mv[j as int]), mv[j + 1]);
    }
        proof {
            assert(small ==> int_abs(h@.num * tsum@.num) <= 486 && 0 < h@.den * tsum@.den <= 81) by (nonlinear_arith)
                requires
                    small ==> int_abs(h@.num) <= 18 && 0 < h@.den <= 9,
                    small ==> int_abs(tsum@.num) <= 27 && 0 < tsum@.den <= 9,
            ;
        }
    let ht = h.mul(&tsum)?;
        proof {
            assert(small ==> int_abs(ht@.num) <= 486 && 0 < ht@.den <= 81);
        }
    proof {
        lemma_rat_ops_wf(rat_mul(rat_of_int(2), mv[j as int]), mv[j + 1]);
        lemma_rat_mul_rebase(ht@, h@, tsum@, hs, ts_s);
        lemma_rat_ops_wf(hs, ts_s);
    }
        proof {
            assert(small ==> int_abs(ht@.num * six@.den) <= 486 && int_abs(ht@.den * six@.num) <= 486) by (nonlinear_arith)
                requires
                    small ==> int_abs(ht@.num) <= 486 && 0 < ht@.den <= 81,
                    six@ == rat_of_int(6),
            ;
        }
    let q2 = ht.div(&six)?;
        proof {
            assert(small ==> int_abs(q2@.num) <= 486 && 0 < q2@.den <= 486);
        }
    proof {
        lemma_rat_div_rebase(q2@, ht@, six@, rat_mul(hs, ts_s), rat_of_int(6));
    }
        proof {
            assert(small ==> int_abs(q1@.num * q2@.den - q2@.num * q1@.den) <= 157464 && 0 < q1@.den * q2@.den <= 78732) by (nonlinear_arith)
                requires
                    small ==> int_abs(q1@.num) <= 162 && 0 < q1@.den <= 162,
                    small ==> int_abs(q2@.num) <= 486 && 0 < q2@.den <= 486,
            ;
        }
    let c = q1.sub(&q2)?;
        proof {
            assert(small ==> int_abs(c@.num) <= 157464 && 0 < c@.den <= 78732);
        }
    proof {
        lemma_rat_ops_wf(rat_sub(rv[j + 1], rv[j as int]), hs);
        lemma_rat_ops_wf(rat_mul(hs, ts_s), rat_of_int(6));
        lemma_rat_sub_rebase(
            c@,
            q1@,
            q2@,
            rat_div(rat_sub(rv[j + 1], rv[j as int]), hs),
            rat_div(rat_mul(hs, ts_s), rat_of_int(6)),
        );
    }
        proof {
            assert(small ==> int_abs(p@.num * p@.num) <= 324 && 0 < p@.den * p@.den <= 81) by (nonlinear_arith)
                requires
                    small ==> int_abs(p@.num) <= 18 && 0 < p@.den <= 9,
                    small ==> int_abs(p@.num) <= 18 && 0 < p@.den <= 9,
            ;
        }
    let p2 = p.mul(&p)?;
        proof {
            assert(small ==> int_abs(p2@.num) <= 324 && 0 < p2@.den <= 81);
        }
    proof {
        lemma_rat_mul_rebase(p2@, p@, p@, p_s, p_s);
        lemma_rat_ops_wf(p_s, p_s);
    }
        proof {
            assert(small ==> int_abs(p2@.num * p@.num) <= 5832 && 0 < p2@.den * p@.den <= 729) by (nonlinear_arith)
                requires
                    small ==> int_abs(p2@.num) <= 324 && 0 < p2@.den <= 81,
                    small ==> int_abs(p@.num) <= 18 && 0 < p@.den <= 9,
            ;
        }
    let p3 = p2.mul(&p)?;
        proof {
            assert(small ==> int_abs(p3@.num) <= 5832 && 0 < p3@.den <= 729);
        }
    proof {
        lemma_rat_mul_rebase(p3@, p2@, p@, rat_mul(p_s, p_s), p_s);
        lemma_rat_ops_wf(rat_mul(p_s, p_s), p_s);
    }
        proof {
            assert(small ==> int_abs(a@.num * p3@.num) <= 944784 && 0 < a@.den * p3@.den <= 708588) by (nonlinear_arith)
                requires
                    small ==> int_abs(a@.num) <= 162 && 0 < a@.den <= 972,
                    small ==> int_abs(p3@.num) <= 5832 && 0 < p3@.den <= 729,
            ;
        }
    let ta = a.mul(&p3)?;
        proof {
            assert(small ==> int_abs(ta@.num) <= 944784 && 0 < ta@.den <= 708588);
        }
    proof {
        lemma_rat_mul_rebase(ta@, a@, p3@, a_s, rat_mul(rat_mul(p_s, p_s), p_s));
        lemma_rat_ops_wf(a_s, rat_mul(rat_mul(p_s, p_s), p_s));
    }
        proof {
            assert(small ==> int_abs(b@.num * p2@.num) <= 972 && 0 < b@.den * p2@.den <= 486) by (nonlinear_arith)
                requires
                    small ==> int_abs(b@.num) <= 3 && 0 < b@.den <= 6,
                    small ==> int_abs(p2@.num) <= 324 && 0 < p2@.den <= 81,
            ;
        }
    let tb = b.mul(&p2)?;
        proof {
            assert(small ==> int_abs(tb@.num) <= 972 && 0 < tb@.den <= 486);
        }
    proof {
        lemma_rat_eq_refl(b_s);
        lemma_rat_mul_rebase(tb@, b@, p2@, b_s, rat_mul(p_s, p_s));
        lemma_rat_ops_wf(b_s, rat_mul(p_s, p_s));
    }
        proof {
            assert(small ==> int_abs(c@.num * p@.num) <= 2834352 && 0 < c@.den * p@.den <= 708588) by (nonlinear_arith)
                requires
                    small ==> int_abs(c@.num) <= 157464 && 0 < c@.den <= 78732,
                    small ==> int_abs(p@.num) <= 18 && 0 < p@.den <= 9,
            ;
        }
    let tc = c.mul(&p)?;
        proof {
            assert(small ==> int_abs(tc@.num) <= 2834352 && 0 < tc@.den <= 708588);
        }
    proof {
        lemma_rat_mul_rebase(tc@, c@, p@, c_s, p_s);
        lemma_rat_ops_wf(c_s, p_s);
    }
        proof {
            assert(small ==> int_abs(ta@.num * tb@.den + tb@.num * ta@.den) <= 1147912560 && 0 < ta@.den * tb@.den <= 344373768) by (nonlinear_arith)
                requires
                    small ==> int_abs(ta@.num) <= 944784 && 0 < ta@.den <= 708588,
                    small ==> int_abs(tb@.num) <= 972 && 0 < tb@.den <= 486,
            ;
        }
    let s1 = ta.add(&tb)?;
        proof {
            assert(small ==> int_abs(s1@.num) <= 1147912560 && 0 < s1@.den <= 344373768);
        }
    proof {
        lemma_rat_add_rebase(
            s1@,
            ta@,
            tb@,
            rat_mul(a_s, rat_mul(rat_mul(p_s, p_s), p_s)),
            rat_mul(b_s, rat_mul(p_s, p_s)),
        );
        lemma_rat_ops_wf(rat_mul(a_s, rat_mul(rat_mul(p_s, p_s), p_s)), rat_mul(b_s, rat_mul(p_s, p_s)));
    }
        proof {
            assert(small ==> int_abs(s1@.num * tc@.den + tc@.num * s1@.den) <= 2000000000000000 && 0 < s1@.den * tc@.den <= 250000000000000) by (nonlinear_arith)
                requires
                    small ==> int_abs(s1@.num) <= 1147912560 && 0 < s1@.den <= 344373768,
                    small ==> int_abs(tc@.num) <= 2834352 && 0 < tc@.den <= 708588,
            ;
        }
    let s2 = s1.add(&tc)?;
        proof {
            assert(small ==> int_abs(s2@.num) <= 2000000000000000 && 0 < s2@.den <= 250000000000000);
        }
    proof {
        lemma_rat_add_rebase(
            s2@,
            s1@,
            tc@,
            rat_add(
                rat_mul(a_s, rat_mul(rat_mul(p_s, p_s), p_s)),
                rat_mul(b_s, rat_mul(p_s, p_s)),
            ),
            rat_mul(c_s, p_s),
        );
        lemma_rat_ops_wf(
            rat_add(
                rat_mul(a_s, rat_mul(rat_mul(p_s, p_s), p_s)),
                rat_mul(b_s, rat_mul(p_s, p_s)),
            ),
            rat_mul(c_s, p_s),
        );
    }
        proof {
            assert(small ==> int_abs(s2@.num * rates@[j as int]@.den + rates@[j as int]@.num * s2@.den) <= 7000000000000000 && 0 < s2@.den * rates@[j as int]@.den <= 750000000000000) by (nonlinear_arith)
                requires
                    small ==> int_abs(s2@.num) <= 2000000000000000 && 0 < s2@.den <= 250000000000000,
                    small ==> int_abs(rates@[j as int]@.num) <= 3 && 0 < rates@[j as int]@.den <= 3,
            ;
        }
    let v = s2.add(&rates[j])?;
        proof {
            assert(small ==> int_abs(v@.num) <= 7000000000000000 && 0 < v@.den <= 750000000000000);
        }
    proof {
        lemma_rat_eq_refl(rv[j as int]);
        lemma_rat_add_rebase(
            v@,
            s2@,
            rates@[j as int]@,
            rat_add(
                rat_add(
                    rat_mul(a_s, rat_mul(rat_mul(p_s, p_s), p_s)),
                    rat_mul(b_s, rat_mul(p_s, p_s)),
                ),
                rat_mul(c_s, p_s),
            ),
            rv[j as int],
        );
    }
    Some(v)
}

/// Natural cubic-spline interpolation of the rate series at the query
/// point. Beyond either end of the grid the edge segment's cubic is
/// extrapolated.
///
/// A date series of a different length than the rate series is a
/// `LengthMismatch`; a date series that is too short for a segment or not
/// strictly increasing is an `InvalidTimeGrid`. `Ok(None)` means the exact
/// fractions left machine range, which a two-point grid with entries
/// within the conservative envelope rules out.
pub fn cubic_spline(dates: &Vec<Frac>, rates: &Vec<Frac>, target: &Frac) -> (r: Result<
    Option<Frac>,
    PricingError,
>)
    requires
        fracs_wf(dates@),
        fracs_wf(rates@),
        target.wf(),
    ensures
        r == Err::<Option<Frac>, PricingError>(PricingError::LengthMismatch) <==> dates@.len()
            != rates@.len(),
        dates@.len() == rates@.len() ==> (r == Err::<Option<Frac>, PricingError>(
            PricingError::InvalidTimeGrid,
        ) <==> (dates@.len() < 2 || !rat_seq_increasing(views_of(dates@)))),
        r is Err ==> r == Err::<Option<Frac>, PricingError>(PricingError::LengthMismatch) || r
            == Err::<Option<Frac>, PricingError>(PricingError::InvalidTimeGrid),
        r matches Ok(rv2) ==> rv2 matches Some(v) ==> v.wf() && (exists|m: Seq<Rat>, j: int|
            rats_wf(m) && natural_spline_system(views_of(dates@), views_of(rates@), m) && 0 <= j
                <= dates@.len() - 2 && (j > 0 ==> !rat_lt(target@, views_of(dates@)[j])) && (j
                < dates@.len() - 2 ==> rat_lt(target@, views_of(dates@)[j + 1])) && rat_eq(
                v@,
                spline_segment_value(views_of(dates@), views_of(rates@), m, j, target@),
            )),
        dates@.len() == rates@.len() && dates@.len() == 2 && rat_seq_increasing(views_of(dates@))
            && rat_in_range(views_of(dates@)[0], 3) && rat_in_range(views_of(dates@)[1], 3)
            && rat_in_range(views_of(rates@)[0], 3) && rat_in_range(views_of(rates@)[1], 3)
            && rat_in_range(target@, 3) ==> (r matches Ok(v2) && v2 is Some),
{
    if dates.len() != rates.len() {
        return Err(PricingError::LengthMismatch);
    }
    // A curve needs at least one segment.
    if dates.len() < 2 {
        return Err(PricingError::InvalidTimeGrid);
    }
    // Check that the grid is strictly increasing.
    let mut i: usize = 0;
    while i < dates.len() - 1
        invariant
            i <= dates@.len() - 1,
            dates@.len() >= 2,
            dates@.len() == rates@.len(),
            fracs_wf(dates@),
            forall|k: int|
                0 <= k < i ==> rat_lt(#[trigger] views_of(dates@)[k], views_of(dates@)[k + 1]),
        decreases dates@.len() - 1 - i,
    {
        proof {
            assert(dates@[i as int].wf() && dates@[i + 1].wf());
        }
        if !dates[i].lt_value(&dates[i + 1]) {
            proof {
                assert(!rat_lt(views_of(dates@)[i as int], views_of(dates@)[i + 1]));
            }
            return Err(PricingError::InvalidTimeGrid);
        }
        i = i + 1;
    }
    let m = match spline_second_derivatives(dates, rates) {
        Some(m) => m,
        None => {
            return Ok(None);
        },
    };
    let j = locate_segment(dates, target);
    proof {
        assert(rat_lt(views_of(dates@)[j as int], views_of(dates@)[j as int + 1]));
        if dates@.len() == 2 {
            assert(j == 0);
            assert(views_of(m@)[0] == m@[0]@ && views_of(m@)[1] == m@[1]@);
        }
    }
    match eval_spline_segment(dates, rates, &m, j, target) {
        Some(v) => {
            proof {
                let ghost mv = views_of(m@);
                assert forall|i2: int| 0 <= i2 < mv.len() implies rat_wf(#[trigger] mv[i2]) by {
                    assert(m@[i2].wf() && mv[i2] == m@[i2]@);
                }
                assert(rats_wf(mv) && natural_spline_system(views_of(dates@), views_of(rates@), mv)
                    && 0 <= j as int <= dates@.len() - 2 && ((j as int) > 0 ==> !rat_lt(
                    target@,
                    views_of(dates@)[j as int],
                )) && ((j as int) < dates@.len() - 2 ==> rat_lt(
                    target@,
                    views_of(dates@)[j as int + 1],
                )) && rat_eq(
                    v@,
                    spline_segment_value(
                        views_of(dates@),
                        views_of(rates@),
                        mv,
                        j as int,
                        target@,
                    ),
                ));
            }
            Ok(Some(v))
        },
        None => Ok(None),
    }
}

} // verus!
