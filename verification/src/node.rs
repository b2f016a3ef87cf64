use vstd::prelude::*;

use crate::error::PricingError;
use crate::rational::{
    int_abs, rat_in_range, rat_lt, lemma_rat_add_congruence, lemma_rat_add_halves, lemma_rat_add_rebase,
    lemma_rat_add_sub_cancel, lemma_rat_div_rebase, lemma_rat_eq_refl, lemma_rat_eq_trans,
    lemma_rat_mul_rebase, lemma_rat_nonzero_of_eq, lemma_rat_ops_wf, lemma_rat_sub_halves,
    lemma_rat_sub_rebase, rat_add, rat_div, rat_eq, rat_is_zero, rat_mul, rat_of_int, rat_sub,
    rat_wf, Frac, Rat,
};

verus! {

/// One lattice cell's transition structure.
///
/// A node of the trinomial lattice branches to three nodes of the next time
/// slice: the centered rate index of the middle successor, and the two
/// neighbours directly above and below it. Only this index structure is
/// part of the verified lattice geometry; the node's rate, its Arrow-Debreu
/// price and its transition probabilities are values on top of it.
#[derive(Clone, Copy, Debug, PartialEq, Eq, Structural)]
pub struct Node {
    /// Centered rate index, in the next time slice, of the middle successor.
    pub transition_to_mid_index: i64,
}

impl Node {
    pub fn new(transition_to_mid_index: i64) -> (n: Node)
        ensures
            n.transition_to_mid_index == transition_to_mid_index,
    {
        Node { transition_to_mid_index }
    }

    /// Centered index of the upper successor: one above the middle one.
    pub fn get_transition_index_up(&self) -> (r: i64)
        requires
            self.transition_to_mid_index < i64::MAX,
        ensures
            r == self.transition_to_mid_index + 1,
    {
        self.transition_to_mid_index + 1
    }

    /// Centered index of the middle successor.
    pub fn get_transition_index_mid(&self) -> (r: i64)
        ensures
            r == self.transition_to_mid_index,
    {
        self.transition_to_mid_index
    }

    /// Centered index of the lower successor: one below the middle one.
    pub fn get_transition_index_down(&self) -> (r: i64)
        requires
            self.transition_to_mid_index > i64::MIN,
        ensures
            r == self.transition_to_mid_index - 1,
    {
        self.transition_to_mid_index - 1
    }
}

/// Conservative machine-range envelope for the probability computation:
/// with every input's numerator magnitude and denominator within this
/// bound, every exact intermediate of `calc_transition_prob` stays within
/// `i64` even before any reduction, so the computation is owed a result.
/// Reduction lets far larger inputs succeed in practice; this bound is
/// what is promised.
pub open spec fn prob_input_in_range(v: Rat) -> bool {
    rat_in_range(v, 15)
}

impl Node {
    /// The three transition probabilities of a node, as exact fractions:
    /// up, middle and down branch in that order. `None` when the exact
    /// values leave machine range, which inputs within the conservative
    /// envelope rule out.
    ///
    /// `rate` is the node's rate, `mean` the expected rate change over the
    /// step, `var` its variance, `next_mid_rate` the rate of the middle
    /// successor and `interval` the rate-grid spacing of the next slice.
    pub fn calc_transition_prob(
        rate: &Frac,
        mean: &Frac,
        var: &Frac,
        next_mid_rate: &Frac,
        interval: &Frac,
    ) -> (r: Option<(Frac, Frac, Frac)>)
        requires
            rate.wf(),
            mean.wf(),
            var.wf(),
            next_mid_rate.wf(),
            interval.wf(),
            !rat_is_zero(interval@),
        ensures
            r matches Some(p) ==> {
                let q = spec_variance_ratio(var@, interval@);
                let al = spec_alpha(rate@, mean@, next_mid_rate@, interval@);
                p.0.wf() && p.1.wf() && p.2.wf() && rat_eq(p.0@, spec_prob_up(q, al)) && rat_eq(
                    p.1@,
                    spec_prob_mid(q, al),
                ) && rat_eq(p.2@, spec_prob_down(q, al))
            },
            prob_input_in_range(rate@) && prob_input_in_range(mean@) && prob_input_in_range(var@)
                && prob_input_in_range(next_mid_rate@) && prob_input_in_range(interval@) ==> r
                is Some,
    {
        let ghost bounded = prob_input_in_range(rate@) && prob_input_in_range(mean@)
            && prob_input_in_range(var@) && prob_input_in_range(next_mid_rate@)
            && prob_input_in_range(interval@);
        let ghost ssum = rat_add(rate@, mean@);
        let ghost snum = rat_sub(ssum, next_mid_rate@);
        let ghost al_s = spec_alpha(rate@, mean@, next_mid_rate@, interval@);
        let ghost isq_s = rat_mul(interval@, interval@);
        let ghost q_s = spec_variance_ratio(var@, interval@);
        let ghost alsq_s = rat_mul(al_s, al_s);
        let ghost s_s = rat_add(q_s, alsq_s);

        let one = Frac::of_int(1);
        let two = Frac::of_int(2);

        proof {
            assert(bounded ==> int_abs(rate@.num * mean@.den + mean@.num * rate@.den) <= 450 && 0
                < rate@.den * mean@.den <= 225) by (nonlinear_arith)
                requires
                    rate@.den > 0 && mean@.den > 0,
                    bounded ==> int_abs(rate@.num) <= 15 && rate@.den <= 15 && int_abs(mean@.num)
                        <= 15 && mean@.den <= 15,
            ;
        }
        let t1 = rate.add(mean)?;
        proof {
            lemma_rat_ops_wf(rate@, mean@);
            assert(bounded ==> int_abs(t1@.num) <= 450 && 0 < t1@.den <= 225);
            assert(bounded ==> int_abs(t1@.num * next_mid_rate@.den - next_mid_rate@.num
                * t1@.den) <= 10125 && 0 < t1@.den * next_mid_rate@.den <= 3375)
                by (nonlinear_arith)
                requires
                    next_mid_rate@.den > 0 && t1@.den > 0,
                    bounded ==> int_abs(t1@.num) <= 450 && t1@.den <= 225 && int_abs(
                        next_mid_rate@.num,
                    ) <= 15 && next_mid_rate@.den <= 15,
            ;
        }
        let t2 = t1.sub(next_mid_rate)?;
        proof {
            lemma_rat_eq_refl(next_mid_rate@);
            lemma_rat_sub_rebase(t2@, t1@, next_mid_rate@, ssum, next_mid_rate@);
            lemma_rat_ops_wf(ssum, next_mid_rate@);
            assert(bounded ==> int_abs(t2@.num) <= 10125 && 0 < t2@.den <= 3375);
            assert(bounded ==> int_abs(t2@.num * interval@.den) <= 151875 && int_abs(t2@.den
                * interval@.num) <= 50625) by (nonlinear_arith)
                requires
                    bounded ==> int_abs(t2@.num) <= 10125 && 0 < t2@.den <= 3375 && int_abs(
                        interval@.num,
                    ) <= 15 && 0 < interval@.den <= 15,
            ;
        }
        let al = t2.div(interval)?;
        proof {
            lemma_rat_eq_refl(interval@);
            lemma_rat_div_rebase(al@, t2@, interval@, snum, interval@);
            lemma_rat_ops_wf(snum, interval@);
            assert(bounded ==> int_abs(al@.num) <= 151875 && 0 < al@.den <= 50625);
            assert(bounded ==> int_abs(interval@.num * interval@.num) <= 225 && 0 < interval@.den
                * interval@.den <= 225) by (nonlinear_arith)
                requires
                    interval@.den > 0,
                    bounded ==> int_abs(interval@.num) <= 15 && interval@.den <= 15,
            ;
        }
        let isq = interval.mul(interval)?;
        proof {
            lemma_rat_ops_wf(interval@, interval@);
            assert(!rat_is_zero(isq_s)) by (nonlinear_arith)
                requires
                    !rat_is_zero(interval@) && isq_s == rat_mul(interval@, interval@),
            ;
            lemma_rat_nonzero_of_eq(isq@, isq_s);
            assert(bounded ==> int_abs(isq@.num) <= 225 && 0 < isq@.den <= 225);
            assert(bounded ==> int_abs(var@.num * isq@.den) <= 3375 && int_abs(var@.den
                * isq@.num) <= 3375) by (nonlinear_arith)
                requires
                    bounded ==> int_abs(var@.num) <= 15 && 0 < var@.den <= 15 && int_abs(
                        isq@.num,
                    ) <= 225 && 0 < isq@.den <= 225,
            ;
        }
        let qv = var.div(&isq)?;
        proof {
            lemma_rat_eq_refl(var@);
            lemma_rat_div_rebase(qv@, var@, isq@, var@, isq_s);
            lemma_rat_ops_wf(var@, isq_s);
            assert(bounded ==> int_abs(qv@.num) <= 3375 && 0 < qv@.den <= 3375);
            assert(bounded ==> int_abs(al@.num * al@.num) <= 23066015625 && 0 < al@.den * al@.den
                <= 2562890625) by (nonlinear_arith)
                requires
                    al@.den > 0,
                    bounded ==> int_abs(al@.num) <= 151875 && al@.den <= 50625,
            ;
        }
        let alsq = al.mul(&al)?;
        proof {
            lemma_rat_mul_rebase(alsq@, al@, al@, al_s, al_s);
            lemma_rat_ops_wf(al_s, al_s);
            assert(bounded ==> int_abs(alsq@.num) <= 23066015625 && 0 < alsq@.den <= 2562890625);
            assert(bounded ==> int_abs(qv@.num * alsq@.den + alsq@.num * qv@.den)
                <= 86497558593750 && 0 < qv@.den * alsq@.den <= 8649755859375)
                by (nonlinear_arith)
                requires
                    qv@.den > 0 && alsq@.den > 0,
                    bounded ==> int_abs(qv@.num) <= 3375 && qv@.den <= 3375 && int_abs(alsq@.num)
                        <= 23066015625 && alsq@.den <= 2562890625,
            ;
        }
        let s = qv.add(&alsq)?;
        proof {
            lemma_rat_add_rebase(s@, qv@, alsq@, q_s, alsq_s);
            lemma_rat_ops_wf(q_s, alsq_s);
            assert(bounded ==> int_abs(s@.num) <= 86497558593750 && 0 < s@.den
                <= 8649755859375);
            assert(bounded ==> int_abs(s@.num * al@.den + al@.num * s@.den)
                <= 5692620574951171875 && 0 < s@.den * al@.den <= 437893890380859375)
                by (nonlinear_arith)
                requires
                    s@.den > 0 && al@.den > 0,
                    bounded ==> int_abs(s@.num) <= 86497558593750 && s@.den <= 8649755859375
                        && int_abs(al@.num) <= 151875 && al@.den <= 50625,
            ;
        }
        let up_n = s.add(&al)?;
        proof {
            lemma_rat_add_rebase(up_n@, s@, al@, s_s, al_s);
            lemma_rat_ops_wf(s_s, al_s);
            assert(bounded ==> int_abs(up_n@.num) <= 5692620574951171875 && 0 < up_n@.den
                <= 437893890380859375);
            assert(bounded ==> int_abs(up_n@.num * two@.den) <= 5692620574951171875 && int_abs(
                up_n@.den * two@.num,
            ) <= 875787780761718750) by (nonlinear_arith)
                requires
                    two@ == rat_of_int(2),
                    bounded ==> int_abs(up_n@.num) <= 5692620574951171875 && 0 < up_n@.den
                        <= 437893890380859375,
            ;
        }
        let pu = up_n.div(&two)?;
        proof {
            lemma_rat_eq_refl(rat_of_int(2));
            lemma_rat_div_rebase(pu@, up_n@, two@, rat_add(s_s, al_s), rat_of_int(2));
            assert(bounded ==> int_abs(one@.num * s@.den - s@.num * one@.den) <= 95147314453125
                && 0 < one@.den * s@.den <= 8649755859375) by (nonlinear_arith)
                requires
                    one@ == rat_of_int(1),
                    bounded ==> int_abs(s@.num) <= 86497558593750 && 0 < s@.den
                        <= 8649755859375,
            ;
        }
        let pm = one.sub(&s)?;
        proof {
            lemma_rat_eq_refl(rat_of_int(1));
            lemma_rat_sub_rebase(pm@, one@, s@, rat_of_int(1), s_s);
            assert(bounded ==> int_abs(s@.num * al@.den - al@.num * s@.den)
                <= 5692620574951171875 && 0 < s@.den * al@.den <= 437893890380859375)
                by (nonlinear_arith)
                requires
                    s@.den > 0 && al@.den > 0,
                    bounded ==> int_abs(s@.num) <= 86497558593750 && s@.den <= 8649755859375
                        && int_abs(al@.num) <= 151875 && al@.den <= 50625,
            ;
        }
        let dn_n = s.sub(&al)?;
        proof {
            lemma_rat_sub_rebase(dn_n@, s@, al@, s_s, al_s);
            assert(bounded ==> int_abs(dn_n@.num) <= 5692620574951171875 && 0 < dn_n@.den
                <= 437893890380859375);
            assert(bounded ==> int_abs(dn_n@.num * two@.den) <= 5692620574951171875 && int_abs(
                dn_n@.den * two@.num,
            ) <= 875787780761718750) by (nonlinear_arith)
                requires
                    two@ == rat_of_int(2),
                    bounded ==> int_abs(dn_n@.num) <= 5692620574951171875 && 0 < dn_n@.den
                        <= 437893890380859375,
            ;
        }
        let pd = dn_n.div(&two)?;
        proof {
            lemma_rat_div_rebase(pd@, dn_n@, two@, rat_sub(s_s, al_s), rat_of_int(2));
        }
        Some((pu, pm, pd))
    }
}

/// Unit-interval membership of a denoted probability; meaningful when the
/// representation's denominator is positive.
pub open spec fn rat_in_unit(v: Rat) -> bool {
    !rat_lt(v, rat_of_int(0)) && !rat_lt(rat_of_int(1), v)
}

impl Node {
    /// Typed validation of a transition-probability triple: a probability
    /// outside [0, 1] means the rate-grid spacing is ill-chosen for the
    /// model parameters, and is reported as `InvalidLatticeSpacing`, never
    /// clamped.
    pub fn validate_transition_prob(pu: &Frac, pm: &Frac, pd: &Frac) -> (r: Result<
        (),
        PricingError,
    >)
        requires
            pu.wf(),
            pm.wf(),
            pd.wf(),
        ensures
            r is Ok <==> rat_in_unit(pu@) && rat_in_unit(pm@) && rat_in_unit(pd@),
            r is Err ==> r == Err::<(), PricingError>(PricingError::InvalidLatticeSpacing),
    {
        let zero = Frac::of_int(0);
        let one = Frac::of_int(1);
        if pu.lt_value(&zero) || one.lt_value(pu) || pm.lt_value(&zero) || one.lt_value(pm)
            || pd.lt_value(&zero) || one.lt_value(pd) {
            Err(PricingError::InvalidLatticeSpacing)
        } else {
            Ok(())
        }
    }
}

/// Centering offset of a node's branching: the distance, in units of the
/// next slice's grid spacing, from the middle successor's rate to the
/// expected rate after the step.
pub open spec fn spec_alpha(rate: Rat, mean: Rat, mid_rate: Rat, interval: Rat) -> Rat {
    rat_div(rat_sub(rat_add(rate, mean), mid_rate), interval)
}

/// The step variance expressed in units of the squared grid spacing.
pub open spec fn spec_variance_ratio(var: Rat, interval: Rat) -> Rat {
    rat_div(var, rat_mul(interval, interval))
}

/// Probability of the upward branch: `(q + alpha^2 + alpha) / 2`, the unique
/// choice that matches the step mean and variance on the successor grid.
pub open spec fn spec_prob_up(q: Rat, alpha: Rat) -> Rat {
    rat_div(rat_add(rat_add(q, rat_mul(alpha, alpha)), alpha), rat_of_int(2))
}

/// Probability of the middle branch: `1 - q - alpha^2`.
pub open spec fn spec_prob_mid(q: Rat, alpha: Rat) -> Rat {
    rat_sub(rat_of_int(1), rat_add(q, rat_mul(alpha, alpha)))
}

/// Probability of the downward branch: `(q + alpha^2 - alpha) / 2`.
pub open spec fn spec_prob_down(q: Rat, alpha: Rat) -> Rat {
    rat_div(rat_sub(rat_add(q, rat_mul(alpha, alpha)), alpha), rat_of_int(2))
}

/// The three transition probabilities of a node sum to exactly one,
/// whatever the variance ratio and the centering offset are.
pub proof fn lemma_transition_prob_sum(q: Rat, alpha: Rat)
    requires
        rat_wf(q),
        rat_wf(alpha),
    ensures
        rat_eq(
            rat_add(
                rat_add(spec_prob_up(q, alpha), spec_prob_down(q, alpha)),
                spec_prob_mid(q, alpha),
            ),
            rat_of_int(1),
        ),
{
    let s = rat_add(q, rat_mul(alpha, alpha));
    let pu = spec_prob_up(q, alpha);
    let pd = spec_prob_down(q, alpha);
    let pm = spec_prob_mid(q, alpha);
    lemma_rat_ops_wf(alpha, alpha);
    lemma_rat_ops_wf(q, rat_mul(alpha, alpha));
    lemma_rat_ops_wf(s, alpha);
    lemma_rat_ops_wf(rat_add(s, alpha), rat_of_int(2));
    lemma_rat_ops_wf(rat_sub(s, alpha), rat_of_int(2));
    lemma_rat_ops_wf(rat_of_int(1), s);
    lemma_rat_ops_wf(pu, pd);
    // pu + pd denotes q + alpha^2.
    lemma_rat_add_halves(s, alpha);
    // Therefore (pu + pd) + pm denotes s + (1 - s), which denotes 1.
    lemma_rat_add_congruence(rat_add(pu, pd), s, pm, pm);
    lemma_rat_add_sub_cancel(rat_of_int(1), s);
    lemma_rat_ops_wf(s, pm);
    lemma_rat_eq_trans(rat_add(rat_add(pu, pd), pm), rat_add(s, pm), rat_of_int(1));
}

/// The branch probabilities match the first two moments of the rate step:
/// the up/down imbalance reproduces the centering offset, and the up/down
/// mass reproduces the variance ratio plus the squared offset.
pub proof fn lemma_transition_prob_moments(q: Rat, alpha: Rat)
    requires
        rat_wf(q),
        rat_wf(alpha),
    ensures
        rat_eq(rat_sub(spec_prob_up(q, alpha), spec_prob_down(q, alpha)), alpha),
        rat_eq(
            rat_add(spec_prob_up(q, alpha), spec_prob_down(q, alpha)),
            rat_add(q, rat_mul(alpha, alpha)),
        ),
{
    let s = rat_add(q, rat_mul(alpha, alpha));
    lemma_rat_ops_wf(alpha, alpha);
    lemma_rat_ops_wf(q, rat_mul(alpha, alpha));
    lemma_rat_sub_halves(s, alpha);
    lemma_rat_add_halves(s, alpha);
}

/// With a centered branching (offset zero) the probabilities collapse to
/// the textbook constants `q / 2`, `1 - q`, `q / 2`; for the customary
/// spacing with `q = 1/3` these are `1/6`, `2/3` and `1/6`.
pub proof fn lemma_transition_prob_zero_drift(q: Rat)
    by (nonlinear_arith)
    requires
        rat_wf(q),
    ensures
        rat_eq(spec_prob_up(q, rat_of_int(0)), rat_div(q, rat_of_int(2))),
        rat_eq(spec_prob_down(q, rat_of_int(0)), rat_div(q, rat_of_int(2))),
        rat_eq(spec_prob_mid(q, rat_of_int(0)), rat_sub(rat_of_int(1), q)),
{
}

} // verus!
