use vstd::prelude::*;

use crate::error::PricingError;

verus! {

/// Iteration budget of the Newton root finders.
pub const MAX_NEWTON_ITERATIONS: usize = 100;

/// Iteration budget of the damped least-squares solver.
pub const MAX_LM_ITERATIONS: usize = 1000;

/// Strict sign of a function value at a bracket end.
#[derive(Clone, Copy, Debug, PartialEq, Eq, Structural)]
pub enum Sign {
    Negative,
    Zero,
    Positive,
}

/// What a Newton iteration does next, once the new iterate and the step it
/// was reached by have been measured against the bracket and the threshold.
#[derive(Clone, Copy, Debug, PartialEq, Eq, Structural)]
pub enum NewtonDecision {
    /// Run another iteration from the new iterate.
    Continue,
    /// The step size fell below the threshold: the new iterate is the root.
    Accept,
    /// Give up with the stated failure.
    Abort(PricingError),
}

/// The decision a Newton iteration takes, in the order the checks are made:
/// an iterate outside the bracket aborts with `OutOfRange`; a step below the
/// convergence threshold accepts the iterate; otherwise iteration continues
/// until the budget is spent, and a spent budget aborts with
/// `ConvergenceFailure`.
///
/// `iteration` is the zero-based index of the iteration just performed and
/// `out_of_range` / `converged` are the two comparisons made on it.
pub fn newton_decide(
    iteration: usize,
    max_iterations: usize,
    out_of_range: bool,
    converged: bool,
) -> (d: NewtonDecision)
    ensures
        out_of_range ==> d == NewtonDecision::Abort(PricingError::OutOfRange),
        !out_of_range && converged ==> d == NewtonDecision::Accept,
        !out_of_range && !converged && iteration + 1 < max_iterations ==> d
            == NewtonDecision::Continue,
        !out_of_range && !converged && iteration + 1 >= max_iterations ==> d
            == NewtonDecision::Abort(PricingError::ConvergenceFailure),
{
    if out_of_range {
        NewtonDecision::Abort(PricingError::OutOfRange)
    } else if converged {
        NewtonDecision::Accept
    } else if iteration < usize::MAX && iteration + 1 < max_iterations {
        NewtonDecision::Continue
    } else {
        NewtonDecision::Abort(PricingError::ConvergenceFailure)
    }
}

/// How the bracketed (safe) root finder starts, given the signs of the
/// function at the two bracket ends.
#[derive(Clone, Copy, Debug, PartialEq, Eq, Structural)]
pub enum SafeStart {
    /// The function is zero at the lower bracket end: it is the root.
    RootAtMin,
    /// The function is zero at the upper bracket end: it is the root.
    RootAtMax,
    /// Iterate from the bracket midpoint; `high_is_max` records at which end
    /// the function is positive, so later sign checks know which end to move.
    Search { high_is_max: bool },
}

/// Orients the bracketed root finder: the function values at the two bracket
/// ends must have opposite signs (or be zero), otherwise the bracket is not
/// known to contain a root and the search fails with `NotBracketed`.
pub fn safe_bracket_setup(at_min: Sign, at_max: Sign) -> (r: Result<SafeStart, PricingError>)
    ensures
        (at_min == at_max && at_min != Sign::Zero) <==> r == Err::<SafeStart, PricingError>(
            PricingError::NotBracketed,
        ),
        at_min is Zero ==> r == Ok::<SafeStart, PricingError>(SafeStart::RootAtMin),
        at_min != Sign::Zero && at_max is Zero ==> r == Ok::<SafeStart, PricingError>(
            SafeStart::RootAtMax,
        ),
        at_min is Negative && at_max is Positive ==> r == Ok::<SafeStart, PricingError>(
            SafeStart::Search { high_is_max: true },
        ),
        at_min is Positive && at_max is Negative ==> r == Ok::<SafeStart, PricingError>(
            SafeStart::Search { high_is_max: false },
        ),
{
    match (at_min, at_max) {
        (Sign::Negative, Sign::Negative) => Err(PricingError::NotBracketed),
        (Sign::Positive, Sign::Positive) => Err(PricingError::NotBracketed),
        (Sign::Zero, _) => Ok(SafeStart::RootAtMin),
        (_, Sign::Zero) => Ok(SafeStart::RootAtMax),
        (Sign::Negative, _) => Ok(SafeStart::Search { high_is_max: true }),
        (Sign::Positive, _) => Ok(SafeStart::Search { high_is_max: false }),
    }
}

/// The kind of step a bracketed root-finding iteration takes.
#[derive(Clone, Copy, Debug, PartialEq, Eq, Structural)]
pub enum SafeStep {
    /// Halve the current bracket.
    Bisect,
    /// Take the Newton step from the current iterate.
    NewtonStep,
}

/// The step choice of the bracketed root finder: it falls back to
/// bisection whenever the Newton step would leave the current bracket or
/// shrinks the residual too slowly, and takes the Newton step otherwise.
pub fn safe_step_choice(newton_escapes_bracket: bool, shrinks_too_slowly: bool) -> (s: SafeStep)
    ensures
        s == (if newton_escapes_bracket || shrinks_too_slowly {
            SafeStep::Bisect
        } else {
            SafeStep::NewtonStep
        }),
{
    if newton_escapes_bracket || shrinks_too_slowly {
        SafeStep::Bisect
    } else {
        SafeStep::NewtonStep
    }
}

/// Which bracket end the new iterate replaces.
#[derive(Clone, Copy, Debug, PartialEq, Eq, Structural)]
pub enum BracketMove {
    /// The function is negative at the iterate: it becomes the low end.
    RaiseLow,
    /// The function is zero or positive there: it becomes the high end.
    LowerHigh,
}

/// The bracket update of the bracketed root finder, from the sign of the
/// function at the new iterate.
pub fn bracket_update(f_negative: bool) -> (m: BracketMove)
    ensures
        m == (if f_negative {
            BracketMove::RaiseLow
        } else {
            BracketMove::LowerHigh
        }),
{
    if f_negative {
        BracketMove::RaiseLow
    } else {
        BracketMove::LowerHigh
    }
}

/// What a damped least-squares iteration does next.
#[derive(Clone, Copy, Debug, PartialEq, Eq, Structural)]
pub enum LmDecision {
    /// The change of the summed squared residual fell below the threshold:
    /// return the freshly updated parameters.
    FinishConverged,
    /// The update lowered the summed squared residual: keep it, recompute the
    /// Jacobian there and shrink the damping parameter.
    AcceptStep,
    /// The update did not lower the summed squared residual: discard it and
    /// grow the damping parameter.
    RejectStep,
    /// The iteration budget is spent without convergence.
    FailMaxIterations,
}

/// The decision a damped least-squares iteration takes: convergence of the
/// squared-residual change ends the search successfully; otherwise the trial
/// step is kept only if it improved the squared residual, and a spent
/// iteration budget is a hard `MaxIterationsExceeded` failure, never a
/// silently returned unconverged answer.
///
/// `iteration` is the zero-based index of the iteration just performed,
/// `change_below_threshold` compares the old and new summed squared residual
/// against the convergence threshold, and `improved` says whether the new
/// summed squared residual is strictly smaller than the old one.
pub fn lm_decide(
    iteration: usize,
    max_iterations: usize,
    change_below_threshold: bool,
    improved: bool,
) -> (d: LmDecision)
    ensures
        change_below_threshold ==> d == LmDecision::FinishConverged,
        !change_below_threshold && iteration + 1 >= max_iterations ==> d
            == LmDecision::FailMaxIterations,
        !change_below_threshold && iteration + 1 < max_iterations && improved ==> d
            == LmDecision::AcceptStep,
        !change_below_threshold && iteration + 1 < max_iterations && !improved ==> d
            == LmDecision::RejectStep,
{
    if change_below_threshold {
        LmDecision::FinishConverged
    } else if iteration >= usize::MAX || iteration + 1 >= max_iterations {
        LmDecision::FailMaxIterations
    } else if improved {
        LmDecision::AcceptStep
    } else {
        LmDecision::RejectStep
    }
}

/// Number of `true` entries of a mask.
pub open spec fn count_true(s: Seq<bool>) -> int
    decreases s.len(),
{
    if s.len() == 0 {
        0
    } else {
        count_true(s.drop_last()) + if s.last() {
            1int
        } else {
            0int
        }
    }
}

/// The positions of the adjustable parameters, in increasing order.
///
/// The least-squares solver fits only the parameters the mask marks `true`:
/// the solved update vector has one entry per marked position, and entry `j`
/// of it is added to the parameter at `positions[j]`. This is the index map
/// that scatter uses, so it must list exactly the marked positions, each
/// once, in increasing order.
pub fn adjustable_positions(mask: &Vec<bool>) -> (positions: Vec<usize>)
    ensures
        positions@.len() == count_true(mask@),
        forall|j: int|
            0 <= j < positions@.len() ==> positions@[j] < mask@.len() && mask@[positions@[j] as int],
        forall|j1: int, j2: int|
            0 <= j1 < j2 < positions@.len() ==> positions@[j1] < positions@[j2],
        forall|k: int| 0 <= k < mask@.len() && mask@[k] ==> positions@.contains(k as usize),
{
    let mut positions: Vec<usize> = Vec::new();
    let mut i: usize = 0;
    while i < mask.len()
        invariant
            i <= mask@.len(),
            positions@.len() == count_true(mask@.take(i as int)),
            forall|j: int|
                0 <= j < positions@.len() ==> positions@[j] < i && mask@[positions@[j] as int],
            forall|j1: int, j2: int|
                0 <= j1 < j2 < positions@.len() ==> positions@[j1] < positions@[j2],
            forall|k: int| 0 <= k < i && mask@[k] ==> positions@.contains(k as usize),
        decreases mask@.len() - i,
    {
        proof {
            assert(mask@.take(i + 1).drop_last() =~= mask@.take(i as int));
            assert(mask@.take(i + 1).last() == mask@[i as int]);
        }
        let ghost earlier = positions@;
        if mask[i] {
            positions.push(i);
        }
        proof {
            assert forall|k: int| 0 <= k < i + 1 && mask@[k] implies positions@.contains(
                k as usize,
            ) by {
                if k == i {
                    assert(positions@[positions@.len() - 1] == i as usize);
                } else {
                    let j = choose|j: int| 0 <= j < earlier.len() && earlier[j] == k as usize;
                    assert(positions@[j] == k as usize);
                }
            }
        }
        i = i + 1;
    }
    proof {
        assert(mask@.take(mask@.len() as int) =~= mask@);
    }
    positions
}

/// Applies the solved update values at exactly the adjustable positions:
/// every other entry of the parameter vector is returned untouched, bit
/// for bit, so masked parameters receive no update step. `positions` is
/// the strictly increasing index map `adjustable_positions` builds, and
/// `values` holds the new value for each of its entries in order.
pub fn scatter_updates<T: Copy>(base: &Vec<T>, positions: &Vec<usize>, values: &Vec<T>) -> (r:
    Vec<T>)
    requires
        positions@.len() == values@.len(),
        forall|j: int| 0 <= j < positions@.len() ==> (#[trigger] positions@[j]) < base@.len(),
        forall|j1: int, j2: int|
            0 <= j1 < j2 < positions@.len() ==> positions@[j1] < positions@[j2],
    ensures
        r@.len() == base@.len(),
        forall|i: int|
            0 <= i < base@.len() && !positions@.contains(i as usize) ==> #[trigger] r@[i]
                == base@[i],
        forall|j: int|
            0 <= j < positions@.len() ==> r@[#[trigger] positions@[j] as int] == values@[j],
{
    let mut r: Vec<T> = Vec::new();
    let mut k: usize = 0;
    let mut i: usize = 0;
    while i < base.len()
        invariant
            i <= base@.len(),
            k <= positions@.len(),
            positions@.len() == values@.len(),
            forall|j: int| 0 <= j < positions@.len() ==> (#[trigger] positions@[j]) < base@.len(),
            forall|j1: int, j2: int|
                0 <= j1 < j2 < positions@.len() ==> positions@[j1] < positions@[j2],
            r@.len() == i,
            forall|j: int| 0 <= j < k ==> (#[trigger] positions@[j]) < i,
            forall|j: int| k <= j < positions@.len() ==> i <= #[trigger] positions@[j],
            forall|i2: int|
                0 <= i2 < i && !positions@.contains(i2 as usize) ==> #[trigger] r@[i2]
                    == base@[i2],
            forall|j: int| 0 <= j < k ==> r@[#[trigger] positions@[j] as int] == values@[j],
        decreases base@.len() - i,
    {
        if k < positions.len() && positions[k] == i {
            r.push(values[k]);
            k = k + 1;
            proof {
                assert forall|j: int| k <= j < positions@.len() implies i + 1 <= (
                #[trigger] positions@[j]) by {
                    assert(positions@[k - 1] < positions@[j]);
                }
            }
        } else {
            r.push(base[i]);
            proof {
                if positions@.contains(i as usize) {
                    let j = choose|j: int|
                        0 <= j < positions@.len() && positions@[j] == i as usize;
                    if j < k {
                        assert(positions@[j] < i);
                    } else if j > k {
                        assert(positions@[k as int] < positions@[j]);
                    }
                }
            }
        }
        i = i + 1;
    }
    r
}

} // verus!
