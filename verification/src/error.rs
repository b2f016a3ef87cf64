use vstd::prelude::*;

verus! {

/// Typed failure conditions surfaced by the pricing components.
///
/// Every component reports invalid input or a failed iteration through one of
/// these variants instead of panicking, so a caller can recover (for example
/// by retrying a calibration with a different initial guess).
#[derive(Clone, Copy, Debug, PartialEq, Eq, Structural)]
pub enum PricingError {
    /// The values of the target function at the two bracket ends do not have
    /// opposite signs, so the bracket is not known to contain a root.
    NotBracketed,
    /// A Newton iterate left the bracket the root was sought in.
    OutOfRange,
    /// The root finder used its whole iteration budget without meeting the
    /// convergence threshold.
    ConvergenceFailure,
    /// The least-squares solver used its whole iteration budget without the
    /// residual change falling below the threshold.
    MaxIterationsExceeded,
    /// Two series that must line up (period boundaries and volatilities)
    /// have incompatible lengths.
    LengthMismatch,
    /// A time grid that must be strictly increasing is not.
    InvalidTimeGrid,
    /// A discount factor that a logarithm is taken of is not positive.
    NonPositiveDiscountFactor,
    /// A lattice transition probability fell outside [0, 1], which means the
    /// rate-grid spacing is ill-chosen for the model parameters.
    InvalidLatticeSpacing,
}

impl PricingError {
    /// A short human-readable description of the failure.
    pub fn message(&self) -> (r: &'static str)
        ensures
            *self is NotBracketed ==> r@ == "root is not bracketed"@,
            *self is OutOfRange ==> r@ == "iterate left the bracket"@,
            *self is ConvergenceFailure ==> r@ == "root finder did not converge"@,
            *self is MaxIterationsExceeded ==> r@ == "maximum number of iterations exceeded"@,
            *self is LengthMismatch ==> r@ == "series lengths do not match"@,
            *self is InvalidTimeGrid ==> r@ == "time grid is not strictly increasing"@,
            *self is NonPositiveDiscountFactor ==> r@ == "discount factor is not positive"@,
            *self is InvalidLatticeSpacing ==> r@ == "transition probability outside [0, 1]"@,
    {
        match self {
            PricingError::NotBracketed => "root is not bracketed",
            PricingError::OutOfRange => "iterate left the bracket",
            PricingError::ConvergenceFailure => "root finder did not converge",
            PricingError::MaxIterationsExceeded => "maximum number of iterations exceeded",
            PricingError::LengthMismatch => "series lengths do not match",
            PricingError::InvalidTimeGrid => "time grid is not strictly increasing",
            PricingError::NonPositiveDiscountFactor => "discount factor is not positive",
            PricingError::InvalidLatticeSpacing => "transition probability outside [0, 1]",
        }
    }
}

} // verus!
