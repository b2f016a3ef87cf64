use vstd::prelude::*;

use crate::error::PricingError;

verus! {

/// Call/put side of a discount-bond option.
#[derive(Clone, Copy, Debug, PartialEq, Eq, Structural)]
pub enum OptionType {
    Call,
    Put,
}

/// Cap/floor side of a rate option on a sequence of forward rates.
#[derive(Clone, Copy, Debug, PartialEq, Eq, Structural)]
pub enum CapFloorType {
    Cap,
    Floor,
}

/// Payer/receiver side of an option on a fixed-for-floating swap.
#[derive(Clone, Copy, Debug, PartialEq, Eq, Structural)]
pub enum SwaptionType {
    Payer,
    Receiver,
}

impl OptionType {
    /// Sign placed on the Black-style formula terms: +1 for a call,
    /// -1 for a put.
    pub fn sign(&self) -> (s: i64)
        ensures
            s == if *self is Call { 1int } else { -1int },
    {
        match self {
            OptionType::Call => 1,
            OptionType::Put => -1,
        }
    }
}

impl CapFloorType {
    /// Sign placed on the caplet/floorlet formula terms: -1 for a cap,
    /// +1 for a floor.
    pub fn sign(&self) -> (s: i64)
        ensures
            s == if *self is Cap { -1int } else { 1int },
    {
        match self {
            CapFloorType::Cap => -1,
            CapFloorType::Floor => 1,
        }
    }
}

impl SwaptionType {
    /// Sign placed on the swaption formula terms: +1 for a payer,
    /// -1 for a receiver.
    pub fn sign(&self) -> (s: i64)
        ensures
            s == if *self is Payer { 1int } else { -1int },
    {
        match self {
            SwaptionType::Payer => 1,
            SwaptionType::Receiver => -1,
        }
    }
}

/// The caplet/floorlet periods a cap or floor is summed over.
///
/// `n_dates` consecutive period boundaries describe `n_dates - 1` periods
/// `(i, i + 1)`, each priced with its own volatility; the volatility list
/// must therefore be exactly one shorter than the boundary list, and any
/// other combination is a `LengthMismatch`, never a truncation.
pub fn capfloor_schedule(n_dates: usize, n_vols: usize) -> (r: Result<
    Vec<(usize, usize)>,
    PricingError,
>)
    ensures
        r is Ok <==> n_dates == n_vols + 1,
        r is Err ==> r == Err::<Vec<(usize, usize)>, PricingError>(PricingError::LengthMismatch),
        r matches Ok(periods) ==> periods@.len() == n_vols && forall|i: int|
            0 <= i < n_vols ==> periods@[i] == (i as usize, (i + 1) as usize),
{
    if n_vols == usize::MAX || n_dates != n_vols + 1 {
        return Err(PricingError::LengthMismatch);
    }
    let mut periods: Vec<(usize, usize)> = Vec::new();
    let mut i: usize = 0;
    while i < n_vols
        invariant
            i <= n_vols,
            n_vols < usize::MAX,
            periods@.len() == i,
            forall|j: int| 0 <= j < i ==> periods@[j] == (j as usize, (j + 1) as usize),
        decreases n_vols - i,
    {
        periods.push((i, i + 1));
        i = i + 1;
    }
    Ok(periods)
}

} // verus!
