use vstd::prelude::*;

verus! {

/// Where the swap-date suffix used by a shifted-maturity swaption begins.
///
/// A swaption of maturity `m` is priced against the swap legs strictly after
/// `m`. The caller evaluates `date > m` for each swap date; over a
/// non-decreasing date series those flags are monotone (once a date is past
/// the maturity, all later ones are), and the kept suffix starts at the
/// first `true`.
pub fn suffix_start(after: &Vec<bool>) -> (start: usize)
    requires
        forall|i: int, j: int| 0 <= i <= j < after@.len() && after@[i] ==> after@[j],
    ensures
        start <= after@.len(),
        forall|i: int| 0 <= i < start ==> !after@[i],
        forall|i: int| start <= i < after@.len() ==> after@[i],
{
    let mut i: usize = 0;
    while i < after.len()
        invariant
            i <= after@.len(),
            forall|j: int| 0 <= j < i ==> !after@[j],
            forall|k: int, j: int| 0 <= k <= j < after@.len() && after@[k] ==> after@[j],
        decreases after@.len() - i,
    {
        if after[i] {
            return i;
        }
        i = i + 1;
    }
    i
}

} // verus!
