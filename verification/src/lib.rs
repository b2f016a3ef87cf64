//! Verified core of a one-factor Hull-White interest-rate pricing engine.
//!
//! The crate covers the parts of the engine whose correctness is a matter of
//! discrete structure and exact arithmetic: solver control flow, schedule
//! validation, the trinomial-lattice geometry with its Arrow-Debreu
//! predecessor bookkeeping, and the exact-rational statements of the
//! interpolation and probability rules. Floating-point evaluation of the
//! same rules lives outside the verified library.

use vstd::prelude::*;

pub mod analysis;
pub mod calibration;
pub mod curve;
pub mod error;
pub mod interpolation;
pub mod node;
pub mod optimization;
pub mod rational;
pub mod tree;

verus! {

/// Number of time slices of the demonstration lattice.
pub const DEMO_SLICE_COUNT: usize = 10;

/// Builds the demonstration trinomial lattice structure: one slice per
/// payment date of the demo swap schedule, with centered branching (every
/// node's middle successor keeps its centered index), and validates it.
/// The numeric layers — calibrated model parameters, rates, transition
/// probabilities and Arrow-Debreu prices — are computed on top of the
/// returned structure by the surrounding program.
pub fn run() -> (r: Result<tree::Tree, error::PricingError>)
    ensures
        r is Ok,
        r matches Ok(t) ==> tree::tree_wf(t.tree@) && t.tree@.len() == DEMO_SLICE_COUNT,
        r matches Ok(t) ==> forall|a: int, b: int|
            0 <= a < t.tree@.len() && 0 <= b < t.tree@[a]@.len() ==> (
            #[trigger] t.tree@[a]@[b]).transition_to_mid_index == b - tree::spec_half_width(
                t.tree@[a]@,
            ),
{
    let mut mids: Vec<Vec<i64>> = Vec::new();
    let mut i: usize = 0;
    while i < DEMO_SLICE_COUNT
        invariant
            i <= DEMO_SLICE_COUNT,
            mids@.len() == i,
            forall|a: int| 0 <= a < i ==> (#[trigger] mids@[a]@.len()) == 2 * a + 1,
            forall|a: int, b: int|
                0 <= a < i && 0 <= b < mids@[a]@.len() ==> (#[trigger] mids@[a]@[b]) == b - a,
        decreases DEMO_SLICE_COUNT - i,
    {
        let mut row: Vec<i64> = Vec::new();
        let mut j: usize = 0;
        while j < 2 * i + 1
            invariant
                j <= 2 * i + 1,
                i < DEMO_SLICE_COUNT,
                row@.len() == j,
                forall|b: int| 0 <= b < j ==> (#[trigger] row@[b]) == b - i,
            decreases 2 * i + 1 - j,
        {
            row.push(j as i64 - i as i64);
            j = j + 1;
        }
        mids.push(row);
        i = i + 1;
    }
    proof {
        assert forall|a: int| 0 <= a < mids@.len() - 1 implies (#[trigger] mids@[a + 1]@.len())
            == 2 * (mids@[a]@.last() + 1) + 1 by {
            assert(mids@[a]@[2 * a] == 2 * a - a);
            assert(mids@[a + 1]@.len() == 2 * (a + 1) + 1);
        }
        assert forall|a: int, b: int|
            0 <= a < mids@.len() && 0 <= b < mids@[a]@.len() implies (#[trigger] mids@[a]@[b]) + 1
            <= mids@[a]@.last() + 1 && -(mids@[a]@.last() + 1) <= mids@[a]@[b] - 1 by {
            assert(mids@[a]@[2 * a] == 2 * a - a);
            assert(mids@[a]@[b] == b - a);
        }
        assert(tree::valid_geometry(mids@));
    }
    match tree::Tree::new(&mids) {
        Ok(t) => {
            proof {
                assert forall|a: int, b: int|
                    0 <= a < t.tree@.len() && 0 <= b < t.tree@[a]@.len() implies (
                #[trigger] t.tree@[a]@[b]).transition_to_mid_index == b - tree::spec_half_width(
                    t.tree@[a]@,
                ) by {
                    assert(t.tree@[a]@.len() == mids@[a]@.len());
                    assert(mids@[a]@.len() == 2 * a + 1);
                    assert(t.tree@[a]@[b].transition_to_mid_index == mids@[a]@[b]);
                    assert(mids@[a]@[b] == b - a);
                    assert(tree::spec_half_width(t.tree@[a]@) == a);
                }
            }
            Ok(t)
        },
        Err(e) => {
            proof {
                assert(false);
            }
            Err(e)
        },
    }
}

} // verus!
