use vstd::prelude::*;

use crate::error::PricingError;
use crate::node::Node;
use crate::rational::{
    lemma_rat_eq_trans, lemma_rat_mul_div_cancel, lemma_rat_ops_wf, lemma_rat_seq_sum_scale,
    lemma_rat_seq_sum_wf, rat_div, rat_eq, rat_is_zero, rat_mul, rat_seq_sum, rat_wf, rats_wf,
    Rat,
};

verus! {

/// Number of grid steps between a slice's centre and its highest node:
/// a slice of `2w + 1` nodes has half-width `w`.
pub open spec fn spec_half_width(s: Seq<Node>) -> int {
    (s.len() - 1) / 2
}

/// The half-width the next slice must have under the re-centering rule:
/// the range grows exactly to the "up" successor of the current slice's
/// highest node.
pub open spec fn spec_next_half_width(s: Seq<Node>) -> int {
    s.last().transition_to_mid_index + 1
}

/// Geometric soundness of the lattice:
/// - time runs over at least one slice, and the first slice is the single
///   root node;
/// - each following slice's size follows the re-centering rule;
/// - every node's three successors fall inside the following slice's index
///   range (for the last stored slice, inside the terminal grid the rule
///   implies).
pub open spec fn tree_wf(t: Seq<Vec<Node>>) -> bool {
    &&& t.len() >= 1
    &&& t[0]@.len() == 1
    &&& forall|i: int|
        0 <= i < t.len() - 1 ==> (#[trigger] t[i + 1]@.len()) == 2 * spec_next_half_width(t[i]@)
            + 1
    &&& forall|i: int, j: int|
        0 <= i < t.len() && 0 <= j < t[i]@.len() ==> (#[trigger] t[i]@[j]).transition_to_mid_index
            + 1 <= spec_next_half_width(t[i]@) && -spec_next_half_width(t[i]@)
            <= t[i]@[j].transition_to_mid_index - 1
}

/// The same conditions on the raw middle-successor indices a tree is built
/// from.
pub open spec fn valid_geometry(mids: Seq<Vec<i64>>) -> bool {
    &&& mids.len() >= 1
    &&& mids[0]@.len() == 1
    &&& forall|i: int|
        0 <= i < mids.len() - 1 ==> (#[trigger] mids[i + 1]@.len()) == 2 * (mids[i]@.last() + 1)
            + 1
    &&& forall|i: int, j: int|
        0 <= i < mids.len() && 0 <= j < mids[i]@.len() ==> (#[trigger] mids[i]@[j]) + 1
            <= mids[i]@.last() + 1 && -(mids[i]@.last() + 1) <= mids[i]@[j] - 1
}

/// A trinomial short-rate lattice's branching structure.
///
/// `tree[i]` holds slice `i`'s nodes from the lowest centered rate index
/// to the highest: node `j` of a slice of half-width `w` sits at centered
/// index `j - w`. Transitions are stored per node as the centered index of
/// its middle successor in slice `i + 1`; rates, transition probabilities
/// and Arrow-Debreu prices are values computed on top of this structure,
/// slice by slice, never stored as embedded successor nodes.
#[derive(Clone, Debug)]
pub struct Tree {
    pub tree: Vec<Vec<Node>>,
}

impl Tree {
    /// Builds the lattice structure from each slice's middle-successor
    /// indices, validating the re-centering rule and that every branch
    /// lands inside the following slice. A shape that breaks either rule
    /// means the grid spacing was ill-chosen for the model parameters and
    /// is rejected as `InvalidLatticeSpacing`, never clamped.
    pub fn new(slice_mids: &Vec<Vec<i64>>) -> (r: Result<Tree, PricingError>)
        ensures
            r is Ok <==> valid_geometry(slice_mids@),
            r is Err ==> r == Err::<Tree, PricingError>(PricingError::InvalidLatticeSpacing),
            r matches Ok(t) ==> tree_wf(t.tree@) && t.tree@.len() == slice_mids@.len() && (forall|
                i: int,
            |
                0 <= i < slice_mids@.len() ==> (#[trigger] t.tree@[i]@.len())
                    == slice_mids@[i]@.len()) && (forall|i: int, j: int|
                0 <= i < slice_mids@.len() && 0 <= j < slice_mids@[i]@.len() ==> (
                #[trigger] t.tree@[i]@[j]).transition_to_mid_index == slice_mids@[i]@[j]),
    {
        // Validate the shape first.
        if slice_mids.len() == 0 {
            return Err(PricingError::InvalidLatticeSpacing);
        }
        if slice_mids[0].len() != 1 {
            return Err(PricingError::InvalidLatticeSpacing);
        }
        let n = slice_mids.len();
        let mut i: usize = 0;
        while i < n
            invariant
                i <= n,
                n == slice_mids@.len(),
                n >= 1,
                slice_mids@[0]@.len() == 1,
                forall|i2: int| 0 <= i2 < i ==> (#[trigger] slice_mids@[i2]@.len()) >= 1,
                forall|i2: int|
                    0 <= i2 < i && i2 < n - 1 ==> (#[trigger] slice_mids@[i2 + 1]@.len()) == 2 * (
                    slice_mids@[i2]@.last() + 1) + 1,
                forall|i2: int, j: int|
                    0 <= i2 < i && 0 <= j < slice_mids@[i2]@.len() ==> (
                    #[trigger] slice_mids@[i2]@[j]) + 1 <= slice_mids@[i2]@.last() + 1 && -(
                    slice_mids@[i2]@.last() + 1) <= slice_mids@[i2]@[j] - 1,
            decreases n - i,
        {
            let slice = &slice_mids[i];
            if slice.len() == 0 {
                proof {
                    if valid_geometry(slice_mids@) {
                        assert(slice_mids@[(i - 1) + 1]@.len() == 2 * (slice_mids@[i - 1]@.last()
                            + 1) + 1);
                    }
                }
                return Err(PricingError::InvalidLatticeSpacing);
            }
            let top = slice[slice.len() - 1];
            let next_w: i128 = top as i128 + 1;
            if i + 1 < n {
                let expected: i128 = 2 * next_w + 1;
                if slice_mids[i + 1].len() as i128 != expected {
                    proof {
                        if valid_geometry(slice_mids@) {
                            assert(slice_mids@[i + 1]@.len() == 2 * (slice_mids@[i as int]@.last()
                                + 1) + 1);
                        }
                    }
                    return Err(PricingError::InvalidLatticeSpacing);
                }
            }
            let mut j: usize = 0;
            while j < slice.len()
                invariant
                    j <= slice@.len(),
                    i < n,
                    n == slice_mids@.len(),
                    slice@ == slice_mids@[i as int]@,
                    slice@.len() >= 1,
                    next_w == slice@.last() + 1,
                    forall|j2: int|
                        0 <= j2 < j ==> (#[trigger] slice@[j2]) + 1 <= slice@.last() + 1 && -(
                        slice@.last() + 1) <= slice@[j2] - 1,
                decreases slice@.len() - j,
            {
                let mid = slice[j] as i128;
                if !(mid + 1 <= next_w && -next_w <= mid - 1) {
                    proof {
                        if valid_geometry(slice_mids@) {
                            assert((slice_mids@[i as int]@[j as int]) + 1 <= slice_mids@[
                            i as int]@.last() + 1 && -(slice_mids@[i as int]@.last() + 1)
                                <= slice_mids@[i as int]@[j as int] - 1);
                        }
                    }
                    return Err(PricingError::InvalidLatticeSpacing);
                }
                j = j + 1;
            }
            i = i + 1;
        }
        proof {
            assert(valid_geometry(slice_mids@));
        }
        // Assemble the node slices.
        let mut tree: Vec<Vec<Node>> = Vec::new();
        let mut i2: usize = 0;
        while i2 < n
            invariant
                i2 <= n,
                n == slice_mids@.len(),
                tree@.len() == i2,
                forall|a: int|
                    0 <= a < i2 ==> (#[trigger] tree@[a]@.len()) == slice_mids@[a]@.len(),
                forall|a: int, b: int|
                    0 <= a < i2 && 0 <= b < slice_mids@[a]@.len() ==> (
                    #[trigger] tree@[a]@[b]).transition_to_mid_index == slice_mids@[a]@[b],
            decreases n - i2,
        {
            let slice = &slice_mids[i2];
            let mut nodes: Vec<Node> = Vec::new();
            let mut j2: usize = 0;
            while j2 < slice.len()
                invariant
                    j2 <= slice@.len(),
                    slice@ == slice_mids@[i2 as int]@,
                    nodes@.len() == j2,
                    forall|b: int|
                        0 <= b < j2 ==> (#[trigger] nodes@[b]).transition_to_mid_index
                            == slice@[b],
                decreases slice@.len() - j2,
            {
                nodes.push(Node::new(slice[j2]));
                j2 = j2 + 1;
            }
            tree.push(nodes);
            i2 = i2 + 1;
        }
        let t = Tree { tree };
        proof {
            assert forall|a: int| 0 <= a < n - 1 implies (#[trigger] t.tree@[a + 1]@.len()) == 2
                * spec_next_half_width(t.tree@[a]@) + 1 by {
                assert(t.tree@[a]@.len() == slice_mids@[a]@.len());
                assert(t.tree@[a]@[slice_mids@[a]@.len() - 1].transition_to_mid_index
                    == slice_mids@[a]@[slice_mids@[a]@.len() - 1]);
            }
            assert forall|a: int, b: int|
                0 <= a < n && 0 <= b < t.tree@[a]@.len() implies (
            #[trigger] t.tree@[a]@[b]).transition_to_mid_index + 1 <= spec_next_half_width(
                t.tree@[a]@,
            ) && -spec_next_half_width(t.tree@[a]@) <= t.tree@[a]@[b].transition_to_mid_index
                - 1 by {
                assert(t.tree@[a]@.len() == slice_mids@[a]@.len());
                assert(t.tree@[a]@[b].transition_to_mid_index == slice_mids@[a]@[b]);
                assert(t.tree@[a]@[slice_mids@[a]@.len() - 1].transition_to_mid_index
                    == slice_mids@[a]@[slice_mids@[a]@.len() - 1]);
            }
        }
        Ok(t)
    }

    /// Number of time slices the lattice stores.
    pub fn slice_count(&self) -> (r: usize)
        ensures
            r == self.tree@.len(),
    {
        self.tree.len()
    }

    /// Number of nodes of a slice.
    pub fn node_count(&self, slice: usize) -> (r: usize)
        requires
            slice < self.tree@.len(),
        ensures
            r == self.tree@[slice as int]@.len(),
    {
        self.tree[slice].len()
    }

    /// Centered rate index of a slice's node `j`: the slice's nodes run
    /// from `-w` to `w` around the centre.
    pub fn centered_index(&self, slice: usize, j: usize) -> (r: i64)
        requires
            tree_wf(self.tree@),
            slice < self.tree@.len(),
            j < self.tree@[slice as int]@.len(),
            self.tree@[slice as int]@.len() <= i64::MAX,
        ensures
            r == j - spec_half_width(self.tree@[slice as int]@),
    {
        let w = (self.tree[slice].len() - 1) / 2;
        j as i64 - w as i64
    }
}

/// One of the three branches a node transitions along.
#[derive(Clone, Copy, Debug, PartialEq, Eq, Structural)]
pub enum Branch {
    Up,
    Mid,
    Down,
}

/// Offset a branch adds to the middle successor's centered index.
pub open spec fn branch_offset(b: Branch) -> int {
    match b {
        Branch::Up => 1,
        Branch::Mid => 0,
        Branch::Down => -1,
    }
}

/// Position of a branch in the up, middle, down scan order.
pub open spec fn branch_rank(b: Branch) -> int {
    match b {
        Branch::Up => 0,
        Branch::Mid => 1,
        Branch::Down => 2,
    }
}

/// Centered index, in the next slice, of the node reached from `n` along
/// branch `b`.
pub open spec fn branch_target(n: Node, b: Branch) -> int {
    n.transition_to_mid_index + branch_offset(b)
}

impl Tree {
    /// Every (predecessor node, branch) pair that leads to the node at
    /// centered index `centered` of slice `slice`: its Arrow-Debreu price
    /// is the sum, exactly over these pairs, of predecessor Arrow-Debreu
    /// price times branch probability times the predecessor's one-step
    /// discount. The pairs come in scan order, each one once.
    pub fn predecessors(&self, slice: usize, centered: i64) -> (r: Vec<(usize, Branch)>)
        requires
            1 <= slice < self.tree@.len(),
        ensures
            forall|t: int|
                0 <= t < r@.len() ==> (#[trigger] r@[t]).0 < self.tree@[slice - 1]@.len()
                    && branch_target(self.tree@[slice - 1]@[r@[t].0 as int], r@[t].1) == centered,
            forall|p2: int, b2: Branch|
                0 <= p2 < self.tree@[slice - 1]@.len() && #[trigger] branch_target(
                    self.tree@[slice - 1]@[p2],
                    b2,
                ) == centered ==> r@.contains(((p2 as usize), b2)),
            forall|t1: int, t2: int|
                0 <= t1 < t2 < r@.len() ==> 3 * (#[trigger] r@[t1]).0 + branch_rank(r@[t1].1) < 3
                    * (#[trigger] r@[t2]).0 + branch_rank(r@[t2].1),
    {
        let prev = &self.tree[slice - 1];
        let c = centered as i128;
        let mut r: Vec<(usize, Branch)> = Vec::new();
        let mut p: usize = 0;
        while p < prev.len()
            invariant
                p <= prev@.len(),
                prev@ == self.tree@[slice - 1]@,
                c == centered as int,
                forall|t: int|
                    0 <= t < r@.len() ==> (#[trigger] r@[t]).0 < prev@.len() && branch_target(
                        prev@[r@[t].0 as int],
                        r@[t].1,
                    ) == centered,
                forall|p2: int, b2: Branch|
                    0 <= p2 < p && #[trigger] branch_target(prev@[p2], b2) == centered
                        ==> r@.contains(((p2 as usize), b2)),
                forall|t: int|
                    0 <= t < r@.len() ==> 3 * (#[trigger] r@[t]).0 + branch_rank(r@[t].1) < 3 * p,
                forall|t1: int, t2: int|
                    0 <= t1 < t2 < r@.len() ==> 3 * (#[trigger] r@[t1]).0 + branch_rank(r@[t1].1)
                        < 3 * (#[trigger] r@[t2]).0 + branch_rank(r@[t2].1),
            decreases prev@.len() - p,
        {
            let m = prev[p].transition_to_mid_index as i128;
            let mut rank: usize = 0;
            while rank < 3
                invariant
                    rank <= 3,
                    p < prev@.len(),
                    prev@ == self.tree@[slice - 1]@,
                    c == centered as int,
                    m == prev@[p as int].transition_to_mid_index as int,
                    forall|t: int|
                        0 <= t < r@.len() ==> (#[trigger] r@[t]).0 < prev@.len() && branch_target(
                            prev@[r@[t].0 as int],
                            r@[t].1,
                        ) == centered,
                    forall|p2: int, b2: Branch|
                        0 <= p2 < prev@.len() && 3 * p2 + branch_rank(b2) < 3 * p + rank
                            && #[trigger] branch_target(prev@[p2], b2) == centered ==> r@.contains(
                            ((p2 as usize), b2),
                        ),
                    forall|t: int|
                        0 <= t < r@.len() ==> 3 * (#[trigger] r@[t]).0 + branch_rank(r@[t].1) < 3
                            * p + rank,
                    forall|t1: int, t2: int|
                        0 <= t1 < t2 < r@.len() ==> 3 * (#[trigger] r@[t1]).0 + branch_rank(
                            r@[t1].1,
                        ) < 3 * (#[trigger] r@[t2]).0 + branch_rank(r@[t2].1),
                decreases 3 - rank,
            {
                let branch = if rank == 0 {
                    Branch::Up
                } else if rank == 1 {
                    Branch::Mid
                } else {
                    Branch::Down
                };
                let offset: i128 = if rank == 0 {
                    1
                } else if rank == 1 {
                    0
                } else {
                    -1
                };
                proof {
                    assert(branch_rank(branch) == rank as int);
                    assert(branch_offset(branch) == offset as int);
                }
                let ghost earlier = r@;
                if m + offset == c {
                    r.push((p, branch));
                }
                proof {
                    assert forall|p2: int, b2: Branch|
                        0 <= p2 < prev@.len() && 3 * p2 + branch_rank(b2) < 3 * p + rank + 1
                            && #[trigger] branch_target(prev@[p2], b2) == centered implies r@
                        .contains(((p2 as usize), b2)) by {
                        if 3 * p2 + branch_rank(b2) < 3 * p + rank {
                            let t = choose|t: int|
                                0 <= t < earlier.len() && earlier[t] == ((p2 as usize), b2);
                            assert(r@[t] == ((p2 as usize), b2));
                        } else {
                            assert(p2 == p as int && b2 == branch);
                            assert(r@[r@.len() - 1] == ((p2 as usize), b2));
                        }
                    }
                }
                rank = rank + 1;
            }
            p = p + 1;
        }
        r
    }

    /// Index of the value a piecewise-constant parameter table takes at a
    /// query point. The caller compares the query point with each
    /// breakpoint; `reached[i]` says the point is at or past breakpoint
    /// `i`, so over an increasing breakpoint table the flags are `true` on
    /// a prefix. The selected index is the last reached breakpoint,
    /// clamped to the table: before the first breakpoint the first value
    /// holds, past the last one the last value holds.
    pub fn piecewise_constant_index(reached: &Vec<bool>) -> (r: usize)
        requires
            reached@.len() >= 1,
            forall|i: int, j: int| 0 <= i <= j < reached@.len() && #[trigger] reached@[j] ==> #[trigger] reached@[i],
        ensures
            r < reached@.len(),
            r > 0 ==> reached@[r as int],
            r < reached@.len() - 1 ==> !reached@[r + 1],
    {
        let mut i: usize = 1;
        while i < reached.len()
            invariant
                1 <= i <= reached@.len(),
                forall|k: int| 1 <= k < i ==> reached@[k],
            decreases reached@.len() - i,
        {
            if !reached[i] {
                return i - 1;
            }
            i = i + 1;
        }
        i - 1
    }
}

/// The drift adjustment fits the lattice to the market curve exactly.
///
/// `terms[j]` stands for node `j`'s Arrow-Debreu price times its one-step
/// discount before the adjustment, so the slice's implied discount factor
/// `U` is their sum. The additive rate shift `(ln U - ln DF) / dt`,
/// applied to every node of the slice, multiplies each node's one-step
/// discount by the one ratio `DF / U`, giving the `adjusted` terms; this
/// lemma states that the adjusted slice's sum reproduces the market
/// discount factor `DF` exactly.
pub proof fn lemma_drift_adjustment_matches_curve(
    terms: Seq<Rat>,
    adjusted: Seq<Rat>,
    market_df: Rat,
)
    requires
        rats_wf(terms),
        rat_wf(market_df),
        !rat_is_zero(rat_seq_sum(terms)),
        adjusted.len() == terms.len(),
        forall|j: int|
            0 <= j < terms.len() ==> #[trigger] adjusted[j] == rat_mul(
                terms[j],
                rat_div(market_df, rat_seq_sum(terms)),
            ),
    ensures
        rat_eq(rat_seq_sum(adjusted), market_df),
{
    let u = rat_seq_sum(terms);
    let k = rat_div(market_df, u);
    lemma_rat_seq_sum_wf(terms);
    lemma_rat_ops_wf(market_df, u);
    lemma_rat_seq_sum_scale(terms, adjusted, k);
    lemma_rat_mul_div_cancel(u, market_df);
    lemma_rat_ops_wf(u, k);
    lemma_rat_eq_trans(rat_seq_sum(adjusted), rat_mul(u, k), market_df);
}

} // verus!
