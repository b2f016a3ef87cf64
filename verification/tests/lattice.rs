use hullwhite::error::PricingError;
use hullwhite::node::Node;
use hullwhite::rational::Frac;
use hullwhite::tree::{Branch, Tree};
use hullwhite::{run, DEMO_SLICE_COUNT};

fn fr(num: i64, den: i64) -> Frac {
    Frac::new(num, den)
}

#[test]
fn node_transition_indices_surround_the_middle_successor() {
    let node = Node::new(3);
    assert_eq!(node.get_transition_index_up(), 4);
    assert_eq!(node.get_transition_index_mid(), 3);
    assert_eq!(node.get_transition_index_down(), 2);
}

#[test]
fn transition_probabilities_zero_drift_textbook_constants() {
    // Variance ratio q = var / interval^2 = 1/3 and a centered branching
    // give the textbook probabilities 1/6, 2/3, 1/6.
    let (pu, pm, pd) = Node::calc_transition_prob(
        &fr(0, 1),
        &fr(0, 1),
        &fr(1, 3),
        &fr(0, 1),
        &fr(1, 1),
    )
    .unwrap();
    assert!(pu.eq_value(&fr(1, 6)));
    assert!(pm.eq_value(&fr(2, 3)));
    assert!(pd.eq_value(&fr(1, 6)));
}

#[test]
fn transition_probabilities_sum_to_one_off_centre() {
    // Offset branching: alpha = 1/10, q = 1/3.
    let (pu, pm, pd) = Node::calc_transition_prob(
        &fr(1, 10),
        &fr(0, 1),
        &fr(1, 3),
        &fr(0, 1),
        &fr(1, 1),
    )
    .unwrap();
    assert!(pu.eq_value(&fr(133, 600)));
    assert!(pm.eq_value(&fr(197, 300)));
    assert!(pd.eq_value(&fr(73, 600)));
    let sum = pu.add(&pm).unwrap().add(&pd).unwrap();
    assert!(sum.eq_value(&fr(1, 1)));
}

#[test]
fn tree_follows_the_recentering_rule() {
    let mids = vec![vec![0], vec![-1, 0, 1], vec![-2, -1, 0, 1, 2]];
    let tree = Tree::new(&mids).unwrap();
    assert_eq!(tree.slice_count(), 3);
    assert_eq!(tree.node_count(0), 1);
    assert_eq!(tree.node_count(1), 3);
    assert_eq!(tree.node_count(2), 5);
    assert_eq!(tree.centered_index(1, 0), -1);
    assert_eq!(tree.centered_index(1, 1), 0);
    assert_eq!(tree.centered_index(2, 4), 2);
}

#[test]
fn tree_rejects_a_slice_of_the_wrong_size() {
    // Slice 1 must have 2 * (0 + 1) + 1 = 3 nodes.
    let mids = vec![vec![0], vec![-1, 0, 1, 2]];
    assert!(matches!(
        Tree::new(&mids),
        Err(PricingError::InvalidLatticeSpacing)
    ));
}

#[test]
fn tree_rejects_a_branch_outside_the_next_slice() {
    // The middle node aims two steps above the slice's top successor.
    let mids = vec![vec![0], vec![-1, 3, 1]];
    assert!(matches!(
        Tree::new(&mids),
        Err(PricingError::InvalidLatticeSpacing)
    ));
}

#[test]
fn predecessors_enumerate_arrow_debreu_sources() {
    let mids = vec![vec![0], vec![-1, 0, 1], vec![-2, -1, 0, 1, 2]];
    let tree = Tree::new(&mids).unwrap();
    assert_eq!(tree.predecessors(1, 1), vec![(0, Branch::Up)]);
    assert_eq!(tree.predecessors(1, 0), vec![(0, Branch::Mid)]);
    assert_eq!(tree.predecessors(1, -1), vec![(0, Branch::Down)]);
    // The centre of slice 2 is reached from all three nodes of slice 1.
    assert_eq!(
        tree.predecessors(2, 0),
        vec![(0, Branch::Up), (1, Branch::Mid), (2, Branch::Down)]
    );
    // The top of slice 2 only from the top of slice 1.
    assert_eq!(tree.predecessors(2, 2), vec![(2, Branch::Up)]);
}

#[test]
fn piecewise_constant_lookup_clamps_at_the_ends() {
    // Breakpoints 1, 2, 3: reached flags for queries 0.5, 2.5 and 9.
    assert_eq!(Tree::piecewise_constant_index(&vec![false, false, false]), 0);
    assert_eq!(Tree::piecewise_constant_index(&vec![true, true, false]), 1);
    assert_eq!(Tree::piecewise_constant_index(&vec![true, true, true]), 2);
}

#[test]
fn drift_adjustment_scaling_reprices_the_market_discount_factor() {
    // Unadjusted Arrow-Debreu-weighted one-step discounts summing to 3/4,
    // against a market discount factor of 3/5: the adjustment scales each
    // term by (3/5) / (3/4) = 4/5, and the slice then reprices 3/5.
    let terms = vec![fr(1, 2), fr(1, 4)];
    let market_df = fr(3, 5);
    let mut unadjusted = fr(0, 1);
    for t in &terms {
        unadjusted = unadjusted.add(t).unwrap();
    }
    let ratio = market_df.div(&unadjusted).unwrap();
    let mut adjusted_sum = fr(0, 1);
    for t in &terms {
        adjusted_sum = adjusted_sum.add(&t.mul(&ratio).unwrap()).unwrap();
    }
    assert!(adjusted_sum.eq_value(&market_df));
}

#[test]
fn demo_lattice_builds_and_validates() {
    let tree = run().unwrap();
    assert_eq!(tree.slice_count(), DEMO_SLICE_COUNT);
    for i in 0..DEMO_SLICE_COUNT {
        assert_eq!(tree.node_count(i), 2 * i + 1);
    }
    // Centered branching everywhere: the middle successor keeps the index.
    for i in 0..DEMO_SLICE_COUNT {
        for j in 0..tree.node_count(i) {
            assert_eq!(
                tree.tree[i][j].transition_to_mid_index,
                j as i64 - i as i64
            );
        }
    }
    assert_eq!(tree.centered_index(3, 0), -3);
    assert_eq!(tree.predecessors(3, 3), vec![(4, Branch::Up)]);
    assert_eq!(
        tree.predecessors(3, 0),
        vec![(1, Branch::Up), (2, Branch::Mid), (3, Branch::Down)]
    );
}

#[test]
fn probabilities_outside_the_unit_interval_are_a_typed_failure() {
    assert!(Node::validate_transition_prob(&fr(1, 6), &fr(2, 3), &fr(1, 6)).is_ok());
    assert!(Node::validate_transition_prob(&fr(0, 1), &fr(1, 1), &fr(0, 1)).is_ok());
    assert!(matches!(
        Node::validate_transition_prob(&fr(7, 6), &fr(2, 3), &fr(-1, 3)),
        Err(PricingError::InvalidLatticeSpacing)
    ));
    assert!(matches!(
        Node::validate_transition_prob(&fr(1, 6), &fr(-1, 100), &fr(1, 6)),
        Err(PricingError::InvalidLatticeSpacing)
    ));
}
