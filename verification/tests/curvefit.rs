use hullwhite::error::PricingError;
use hullwhite::interpolation::{cubic_spline, solve_by_thomas, spline_second_derivatives};
use hullwhite::rational::Frac;

fn fr(num: i64, den: i64) -> Frac {
    Frac::new(num, den)
}

#[test]
fn frac_arithmetic_is_exact() {
    let half = fr(1, 2);
    let third = fr(1, 3);
    assert!(half.add(&third).unwrap().eq_value(&fr(5, 6)));
    assert!(half.sub(&third).unwrap().eq_value(&fr(1, 6)));
    assert!(half.mul(&third).unwrap().eq_value(&fr(1, 6)));
    assert!(half.div(&third).unwrap().eq_value(&fr(3, 2)));
    assert!(fr(-2, -4).eq_value(&half));
    assert!(third.lt_value(&half));
    assert!(!half.lt_value(&third));
    assert!(fr(0, 7).is_zero());
}

#[test]
fn thomas_solver_reproduces_known_solution() {
    // 2x + y = 3; x + 3y + z = 5; y + 2z = 3: the solution is (1, 1, 1).
    let lower = vec![fr(0, 1), fr(1, 1), fr(1, 1)];
    let diag = vec![fr(2, 1), fr(3, 1), fr(2, 1)];
    let upper = vec![fr(1, 1), fr(1, 1), fr(0, 1)];
    let rhs = vec![fr(3, 1), fr(5, 1), fr(3, 1)];
    let x = solve_by_thomas(&lower, &diag, &upper, &rhs).unwrap();
    assert_eq!(x.len(), 3);
    for xi in &x {
        assert!(xi.eq_value(&fr(1, 1)));
    }
}

#[test]
fn thomas_solver_exact_on_fractional_system() {
    // A strictly diagonally dominant system with a fractional solution:
    // 4x + y = 3/2; x + 4y = 3/2 has the solution x = y = 3/10.
    let lower = vec![fr(0, 1), fr(1, 1)];
    let diag = vec![fr(4, 1), fr(4, 1)];
    let upper = vec![fr(1, 1), fr(0, 1)];
    let rhs = vec![fr(3, 2), fr(3, 2)];
    let x = solve_by_thomas(&lower, &diag, &upper, &rhs).unwrap();
    assert!(x[0].eq_value(&fr(3, 10)));
    assert!(x[1].eq_value(&fr(3, 10)));
}

#[test]
fn thomas_solver_single_unknown() {
    // 5 x = 2 as a one-row system.
    let x = solve_by_thomas(&vec![fr(0, 1)], &vec![fr(5, 1)], &vec![fr(0, 1)], &vec![fr(2, 1)])
        .unwrap();
    assert!(x[0].eq_value(&fr(2, 5)));
}

#[test]
fn frac_overflow_is_reported_not_rounded() {
    let big = fr(i64::MAX - 1, 1);
    assert!(big.mul(&big).is_none());
    assert!(big.add(&big).is_none());
}

#[test]
fn thomas_solver_rejects_vanishing_pivot() {
    let lower = vec![fr(0, 1), fr(1, 1)];
    let diag = vec![fr(0, 1), fr(1, 1)];
    let upper = vec![fr(1, 1), fr(0, 1)];
    let rhs = vec![fr(1, 1), fr(1, 1)];
    assert!(solve_by_thomas(&lower, &diag, &upper, &rhs).is_none());
}

fn reference_dates() -> Vec<Frac> {
    (1..=10).map(|i| fr(100 * i, 1)).collect()
}

fn reference_rates() -> Vec<Frac> {
    vec![
        fr(889, 1000),
        fr(1085664, 1000000),
        fr(105, 100),
        fr(112, 100),
        fr(1327, 1000),
        fr(20512, 10000),
        fr(2578, 1000),
        fr(22245, 10000),
        fr(2115143, 1000000),
        fr(2356, 1000),
    ]
}

#[test]
fn cubic_spline_reference_dataset() {
    // The reference curve queried inside its first segment; the exact
    // value's nearest double is 0.936556517871382.
    let value = cubic_spline(&reference_dates(), &reference_rates(), &fr(118, 1))
        .unwrap()
        .unwrap();
    assert!(value.eq_value(&fr(263699194563161, 281562500000000)));
}

#[test]
fn cubic_spline_interpolates_every_knot() {
    let dates = reference_dates();
    let rates = reference_rates();
    for i in 0..dates.len() {
        let value = cubic_spline(&dates, &rates, &dates[i]).unwrap().unwrap();
        assert!(value.eq_value(&rates[i]));
    }
}

#[test]
fn cubic_spline_extrapolates_edge_segments() {
    // Outside the grid the edge cubic keeps being used; on a grid whose
    // spline is the straight line y = x this extrapolates that line.
    let dates = vec![fr(0, 1), fr(1, 1), fr(2, 1), fr(3, 1)];
    let rates = vec![fr(0, 1), fr(1, 1), fr(2, 1), fr(3, 1)];
    let below = cubic_spline(&dates, &rates, &fr(-1, 1)).unwrap().unwrap();
    assert!(below.eq_value(&fr(-1, 1)));
    let above = cubic_spline(&dates, &rates, &fr(7, 2)).unwrap().unwrap();
    assert!(above.eq_value(&fr(7, 2)));
}

#[test]
fn cubic_spline_two_point_grid_is_the_chord() {
    // With two points the natural spline is the straight segment through
    // them; a result is owed for such small inputs, not just permitted.
    let dates = vec![fr(0, 1), fr(1, 1)];
    let rates = vec![fr(0, 1), fr(1, 1)];
    let mid = cubic_spline(&dates, &rates, &fr(1, 2)).unwrap().unwrap();
    assert!(mid.eq_value(&fr(1, 2)));
    let above = cubic_spline(&dates, &rates, &fr(3, 1)).unwrap().unwrap();
    assert!(above.eq_value(&fr(3, 1)));
}

#[test]
fn cubic_spline_rejects_a_grid_without_a_segment() {
    let dates = vec![fr(0, 1)];
    let rates = vec![fr(0, 1)];
    assert!(matches!(
        cubic_spline(&dates, &rates, &fr(1, 2)),
        Err(PricingError::InvalidTimeGrid)
    ));
}

#[test]
fn cubic_spline_rejects_mismatched_lengths() {
    let dates = vec![fr(0, 1), fr(1, 1), fr(2, 1), fr(3, 1)];
    let rates = vec![fr(0, 1), fr(1, 1), fr(2, 1)];
    assert!(matches!(
        cubic_spline(&dates, &rates, &fr(1, 2)),
        Err(PricingError::LengthMismatch)
    ));
}

#[test]
fn cubic_spline_rejects_non_increasing_grid() {
    let dates = vec![fr(0, 1), fr(2, 1), fr(2, 1), fr(3, 1)];
    let rates = vec![fr(0, 1), fr(1, 1), fr(2, 1), fr(3, 1)];
    assert!(matches!(
        cubic_spline(&dates, &rates, &fr(1, 2)),
        Err(PricingError::InvalidTimeGrid)
    ));
}

#[test]
fn spline_second_derivatives_single_interior_knot() {
    // One interior knot: 2 (x2 - x0) m1 = 6 ((y2 - y1)/h1 - (y1 - y0)/h0),
    // here 4 m1 = -12, so m1 = -3 exactly.
    let dates = vec![fr(0, 1), fr(1, 1), fr(2, 1)];
    let rates = vec![fr(0, 1), fr(1, 1), fr(0, 1)];
    let m = spline_second_derivatives(&dates, &rates).unwrap();
    assert_eq!(m.len(), 3);
    assert!(m[0].is_zero());
    assert!(m[1].eq_value(&fr(-3, 1)));
    assert!(m[2].is_zero());
}

#[test]
fn spline_second_derivatives_natural_boundary() {
    let dates = vec![fr(0, 1), fr(1, 1), fr(2, 1), fr(3, 1)];
    let rates = vec![fr(0, 1), fr(1, 1), fr(0, 1), fr(1, 1)];
    let m = spline_second_derivatives(&dates, &rates).unwrap();
    assert_eq!(m.len(), 4);
    assert!(m[0].is_zero());
    assert!(m[3].is_zero());
    // The interior system here is 4 m1 + m2 = -12, m1 + 4 m2 = 12, whose
    // exact solution is m1 = -4, m2 = 4.
    assert!(m[1].eq_value(&fr(-4, 1)));
    assert!(m[2].eq_value(&fr(4, 1)));
}
