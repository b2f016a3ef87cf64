use hullwhite::analysis::{capfloor_schedule, CapFloorType, OptionType, SwaptionType};
use hullwhite::calibration::suffix_start;
use hullwhite::error::PricingError;
use hullwhite::optimization::{
    adjustable_positions, bracket_update, lm_decide, newton_decide, safe_bracket_setup,
    safe_step_choice, scatter_updates, BracketMove, LmDecision, NewtonDecision, SafeStart,
    SafeStep, Sign, MAX_LM_ITERATIONS, MAX_NEWTON_ITERATIONS,
};

#[test]
fn error_messages_name_each_failure() {
    assert_eq!(PricingError::NotBracketed.message(), "root is not bracketed");
    assert_eq!(PricingError::OutOfRange.message(), "iterate left the bracket");
    assert_eq!(
        PricingError::ConvergenceFailure.message(),
        "root finder did not converge"
    );
    assert_eq!(
        PricingError::MaxIterationsExceeded.message(),
        "maximum number of iterations exceeded"
    );
    assert_eq!(
        PricingError::LengthMismatch.message(),
        "series lengths do not match"
    );
    assert_eq!(
        PricingError::InvalidTimeGrid.message(),
        "time grid is not strictly increasing"
    );
    assert_eq!(
        PricingError::NonPositiveDiscountFactor.message(),
        "discount factor is not positive"
    );
    assert_eq!(
        PricingError::InvalidLatticeSpacing.message(),
        "transition probability outside [0, 1]"
    );
}

#[test]
fn option_sign_conventions() {
    assert_eq!(OptionType::Call.sign(), 1);
    assert_eq!(OptionType::Put.sign(), -1);
    assert_eq!(CapFloorType::Cap.sign(), -1);
    assert_eq!(CapFloorType::Floor.sign(), 1);
    assert_eq!(SwaptionType::Payer.sign(), 1);
    assert_eq!(SwaptionType::Receiver.sign(), -1);
}

#[test]
fn capfloor_schedule_pairs_consecutive_boundaries() {
    let periods = capfloor_schedule(4, 3).unwrap();
    assert_eq!(periods, vec![(0, 1), (1, 2), (2, 3)]);
    let single = capfloor_schedule(2, 1).unwrap();
    assert_eq!(single, vec![(0, 1)]);
    // A single boundary describes no period at all.
    assert_eq!(capfloor_schedule(1, 0).unwrap(), Vec::<(usize, usize)>::new());
}

#[test]
fn capfloor_length_mismatch_is_reported_not_truncated() {
    assert_eq!(
        capfloor_schedule(4, 4),
        Err(PricingError::LengthMismatch)
    );
    assert_eq!(
        capfloor_schedule(4, 2),
        Err(PricingError::LengthMismatch)
    );
    assert_eq!(
        capfloor_schedule(0, 0),
        Err(PricingError::LengthMismatch)
    );
}

#[test]
fn suffix_start_finds_dates_after_maturity() {
    // Swap dates 0.5..3.0 against maturities below, at and above entries.
    assert_eq!(suffix_start(&vec![true; 6]), 0);
    assert_eq!(suffix_start(&vec![false, true, true, true, true, true]), 1);
    assert_eq!(
        suffix_start(&vec![false, false, false, true, true, true]),
        3
    );
    assert_eq!(suffix_start(&vec![false; 6]), 6);
    assert_eq!(suffix_start(&Vec::<bool>::new()), 0);
}

#[test]
fn newton_decisions_follow_the_specified_order() {
    assert_eq!(
        newton_decide(0, MAX_NEWTON_ITERATIONS, true, true),
        NewtonDecision::Abort(PricingError::OutOfRange)
    );
    assert_eq!(
        newton_decide(0, MAX_NEWTON_ITERATIONS, false, true),
        NewtonDecision::Accept
    );
    assert_eq!(
        newton_decide(0, MAX_NEWTON_ITERATIONS, false, false),
        NewtonDecision::Continue
    );
    assert_eq!(
        newton_decide(MAX_NEWTON_ITERATIONS - 1, MAX_NEWTON_ITERATIONS, false, false),
        NewtonDecision::Abort(PricingError::ConvergenceFailure)
    );
}

#[test]
fn bracket_setup_rejects_same_sign_ends() {
    assert_eq!(
        safe_bracket_setup(Sign::Positive, Sign::Positive),
        Err(PricingError::NotBracketed)
    );
    assert_eq!(
        safe_bracket_setup(Sign::Negative, Sign::Negative),
        Err(PricingError::NotBracketed)
    );
    assert_eq!(
        safe_bracket_setup(Sign::Zero, Sign::Positive),
        Ok(SafeStart::RootAtMin)
    );
    assert_eq!(
        safe_bracket_setup(Sign::Negative, Sign::Zero),
        Ok(SafeStart::RootAtMax)
    );
    assert_eq!(
        safe_bracket_setup(Sign::Negative, Sign::Positive),
        Ok(SafeStart::Search { high_is_max: true })
    );
    assert_eq!(
        safe_bracket_setup(Sign::Positive, Sign::Negative),
        Ok(SafeStart::Search { high_is_max: false })
    );
}

#[test]
fn lm_decisions_follow_the_specified_order() {
    assert_eq!(
        lm_decide(5, MAX_LM_ITERATIONS, true, false),
        LmDecision::FinishConverged
    );
    assert_eq!(
        lm_decide(5, MAX_LM_ITERATIONS, false, true),
        LmDecision::AcceptStep
    );
    assert_eq!(
        lm_decide(5, MAX_LM_ITERATIONS, false, false),
        LmDecision::RejectStep
    );
    assert_eq!(
        lm_decide(MAX_LM_ITERATIONS - 1, MAX_LM_ITERATIONS, false, true),
        LmDecision::FailMaxIterations
    );
}

#[test]
fn adjustable_positions_lists_marked_indices_in_order() {
    assert_eq!(
        adjustable_positions(&vec![true, false, true]),
        vec![0, 2]
    );
    assert_eq!(adjustable_positions(&vec![false, false]), Vec::<usize>::new());
    assert_eq!(
        adjustable_positions(&vec![true, true, true]),
        vec![0, 1, 2]
    );
    assert_eq!(adjustable_positions(&Vec::<bool>::new()), Vec::<usize>::new());
}

#[test]
fn safe_step_prefers_newton_only_inside_the_bracket() {
    assert_eq!(safe_step_choice(false, false), SafeStep::NewtonStep);
    assert_eq!(safe_step_choice(true, false), SafeStep::Bisect);
    assert_eq!(safe_step_choice(false, true), SafeStep::Bisect);
    assert_eq!(safe_step_choice(true, true), SafeStep::Bisect);
}

#[test]
fn bracket_update_moves_the_matching_end() {
    assert_eq!(bracket_update(true), BracketMove::RaiseLow);
    assert_eq!(bracket_update(false), BracketMove::LowerHigh);
}

#[test]
fn scatter_updates_leaves_masked_parameters_untouched() {
    let base = vec![10, 20, 30, 40, 50];
    let positions = vec![1, 3];
    let values = vec![21, 41];
    assert_eq!(scatter_updates(&base, &positions, &values), vec![10, 21, 30, 41, 50]);
    // No adjustable position: the vector comes back bit for bit.
    assert_eq!(
        scatter_updates(&base, &Vec::<usize>::new(), &Vec::<i32>::new()),
        base
    );
}
