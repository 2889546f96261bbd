use portfolio_optimizer::config::{ConfigError, PortofolioOptimization};
use portfolio_optimizer::error::PortfolioError;
use portfolio_optimizer::optimization::{
    blend_step, check_normalization, covariance_inverse, frontier_intervals,
    near_optimal_weights, select_blend, Blend, BlendStep, Candidate, FrontierPoint, MvoOptMethod,
    OptimizationResults, Search, Sweep, CANDIDATE_COUNT, MAX_LEVERAGE_BITS, MIXING_STEPS,
    PERIODS_PER_YEAR, STEPS_PER_SWEEP,
};
use portfolio_optimizer::scalar::Scalar;

fn scalar(value: f64) -> Scalar {
    Scalar::from_bits(value.to_bits())
}

fn candidate(utility: f64, gap: f64, concentration: f64) -> Candidate {
    Candidate {
        utility: scalar(utility),
        weight_sum_gap: scalar(gap),
        concentration: scalar(concentration),
    }
}

fn config(sub_method: &str, params: &[f64]) -> PortofolioOptimization {
    PortofolioOptimization {
        method: "mvo".to_string(),
        sub_method: sub_method.to_string(),
        risk_free_rate: scalar(0.02),
        params: params.iter().map(|p| scalar(*p)).collect(),
    }
}

#[test]
fn the_search_runs_two_sweeps_of_a_hundred_and_one_steps() {
    assert_eq!(MIXING_STEPS, 100);
    assert_eq!(STEPS_PER_SWEEP, 101);
    assert_eq!(CANDIDATE_COUNT, 202);
    assert_eq!(blend_step(0), Some(BlendStep { sweep: Sweep::TowardMeanVariance, step: 0 }));
    assert_eq!(blend_step(37), Some(BlendStep { sweep: Sweep::TowardMeanVariance, step: 37 }));
    assert_eq!(blend_step(100), Some(BlendStep { sweep: Sweep::TowardMeanVariance, step: 100 }));
    assert_eq!(blend_step(101), Some(BlendStep { sweep: Sweep::TowardEqualWeight, step: 0 }));
    assert_eq!(blend_step(201), Some(BlendStep { sweep: Sweep::TowardEqualWeight, step: 100 }));
    assert_eq!(blend_step(202), None);
    assert_eq!(blend_step(usize::MAX), None);
}

#[test]
fn the_least_concentrated_qualifying_blend_is_kept() {
    let candidates = vec![
        candidate(0.9, 0.0, 0.40),
        candidate(0.5, 0.0, 0.10),
        candidate(0.8, 0.0, 0.30),
        candidate(0.8, 1e-3, 0.05),
        candidate(0.85, 0.0, 0.30),
        candidate(0.95, 0.0, 0.60),
    ];
    assert_eq!(select_blend(&candidates, scalar(0.5), scalar(0.8)), Some(2));
}

#[test]
fn no_blend_is_kept_when_none_beats_the_mean_variance_portfolio() {
    let candidates = vec![candidate(0.9, 0.0, 0.50), candidate(0.9, 0.0, 0.70), candidate(0.1, 0.0, 0.10)];
    assert_eq!(select_blend(&candidates, scalar(0.5), scalar(0.8)), None);
    assert_eq!(select_blend(&Vec::new(), scalar(0.5), scalar(0.8)), None);
}

#[test]
fn the_kept_blend_keeps_utility_and_lowers_concentration() {
    let mut state: u64 = 0x9E37_79B9_7F4A_7C15;
    let mut candidates: Vec<Candidate> = Vec::new();
    for _ in 0..CANDIDATE_COUNT {
        state ^= state << 13;
        state ^= state >> 7;
        state ^= state << 17;
        let utility = (state % 1000) as f64 / 1000.0;
        let concentration = ((state >> 20) % 1000) as f64 / 1000.0;
        let gap = if (state >> 40) % 5 == 0 { 1e-5 } else { 1e-9 };
        candidates.push(candidate(utility, gap, concentration));
    }
    let initial = 0.6;
    let floor = 0.7;
    let kept = select_blend(&candidates, scalar(initial), scalar(floor)).unwrap();
    let utility = |c: &Candidate| f64::from_bits(c.utility.bits);
    let gap = |c: &Candidate| f64::from_bits(c.weight_sum_gap.bits);
    let concentration = |c: &Candidate| f64::from_bits(c.concentration.bits);
    assert!(utility(&candidates[kept]) >= floor);
    assert!(gap(&candidates[kept]) < 1e-6);
    assert!(concentration(&candidates[kept]) <= initial);
    let mut best = initial;
    let mut expected = None;
    for (k, c) in candidates.iter().enumerate() {
        if utility(c) >= floor && gap(c) < 1e-6 && concentration(c) < best {
            best = concentration(c);
            expected = Some(k);
        }
    }
    assert_eq!(Some(kept), expected);
}

#[test]
fn what_is_not_a_number_never_qualifies() {
    let candidates = vec![
        candidate(f64::NAN, 0.0, 0.1),
        candidate(0.9, f64::NAN, 0.1),
        candidate(0.9, 0.0, f64::NAN),
    ];
    assert_eq!(select_blend(&candidates, scalar(0.5), scalar(0.8)), None);
    assert_eq!(select_blend(&vec![candidate(0.9, 0.0, 0.1)], scalar(f64::NAN), scalar(0.8)), None);
    assert_eq!(select_blend(&vec![candidate(0.9, 0.0, 0.1)], scalar(0.5), scalar(f64::NAN)), None);
}

#[test]
fn a_gap_at_the_tolerance_does_not_qualify() {
    assert!(!candidate(0.9, 1e-6, 0.1).qualifies(scalar(0.8)));
    assert!(candidate(0.9, 9.99e-7, 0.1).qualifies(scalar(0.8)));
    assert!(candidate(0.8, 0.0, 0.1).qualifies(scalar(0.8)));
    assert!(!candidate(0.79, 0.0, 0.1).qualifies(scalar(0.8)));
    assert!(candidate(0.9, 0.0, 0.1).improves_on(scalar(0.8), scalar(0.2)));
    assert!(!candidate(0.9, 0.0, 0.2).improves_on(scalar(0.8), scalar(0.2)));
}

#[test]
fn the_search_state_moves_only_on_improvement() {
    let start = Search::start(scalar(0.5));
    assert_eq!(start, Search { kept: None, bound: scalar(0.5) });
    let first = start.consider(4, candidate(0.9, 0.0, 0.3), scalar(0.8));
    assert_eq!(first, Search { kept: Some(4), bound: scalar(0.3) });
    let second = first.consider(5, candidate(0.9, 0.0, 0.3), scalar(0.8));
    assert_eq!(second, first);
    let third = second.consider(6, candidate(0.9, 0.0, 0.29), scalar(0.8));
    assert_eq!(third, Search { kept: Some(6), bound: scalar(0.29) });
}

#[test]
fn weights_are_normalised_within_the_tolerance() {
    assert_eq!(check_normalization(scalar(0.0)), Ok(()));
    assert_eq!(check_normalization(scalar(1e-6)), Ok(()));
    assert_eq!(
        check_normalization(scalar(1.0000000000000002e-6)),
        Err(PortfolioError::WeightNormalization { gap: scalar(1.0000000000000002e-6) })
    );
    assert_eq!(
        check_normalization(scalar(0.5)),
        Err(PortfolioError::WeightNormalization { gap: scalar(0.5) })
    );
    assert!(check_normalization(scalar(f64::NAN)).is_err());
}

#[test]
fn a_frontier_needs_two_points() {
    assert_eq!(
        frontier_intervals(0),
        Err(PortfolioError::InvalidFrontierResolution { requested: 0 })
    );
    assert_eq!(
        frontier_intervals(1),
        Err(PortfolioError::InvalidFrontierResolution { requested: 1 })
    );
    assert_eq!(frontier_intervals(2), Ok(1));
    assert_eq!(frontier_intervals(50), Ok(49));
}

#[test]
fn the_first_frontier_point_has_no_sharpe_ratio() {
    let point = FrontierPoint::new(
        scalar(0.0),
        scalar(1.0),
        vec![scalar(0.0), scalar(0.0)],
        scalar(0.0001),
        scalar(0.0),
        scalar(f64::NAN),
    );
    assert_eq!(point.sharpe_ratio, scalar(0.0));
    assert_eq!(point.portfolio_std, scalar(0.0));
    assert_eq!(point.risk_free_weight, scalar(1.0));
    assert_eq!(point.expected_return, scalar(0.0001));
    assert_eq!(point.risky_weights, vec![scalar(0.0), scalar(0.0)]);
}

#[test]
fn a_leveraged_frontier_point_has_the_ratio_as_sharpe() {
    let point = FrontierPoint::new(
        scalar(0.5),
        scalar(0.5),
        vec![scalar(0.2), scalar(0.3)],
        scalar(0.0005),
        scalar(0.01),
        scalar(0.04),
    );
    assert_eq!(point.sharpe_ratio, scalar(0.04));
    let negative = FrontierPoint::new(
        scalar(-0.5),
        scalar(1.5),
        vec![scalar(-0.2)],
        scalar(0.0),
        scalar(0.01),
        scalar(0.04),
    );
    assert_eq!(negative.sharpe_ratio, scalar(0.0));
}

#[test]
fn the_method_is_read_by_name() {
    assert_eq!(
        MvoOptMethod::from_config(&config("risk-adjusted", &[0.3])),
        Ok(MvoOptMethod::RiskAdjusted { tau: scalar(0.3) })
    );
    assert_eq!(
        MvoOptMethod::from_config(&config("near-optimal", &[0.3, 0.9, 7.0])),
        Ok(MvoOptMethod::NearOptimal { tau: scalar(0.3), theta: scalar(0.9) })
    );
}

#[test]
fn an_unknown_method_is_refused() {
    assert_eq!(MvoOptMethod::from_config(&config("", &[0.3])), Err(ConfigError::UnknownMethod));
    assert_eq!(
        MvoOptMethod::from_config(&config("Risk-Adjusted", &[0.3])),
        Err(ConfigError::UnknownMethod)
    );
    assert_eq!(
        MvoOptMethod::from_config(&config("near_optimal", &[0.3, 0.9])),
        Err(ConfigError::UnknownMethod)
    );
}

#[test]
fn a_method_without_its_parameters_is_refused() {
    assert_eq!(
        MvoOptMethod::from_config(&config("risk-adjusted", &[])),
        Err(ConfigError::MissingParameter { needed: 1, given: 0 })
    );
    assert_eq!(
        MvoOptMethod::from_config(&config("near-optimal", &[0.3])),
        Err(ConfigError::MissingParameter { needed: 2, given: 1 })
    );
}

fn point(weights: usize) -> FrontierPoint {
    FrontierPoint::new(
        scalar(0.5),
        scalar(0.5),
        vec![scalar(0.1); weights],
        scalar(0.001),
        scalar(0.01),
        scalar(0.05),
    )
}

#[test]
fn a_matrix_without_an_inverse_ends_the_run() {
    assert_eq!(covariance_inverse(None), Err(PortfolioError::SingularCovariance));
    let inverse = vec![vec![scalar(2.0), scalar(0.0)], vec![scalar(0.0), scalar(4.0)]];
    assert_eq!(covariance_inverse(Some(inverse.clone())), Ok(inverse));
}

#[test]
fn results_have_to_fit_together() {
    let weights = vec![scalar(0.4), scalar(0.6)];
    let results = OptimizationResults::new(
        vec![point(2), point(2), point(2)],
        weights.clone(),
        scalar(0.001),
        scalar(0.01),
        scalar(0.05),
    )
    .unwrap();
    assert_eq!(results.frontier.len(), 3);
    assert_eq!(results.optimal_risky_portfolio, weights);
    assert_eq!(results.optimal_risky_return, scalar(0.001));
    assert_eq!(results.optimal_risky_std, scalar(0.01));
    assert_eq!(results.max_sharpe, scalar(0.05));
    let too_few = OptimizationResults::new(
        vec![point(2)],
        weights.clone(),
        scalar(0.001),
        scalar(0.01),
        scalar(0.05),
    );
    assert_eq!(too_few.err(), Some(PortfolioError::InvalidFrontierResolution { requested: 1 }));
    let off = OptimizationResults::new(
        vec![point(2), point(3), point(1)],
        weights,
        scalar(0.001),
        scalar(0.01),
        scalar(0.05),
    );
    assert_eq!(off.err(), Some(PortfolioError::DimensionMismatch { expected: 2, found: 3 }));
}

#[test]
fn the_same_blends_give_the_same_choice() {
    let candidates = vec![
        candidate(0.9, 0.0, 0.40),
        candidate(0.9, 0.0, 0.30),
        candidate(0.9, 0.0, 0.30),
        candidate(0.9, 0.0, 0.35),
    ];
    let first = select_blend(&candidates, scalar(0.5), scalar(0.8));
    let second = select_blend(&candidates.clone(), scalar(0.5), scalar(0.8));
    assert_eq!(first, Some(1));
    assert_eq!(first, second);
}

fn blend(weights: &[f64], utility: f64, gap: f64, concentration: f64) -> Blend {
    Blend {
        weights: weights.iter().map(|w| scalar(*w)).collect(),
        measures: candidate(utility, gap, concentration),
    }
}

#[test]
fn the_weights_of_the_kept_blend_are_the_result() {
    let mean_variance = vec![scalar(0.9), scalar(0.1)];
    let blends = vec![
        blend(&[0.8, 0.2], 0.95, 0.0, 0.68),
        blend(&[0.5, 0.5], 0.70, 0.0, 0.50),
        blend(&[0.6, 0.4], 0.85, 0.0, 0.52),
        blend(&[0.7, 0.3], 0.90, 0.0, 0.58),
    ];
    let weights = near_optimal_weights(mean_variance, &blends, scalar(0.82), scalar(0.8));
    assert_eq!(weights, vec![scalar(0.6), scalar(0.4)]);
}

#[test]
fn without_a_kept_blend_the_mean_variance_weights_are_the_result() {
    let mean_variance = vec![scalar(0.9), scalar(0.1)];
    let blends = vec![blend(&[0.5, 0.5], 0.70, 0.0, 0.50), blend(&[0.8, 0.2], 0.95, 0.0, 0.9)];
    let weights = near_optimal_weights(mean_variance.clone(), &blends, scalar(0.82), scalar(0.8));
    assert_eq!(weights, mean_variance);
    let alone = near_optimal_weights(mean_variance.clone(), &Vec::new(), scalar(0.82), scalar(0.8));
    assert_eq!(alone, mean_variance);
}

#[test]
fn parameters_have_their_ranges() {
    assert!(MvoOptMethod::RiskAdjusted { tau: scalar(0.3) }.in_range());
    assert!(!MvoOptMethod::RiskAdjusted { tau: scalar(0.0) }.in_range());
    assert!(!MvoOptMethod::RiskAdjusted { tau: scalar(-0.3) }.in_range());
    assert!(!MvoOptMethod::RiskAdjusted { tau: scalar(f64::NAN) }.in_range());
    assert!(MvoOptMethod::NearOptimal { tau: scalar(0.3), theta: scalar(1.0) }.in_range());
    assert!(MvoOptMethod::NearOptimal { tau: scalar(0.3), theta: scalar(1e-9) }.in_range());
    assert!(!MvoOptMethod::NearOptimal { tau: scalar(0.3), theta: scalar(0.0) }.in_range());
    assert!(!MvoOptMethod::NearOptimal { tau: scalar(0.3), theta: scalar(1.0000000000000002) }.in_range());
    assert!(!MvoOptMethod::NearOptimal { tau: scalar(0.0), theta: scalar(0.9) }.in_range());
}

#[test]
fn the_constants_of_the_frontier_and_the_rate() {
    assert_eq!(f64::from_bits(MAX_LEVERAGE_BITS), 2.0);
    assert_eq!(PERIODS_PER_YEAR, 252);
}
