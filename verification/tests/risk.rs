use portfolio_optimizer::error::PortfolioError;
use portfolio_optimizer::ordering::ascending_order;
use portfolio_optimizer::portfolio::{
    only_numbers, portfolio_cvar, portfolio_var, ranks, sort_ascending, TailRisk,
};
use portfolio_optimizer::scalar::Scalar;

fn scalars(values: &[f64]) -> Vec<Scalar> {
    values.iter().map(|v| Scalar::from_bits(v.to_bits())).collect()
}

fn number(s: Scalar) -> f64 {
    f64::from_bits(s.bits)
}

fn numbers_of(values: &[Scalar]) -> Vec<f64> {
    values.iter().map(|s| number(*s)).collect()
}

fn tail_count(alpha: f64, len: usize) -> usize {
    ((1.0 - alpha) * len as f64).ceil() as usize
}

#[test]
fn value_at_risk_is_the_observation_behind_the_tail() {
    let series = scalars(&[0.03, -0.05, 0.04, -0.02, 0.01]);
    let tail = tail_count(0.8, series.len());
    assert_eq!(tail, 1);
    let var = portfolio_var(&series, tail).unwrap();
    assert_eq!(number(var), -0.02);
}

#[test]
fn conditional_value_at_risk_averages_the_tail() {
    let series = scalars(&[-0.05, -0.02, 0.01, 0.03, 0.04]);
    let tail = tail_count(0.8, series.len());
    match portfolio_cvar(&series, tail).unwrap() {
        TailRisk::MeanOf(worst) => {
            assert_eq!(worst.len(), 1);
            let mean = worst.iter().map(|s| number(*s)).sum::<f64>() / worst.len() as f64;
            assert_eq!(mean, -0.05);
        }
        TailRisk::Observation(_) => panic!("the tail is shorter than the series"),
    }
}

#[test]
fn a_tail_as_long_as_the_series_gives_the_last_observation() {
    let series = scalars(&[0.03, -0.05, 0.04]);
    assert_eq!(number(portfolio_var(&series, 3).unwrap()), 0.04);
    assert_eq!(number(portfolio_var(&series, 7).unwrap()), 0.04);
    match portfolio_cvar(&series, 3).unwrap() {
        TailRisk::Observation(last) => assert_eq!(number(last), 0.04),
        TailRisk::MeanOf(_) => panic!("the tail takes in the whole series"),
    }
}

#[test]
fn an_empty_series_has_no_risk_measure() {
    let series: Vec<Scalar> = Vec::new();
    assert_eq!(portfolio_var(&series, 0), Err(PortfolioError::EmptyReturns));
    assert!(matches!(portfolio_cvar(&series, 0), Err(PortfolioError::EmptyReturns)));
}

#[test]
fn ascending_order_keeps_equal_observations_in_place() {
    let series = scalars(&[0.5, -1.0, 0.0, -0.0, 0.5, f64::NEG_INFINITY, f64::INFINITY, 1e-300]);
    assert_eq!(ascending_order(&ranks(&series)), vec![5, 1, 2, 3, 7, 0, 4, 6]);
    let sorted: Vec<u64> = sort_ascending(&series).iter().map(|s| s.bits).collect();
    let expected: Vec<u64> =
        [f64::NEG_INFINITY, -1.0, 0.0, -0.0, 1e-300, 0.5, 0.5, f64::INFINITY].iter().map(|v| v.to_bits()).collect();
    assert_eq!(sorted, expected);
}

#[test]
fn sorting_agrees_with_the_order_of_the_numbers() {
    let mut state: u64 = 0x2545_F491_4F6C_DD1D;
    let mut values: Vec<f64> = Vec::new();
    for _ in 0..200 {
        state ^= state << 13;
        state ^= state >> 7;
        state ^= state << 17;
        values.push((state % 2001) as f64 / 1000.0 - 1.0);
    }
    let sorted: Vec<f64> = sort_ascending(&scalars(&values)).iter().map(|s| number(*s)).collect();
    let mut expected = values.clone();
    expected.sort_by(|a, b| a.partial_cmp(b).unwrap());
    assert_eq!(sorted, expected);
}

#[test]
fn not_a_number_is_told_apart() {
    assert!(only_numbers(&scalars(&[0.0, -3.5, f64::INFINITY])));
    assert!(!only_numbers(&scalars(&[0.0, f64::NAN])));
    assert!(!only_numbers(&scalars(&[-f64::NAN])));
}

#[test]
fn no_observation_of_the_tail_is_above_the_value_at_risk() {
    let series = scalars(&[0.012, -0.034, 0.0, 0.051, -0.034, 0.007, -0.002, 0.019, -0.061, 0.004]);
    for tail in 1..series.len() {
        let var = number(portfolio_var(&series, tail).unwrap());
        match portfolio_cvar(&series, tail).unwrap() {
            TailRisk::MeanOf(worst) => {
                assert_eq!(worst.len(), tail);
                for w in &worst {
                    assert!(number(*w) <= var);
                }
            }
            TailRisk::Observation(_) => panic!("the tail is shorter than the series"),
        }
    }
}

#[test]
fn an_empty_tail_leaves_nothing_to_average() {
    let series = scalars(&[0.03, -0.05, 0.04]);
    assert_eq!(number(portfolio_var(&series, 0).unwrap()), -0.05);
    match portfolio_cvar(&series, 0).unwrap() {
        TailRisk::MeanOf(worst) => assert!(worst.is_empty()),
        TailRisk::Observation(_) => panic!("the tail is shorter than the series"),
    }
}

#[test]
fn ascending_order_of_keys_is_stable() {
    let keys: Vec<i128> = vec![5, -3, 5, 0, -3, i128::MAX, i128::MIN];
    assert_eq!(ascending_order(&keys), vec![6, 1, 4, 3, 0, 2, 5]);
    assert_eq!(ascending_order(&Vec::new()), Vec::<usize>::new());
}

#[test]
fn the_worked_example_of_a_five_day_series() {
    let series = scalars(&[-0.05, -0.02, 0.01, 0.03, 0.04]);
    let tail = tail_count(0.8, series.len());
    assert_eq!(tail, 1);
    assert_eq!(number(portfolio_var(&series, tail).unwrap()), -0.02);
    match portfolio_cvar(&series, tail).unwrap() {
        TailRisk::MeanOf(worst) => assert_eq!(numbers_of(&worst), vec![-0.05]),
        TailRisk::Observation(_) => panic!("the tail is shorter than the series"),
    }
}

#[test]
fn the_same_series_gives_the_same_measures() {
    let series = scalars(&[0.012, -0.034, 0.0, 0.051, -0.034, 0.007, -0.0, 0.019]);
    let first = portfolio_var(&series, 3);
    let second = portfolio_var(&series.clone(), 3);
    assert_eq!(first, second);
    assert_eq!(sort_ascending(&series), sort_ascending(&series.clone()));
}
