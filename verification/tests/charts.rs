use portfolio_optimizer::optimization::{FrontierPoint, OptimizationResults};
use portfolio_optimizer::scalar::Scalar;
use portfolio_optimizer::visualization::{
    frontier_extent, histogram, label_at, largest, return_extent, smallest, tallest, weight_extent,
    HISTOGRAM_BINS,
};

fn scalar(value: f64) -> Scalar {
    Scalar::from_bits(value.to_bits())
}

fn scalars(values: &[f64]) -> Vec<Scalar> {
    values.iter().map(|v| scalar(*v)).collect()
}

fn number(s: Scalar) -> f64 {
    f64::from_bits(s.bits)
}

fn point(std: f64, expected_return: f64) -> FrontierPoint {
    FrontierPoint {
        risk_free_weight: scalar(0.0),
        risky_weights: Vec::new(),
        expected_return: scalar(expected_return),
        portfolio_std: scalar(std),
        sharpe_ratio: scalar(0.0),
    }
}

fn results(points: Vec<FrontierPoint>) -> OptimizationResults {
    OptimizationResults {
        frontier: points,
        optimal_risky_portfolio: Vec::new(),
        optimal_risky_return: scalar(0.0),
        optimal_risky_std: scalar(0.0),
        max_sharpe: scalar(0.0),
    }
}

#[test]
fn the_largest_and_the_smallest_pass_over_what_is_not_a_number() {
    let values = scalars(&[0.2, f64::NAN, -0.7, 0.9, 0.9, -0.1]);
    assert_eq!(number(largest(scalar(f64::NAN), &values)), 0.9);
    assert_eq!(number(smallest(scalar(f64::NAN), &values)), -0.7);
    assert_eq!(number(largest(scalar(2.0), &values)), 2.0);
    assert_eq!(number(smallest(scalar(-2.0), &values)), -2.0);
    assert!(number(largest(scalar(f64::NAN), &Vec::new())).is_nan());
    assert!(number(largest(scalar(f64::NAN), &scalars(&[f64::NAN]))).is_nan());
}

#[test]
fn a_frontier_chart_reaches_to_its_largest_point() {
    let r = results(vec![point(0.0, 0.0001), point(0.01, 0.0004), point(0.02, 0.0007)]);
    let (max_std, max_return) = frontier_extent(&r);
    assert_eq!(number(max_std), 0.02);
    assert_eq!(number(max_return), 0.0007);
    let (no_std, no_return) = frontier_extent(&results(Vec::new()));
    assert!(number(no_std).is_nan());
    assert_eq!(number(no_return), f64::MIN);
}

#[test]
fn a_weight_chart_reaches_to_one_at_least() {
    assert_eq!(number(weight_extent(&scalars(&[0.2, 0.5, 0.3]))), 1.0);
    assert_eq!(number(weight_extent(&scalars(&[-0.4, 1.4]))), 1.4);
    assert_eq!(number(weight_extent(&Vec::new())), 1.0);
}

#[test]
fn a_distribution_chart_spans_the_series() {
    let (min, max) = return_extent(&scalars(&[0.01, -0.03, 0.02]));
    assert_eq!(number(min), -0.03);
    assert_eq!(number(max), 0.02);
    let (min, max) = return_extent(&Vec::new());
    assert_eq!(number(min), f64::INFINITY);
    assert_eq!(number(max), f64::NEG_INFINITY);
}

#[test]
fn returns_are_counted_bar_by_bar() {
    assert_eq!(HISTOGRAM_BINS, 50);
    let counts = histogram(&vec![0, 0, 3, 49, 50, 51, usize::MAX, 3, 7]);
    assert_eq!(counts.len(), 50);
    assert_eq!(counts[0], 2);
    assert_eq!(counts[3], 2);
    assert_eq!(counts[7], 1);
    assert_eq!(counts[49], 4);
    assert_eq!(counts.iter().sum::<usize>(), 9);
    assert_eq!(histogram(&Vec::new()), vec![0; 50]);
}

#[test]
fn the_tallest_bar_sets_the_height() {
    assert_eq!(tallest(&vec![0, 4, 2, 4, 1]), 4);
    assert_eq!(tallest(&vec![0, 0]), 0);
    assert_eq!(tallest(&Vec::new()), 1);
}

#[test]
fn bars_are_labelled_with_the_assets() {
    let labels = vec!["AAPL".to_string(), "MSFT".to_string()];
    assert_eq!(label_at(&labels, 0), "AAPL");
    assert_eq!(label_at(&labels, 1), "MSFT");
    assert_eq!(label_at(&labels, 2), "");
}
