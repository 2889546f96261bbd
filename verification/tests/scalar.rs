use portfolio_optimizer::scalar::{
    Scalar, INFINITY_BITS, LOWEST_BITS, NAN_BITS, NEG_INFINITY_BITS, ONE_BITS, TOLERANCE_BITS, ZERO_BITS,
};

fn scalar(value: f64) -> Scalar {
    Scalar::from_bits(value.to_bits())
}

fn samples() -> Vec<f64> {
    vec![
        0.0,
        -0.0,
        1.0,
        -1.0,
        1e-6,
        -1e-6,
        0.999999,
        1.000001,
        5e-324,
        -5e-324,
        2.2250738585072014e-308,
        f64::MAX,
        f64::MIN,
        f64::INFINITY,
        f64::NEG_INFINITY,
        f64::NAN,
        -f64::NAN,
        f64::from_bits(0x7FF0_0000_0000_0001),
        f64::from_bits(0xFFFF_FFFF_FFFF_FFFF),
        0.1 + 0.2,
        0.3,
        -123456.789,
        3.5e200,
    ]
}

#[test]
fn the_constants_are_the_numbers_they_stand_for() {
    assert_eq!(f64::from_bits(ZERO_BITS), 0.0);
    assert_eq!(f64::from_bits(ONE_BITS), 1.0);
    assert_eq!(f64::from_bits(TOLERANCE_BITS), 1e-6);
    assert_eq!(f64::from_bits(INFINITY_BITS), f64::INFINITY);
    assert_eq!(f64::from_bits(NEG_INFINITY_BITS), f64::NEG_INFINITY);
    assert_eq!(f64::from_bits(LOWEST_BITS), f64::MIN);
    assert!(f64::from_bits(NAN_BITS).is_nan());
    assert_eq!(Scalar::zero().bits, 0.0f64.to_bits());
    assert_eq!(Scalar::one().bits, 1.0f64.to_bits());
    assert_eq!(Scalar::tolerance().bits, 1e-6f64.to_bits());
}

#[test]
fn comparisons_agree_with_the_numbers() {
    for a in samples() {
        assert_eq!(scalar(a).is_nan(), a.is_nan());
        for b in samples() {
            assert_eq!(scalar(a).lt(scalar(b)), a < b, "{a} < {b}");
            assert_eq!(scalar(a).le(scalar(b)), a <= b, "{a} <= {b}");
            assert_eq!(scalar(a).gt(scalar(b)), a > b, "{a} > {b}");
            assert_eq!(scalar(a).ge(scalar(b)), a >= b, "{a} >= {b}");
        }
    }
}

#[test]
fn ranks_order_the_numbers() {
    for a in samples() {
        for b in samples() {
            if a.is_nan() || b.is_nan() {
                continue;
            }
            assert_eq!(scalar(a).rank_value() < scalar(b).rank_value(), a < b);
            assert_eq!(scalar(a).rank_value() == scalar(b).rank_value(), a == b);
        }
    }
    assert_eq!(scalar(0.0).rank_value(), 0);
    assert_eq!(scalar(-0.0).rank_value(), 0);
    assert_eq!(scalar(1.0).rank_value(), 0x3FF0_0000_0000_0000);
    assert_eq!(scalar(-1.0).rank_value(), -0x3FF0_0000_0000_0000);
}

#[test]
fn larger_and_smaller_pass_over_what_is_not_a_number() {
    for a in samples() {
        for b in samples() {
            let larger = f64::from_bits(scalar(a).larger(scalar(b)).bits);
            let smaller = f64::from_bits(scalar(a).smaller(scalar(b)).bits);
            if a.is_nan() && b.is_nan() {
                assert!(larger.is_nan() && smaller.is_nan());
            } else {
                assert_eq!(larger, a.max(b));
                assert_eq!(smaller, a.min(b));
            }
        }
    }
    assert_eq!(scalar(0.0).larger(scalar(-0.0)).bits, 0.0f64.to_bits());
    assert_eq!(scalar(-0.0).larger(scalar(0.0)).bits, (-0.0f64).to_bits());
}
