use raytracer::fixed::{Fixed, SCALE};
use raytracer::helpers::{approximate_equals, clamp, degrees_to_radians};

fn fx(value: f64) -> Fixed {
    Fixed { raw: (value * 1e9).round() as i64 }
}

fn to_f64(x: Fixed) -> f64 {
    x.raw as f64 / 1e9
}

fn assert_approximate_equals(expected: Fixed, actual: Fixed, delta: Fixed) {
    assert!(
        approximate_equals(expected, actual, delta),
        "Expected: {:?}, Actual: {:?}, Delta: {:?}",
        expected,
        actual,
        delta
    )
}

#[test]
fn constructors_are_exact() {
    assert_eq!(SCALE, 1_000_000_000);
    assert_eq!(Fixed::zero().raw, 0);
    assert_eq!(Fixed::one().raw, 1_000_000_000);
    assert_eq!(Fixed::max_value().raw, i64::MAX);
    assert_eq!(Fixed::from_int(-3).raw, -3_000_000_000);
    assert_eq!(Fixed::from_int(i32::MAX).raw, 2_147_483_647_000_000_000);
    assert_eq!(Fixed::from_ratio(7, 10).raw, 700_000_000);
    assert_eq!(Fixed::from_ratio(1, 3).raw, 333_333_333);
    assert_eq!(Fixed::from_ratio(-1, 3).raw, -333_333_333);
    assert_eq!(Fixed::from_ratio(1, -3).raw, -333_333_333);
    assert_eq!(Fixed::from_ratio(16, 9).raw, 1_777_777_777);
}

#[test]
fn sums_and_differences_saturate() {
    assert_eq!(fx(1.5) + fx(2.25), fx(3.75));
    assert_eq!(fx(1.5) - fx(2.25), fx(-0.75));
    assert_eq!(Fixed::max_value() + fx(1.0), Fixed::max_value());
    assert_eq!(Fixed { raw: i64::MIN } - fx(1.0), Fixed { raw: i64::MIN });
    assert_eq!(-fx(2.0), fx(-2.0));
    assert_eq!(-Fixed { raw: i64::MIN }, Fixed::max_value());
}

#[test]
fn products_round_toward_zero_and_saturate() {
    assert_eq!(fx(1.5) * fx(-2.0), fx(-3.0));
    assert_eq!(Fixed { raw: 3 } * fx(0.5), Fixed { raw: 1 });
    assert_eq!(Fixed { raw: -3 } * fx(0.5), Fixed { raw: -1 });
    assert_eq!(Fixed { raw: 1 } * Fixed { raw: 1 }, Fixed::zero());
    assert_eq!(fx(100_000.0) * fx(100_000.0), Fixed::max_value());
    assert_eq!(fx(100_000.0) * fx(-100_000.0), Fixed { raw: i64::MIN });
}

#[test]
fn quotients_round_toward_zero_and_saturate() {
    assert_eq!(fx(3.0) / fx(2.0), fx(1.5));
    assert_eq!(fx(1.0) / fx(3.0), Fixed { raw: 333_333_333 });
    assert_eq!(fx(-1.0) / fx(3.0), Fixed { raw: -333_333_333 });
    assert_eq!(fx(1.0) / fx(-3.0), Fixed { raw: -333_333_333 });
    assert_eq!(fx(-1.0) / fx(-3.0), Fixed { raw: 333_333_333 });
    assert_eq!(fx(1_000_000.0) / Fixed { raw: 1 }, Fixed::max_value());
}

#[test]
fn saturating_div_is_defined_for_zero() {
    assert_eq!(fx(3.0).saturating_div(fx(2.0)), fx(1.5));
    assert_eq!(fx(3.0).saturating_div(fx(0.0)), Fixed::max_value());
    assert_eq!(fx(-3.0).saturating_div(fx(0.0)), Fixed { raw: i64::MIN });
    assert_eq!(fx(0.0).saturating_div(fx(0.0)), fx(0.0));
}

#[test]
fn square_roots_round_down() {
    assert_eq!(fx(0.0).sqrt(), fx(0.0));
    assert_eq!(fx(0.25).sqrt(), fx(0.5));
    assert_eq!(fx(9.0).sqrt(), fx(3.0));
    assert_eq!(fx(2.0).sqrt(), Fixed { raw: 1_414_213_562 });
    assert_eq!(Fixed { raw: 1 }.sqrt(), Fixed { raw: 31_622 });
    assert_eq!(Fixed::max_value().sqrt(), Fixed { raw: 96_038_388_349_944 });
}

#[test]
fn abs_min_max_trunc_pow5() {
    assert_eq!(fx(-2.5).abs(), fx(2.5));
    assert_eq!(fx(2.5).abs(), fx(2.5));
    assert_eq!(Fixed { raw: i64::MIN }.abs(), Fixed::max_value());
    assert_eq!(fx(1.0).min(fx(2.0)), fx(1.0));
    assert_eq!(fx(1.0).max(fx(2.0)), fx(2.0));
    assert_eq!(fx(2.75).trunc(), 2);
    assert_eq!(fx(-2.75).trunc(), -2);
    assert_eq!(fx(2.0).pow5(), fx(32.0));
    assert_eq!(fx(-0.5).pow5(), fx(-0.03125));
}

#[test]
fn trigonometry_is_accurate_up_to_a_quarter_turn() {
    let mut degrees = -90;
    while degrees <= 90 {
        let x = degrees_to_radians(Fixed::from_int(degrees));
        let exact = (degrees as f64).to_radians();
        assert!((to_f64(x) - exact).abs() < 1e-8, "radians of {}", degrees);
        assert!((to_f64(x.sin()) - exact.sin()).abs() < 1e-7, "sin {}", degrees);
        assert!((to_f64(x.cos()) - exact.cos()).abs() < 1e-7, "cos {}", degrees);
        degrees += 5;
    }
    assert_eq!(fx(0.0).sin(), fx(0.0));
    assert_eq!(fx(0.0).cos(), fx(1.0));
    assert_eq!(fx(0.0).tan(), fx(0.0));
    let ten = degrees_to_radians(Fixed::from_int(10));
    assert!((to_f64(ten.tan()) - 0.176326981).abs() < 1e-7);
    let forty_five = degrees_to_radians(Fixed::from_int(45));
    assert!((to_f64(forty_five.tan()) - 1.0).abs() < 1e-7);
    let eighty = degrees_to_radians(Fixed::from_int(80));
    assert!((to_f64(eighty.tan()) - 5.671281820).abs() < 1e-6);
}

#[test]
fn degrees_to_radians_of_a_half_turn_is_pi() {
    assert_eq!(degrees_to_radians(Fixed::from_int(180)), Fixed { raw: 3_141_592_654 });
    assert_eq!(degrees_to_radians(Fixed::from_int(90)), Fixed { raw: 1_570_796_327 });
    assert_eq!(degrees_to_radians(Fixed::from_int(0)), Fixed::zero());
}

#[test]
fn clamp_limits_to_the_interval() {
    assert_eq!(clamp(fx(-0.5), fx(0.0), fx(0.999)), fx(0.0));
    assert_eq!(clamp(fx(0.5), fx(0.0), fx(0.999)), fx(0.5));
    assert_eq!(clamp(fx(1.5), fx(0.0), fx(0.999)), fx(0.999));
}

#[test]
fn approximate_equals_is_inclusive() {
    assert!(approximate_equals(fx(1.0), fx(1.1), fx(0.1)));
    assert!(approximate_equals(fx(1.2), fx(1.1), fx(0.1)));
    assert!(!approximate_equals(fx(1.3), fx(1.1), fx(0.1)));
    assert_approximate_equals(fx(3.0), fx(3.00005), fx(0.0001));
}

#[test]
fn ordering_follows_the_value() {
    assert!(fx(-1.0) < fx(0.5));
    assert!(fx(0.5) <= fx(0.5));
    assert!(fx(2.0) > fx(0.5));
}
