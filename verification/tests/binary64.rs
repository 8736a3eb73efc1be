use debye_scattering::binary64::Binary64;

fn scalar(x: f64) -> Binary64 {
    Binary64::from_bits(x.to_bits())
}

fn samples() -> Vec<f64> {
    vec![
        0.0,
        -0.0,
        5e-324,
        -5e-324,
        f64::MIN_POSITIVE,
        -f64::MIN_POSITIVE,
        0.1,
        0.5,
        0.9999999999999999,
        1.0,
        1.0000000000000002,
        1.5,
        2.0,
        2.9999999999999996,
        3.0,
        10.0,
        -10.0,
        -0.5,
        -3.7,
        4503599627370495.5,
        4503599627370496.0,
        4503599627370497.0,
        9007199254740992.0,
        1e19,
        1.8446744073709552e19,
        2e19,
        1e300,
        -1e300,
        f64::MAX,
        f64::MIN,
        f64::INFINITY,
        f64::NEG_INFINITY,
        f64::NAN,
        -f64::NAN,
        f64::from_bits(0x7FF0_0000_0000_0001),
        f64::from_bits(0xFFFF_FFFF_FFFF_FFFF),
    ]
}

#[test]
fn from_bits_keeps_the_pattern() {
    assert_eq!(Binary64::from_bits(0x3FF0_0000_0000_0000).bits, 1.0f64.to_bits());
    assert_eq!(scalar(-2.5).bits, 0xC004_0000_0000_0000);
}

#[test]
fn exceeds_zero_agrees_with_the_comparison_of_the_numbers() {
    for x in samples() {
        assert_eq!(scalar(x).exceeds_zero(), x > 0.0, "{x:?}");
    }
}

#[test]
fn lies_below_agrees_with_the_comparison_of_the_numbers() {
    for a in samples() {
        for b in samples() {
            assert_eq!(scalar(a).lies_below(scalar(b)), a < b, "{a:?} < {b:?}");
        }
    }
}

#[test]
fn zeros_of_either_sign_are_equal() {
    assert!(!scalar(-0.0).lies_below(scalar(0.0)));
    assert!(!scalar(0.0).lies_below(scalar(-0.0)));
    assert!(!scalar(-0.0).exceeds_zero());
}

#[test]
fn nan_is_neither_positive_nor_below_anything() {
    assert!(!scalar(f64::NAN).exceeds_zero());
    assert!(!scalar(f64::NAN).lies_below(scalar(f64::INFINITY)));
    assert!(!scalar(f64::NEG_INFINITY).lies_below(scalar(f64::NAN)));
}

#[test]
fn step_count_agrees_with_floor_and_saturating_cast() {
    for x in samples() {
        assert_eq!(scalar(x).to_step_count(), x.floor() as usize, "{x:?}");
    }
}

#[test]
fn step_count_of_given_patterns() {
    assert_eq!(scalar(0.0).to_step_count(), 0);
    assert_eq!(scalar(0.9999999999999999).to_step_count(), 0);
    assert_eq!(scalar(1.0).to_step_count(), 1);
    assert_eq!(scalar(2.9999999999999996).to_step_count(), 2);
    assert_eq!(scalar(1234.75).to_step_count(), 1234);
    assert_eq!(scalar(4503599627370495.5).to_step_count(), 4503599627370495);
    assert_eq!(scalar(9007199254740992.0).to_step_count(), 9007199254740992);
    assert_eq!(scalar(-7.0).to_step_count(), 0);
    assert_eq!(scalar(f64::NAN).to_step_count(), 0);
    assert_eq!(scalar(f64::INFINITY).to_step_count(), usize::MAX);
    assert_eq!(scalar(1e300).to_step_count(), usize::MAX);
}

#[test]
fn step_count_over_many_magnitudes() {
    let mut x = 1.0e-3f64;
    while x < 1.0e22 {
        assert_eq!(scalar(x).to_step_count(), x.floor() as usize, "{x:?}");
        assert_eq!(scalar(-x).to_step_count(), 0, "{x:?}");
        x *= 1.37;
    }
}

#[test]
fn step_count_around_every_power_of_two() {
    for exponent in 0..70 {
        let power = f64::powi(2.0, exponent);
        for x in [
            f64::from_bits(power.to_bits() - 1),
            power,
            f64::from_bits(power.to_bits() + 1),
        ] {
            assert_eq!(scalar(x).to_step_count(), x.floor() as usize, "{x:?}");
        }
    }
}
