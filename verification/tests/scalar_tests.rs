use raytracer_weekend_lib::scalar::Scalar;

fn s(x: f32) -> Scalar {
    Scalar::from_bits(x.to_bits())
}

fn samples() -> Vec<f32> {
    vec![
        0.0,
        -0.0,
        1.0,
        -1.0,
        0.001,
        -0.001,
        1.5,
        -2.25,
        3.0e38,
        -3.0e38,
        1.0e-45,
        -1.0e-45,
        f32::MIN_POSITIVE,
        f32::MAX,
        f32::MIN,
        f32::INFINITY,
        f32::NEG_INFINITY,
        f32::NAN,
        -f32::NAN,
    ]
}

#[test]
fn comparisons_agree_with_the_hardware() {
    for a in samples() {
        for b in samples() {
            assert_eq!(s(a).lt(s(b)), a < b, "{} < {}", a, b);
            assert_eq!(s(a).le(s(b)), a <= b, "{} <= {}", a, b);
            assert_eq!(s(a).gt(s(b)), a > b, "{} > {}", a, b);
            assert_eq!(s(a).ge(s(b)), a >= b, "{} >= {}", a, b);
            assert_eq!(s(a).eq_value(s(b)), a == b, "{} == {}", a, b);
        }
    }
}

#[test]
fn nan_is_recognised() {
    for a in samples() {
        assert_eq!(s(a).is_nan(), a.is_nan());
        assert_eq!(s(a).is_sign_negative(), a.is_sign_negative());
    }
}

#[test]
fn min_and_max_agree_with_the_hardware() {
    for a in samples() {
        for b in samples() {
            if a.is_nan() && b.is_nan() {
                assert!(s(a).min(s(b)).is_nan());
                assert!(s(a).max(s(b)).is_nan());
            } else if a == 0.0 && b == 0.0 {
                assert_eq!(f32::from_bits(s(a).min(s(b)).to_bits()), 0.0);
                assert_eq!(f32::from_bits(s(a).max(s(b)).to_bits()), 0.0);
            } else {
                assert_eq!(s(a).min(s(b)).to_bits(), a.min(b).to_bits(), "min {} {}", a, b);
                assert_eq!(s(a).max(s(b)).to_bits(), a.max(b).to_bits(), "max {} {}", a, b);
            }
        }
    }
}

#[test]
fn of_the_two_zeros_the_negative_one_is_the_smaller() {
    assert_eq!(s(0.0).min(s(-0.0)).to_bits(), (-0.0f32).to_bits());
    assert_eq!(s(-0.0).min(s(0.0)).to_bits(), (-0.0f32).to_bits());
    assert_eq!(s(0.0).max(s(-0.0)).to_bits(), 0.0f32.to_bits());
    assert_eq!(s(-0.0).max(s(0.0)).to_bits(), 0.0f32.to_bits());
}

#[test]
fn negation_and_absolute_value_agree_with_the_hardware() {
    for a in samples() {
        assert_eq!(s(a).neg().to_bits(), (-a).to_bits());
        assert_eq!(s(a).abs().to_bits(), a.abs().to_bits());
    }
}

#[test]
fn constants_are_what_they_say() {
    assert_eq!(f32::from_bits(Scalar::zero().to_bits()), 0.0);
    assert!(!Scalar::zero().is_sign_negative());
    assert_eq!(f32::from_bits(Scalar::one().to_bits()), 1.0);
    assert_eq!(f32::from_bits(Scalar::infinity().to_bits()), f32::INFINITY);
    assert_eq!(f32::from_bits(Scalar::neg_infinity().to_bits()), f32::NEG_INFINITY);
}

#[test]
fn equality_of_scalars_is_equality_of_bits() {
    assert_ne!(s(0.0), s(-0.0));
    assert_eq!(s(f32::NAN), s(f32::NAN));
    assert!(!s(f32::NAN).eq_value(s(f32::NAN)));
    assert!(s(0.0).eq_value(s(-0.0)));
}
