use matrix_engine::Scalar;

fn num(v: f64) -> Scalar {
    Scalar::from_bits(v.to_bits())
}

fn val(s: Scalar) -> f64 {
    f64::from_bits(s.to_bits())
}

const SAMPLES: [f64; 14] = [
    0.0,
    -0.0,
    1.0,
    -1.0,
    0.1,
    0.2,
    3.0,
    49.0,
    -7.25,
    1.0e-310,
    1.7976931348623157e308,
    2.2250738585072014e-308,
    f64::INFINITY,
    f64::NEG_INFINITY,
];

#[test]
fn sum_is_the_rounded_sum() {
    assert_eq!(num(1.5).plus(num(2.25)).to_bits(), 3.75f64.to_bits());
    assert_eq!(num(0.1).plus(num(0.2)).to_bits(), 0.30000000000000004f64.to_bits());
    for a in SAMPLES {
        for b in SAMPLES {
            let got = val(num(a).plus(num(b)));
            let want = a + b;
            assert!(got.to_bits() == want.to_bits() || (got.is_nan() && want.is_nan()));
        }
    }
}

#[test]
fn difference_is_the_rounded_difference() {
    assert_eq!(num(1.5).minus(num(2.25)).to_bits(), (-0.75f64).to_bits());
    for a in SAMPLES {
        for b in SAMPLES {
            let got = val(num(a).minus(num(b)));
            let want = a - b;
            assert!(got.to_bits() == want.to_bits() || (got.is_nan() && want.is_nan()));
        }
    }
}

#[test]
fn product_is_the_rounded_product() {
    assert_eq!(num(1.5).times(num(2.25)).to_bits(), 3.375f64.to_bits());
    assert_eq!(num(0.1).times(num(3.0)).to_bits(), 0.30000000000000004f64.to_bits());
    for a in SAMPLES {
        for b in SAMPLES {
            let got = val(num(a).times(num(b)));
            let want = a * b;
            assert!(got.to_bits() == want.to_bits() || (got.is_nan() && want.is_nan()));
        }
    }
}

#[test]
fn quotient_is_the_rounded_quotient() {
    assert_eq!(num(1.0).over(num(4.0)).to_bits(), 0.25f64.to_bits());
    assert_eq!(num(1.0).over(num(3.0)).to_bits(), 0.3333333333333333f64.to_bits());
    for a in SAMPLES {
        for b in SAMPLES {
            let got = val(num(a).over(num(b)));
            let want = a / b;
            assert!(got.to_bits() == want.to_bits() || (got.is_nan() && want.is_nan()));
        }
    }
}

#[test]
fn division_by_zero_is_not_an_error() {
    assert_eq!(val(num(1.0).over(num(0.0))), f64::INFINITY);
    assert_eq!(val(num(-1.0).over(num(0.0))), f64::NEG_INFINITY);
    assert!(val(num(0.0).over(num(0.0))).is_nan());
    assert!(num(0.0).over(num(0.0)).is_nan());
}

#[test]
fn reciprocal_of_forty_nine_does_not_round_trip() {
    let back = num(49.0).times(num(1.0).over(num(49.0)));
    assert_eq!(back.to_bits(), (49.0f64 * (1.0f64 / 49.0f64)).to_bits());
    assert_eq!(val(back), 0.9999999999999999);
}

#[test]
fn negate_flips_the_sign_bit() {
    assert_eq!(val(num(2.5).negate()), -2.5);
    assert_eq!(val(num(-2.5).negate()), 2.5);
    assert_eq!(num(0.0).negate().to_bits(), (-0.0f64).to_bits());
    assert_eq!(num(-0.0).negate().to_bits(), 0.0f64.to_bits());
    assert_eq!(val(num(f64::INFINITY).negate()), f64::NEG_INFINITY);
    for a in SAMPLES {
        assert_eq!(num(a).negate().to_bits(), (-a).to_bits());
        assert_eq!(num(a).negate().negate().to_bits(), a.to_bits());
    }
}

#[test]
fn zero_and_one_have_the_expected_encodings() {
    assert_eq!(Scalar::zero().to_bits(), 0.0f64.to_bits());
    assert_eq!(Scalar::one().to_bits(), 1.0f64.to_bits());
    assert_eq!(Scalar::from_bits(7).to_bits(), 7);
}

#[test]
fn is_zero_accepts_both_zeros_only() {
    assert!(num(0.0).is_zero());
    assert!(num(-0.0).is_zero());
    assert!(!num(1.0).is_zero());
    assert!(!num(5e-324).is_zero());
    assert!(!num(f64::NAN).is_zero());
    assert!(!num(f64::INFINITY).is_zero());
}

#[test]
fn is_nan_accepts_every_nan_only() {
    assert!(num(f64::NAN).is_nan());
    assert!(num(-f64::NAN).is_nan());
    assert!(Scalar::from_bits(0x7ff0_0000_0000_0001).is_nan());
    assert!(Scalar::from_bits(0xfff8_0000_0000_0000).is_nan());
    assert!(!num(f64::INFINITY).is_nan());
    assert!(!num(f64::NEG_INFINITY).is_nan());
    assert!(!num(0.0).is_nan());
    assert!(!num(1.7976931348623157e308).is_nan());
}

#[test]
fn equality_is_numeric() {
    assert_eq!(num(0.0), num(-0.0));
    assert_eq!(num(1.5), num(1.5));
    assert_ne!(num(1.5), num(-1.5));
    assert_ne!(num(f64::NAN), num(f64::NAN));
    assert_ne!(num(f64::NAN), num(0.0));
    for a in SAMPLES {
        for b in SAMPLES {
            assert_eq!(num(a) == num(b), a == b);
        }
    }
}
