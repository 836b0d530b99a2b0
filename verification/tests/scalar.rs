use rand::rngs::StdRng;
use rand::RngCore;
use rand::SeedableRng;
use ray_tracing::scalar::Scalar;
use ray_tracing::scalar::ONE_BITS;

fn s(x: f64) -> Scalar {
    Scalar::from_bits(x.to_bits())
}

fn landmarks() -> Vec<f64> {
    vec![
        0.0,
        -0.0,
        5e-324,
        -5e-324,
        f64::MIN_POSITIVE,
        -f64::MIN_POSITIVE,
        2.2250738585072009e-308,
        0.0001,
        0.001,
        0.1,
        0.5,
        0.8,
        0.95,
        0.9999999999999999,
        1.0,
        1.0000000000000002,
        -1.0,
        1.5,
        2.0,
        -0.45,
        255.99,
        1e300,
        -1e300,
        f64::MAX,
        f64::MIN,
        f64::INFINITY,
        f64::NEG_INFINITY,
        f64::NAN,
        -f64::NAN,
    ]
}

#[test]
fn lt_agrees_with_binary64_on_landmarks() {
    let xs = landmarks();
    for &a in &xs {
        for &b in &xs {
            assert_eq!(s(a).lt(s(b)), a < b, "{:?} < {:?}", a, b);
        }
    }
}

#[test]
fn gt_agrees_with_binary64_on_landmarks() {
    let xs = landmarks();
    for &a in &xs {
        for &b in &xs {
            assert_eq!(s(a).gt(s(b)), a > b, "{:?} > {:?}", a, b);
        }
    }
}

#[test]
fn lt_agrees_with_binary64_on_random_bits() {
    let mut rng = StdRng::seed_from_u64(0x5eed);
    for _ in 0..20000 {
        let a = rng.next_u64();
        let b = rng.next_u64();
        let expected = f64::from_bits(a) < f64::from_bits(b);
        assert_eq!(Scalar::from_bits(a).lt(Scalar::from_bits(b)), expected);
    }
}

#[test]
fn lt_agrees_with_binary64_on_neighbours() {
    let mut rng = StdRng::seed_from_u64(11);
    for _ in 0..20000 {
        let a = rng.next_u64();
        for b in [a.wrapping_add(1), a.wrapping_sub(1), a ^ (1 << 63), a] {
            let expected = f64::from_bits(a) < f64::from_bits(b);
            assert_eq!(Scalar::from_bits(a).lt(Scalar::from_bits(b)), expected);
        }
    }
}

#[test]
fn is_nan_agrees_with_binary64() {
    for &a in &landmarks() {
        assert_eq!(s(a).is_nan(), a.is_nan());
    }
    assert!(Scalar::from_bits(0x7ff0_0000_0000_0001).is_nan());
    assert!(Scalar::from_bits(0xfff8_0000_0000_0000).is_nan());
    assert!(!Scalar::from_bits(0x7ff0_0000_0000_0000).is_nan());
    assert!(!Scalar::from_bits(0x7fef_ffff_ffff_ffff).is_nan());
}

#[test]
fn the_two_zeros_are_equal() {
    assert!(!s(-0.0).lt(s(0.0)));
    assert!(!s(0.0).lt(s(-0.0)));
    assert!(s(-0.0).lt(s(5e-324)));
    assert!(s(-5e-324).lt(s(0.0)));
}

#[test]
fn nan_is_never_below_nor_above() {
    for &a in &landmarks() {
        assert!(!s(f64::NAN).lt(s(a)));
        assert!(!s(a).lt(s(f64::NAN)));
        assert!(!s(f64::NAN).gt(s(a)));
        assert!(!s(a).gt(s(f64::NAN)));
    }
}

#[test]
fn infinity_is_above_every_finite_number() {
    assert!(s(f64::MAX).lt(s(f64::INFINITY)));
    assert!(s(f64::NEG_INFINITY).lt(s(f64::MIN)));
    assert!(!s(f64::INFINITY).lt(s(f64::INFINITY)));
}

#[test]
fn zero_and_one_have_their_bits() {
    assert_eq!(Scalar::zero().to_bits(), 0.0f64.to_bits());
    assert_eq!(Scalar::one().to_bits(), 1.0f64.to_bits());
    assert_eq!(ONE_BITS, 1.0f64.to_bits());
}

#[test]
fn bits_go_in_and_out_unchanged() {
    for bits in [0u64, 1, 0x3ff8_0000_0000_0000, u64::MAX] {
        assert_eq!(Scalar::from_bits(bits).to_bits(), bits);
        assert_eq!(Scalar::from_bits(bits).bits, bits);
    }
}

#[test]
fn to_i32_agrees_with_the_cast_on_landmarks() {
    for &a in &landmarks() {
        assert_eq!(s(a).to_i32(), a as i32, "{:?}", a);
    }
    for a in [
        0.5, 0.9999999999999999, 1.0, 1.5, 2.0, 2.5, 254.99, 255.99, 256.0, 4194303.9,
        2147483646.9, 2147483647.0, 2147483647.5, 2147483648.0, 4294967296.0,
    ] {
        assert_eq!(s(a).to_i32(), a as i32, "{:?}", a);
        assert_eq!(s(-a).to_i32(), (-a) as i32, "{:?}", -a);
    }
}

#[test]
fn to_i32_agrees_with_the_cast_on_random_bits() {
    let mut rng = StdRng::seed_from_u64(31);
    for _ in 0..20000 {
        let bits = rng.next_u64();
        assert_eq!(Scalar::from_bits(bits).to_i32(), f64::from_bits(bits) as i32);
    }
}

#[test]
fn to_i32_agrees_with_the_cast_near_the_integers() {
    let mut rng = StdRng::seed_from_u64(32);
    for _ in 0..20000 {
        let whole = (rng.next_u64() >> 31) as f64 - 4294967296.0;
        let part = (rng.next_u64() >> 11) as f64 / 9007199254740992.0;
        for x in [whole, whole + part, whole - part, part, -part] {
            assert_eq!(s(x).to_i32(), x as i32, "{:?}", x);
        }
    }
}

#[test]
fn to_i32_cuts_off_towards_zero() {
    assert_eq!(s(2.9).to_i32(), 2);
    assert_eq!(s(-2.9).to_i32(), -2);
    assert_eq!(s(f64::NAN).to_i32(), 0);
    assert_eq!(s(1e10).to_i32(), i32::MAX);
    assert_eq!(s(-1e10).to_i32(), i32::MIN);
}
