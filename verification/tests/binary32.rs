use vello::binary32::Binary32;

fn b(x: f32) -> Binary32 {
    Binary32::from_bits(x.to_bits())
}

fn f(x: Binary32) -> f32 {
    f32::from_bits(x.to_bits())
}

/// The same bits, or both NaN.
fn same(x: Binary32, y: f32) -> bool {
    f(x).to_bits() == y.to_bits() || (f(x).is_nan() && y.is_nan())
}

fn samples() -> Vec<f32> {
    let mut v: Vec<f32> = vec![
        0.0,
        -0.0,
        1.0,
        -1.0,
        0.1,
        0.3,
        0.5,
        0.59,
        0.95,
        1.05,
        1.5,
        2.5,
        7.6,
        8.0,
        31.0,
        1024.0,
        32768.0,
        16777215.0,
        16777216.0,
        16777217.0,
        1.0e-45,
        -1.0e-45,
        1.1754944e-38,
        1.1754942e-38,
        3.4028235e38,
        -3.4028235e38,
        f32::INFINITY,
        f32::NEG_INFINITY,
        f32::NAN,
        1.0e30,
        1.0e-30,
        3.0e-5,
    ];
    // A walk through the bit patterns.
    let mut x: u32 = 12345;
    for _ in 0..120 {
        x = x.wrapping_mul(1664525).wrapping_add(1013904223);
        v.push(f32::from_bits(x));
    }
    v
}

#[test]
fn arithmetic_is_that_of_the_hardware() {
    let v = samples();
    for &x in &v {
        for &y in &v {
            assert!(same(b(x).plus(b(y)), x + y), "{x:?} + {y:?}");
            assert!(same(b(x).minus(b(y)), x - y), "{x:?} - {y:?}");
            assert!(same(b(x).times(b(y)), x * y), "{x:?} * {y:?}");
            assert!(same(b(x).over(b(y)), x / y), "{x:?} / {y:?}");
            assert_eq!(b(x).lt(b(y)), x < y, "{x:?} < {y:?}");
            assert_eq!(b(x).le(b(y)), x <= y, "{x:?} <= {y:?}");
        }
    }
}

#[test]
fn ratios_are_the_nearest_numbers() {
    assert_eq!(f(Binary32::ratio(59, 100)), 0.59);
    assert_eq!(f(Binary32::ratio(3, 100000)), 3.0e-5);
    assert_eq!(f(Binary32::ratio(110, 100)), 1.10);
    assert_eq!(f(Binary32::ratio(0, 7)), 0.0);
    assert_eq!(f(Binary32::ratio(16777217, 1)), 16777217u64 as f32);
    assert_eq!(f(Binary32::ratio(u64::MAX, 1)), u64::MAX as f32);
    assert_eq!(f(Binary32::ratio(1, u32::MAX)), 1.0 / u32::MAX as f64 as f32);
    let mut n: u64 = 1;
    for _ in 0..60 {
        n = n.wrapping_mul(6364136223846793005).wrapping_add(1442695040888963407);
        assert_eq!(f(Binary32::ratio(n, 1)), n as f32, "{n}");
    }
}

#[test]
fn rounding_and_sign() {
    for x in samples() {
        assert!(same(b(x).round(), x.round()), "{x:?}");
        assert!(same(b(x).abs(), x.abs()), "{x:?}");
    }
    for x in [0.5f32, 1.5, 2.5, -0.5, -2.5, 0.49999997, 8388607.5, 8388609.0] {
        assert!(same(b(x).round(), x.round()), "{x:?}");
    }
}

#[test]
fn decimal_notation() {
    let mut v = samples();
    v.extend([0.05f32, 0.25, 0.75, 0.35, 1.25, 12.45, 0.15, 2.5, 3.5, 0.04, 9.95, 99.96]);
    v.extend([-0.25f32, -0.75, -0.04, -2.5]);
    for x in v {
        assert_eq!(b(x).fixed1(), format!("{x:.1}"), "{x:?}");
        assert_eq!(b(x).fixed0(), format!("{x:.0}"), "{x:?}");
    }
}

#[test]
fn bits_are_kept() {
    for x in samples() {
        assert_eq!(Binary32::from_bits(x.to_bits()).to_bits(), x.to_bits());
    }
}
