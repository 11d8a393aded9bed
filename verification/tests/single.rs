use bevy_v4l2::{Duration, F32};

fn f(x: f32) -> F32 {
    F32 { bits: x.to_bits() }
}

/// Numbers of every kind, and pseudo-random patterns.
fn samples() -> Vec<f32> {
    let mut out = vec![
        0.0, -0.0, 1.0, -1.0, 0.5, 1.5, 2.5, -2.5, 24.0, 29.97, 30.0, 59.94, 60.0, 0.01, 1000.0,
        0.1, 1e-45, -1e-45, 1e-38, 1.1754944e-38, 1.1754942e-38, 3.4028235e38, -3.4028235e38,
        1e20, 1e-20, 16777216.0, 16777217.0, 8388608.5, 4294967296.0, 4294967040.0, 1.8446744e19,
        f32::INFINITY, f32::NEG_INFINITY, f32::NAN, 0.49999997, 4194303.5, 8388607.5,
    ];
    let mut state: u64 = 0x9e37_79b9_7f4a_7c15;
    for _ in 0..400 {
        state ^= state << 13;
        state ^= state >> 7;
        state ^= state << 17;
        out.push(f32::from_bits(state as u32));
    }
    // Numbers of similar size, so that sums cancel and round.
    for i in 0..100u32 {
        out.push(f32::from_bits(0x3f80_0000 + i * 8191));
        out.push(-f32::from_bits(0x3f80_0001 + i * 4099));
    }
    out
}

fn agree(got: F32, want: f32) -> bool {
    if want.is_nan() {
        f32::from_bits(got.bits).is_nan()
    } else {
        got.bits == want.to_bits()
    }
}

#[test]
fn sums_products_and_quotients_are_those_of_the_processor() {
    let all = samples();
    for a in &all {
        for b in &all {
            assert!(agree(f(*a).plus(&f(*b)), a + b), "{a:?} + {b:?}");
            assert!(agree(f(*a).times(&f(*b)), a * b), "{a:?} * {b:?}");
            assert!(agree(f(*a).over(&f(*b)), a / b), "{a:?} / {b:?}");
        }
    }
}

#[test]
fn differences_and_roots_are_those_of_the_processor() {
    let all = samples();
    for a in &all {
        for b in &all {
            assert!(agree(f(*a).minus(&f(*b)), a - b), "{a} - {b}");
            assert_eq!(f(*a).root_reaches(&f(*b)), a.sqrt() >= *b, "root of {a}, {b}");
        }
        // The root itself is reached, and the next larger number is not.
        let root = a.sqrt();
        if root > 0.0 && root < f32::MAX {
            assert!(f(*a).root_reaches(&f(root)));
            assert!(!f(*a).root_reaches(&f(f32::from_bits(root.to_bits() + 1))), "{a}");
        }
    }
    assert!(f(2.25).root_reaches(&f(1.5)));
    assert!(!f(2.2499998).root_reaches(&f(1.5)));
    assert!(f(-0.0).root_reaches(&f(0.0)) && !f(-1.0).root_reaches(&f(-2.0)));
}

#[test]
fn comparisons_are_those_of_the_processor() {
    let all = samples();
    for a in &all {
        assert_eq!(f(*a).is_nan(), a.is_nan());
        for b in &all {
            assert_eq!(f(*a).less(&f(*b)), a < b, "{a:?} < {b:?}");
            assert_eq!(f(*a).at_most(&f(*b)), a <= b, "{a:?} <= {b:?}");
            let larger = f32::from_bits(f(*a).larger(&f(*b)).bits);
            let want = a.max(*b);
            assert!(larger == want || (larger.is_nan() && want.is_nan()), "{a:?} max {b:?}");
        }
    }
}

#[test]
fn conversions_are_those_of_the_language() {
    for a in samples() {
        assert_eq!(f(a).rounded(), a.round() as u32, "{a:?} rounded");
    }
    let mut x: u64 = 1;
    for i in 0..64 {
        for n in [x, x - 1, x + 1, x.wrapping_mul(3), x.wrapping_mul(0x0123_4567_89ab_cdef)] {
            assert_eq!(F32::from_u64(n).bits, (n as f32).to_bits(), "{n} at {i}");
        }
        x = if i < 62 { x * 2 } else { x };
    }
    assert_eq!(F32::from_u64(u64::MAX).bits, (u64::MAX as f32).to_bits());
    assert_eq!(F32::from_u64(0).bits, 0);
}

#[test]
fn ties_go_to_even() {
    assert_eq!(F32::from_u64(16_777_217).bits, 16_777_216f32.to_bits());
    assert_eq!(F32::from_u64(16_777_219).bits, 16_777_220f32.to_bits());
}

#[test]
fn halves_round_away_from_zero() {
    assert_eq!(f(0.5).rounded(), 1);
    assert_eq!(f(2.5).rounded(), 3);
    assert_eq!(f(-0.5).rounded(), 0);
    assert_eq!(f(29.97).rounded(), 30);
}

#[test]
fn durations_in_seconds() {
    for (secs, nanos) in [
        (0, 0), (0, 1), (1, 0), (1, 1), (1, 500_000_000), (0, 999_999_999), (12, 345_678_901),
        (16_777_217, 3), (u64::MAX, 999_999_999), (1_000_000_007, 123),
    ] {
        let d = Duration::new(secs, nanos);
        let want = std::time::Duration::new(secs, nanos);
        assert_eq!(d.as_secs_f32().bits, want.as_secs_f32().to_bits(), "{secs} {nanos}");
    }
    assert_eq!(Duration::new(1, 2_500_000_000).nanos, 3_500_000_000);
    assert_eq!(Duration::from_secs(2).nanos, 2_000_000_000);
    assert_eq!(Duration::from_millis(1500).nanos, 1_500_000_000);
    assert_eq!(Duration::from_nanos(7).nanos, 7);
    assert_eq!(Duration::from_secs(1).saturating_sub(Duration::from_secs(2)).nanos, 0);
}
