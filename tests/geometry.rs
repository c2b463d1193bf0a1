use asteroids::geometry::{cosine, dist_sq, isqrt, rotate, sine, wrap_angle, Vec2, TRIG_ONE};
use asteroids::random::pick;

#[test]
fn sine_exact_points() {
    assert_eq!(sine(0), 0);
    assert_eq!(sine(30_000), 5_000);
    assert_eq!(sine(90_000), TRIG_ONE);
    assert_eq!(sine(150_000), 5_000);
    assert_eq!(sine(270_000), -TRIG_ONE);
    assert_eq!(sine(210_000), -5_000);
}

#[test]
fn cosine_exact_points() {
    assert_eq!(cosine(0), TRIG_ONE);
    assert_eq!(cosine(60_000), 5_000);
    assert_eq!(cosine(180_000), -TRIG_ONE);
    assert_eq!(cosine(270_000), 0);
}

#[test]
fn sine_close_to_true_value() {
    for deg in 0..360 {
        let exact = (deg as f64).to_radians().sin() * 10_000.0;
        let approx = sine(deg * 1000) as f64;
        assert!((exact - approx).abs() < 20.0, "{} degrees: {} vs {}", deg, approx, exact);
    }
}

#[test]
fn wrap_angle_brings_into_turn() {
    assert_eq!(wrap_angle(-1), 359_999);
    assert_eq!(wrap_angle(360_000), 0);
    assert_eq!(wrap_angle(725_000), 5_000);
}

#[test]
fn isqrt_values() {
    assert_eq!(isqrt(0), 0);
    assert_eq!(isqrt(1), 1);
    assert_eq!(isqrt(99), 9);
    assert_eq!(isqrt(100), 10);
    assert_eq!(isqrt(u64::MAX), 4_294_967_295);
}

#[test]
fn dist_sq_value() {
    let a = Vec2 { x: 0, y: 0 };
    let b = Vec2 { x: 3_000, y: -4_000 };
    assert_eq!(dist_sq(&a, &b), 25_000_000);
}

#[test]
fn rotate_quarter_turn() {
    let v = Vec2 { x: 30_000, y: 0 };
    let r = rotate(v, cosine(90_000), sine(90_000));
    assert_eq!(r, Vec2 { x: 0, y: 30_000 });
}

#[test]
fn pick_stays_in_range_and_varies() {
    let mut seen_other = false;
    for _ in 0..200 {
        let v = pick(10, 1_000);
        assert!((10..1_000).contains(&v));
        if v != 10 {
            seen_other = true;
        }
    }
    assert!(seen_other);
}
