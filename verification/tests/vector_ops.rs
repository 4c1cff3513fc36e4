//! Exact-value tests for the fixed-point vector operations.

use flocking::vec2::{limit_magnitude, set_magnitude, Vec2};

#[test]
fn set_magnitude_exact_on_pythagorean_vector() {
    // |(3000, 4000)| = 5000 exactly, so rescaling to 1000 is exact.
    let r = set_magnitude(Vec2 { x: 3000, y: 4000 }, 1000);
    assert_eq!(r, Vec2 { x: 600, y: 800 });
}

#[test]
fn set_magnitude_keeps_signs() {
    let r = set_magnitude(Vec2 { x: -3000, y: 4000 }, 1000);
    assert_eq!(r, Vec2 { x: -600, y: 800 });
    let r = set_magnitude(Vec2 { x: -3000, y: -4000 }, 1000);
    assert_eq!(r, Vec2 { x: -600, y: -800 });
}

#[test]
fn set_magnitude_rounds_toward_zero() {
    // |(1, 1)|^2 = 2, ceiling square root 2: each coordinate becomes
    // 1 * 1000 / 2 = 500.
    let r = set_magnitude(Vec2 { x: 1, y: 1 }, 1000);
    assert_eq!(r, Vec2 { x: 500, y: 500 });
}

#[test]
fn set_magnitude_never_exceeds_target() {
    let cases = [
        Vec2 { x: 1, y: 1 },
        Vec2 { x: 7, y: -13 },
        Vec2 { x: -12345, y: 999 },
        Vec2 { x: 1_000_000, y: 1 },
    ];
    for v in cases {
        let r = set_magnitude(v, 777);
        assert!(r.x * r.x + r.y * r.y <= 777 * 777);
    }
}

#[test]
fn limit_magnitude_leaves_short_vectors_alone() {
    let v = Vec2 { x: 30, y: 40 };
    assert_eq!(limit_magnitude(v, 1000), v);
    // Exactly at the cap: |(600, 800)| = 1000.
    let v = Vec2 { x: 600, y: 800 };
    assert_eq!(limit_magnitude(v, 1000), v);
}

#[test]
fn limit_magnitude_rescales_long_vectors() {
    let r = limit_magnitude(Vec2 { x: 3000, y: 4000 }, 1000);
    assert_eq!(r, Vec2 { x: 600, y: 800 });
    assert_eq!(r.x * r.x + r.y * r.y, 1000 * 1000);
}

#[test]
fn limit_magnitude_zero_vector_is_fixed_point() {
    let r = limit_magnitude(Vec2 { x: 0, y: 0 }, 123);
    assert_eq!(r, Vec2 { x: 0, y: 0 });
}
