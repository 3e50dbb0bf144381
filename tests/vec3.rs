use raytracing::approx::{ApproxEq, EPS};
use raytracing::vec3::Vec3;

fn fx(v: f64) -> i64 {
    (v * 10000.0).round() as i64
}

fn v3(x: f64, y: f64, z: f64) -> Vec3 {
    Vec3::new(fx(x), fx(y), fx(z))
}

#[test]
fn vec3_approx_eq() {
    let small = EPS / 2;
    let big = EPS * 2;
    let c = v3(0.1, 0.2, 0.3);
    assert!(c.approx_eq(Vec3::new(fx(0.1) + small, fx(0.2) - small, fx(0.3) + small)));
    assert!(!c.approx_eq(Vec3::new(fx(0.1) + big, fx(0.2), fx(0.3))));
    assert!(!c.approx_eq(Vec3::new(fx(0.1), fx(0.2) - big, fx(0.3))));
    assert!(!c.approx_eq(Vec3::new(fx(0.1), fx(0.2), fx(0.3) + big)));
}

#[test]
fn vec3_dot() {
    let a = v3(0.5, 2.0, -0.5);
    let b = v3(2.0, -0.5, 3.0);
    assert!(a.dot(b).approx_eq(fx(-1.5)));
}

#[test]
fn vec3_ops() {
    let a = v3(0.1, 0.2, 0.3);
    let b = v3(-0.2, 0.4, -0.1);
    assert!(a.neg().approx_eq(v3(-0.1, -0.2, -0.3)));
    assert!(a.scale(fx(2.0)).approx_eq(v3(0.2, 0.4, 0.6)));
    assert!(a.scale(fx(2.0)).approx_eq(v3(0.2, 0.4, 0.6)));
    assert!(a.div(fx(2.0)).approx_eq(v3(0.05, 0.10, 0.15)));
    assert!(a.add(b).approx_eq(v3(-0.1, 0.6, 0.2)));
    assert!(a.sub(b).approx_eq(v3(0.3, -0.2, 0.4)));
}

#[test]
fn vec3_len() {
    assert!(v3(0.0, 3.0, -4.0).len().approx_eq(fx(5.0)));
}

#[test]
fn vec3_normalized() {
    assert!(v3(0.0, 3.0, -4.0).normalized().approx_eq(v3(0.0, 0.6, -0.8)));
}

#[test]
fn new_saturates_out_of_range_components() {
    let v = Vec3::new(i64::MAX, i64::MIN, 7);
    assert_eq!(v, Vec3 { x: 268435456, y: -268435456, z: 7 });
}

#[test]
fn division_rounds_down_for_both_signs() {
    let a = Vec3::new(1, -1, 3);
    assert_eq!(a.div(fx(3.0)), Vec3::new(0, -1, 1));
    assert_eq!(a.div(fx(-3.0)), Vec3::new(-1, 0, -1));
}

#[test]
fn dot_rounds_down_exactly() {
    // 0.0001 * 0.0001 is below the resolution
    assert_eq!(Vec3::new(1, 0, 0).dot(Vec3::new(1, 0, 0)), 0);
    assert_eq!(Vec3::new(-1, 0, 0).dot(Vec3::new(1, 0, 0)), -1);
    assert_eq!(v3(1.5, 0.0, 0.0).dot(v3(2.0, 1.0, 0.0)), fx(3.0));
}

#[test]
fn zero_vector_stays_zero_when_normalized() {
    let z = v3(0.0, 0.0, 0.0);
    assert_eq!(z.normalized(), z);
    assert_eq!(z.len(), 0);
}

#[test]
fn len_rounds_down() {
    // |(1, 1, 0)| = 1.41421...
    assert_eq!(v3(1.0, 1.0, 0.0).len(), 14142);
}
