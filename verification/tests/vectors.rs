//! Vector arithmetic against the fixed-point representation.

use raytrace::vec3::Vec3;

const SCALE_F: f64 = 1_000_000.0;

fn fp(x: f64) -> i64 {
    (x * SCALE_F).round() as i64
}

fn fl(r: i64) -> f64 {
    r as f64 / SCALE_F
}

fn assert_double_eq(a: f64, b: f64) {
    assert!((a - b).abs() <= 0.000001);
}

#[test]
fn init_vector() {
    let vector = Vec3::new(fp(2.0), fp(3.0), fp(4.0));
    assert_double_eq(fl(vector.x), 2.0);
    assert_double_eq(fl(vector.y), 3.0);
    assert_double_eq(fl(vector.z), 4.0);
}

#[test]
fn vector_add() {
    let v1 = Vec3::new(fp(1.0), fp(-5.0), fp(10.0));
    let v2 = Vec3::new(fp(-4.0), fp(9.0), fp(1.0));
    let v3 = v1.add(v2);
    assert_double_eq(fl(v1.x), 1.0);
    assert_double_eq(fl(v2.y), 9.0);
    assert_double_eq(fl(v3.x), -3.0);
    assert_double_eq(fl(v3.y), 4.0);
    assert_double_eq(fl(v3.z), 11.0);
}

#[test]
fn vector_mul() {
    let v1 = Vec3::new(fp(1.0), fp(2.0), fp(3.0));
    let v2 = v1.scale(fp(-4.0));
    assert_double_eq(fl(v2.x), -4.0);
    assert_double_eq(fl(v2.y), -8.0);
    assert_double_eq(fl(v2.z), -12.0);
}

#[test]
fn vector_length() {
    let v1 = Vec3::new(fp(1.0), fp(2.0), fp(3.0));
    assert_double_eq(fl(v1.length()), 3.7416573);
}

#[test]
fn vector_dot() {
    let v1 = Vec3::new(fp(1.0), fp(2.0), fp(3.0));
    let v2 = Vec3::new(fp(4.0), fp(1.0), fp(3.0));
    assert_double_eq(fl(Vec3::dot(v1, v2)), 15.0);
}

#[test]
fn vector_cross() {
    let v1 = Vec3::new(fp(3.0), fp(-3.0), fp(1.0));
    let v2 = Vec3::new(fp(4.0), fp(9.0), fp(2.0));
    let v3 = Vec3::new(fp(-15.0), fp(-2.0), fp(39.0));
    assert_eq!(Vec3::cross(v1, v2), v3);
}

#[test]
fn vector_sub_neg_div() {
    let v1 = Vec3::new(fp(5.0), fp(-2.0), fp(0.5));
    let v2 = Vec3::new(fp(1.0), fp(1.0), fp(0.25));
    let d = v1.sub(v2);
    assert_eq!(d, Vec3::new(fp(4.0), fp(-3.0), fp(0.25)));
    assert_eq!(v1.neg(), Vec3::new(fp(-5.0), fp(2.0), fp(-0.5)));
    assert_eq!(v1.div(fp(2.0)), Vec3::new(fp(2.5), fp(-1.0), fp(0.25)));
}

#[test]
fn vector_component_mul() {
    let v1 = Vec3::new(fp(0.5), fp(0.5), fp(1.0));
    let v2 = Vec3::new(fp(0.5), fp(1.0), fp(0.0));
    assert_eq!(v1.mul(v2), Vec3::new(fp(0.25), fp(0.5), fp(0.0)));
}

#[test]
fn unit_normalizes() {
    let v = Vec3::new(fp(3.0), fp(4.0), fp(0.0));
    let u = v.unit();
    assert_eq!(u, Vec3::new(fp(0.6), fp(0.8), fp(0.0)));
}

#[test]
fn near_zero_detects_zero() {
    assert!(Vec3::new(0, 0, 0).near_zero());
    assert!(!Vec3::new(1, 0, 0).near_zero());
    assert!(!Vec3::new(0, 0, -1).near_zero());
}

#[test]
fn reflect_head_on() {
    let d = Vec3::new(0, 0, -1_000_000);
    let n = Vec3::new(0, 0, 1_000_000);
    assert_eq!(raytrace::vec3::reflect(d, n), n);
}

#[test]
fn reflect_at_angle() {
    // a 3-4-5 incidence mirrors the vertical component exactly
    let d = Vec3::new(fp(0.6), fp(-0.8), 0);
    let n = Vec3::new(0, fp(1.0), 0);
    assert_eq!(raytrace::vec3::reflect(d, n), Vec3::new(fp(0.6), fp(0.8), 0));
}

#[test]
fn refract_identity_ratio() {
    // refraction ratio one leaves a 3-4-5 direction unchanged
    let d = Vec3::new(fp(0.6), 0, fp(-0.8));
    let n = Vec3::new(0, 0, fp(1.0));
    assert_eq!(raytrace::vec3::refract(d, n, fp(1.0)), d);
}
