//! The random source and the sampling helpers built on it.

use raytrace::rng::Rng;
use raytrace::vec3::{
    random_in_unit_disk, random_on_hemisphere, random_unit_vector, Vec3,
};

const S: i64 = 1_000_000;

#[test]
fn fixed_draws_are_midpoints() {
    assert_eq!(Rng::Fixed.next_fp(), S / 2);
    assert_eq!(Rng::Fixed.next_range(-S, S), 0);
    assert_eq!(Rng::Fixed.next_range(0, 10), 5);
}

#[test]
fn entropy_draws_stay_in_range() {
    let rng = Rng::Entropy;
    for _ in 0..1000 {
        let x = rng.next_fp();
        assert!(0 <= x && x < S);
        let y = rng.next_range(-7, 13);
        assert!(-7 <= y && y <= 13);
    }
}

#[test]
fn entropy_draws_vary() {
    // a thousand draws from the process generator cannot all agree
    let rng = Rng::Entropy;
    let first = rng.next_fp();
    let mut saw_other = false;
    for _ in 0..1000 {
        if rng.next_fp() != first {
            saw_other = true;
        }
    }
    assert!(saw_other);
}

#[test]
fn random_unit_vector_has_unit_length() {
    for rng in [Rng::Fixed, Rng::Entropy] {
        for _ in 0..100 {
            let v = random_unit_vector(&rng);
            let n2 = v.x * v.x + v.y * v.y + v.z * v.z;
            // within the library's unit tolerance
            assert!(999_800_010_000 <= n2 && n2 <= 1_000_200_010_000);
        }
    }
}

#[test]
fn random_in_unit_disk_is_planar() {
    for rng in [Rng::Fixed, Rng::Entropy] {
        for _ in 0..100 {
            let v = random_in_unit_disk(&rng);
            assert_eq!(v.z, 0);
            assert!(v.x * v.x + v.y * v.y < S * S);
        }
    }
}

#[test]
fn random_on_hemisphere_faces_normal() {
    let normal = Vec3::new(0, S, 0);
    for rng in [Rng::Fixed, Rng::Entropy] {
        for _ in 0..100 {
            let v = random_on_hemisphere(normal, &rng);
            assert!(Vec3::dot(v, normal) >= 0);
        }
    }
}

#[test]
fn random_vectors_stay_in_bounds() {
    let rng = Rng::Entropy;
    for _ in 0..100 {
        let v = Vec3::random(&rng);
        assert!(0 <= v.x && v.x < S);
        assert!(0 <= v.y && v.y < S);
        assert!(0 <= v.z && v.z < S);
        let w = Vec3::random_range(&rng, -2 * S, 3 * S);
        assert!(-2 * S <= w.x && w.x <= 3 * S);
        let d = Vec3::random_disk(&rng, -S, S);
        assert!(-S <= d.y && d.y <= S);
    }
}
