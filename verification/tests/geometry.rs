//! Sphere intersection, hit records, intervals, and the aggregate.

use raytrace::hittable::{HitRecord, Hittable};
use raytrace::interval::Interval;
use raytrace::material::{Lambertian, Material};
use raytrace::objects::{HittableList, Sphere};
use raytrace::ray::Ray;
use raytrace::vec3::Vec3;

const S: i64 = 1_000_000;

fn fp(x: f64) -> i64 {
    (x * 1_000_000.0).round() as i64
}

fn gray() -> Material {
    Material::Lambertian(Lambertian::new(Vec3::new(fp(0.5), fp(0.5), fp(0.5))))
}

fn unit_sphere_at(z: f64) -> Sphere {
    Sphere::new(Vec3::new(0, 0, fp(z)), fp(1.0), gray())
}

#[test]
fn interval_contains_and_surrounds() {
    let iv = Interval::new(fp(1.0), fp(3.0));
    assert!(iv.contains(fp(1.0)));
    assert!(iv.contains(fp(3.0)));
    assert!(iv.contains(fp(2.0)));
    assert!(!iv.contains(fp(0.5)));
    assert!(!iv.surrounds(fp(1.0)));
    assert!(!iv.surrounds(fp(3.0)));
    assert!(iv.surrounds(fp(2.0)));
}

#[test]
fn sphere_hit_reports_exact_parameter() {
    let s = unit_sphere_at(-2.0);
    let ray = Ray::new(Vec3::new(0, 0, 0), Vec3::new(0, 0, -S));
    let hit = s.hit(ray, Interval::new(fp(0.001), i64::MAX)).unwrap();
    assert_eq!(hit.t, fp(1.0));
    assert_eq!(hit.point, Vec3::new(0, 0, fp(-1.0)));
    assert_eq!(hit.normal, Vec3::new(0, 0, fp(1.0)));
    assert!(hit.front_face);
}

#[test]
fn sphere_normal_faces_ray_and_is_unit() {
    // a ray from inside the sphere strikes the back face; the stored
    // normal is flipped to oppose the ray and stays unit length
    let s = unit_sphere_at(0.0);
    let ray = Ray::new(Vec3::new(0, 0, 0), Vec3::new(0, 0, -S));
    let hit = s.hit(ray, Interval::new(fp(0.001), i64::MAX)).unwrap();
    assert!(!hit.front_face);
    assert_eq!(hit.normal, Vec3::new(0, 0, S));
    let n2 = hit.normal.x * hit.normal.x + hit.normal.y * hit.normal.y
        + hit.normal.z * hit.normal.z;
    assert!((n2 - S * S).abs() <= 2 * 100 * S + 100 * 100);
    assert!(Vec3::dot(ray.direction, hit.normal) <= 0);
}

#[test]
fn sphere_hit_respects_interval_strictly() {
    let s = unit_sphere_at(-2.0);
    let ray = Ray::new(Vec3::new(0, 0, 0), Vec3::new(0, 0, -S));
    // both roots are 1 and 3; an interval ending exactly at a root
    // must treat it as a miss
    assert!(s.hit(ray, Interval::new(fp(1.5), fp(3.0))).is_none());
    assert!(s.hit(ray, Interval::new(fp(1.0), fp(1.5))).is_none());
    // strictly inside bounds are accepted
    let h = s.hit(ray, Interval::new(fp(0.5), fp(1.5))).unwrap();
    assert_eq!(h.t, fp(1.0));
    // when the nearer root is excluded, the farther one is reported
    let h2 = s.hit(ray, Interval::new(fp(1.5), fp(3.5))).unwrap();
    assert_eq!(h2.t, fp(3.0));
}

#[test]
fn sphere_miss_returns_none() {
    let s = unit_sphere_at(-2.0);
    let ray = Ray::new(Vec3::new(0, 0, 0), Vec3::new(0, S, 0));
    assert!(s.hit(ray, Interval::new(fp(0.001), i64::MAX)).is_none());
}

#[test]
fn negative_radius_flips_normal() {
    let s = Sphere::new(Vec3::new(0, 0, fp(-2.0)), fp(-1.0), gray());
    let ray = Ray::new(Vec3::new(0, 0, 0), Vec3::new(0, 0, -S));
    let hit = s.hit(ray, Interval::new(fp(0.001), i64::MAX)).unwrap();
    assert_eq!(hit.t, fp(1.0));
    // the geometric outward normal points inward, so the ray strikes
    // the "back" face and the stored normal still opposes the ray
    assert!(!hit.front_face);
    assert_eq!(hit.normal, Vec3::new(0, 0, fp(1.0)));
}

#[test]
fn sphere_translation_equivalence() {
    let center = Vec3::new(fp(3.0), fp(-1.0), fp(-5.0));
    let s = Sphere::new(center, fp(1.0), gray());
    let orig = Vec3::new(fp(3.0), fp(-1.0), 0);
    let ray = Ray::new(orig, Vec3::new(0, 0, -S));
    let translated_ray = Ray::new(orig.sub(center), Vec3::new(0, 0, -S));
    let origin_sphere = Sphere::new(Vec3::new(0, 0, 0), fp(1.0), gray());
    let iv = Interval::new(fp(0.001), i64::MAX);
    let h1 = s.hit(ray, iv).unwrap();
    let h2 = origin_sphere.hit(translated_ray, iv).unwrap();
    assert_eq!(h1.t, h2.t);
    assert_eq!(h1.normal, h2.normal);
    assert_eq!(h1.front_face, h2.front_face);
    assert_eq!(h1.point, h2.point.add(center));
}

#[test]
fn hit_record_orients_normal() {
    let ray = Ray::new(Vec3::new(0, 0, 0), Vec3::new(0, 0, -S));
    let outward = Vec3::new(0, 0, S);
    let rec = HitRecord::new(Vec3::new(0, 0, -S), outward, ray, fp(1.0), gray());
    assert!(rec.front_face);
    assert_eq!(rec.normal, outward);
    let outward_flipped = Vec3::new(0, 0, -S);
    let rec2 = HitRecord::new(Vec3::new(0, 0, -S), outward_flipped, ray, fp(1.0), gray());
    assert!(!rec2.front_face);
    assert_eq!(rec2.normal, Vec3::new(0, 0, S));
}

#[test]
fn aggregate_returns_nearest_hit() {
    let near = unit_sphere_at(-2.0);
    let far = unit_sphere_at(-3.0);
    let ray = Ray::new(Vec3::new(0, 0, 0), Vec3::new(0, 0, -S));
    let iv = Interval::new(fp(0.001), i64::MAX);
    let near_t = near.hit(ray, iv).unwrap().t;
    let far_t = far.hit(ray, iv).unwrap().t;
    assert!(near_t < far_t);

    let mut world = HittableList::new();
    world.add(Hittable::Sphere(far));
    world.add(Hittable::Sphere(near));
    let h = world.hit(ray, iv).unwrap();
    assert_eq!(h.t, near_t);

    let mut world2 = HittableList::new();
    world2.add(Hittable::Sphere(near));
    world2.add(Hittable::Sphere(far));
    let h2 = world2.hit(ray, iv).unwrap();
    assert_eq!(h2.t, near_t);
}

#[test]
fn aggregate_empty_and_clear() {
    let ray = Ray::new(Vec3::new(0, 0, 0), Vec3::new(0, 0, -S));
    let iv = Interval::new(fp(0.001), i64::MAX);
    let mut world = HittableList::new();
    assert!(world.hit(ray, iv).is_none());
    world.add(Hittable::Sphere(unit_sphere_at(-2.0)));
    assert!(world.hit(ray, iv).is_some());
    world.clear();
    assert!(world.hit(ray, iv).is_none());
}

#[test]
fn ray_at_evaluates_exactly() {
    let ray = Ray::new(Vec3::new(fp(1.0), fp(2.0), fp(3.0)), Vec3::new(fp(0.5), 0, fp(-1.0)));
    assert_eq!(ray.at(fp(2.0)), Vec3::new(fp(2.0), fp(2.0), fp(1.0)));
}
