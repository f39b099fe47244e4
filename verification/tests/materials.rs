//! Material scattering behaviour.

use raytrace::hittable::HitRecord;
use raytrace::material::{Dielectric, Lambertian, Material, Metal};
use raytrace::ray::Ray;
use raytrace::rng::Rng;
use raytrace::vec3::Vec3;

const S: i64 = 1_000_000;

fn fp(x: f64) -> i64 {
    (x * 1_000_000.0).round() as i64
}

fn head_on_hit(material: Material) -> (Ray, HitRecord) {
    let ray = Ray::new(Vec3::new(0, 0, 0), Vec3::new(0, 0, -S));
    let outward = Vec3::new(0, 0, S);
    let rec = HitRecord::new(Vec3::new(0, 0, -S), outward, ray, fp(1.0), material);
    (ray, rec)
}

#[test]
fn lambertian_always_scatters() {
    let m = Lambertian::new(Vec3::new(fp(0.8), fp(0.2), fp(0.1)));
    let (ray, rec) = head_on_hit(Material::Lambertian(m));
    for rng in [Rng::Fixed, Rng::Entropy] {
        let s = m.scatter(ray, &rec, &rng).unwrap();
        assert_eq!(s.attenuation, Vec3::new(fp(0.8), fp(0.2), fp(0.1)));
        assert_eq!(s.ray.orig, rec.point);
    }
}

#[test]
fn lambertian_zero_direction_falls_back_to_normal() {
    let m = Lambertian::new(Vec3::new(fp(0.5), fp(0.5), fp(0.5)));
    let (_, rec) = head_on_hit(Material::Lambertian(m));
    // a sample that exactly cancels the normal must not produce a
    // degenerate zero direction
    let s = m.scatter_with(&rec, Vec3::new(0, 0, -S));
    assert_eq!(s.ray.direction, rec.normal);
}

#[test]
fn metal_always_scatters() {
    let m = Metal::new(Vec3::new(fp(0.9), fp(0.9), fp(0.9)), fp(0.3));
    let (ray, rec) = head_on_hit(Material::Metal(m));
    for rng in [Rng::Fixed, Rng::Entropy] {
        let s = m.scatter(ray, &rec, &rng).unwrap();
        assert_eq!(s.attenuation, Vec3::new(fp(0.9), fp(0.9), fp(0.9)));
        assert_eq!(s.ray.orig, rec.point);
    }
}

#[test]
fn metal_fuzz_is_clamped() {
    let albedo = Vec3::new(fp(1.0), fp(1.0), fp(1.0));
    assert_eq!(Metal::new(albedo, fp(2.0)).fuzz, fp(1.0));
    assert_eq!(Metal::new(albedo, fp(-0.5)).fuzz, 0);
    assert_eq!(Metal::new(albedo, fp(0.25)).fuzz, fp(0.25));
}

#[test]
fn metal_mirror_reflects_head_on_exactly() {
    // fuzz zero and a head-on ray: the outgoing ray is exactly
    // antiparallel to the incoming one
    let m = Metal::new(Vec3::new(fp(0.9), fp(0.9), fp(0.9)), 0);
    let (ray, rec) = head_on_hit(Material::Metal(m));
    let s = m.scatter_with(ray, &rec, Vec3::new(0, 0, S));
    assert_eq!(s.ray.direction, Vec3::new(0, 0, S));
    assert_eq!(s.ray.direction, ray.direction.neg());
}

#[test]
fn dielectric_always_scatters() {
    let m = Dielectric::new(fp(1.5));
    let (ray, rec) = head_on_hit(Material::Dielectric(m));
    for rng in [Rng::Fixed, Rng::Entropy] {
        let s = m.scatter(ray, &rec, &rng).unwrap();
        // a dielectric absorbs nothing: pure white attenuation
        assert_eq!(s.attenuation, Vec3::new(S, S, S));
        assert_eq!(s.ray.orig, rec.point);
    }
}

#[test]
fn dielectric_identity_index_head_on() {
    // index of refraction exactly one: no bending, whatever the
    // reflectance draw
    let m = Dielectric::new(fp(1.0));
    let (ray, rec) = head_on_hit(Material::Dielectric(m));
    for rand in [0, fp(0.5), fp(0.999)] {
        let s = m.scatter_with(ray, &rec, rand);
        assert_eq!(s.ray.direction, ray.direction);
    }
}

#[test]
fn dielectric_identity_index_at_angle() {
    // a 3-4-5 incidence through an index-one boundary is unchanged
    let m = Dielectric::new(fp(1.0));
    let ray = Ray::new(Vec3::new(0, 0, 0), Vec3::new(fp(0.6), 0, fp(-0.8)));
    let outward = Vec3::new(0, 0, S);
    let rec = HitRecord::new(Vec3::new(fp(0.6), 0, fp(-0.8)), outward, ray, fp(1.0), Material::Dielectric(m));
    let s = m.scatter_with(ray, &rec, fp(0.5));
    assert_eq!(s.ray.direction, ray.direction);
}

#[test]
fn dielectric_total_internal_reflection() {
    // from inside glass at a grazing angle, refraction is impossible
    // and the ray must reflect: sin(theta) * 1.5 > 1
    let m = Dielectric::new(fp(1.5));
    let dir = Vec3::new(fp(0.8), 0, fp(-0.6));
    let ray = Ray::new(Vec3::new(0, 0, 0), dir);
    // back face: the stored normal opposes the ray, refraction ratio
    // is the full index
    let outward = Vec3::new(0, 0, fp(-1.0));
    let rec = HitRecord::new(Vec3::new(fp(0.8), 0, fp(-0.6)), outward, ray, fp(1.0), Material::Dielectric(m));
    assert!(!rec.front_face);
    let s = m.scatter_with(ray, &rec, fp(0.999));
    // the reflection of (0.8, 0, -0.6) about (0, 0, 1)
    assert_eq!(s.ray.direction, Vec3::new(fp(0.8), 0, fp(0.6)));
}

#[test]
fn material_dispatch_matches_variants() {
    let l = Lambertian::new(Vec3::new(fp(0.1), fp(0.2), fp(0.3)));
    let (ray, rec) = head_on_hit(Material::Lambertian(l));
    let s = Material::Lambertian(l).scatter(ray, &rec, &Rng::Fixed).unwrap();
    let direct = l.scatter(ray, &rec, &Rng::Fixed).unwrap();
    assert_eq!(s, direct);
}
