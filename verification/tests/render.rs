//! End-to-end rendering: background gradient, camera construction,
//! quantization, depth behaviour and deterministic reruns.

use raytrace::camera::{Camera, CameraError};
use raytrace::color::write_color;
use raytrace::hittable::Hittable;
use raytrace::material::{Lambertian, Material};
use raytrace::objects::{HittableList, Sphere};
use raytrace::ray::Ray;
use raytrace::rng::Rng;
use raytrace::vec3::Vec3;

const S: i64 = 1_000_000;

fn fp(x: f64) -> i64 {
    (x * 1_000_000.0).round() as i64
}

fn ground_world() -> HittableList {
    let ground = Material::Lambertian(Lambertian::new(Vec3::new(fp(0.8), fp(0.8), 0)));
    let mut world = HittableList::new();
    world.add(Hittable::Sphere(Sphere::new(
        Vec3::new(0, fp(-1001.0), 0),
        fp(1000.0),
        ground,
    )));
    world
}

fn ray_from_origin(x: i64, y: i64, z: i64) -> Ray {
    Ray::new(Vec3::new(0, 0, 0), Vec3::new(x, y, z))
}

#[test]
fn background_straight_up_is_sky_blue() {
    let world = ground_world();
    let c = Camera::ray_color(ray_from_origin(0, S, 0), 10, &world, &Rng::Fixed);
    assert_eq!(c, Vec3::new(fp(0.5), fp(0.7), fp(1.0)));
}

#[test]
fn background_straight_down_is_white() {
    // an empty scene, so even a downward ray escapes
    let world = HittableList::new();
    let c = Camera::ray_color(ray_from_origin(0, -S, 0), 10, &world, &Rng::Fixed);
    assert_eq!(c, Vec3::new(fp(1.0), fp(1.0), fp(1.0)));
}

#[test]
fn background_horizontal_is_midpoint() {
    let world = ground_world();
    let c = Camera::ray_color(ray_from_origin(S, 0, 0), 10, &world, &Rng::Fixed);
    assert_eq!(c, Vec3::new(fp(0.75), fp(0.85), fp(1.0)));
}

#[test]
fn exhausted_depth_is_black() {
    let world = ground_world();
    let c = Camera::ray_color(ray_from_origin(0, S, 0), 0, &world, &Rng::Fixed);
    assert_eq!(c, Vec3::new(0, 0, 0));
}

#[test]
fn write_color_quantizes_with_gamma() {
    // 0.25 averaged over one sample, gamma-corrected to 0.5,
    // scaled to 128; a full channel clamps at 0.999 and lands on 255
    let c = Vec3::new(fp(0.25), fp(1.0), 0);
    assert_eq!(write_color(c, 1), (128, 255, 0));
    // averaging over four samples of the same sum quarters the value
    let c4 = Vec3::new(fp(1.0), fp(4.0), 0);
    assert_eq!(write_color(c4, 4), (128, 255, 0));
}

fn test_camera(samples: i32, depth: i32) -> Camera {
    Camera::new(
        fp(2.0),
        4,
        fp(0.5),
        samples,
        depth,
        Vec3::new(0, 0, 0),
        Vec3::new(0, 0, fp(-1.0)),
        Vec3::new(0, fp(1.0), 0),
        0,
        fp(1.0),
    )
    .unwrap()
}

#[test]
fn camera_rejects_bad_configurations() {
    let lookfrom = Vec3::new(0, 0, 0);
    let lookat = Vec3::new(0, 0, fp(-1.0));
    let vup = Vec3::new(0, fp(1.0), 0);
    let err = Camera::new(fp(2.0), 0, fp(0.5), 10, 10, lookfrom, lookat, vup, 0, fp(1.0));
    assert_eq!(err.unwrap_err(), CameraError::InvalidImage);
    let err = Camera::new(fp(2.0), 4, fp(0.5), 0, 10, lookfrom, lookat, vup, 0, fp(1.0));
    assert_eq!(err.unwrap_err(), CameraError::InvalidSamples);
    let err = Camera::new(fp(2.0), 4, fp(0.5), 10, 10, lookfrom, lookfrom, vup, 0, fp(1.0));
    assert_eq!(err.unwrap_err(), CameraError::DegenerateOrientation);
    // an up vector parallel to the viewing direction spans no basis
    let err = Camera::new(
        fp(2.0),
        4,
        fp(0.5),
        10,
        10,
        lookfrom,
        lookat,
        Vec3::new(0, 0, fp(1.0)),
        0,
        fp(1.0),
    );
    assert_eq!(err.unwrap_err(), CameraError::DegenerateOrientation);
}

#[test]
fn camera_derives_height_from_aspect() {
    let cam = test_camera(1, 2);
    assert_eq!(cam.image_width, 4);
    assert_eq!(cam.image_height, 2);
}

#[test]
fn render_dimensions_are_raster_order() {
    let cam = test_camera(1, 2);
    let world = ground_world();
    let img = cam.render(&world, &Rng::Fixed);
    assert_eq!(img.len(), 2);
    for row in &img {
        assert_eq!(row.len(), 4);
    }
}

fn image_energy(img: &Vec<Vec<(u8, u8, u8)>>) -> u64 {
    let mut sum: u64 = 0;
    for row in img {
        for px in row {
            sum += px.0 as u64 + px.1 as u64 + px.2 as u64;
        }
    }
    sum
}

#[test]
fn deeper_recursion_gathers_more_light() {
    // a diffuse sphere lit only by the background: with a single
    // bounce every hit is terminated at black, with more bounces the
    // scattered rays reach the sky
    let m = Material::Lambertian(Lambertian::new(Vec3::new(fp(0.5), fp(0.5), fp(0.5))));
    let mut world = HittableList::new();
    world.add(Hittable::Sphere(Sphere::new(Vec3::new(0, 0, fp(-2.0)), fp(1.0), m)));
    let shallow = test_camera(1, 1).render(&world, &Rng::Fixed);
    let deep = test_camera(1, 3).render(&world, &Rng::Fixed);
    assert!(image_energy(&shallow) < image_energy(&deep));
}

#[test]
fn fixed_policy_render_is_reproducible() {
    let m = Material::Lambertian(Lambertian::new(Vec3::new(fp(0.5), fp(0.5), fp(0.5))));
    let mut world = HittableList::new();
    world.add(Hittable::Sphere(Sphere::new(Vec3::new(0, 0, fp(-2.0)), fp(1.0), m)));
    let cam = test_camera(2, 4);
    let first = cam.render(&world, &Rng::Fixed);
    let second = cam.render(&world, &Rng::Fixed);
    assert_eq!(first, second);
}

#[test]
fn render_row_matches_render() {
    let cam = test_camera(1, 2);
    let world = ground_world();
    let img = cam.render(&world, &Rng::Fixed);
    for i in 0..cam.image_height {
        let row = cam.render_row(&world, i, &Rng::Fixed);
        assert_eq!(row, img[i as usize]);
    }
}

#[test]
fn fixed_rays_start_at_center_and_repeat() {
    let cam = test_camera(1, 2);
    let r1 = cam.get_ray(0, 0, &Rng::Fixed);
    let r2 = cam.get_ray(0, 0, &Rng::Fixed);
    assert_eq!(r1, r2);
    assert_eq!(r1.orig, Vec3::new(0, 0, 0));
    let other = cam.get_ray(1, 3, &Rng::Fixed);
    assert_ne!(r1.direction, other.direction);
}

#[test]
fn jittered_rays_vary() {
    let cam = test_camera(1, 2);
    let first = cam.get_ray(0, 0, &Rng::Entropy);
    let mut saw_other = false;
    for _ in 0..50 {
        if cam.get_ray(0, 0, &Rng::Entropy) != first {
            saw_other = true;
        }
    }
    assert!(saw_other);
}

#[test]
fn background_is_draw_independent() {
    // a miss and an exhausted budget do not consult the draw policy
    let world = ground_world();
    for rng in [Rng::Fixed, Rng::Entropy] {
        let up = Camera::ray_color(ray_from_origin(0, S, 0), 10, &world, &rng);
        assert_eq!(up, Vec3::new(fp(0.5), fp(0.7), fp(1.0)));
        let spent = Camera::ray_color(ray_from_origin(0, S, 0), 0, &world, &rng);
        assert_eq!(spent, Vec3::new(0, 0, 0));
    }
}

#[test]
fn defocus_origin_stays_on_disk() {
    let cam = Camera::new(
        fp(2.0),
        4,
        fp(0.5),
        1,
        2,
        Vec3::new(0, 0, 0),
        Vec3::new(0, 0, fp(-1.0)),
        Vec3::new(0, fp(1.0), 0),
        fp(0.2),
        fp(1.0),
    )
    .unwrap();
    // the defocus radius is 0.2, so a sampled origin stays within
    // 0.4 of the center in every coordinate
    for _ in 0..50 {
        let r = cam.get_ray(0, 0, &Rng::Entropy);
        assert!(r.orig.x.abs() <= fp(0.4) + 2);
        assert!(r.orig.y.abs() <= fp(0.4) + 2);
        assert!(r.orig.z.abs() <= fp(0.4) + 2);
    }
    // with the deterministic policy the disk sample is the center
    let r = cam.get_ray(0, 0, &Rng::Fixed);
    assert_eq!(r.orig, Vec3::new(0, 0, 0));
}
