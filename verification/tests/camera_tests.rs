use raytracer::camera::Camera;
use raytracer::color::{channel_value, channel_values, screen_coordinate};
use raytracer::ray::Ray;
use raytracer::scalar::{count, greater, large_number, lesser, number, wide_number};
use raytracer::vec3::{random_in_hemisphere, Color, Point3, Vec3};

fn pinhole() -> Camera<f64> {
    Camera::new(
        1.,
        1.,
        0.,
        1.,
        Point3::new(0., 0., 0.),
        Point3::new(0., 0., -1.),
        Vec3::new(0., 1., 0.),
        f64::sqrt,
    )
}

#[test]
fn camera_aims_through_its_window() {
    let cam = pinhole();
    let lens = Vec3::new(0.5, -0.25, 0.);
    assert_eq!(cam.get_ray(0.5, 0.5, lens), Ray::new(Point3::new(0., 0., 0.), Vec3::new(0., 0., -1.)));
    assert_eq!(cam.get_ray(0., 0., lens).dir(), Vec3::new(-1., -1., -1.));
    assert_eq!(cam.get_ray(1., 0., lens).dir(), Vec3::new(1., -1., -1.));
    assert_eq!(cam.get_ray(0., 1., lens).dir(), Vec3::new(-1., 1., -1.));
    assert_eq!(cam.get_ray(1., 1., lens).dir(), Vec3::new(1., 1., -1.));
}

#[test]
fn camera_window_grows_with_the_aspect_ratio_and_the_focus_distance() {
    let cam = Camera::new(
        2.,
        0.5,
        0.,
        10.,
        Point3::new(0., 0., 0.),
        Point3::new(0., 0., -4.),
        Vec3::new(0., 3., 0.),
        f64::sqrt,
    );
    let lens = Vec3::new(0., 0., 0.);
    assert_eq!(cam.get_ray(0., 0., lens).dir(), Vec3::new(-10., -5., -10.));
    assert_eq!(cam.get_ray(1., 1., lens).dir(), Vec3::new(10., 5., -10.));
    assert_eq!(cam.get_ray(0.5, 0.5, lens).dir(), Vec3::new(0., 0., -10.));
}

#[test]
fn camera_lens_moves_the_origin_and_keeps_the_target() {
    let cam = Camera::new(
        1.,
        1.,
        2.,
        1.,
        Point3::new(0., 0., 0.),
        Point3::new(0., 0., -1.),
        Vec3::new(0., 1., 0.),
        f64::sqrt,
    );
    let ray = cam.get_ray(0.5, 0.5, Vec3::new(0.5, 0.25, 0.));
    assert_eq!(ray.orig(), Point3::new(0.5, 0.25, 0.));
    assert_eq!(ray.dir(), Vec3::new(-0.5, -0.25, -1.));
    assert_eq!(ray.at(1.), Point3::new(0., 0., -1.));
    let other = cam.get_ray(0.5, 0.5, Vec3::new(-1., 0., 0.));
    assert_eq!(other.orig(), Point3::new(-1., 0., 0.));
    assert_eq!(other.at(1.), Point3::new(0., 0., -1.));
}

#[test]
fn camera_follows_its_eye() {
    let cam = Camera::new(
        1.,
        1.,
        0.,
        2.,
        Point3::new(3., 0., 0.),
        Point3::new(0., 0., 0.),
        Vec3::new(0., 1., 0.),
        f64::sqrt,
    );
    let lens = Vec3::new(0., 0., 0.);
    let centre = cam.get_ray(0.5, 0.5, lens);
    assert_eq!(centre.orig(), Point3::new(3., 0., 0.));
    assert_eq!(centre.dir(), Vec3::new(-2., 0., 0.));
    assert_eq!(cam.get_ray(1., 0.5, lens).dir(), Vec3::new(-2., 0., -2.));
    assert_eq!(cam.get_ray(0.5, 1., lens).dir(), Vec3::new(-2., 2., 0.));
}

#[test]
fn channel_values_of_a_pixel() {
    let out = channel_values(Color::new(1., 4., 0.25), 1, f64::sqrt);
    assert_eq!(out, Vec3::new(256. * 0.999, 256. * 0.999, 128.));
    let mean = channel_values(Color::new(1., 0., 9.), 4, f64::sqrt);
    assert_eq!(mean, Vec3::new(128., 0., 256. * 0.999));
    let p = Color::new(1. / 255., 2. / 255., 0.25);
    let faint = channel_values(p, 100, f64::sqrt);
    let scale: f64 = 1. / 100.;
    assert_eq!(faint.x(), 256. * (1. / 255. * scale).sqrt());
    assert_eq!(faint.y(), 256. * (2. / 255. * scale).sqrt());
    assert_eq!(faint.z(), 256. * (0.25 * scale).sqrt());
    for c in [faint.x(), faint.y(), faint.z(), out.x(), mean.y()] {
        assert!((0. ..256.).contains(&c));
    }
}

#[test]
fn test_write() {
    let p = Color::new(1. / 255., 2. / 255., 0.25);
    let values = channel_values(p, 100, f64::sqrt);
    println!("{} {} {}", values.x() as u32, values.y() as u32, values.z() as u32);
    assert_eq!((values.x() as u32, values.y() as u32, values.z() as u32), (1, 2, 12));
}

#[test]
fn channel_value_is_limited_on_both_sides() {
    assert_eq!(channel_value(0., 1., f64::sqrt), 0.);
    assert_eq!(channel_value(0.25, 1., f64::sqrt), 128.);
    assert_eq!(channel_value(100., 1., f64::sqrt), 256. * 0.999);
    assert_eq!(channel_value(0.998001, 1., f64::sqrt), 256. * 0.998001f64.sqrt());
    assert!(channel_value(100., 1., f64::sqrt) < 256.);
    assert_eq!((channel_value(100., 1., f64::sqrt) as f64).trunc(), 255.);
}

#[test]
fn screen_coordinate_runs_from_zero_to_one() {
    assert_eq!(screen_coordinate(0, 0., 512), 0.);
    assert_eq!(screen_coordinate(511, 0., 512), 1.);
    assert_eq!(screen_coordinate(255, 0.5, 512), 255.5 / 511.);
    assert_eq!(screen_coordinate(3, 0.25, 5), 3.25 / 4.);
}

#[test]
fn numbers_become_scalars() {
    let a: f64 = number(7);
    let b: f64 = wide_number(1000);
    let c: f64 = count(4_000_000_000);
    let d: i64 = number(-3);
    let e: f64 = large_number(100_000_000);
    assert_eq!((a, b, c, d, e), (7., 1000., 4e9, -3, 1e8));
}

#[test]
fn lesser_and_greater() {
    assert_eq!(lesser(1., 2.), 1.);
    assert_eq!(lesser(2., 1.), 1.);
    assert_eq!(greater(1., 2.), 2.);
    assert_eq!(greater(2., 1.), 2.);
    assert_eq!(lesser(f64::NAN, 1.), 1.);
    assert_eq!(greater(f64::NAN, 0.), 0.);
    assert_eq!(lesser(3, 3), 3);
    assert_eq!(greater(-4, 9), 9);
}

#[test]
fn in_unit_sphere_is_strict() {
    assert!(Vec3::new(0., 0., 0.).in_unit_sphere());
    assert!(Vec3::new(0.5, 0.5, 0.5).in_unit_sphere());
    assert!(Vec3::new(-0.9, 0.1, 0.).in_unit_sphere());
    assert!(!Vec3::new(1., 0., 0.).in_unit_sphere());
    assert!(!Vec3::new(0., -1., 0.).in_unit_sphere());
    assert!(!Vec3::new(0.75, 0.75, 0.).in_unit_sphere());
    assert!(!Vec3::new(f64::NAN, 0., 0.).in_unit_sphere());
}

#[test]
fn rejection_sampling_keeps_points_inside_the_unit_ball() {
    let mut state: u64 = 0x2545F4914F6CDD1D;
    let mut next = move || {
        state ^= state << 13;
        state ^= state >> 7;
        state ^= state << 17;
        (state >> 11) as f64 / (1u64 << 53) as f64 * 2. - 1.
    };
    let mut kept = 0;
    let mut dropped = 0;
    for _ in 0..2000 {
        let ball = Vec3::new(next(), next(), next());
        let disk = Vec3::new(next(), next(), 0.);
        for p in [ball, disk] {
            if p.in_unit_sphere() {
                assert!(p.norm_squared() < 1.);
                kept += 1;
            } else {
                assert!(p.norm_squared() >= 1.);
                dropped += 1;
            }
        }
    }
    assert!(kept > 2000 && dropped > 500);
}

#[test]
fn hemisphere_turns_the_sample_to_the_normal() {
    let n = Vec3::new(0., 1., 0.);
    assert_eq!(random_in_hemisphere(&n, Vec3::new(0.5, 0.5, 0.)), Vec3::new(0.5, 0.5, 0.));
    assert_eq!(random_in_hemisphere(&n, Vec3::new(0.5, -0.5, 0.25)), Vec3::new(-0.5, 0.5, -0.25));
    assert_eq!(random_in_hemisphere(&n, Vec3::new(0.5, 0., 0.)), Vec3::new(-0.5, 0., 0.));
    let out = random_in_hemisphere(&Vec3::new(1., 2., 3.), Vec3::new(-0.1, -0.2, 0.3));
    assert!(out.dot(&Vec3::new(1., 2., 3.)) > 0.);
}
