use raytracer::hittable::HitRecord;
use raytracer::material::{Dielectric, Lambertian, Metal};
use raytracer::ray::Ray;
use raytracer::vec3::{Color, Point3, Vec3};

fn record(normal: Vec3<f64>, front_face: bool) -> HitRecord<f64, u8> {
    HitRecord { point: Point3::new(1., 2., 3.), normal, material: 0, t: 1.5, front_face }
}

#[test]
fn lambertian_scatters_with_its_albedo() {
    let albedo = Color::new(0.4, 0.2, 0.1);
    let matt = Lambertian::new(albedo);
    assert_eq!(matt.albedo(), albedo);
    let rec = record(Vec3::new(0., 1., 0.), true);
    let samples = [
        Vec3::new(1., 0., 0.),
        Vec3::new(0., 1., 0.),
        Vec3::new(0.6, 0., -0.8),
        Vec3::new(0., -1., 0.),
    ];
    for sample in samples {
        let (attenuation, scattered) = matt.scatter(&rec, sample).unwrap();
        assert_eq!(attenuation, albedo);
        assert_eq!(scattered.orig(), rec.point);
    }
}

#[test]
fn lambertian_leaves_along_the_normal_plus_the_sample() {
    let matt = Lambertian::new(Color::new(0.5, 0.5, 0.5));
    let rec = record(Vec3::new(0., 1., 0.), true);
    let (_, scattered) = matt.scatter(&rec, Vec3::new(0.6, 0., -0.8)).unwrap();
    assert_eq!(scattered.dir(), Vec3::new(0.6, 1., -0.8));
}

#[test]
fn lambertian_falls_back_to_the_normal() {
    let matt = Lambertian::new(Color::new(0.5, 0.5, 0.5));
    let rec = record(Vec3::new(0., 1., 0.), true);
    let (_, scattered) = matt.scatter(&rec, Vec3::new(0., -1., 0.)).unwrap();
    assert_eq!(scattered.dir(), Vec3::new(0., 1., 0.));
    let (_, almost) = matt.scatter(&rec, Vec3::new(1e-9, -1., 0.)).unwrap();
    assert_eq!(almost.dir(), Vec3::new(0., 1., 0.));
}

#[test]
fn metal_limits_its_fuzz() {
    let albedo = Color::new(0.7, 0.6, 0.5);
    assert_eq!(Metal::new(albedo, 0.5).fuzz(), 0.5);
    assert_eq!(Metal::new(albedo, 0.).fuzz(), 0.);
    assert_eq!(Metal::new(albedo, 1.).fuzz(), 1.);
    assert_eq!(Metal::new(albedo, 3.).fuzz(), 1.);
    assert_eq!(Metal::new(albedo, -2.).fuzz(), 0.);
    assert_eq!(Metal::new(albedo, 0.5).albedo(), albedo);
}

#[test]
fn metal_without_fuzz_mirrors_exactly() {
    let albedo = Color::new(0.7, 0.6, 0.5);
    let mirror = Metal::new(albedo, 0.);
    let rec = record(Vec3::new(0., 1., 0.), true);
    let r_in = Ray::new(Point3::new(0., 3., 3.), Vec3::new(1., -1., 0.));
    let sample = Vec3::new(0.3, -0.2, 0.1);
    let (attenuation, scattered) = mirror.scatter(&r_in, &rec, sample).unwrap();
    assert_eq!(attenuation, albedo);
    assert_eq!(scattered.orig(), rec.point);
    assert_eq!(scattered.dir(), r_in.dir().reflect(&rec.normal));
    assert_eq!(scattered.dir(), Vec3::new(1., 1., 0.));
}

#[test]
fn metal_with_fuzz_moves_the_mirrored_ray() {
    let mirror = Metal::new(Color::new(0.7, 0.6, 0.5), 0.5);
    let rec = record(Vec3::new(0., 1., 0.), true);
    let r_in = Ray::new(Point3::new(0., 3., 3.), Vec3::new(1., -1., 0.));
    let (_, scattered) = mirror.scatter(&r_in, &rec, Vec3::new(0.5, -0.5, 1.)).unwrap();
    assert_eq!(scattered.dir(), Vec3::new(1.25, 0.75, 0.5));
}

#[test]
fn metal_swallows_a_ray_that_does_not_leave() {
    let mirror = Metal::new(Color::new(0.7, 0.6, 0.5), 1.);
    let rec = record(Vec3::new(0., 1., 0.), true);
    let r_in = Ray::new(Point3::new(0., 3., 3.), Vec3::new(1., -0.25, 0.));
    assert!(mirror.scatter(&r_in, &rec, Vec3::new(0., -0.5, 0.)).is_none());
    assert!(mirror.scatter(&r_in, &rec, Vec3::new(0., -0.25, 0.)).is_none());
    assert!(mirror.scatter(&r_in, &rec, Vec3::new(0., -0.125, 0.)).is_some());
}

#[test]
fn dielectric_ratio_depends_on_the_face() {
    let glass = Dielectric::new(1.5);
    assert_eq!(glass.ir(), 1.5);
    assert_eq!(glass.refraction_ratio(true), 1. / 1.5);
    assert_eq!(glass.refraction_ratio(false), 1.5);
}

#[test]
fn schlick_reflectance_of_glass() {
    let head_on: f64 = Dielectric::reflectance(1., 1.5);
    assert!((head_on - 0.04).abs() < 1e-12);
    let grazing: f64 = Dielectric::reflectance(0., 1.5);
    assert!((grazing - 1.).abs() < 1e-12);
    let between: f64 = Dielectric::reflectance(0.5, 1.5);
    assert!((between - (0.04 + 0.96 * 0.03125)).abs() < 1e-12);
}

#[test]
fn dielectric_head_on_mostly_refracts() {
    let glass = Dielectric::new(1.5);
    let rec = record(Vec3::new(0., 0., 1.), true);
    let r_in = Ray::new(Point3::new(1., 2., 9.), Vec3::new(0., 0., -3.));
    let mut mirrored = 0;
    for k in 0..100 {
        let draw = (k as f64 + 0.5) / 100.;
        let (attenuation, scattered) = glass.scatter(&r_in, &rec, draw, f64::sqrt).unwrap();
        assert_eq!(attenuation, Color::new(1., 1., 1.));
        assert_eq!(scattered.orig(), rec.point);
        if scattered.dir() == Vec3::new(0., 0., 1.) {
            mirrored += 1;
        } else {
            assert_eq!(scattered.dir(), Vec3::new(0., 0., -1.));
        }
    }
    assert_eq!(mirrored, 4);
}

#[test]
fn dielectric_mirrors_where_it_cannot_refract() {
    let glass = Dielectric::new(1.5);
    let rec = record(Vec3::new(0., 1., 0.), false);
    let r_in = Ray::new(Point3::new(0., 0., 0.), Vec3::new(4., -1., 0.));
    let unit = r_in.dir().unit_vector(f64::sqrt);
    for draw in [0., 0.25, 0.5, 0.999] {
        let (attenuation, scattered) = glass.scatter(&r_in, &rec, draw, f64::sqrt).unwrap();
        assert_eq!(attenuation, Color::new(1., 1., 1.));
        assert_eq!(scattered.dir(), unit.reflect(&rec.normal));
        assert!(scattered.dir().y() > 0.);
    }
}

#[test]
fn dielectric_bends_towards_the_normal_on_the_way_in() {
    let glass = Dielectric::new(1.5);
    let rec = record(Vec3::new(0., 1., 0.), true);
    let r_in = Ray::new(Point3::new(0., 5., 0.), Vec3::new(1., -1., 0.));
    let (_, scattered) = glass.scatter(&r_in, &rec, 0.999, f64::sqrt).unwrap();
    let unit = r_in.dir().unit_vector(f64::sqrt);
    assert_eq!(scattered.dir(), unit.refract(&rec.normal, 1. / 1.5, f64::sqrt));
    let sin_out = scattered.dir().x();
    let sin_in = unit.x();
    assert!((sin_out - sin_in / 1.5).abs() < 1e-12);
    assert!(scattered.dir().y() < 0.);
    assert!((scattered.dir().norm(f64::sqrt) - 1.).abs() < 1e-12);
}

#[test]
fn refract_without_a_change_of_index_goes_straight() {
    let s = 0.5f64.sqrt();
    let v = Vec3::new(s, -s, 0.);
    let n = Vec3::new(0., 1., 0.);
    let out = v.refract(&n, 1., f64::sqrt);
    assert!((out - v).norm(f64::sqrt) < 1e-12);
    let down = Vec3::new(0., -1., 0.);
    assert_eq!(down.refract(&n, 1. / 1.5, f64::sqrt), Vec3::new(0., -1., 0.));
}

#[test]
fn refract_keeps_its_radicand_from_falling_below_zero() {
    let v = Vec3::new(0.8, -0.6, 0.);
    let n = Vec3::new(0., 1., 0.);
    let out = v.refract(&n, 1.5, f64::sqrt);
    assert!((out.x() - 1.2).abs() < 1e-12);
    assert_eq!(out.y(), 0.);
    assert_eq!(out.z(), 0.);
}
