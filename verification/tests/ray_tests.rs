use raytracer::ray::Ray;
use raytracer::vec3::{Point3, Vec3};

#[test]
fn ray_new() {
    let orig = Point3::new(0., 0., 0.);
    let dir = Vec3::new(1., 1., 1.);
    let ray = Ray::new(orig, dir);
    assert_eq!((ray.orig(), ray.dir()), (orig, dir));
}

#[test]
fn ray_at_t() {
    let orig = Point3::new(0., 0., 0.);
    let dir = Vec3::new(1., 1., 1.);
    let ray = Ray::new(orig, dir);
    let t = 64.;
    assert_eq!(ray.at(t), orig + dir * t);
}

#[test]
fn ray_at_moves_from_the_origin() {
    let ray = Ray::new(Point3::new(1., 2., 3.), Vec3::new(0., -1., 0.5));
    assert_eq!(ray.at(0.), Point3::new(1., 2., 3.));
    assert_eq!(ray.at(2.), Point3::new(1., 0., 4.));
    assert_eq!(ray.at(-4.), Point3::new(1., 6., 1.));
    let whole = Ray::new(Point3::new(1, 2, 3), Vec3::new(10, 20, 30));
    assert_eq!(whole.at(2), Point3::new(21, 42, 63));
}
