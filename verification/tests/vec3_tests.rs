use raytracer::utils::clamp;
use raytracer::vec3::{near_zero_threshold, Vec3};

#[test]
fn clamp_test() {
    assert_eq!(clamp(2., 1., 3.), 2.);
    assert_eq!(clamp(100, 1, 3), 3);
    assert_eq!(clamp(-1, 1, 3), 1);
}

#[test]
fn clamp_keeps_the_bounds_themselves() {
    assert_eq!(clamp(1, 1, 3), 1);
    assert_eq!(clamp(3, 1, 3), 3);
    assert_eq!(clamp(0.999, 0.0, 0.999), 0.999);
    assert_eq!(clamp(-0.5, 0.0, 0.999), 0.0);
    assert_eq!(clamp(7.25, 0.0, 0.999), 0.999);
}

#[test]
fn clamp_passes_a_value_that_has_no_order() {
    assert!(clamp(f64::NAN, 0.0, 1.0).is_nan());
}

#[test]
fn vec3_default() {
    let v: Vec3<f64> = Vec3::default();
    assert_eq!((v.x(), v.z(), v.y()), (0., 0., 0.));
}

#[test]
fn vec3_new() {
    let v = Vec3::new(1., 2., 3.);
    assert_eq!((v.x(), v.y(), v.z()), (1., 2., 3.));
}

#[test]
fn vec3_operations() {
    let mut v1 = Vec3::new(1., 2., 3.);
    let v2 = Vec3::new(10., 20., 30.);
    assert_eq!(v1 + v2, Vec3::new(11., 22., 33.));
    assert_eq!(-v1, Vec3::new(-1., -2., -3.));
    assert_eq!(v1 - v2, Vec3::new(-9., -18., -27.));
    assert_eq!(v1 * 2., Vec3::new(2., 4., 6.));
    assert_eq!(v1 / 2., Vec3::new(0.5, 1., 1.5));
    assert_eq!(v1 * v2, Vec3::new(10., 40., 90.));

    v1 += v2;
    assert_eq!(v1, Vec3::new(11., 22., 33.));
    v1 -= v2;
    assert_eq!(v1, Vec3::new(1., 2., 3.));
    v1 *= 2.;
    assert_eq!(v1, Vec3::new(2., 4., 6.));
    v1 /= 2.;
    assert_eq!(v1, Vec3::new(1., 2., 3.));

    assert_eq!(v1.dot(&v2), 10. + 40. + 90.);
    assert_eq!(v1.cross(&v2), Vec3::new(0., 0., 0.));

    assert_eq!(
        v1.unit_vector(f64::sqrt),
        Vec3::new(1. / 14f64.sqrt(), 2. / 14f64.sqrt(), 3. / 14f64.sqrt())
    )
}

#[test]
fn zero_and_one_hold_zeros_and_ones() {
    let z: Vec3<f64> = Vec3::zero();
    let o: Vec3<f64> = Vec3::one();
    assert_eq!(z, Vec3::new(0., 0., 0.));
    assert_eq!(o, Vec3::new(1., 1., 1.));
    let zi: Vec3<i32> = Vec3::zero();
    assert_eq!(zi, Vec3::new(0, 0, 0));
}

#[test]
fn cross_of_the_axes_is_the_third_axis() {
    let x = Vec3::new(1., 0., 0.);
    let y = Vec3::new(0., 1., 0.);
    assert_eq!(x.cross(&y), Vec3::new(0., 0., 1.));
    assert_eq!(y.cross(&x), Vec3::new(0., 0., -1.));
    let a = Vec3::new(2, 3, 4);
    let b = Vec3::new(5, 6, 7);
    assert_eq!(a.cross(&b), Vec3::new(-3, 6, -3));
}

#[test]
fn norm_squared_and_norm() {
    let v = Vec3::new(3., 4., 12.);
    assert_eq!(v.norm_squared(), 169.);
    assert_eq!(v.norm(f64::sqrt), 13.);
    assert_eq!(Vec3::new(1, 2, 3).norm_squared(), 14);
}

#[test]
fn unit_vector_has_length_one() {
    let vs = [
        Vec3::new(3., 4., 12.),
        Vec3::new(-1., 0.5, 7.),
        Vec3::new(1e-3, 2e5, -4.),
        Vec3::new(0., 0., -2.),
    ];
    for v in vs {
        let n = v.unit_vector(f64::sqrt).norm(f64::sqrt);
        assert!((n - 1.).abs() < 1e-12);
    }
}

#[test]
fn unit_vector_of_the_zero_vector_is_not_a_number() {
    let u = Vec3::new(0., 0., 0.).unit_vector(f64::sqrt);
    assert!(u.x().is_nan() && u.y().is_nan() && u.z().is_nan());
}

#[test]
fn reflect_mirrors_at_the_normal() {
    let v = Vec3::new(1., -1., 0.);
    let n = Vec3::new(0., 1., 0.);
    assert_eq!(v.reflect(&n), Vec3::new(1., 1., 0.));
    let w = Vec3::new(3, -2, 5);
    let m = Vec3::new(0, 0, 1);
    assert_eq!(w.reflect(&m), Vec3::new(3, -2, -5));
}

#[test]
fn reflect_twice_gives_the_vector_back() {
    let n = Vec3::new(0., 0., 1.);
    let v = Vec3::new(0.25, -3., 1.5);
    assert_eq!(v.reflect(&n).reflect(&n), v);
    let s = 1. / 3f64.sqrt();
    let slanted = Vec3::new(s, s, s);
    let back = v.reflect(&slanted).reflect(&slanted);
    assert!((back - v).norm(f64::sqrt) < 1e-12);
}

#[test]
fn near_zero_looks_at_every_coordinate() {
    assert!(Vec3::new(0., 0., 0.).near_zero());
    assert!(Vec3::new(1e-9, -1e-9, 9.9e-9).near_zero());
    assert!(!Vec3::new(1e-8, 0., 0.).near_zero());
    assert!(!Vec3::new(0., -1e-8, 0.).near_zero());
    assert!(!Vec3::new(0., 0., 2e-8).near_zero());
    assert!(!Vec3::new(f64::NAN, 0., 0.).near_zero());
    assert!(!Vec3::new(0i64, 0, 0).near_zero());
}

#[test]
fn compound_operators_change_the_vector_in_place() {
    let mut c = Vec3::new(0.5, 0.25, 2.);
    c *= Vec3::new(2., 4., 0.5);
    assert_eq!(c, Vec3::new(1., 1., 1.));
    let mut w = Vec3::new(1, 2, 3);
    w += Vec3::new(10, 20, 30);
    w -= Vec3::new(1, 1, 1);
    w *= 3;
    w /= 2;
    assert_eq!(w, Vec3::new(15, 31, 48));
    w *= Vec3::new(2, 0, -1);
    assert_eq!(w, Vec3::new(30, 0, -48));
}

#[test]
fn near_zero_threshold_is_a_hundred_millionth() {
    let t: f64 = near_zero_threshold();
    assert_eq!(t, 1e-8);
}
