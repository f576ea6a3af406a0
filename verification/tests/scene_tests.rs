use raytracer::hittable::{HitRecord, Hittable, HittableList};
use raytracer::material::{Lambertian, Metal};
use raytracer::ray::Ray;
use raytracer::sphere::{Quadratic, Sphere};
use raytracer::vec3::{Color, Point3, Vec3};
use std::sync::Arc;

struct Ball(Sphere<f64, u32>);

struct Shiny(Sphere<f64, Arc<Metal<f64>>>);

impl Hittable<f64, Arc<Metal<f64>>> for Shiny {
    fn hit(&self, r: &Ray<f64>, t_min: f64, t_max: f64) -> Option<HitRecord<f64, Arc<Metal<f64>>>> {
        self.0.hit(r, t_min, t_max, f64::sqrt)
    }
}

impl Hittable<f64, u32> for Ball {
    fn hit(&self, r: &Ray<f64>, t_min: f64, t_max: f64) -> Option<HitRecord<f64, u32>> {
        self.0.hit(r, t_min, t_max, f64::sqrt)
    }
}

fn ball(x: f64, y: f64, z: f64, radius: f64, material: u32) -> Ball {
    Ball(Sphere::new(Point3::new(x, y, z), radius, material))
}

#[test]
fn sphere_hit() {
    let center = Point3::new(10., 10., 10.);
    let radius = 2.;
    let material = Lambertian::new(Color::<f64>::zero());
    let _sphere = Sphere::new(center, radius, Arc::new(material));
    let r_orig = Point3::zero();
    let r_dir = Point3::one();
    let _r: Ray<f64> = Ray::new(r_orig, r_dir);
}

#[test]
fn hittable_list_create_add() {
    let mut hl = HittableList::new();
    let mat = Metal::new(Color::one(), 0.5);
    let mat2 = Metal::new(Color::one(), 1.);
    let s1 = Sphere::new(Point3::zero(), 1., Arc::new(mat));
    let s2 = Sphere::new(Point3::one(), 0.5, Arc::new(mat2));
    hl.add(Box::new(s1));
    hl.add(Box::new(s2));

    assert_eq!(hl.len(), 2);
}

#[test]
fn hittable_list_clear_empties_it() {
    let mut hl = HittableList::new();
    assert_eq!(hl.len(), 0);
    hl.add(ball(0., 0., -5., 1., 1));
    hl.add(ball(0., 0., -9., 1., 2));
    hl.add(ball(0., 0., -13., 1., 3));
    assert_eq!(hl.len(), 3);
    hl.clear();
    assert_eq!(hl.len(), 0);
    let r = Ray::new(Point3::zero(), Vec3::new(0., 0., -1.));
    assert!(hl.hit(&r, 0.001, f64::INFINITY).is_none());
}

#[test]
fn sphere_getters_give_back_what_was_put_in() {
    let s = Sphere::new(Point3::new(1., 2., 3.), 4., 9u32);
    assert_eq!(s.center(), Point3::new(1., 2., 3.));
    assert_eq!(s.radius(), 4.);
    assert_eq!(*s.material(), 9);
}

#[test]
fn quadratic_of_a_ray_towards_a_sphere() {
    let s = Sphere::new(Point3::new(0., 0., -5.), 1., 0u32);
    let r = Ray::new(Point3::zero(), Vec3::new(0., 0., -1.));
    let q = s.quadratic(&r);
    assert_eq!(q, Quadratic { a: 1., half_b: -5., c: 24. });
    assert_eq!(q.discriminant(), 1.);
    assert_eq!(q.near_root(1.), 4.);
    assert_eq!(q.far_root(1.), 6.);
}

#[test]
fn root_in_window_prefers_the_near_root() {
    let q = Quadratic { a: 1., half_b: -5., c: 24. };
    assert_eq!(q.root_in_window(1., 0.001, f64::INFINITY), Some(4.));
    assert_eq!(q.root_in_window(1., 4., 6.), Some(4.));
    assert_eq!(q.root_in_window(1., 4.5, 100.), Some(6.));
    assert_eq!(q.root_in_window(1., 4.5, 6.), Some(6.));
    assert_eq!(q.root_in_window(1., 4.5, 5.5), None);
    assert_eq!(q.root_in_window(1., 6.5, 100.), None);
    assert_eq!(q.root_in_window(1., 0.001, 3.9), None);
}

#[test]
fn sphere_hit_from_outside() {
    let s = Sphere::new(Point3::new(0., 0., -5.), 1., 3u32);
    let r = Ray::new(Point3::new(0., 0., 0.), Vec3::new(0., 0., -1.));
    let rec = s.hit(&r, 0.001, f64::INFINITY, f64::sqrt).unwrap();
    assert_eq!(rec.t, 4.);
    assert_eq!(rec.point, Point3::new(0., 0., -4.));
    assert_eq!(rec.normal, Vec3::new(0., 0., 1.));
    assert!(rec.front_face);
    assert_eq!(rec.material, 3);
}

#[test]
fn sphere_hit_from_inside() {
    let s = Sphere::new(Point3::new(0., 0., 0.), 2., 3u32);
    let r = Ray::new(Point3::new(0., 0., 0.), Vec3::new(0., 0., -1.));
    let rec = s.hit(&r, 0.001, f64::INFINITY, f64::sqrt).unwrap();
    assert_eq!(rec.t, 2.);
    assert_eq!(rec.point, Point3::new(0., 0., -2.));
    assert!(!rec.front_face);
    assert_eq!(rec.normal, Vec3::new(0., 0., 1.));
}

#[test]
fn sphere_missed_by_a_ray_that_passes_it() {
    let s = Sphere::new(Point3::new(0., 0., -5.), 1., 3u32);
    let beside = Ray::new(Point3::new(0., 2., 0.), Vec3::new(0., 0., -1.));
    assert!(s.hit(&beside, 0.001, f64::INFINITY, f64::sqrt).is_none());
    let away = Ray::new(Point3::new(0., 0., 0.), Vec3::new(0., 0., 1.));
    assert!(s.hit(&away, 0.001, f64::INFINITY, f64::sqrt).is_none());
    let towards = Ray::new(Point3::new(0., 0., 0.), Vec3::new(0., 0., -1.));
    assert!(s.hit(&towards, 0.001, 3.5, f64::sqrt).is_none());
}

#[test]
fn sphere_touched_by_a_ray_is_hit_once() {
    let s = Sphere::new(Point3::new(0., 1., -5.), 1., 3u32);
    let r = Ray::new(Point3::new(0., 0., 0.), Vec3::new(0., 0., -1.));
    let rec = s.hit(&r, 0.001, f64::INFINITY, f64::sqrt).unwrap();
    assert_eq!(rec.t, 5.);
    assert_eq!(rec.point, Point3::new(0., 0., -5.));
    assert!(!rec.front_face);
    assert_eq!(rec.normal, Vec3::new(0., 1., 0.));
}

#[test]
fn hit_at_builds_the_record_of_a_root() {
    let s = Sphere::new(Point3::new(0., 0., -5.), 1., 3u32);
    let r = Ray::new(Point3::new(0., 0., 0.), Vec3::new(0., 0., -1.));
    let far = s.hit_at(&r, 6.);
    assert_eq!(far.t, 6.);
    assert_eq!(far.point, Point3::new(0., 0., -6.));
    assert!(!far.front_face);
    assert_eq!(far.normal, Vec3::new(0., 0., 1.));
}

#[test]
fn set_face_normal_turns_the_normal_against_the_ray() {
    let r = Ray::new(Point3::new(0., 0., 0.), Vec3::new(0., 0., -1.));
    let mut rec = HitRecord {
        point: Point3::new(0., 0., -4.),
        normal: Vec3::zero(),
        material: 0u32,
        t: 4.,
        front_face: false,
    };
    rec.set_face_normal(&r, &Vec3::new(0., 0., 1.));
    assert!(rec.front_face);
    assert_eq!(rec.normal, Vec3::new(0., 0., 1.));
    rec.set_face_normal(&r, &Vec3::new(0., 0., -1.));
    assert!(!rec.front_face);
    assert_eq!(rec.normal, Vec3::new(0., 0., 1.));
    rec.set_face_normal(&r, &Vec3::new(1., 0., 0.));
    assert!(!rec.front_face);
    assert_eq!(rec.normal, Vec3::new(-1., 0., 0.));
    assert_eq!(rec.t, 4.);
    assert_eq!(rec.point, Point3::new(0., 0., -4.));
}

#[test]
fn nearest_sphere_wins_whatever_the_order() {
    let r = Ray::new(Point3::zero(), Vec3::new(0., 0., -1.));
    let orders = [[1u32, 2, 3], [1, 3, 2], [2, 1, 3], [2, 3, 1], [3, 1, 2], [3, 2, 1]];
    for order in orders {
        let mut world = HittableList::new();
        for k in order {
            world.add(ball(0., 0., -4. * k as f64, 1., k));
        }
        let rec = world.hit(&r, 0.001, f64::INFINITY).unwrap();
        assert_eq!(rec.material, 1);
        assert_eq!(rec.t, 3.);
    }
}

#[test]
fn empty_list_and_missed_list_give_no_hit() {
    let r = Ray::new(Point3::zero(), Vec3::new(0., 1., 0.));
    let empty: HittableList<Ball> = HittableList::new();
    assert!(empty.hit(&r, 0.001, f64::INFINITY).is_none());
    let mut world = HittableList::new();
    world.add(ball(0., 0., -5., 1., 1));
    world.add(ball(3., 0., 0., 1., 2));
    assert!(world.hit(&r, 0.001, f64::INFINITY).is_none());
}

#[test]
fn window_of_the_list_bounds_every_sphere() {
    let r = Ray::new(Point3::zero(), Vec3::new(0., 0., -1.));
    let mut world = HittableList::new();
    world.add(ball(0., 0., -5., 1., 1));
    world.add(ball(0., 0., -10., 1., 2));
    assert_eq!(world.hit(&r, 0.001, 3.).map(|rec| rec.material), None);
    assert_eq!(world.hit(&r, 5., 100.).map(|rec| rec.material), Some(1));
    assert_eq!(world.hit(&r, 5., 100.).map(|rec| rec.t), Some(6.));
    assert_eq!(world.hit(&r, 7., 100.).map(|rec| rec.material), Some(2));
}

#[test]
fn exact_tie_is_won_by_the_earlier_sphere() {
    let r = Ray::new(Point3::zero(), Vec3::new(0., 0., -1.));
    let mut world = HittableList::new();
    world.add(ball(0., 0., -5., 1., 1));
    world.add(ball(0., 0., -5., 1., 2));
    world.add(ball(0., 0., -7., 3., 3));
    let rec = world.hit(&r, 0.001, f64::INFINITY).unwrap();
    assert_eq!(rec.t, 4.);
    assert_eq!(rec.material, 1);
}

#[test]
fn exact_tie_keeps_the_shared_material_of_the_earlier_sphere() {
    let m1 = Arc::new(Metal::new(Color::one(), 0.5));
    let m2 = Arc::new(Metal::new(Color::one(), 1.));
    let mut hl = HittableList::new();
    hl.add(Shiny(Sphere::new(Point3::new(0., 0., -5.), 1., m1.clone())));
    hl.add(Shiny(Sphere::new(Point3::new(0., 0., -5.), 1., m2.clone())));
    let r = Ray::new(Point3::zero(), Vec3::new(0., 0., -1.));
    let rec = hl.hit(&r, 0.001, f64::INFINITY).unwrap();
    assert_eq!(rec.t, 4.0);
    assert!(Arc::ptr_eq(&rec.material, &m1));
    assert!(!Arc::ptr_eq(&rec.material, &m2));
}

#[test]
fn later_sphere_wins_only_where_it_is_strictly_closer() {
    let r = Ray::new(Point3::zero(), Vec3::new(0., 0., -1.));
    let mut world = HittableList::new();
    world.add(ball(0., 0., -5., 1., 1));
    world.add(ball(0., 0., -4.5, 1., 2));
    world.add(ball(0., 0., -4.5, 1., 3));
    world.add(ball(0., 0., -5., 1., 4));
    let rec = world.hit(&r, 0.001, f64::INFINITY).unwrap();
    assert_eq!(rec.t, 3.5);
    assert_eq!(rec.material, 2);
}

#[test]
fn list_of_lists_is_a_surface_too() {
    let r = Ray::new(Point3::zero(), Vec3::new(0., 0., -1.));
    let mut near = HittableList::new();
    near.add(ball(0., 0., -5., 1., 1));
    let mut far = HittableList::new();
    far.add(ball(0., 0., -20., 1., 2));
    far.add(ball(0., 0., -12., 1., 3));
    let mut world = HittableList::new();
    world.add(far);
    world.add(near);
    let rec = world.hit(&r, 0.001, f64::INFINITY).unwrap();
    assert_eq!(rec.material, 1);
}

#[test]
fn sphere_hit_over_whole_numbers() {
    let root = |x: i64| (x as f64).sqrt() as i64;
    let s = Sphere::new(Point3::new(0i64, 0, -5), 1, 3u32);
    let r = Ray::new(Point3::new(0i64, 0, 0), Vec3::new(0, 0, -1));
    let rec = s.hit(&r, 0, 100, root).unwrap();
    assert_eq!(rec.t, 4);
    assert_eq!(rec.point, Point3::new(0, 0, -4));
    assert_eq!(rec.normal, Vec3::new(0, 0, 1));
    assert!(rec.front_face);
    let inside = Sphere::new(Point3::new(0i64, 0, 0), 2, 3u32);
    let out = inside.hit(&r, 1, 100, root).unwrap();
    assert_eq!(out.t, 2);
    assert!(!out.front_face);
    assert_eq!(out.normal, Vec3::new(0, 0, 1));
    assert!(s.hit(&r, 7, 100, root).is_none());
}
