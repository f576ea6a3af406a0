use raytracer::hittable::{HitRecord, Hittable, HittableList};
use raytracer::integrator::{min_hit_distance, ray_color, sky_color, trace_path, Path, PathEnd};
use raytracer::material::{Lambertian, Material, Metal};
use raytracer::ray::Ray;
use raytracer::sphere::Sphere;
use raytracer::vec3::{Color, Point3, Vec3};

#[derive(Clone)]
enum Surface {
    Matt(Color<f64>),
    Mirror(Color<f64>),
    Black,
}

impl Material<f64> for Surface {
    fn scatter(&self, r_in: &Ray<f64>, rec: &HitRecord<f64, Surface>) -> Option<(Color<f64>, Ray<f64>)> {
        match self {
            Surface::Matt(albedo) => {
                Lambertian::new(*albedo).scatter(rec, Vec3::new(0., 0., 0.))
            }
            Surface::Mirror(albedo) => {
                Metal::new(*albedo, 0.).scatter(r_in, rec, Vec3::new(0., 0., 0.))
            }
            Surface::Black => None,
        }
    }
}

struct Ball(Sphere<f64, Surface>);

impl Hittable<f64, Surface> for Ball {
    fn hit(&self, r: &Ray<f64>, t_min: f64, t_max: f64) -> Option<HitRecord<f64, Surface>> {
        self.0.hit(r, t_min, t_max, f64::sqrt)
    }
}

fn ball(x: f64, y: f64, z: f64, radius: f64, surface: Surface) -> Ball {
    Ball(Sphere::new(Point3::new(x, y, z), radius, surface))
}

fn sky(r: &Ray<f64>) -> Color<f64> {
    sky_color(r, f64::sqrt)
}

fn is_exhausted(path: &Path<f64>) -> bool {
    matches!(path.end, PathEnd::Exhausted)
}

#[test]
fn no_depth_gives_black() {
    let mut world = HittableList::new();
    world.add(ball(0., 0., -5., 1., Surface::Matt(Color::new(0.5, 0.5, 0.5))));
    let rays = [
        Ray::new(Point3::zero(), Vec3::new(0., 0., -1.)),
        Ray::new(Point3::zero(), Vec3::new(0., 1., 0.)),
        Ray::new(Point3::new(7., -3., 2.), Vec3::new(-1., 0.5, 0.25)),
    ];
    for r in rays {
        assert_eq!(ray_color(&r, &world, 0, f64::INFINITY, f64::sqrt), Color::new(0., 0., 0.));
        let path = trace_path(&r, &world, 0, 0.001, f64::INFINITY);
        assert!(is_exhausted(&path));
        assert!(path.attenuations.is_empty());
    }
    let empty: HittableList<Ball> = HittableList::new();
    assert_eq!(ray_color(&rays[0], &empty, 0, f64::INFINITY, f64::sqrt), Color::new(0., 0., 0.));
}

#[test]
fn sky_gradient_by_height() {
    let up = Ray::new(Point3::zero(), Vec3::new(0., 3., 0.));
    assert_eq!(sky_color(&up, f64::sqrt), Color::new(0.5, 0.7, 1.0));
    let down = Ray::new(Point3::zero(), Vec3::new(0., -2., 0.));
    assert_eq!(sky_color(&down, f64::sqrt), Color::new(1., 1., 1.));
    let level = Ray::new(Point3::zero(), Vec3::new(4., 0., 0.));
    assert_eq!(sky_color(&level, f64::sqrt), Color::new(0.75, 0.85, 1.0));
}

#[test]
fn ray_into_the_sky_brings_the_sky_colour() {
    let mut world = HittableList::new();
    world.add(ball(0., -1000., 0., 1000., Surface::Matt(Color::new(0.5, 0.5, 0.5))));
    let r = Ray::new(Point3::new(0., 1., 0.), Vec3::new(0.6, 0.8, 0.));
    let colour = ray_color(&r, &world, 50, f64::INFINITY, f64::sqrt);
    let t = 0.5 * (0.8 + 1.);
    let expected = Color::new(1., 1., 1.) * (1. - t) + Color::new(0.5, 0.7, 1.) * t;
    assert!((colour - expected).norm(f64::sqrt) < 1e-12);
    assert!(colour.x() > 0. && colour.y() > 0. && colour.z() > 0.);
    let path = trace_path(&r, &world, 50, 0.001, f64::INFINITY);
    assert!(path.attenuations.is_empty());
    assert!(matches!(path.end, PathEnd::Escaped(last) if last == r));
}

#[test]
fn swallowed_ray_brings_black() {
    let mut world = HittableList::new();
    world.add(ball(0., 0., -5., 1., Surface::Black));
    let r = Ray::new(Point3::zero(), Vec3::new(0., 0., -1.));
    assert_eq!(ray_color(&r, &world, 50, f64::INFINITY, f64::sqrt), Color::new(0., 0., 0.));
    let path = trace_path(&r, &world, 50, 0.001, f64::INFINITY);
    assert!(path.attenuations.is_empty());
    assert!(matches!(path.end, PathEnd::Absorbed));
}

#[test]
fn mirror_weakens_the_sky_by_its_albedo() {
    let albedo = Color::new(0.5, 0.25, 1.);
    let mut world = HittableList::new();
    world.add(ball(0., -1., 0., 1., Surface::Mirror(albedo)));
    let r = Ray::new(Point3::new(-1., 1., 0.), Vec3::new(1., -1., 0.));
    let path = trace_path(&r, &world, 50, 0.001, f64::INFINITY);
    assert_eq!(path.attenuations, vec![albedo]);
    let last = Ray::new(Point3::new(0., 0., 0.), Vec3::new(1., 1., 0.));
    match path.end {
        PathEnd::Escaped(ray) => {
            assert!((ray.orig() - last.orig()).norm(f64::sqrt) < 1e-12);
            assert!((ray.dir() - last.dir()).norm(f64::sqrt) < 1e-12);
            let colour = ray_color(&r, &world, 50, f64::INFINITY, f64::sqrt);
            assert_eq!(colour, albedo * sky(&ray));
        }
        _ => panic!("the mirrored ray leaves the scene"),
    }
}

#[test]
fn path_between_two_mirrors_uses_up_its_depth() {
    let low = Color::new(0.5, 0.5, 0.5);
    let high = Color::new(0.25, 1., 0.5);
    let mut world = HittableList::new();
    world.add(ball(0., -3., 0., 1., Surface::Mirror(low)));
    world.add(ball(0., 3., 0., 1., Surface::Mirror(high)));
    let r = Ray::new(Point3::zero(), Vec3::new(0., -1., 0.));
    for depth in 0..6u32 {
        let path = trace_path(&r, &world, depth, 0.001, f64::INFINITY);
        assert!(is_exhausted(&path));
        assert_eq!(path.attenuations.len(), depth as usize);
        for (k, a) in path.attenuations.iter().enumerate() {
            assert_eq!(*a, if k % 2 == 0 { low } else { high });
        }
        assert_eq!(ray_color(&r, &world, depth, f64::INFINITY, f64::sqrt), Color::new(0., 0., 0.));
    }
}

#[test]
fn light_is_weakened_from_the_far_end() {
    let path = Path {
        attenuations: vec![Color::new(0.5, 1., 2.), Color::new(0.25, 0.5, 1.), Color::new(3., 1., 0.)],
        end: PathEnd::Exhausted,
    };
    assert_eq!(path.light(Color::new(1., 1., 1.)), Color::new(0.375, 0.5, 0.));
    assert_eq!(path.light(Color::new(8., 2., 5.)), Color::new(3., 1., 0.));
    let direct: Path<f64> = Path { attenuations: vec![], end: PathEnd::Exhausted };
    assert_eq!(direct.light(Color::new(8., 2., 5.)), Color::new(8., 2., 5.));
    let rounded = Path {
        attenuations: vec![Color::new(0.1, 0.1, 0.1), Color::new(0.3, 0.3, 0.3)],
        end: PathEnd::Exhausted,
    };
    let c = 0.1 * (0.3 * 0.7);
    assert_eq!(rounded.light(Color::new(0.7, 0.7, 0.7)), Color::new(c, c, c));
}

#[test]
fn matt_ground_under_the_sky() {
    let albedo = Color::new(0.5, 0.5, 0.5);
    let mut world = HittableList::new();
    world.add(ball(0., -1000., 0., 1000., Surface::Matt(albedo)));
    let r = Ray::new(Point3::new(0., 1., 0.), Vec3::new(0., -1., 0.));
    let path = trace_path(&r, &world, 50, 0.001, f64::INFINITY);
    assert_eq!(path.attenuations, vec![albedo]);
    assert!(matches!(path.end, PathEnd::Escaped(_)));
    let colour = ray_color(&r, &world, 50, f64::INFINITY, f64::sqrt);
    assert!((colour - Color::new(0.25, 0.35, 0.5)).norm(f64::sqrt) < 1e-9);
}

#[test]
fn min_hit_distance_is_a_thousandth() {
    let t: f64 = min_hit_distance();
    assert_eq!(t, 0.001);
}

#[test]
fn ray_that_starts_on_a_surface_does_not_meet_it_again() {
    let mut world = HittableList::new();
    world.add(ball(0., -1., 0., 1., Surface::Black));
    let leaving = Ray::new(Point3::new(0., 0., 0.), Vec3::new(0., 1., 0.));
    assert_eq!(ray_color(&leaving, &world, 5, f64::INFINITY, f64::sqrt), sky(&leaving));
    let grazing = Ray::new(Point3::new(0., 0.0005, 0.), Vec3::new(0., -1., 0.));
    assert_eq!(ray_color(&grazing, &world, 5, f64::INFINITY, f64::sqrt), Color::new(0., 0., 0.));
    let near = Ray::new(Point3::new(0., 0.002, 0.), Vec3::new(0., -1., 0.));
    assert_eq!(ray_color(&near, &world, 5, f64::INFINITY, f64::sqrt), Color::new(0., 0., 0.));
}

#[test]
fn ray_color_stops_looking_at_t_max() {
    let mut world = HittableList::new();
    world.add(ball(0., 0., -5., 1., Surface::Black));
    let r = Ray::new(Point3::zero(), Vec3::new(0., 0., -1.));
    assert_eq!(ray_color(&r, &world, 5, f64::INFINITY, f64::sqrt), Color::new(0., 0., 0.));
    assert_eq!(ray_color(&r, &world, 5, 3., f64::sqrt), sky(&r));
}
