//! Spheres, and where a ray meets one.
use vstd::prelude::*;
use vstd::std_specs::ops::{AddSpec, DivSpec, MulSpec, NegSpec, SubSpec};
use core::ops::Neg;
use crate::hittable::{
    facing_gives, facing_normal_spec, facing_req, front_face_spec, HitRecord,
};
use crate::ray::{at_gives, at_req, at_spec, Ray};
use crate::scalar::{
    above, add_gives, below, div_gives, exact, gt_gives, lt_gives, mul_gives, neg_gives, number,
    number_gives, number_spec, ordered, sub_gives, Scalar,
};
use crate::vec3::{
    diff_of_products_by, diff_of_products_gives, diff_of_products_req, difference_gives,
    dot_gives, dot_req, dot_spec, lemma_dot_exact, shrunk_gives, Point3, Vec3,
};

verus! {

/// A ball: the points no farther from its centre than its radius.
#[derive(Debug)]
pub struct Sphere<S, M> {
    center: Point3<S>,
    radius: S,
    material: M,
}

/// What a sphere is made of.
pub struct SphereData<S, M> {
    /// The centre.
    pub center: Point3<S>,
    /// The radius.
    pub radius: S,
    /// The material of the surface.
    pub material: M,
}

impl<S, M> View for Sphere<S, M> {
    type V = SphereData<S, M>;

    closed spec fn view(&self) -> SphereData<S, M> {
        SphereData { center: self.center, radius: self.radius, material: self.material }
    }
}

/// The equation `a * t * t + 2 * half_b * t + c = 0` for the parameters `t`
/// at which a ray's line crosses a sphere.
#[derive(Debug, PartialEq)]
pub struct Quadratic<S> {
    pub a: S,
    pub half_b: S,
    pub c: S,
}

impl<S: Copy> Clone for Quadratic<S> {
    fn clone(&self) -> (q: Self)
        ensures
            q == *self,
    {
        *self
    }
}

impl<S: Copy> Copy for Quadratic<S> {

}

/// Whether the equation for the ray `r` and the sphere round `center` with
/// the radius `radius` can come to `q`, by way of the vector `oc` from the
/// centre to the ray's origin, the square `oc2` of its length and the square
/// `r2` of the radius.
pub open spec fn quadratic_by<S: Scalar>(
    center: Point3<S>,
    radius: S,
    r: Ray<S>,
    oc: Vec3<S>,
    oc2: S,
    r2: S,
    q: Quadratic<S>,
) -> bool {
    &&& difference_gives(r.orig, center, oc)
    &&& dot_gives(r.dir, r.dir, q.a)
    &&& dot_gives(oc, r.dir, q.half_b)
    &&& dot_gives(oc, oc, oc2)
    &&& mul_gives(radius, radius, r2)
    &&& sub_gives(oc2, r2, q.c)
}

/// Whether the equation for the ray `r` and the sphere round `center` with
/// the radius `radius` can come to `q`: with `oc` for the ray's origin less
/// the centre, `a` is the dot product of the direction with itself,
/// `half_b` that of `oc` and the direction, and `c` that of `oc` with itself
/// less the square of the radius.
pub open spec fn quadratic_gives<S: Scalar>(center: Point3<S>, radius: S, r: Ray<S>, q: Quadratic<S>) -> bool {
    exists|oc: Vec3<S>, oc2: S, r2: S| #[trigger] quadratic_by(center, radius, r, oc, oc2, r2, q)
}

/// The equation for the ray `r` and the sphere round `center` with the
/// radius `radius`, over scalars whose arithmetic is exact.
pub open spec fn quadratic_spec<S: Scalar>(center: Point3<S>, radius: S, r: Ray<S>) -> Quadratic<S> {
    let oc = SubSpec::sub_spec(r.orig, center);
    Quadratic {
        a: dot_spec(r.dir, r.dir),
        half_b: dot_spec(oc, r.dir),
        c: dot_spec(oc, oc).sub_spec(radius.mul_spec(radius)),
    }
}

/// Whether the equation for the ray `r` and the sphere can be formed.
pub open spec fn quadratic_req<S: Scalar>(center: Point3<S>, radius: S, r: Ray<S>) -> bool {
    &&& r.orig.sub_req(center)
    &&& dot_req(r.dir, r.dir)
    &&& radius.mul_req(radius)
    &&& forall|oc: Vec3<S>| #[trigger]
        difference_gives(r.orig, center, oc) ==> dot_req(oc, r.dir) && dot_req(oc, oc)
    &&& forall|oc: Vec3<S>, oc2: S, r2: S|
        #![trigger dot_gives(oc, oc, oc2), mul_gives(radius, radius, r2)]
        difference_gives(r.orig, center, oc) && dot_gives(oc, oc, oc2) && mul_gives(
            radius,
            radius,
            r2,
        ) ==> oc2.sub_req(r2)
}

/// Whether the discriminant of `q`, formed as `half_b * half_b - a * c`, can
/// come to `delta`.
pub open spec fn discriminant_gives<S: Scalar>(q: Quadratic<S>, delta: S) -> bool {
    diff_of_products_gives(q.half_b, q.half_b, q.a, q.c, delta)
}

/// The discriminant of `q` over scalars whose arithmetic is exact.
pub open spec fn discriminant_spec<S: Scalar>(q: Quadratic<S>) -> S {
    q.half_b.mul_spec(q.half_b).sub_spec(q.a.mul_spec(q.c))
}

/// Whether the discriminant of `q` can be formed.
pub open spec fn discriminant_req<S: Scalar>(q: Quadratic<S>) -> bool {
    diff_of_products_req(q.half_b, q.half_b, q.a, q.c)
}

/// Whether the nearer root of `q`, formed as `(-half_b - delta_sqrt) / a`,
/// can come to `root` by way of `minus_b` and of the numerator `top`.
pub open spec fn near_root_by<S: Scalar>(
    q: Quadratic<S>,
    delta_sqrt: S,
    minus_b: S,
    top: S,
    root: S,
) -> bool {
    neg_gives(q.half_b, minus_b) && sub_gives(minus_b, delta_sqrt, top) && div_gives(
        top,
        q.a,
        root,
    )
}

/// Whether the nearer root of `q`, formed as `(-half_b - delta_sqrt) / a`,
/// can come to `root`.
pub open spec fn near_root_gives<S: Scalar>(q: Quadratic<S>, delta_sqrt: S, root: S) -> bool {
    exists|minus_b: S, top: S| #[trigger] near_root_by(q, delta_sqrt, minus_b, top, root)
}

/// The nearer root of `q` over scalars whose arithmetic is exact.
pub open spec fn near_root_spec<S: Scalar>(q: Quadratic<S>, delta_sqrt: S) -> S {
    q.half_b.neg_spec().sub_spec(delta_sqrt).div_spec(q.a)
}

/// Whether the nearer root of `q` can be formed.
pub open spec fn near_root_req<S: Scalar>(q: Quadratic<S>, delta_sqrt: S) -> bool {
    &&& q.half_b.neg_req()
    &&& forall|minus_b: S| #[trigger] neg_gives(q.half_b, minus_b) ==> minus_b.sub_req(delta_sqrt)
    &&& forall|minus_b: S, top: S|
        #![trigger neg_gives(q.half_b, minus_b), sub_gives(minus_b, delta_sqrt, top)]
        neg_gives(q.half_b, minus_b) && sub_gives(minus_b, delta_sqrt, top) ==> top.div_req(q.a)
}

/// Whether the farther root of `q`, formed as `(-half_b + delta_sqrt) / a`,
/// can come to `root` by way of `minus_b` and of the numerator `top`.
pub open spec fn far_root_by<S: Scalar>(
    q: Quadratic<S>,
    delta_sqrt: S,
    minus_b: S,
    top: S,
    root: S,
) -> bool {
    neg_gives(q.half_b, minus_b) && add_gives(minus_b, delta_sqrt, top) && div_gives(
        top,
        q.a,
        root,
    )
}

/// Whether the farther root of `q`, formed as `(-half_b + delta_sqrt) / a`,
/// can come to `root`.
pub open spec fn far_root_gives<S: Scalar>(q: Quadratic<S>, delta_sqrt: S, root: S) -> bool {
    exists|minus_b: S, top: S| #[trigger] far_root_by(q, delta_sqrt, minus_b, top, root)
}

/// The farther root of `q` over scalars whose arithmetic is exact.
pub open spec fn far_root_spec<S: Scalar>(q: Quadratic<S>, delta_sqrt: S) -> S {
    q.half_b.neg_spec().add_spec(delta_sqrt).div_spec(q.a)
}

/// Whether the farther root of `q` can be formed.
pub open spec fn far_root_req<S: Scalar>(q: Quadratic<S>, delta_sqrt: S) -> bool {
    &&& q.half_b.neg_req()
    &&& forall|minus_b: S| #[trigger] neg_gives(q.half_b, minus_b) ==> minus_b.add_req(delta_sqrt)
    &&& forall|minus_b: S, top: S|
        #![trigger neg_gives(q.half_b, minus_b), add_gives(minus_b, delta_sqrt, top)]
        neg_gives(q.half_b, minus_b) && add_gives(minus_b, delta_sqrt, top) ==> top.div_req(q.a)
}

/// Whether `t` lies outside the window from `t_min` to `t_max`.
pub open spec fn outside<S: PartialOrd>(t: S, t_min: S, t_max: S) -> bool {
    below(t, t_min) || above(t, t_max)
}

/// Whether the tests `t < t_min` and `t > t_max` can find `t` outside the
/// window.
pub open spec fn found_outside<S: PartialOrd>(t: S, t_min: S, t_max: S) -> bool {
    lt_gives(t, t_min, true) || (lt_gives(t, t_min, false) && gt_gives(t, t_max, true))
}

/// Whether the tests `t < t_min` and `t > t_max` can find `t` inside the
/// window.
pub open spec fn found_inside<S: PartialOrd>(t: S, t_min: S, t_max: S) -> bool {
    lt_gives(t, t_min, false) && gt_gives(t, t_max, false)
}

/// Whether the search for a root of `q` in the window from `t_min` to
/// `t_max` can end with `root`: with the nearer root where the window holds
/// it, else with the farther root where the window holds that, else with
/// none.
pub open spec fn root_in_window_gives<S: Scalar>(
    q: Quadratic<S>,
    delta_sqrt: S,
    t_min: S,
    t_max: S,
    root: Option<S>,
) -> bool {
    exists|near: S| #[trigger]
        near_root_gives(q, delta_sqrt, near) && {
            ||| found_inside(near, t_min, t_max) && root == Some(near)
            ||| found_outside(near, t_min, t_max) && exists|far: S| #[trigger]
                far_root_gives(q, delta_sqrt, far) && {
                    ||| found_inside(far, t_min, t_max) && root == Some(far)
                    ||| found_outside(far, t_min, t_max) && root is None
                }
        }
}

/// Whether the search for a root of `q` in the window from `t_min` to
/// `t_max` can be made: the nearer root can be formed, and the farther root
/// too where the nearer one is found outside the window.
pub open spec fn root_in_window_req<S: Scalar>(
    q: Quadratic<S>,
    delta_sqrt: S,
    t_min: S,
    t_max: S,
) -> bool {
    &&& near_root_req(q, delta_sqrt)
    &&& forall|near: S| #[trigger]
        near_root_gives(q, delta_sqrt, near) && found_outside(near, t_min, t_max) ==> far_root_req(
            q,
            delta_sqrt,
        )
}

/// The root with which the search for a root of `q` in the window from
/// `t_min` to `t_max` ends, over scalars whose arithmetic is exact and whose
/// tests go by their order.
pub open spec fn root_in_window_spec<S: Scalar>(
    q: Quadratic<S>,
    delta_sqrt: S,
    t_min: S,
    t_max: S,
) -> Option<S> {
    if !outside(near_root_spec(q, delta_sqrt), t_min, t_max) {
        Some(near_root_spec(q, delta_sqrt))
    } else if !outside(far_root_spec(q, delta_sqrt), t_min, t_max) {
        Some(far_root_spec(q, delta_sqrt))
    } else {
        None
    }
}

/// The outward normal of the sphere in the point `point` of its surface,
/// over scalars whose arithmetic is exact: the point less the centre, over
/// the radius.
pub open spec fn outward_normal_spec<S: Scalar>(center: Point3<S>, radius: S, point: Point3<S>) -> Vec3<S> {
    DivSpec::div_spec(SubSpec::sub_spec(point, center), radius)
}

/// Whether the record of the ray `r` meeting the sphere at the parameter
/// `root` can come to `rec`, by way of the vector `pc` from the centre to the
/// meeting point and of the outward normal `outward`.
pub open spec fn record_by<S: Scalar, M: Clone>(
    sphere: SphereData<S, M>,
    r: Ray<S>,
    root: S,
    pc: Vec3<S>,
    outward: Vec3<S>,
    rec: HitRecord<S, M>,
) -> bool {
    &&& rec.t == root
    &&& at_gives(r, root, rec.point)
    &&& difference_gives(rec.point, sphere.center, pc)
    &&& shrunk_gives(pc, sphere.radius, outward)
    &&& facing_gives(r.dir, outward, rec.front_face, rec.normal)
    &&& cloned(sphere.material, rec.material)
}

/// Whether the record of the ray `r` meeting the sphere at the parameter
/// `root` can come to `rec`: its point is the ray's point at `root`, the
/// outward normal there is the point less the centre, over the radius, the
/// side and the normal stored are found from the ray's direction and that
/// outward normal, and the material is a clone of the sphere's.
pub open spec fn record_gives<S: Scalar, M: Clone>(
    sphere: SphereData<S, M>,
    r: Ray<S>,
    root: S,
    rec: HitRecord<S, M>,
) -> bool {
    exists|pc: Vec3<S>, outward: Vec3<S>| #[trigger] record_by(sphere, r, root, pc, outward, rec)
}

/// Whether the record of the ray `r` meeting the sphere at `root` can be
/// formed.
pub open spec fn record_req<S: Scalar, M>(sphere: SphereData<S, M>, r: Ray<S>, root: S) -> bool {
    &&& at_req(r, root)
    &&& forall|point: Point3<S>| #[trigger]
        at_gives(r, root, point) ==> point.sub_req(sphere.center)
    &&& forall|point: Point3<S>, pc: Vec3<S>|
        #![trigger at_gives(r, root, point), difference_gives(point, sphere.center, pc)]
        at_gives(r, root, point) && difference_gives(point, sphere.center, pc) ==> pc.div_req(
            sphere.radius,
        )
    &&& forall|point: Point3<S>, pc: Vec3<S>, outward: Vec3<S>|
        #![trigger at_gives(r, root, point), difference_gives(point, sphere.center, pc), shrunk_gives(pc, sphere.radius, outward)]
        at_gives(r, root, point) && difference_gives(point, sphere.center, pc) && shrunk_gives(
            pc,
            sphere.radius,
            outward,
        ) ==> facing_req(r.dir, outward)
}

/// Whether the sphere can answer the ray `r` with `res`, once the equation
/// `q` and the square root `delta_sqrt` of its discriminant are known: with
/// no hit where the search finds no root in the window, else with the record
/// of the root found.
pub open spec fn answer_gives<S: Scalar, M: Clone>(
    sphere: SphereData<S, M>,
    r: Ray<S>,
    t_min: S,
    t_max: S,
    q: Quadratic<S>,
    delta_sqrt: S,
    res: Option<HitRecord<S, M>>,
) -> bool {
    exists|root: Option<S>| #[trigger]
        root_in_window_gives(q, delta_sqrt, t_min, t_max, root) && match root {
            None => res is None,
            Some(t) => res matches Some(rec) && record_gives(sphere, r, t, rec),
        }
}

/// Whether the sphere can answer the ray `r` with `res`, by way of the
/// equation `q`, its discriminant `delta` and the scalar `zero` for the
/// number zero.
pub open spec fn sphere_hit_by<S: Scalar, M: Clone, F: Fn(S) -> S>(
    sphere: SphereData<S, M>,
    r: Ray<S>,
    t_min: S,
    t_max: S,
    sqrt: F,
    q: Quadratic<S>,
    delta: S,
    zero: S,
    res: Option<HitRecord<S, M>>,
) -> bool {
    &&& quadratic_gives(sphere.center, sphere.radius, r, q)
    &&& discriminant_gives(q, delta)
    &&& number_gives(0, zero)
    &&& {
        ||| lt_gives(delta, zero, true) && res is None
        ||| lt_gives(delta, zero, false) && exists|delta_sqrt: S| #[trigger]
            call_ensures(sqrt, (delta,), delta_sqrt) && answer_gives(
                sphere,
                r,
                t_min,
                t_max,
                q,
                delta_sqrt,
                res,
            )
    }
}

/// Whether the sphere can answer the ray `r`, asked for a hit between
/// `t_min` and `t_max`, with `res`, where `sqrt` takes square roots.
///
/// There is no hit where the discriminant of the equation is below zero.
/// Else the roots are formed with the square root of the discriminant, and
/// the answer is the record of the root that the search in the window
/// finds, or no hit where it finds none.
pub open spec fn sphere_hit_gives<S: Scalar, M: Clone, F: Fn(S) -> S>(
    sphere: SphereData<S, M>,
    r: Ray<S>,
    t_min: S,
    t_max: S,
    sqrt: F,
    res: Option<HitRecord<S, M>>,
) -> bool {
    exists|q: Quadratic<S>, delta: S, zero: S| #[trigger]
        sphere_hit_by(sphere, r, t_min, t_max, sqrt, q, delta, zero, res)
}

/// Whether `rec` is the record of the ray `r` meeting the sphere at the
/// parameter `t`, over scalars whose arithmetic is exact and whose tests go
/// by their order.
pub open spec fn record_spec<S: Scalar, M: Clone>(
    sphere: SphereData<S, M>,
    r: Ray<S>,
    t: S,
    rec: HitRecord<S, M>,
) -> bool {
    let outward = outward_normal_spec(sphere.center, sphere.radius, at_spec(r, t));
    &&& rec.t == t
    &&& rec.point == at_spec(r, t)
    &&& rec.front_face == front_face_spec(r.dir, outward)
    &&& rec.normal == facing_normal_spec(r.dir, outward)
    &&& cloned(sphere.material, rec.material)
}

/// Whether `res` is the sphere's answer to the ray `r`, asked for a hit
/// between `t_min` and `t_max`, over scalars whose arithmetic is exact and
/// whose tests go by their order, where `sqrt` takes square roots.
///
/// With `delta` for the discriminant of the equation for the ray and the
/// sphere: there is no hit where `delta` is below zero. Else, with the roots
/// formed from a square root of `delta`, the hit is at the nearer root
/// unless that lies outside the window, then at the farther root unless
/// that lies outside too, and then there is no hit.
pub open spec fn sphere_hit_spec<S: Scalar, M: Clone, F: Fn(S) -> S>(
    sphere: SphereData<S, M>,
    r: Ray<S>,
    t_min: S,
    t_max: S,
    sqrt: F,
    res: Option<HitRecord<S, M>>,
) -> bool {
    let q = quadratic_spec(sphere.center, sphere.radius, r);
    let delta = discriminant_spec(q);
    if below(delta, number_spec::<S>(0)) {
        res is None
    } else {
        exists|delta_sqrt: S| #[trigger]
            call_ensures(sqrt, (delta,), delta_sqrt) && match root_in_window_spec(
                q,
                delta_sqrt,
                t_min,
                t_max,
            ) {
                None => res is None,
                Some(t) => res matches Some(rec) && record_spec(sphere, r, t, rec),
            }
    }
}

/// Whether `res` has the parameter of the sphere's answer to the ray `r`,
/// asked for a hit between `t_min` and `t_max`, over scalars whose
/// arithmetic is exact and whose tests go by their order: no hit where the
/// discriminant is below zero, and else the root that the search in the
/// window ends with, for a square root of the discriminant.
pub open spec fn sphere_hit_parameter_spec<S: Scalar, M: Clone, F: Fn(S) -> S>(
    sphere: SphereData<S, M>,
    r: Ray<S>,
    t_min: S,
    t_max: S,
    sqrt: F,
    res: Option<HitRecord<S, M>>,
) -> bool {
    let q = quadratic_spec(sphere.center, sphere.radius, r);
    let delta = discriminant_spec(q);
    if below(delta, number_spec::<S>(0)) {
        res is None
    } else {
        exists|delta_sqrt: S| #[trigger]
            call_ensures(sqrt, (delta,), delta_sqrt) && match root_in_window_spec(
                q,
                delta_sqrt,
                t_min,
                t_max,
            ) {
                None => res is None,
                Some(t) => res matches Some(rec) && rec.t == t,
            }
    }
}

/// Over scalars whose arithmetic is exact, the equation for a ray and a
/// sphere comes to one value only.
pub proof fn lemma_quadratic_exact<S: Scalar>(center: Point3<S>, radius: S, r: Ray<S>, q: Quadratic<S>)
    requires
        exact::<S>(),
        quadratic_gives(center, radius, r, q),
    ensures
        q == quadratic_spec(center, radius, r),
{
    let (oc, oc2, r2) = choose|oc: Vec3<S>, oc2: S, r2: S| #[trigger]
        quadratic_by(center, radius, r, oc, oc2, r2, q);
    assert(oc == SubSpec::sub_spec(r.orig, center));
    lemma_dot_exact(r.dir, r.dir, q.a);
    lemma_dot_exact(oc, r.dir, q.half_b);
    lemma_dot_exact(oc, oc, oc2);
}

/// Over scalars whose arithmetic is exact and whose tests go by their
/// order, the search for a root in a window ends in one way only.
pub proof fn lemma_root_in_window_exact<S: Scalar>(
    q: Quadratic<S>,
    delta_sqrt: S,
    t_min: S,
    t_max: S,
    root: Option<S>,
)
    requires
        exact::<S>(),
        ordered::<S>(),
        root_in_window_gives(q, delta_sqrt, t_min, t_max, root),
    ensures
        root == root_in_window_spec(q, delta_sqrt, t_min, t_max),
{
    let near = choose|near: S| #[trigger]
        near_root_gives(q, delta_sqrt, near) && {
            ||| found_inside(near, t_min, t_max) && root == Some(near)
            ||| found_outside(near, t_min, t_max) && exists|far: S| #[trigger]
                far_root_gives(q, delta_sqrt, far) && {
                    ||| found_inside(far, t_min, t_max) && root == Some(far)
                    ||| found_outside(far, t_min, t_max) && root is None
                }
        };
    let (minus_b, top) = choose|minus_b: S, top: S| #[trigger]
        near_root_by(q, delta_sqrt, minus_b, top, near);
    assert(near == near_root_spec(q, delta_sqrt));
    if outside(near, t_min, t_max) {
        let far = choose|far: S| #[trigger]
            far_root_gives(q, delta_sqrt, far) && {
                ||| found_inside(far, t_min, t_max) && root == Some(far)
                ||| found_outside(far, t_min, t_max) && root is None
            };
        let (minus_b2, top2) = choose|minus_b2: S, top2: S| #[trigger]
            far_root_by(q, delta_sqrt, minus_b2, top2, far);
        assert(far == far_root_spec(q, delta_sqrt));
    }
}

/// Over scalars whose arithmetic is exact and whose tests go by their
/// order, every answer that a sphere can give has the parameter that the
/// closed form names.
pub proof fn lemma_sphere_hit_exact<S: Scalar, M: Clone, F: Fn(S) -> S>(
    sphere: SphereData<S, M>,
    r: Ray<S>,
    t_min: S,
    t_max: S,
    sqrt: F,
    res: Option<HitRecord<S, M>>,
)
    requires
        exact::<S>(),
        ordered::<S>(),
        sphere_hit_gives(sphere, r, t_min, t_max, sqrt, res),
    ensures
        sphere_hit_parameter_spec(sphere, r, t_min, t_max, sqrt, res),
{
    let (q, delta, zero) = choose|q: Quadratic<S>, delta: S, zero: S| #[trigger]
        sphere_hit_by(sphere, r, t_min, t_max, sqrt, q, delta, zero, res);
    lemma_quadratic_exact(sphere.center, sphere.radius, r, q);
    let (first, second) = choose|first: S, second: S| #[trigger]
        diff_of_products_by(q.half_b, q.half_b, q.a, q.c, first, second, delta);
    assert(delta == discriminant_spec(q));
    assert(zero == number_spec::<S>(0));
    if !below(delta, zero) {
        let delta_sqrt = choose|delta_sqrt: S| #[trigger]
            call_ensures(sqrt, (delta,), delta_sqrt) && answer_gives(
                sphere,
                r,
                t_min,
                t_max,
                q,
                delta_sqrt,
                res,
            );
        let root = choose|root: Option<S>| #[trigger]
            root_in_window_gives(q, delta_sqrt, t_min, t_max, root) && match root {
                None => res is None,
                Some(t) => res matches Some(rec) && record_gives(sphere, r, t, rec),
            };
        lemma_root_in_window_exact(q, delta_sqrt, t_min, t_max, root);
        if let Some(t) = root {
            let rec = res.unwrap();
            let (pc, outward) = choose|pc: Vec3<S>, outward: Vec3<S>| #[trigger]
                record_by(sphere, r, t, pc, outward, rec);
        }
    }
}

/// A hit that a sphere gives lies in the window for which it was asked,
/// over scalars whose tests go by their order.
pub proof fn lemma_sphere_hit_in_window<S: Scalar, M: Clone, F: Fn(S) -> S>(
    sphere: SphereData<S, M>,
    r: Ray<S>,
    t_min: S,
    t_max: S,
    sqrt: F,
    rec: HitRecord<S, M>,
)
    requires
        ordered::<S>(),
        sphere_hit_gives(sphere, r, t_min, t_max, sqrt, Some(rec)),
    ensures
        !outside(rec.t, t_min, t_max),
{
    let res = Some(rec);
    let (q, delta, zero) = choose|q: Quadratic<S>, delta: S, zero: S| #[trigger]
        sphere_hit_by(sphere, r, t_min, t_max, sqrt, q, delta, zero, res);
    let delta_sqrt = choose|delta_sqrt: S| #[trigger]
        call_ensures(sqrt, (delta,), delta_sqrt) && answer_gives(
            sphere,
            r,
            t_min,
            t_max,
            q,
            delta_sqrt,
            res,
        );
    let root = choose|root: Option<S>| #[trigger]
        root_in_window_gives(q, delta_sqrt, t_min, t_max, root) && match root {
            None => res is None,
            Some(t) => res matches Some(found) && record_gives(sphere, r, t, found),
        };
    let t = root.unwrap();
    let (pc, outward) = choose|pc: Vec3<S>, outward: Vec3<S>| #[trigger]
        record_by(sphere, r, t, pc, outward, rec);
    let near = choose|near: S| #[trigger]
        near_root_gives(q, delta_sqrt, near) && {
            ||| found_inside(near, t_min, t_max) && root == Some(near)
            ||| found_outside(near, t_min, t_max) && exists|far: S| #[trigger]
                far_root_gives(q, delta_sqrt, far) && {
                    ||| found_inside(far, t_min, t_max) && root == Some(far)
                    ||| found_outside(far, t_min, t_max) && root is None
                }
        };
    if !(found_inside(near, t_min, t_max) && root == Some(near)) {
        let far = choose|far: S| #[trigger]
            far_root_gives(q, delta_sqrt, far) && {
                ||| found_inside(far, t_min, t_max) && root == Some(far)
                ||| found_outside(far, t_min, t_max) && root is None
            };
    }
}

/// Whether the sphere's answer can be formed once the square root of the
/// discriminant is known.
pub open spec fn answer_req<S: Scalar, M>(
    sphere: SphereData<S, M>,
    r: Ray<S>,
    t_min: S,
    t_max: S,
    q: Quadratic<S>,
    delta_sqrt: S,
) -> bool {
    &&& root_in_window_req(q, delta_sqrt, t_min, t_max)
    &&& forall|t: S| #[trigger]
        root_in_window_gives(q, delta_sqrt, t_min, t_max, Some(t)) ==> record_req(sphere, r, t)
}

/// Whether the sphere's answer can be formed once the discriminant is
/// known: where it is not below zero, its square root can be taken, and the
/// answer can be formed with whatever that comes to.
pub open spec fn rooting_req<S: Scalar, M, F: Fn(S) -> S>(
    sphere: SphereData<S, M>,
    r: Ray<S>,
    t_min: S,
    t_max: S,
    sqrt: F,
    q: Quadratic<S>,
    delta: S,
) -> bool {
    forall|zero: S|
        #![trigger lt_gives(delta, zero, false)]
        number_gives(0, zero) && lt_gives(delta, zero, false) ==> {
            &&& call_requires(sqrt, (delta,))
            &&& forall|delta_sqrt: S| #[trigger]
                call_ensures(sqrt, (delta,), delta_sqrt) ==> answer_req(
                    sphere,
                    r,
                    t_min,
                    t_max,
                    q,
                    delta_sqrt,
                )
        }
}

/// Whether the sphere's answer to the ray `r` can be formed, where `sqrt`
/// takes square roots: every step can be taken on whatever the steps before
/// it come to.
pub open spec fn sphere_hit_req<S: Scalar, M, F: Fn(S) -> S>(
    sphere: SphereData<S, M>,
    r: Ray<S>,
    t_min: S,
    t_max: S,
    sqrt: F,
) -> bool {
    &&& quadratic_req(sphere.center, sphere.radius, r)
    &&& forall|q: Quadratic<S>| #[trigger]
        quadratic_gives(sphere.center, sphere.radius, r, q) ==> {
            &&& discriminant_req(q)
            &&& forall|delta: S| #[trigger]
                discriminant_gives(q, delta) ==> rooting_req(
                    sphere,
                    r,
                    t_min,
                    t_max,
                    sqrt,
                    q,
                    delta,
                )
        }
}

impl<S: Scalar> Quadratic<S> {
    /// The discriminant: a quarter of the usual one, `half_b * half_b - a * c`.
    pub fn discriminant(&self) -> (delta: S)
        requires
            discriminant_req(*self),
        ensures
            discriminant_gives(*self, delta),
            exact::<S>() ==> delta == discriminant_spec(*self),
    {
        let hh = self.half_b * self.half_b;
        let ac = self.a * self.c;
        proof {
            assert(mul_gives(self.half_b, self.half_b, hh) && mul_gives(self.a, self.c, ac));
        }
        let delta = hh - ac;
        proof {
            assert(diff_of_products_by(
                self.half_b,
                self.half_b,
                self.a,
                self.c,
                hh,
                ac,
                delta,
            ));
        }
        delta
    }

    /// The nearer root, given the square root of the discriminant.
    pub fn near_root(&self, delta_sqrt: S) -> (root: S)
        requires
            near_root_req(*self, delta_sqrt),
        ensures
            near_root_gives(*self, delta_sqrt, root),
            exact::<S>() ==> root == near_root_spec(*self, delta_sqrt),
    {
        let minus_b = self.half_b.neg();
        proof {
            assert(neg_gives(self.half_b, minus_b));
        }
        let top = minus_b - delta_sqrt;
        proof {
            assert(sub_gives(minus_b, delta_sqrt, top));
        }
        let root = top / self.a;
        proof {
            assert(near_root_by(*self, delta_sqrt, minus_b, top, root));
        }
        root
    }

    /// The farther root, given the square root of the discriminant.
    pub fn far_root(&self, delta_sqrt: S) -> (root: S)
        requires
            far_root_req(*self, delta_sqrt),
        ensures
            far_root_gives(*self, delta_sqrt, root),
            exact::<S>() ==> root == far_root_spec(*self, delta_sqrt),
    {
        let minus_b = self.half_b.neg();
        proof {
            assert(neg_gives(self.half_b, minus_b));
        }
        let top = minus_b + delta_sqrt;
        proof {
            assert(add_gives(minus_b, delta_sqrt, top));
        }
        let root = top / self.a;
        proof {
            assert(far_root_by(*self, delta_sqrt, minus_b, top, root));
        }
        root
    }

    /// Looks for the root at which a ray meets the sphere between `t_min`
    /// and `t_max`, given the square root of the discriminant: the nearer
    /// root if the window holds it, else the farther root if the window holds
    /// that, else none.
    pub fn root_in_window(&self, delta_sqrt: S, t_min: S, t_max: S) -> (root: Option<S>)
        requires
            root_in_window_req(*self, delta_sqrt, t_min, t_max),
        ensures
            root_in_window_gives(*self, delta_sqrt, t_min, t_max, root),
            exact::<S>() && ordered::<S>() ==> root == root_in_window_spec(
                *self,
                delta_sqrt,
                t_min,
                t_max,
            ),
            ordered::<S>() ==> (root matches Some(t) ==> !outside(t, t_min, t_max)),
    {
        let near = self.near_root(delta_sqrt);
        if near < t_min || near > t_max {
            proof {
                assert(near_root_gives(*self, delta_sqrt, near) && found_outside(
                    near,
                    t_min,
                    t_max,
                ));
            }
            let far = self.far_root(delta_sqrt);
            if far < t_min || far > t_max {
                proof {
                    assert(far_root_gives(*self, delta_sqrt, far) && found_outside(
                        far,
                        t_min,
                        t_max,
                    ));
                    assert(near_root_gives(*self, delta_sqrt, near) && found_outside(
                        near,
                        t_min,
                        t_max,
                    ));
                }
                None
            } else {
                proof {
                    assert(far_root_gives(*self, delta_sqrt, far) && found_inside(
                        far,
                        t_min,
                        t_max,
                    ));
                    assert(near_root_gives(*self, delta_sqrt, near) && found_outside(
                        near,
                        t_min,
                        t_max,
                    ));
                }
                Some(far)
            }
        } else {
            proof {
                assert(near_root_gives(*self, delta_sqrt, near) && found_inside(
                    near,
                    t_min,
                    t_max,
                ));
            }
            Some(near)
        }
    }
}

impl<S, M> Sphere<S, M> {
    /// The sphere round `center` with the given radius and material.
    pub fn new(center: Point3<S>, radius: S, material: M) -> (s: Self)
        ensures
            s@ == (SphereData { center, radius, material }),
    {
        Sphere { center, radius, material }
    }

    /// The material of the sphere's surface.
    pub fn material(&self) -> (m: &M)
        ensures
            *m == self@.material,
    {
        &self.material
    }
}

impl<S: Copy, M> Sphere<S, M> {
    /// The centre.
    pub fn center(&self) -> (c: Point3<S>)
        ensures
            c == self@.center,
    {
        self.center
    }

    /// The radius.
    pub fn radius(&self) -> (r: S)
        ensures
            r == self@.radius,
    {
        self.radius
    }
}

impl<S: Scalar, M> Sphere<S, M> {
    /// The equation for the parameters at which the line of `r` crosses the
    /// sphere.
    pub fn quadratic(&self, r: &Ray<S>) -> (q: Quadratic<S>)
        requires
            quadratic_req(self@.center, self@.radius, *r),
        ensures
            quadratic_gives(self@.center, self@.radius, *r, q),
            exact::<S>() ==> q == quadratic_spec(self@.center, self@.radius, *r),
    {
        let oc = r.orig() - self.center;
        proof {
            assert(difference_gives(r.orig, self.center, oc));
        }
        let a = r.dir().norm_squared();
        let half_b = oc.dot(&r.dir());
        let oc2 = oc.norm_squared();
        let r2 = self.radius * self.radius;
        proof {
            assert(dot_gives(oc, oc, oc2) && mul_gives(self.radius, self.radius, r2));
        }
        let c = oc2 - r2;
        let q = Quadratic { a, half_b, c };
        proof {
            assert(quadratic_by(self.center, self.radius, *r, oc, oc2, r2, q));
        }
        q
    }
}

impl<S: Scalar, M: Clone> Sphere<S, M> {
    /// The record of the ray `r` meeting the sphere at the parameter `root`.
    pub fn hit_at(&self, r: &Ray<S>, root: S) -> (rec: HitRecord<S, M>)
        requires
            record_req(self@, *r, root),
        ensures
            record_gives(self@, *r, root, rec),
            exact::<S>() && ordered::<S>() ==> record_spec(self@, *r, root, rec),
    {
        let point = r.at(root);
        proof {
            assert(at_gives(*r, root, point));
        }
        let pc = point - self.center;
        proof {
            assert(difference_gives(point, self.center, pc));
        }
        let outward_normal = pc / self.radius;
        proof {
            assert(shrunk_gives(pc, self.radius, outward_normal));
        }
        let mut rec = HitRecord {
            t: root,
            point,
            normal: outward_normal,
            front_face: false,
            material: self.material.clone(),
        };
        rec.set_face_normal(r, &outward_normal);
        proof {
            assert(record_by(self@, *r, root, pc, outward_normal, rec));
        }
        rec
    }

    /// Where the ray `r` meets the sphere at a parameter between `t_min` and
    /// `t_max`, if it does. `sqrt` takes the square root of a scalar that is
    /// not below zero.
    pub fn hit<F: Fn(S) -> S>(&self, r: &Ray<S>, t_min: S, t_max: S, sqrt: F) -> (res: Option<
        HitRecord<S, M>,
    >)
        requires
            sphere_hit_req(self@, *r, t_min, t_max, sqrt),
        ensures
            sphere_hit_gives(self@, *r, t_min, t_max, sqrt, res),
            exact::<S>() && ordered::<S>() ==> sphere_hit_spec(self@, *r, t_min, t_max, sqrt, res),
            ordered::<S>() ==> (res matches Some(rec) ==> !outside(rec.t, t_min, t_max)),
    {
        let q = self.quadratic(r);
        let delta = q.discriminant();
        let zero: S = number(0);
        if delta < zero {
            proof {
                assert(sphere_hit_by(self@, *r, t_min, t_max, sqrt, q, delta, zero, None));
            }
            return None;
        }
        proof {
            assert(lt_gives(delta, zero, false));
        }
        let delta_sqrt = sqrt(delta);
        let res = match q.root_in_window(delta_sqrt, t_min, t_max) {
            None => None,
            Some(root) => Some(self.hit_at(r, root)),
        };
        proof {
            assert(answer_gives(self@, *r, t_min, t_max, q, delta_sqrt, res));
            assert(sphere_hit_by(self@, *r, t_min, t_max, sqrt, q, delta, zero, res));
        }
        res
    }
}

} // verus!
