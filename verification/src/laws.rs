//! Laws of the vector algebra and of a scene of spheres where the
//! arithmetic is exact.
use vstd::prelude::*;
use crate::hittable::{
    earliest_of_least, hit_gives, lemma_nearest_hit_is_earliest_of_least,
    lemma_nearest_sweep_at, lemma_nearest_sweep_len, nearest_hit, nearest_sweep,
    nearest_sweep_gives, window_end,
    HitRecord, Hittable,
};
use crate::ray::Ray;
use crate::scalar::{
    above, at_most, below, exact, lemma_ranked_total, lemma_ranked_transitive, mul_gives,
    number_gives, ordered, ranked, Scalar,
};
use crate::sphere::{
    discriminant_spec, far_root_spec, lemma_sphere_hit_exact, lemma_sphere_hit_in_window,
    near_root_spec, outside, quadratic_spec, root_in_window_spec, sphere_hit_gives, SphereData,
};
use crate::vec3::{
    difference_gives, dot_by, dot_front_by, dot_gives, dot_req, reflect_by, reflect_gives,
    reflect_req, scaled_gives, Vec3,
};

verus! {

/// The dot product in the whole numbers.
pub open spec fn whole_dot(a: Vec3<i64>, b: Vec3<i64>) -> int {
    a.x * b.x + a.y * b.y + a.z * b.z
}

/// Over the whole numbers a dot product that can be formed comes to the
/// sum of the three products.
pub proof fn lemma_whole_dot(a: Vec3<i64>, b: Vec3<i64>, d: i64)
    requires
        dot_req(a, b),
        dot_gives(a, b, d),
    ensures
        d == whole_dot(a, b),
{
    let (px, py, xy, pz) = choose|px: i64, py: i64, xy: i64, pz: i64| #[trigger]
        dot_by(a, b, px, py, xy, pz, d);
    assert(mul_gives(a.x, b.x, px) && mul_gives(a.y, b.y, py));
    assert(dot_front_by(a, b, px, py, xy) && mul_gives(a.z, b.z, pz));
}

/// Over the whole numbers a mirrored vector that can be formed comes to
/// `v - n * (2 * (v . n))`, coordinate by coordinate.
pub proof fn lemma_whole_reflect(v: Vec3<i64>, n: Vec3<i64>, out: Vec3<i64>)
    requires
        reflect_req(v, n),
        reflect_gives(v, n, out),
    ensures
        out.x == v.x - n.x * (2 * whole_dot(v, n)),
        out.y == v.y - n.y * (2 * whole_dot(v, n)),
        out.z == v.z - n.z * (2 * whole_dot(v, n)),
{
    let (d, two, k, step) = choose|d: i64, two: i64, k: i64, step: Vec3<i64>| #[trigger]
        reflect_by(v, n, d, two, k, step, out);
    lemma_whole_dot(v, n, d);
    assert(dot_gives(v, n, d) && number_gives(2, two));
    assert(two == 2);
    assert(mul_gives(two, d, k));
    assert(k == 2 * whole_dot(v, n));
    assert(scaled_gives(n, k, step));
    assert(step.x == n.x * k && step.y == n.y * k && step.z == n.z * k);
    assert(difference_gives(v, step, out));
}

/// Mirroring a vector twice at the same unit normal gives the vector back,
/// where the arithmetic is exact: over the whole numbers, for every vector
/// `v` and every normal `n` of the length one for which the mirrored
/// vectors can be formed.
pub proof fn lemma_reflect_is_its_own_inverse(
    v: Vec3<i64>,
    n: Vec3<i64>,
    once: Vec3<i64>,
    twice: Vec3<i64>,
)
    requires
        whole_dot(n, n) == 1,
        reflect_req(v, n),
        reflect_gives(v, n, once),
        reflect_req(once, n),
        reflect_gives(once, n, twice),
    ensures
        twice == v,
{
    lemma_whole_reflect(v, n, once);
    lemma_whole_reflect(once, n, twice);
    let d = whole_dot(v, n);
    let e = whole_dot(once, n);
    let (vx, vy, vz) = (v.x as int, v.y as int, v.z as int);
    let (nx, ny, nz) = (n.x as int, n.y as int, n.z as int);
    assert(e == -d) by (nonlinear_arith)
        requires
            d == vx * nx + vy * ny + vz * nz,
            e == (vx - nx * (2 * d)) * nx + (vy - ny * (2 * d)) * ny + (vz - nz * (2 * d)) * nz,
            nx * nx + ny * ny + nz * nz == 1,
    ;
    assert(twice.x == v.x) by (nonlinear_arith)
        requires
            twice.x == (vx - nx * (2 * d)) - nx * (2 * e),
            e == -d,
            vx == v.x,
    ;
    assert(twice.y == v.y) by (nonlinear_arith)
        requires
            twice.y == (vy - ny * (2 * d)) - ny * (2 * e),
            e == -d,
            vy == v.y,
    ;
    assert(twice.z == v.z) by (nonlinear_arith)
        requires
            twice.z == (vz - nz * (2 * d)) - nz * (2 * e),
            e == -d,
            vz == v.z,
    ;
}

/// The order of the whole numbers ranks them.
pub proof fn lemma_whole_numbers_are_ranked()
    ensures
        ranked::<i64>(),
{
    reveal(ranked);
}

/// Whether `sqrt` gives one square root only for each scalar.
pub open spec fn single_valued<S, F: Fn(S) -> S>(sqrt: F) -> bool {
    forall|x: S, a: S, b: S|
        #![trigger call_ensures(sqrt, (x,), a), call_ensures(sqrt, (x,), b)]
        call_ensures(sqrt, (x,), a) && call_ensures(sqrt, (x,), b) ==> a == b
}

/// Whether the surfaces `objects` answer the ray `r` as the spheres
/// `spheres` do, each with the square roots of `sqrt`, whatever the window.
pub open spec fn answer_as_spheres<S: Scalar, M: Clone, H: Hittable<S, M>, F: Fn(S) -> S>(
    objects: Seq<H>,
    spheres: Seq<SphereData<S, M>>,
    r: Ray<S>,
    sqrt: F,
) -> bool {
    &&& objects.len() == spheres.len()
    &&& forall|i: int, lo: S, hi: S, answer: Option<HitRecord<S, M>>|
        #![trigger hit_gives(objects[i], r, lo, hi, answer)]
        0 <= i < objects.len() && hit_gives(objects[i], r, lo, hi, answer) ==> sphere_hit_gives(
            spheres[i],
            r,
            lo,
            hi,
            sqrt,
            answer,
        )
}

/// In a sweep over spheres every hit found lies between `t_min` and
/// `t_max`, and so does the end of every window.
pub proof fn lemma_sphere_hits_in_range<S: Scalar, M: Clone, H: Hittable<S, M>, F: Fn(S) -> S>(
    objects: Seq<H>,
    spheres: Seq<SphereData<S, M>>,
    sqrt: F,
    r: Ray<S>,
    t_min: S,
    t_max: S,
    outs: Seq<Option<HitRecord<S, M>>>,
    n: int,
)
    requires
        ordered::<S>(),
        ranked::<S>(),
        answer_as_spheres(objects, spheres, r, sqrt),
        nearest_sweep(objects, r, t_min, t_max, outs),
        0 <= n <= outs.len(),
    ensures
        forall|j: int|
            0 <= j < n ==> (#[trigger] outs[j] matches Some(rec) ==> at_most(rec.t, t_max)
                && !below(rec.t, t_min)),
        at_most(window_end(nearest_hit(outs.take(n)), t_max), t_max),
    decreases n,
{
    lemma_nearest_hit_is_earliest_of_least(outs.take(n));
    lemma_ranked_total(t_max, t_max);
    if n > 0 {
        lemma_sphere_hits_in_range(objects, spheres, sqrt, r, t_min, t_max, outs, n - 1);
        let j = n - 1;
        let window = window_end(nearest_hit(outs.take(j)), t_max);
        lemma_nearest_sweep_len(objects, r, t_min, t_max, outs);
        lemma_nearest_sweep_at(objects, r, t_min, t_max, outs, j);
        if let Some(rec) = outs[j] {
            lemma_sphere_hit_in_window(spheres[j], r, t_min, window, sqrt, rec);
            lemma_ranked_total(rec.t, window);
            lemma_ranked_total(window, rec.t);
            assert(at_most(rec.t, window));
            lemma_ranked_transitive(rec.t, window, t_max);
        }
    }
    if let Some(best) = nearest_hit(outs.take(n)) {
        let k = choose|k: int| #[trigger] earliest_of_least(outs.take(n), best, k);
        assert(outs.take(n)[k] == outs[k]);
    }
}

/// The nearest sphere wins. Over scalars whose arithmetic is exact and
/// which their order ranks, with a square root that has one value only, let
/// a sweep over surfaces that answer as spheres end with `res`. Then `res`
/// lies between `t_min` and `t_max`, and whatever hit `alone` one of the
/// spheres has by itself between `t_min` and `t_max`, `res` is a hit with a
/// parameter that is at most that of `alone`.
pub proof fn lemma_nearest_sphere_wins<S: Scalar, M: Clone, H: Hittable<S, M>, F: Fn(S) -> S>(
    objects: Seq<H>,
    spheres: Seq<SphereData<S, M>>,
    sqrt: F,
    r: Ray<S>,
    t_min: S,
    t_max: S,
    res: Option<HitRecord<S, M>>,
    i: int,
    alone: HitRecord<S, M>,
)
    requires
        exact::<S>(),
        ordered::<S>(),
        ranked::<S>(),
        single_valued(sqrt),
        answer_as_spheres(objects, spheres, r, sqrt),
        nearest_sweep_gives(objects, r, t_min, t_max, res),
        0 <= i < objects.len(),
        hit_gives(objects[i], r, t_min, t_max, Some(alone)),
    ensures
        res matches Some(best) && at_most(best.t, alone.t) && !outside(best.t, t_min, t_max),
{
    let outs = choose|outs: Seq<Option<HitRecord<S, M>>>|
        #[trigger] nearest_sweep(objects, r, t_min, t_max, outs) && res == nearest_hit(outs);
    lemma_nearest_sweep_len(objects, r, t_min, t_max, outs);
    lemma_nearest_sweep_at(objects, r, t_min, t_max, outs, i);
    let n = outs.len() as int;
    assert(outs.take(n) =~= outs);
    lemma_nearest_hit_is_earliest_of_least(outs);
    lemma_sphere_hits_in_range(objects, spheres, sqrt, r, t_min, t_max, outs, n);
    lemma_sphere_hits_in_range(objects, spheres, sqrt, r, t_min, t_max, outs, i);
    lemma_nearest_hit_is_earliest_of_least(outs.take(i));

    let before = nearest_hit(outs.take(i));
    let window = window_end(before, t_max);
    lemma_sphere_hit_exact(spheres[i], r, t_min, window, sqrt, outs[i]);
    lemma_sphere_hit_exact(spheres[i], r, t_min, t_max, sqrt, Some(alone));
    lemma_sphere_hit_in_window(spheres[i], r, t_min, t_max, sqrt, alone);

    let q = quadratic_spec(spheres[i].center, spheres[i].radius, r);
    let delta = discriminant_spec(q);
    let whole = choose|delta_sqrt: S| #[trigger]
        call_ensures(sqrt, (delta,), delta_sqrt) && match root_in_window_spec(
            q,
            delta_sqrt,
            t_min,
            t_max,
        ) {
            None => Some(alone) is None,
            Some(t) => Some(alone) matches Some(rec) && rec.t == t,
        };
    let narrow = choose|delta_sqrt: S| #[trigger]
        call_ensures(sqrt, (delta,), delta_sqrt) && match root_in_window_spec(
            q,
            delta_sqrt,
            t_min,
            window,
        ) {
            None => outs[i] is None,
            Some(t) => outs[i] matches Some(rec) && rec.t == t,
        };
    assert(whole == narrow);
    let near = near_root_spec(q, whole);
    let far = far_root_spec(q, whole);

    if let Some(earlier) = before {
        let k = choose|k: int| #[trigger] earliest_of_least(outs.take(i), earlier, k);
        assert(outs.take(i)[k] == outs[k]);
        assert(outs[k] == Some(earlier));
        assert(res is Some);
        let best = res.unwrap();
        assert(at_most(best.t, earlier.t));
        assert(at_most(earlier.t, t_max));
        lemma_ranked_total(alone.t, window);
        lemma_ranked_total(window, alone.t);
        if outside(alone.t, t_min, window) {
            assert(above(alone.t, window));
            assert(at_most(window, alone.t));
            lemma_ranked_transitive(best.t, window, alone.t);
        } else {
            lemma_ranked_total(near, window);
            lemma_ranked_total(window, near);
            lemma_ranked_total(near, t_max);
            lemma_ranked_total(t_max, near);
            if !outside(near, t_min, window) {
                assert(outs[i] matches Some(rec) && rec.t == near);
                assert(at_most(near, window));
                lemma_ranked_transitive(near, window, t_max);
                assert(!outside(near, t_min, t_max));
                assert(alone.t == near);
            } else {
                if !outside(near, t_min, t_max) {
                    assert(alone.t == near);
                } else {
                    assert(alone.t == far);
                    assert(outs[i] matches Some(rec) && rec.t == far);
                }
            }
        }
    } else {
        assert(window == t_max);
        assert(outs[i] matches Some(rec) && rec.t == alone.t);
    }
    let best = res.unwrap();
    let at = choose|at: int| #[trigger] earliest_of_least(outs, best, at);
    assert(outs[at] == Some(best));
}

} // verus!
