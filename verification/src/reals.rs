//! Laws that hold where the scalars are real numbers.
use vstd::prelude::*;
use vstd::std_specs::ops::{AddSpec, DivSpec, MulSpec, NegSpec, SubSpec};
use crate::hittable::HitRecord;
use crate::integrator::sky_spec;
use crate::material::{
    cos_theta_spec, metal_direction_spec, metal_spec, mirrors_spec, reflectance_spec,
    refraction_ratio_spec, MetalData,
};
use crate::ray::Ray;
use crate::scalar::{above, below, exact, number_spec, ordered, Scalar};
use crate::vec3::{dot_spec, reflect_spec, unit_vector_spec, Vec3};

verus! {

/// Whether `value` reads the scalars of `S` as real numbers in such a way
/// that the arithmetic and the order of `S` are those of the real numbers:
/// no two scalars read alike, the scalar for a whole number reads as that
/// number, and negation, sum, difference, product, quotient and the tests
/// of `S` read as those of the real numbers.
#[verifier::opaque]
pub open spec fn reads_as_reals<S: Scalar>(value: spec_fn(S) -> real) -> bool {
    &&& exact::<S>()
    &&& ordered::<S>()
    &&& forall|a: S, b: S| #![trigger value(a), value(b)] value(a) == value(b) ==> a == b
    &&& forall|n: i8| #![trigger number_spec::<S>(n)] value(number_spec::<S>(n)) == n as real
    &&& forall|a: S| #![trigger a.neg_spec()] value(a.neg_spec()) == -value(a)
    &&& forall|a: S, b: S| #![trigger a.add_spec(b)] value(a.add_spec(b)) == value(a) + value(b)
    &&& forall|a: S, b: S| #![trigger a.sub_spec(b)] value(a.sub_spec(b)) == value(a) - value(b)
    &&& forall|a: S, b: S| #![trigger a.mul_spec(b)] value(a.mul_spec(b)) == value(a) * value(b)
    &&& forall|a: S, b: S|
        #![trigger a.div_spec(b)]
        value(b) != 0real ==> value(a.div_spec(b)) * value(b) == value(a)
    &&& forall|a: S, b: S| #![trigger below(a, b)] below(a, b) <==> value(a) < value(b)
    &&& forall|a: S, b: S| #![trigger above(a, b)] above(a, b) <==> value(a) > value(b)
}

/// What reading the scalars as real numbers says of two scalars.
pub proof fn lemma_reads<S: Scalar>(value: spec_fn(S) -> real, a: S, b: S)
    requires
        reads_as_reals(value),
    ensures
        exact::<S>(),
        ordered::<S>(),
        value(a) == value(b) ==> a == b,
        value(a.neg_spec()) == -value(a),
        value(a.add_spec(b)) == value(a) + value(b),
        value(a.sub_spec(b)) == value(a) - value(b),
        value(a.mul_spec(b)) == value(a) * value(b),
        value(b) != 0real ==> value(a.div_spec(b)) * value(b) == value(a),
        below(a, b) <==> value(a) < value(b),
        above(a, b) <==> value(a) > value(b),
{
    reveal(reads_as_reals);
}

/// What reading the scalars as real numbers says of the scalar for a whole
/// number.
pub proof fn lemma_reads_number<S: Scalar>(value: spec_fn(S) -> real, n: i8)
    requires
        reads_as_reals(value),
    ensures
        value(number_spec::<S>(n)) == n as real,
{
    reveal(reads_as_reals);
}

/// The dot product of two vectors as a real number.
pub open spec fn real_dot<S: Scalar>(value: spec_fn(S) -> real, a: Vec3<S>, b: Vec3<S>) -> real {
    value(a.x) * value(b.x) + value(a.y) * value(b.y) + value(a.z) * value(b.z)
}

/// Where the scalars read as real numbers, the dot product reads as the sum
/// of the three products.
pub proof fn lemma_real_dot<S: Scalar>(value: spec_fn(S) -> real, a: Vec3<S>, b: Vec3<S>)
    requires
        reads_as_reals(value),
    ensures
        value(dot_spec(a, b)) == real_dot(value, a, b),
{
    let px = a.x.mul_spec(b.x);
    let py = a.y.mul_spec(b.y);
    let pz = a.z.mul_spec(b.z);
    lemma_reads(value, a.x, b.x);
    lemma_reads(value, a.y, b.y);
    lemma_reads(value, a.z, b.z);
    lemma_reads(value, px, py);
    lemma_reads(value, px.add_spec(py), pz);
}

/// A product does not change where one factor is replaced by its equal.
pub proof fn lemma_same_product(a: real, b: real, c: real)
    requires
        b == c,
    ensures
        a * b == a * c,
{
}

/// The dot product of a mirrored vector with the normal, as a polynomial.
pub proof fn lemma_mirrored_dot(vx: real, vy: real, vz: real, nx: real, ny: real, nz: real, d: real)
    ensures
        (vx - nx * (2real * d)) * nx + (vy - ny * (2real * d)) * ny + (vz - nz * (2real * d)) * nz
            == (vx * nx + vy * ny + vz * nz) - (2real * d) * (nx * nx + ny * ny + nz * nz),
{
    assert((vx - nx * (2real * d)) * nx == vx * nx - (2real * d) * (nx * nx)) by (nonlinear_arith);
    assert((vy - ny * (2real * d)) * ny == vy * ny - (2real * d) * (ny * ny)) by (nonlinear_arith);
    assert((vz - nz * (2real * d)) * nz == vz * nz - (2real * d) * (nz * nz)) by (nonlinear_arith);
    assert((2real * d) * (nx * nx + ny * ny + nz * nz) == (2real * d) * (nx * nx) + (2real * d) * (ny
        * ny) + (2real * d) * (nz * nz)) by (nonlinear_arith);
}

/// A coordinate mirrored once along `d` and once along `-d` is itself.
pub proof fn lemma_mirrored_back(vx: real, nx: real, d: real, e: real)
    requires
        e == -d,
    ensures
        (vx - nx * (2real * d)) - nx * (2real * e) == vx,
{
    assert(nx * (2real * e) == -(nx * (2real * d))) by (nonlinear_arith)
        requires
            e == -d,
    ;
}

/// Where the scalars read as real numbers, a mirrored vector reads as
/// `v - n * (2 * (v . n))`, coordinate by coordinate.
pub proof fn lemma_real_reflect<S: Scalar>(value: spec_fn(S) -> real, v: Vec3<S>, n: Vec3<S>)
    requires
        reads_as_reals(value),
    ensures
        value(reflect_spec(v, n).x) == value(v.x) - value(n.x) * (2real * real_dot(value, v, n)),
        value(reflect_spec(v, n).y) == value(v.y) - value(n.y) * (2real * real_dot(value, v, n)),
        value(reflect_spec(v, n).z) == value(v.z) - value(n.z) * (2real * real_dot(value, v, n)),
{
    lemma_real_dot(value, v, n);
    let d = dot_spec(v, n);
    let two = number_spec::<S>(2);
    let k = two.mul_spec(d);
    lemma_reads_number::<S>(value, 2);
    lemma_reads(value, two, d);
    let kr = 2real * real_dot(value, v, n);
    lemma_same_product(2real, value(d), real_dot(value, v, n));
    assert(value(k) == kr);
    let step = MulSpec::mul_spec(n, k);
    lemma_reads(value, n.x, k);
    lemma_reads(value, n.y, k);
    lemma_reads(value, n.z, k);
    lemma_same_product(value(n.x), value(k), kr);
    lemma_same_product(value(n.y), value(k), kr);
    lemma_same_product(value(n.z), value(k), kr);
    let out = SubSpec::sub_spec(v, step);
    assert(out == reflect_spec(v, n));
    lemma_reads(value, v.x, step.x);
    lemma_reads(value, v.y, step.y);
    lemma_reads(value, v.z, step.z);
}

/// Mirroring a vector twice at the same unit normal gives the vector back:
/// where the scalars read as real numbers, for every vector `v` and every
/// normal `n` of the length one.
pub proof fn lemma_reflect_twice_is_identity<S: Scalar>(
    value: spec_fn(S) -> real,
    v: Vec3<S>,
    n: Vec3<S>,
)
    requires
        reads_as_reals(value),
        real_dot(value, n, n) == 1real,
    ensures
        reflect_spec(reflect_spec(v, n), n) == v,
{
    let once = reflect_spec(v, n);
    let twice = reflect_spec(once, n);
    lemma_real_reflect(value, v, n);
    lemma_real_reflect(value, once, n);
    let d = real_dot(value, v, n);
    let e = real_dot(value, once, n);
    let (vx, vy, vz) = (value(v.x), value(v.y), value(v.z));
    let (nx, ny, nz) = (value(n.x), value(n.y), value(n.z));
    lemma_mirrored_dot(vx, vy, vz, nx, ny, nz, d);
    lemma_same_product(2real * d, nx * nx + ny * ny + nz * nz, 1real);
    assert(e == -d);
    lemma_same_product(nx, 2real * e, 2real * real_dot(value, once, n));
    lemma_mirrored_back(vx, nx, d, e);
    lemma_mirrored_back(vy, ny, d, e);
    lemma_mirrored_back(vz, nz, d, e);
    lemma_reads(value, twice.x, v.x);
    lemma_reads(value, twice.y, v.y);
    lemma_reads(value, twice.z, v.z);
}

/// A polished surface without fuzz mirrors exactly, whatever point is
/// drawn: where the scalars read as real numbers and the fuzz is zero, the
/// ray leaves along the mirrored direction of the incoming ray, and the
/// surface answers with that ray and its albedo where the direction leaves
/// the surface.
pub proof fn lemma_metal_without_fuzz_mirrors<S: Scalar, M>(
    value: spec_fn(S) -> real,
    metal: MetalData<S>,
    dir_in: Vec3<S>,
    rec: HitRecord<S, M>,
    sample: Vec3<S>,
)
    requires
        reads_as_reals(value),
        value(metal.fuzz) == 0real,
    ensures
        metal_direction_spec(metal.fuzz, dir_in, rec.normal, sample) == reflect_spec(
            dir_in,
            rec.normal,
        ),
        metal_spec(metal, dir_in, rec, sample) == if above(
            dot_spec(reflect_spec(dir_in, rec.normal), rec.normal),
            number_spec::<S>(0),
        ) {
            Some((metal.albedo, Ray { orig: rec.point, dir: reflect_spec(dir_in, rec.normal) }))
        } else {
            None
        },
{
    let mirrored = reflect_spec(dir_in, rec.normal);
    let blur = MulSpec::mul_spec(sample, metal.fuzz);
    let direction = AddSpec::add_spec(mirrored, blur);
    assert(direction == metal_direction_spec(metal.fuzz, dir_in, rec.normal, sample));
    lemma_reads(value, sample.x, metal.fuzz);
    lemma_reads(value, sample.y, metal.fuzz);
    lemma_reads(value, sample.z, metal.fuzz);
    lemma_same_product(value(sample.x), value(metal.fuzz), 0real);
    lemma_same_product(value(sample.y), value(metal.fuzz), 0real);
    lemma_same_product(value(sample.z), value(metal.fuzz), 0real);
    lemma_reads(value, mirrored.x, blur.x);
    lemma_reads(value, mirrored.y, blur.y);
    lemma_reads(value, mirrored.z, blur.z);
    lemma_reads(value, direction.x, mirrored.x);
    lemma_reads(value, direction.y, mirrored.y);
    lemma_reads(value, direction.z, mirrored.z);
}

/// Whether `sqrt` takes the square roots of the real numbers: of a scalar
/// that is not below zero it gives a scalar that is not below zero and
/// whose square is the scalar.
pub open spec fn takes_square_roots<S: Scalar, F: Fn(S) -> S>(
    value: spec_fn(S) -> real,
    sqrt: F,
) -> bool {
    forall|x: S, root: S| #[trigger]
        call_ensures(sqrt, (x,), root) && value(x) >= 0real ==> value(root) >= 0real && value(root)
            * value(root) == value(x)
}

/// A square is not below zero.
pub proof fn lemma_square_not_negative(x: real)
    ensures
        x * x >= 0real,
{
    assert(x * x >= 0real) by (nonlinear_arith);
}

/// The square of a quotient times the square of the divisor is the square
/// of the dividend.
pub proof fn lemma_quotient_squared(u: real, l: real, v: real)
    requires
        u * l == v,
    ensures
        (u * u) * (l * l) == v * v,
{
    assert((u * u) * (l * l) == (u * l) * (u * l)) by (nonlinear_arith);
    lemma_same_product(u * l, u * l, v);
    lemma_same_product(v, u * l, v);
    assert((u * l) * (u * l) == (u * l) * v);
    assert((u * l) * v == v * (u * l)) by (nonlinear_arith);
}

/// A number that leaves a number other than zero unchanged as its factor is
/// one.
pub proof fn lemma_factor_one(u: real, d: real)
    requires
        u * d == d,
        d != 0real,
    ensures
        u == 1real,
{
    assert((u - 1real) * d == 0real) by (nonlinear_arith)
        requires
            u * d == d,
    ;
    assert(u - 1real == 0real) by (nonlinear_arith)
        requires
            (u - 1real) * d == 0real,
            d != 0real,
    ;
}

/// Of the numbers that are not below zero only one has the square one.
pub proof fn lemma_root_of_one(t: real)
    requires
        t >= 0real,
        t * t == 1real,
    ensures
        t == 1real,
{
    assert((t - 1real) * (t + 1real) == 0real) by (nonlinear_arith)
        requires
            t * t == 1real,
    ;
    assert(t - 1real == 0real) by (nonlinear_arith)
        requires
            (t - 1real) * (t + 1real) == 0real,
            t + 1real > 0real,
    ;
}

/// A vector brought to the length one has the length one: where the scalars
/// read as real numbers and `sqrt` takes their square roots, for every
/// vector `v` other than the zero vector, whatever `unit` comes of bringing
/// `v` to the length one has a length that is the scalar one.
pub proof fn lemma_unit_vector_has_length_one<S: Scalar, F: Fn(S) -> S>(
    value: spec_fn(S) -> real,
    sqrt: F,
    v: Vec3<S>,
    unit: Vec3<S>,
    length: S,
)
    requires
        reads_as_reals(value),
        takes_square_roots(value, sqrt),
        real_dot(value, v, v) != 0real,
        unit_vector_spec(v, sqrt, unit),
        call_ensures(sqrt, (dot_spec(unit, unit),), length),
    ensures
        value(length) == 1real,
        length == number_spec::<S>(1),
{
    let full = choose|full: S| #[trigger]
        call_ensures(sqrt, (dot_spec(v, v),), full) && unit == DivSpec::div_spec(v, full);
    lemma_real_dot(value, v, v);
    lemma_real_dot(value, unit, unit);
    let (vx, vy, vz) = (value(v.x), value(v.y), value(v.z));
    let (ux, uy, uz) = (value(unit.x), value(unit.y), value(unit.z));
    let l = value(full);
    let d = real_dot(value, v, v);
    let u = real_dot(value, unit, unit);
    lemma_square_not_negative(vx);
    lemma_square_not_negative(vy);
    lemma_square_not_negative(vz);
    assert(d > 0real);
    assert(l >= 0real && l * l == d);
    if l == 0real {
        assert(l * l == 0real) by (nonlinear_arith)
            requires
                l == 0real,
        ;
    }
    assert(l != 0real);
    lemma_reads(value, v.x, full);
    lemma_reads(value, v.y, full);
    lemma_reads(value, v.z, full);
    lemma_quotient_squared(ux, l, vx);
    lemma_quotient_squared(uy, l, vy);
    lemma_quotient_squared(uz, l, vz);
    assert((ux * ux + uy * uy + uz * uz) * (l * l) == (ux * ux) * (l * l) + (uy * uy) * (l * l) + (uz
        * uz) * (l * l)) by (nonlinear_arith);
    lemma_same_product(u, l * l, d);
    assert(u * d == d);
    lemma_factor_one(u, d);
    lemma_square_not_negative(ux);
    let t = value(length);
    assert(t >= 0real && t * t == 1real);
    lemma_root_of_one(t);
    lemma_reads_number::<S>(value, 1);
    lemma_reads(value, length, number_spec::<S>(1));
}

/// Only zero has the square zero.
pub proof fn lemma_root_of_zero(t: real)
    requires
        t * t == 0real,
    ensures
        t == 0real,
{
    assert(t == 0real) by (nonlinear_arith)
        requires
            t * t == 0real,
    ;
}

/// The share that glass of the index three halves mirrors head-on, before
/// it is squared: minus a fifth.
pub proof fn lemma_glass_share(r: real, top: real, bottom: real, ir: real)
    requires
        2real * ir == 3real,
        top == 1real - ir,
        bottom == 1real + ir,
        r * bottom == top,
    ensures
        5real * r == -1real,
        25real * (r * r) == 1real,
{
    assert(2real * bottom == 5real);
    assert(2real * top == -1real);
    assert(r * (2real * bottom) == 2real * top) by (nonlinear_arith)
        requires
            r * bottom == top,
    ;
    lemma_same_product(r, 2real * bottom, 5real);
    assert(5real * r == -1real);
    assert((5real * r) * (5real * r) == 25real * (r * r)) by (nonlinear_arith);
    lemma_same_product(5real * r, 5real * r, -1real);
}

/// Glass met head-on mostly lets the ray through. Where the scalars read as
/// real numbers and `sqrt` takes their square roots, let a ray with the
/// unit direction `unit` meet the front face of a clear surface with the
/// index three halves straight against the unit normal. Then the cosine of
/// the angle is one, its sine is zero, the surface can bend the ray, its
/// reflectance is one in twenty-five, and it mirrors the ray just where the
/// number drawn is below one in twenty-five: of a hundred draws spread
/// evenly between zero and one, four.
pub proof fn lemma_glass_head_on<S: Scalar, F: Fn(S) -> S>(
    value: spec_fn(S) -> real,
    sqrt: F,
    ir: S,
    unit: Vec3<S>,
    normal: Vec3<S>,
    sin: S,
    draw: S,
)
    requires
        reads_as_reals(value),
        takes_square_roots(value, sqrt),
        2real * value(ir) == 3real,
        real_dot(value, unit, normal) == -1real,
        call_ensures(
            sqrt,
            (
                number_spec::<S>(1).sub_spec(
                    cos_theta_spec(unit, normal).mul_spec(cos_theta_spec(unit, normal)),
                ),
            ),
            sin,
        ),
    ensures
        cos_theta_spec(unit, normal) == number_spec::<S>(1),
        value(sin) == 0real,
        !above(refraction_ratio_spec(ir, true).mul_spec(sin), number_spec::<S>(1)),
        25real * value(reflectance_spec(cos_theta_spec(unit, normal), ir)) == 1real,
        mirrors_spec(ir, true, cos_theta_spec(unit, normal), sin, draw) <==> 25real * value(draw)
            < 1real,
{
    let one = number_spec::<S>(1);
    lemma_reads_number::<S>(value, 1);
    lemma_real_dot(value, unit, normal);
    let d = dot_spec(unit, normal);
    let minus_d = d.neg_spec();
    lemma_reads(value, d, d);
    lemma_reads(value, minus_d, one);
    let cos = cos_theta_spec(unit, normal);
    assert(cos == one);

    let squared = one.mul_spec(one);
    lemma_reads(value, one, one);
    lemma_same_product(value(one), value(one), 1real);
    assert(value(squared) == 1real);
    let gap = one.sub_spec(squared);
    lemma_reads(value, one, squared);
    assert(value(gap) == 0real);
    assert(value(sin) >= 0real && value(sin) * value(sin) == 0real);
    lemma_root_of_zero(value(sin));

    let ratio = refraction_ratio_spec(ir, true);
    let reach = ratio.mul_spec(sin);
    lemma_reads(value, ratio, sin);
    lemma_same_product(value(ratio), value(sin), 0real);
    assert(value(reach) == 0real);
    lemma_reads(value, reach, one);
    assert(!above(reach, one));

    let top = one.sub_spec(ir);
    let bottom = one.add_spec(ir);
    lemma_reads(value, one, ir);
    let share = top.div_spec(bottom);
    lemma_reads(value, top, bottom);
    lemma_glass_share(value(share), value(top), value(bottom), value(ir));
    let r0 = share.mul_spec(share);
    lemma_reads(value, share, share);
    let base = one.sub_spec(cos);
    assert(value(base) == 0real);
    let square = base.mul_spec(base);
    lemma_reads(value, base, base);
    lemma_same_product(value(base), value(base), 0real);
    assert(value(square) == 0real);
    let fourth = square.mul_spec(square);
    lemma_reads(value, square, square);
    lemma_same_product(value(square), value(square), 0real);
    let fifth = fourth.mul_spec(base);
    lemma_reads(value, fourth, base);
    lemma_same_product(value(fourth), value(base), 0real);
    assert(value(fifth) == 0real);
    let rest = one.sub_spec(r0);
    let tail = rest.mul_spec(fifth);
    lemma_reads(value, rest, fifth);
    lemma_same_product(value(rest), value(fifth), 0real);
    let out = r0.add_spec(tail);
    lemma_reads(value, r0, tail);
    assert(out == reflectance_spec(cos, ir));
    assert(25real * value(out) == 1real);
    lemma_reads(value, out, draw);
}

/// A share `p / q` of a number, taken `q` times, is `p` times the number.
pub proof fn lemma_share_of(g: real, t: real, p: real, q: real)
    requires
        q * g == p,
    ensures
        q * (g * t) == p * t,
{
    assert(q * (g * t) == (q * g) * t) by (nonlinear_arith);
    assert((q * g) * t == t * (q * g)) by (nonlinear_arith);
    lemma_same_product(t, q * g, p);
    assert(t * p == p * t) by (nonlinear_arith);
}

/// The light of the sky is a blend of white and blue. Where the scalars read
/// as real numbers, the light along a unit direction with the height `y`,
/// which lies between minus one and one, has a red part between a half and
/// one, a green part between seven tenths and one, and the blue part one:
/// with `t` for `(y + 1) / 2`, its parts are `1 - t / 2`, `1 - 3 * t / 10`
/// and `1`.
pub proof fn lemma_sky_is_a_blend<S: Scalar>(value: spec_fn(S) -> real, y: S)
    requires
        reads_as_reals(value),
        -1real <= value(y) <= 1real,
    ensures
        4real * value(sky_spec(y).x) == 3real - value(y),
        20real * value(sky_spec(y).y) == 17real - 3real * value(y),
        value(sky_spec(y).z) == 1real,
        1real <= 2real * value(sky_spec(y).x) <= 2real,
        7real <= 10real * value(sky_spec(y).y) <= 10real,
{
    let one = number_spec::<S>(1);
    let two = number_spec::<S>(2);
    let seven = number_spec::<S>(7);
    let ten = number_spec::<S>(10);
    lemma_reads_number::<S>(value, 1);
    lemma_reads_number::<S>(value, 2);
    lemma_reads_number::<S>(value, 7);
    lemma_reads_number::<S>(value, 10);
    let half = one.div_spec(two);
    lemma_reads(value, one, two);
    let h = value(half);
    assert(2real * h == 1real);
    let lifted = y.add_spec(one);
    lemma_reads(value, y, one);
    let t = half.mul_spec(lifted);
    lemma_reads(value, half, lifted);
    let tr = value(t);
    lemma_share_of(h, value(lifted), 1real, 2real);
    assert(2real * tr == value(y) + 1real);
    let rest = one.sub_spec(t);
    lemma_reads(value, one, t);
    let green = seven.div_spec(ten);
    lemma_reads(value, seven, ten);
    let g = value(green);
    assert(10real * g == 7real);

    let near_x = one.mul_spec(rest);
    lemma_reads(value, one, rest);
    lemma_same_product(value(rest), value(one), 1real);
    assert(value(one) * value(rest) == value(rest) * value(one)) by (nonlinear_arith);
    assert(value(near_x) == 1real - tr);
    let far_x = half.mul_spec(t);
    lemma_reads(value, half, t);
    lemma_share_of(h, tr, 1real, 2real);
    let far_y = green.mul_spec(t);
    lemma_reads(value, green, t);
    lemma_share_of(g, tr, 7real, 10real);
    let far_z = one.mul_spec(t);
    lemma_reads(value, one, t);
    lemma_same_product(tr, value(one), 1real);
    assert(value(one) * tr == tr * value(one)) by (nonlinear_arith);
    assert(value(far_z) == tr);

    let out = sky_spec(y);
    assert(out.x == near_x.add_spec(far_x));
    assert(out.y == near_x.add_spec(far_y));
    assert(out.z == near_x.add_spec(far_z));
    lemma_reads(value, near_x, far_x);
    lemma_reads(value, near_x, far_y);
    lemma_reads(value, near_x, far_z);
}

} // verus!
