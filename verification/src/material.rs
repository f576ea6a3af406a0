//! Materials: what becomes of a ray at a surface.
//!
//! A material that draws at random is handed what was drawn, so that its
//! answer hangs on its arguments alone.
use vstd::prelude::*;
use vstd::std_specs::convert::FromSpec;
use vstd::std_specs::ops::{AddSpec, DivSpec, MulSpec, NegSpec, SubSpec};
use core::ops::Neg;
use crate::hittable::HitRecord;
use crate::ray::Ray;
use crate::scalar::{
    above, add_gives, below, div_gives, exact, gt_gives, lesser, lesser_gives, mul_gives,
    neg_gives, number, number_gives, number_spec, ordered, sub_gives, Scalar,
};
use crate::utils::{clamp, clamp_spec, clamps_to};
use crate::vec3::{
    dot_gives, dot_req, dot_spec, near_zero_gives, near_zero_req, near_zero_spec,
    near_zero_threshold_spec, reflect_gives, reflect_req,
    reflect_spec, refract_gives, refract_req, refract_spec, scaled_gives, sum_gives,
    unit_vector_gives, unit_vector_req, unit_vector_spec, Color, Vec3,
};

verus! {

/// The way in which a surface answers a ray that meets it.
pub trait Material<S>: Sized {
    /// What becomes of the ray `r_in` at the hit `rec`: the ray that leaves
    /// the surface and the colour by which its light is weakened, or nothing
    /// where the surface swallows the ray.
    fn scatter(&self, r_in: &Ray<S>, rec: &HitRecord<S, Self>) -> Option<(Color<S>, Ray<S>)>;
}

/// Whether `answer` is one that `material` can give for the ray `r_in` at
/// the hit `rec`.
pub open spec fn scatter_gives<S, M: Material<S>>(
    material: M,
    r_in: Ray<S>,
    rec: HitRecord<S, M>,
    answer: Option<(Color<S>, Ray<S>)>,
) -> bool {
    call_ensures(M::scatter, (&material, &r_in, &rec), answer)
}

/// A matt surface, which sends light on in every direction.
#[derive(Debug)]
pub struct Lambertian<S> {
    albedo: Color<S>,
}

impl<S> View for Lambertian<S> {
    type V = Color<S>;

    /// The colour that the surface gives back.
    closed spec fn view(&self) -> Color<S> {
        self.albedo
    }
}

/// Whether a matt surface with the colour `albedo` can answer at the hit
/// `rec` with `res`, given the unit vector `random_unit` drawn for it.
///
/// The ray leaves from the point of the hit along the normal plus
/// `random_unit`, or along the normal itself where that sum is found too
/// near to the zero vector, and its light is weakened by `albedo`.
pub open spec fn lambertian_gives<S: Scalar + From<i32>, M>(
    albedo: Color<S>,
    rec: HitRecord<S, M>,
    random_unit: Vec3<S>,
    res: Option<(Color<S>, Ray<S>)>,
) -> bool {
    exists|direction: Vec3<S>, degenerate: bool|
        {
            &&& #[trigger] sum_gives(rec.normal, random_unit, direction)
            &&& #[trigger] near_zero_gives(direction, degenerate)
            &&& res == Some(
                (
                    albedo,
                    Ray {
                        orig: rec.point,
                        dir: if degenerate {
                            rec.normal
                        } else {
                            direction
                        },
                    },
                ),
            )
        }
}

/// The answer of a matt surface with the colour `albedo` at the hit `rec`,
/// over scalars whose arithmetic is exact and whose tests go by their
/// order.
pub open spec fn lambertian_spec<S: Scalar + From<i32>, M>(
    albedo: Color<S>,
    rec: HitRecord<S, M>,
    random_unit: Vec3<S>,
) -> Option<(Color<S>, Ray<S>)> {
    let direction = AddSpec::add_spec(rec.normal, random_unit);
    Some(
        (
            albedo,
            Ray {
                orig: rec.point,
                dir: if near_zero_spec(direction, near_zero_threshold_spec::<S>()) {
                    rec.normal
                } else {
                    direction
                },
            },
        ),
    )
}

impl<S> Lambertian<S> {
    /// The matt surface that gives back the colour `albedo`.
    pub fn new(albedo: Color<S>) -> (m: Self)
        ensures
            m@ == albedo,
    {
        Lambertian { albedo }
    }
}

impl<S: Copy> Lambertian<S> {
    /// The colour that the surface gives back.
    pub fn albedo(&self) -> (c: Color<S>)
        ensures
            c == self@,
    {
        self.albedo
    }
}

impl<S: Scalar + From<i32>> Lambertian<S> {
    /// The answer of the surface at the hit `rec`, given a unit vector drawn
    /// at random.
    ///
    /// The surface never swallows a ray, and the light is weakened by
    /// exactly its albedo.
    pub fn scatter<M>(&self, rec: &HitRecord<S, M>, random_unit: Vec3<S>) -> (res: Option<
        (Color<S>, Ray<S>),
    >)
        requires
            rec.normal.add_req(random_unit),
            near_zero_req::<S>(),
        ensures
            lambertian_gives(self@, *rec, random_unit, res),
            res matches Some((attenuation, scattered)) && attenuation == self@ && scattered.orig
                == rec.point,
            exact::<S>() && ordered::<S>() && <S as FromSpec<i32>>::obeys_from_spec() ==> res
                == lambertian_spec(self@, *rec, random_unit),
    {
        let mut scatter_direction = rec.normal + random_unit;
        let ghost direction = scatter_direction;
        let degenerate = scatter_direction.near_zero();
        if degenerate {
            scatter_direction = rec.normal;
        }
        let res = Some((self.albedo, Ray::new(rec.point, scatter_direction)));
        proof {
            assert(sum_gives(rec.normal, random_unit, direction) && near_zero_gives(
                direction,
                degenerate,
            ));
        }
        res
    }
}

/// A polished surface, which mirrors light, the more blurred the greater its
/// fuzz.
#[derive(Debug)]
pub struct Metal<S> {
    albedo: Color<S>,
    fuzz: S,
}

/// What a polished surface is made of.
pub struct MetalData<S> {
    /// The colour that the surface gives back.
    pub albedo: Color<S>,
    /// How far a mirrored ray is blurred, from zero to one.
    pub fuzz: S,
}

impl<S> View for Metal<S> {
    type V = MetalData<S>;

    closed spec fn view(&self) -> MetalData<S> {
        MetalData { albedo: self.albedo, fuzz: self.fuzz }
    }
}

/// Whether `fuzz`, limited to the interval from zero to one, can come to
/// `out`.
pub open spec fn fuzz_gives<S: Scalar>(fuzz: S, out: S) -> bool {
    exists|zero: S, one: S|
        {
            &&& #[trigger] number_gives(0, zero)
            &&& #[trigger] number_gives(1, one)
            &&& clamps_to(fuzz, zero, one, out)
        }
}

/// Whether a polished surface can answer the ray along `dir_in` at the hit
/// `rec` with `res`, by way of the mirrored direction `reflected`, of the
/// blur `blur`, of the leaving direction `direction`, of its dot product
/// `d` with the normal and of the scalar `zero` for the number zero.
pub open spec fn metal_by<S: Scalar, M>(
    metal: MetalData<S>,
    dir_in: Vec3<S>,
    rec: HitRecord<S, M>,
    sample: Vec3<S>,
    reflected: Vec3<S>,
    blur: Vec3<S>,
    direction: Vec3<S>,
    d: S,
    zero: S,
    res: Option<(Color<S>, Ray<S>)>,
) -> bool {
    &&& reflect_gives(dir_in, rec.normal, reflected)
    &&& scaled_gives(sample, metal.fuzz, blur)
    &&& sum_gives(reflected, blur, direction)
    &&& dot_gives(direction, rec.normal, d)
    &&& number_gives(0, zero)
    &&& {
        ||| gt_gives(d, zero, true) && res == Some(
            (metal.albedo, Ray { orig: rec.point, dir: direction }),
        )
        ||| gt_gives(d, zero, false) && res is None
    }
}

/// Whether a polished surface can answer the ray along `dir_in` at the hit
/// `rec` with `res`, given the point `sample` drawn from the unit ball.
///
/// The ray leaves from the point of the hit along the mirrored direction of
/// the incoming ray, moved by the fuzz times `sample`, and its light is
/// weakened by the albedo. The surface swallows the ray where that
/// direction and the normal have a dot product that is not above zero.
pub open spec fn metal_gives<S: Scalar, M>(
    metal: MetalData<S>,
    dir_in: Vec3<S>,
    rec: HitRecord<S, M>,
    sample: Vec3<S>,
    res: Option<(Color<S>, Ray<S>)>,
) -> bool {
    exists|reflected: Vec3<S>, blur: Vec3<S>, direction: Vec3<S>, d: S, zero: S| #[trigger]
        metal_by(metal, dir_in, rec, sample, reflected, blur, direction, d, zero, res)
}

/// The direction in which a polished surface with the fuzz `fuzz` sends the
/// ray along `dir_in`, over scalars whose arithmetic is exact: the mirrored
/// direction plus `sample` times the fuzz.
pub open spec fn metal_direction_spec<S: Scalar>(
    fuzz: S,
    dir_in: Vec3<S>,
    normal: Vec3<S>,
    sample: Vec3<S>,
) -> Vec3<S> {
    AddSpec::add_spec(reflect_spec(dir_in, normal), MulSpec::mul_spec(sample, fuzz))
}

/// The answer of a polished surface to the ray along `dir_in` at the hit
/// `rec`, over scalars whose arithmetic is exact and whose tests go by
/// their order.
pub open spec fn metal_spec<S: Scalar, M>(
    metal: MetalData<S>,
    dir_in: Vec3<S>,
    rec: HitRecord<S, M>,
    sample: Vec3<S>,
) -> Option<(Color<S>, Ray<S>)> {
    let direction = metal_direction_spec(metal.fuzz, dir_in, rec.normal, sample);
    if above(dot_spec(direction, rec.normal), number_spec::<S>(0)) {
        Some((metal.albedo, Ray { orig: rec.point, dir: direction }))
    } else {
        None
    }
}

/// Whether the answer of a polished surface can be formed: every step can
/// be taken on whatever the steps before it come to.
pub open spec fn metal_req<S: Scalar>(
    fuzz: S,
    dir_in: Vec3<S>,
    normal: Vec3<S>,
    sample: Vec3<S>,
) -> bool {
    &&& reflect_req(dir_in, normal)
    &&& MulSpec::mul_req(sample, fuzz)
    &&& forall|reflected: Vec3<S>, blur: Vec3<S>|
        #![trigger reflect_gives(dir_in, normal, reflected), scaled_gives(sample, fuzz, blur)]
        reflect_gives(dir_in, normal, reflected) && scaled_gives(sample, fuzz, blur)
            ==> reflected.add_req(blur)
    &&& forall|reflected: Vec3<S>, blur: Vec3<S>, direction: Vec3<S>|
        #![trigger reflect_gives(dir_in, normal, reflected), scaled_gives(sample, fuzz, blur), sum_gives(reflected, blur, direction)]
        reflect_gives(dir_in, normal, reflected) && scaled_gives(sample, fuzz, blur) && sum_gives(
            reflected,
            blur,
            direction,
        ) ==> dot_req(direction, normal)
}

impl<S: Scalar> Metal<S> {
    /// The polished surface that gives back the colour `albedo`, with `fuzz`
    /// limited to the interval from zero to one.
    pub fn new(albedo: Color<S>, fuzz: S) -> (m: Self)
        ensures
            m@.albedo == albedo,
            fuzz_gives(fuzz, m@.fuzz),
            exact::<S>() && ordered::<S>() ==> m@.fuzz == clamp_spec(
                fuzz,
                number_spec::<S>(0),
                number_spec::<S>(1),
            ),
    {
        let zero: S = number(0);
        let one: S = number(1);
        let limited = clamp(fuzz, zero, one);
        proof {
            assert(number_gives(0, zero) && number_gives(1, one));
        }
        Metal { albedo, fuzz: limited }
    }

    /// The colour that the surface gives back.
    pub fn albedo(&self) -> (c: Color<S>)
        ensures
            c == self@.albedo,
    {
        self.albedo
    }

    /// How far the mirrored ray is blurred.
    pub fn fuzz(&self) -> (f: S)
        ensures
            f == self@.fuzz,
    {
        self.fuzz
    }

    /// The answer of the surface to the ray `r_in` at the hit `rec`, given a
    /// point drawn at random from the unit ball.
    pub fn scatter<M>(&self, r_in: &Ray<S>, rec: &HitRecord<S, M>, sample: Vec3<S>) -> (res:
        Option<(Color<S>, Ray<S>)>)
        requires
            metal_req(self@.fuzz, r_in.dir, rec.normal, sample),
        ensures
            metal_gives(self@, r_in.dir, *rec, sample, res),
            res matches Some((attenuation, scattered)) ==> attenuation == self@.albedo
                && scattered.orig == rec.point,
            exact::<S>() && ordered::<S>() ==> res == metal_spec(self@, r_in.dir, *rec, sample),
    {
        let reflected = r_in.dir().reflect(&rec.normal);
        let blur = sample * self.fuzz;
        proof {
            assert(reflect_gives(r_in.dir, rec.normal, reflected) && scaled_gives(
                sample,
                self.fuzz,
                blur,
            ));
        }
        let direction = reflected + blur;
        proof {
            assert(sum_gives(reflected, blur, direction));
        }
        let scattered = Ray::new(rec.point, direction);
        let d = scattered.dir().dot(&rec.normal);
        let zero: S = number(0);
        let res = if d > zero {
            Some((self.albedo, scattered))
        } else {
            None
        };
        proof {
            assert(metal_by(self@, r_in.dir, *rec, sample, reflected, blur, direction, d, zero, res));
        }
        res
    }
}

/// A clear surface, such as glass, which bends light or mirrors it.
pub struct Dielectric<S> {
    ir: S,
}

impl<S> View for Dielectric<S> {
    type V = S;

    /// The index of refraction.
    closed spec fn view(&self) -> S {
        self.ir
    }
}

/// Whether the ratio of the indices of refraction on the two sides of a
/// surface with the index `ir` can come to `ratio`: one over `ir` for a ray
/// that arrives on the front face, and `ir` for one that arrives on the
/// back.
pub open spec fn refraction_ratio_gives<S: Scalar>(ir: S, front_face: bool, ratio: S) -> bool {
    if front_face {
        exists|one: S| #[trigger] number_gives(1, one) && div_gives(one, ir, ratio)
    } else {
        ratio == ir
    }
}

/// Whether the share of light that a clear surface mirrors, by Schlick's
/// formula `r0 + (1 - r0) * (1 - cosine)^5` with
/// `r0 = ((1 - ref_idx) / (1 + ref_idx))^2`, can come to `out` by way of the
/// values given. The fifth power is formed as the square of the square,
/// times the base.
pub open spec fn reflectance_by<S: Scalar>(
    cosine: S,
    ref_idx: S,
    one: S,
    top: S,
    bottom: S,
    ratio: S,
    r0: S,
    rest: S,
    base: S,
    square: S,
    fourth: S,
    fifth: S,
    tail: S,
    out: S,
) -> bool {
    &&& number_gives(1, one)
    &&& sub_gives(one, ref_idx, top)
    &&& add_gives(one, ref_idx, bottom)
    &&& div_gives(top, bottom, ratio)
    &&& mul_gives(ratio, ratio, r0)
    &&& sub_gives(one, r0, rest)
    &&& sub_gives(one, cosine, base)
    &&& mul_gives(base, base, square)
    &&& mul_gives(square, square, fourth)
    &&& mul_gives(fourth, base, fifth)
    &&& mul_gives(rest, fifth, tail)
    &&& add_gives(r0, tail, out)
}

/// The share of light that a clear surface mirrors, by Schlick's formula,
/// over scalars whose arithmetic is exact.
pub open spec fn reflectance_spec<S: Scalar>(cosine: S, ref_idx: S) -> S {
    let one = number_spec::<S>(1);
    let ratio = one.sub_spec(ref_idx).div_spec(one.add_spec(ref_idx));
    let r0 = ratio.mul_spec(ratio);
    let base = one.sub_spec(cosine);
    let square = base.mul_spec(base);
    let fifth = square.mul_spec(square).mul_spec(base);
    r0.add_spec(one.sub_spec(r0).mul_spec(fifth))
}

/// Whether the share of light that a clear surface mirrors, by Schlick's
/// formula, can come to `out`.
pub open spec fn reflectance_gives<S: Scalar>(cosine: S, ref_idx: S, out: S) -> bool {
    exists|
        one: S,
        top: S,
        bottom: S,
        ratio: S,
        r0: S,
        rest: S,
        base: S,
        square: S,
        fourth: S,
        fifth: S,
        tail: S,
    | #[trigger]
        reflectance_by(
            cosine,
            ref_idx,
            one,
            top,
            bottom,
            ratio,
            r0,
            rest,
            base,
            square,
            fourth,
            fifth,
            tail,
            out,
        )
}

/// Whether the share of light that a clear surface mirrors can be formed:
/// every step of Schlick's formula can be taken on whatever the steps
/// before it come to.
pub open spec fn reflectance_req<S: Scalar>(cosine: S, ref_idx: S) -> bool {
    forall|one: S| #[trigger]
        number_gives(1, one) ==> {
            &&& one.sub_req(ref_idx)
            &&& one.add_req(ref_idx)
            &&& one.sub_req(cosine)
            &&& forall|top: S, bottom: S|
                #![trigger sub_gives(one, ref_idx, top), add_gives(one, ref_idx, bottom)]
                sub_gives(one, ref_idx, top) && add_gives(one, ref_idx, bottom) ==> {
                    &&& top.div_req(bottom)
                    &&& forall|ratio: S| #[trigger]
                        div_gives(top, bottom, ratio) ==> {
                            &&& ratio.mul_req(ratio)
                            &&& forall|r0: S| #[trigger]
                                mul_gives(ratio, ratio, r0) ==> {
                                    &&& one.sub_req(r0)
                                    &&& forall|rest: S, base: S|
                                        #![trigger sub_gives(one, r0, rest), sub_gives(one, cosine, base)]
                                        sub_gives(one, r0, rest) && sub_gives(one, cosine, base)
                                            ==> power_req(r0, rest, base)
                                }
                        }
                }
        }
}

/// Whether the fifth power of `base` can be formed as the square of its
/// square, times `base`, and then `r0 + rest * base^5`.
pub open spec fn power_req<S: Scalar>(r0: S, rest: S, base: S) -> bool {
    &&& base.mul_req(base)
    &&& forall|square: S| #[trigger]
        mul_gives(base, base, square) ==> {
            &&& square.mul_req(square)
            &&& forall|fourth: S| #[trigger]
                mul_gives(square, square, fourth) ==> {
                    &&& fourth.mul_req(base)
                    &&& forall|fifth: S| #[trigger]
                        mul_gives(fourth, base, fifth) ==> {
                            &&& rest.mul_req(fifth)
                            &&& forall|tail: S| #[trigger]
                                mul_gives(rest, fifth, tail) ==> r0.add_req(tail)
                        }
                }
        }
}

/// Whether the angle at which a ray along `dir_in` meets a surface with the
/// unit normal `normal` can be found as `unit`, `cos` and `sin`, by way of
/// the values given, where `sqrt` takes square roots: `unit` is `dir_in`
/// brought to the length one, `cos` the lesser of the negated dot product of
/// `unit` and `normal` and one, and `sin` the square root of one less the
/// square of `cos`.
pub open spec fn angle_by<S: Scalar, F: Fn(S) -> S>(
    dir_in: Vec3<S>,
    normal: Vec3<S>,
    sqrt: F,
    unit: Vec3<S>,
    d: S,
    minus_d: S,
    one: S,
    cos: S,
    squared: S,
    gap: S,
    sin: S,
) -> bool {
    &&& unit_vector_gives(dir_in, sqrt, unit)
    &&& dot_gives(unit, normal, d)
    &&& neg_gives(d, minus_d)
    &&& number_gives(1, one)
    &&& lesser_gives(minus_d, one, cos)
    &&& mul_gives(cos, cos, squared)
    &&& sub_gives(one, squared, gap)
    &&& call_ensures(sqrt, (gap,), sin)
}

/// Whether the angle at which a ray along `dir_in` meets a surface with the
/// unit normal `normal` can be found as `unit`, `cos` and `sin`.
pub open spec fn angle_gives<S: Scalar, F: Fn(S) -> S>(
    dir_in: Vec3<S>,
    normal: Vec3<S>,
    sqrt: F,
    unit: Vec3<S>,
    cos: S,
    sin: S,
) -> bool {
    exists|d: S, minus_d: S, one: S, squared: S, gap: S| #[trigger]
        angle_by(dir_in, normal, sqrt, unit, d, minus_d, one, cos, squared, gap, sin)
}

/// Whether a clear surface with the index `ir` can be found to mirror a
/// ray, or to bend it, as `mirrored` says, by way of the values given.
///
/// The ray cannot be bent where the ratio of the indices times `sin` is
/// above one; it is then mirrored. Else it is mirrored where the
/// reflectance for `cos` and `ir` is above `draw`.
pub open spec fn choice_by<S: Scalar>(
    ir: S,
    cos: S,
    sin: S,
    draw: S,
    ratio: S,
    one: S,
    reach: S,
    cannot_refract: bool,
    mirrored: bool,
) -> bool {
    &&& number_gives(1, one)
    &&& mul_gives(ratio, sin, reach)
    &&& gt_gives(reach, one, cannot_refract)
    &&& if cannot_refract {
        mirrored
    } else {
        exists|reflectance: S| #[trigger]
            reflectance_gives(cos, ir, reflectance) && gt_gives(reflectance, draw, mirrored)
    }
}

/// Whether a clear surface with the index `ir` can answer the ray along
/// `dir_in` at the hit `rec` with `res`, by way of the angle, of the ratio
/// of the indices and of the choice between mirroring and bending.
pub open spec fn dielectric_by<S: Scalar, M, F: Fn(S) -> S>(
    ir: S,
    dir_in: Vec3<S>,
    rec: HitRecord<S, M>,
    draw: S,
    sqrt: F,
    unit: Vec3<S>,
    cos: S,
    sin: S,
    ratio: S,
    mirrored: bool,
    direction: Vec3<S>,
    white: Color<S>,
    res: Option<(Color<S>, Ray<S>)>,
) -> bool {
    &&& angle_gives(dir_in, rec.normal, sqrt, unit, cos, sin)
    &&& refraction_ratio_gives(ir, rec.front_face, ratio)
    &&& exists|one: S, reach: S, cannot_refract: bool| #[trigger]
        choice_by(ir, cos, sin, draw, ratio, one, reach, cannot_refract, mirrored)
    &&& if mirrored {
        reflect_gives(unit, rec.normal, direction)
    } else {
        refract_gives(unit, rec.normal, ratio, sqrt, direction)
    }
    &&& number_gives(1, white.x) && number_gives(1, white.y) && number_gives(1, white.z)
    &&& res == Some((white, Ray { orig: rec.point, dir: direction }))
}

/// Whether a clear surface with the index `ir` can answer the ray along
/// `dir_in` at the hit `rec` with `res`, given the number `draw` drawn
/// evenly between zero and one, where `sqrt` takes square roots.
///
/// The surface never swallows a ray and never tints it. The ray leaves from
/// the point of the hit, mirrored where the surface cannot bend it or where
/// its reflectance at this angle is above `draw`, and bent by Snell's law
/// else.
pub open spec fn dielectric_gives<S: Scalar, M, F: Fn(S) -> S>(
    ir: S,
    dir_in: Vec3<S>,
    rec: HitRecord<S, M>,
    draw: S,
    sqrt: F,
    res: Option<(Color<S>, Ray<S>)>,
) -> bool {
    exists|
        unit: Vec3<S>,
        cos: S,
        sin: S,
        ratio: S,
        mirrored: bool,
        direction: Vec3<S>,
        white: Color<S>,
    | #[trigger]
        dielectric_by(
            ir,
            dir_in,
            rec,
            draw,
            sqrt,
            unit,
            cos,
            sin,
            ratio,
            mirrored,
            direction,
            white,
            res,
        )
}

/// The ratio of the indices of refraction on the two sides of a surface
/// with the index `ir`, over scalars whose arithmetic is exact: one over
/// `ir` on the front face, `ir` on the back.
pub open spec fn refraction_ratio_spec<S: Scalar>(ir: S, front_face: bool) -> S {
    if front_face {
        number_spec::<S>(1).div_spec(ir)
    } else {
        ir
    }
}

/// The cosine of the angle at which a ray with the unit direction `unit`
/// meets a surface with the unit normal `normal`, over scalars whose
/// arithmetic is exact and whose tests go by their order: the lesser of the
/// negated dot product of the two and one.
pub open spec fn cos_theta_spec<S: Scalar>(unit: Vec3<S>, normal: Vec3<S>) -> S {
    let minus_d = dot_spec(unit, normal).neg_spec();
    if below(minus_d, number_spec::<S>(1)) {
        minus_d
    } else {
        number_spec::<S>(1)
    }
}

/// Whether a clear surface with the index `ir` mirrors a ray, over such
/// scalars: where the ratio of the indices times the sine of the angle is
/// above one, so that the ray cannot be bent, or where the reflectance at
/// this angle is above the number drawn.
pub open spec fn mirrors_spec<S: Scalar>(ir: S, front_face: bool, cos: S, sin: S, draw: S) -> bool {
    ||| above(refraction_ratio_spec(ir, front_face).mul_spec(sin), number_spec::<S>(1))
    ||| above(reflectance_spec(cos, ir), draw)
}

/// Whether `res` is the answer of a clear surface with the index `ir` to
/// the ray along `dir_in` at the hit `rec`, over such scalars, by way of the
/// unit direction `unit` of the ray and of the sine `sin` of the angle.
pub open spec fn dielectric_spec_by<S: Scalar, M, F: Fn(S) -> S>(
    ir: S,
    dir_in: Vec3<S>,
    rec: HitRecord<S, M>,
    draw: S,
    sqrt: F,
    unit: Vec3<S>,
    sin: S,
    res: Option<(Color<S>, Ray<S>)>,
) -> bool {
    let one = number_spec::<S>(1);
    let cos = cos_theta_spec(unit, rec.normal);
    &&& unit_vector_spec(dir_in, sqrt, unit)
    &&& call_ensures(sqrt, (one.sub_spec(cos.mul_spec(cos)),), sin)
    &&& res matches Some((attenuation, scattered))
    &&& attenuation == (Vec3 { x: one, y: one, z: one })
    &&& scattered.orig == rec.point
    &&& if mirrors_spec(ir, rec.front_face, cos, sin, draw) {
        scattered.dir == reflect_spec(unit, rec.normal)
    } else {
        refract_spec(
            unit,
            rec.normal,
            refraction_ratio_spec(ir, rec.front_face),
            sqrt,
            scattered.dir,
        )
    }
}

/// Whether `res` is the answer of a clear surface with the index `ir` to
/// the ray along `dir_in` at the hit `rec`, over scalars whose arithmetic is
/// exact and whose tests go by their order, where `sqrt` takes square
/// roots and `draw` is the number drawn.
///
/// The light is weakened by the colour whose parts are all one. With `unit`
/// for the ray's direction brought to the length one, `cos` for the cosine
/// of the angle and `sin` for the square root of one less its square, the
/// ray leaves mirrored where the surface mirrors it, and bent by the ratio
/// of the indices else.
pub open spec fn dielectric_spec<S: Scalar, M, F: Fn(S) -> S>(
    ir: S,
    dir_in: Vec3<S>,
    rec: HitRecord<S, M>,
    draw: S,
    sqrt: F,
    res: Option<(Color<S>, Ray<S>)>,
) -> bool {
    exists|unit: Vec3<S>, sin: S| #[trigger]
        dielectric_spec_by(ir, dir_in, rec, draw, sqrt, unit, sin, res)
}

/// Whether the ratio of the indices of refraction can be formed.
pub open spec fn refraction_ratio_req<S: Scalar>(ir: S, front_face: bool) -> bool {
    front_face ==> forall|one: S| #[trigger] number_gives(1, one) ==> one.div_req(ir)
}

/// Whether the angle at which the ray meets the surface can be found, and
/// the choice between mirroring and bending be made, once the ray's
/// direction is brought to the length one.
pub open spec fn angle_req<S: Scalar, F: Fn(S) -> S>(
    ir: S,
    front_face: bool,
    normal: Vec3<S>,
    sqrt: F,
    unit: Vec3<S>,
) -> bool {
    &&& dot_req(unit, normal)
    &&& forall|d: S| #[trigger]
        dot_gives(unit, normal, d) ==> {
            &&& d.neg_req()
            &&& forall|minus_d: S, one: S, cos: S|
                #![trigger neg_gives(d, minus_d), lesser_gives(minus_d, one, cos)]
                neg_gives(d, minus_d) && number_gives(1, one) && lesser_gives(minus_d, one, cos)
                    ==> {
                    &&& cos.mul_req(cos)
                    &&& reflectance_req(cos, ir)
                    &&& forall|squared: S| #[trigger]
                        mul_gives(cos, cos, squared) ==> {
                            &&& one.sub_req(squared)
                            &&& forall|gap: S| #[trigger]
                                sub_gives(one, squared, gap) ==> {
                                    &&& call_requires(sqrt, (gap,))
                                    &&& forall|sin: S, ratio: S|
                                        #![trigger call_ensures(sqrt, (gap,), sin), refraction_ratio_gives(ir, front_face, ratio)]
                                        call_ensures(sqrt, (gap,), sin) && refraction_ratio_gives(
                                            ir,
                                            front_face,
                                            ratio,
                                        ) ==> ratio.mul_req(sin)
                                }
                        }
                }
        }
}

/// Whether the answer of a clear surface can be formed: every step that the
/// answer may take can be taken on whatever the steps before it come to.
pub open spec fn dielectric_req<S: Scalar, F: Fn(S) -> S>(
    ir: S,
    front_face: bool,
    dir_in: Vec3<S>,
    normal: Vec3<S>,
    sqrt: F,
) -> bool {
    &&& refraction_ratio_req(ir, front_face)
    &&& unit_vector_req(dir_in, sqrt)
    &&& forall|unit: Vec3<S>| #[trigger]
        unit_vector_gives(dir_in, sqrt, unit) ==> {
            &&& angle_req(ir, front_face, normal, sqrt, unit)
            &&& reflect_req(unit, normal)
            &&& forall|ratio: S| #[trigger]
                refraction_ratio_gives(ir, front_face, ratio) ==> refract_req(
                    unit,
                    normal,
                    ratio,
                    sqrt,
                )
        }
}

impl<S> Dielectric<S> {
    /// The clear surface with the index of refraction `ir`.
    pub fn new(ir: S) -> (m: Self)
        ensures
            m@ == ir,
    {
        Dielectric { ir }
    }
}

impl<S: Scalar> Dielectric<S> {
    /// The index of refraction.
    pub fn ir(&self) -> (i: S)
        ensures
            i == self@,
    {
        self.ir
    }

    /// The ratio of the indices of refraction on the two sides of the
    /// surface, for a ray that arrives on the front face, where it enters
    /// the material, or on the back, where it leaves.
    pub fn refraction_ratio(&self, front_face: bool) -> (ratio: S)
        requires
            refraction_ratio_req(self@, front_face),
        ensures
            refraction_ratio_gives(self@, front_face, ratio),
            exact::<S>() ==> ratio == refraction_ratio_spec(self@, front_face),
    {
        if front_face {
            let one: S = number(1);
            proof {
                assert(number_gives(1, one));
            }
            one / self.ir
        } else {
            self.ir
        }
    }

    /// The share of the light that a clear surface with the index
    /// `ref_idx` mirrors where the ray and the normal enclose an angle with
    /// the cosine `cosine`, by Schlick's formula.
    pub fn reflectance(cosine: S, ref_idx: S) -> (out: S)
        requires
            reflectance_req(cosine, ref_idx),
        ensures
            reflectance_gives(cosine, ref_idx, out),
            exact::<S>() ==> out == reflectance_spec(cosine, ref_idx),
    {
        let one: S = number(1);
        proof {
            assert(number_gives(1, one));
        }
        let top = one - ref_idx;
        let bottom = one + ref_idx;
        proof {
            assert(sub_gives(one, ref_idx, top) && add_gives(one, ref_idx, bottom));
        }
        let ratio = top / bottom;
        proof {
            assert(div_gives(top, bottom, ratio));
        }
        let r0 = ratio * ratio;
        proof {
            assert(mul_gives(ratio, ratio, r0));
        }
        let rest = one - r0;
        let base = one - cosine;
        proof {
            assert(sub_gives(one, r0, rest) && sub_gives(one, cosine, base));
            assert(power_req(r0, rest, base));
        }
        let square = base * base;
        proof {
            assert(mul_gives(base, base, square));
        }
        let fourth = square * square;
        proof {
            assert(mul_gives(square, square, fourth));
        }
        let fifth = fourth * base;
        proof {
            assert(mul_gives(fourth, base, fifth));
        }
        let tail = rest * fifth;
        proof {
            assert(mul_gives(rest, fifth, tail));
        }
        let out = r0 + tail;
        proof {
            assert(reflectance_by(
                cosine,
                ref_idx,
                one,
                top,
                bottom,
                ratio,
                r0,
                rest,
                base,
                square,
                fourth,
                fifth,
                tail,
                out,
            ));
        }
        out
    }

    /// The answer of the surface to the ray `r_in` at the hit `rec`, given a
    /// number drawn evenly between zero and one. `sqrt` takes the square
    /// root of a scalar that is not below zero.
    pub fn scatter<M, F: Fn(S) -> S + Copy>(
        &self,
        r_in: &Ray<S>,
        rec: &HitRecord<S, M>,
        draw: S,
        sqrt: F,
    ) -> (res: Option<(Color<S>, Ray<S>)>)
        requires
            dielectric_req(self@, rec.front_face, r_in.dir, rec.normal, sqrt),
        ensures
            dielectric_gives(self@, r_in.dir, *rec, draw, sqrt, res),
            res matches Some((attenuation, scattered)) && scattered.orig == rec.point
                && number_gives(1, attenuation.x) && number_gives(1, attenuation.y)
                && number_gives(1, attenuation.z),
            exact::<S>() && ordered::<S>() ==> dielectric_spec(
                self@,
                r_in.dir,
                *rec,
                draw,
                sqrt,
                res,
            ),
    {
        let attenuation: Color<S> = Vec3::one();
        let refraction_ratio = self.refraction_ratio(rec.front_face);

        let unit_direction = r_in.dir().unit_vector(sqrt);
        proof {
            assert(unit_vector_gives(r_in.dir, sqrt, unit_direction));
            assert(refraction_ratio_gives(self@, rec.front_face, refraction_ratio));
            assert(angle_req(self@, rec.front_face, rec.normal, sqrt, unit_direction));
        }
        let d = unit_direction.dot(&rec.normal);
        proof {
            assert(dot_gives(unit_direction, rec.normal, d));
        }
        let minus_d = d.neg();
        let one: S = number(1);
        let cos_theta = lesser(minus_d, one);
        proof {
            assert(neg_gives(d, minus_d) && lesser_gives(minus_d, one, cos_theta));
        }
        let squared = cos_theta * cos_theta;
        proof {
            assert(mul_gives(cos_theta, cos_theta, squared));
        }
        let gap = one - squared;
        proof {
            assert(sub_gives(one, squared, gap));
        }
        let sin_theta = sqrt(gap);
        proof {
            assert(angle_by(
                r_in.dir,
                rec.normal,
                sqrt,
                unit_direction,
                d,
                minus_d,
                one,
                cos_theta,
                squared,
                gap,
                sin_theta,
            ));
        }
        let reach = refraction_ratio * sin_theta;
        let cannot_refract = reach > one;
        let mirrored = cannot_refract || Self::reflectance(cos_theta, self.ir) > draw;
        proof {
            assert(choice_by(
                self@,
                cos_theta,
                sin_theta,
                draw,
                refraction_ratio,
                one,
                reach,
                cannot_refract,
                mirrored,
            ));
        }
        let direction = if mirrored {
            unit_direction.reflect(&rec.normal)
        } else {
            unit_direction.refract(&rec.normal, refraction_ratio, sqrt)
        };
        let res = Some((attenuation, Ray::new(rec.point, direction)));
        proof {
            assert(dielectric_by(
                self@,
                r_in.dir,
                *rec,
                draw,
                sqrt,
                unit_direction,
                cos_theta,
                sin_theta,
                refraction_ratio,
                mirrored,
                direction,
                attenuation,
                res,
            ));
            if exact::<S>() && ordered::<S>() {
                assert(cos_theta == cos_theta_spec(unit_direction, rec.normal));
                assert(mirrored == mirrors_spec(
                    self@,
                    rec.front_face,
                    cos_theta,
                    sin_theta,
                    draw,
                ));
                assert(dielectric_spec_by(
                    self@,
                    r_in.dir,
                    *rec,
                    draw,
                    sqrt,
                    unit_direction,
                    sin_theta,
                    res,
                ));
            }
        }
        res
    }
}

} // verus!
