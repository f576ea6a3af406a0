//! The light that a ray brings to the eye: the walk of a light path through
//! the scene, and the light that the path carries.
use vstd::prelude::*;
use vstd::std_specs::convert::FromSpec;
use vstd::std_specs::ops::{AddSpec, DivSpec, MulSpec, SubSpec};
use crate::hittable::{hit_gives, HitRecord, Hittable};
use crate::material::{scatter_gives, Material};
use crate::ray::Ray;
use crate::scalar::{
    add_gives, div_gives, exact, mul_gives, number, number_gives, number_spec, sub_gives,
    wide_number, wide_number_gives, Scalar,
};
use crate::vec3::{
    product_gives, scaled_gives, sum_gives, unit_vector_gives, unit_vector_req, unit_vector_spec,
    Color, Vec3,
};

verus! {

/// How a light path comes to its end.
pub enum PathEnd<S> {
    /// The path used up its bounces: it carries no light.
    Exhausted,
    /// A surface swallowed the path: it carries no light.
    Absorbed,
    /// The path left the scene along the ray given: it carries the light of
    /// the sky in that ray's direction.
    Escaped(Ray<S>),
}

/// A light path, followed from the eye into the scene.
pub struct Path<S> {
    /// The colours by which the surfaces along the path weaken the light, the
    /// surface nearest to the eye first. The light that the path carries to
    /// the eye is the light at its end, weakened by each of them in turn, the
    /// last first.
    pub attenuations: Vec<Color<S>>,
    /// How the path ends.
    pub end: PathEnd<S>,
}

/// Whether a path that starts with the ray `r` and may bounce `depth` times
/// can run along `rays`, meeting the scene `world` in `hits`, with the
/// attenuations `attenuations` and the end `end`.
///
/// Each ray but the last meets the scene and is scattered there into the
/// next ray. The last ray is not followed where the bounces are used up;
/// else it misses the scene, or it meets a surface that swallows it.
pub open spec fn walks<S, M: Material<S>, W: Hittable<S, M>>(
    world: W,
    r: Ray<S>,
    depth: u32,
    t_min: S,
    t_max: S,
    rays: Seq<Ray<S>>,
    hits: Seq<HitRecord<S, M>>,
    attenuations: Seq<Color<S>>,
    end: PathEnd<S>,
) -> bool {
    let bounces = attenuations.len() as int;
    &&& bounces <= depth
    &&& rays.len() == bounces + 1
    &&& rays[0] == r
    &&& hits.len() >= bounces
    &&& forall|i: int|
        0 <= i < bounces ==> {
            &&& hit_gives(world, rays[i], t_min, t_max, Some(#[trigger] hits[i]))
            &&& scatter_gives(
                hits[i].material,
                rays[i],
                hits[i],
                Some((attenuations[i], rays[i + 1])),
            )
        }
    &&& match end {
        PathEnd::Exhausted => bounces == depth,
        PathEnd::Escaped(last) => {
            &&& bounces < depth
            &&& last == rays[bounces]
            &&& hit_gives(world, last, t_min, t_max, None)
        },
        PathEnd::Absorbed => {
            &&& bounces < depth
            &&& hits.len() > bounces
            &&& hit_gives(world, rays[bounces], t_min, t_max, Some(hits[bounces]))
            &&& scatter_gives(hits[bounces].material, rays[bounces], hits[bounces], None)
        },
    }
}

/// Whether `attenuations` and `end` describe a path that the scene `world`
/// can give to the ray `r` with `depth` bounces.
pub open spec fn traces<S, M: Material<S>, W: Hittable<S, M>>(
    world: W,
    r: Ray<S>,
    depth: u32,
    t_min: S,
    t_max: S,
    attenuations: Seq<Color<S>>,
    end: PathEnd<S>,
) -> bool {
    exists|rays: Seq<Ray<S>>, hits: Seq<HitRecord<S, M>>| #[trigger]
        walks(world, r, depth, t_min, t_max, rays, hits, attenuations, end)
}

/// A path without a bounce to spend ends at once and carries no light,
/// whatever the ray and the scene.
pub proof fn lemma_no_depth_no_light<S, M: Material<S>, W: Hittable<S, M>>(
    world: W,
    r: Ray<S>,
    t_min: S,
    t_max: S,
    attenuations: Seq<Color<S>>,
    end: PathEnd<S>,
)
    requires
        traces(world, r, 0, t_min, t_max, attenuations, end),
    ensures
        attenuations.len() == 0,
        end is Exhausted,
{
}

/// A ray that the scene cannot stop leaves it unweakened: where bounces are
/// left and no answer of the scene to the first ray is a hit, the path has no
/// attenuation and escapes along that very ray, so that it carries the light
/// of the sky and is not dark.
pub proof fn lemma_missed_ray_escapes<S, M: Material<S>, W: Hittable<S, M>>(
    world: W,
    r: Ray<S>,
    depth: u32,
    t_min: S,
    t_max: S,
    attenuations: Seq<Color<S>>,
    end: PathEnd<S>,
)
    requires
        traces(world, r, depth, t_min, t_max, attenuations, end),
        depth > 0,
        forall|rec: HitRecord<S, M>| !hit_gives(world, r, t_min, t_max, Some(rec)),
    ensures
        attenuations.len() == 0,
        end == PathEnd::Escaped(r),
{
    let (rays, hits) = choose|rays: Seq<Ray<S>>, hits: Seq<HitRecord<S, M>>| #[trigger]
        walks(world, r, depth, t_min, t_max, rays, hits, attenuations, end);
    if attenuations.len() > 0 {
        assert(hit_gives(world, rays[0], t_min, t_max, Some(hits[0])));
    }
}

/// Follows the light path that starts with the ray `r` through the scene
/// `world`, for at most `depth` bounces.
///
/// While bounces are left, the ray is tried on the scene between `t_min` and
/// `t_max`. A ray that misses leaves the scene and ends the path. A ray that
/// hits is handed to the material of the surface: where the material
/// swallows it the path ends, else the path goes on with the scattered ray
/// and one bounce less. With no bounce left the path ends without light.
pub fn trace_path<S: Copy, M: Material<S>, W: Hittable<S, M>>(
    r: &Ray<S>,
    world: &W,
    depth: u32,
    t_min: S,
    t_max: S,
) -> (path: Path<S>)
    ensures
        traces(*world, *r, depth, t_min, t_max, path.attenuations@, path.end),
        depth == 0 ==> path.end is Exhausted && path.attenuations@.len() == 0,
{
    let mut attenuations: Vec<Color<S>> = Vec::new();
    let mut ray = *r;
    let mut left = depth;
    let ghost mut rays: Seq<Ray<S>> = seq![*r];
    let ghost mut hits: Seq<HitRecord<S, M>> = Seq::empty();
    while left > 0
        invariant
            left <= depth,
            attenuations@.len() == depth - left,
            rays.len() == attenuations@.len() + 1,
            rays[0] == *r,
            rays.last() == ray,
            hits.len() == attenuations@.len(),
            forall|i: int|
                0 <= i < attenuations@.len() ==> {
                    &&& hit_gives(*world, rays[i], t_min, t_max, Some(#[trigger] hits[i]))
                    &&& scatter_gives(
                        hits[i].material,
                        rays[i],
                        hits[i],
                        Some((attenuations@[i], rays[i + 1])),
                    )
                },
        decreases left,
    {
        match world.hit(&ray, t_min, t_max) {
            None => {
                proof {
                    assert(walks(
                        *world,
                        *r,
                        depth,
                        t_min,
                        t_max,
                        rays,
                        hits,
                        attenuations@,
                        PathEnd::Escaped(ray),
                    ));
                }
                return Path { attenuations, end: PathEnd::Escaped(ray) };
            },
            Some(rec) => {
                match rec.material.scatter(&ray, &rec) {
                    None => {
                        proof {
                            let met = hits.push(rec);
                            assert forall|i: int| 0 <= i < attenuations@.len() implies #[trigger] met[i]
                                == hits[i] by {}
                            assert(walks(
                                *world,
                                *r,
                                depth,
                                t_min,
                                t_max,
                                rays,
                                met,
                                attenuations@,
                                PathEnd::Absorbed,
                            ));
                        }
                        return Path { attenuations, end: PathEnd::Absorbed };
                    },
                    Some((attenuation, scattered)) => {
                        proof {
                            rays = rays.push(scattered);
                            hits = hits.push(rec);
                        }
                        attenuations.push(attenuation);
                        ray = scattered;
                        left = left - 1;
                    },
                }
            },
        }
    }
    proof {
        assert(walks(*world, *r, depth, t_min, t_max, rays, hits, attenuations@, PathEnd::Exhausted));
    }
    Path { attenuations, end: PathEnd::Exhausted }
}

/// Whether `c` is black: each of its parts is a scalar for the number zero.
pub open spec fn is_black<S: Scalar>(c: Color<S>) -> bool {
    number_gives(0, c.x) && number_gives(0, c.y) && number_gives(0, c.z)
}

/// Whether the light `source`, weakened by each of `attenuations` in turn,
/// the last first, can come to `out`.
pub open spec fn light_gives<S: Scalar>(
    attenuations: Seq<Color<S>>,
    source: Color<S>,
    out: Color<S>,
) -> bool
    decreases attenuations.len(),
{
    if attenuations.len() == 0 {
        out == source
    } else {
        exists|dimmed: Color<S>| #[trigger]
            product_gives(attenuations.last(), source, dimmed) && light_gives(
                attenuations.drop_last(),
                dimmed,
                out,
            )
    }
}

/// The light `source` weakened by each of `attenuations` in turn, the last
/// first, over scalars whose arithmetic is exact.
pub open spec fn light_spec<S: Scalar>(attenuations: Seq<Color<S>>, source: Color<S>) -> Color<S>
    decreases attenuations.len(),
{
    if attenuations.len() == 0 {
        source
    } else {
        light_spec(attenuations.drop_last(), MulSpec::mul_spec(attenuations.last(), source))
    }
}

/// Whether the light `source` can be weakened by each of `attenuations` in
/// turn: each product can be formed with whatever the products before it
/// come to.
pub open spec fn light_req<S: Scalar>(attenuations: Seq<Color<S>>, source: Color<S>) -> bool
    decreases attenuations.len(),
{
    attenuations.len() > 0 ==> {
        &&& MulSpec::mul_req(attenuations.last(), source)
        &&& forall|dimmed: Color<S>| #[trigger]
            product_gives(attenuations.last(), source, dimmed) ==> light_req(
                attenuations.drop_last(),
                dimmed,
            )
    }
}

/// Whether the least parameter at which a ray is taken to meet the scene
/// can come to `out`: one over a thousand. It keeps a scattered ray from
/// meeting, through rounding, the surface that it leaves.
pub open spec fn min_hit_distance_gives<S: Scalar + From<i16>>(out: S) -> bool {
    exists|one: S, thousand: S|
        {
            &&& #[trigger] number_gives(1, one)
            &&& #[trigger] wide_number_gives(1000, thousand)
            &&& div_gives(one, thousand, out)
        }
}

/// The least parameter at which a ray is taken to meet the scene, over
/// scalars whose arithmetic is exact: one over a thousand.
pub open spec fn min_hit_distance_spec<S: Scalar + From<i16>>() -> S {
    number_spec::<S>(1).div_spec(<S as FromSpec<i16>>::from_spec(1000))
}

/// Whether the least parameter at which a ray is taken to meet the scene
/// can be formed.
pub open spec fn min_hit_distance_req<S: Scalar + From<i16>>() -> bool {
    forall|one: S, thousand: S|
        #![trigger number_gives(1, one), wide_number_gives(1000, thousand)]
        number_gives(1, one) && wide_number_gives(1000, thousand) ==> one.div_req(thousand)
}

/// The least parameter at which a ray is taken to meet the scene: one over
/// a thousand.
pub fn min_hit_distance<S: Scalar + From<i16>>() -> (out: S)
    requires
        min_hit_distance_req::<S>(),
    ensures
        min_hit_distance_gives(out),
        exact::<S>() && <S as FromSpec<i16>>::obeys_from_spec() ==> out
            == min_hit_distance_spec::<S>(),
{
    let one: S = number(1);
    let thousand: S = wide_number(1000);
    proof {
        assert(number_gives(1, one) && wide_number_gives(1000, thousand));
    }
    one / thousand
}

/// Whether `source` can be the light at the end `end` of a path, where
/// `sqrt` takes square roots: the light of the sky along the ray on which
/// the path leaves the scene, and black at every other end.
pub open spec fn source_gives<S: Scalar, F: Fn(S) -> S>(
    end: PathEnd<S>,
    sqrt: F,
    source: Color<S>,
) -> bool {
    match end {
        PathEnd::Escaped(last) => sky_color_gives(last, sqrt, source),
        _ => is_black(source),
    }
}

/// Whether the light at the end `end` of a path with the attenuations
/// `attenuations` can be found and carried to the eye.
pub open spec fn shade_req<S: Scalar, F: Fn(S) -> S>(
    attenuations: Seq<Color<S>>,
    end: PathEnd<S>,
    sqrt: F,
) -> bool {
    &&& end matches PathEnd::Escaped(last) ==> sky_color_req(last, sqrt)
    &&& forall|source: Color<S>| #[trigger]
        source_gives(end, sqrt, source) ==> light_req(attenuations, source)
}

/// Whether the light that the ray `r` brings to the eye can come to `out`,
/// by way of the least parameter `t_min` of a hit, of the path followed and
/// of the light `source` at its end.
pub open spec fn ray_color_by<S: Scalar + From<i16>, M: Material<S>, W: Hittable<S, M>, F: Fn(S) -> S>(
    world: W,
    r: Ray<S>,
    depth: u32,
    t_max: S,
    sqrt: F,
    t_min: S,
    attenuations: Seq<Color<S>>,
    end: PathEnd<S>,
    source: Color<S>,
    out: Color<S>,
) -> bool {
    &&& min_hit_distance_gives(t_min)
    &&& traces(world, r, depth, t_min, t_max, attenuations, end)
    &&& source_gives(end, sqrt, source)
    &&& light_gives(attenuations, source, out)
}

/// Whether the light that the ray `r` brings to the eye from the scene
/// `world` can come to `out`, where `sqrt` takes square roots.
///
/// A path is followed for at most `depth` bounces, each ray being tried on
/// the scene between one over a thousand and `t_max`. The light at its end
/// is the light of the sky along its last ray where it leaves the scene,
/// and black where a surface swallows it or its bounces are used up. That
/// light is weakened by the attenuations of the path, the last first.
pub open spec fn ray_color_gives<S: Scalar + From<i16>, M: Material<S>, W: Hittable<S, M>, F: Fn(S) -> S>(
    world: W,
    r: Ray<S>,
    depth: u32,
    t_max: S,
    sqrt: F,
    out: Color<S>,
) -> bool {
    exists|t_min: S, attenuations: Seq<Color<S>>, end: PathEnd<S>, source: Color<S>| #[trigger]
        ray_color_by(world, r, depth, t_max, sqrt, t_min, attenuations, end, source, out)
}

/// Whether the light that the ray `r` brings to the eye can be formed: the
/// least parameter of a hit can be formed, and whatever path the scene
/// gives, the light at its end can be found and carried to the eye.
pub open spec fn ray_color_req<S: Scalar + From<i16>, M: Material<S>, W: Hittable<S, M>, F: Fn(S) -> S>(
    world: W,
    r: Ray<S>,
    depth: u32,
    t_max: S,
    sqrt: F,
) -> bool {
    &&& min_hit_distance_req::<S>()
    &&& forall|t_min: S, attenuations: Seq<Color<S>>, end: PathEnd<S>|
        #![trigger traces(world, r, depth, t_min, t_max, attenuations, end)]
        min_hit_distance_gives(t_min) && traces(world, r, depth, t_min, t_max, attenuations, end)
            ==> shade_req(attenuations, end, sqrt)
}

impl<S: Scalar> Path<S> {
    /// The light that the path carries to the eye, given the light `source`
    /// at its end: `source` weakened by each attenuation in turn, from the
    /// surface farthest from the eye to the nearest.
    pub fn light(&self, source: Color<S>) -> (out: Color<S>)
        requires
            light_req(self.attenuations@, source),
        ensures
            light_gives(self.attenuations@, source, out),
            exact::<S>() ==> out == light_spec(self.attenuations@, source),
    {
        let ghost all = self.attenuations@;
        let mut out = source;
        let mut i = self.attenuations.len();
        proof {
            assert(all.take(i as int) =~= all);
        }
        while i > 0
            invariant
                i <= all.len(),
                all == self.attenuations@,
                light_req(all.take(i as int), out),
                forall|end: Color<S>|
                    light_gives(all.take(i as int), out, end) ==> light_gives(all, source, end),
                exact::<S>() ==> light_spec(all.take(i as int), out) == light_spec(all, source),
            decreases i,
        {
            let ghost before = out;
            let ghost front = all.take(i as int);
            i = i - 1;
            proof {
                assert(front.last() == all[i as int]);
                assert(front.drop_last() =~= all.take(i as int));
            }
            out = self.attenuations[i] * out;
            proof {
                assert(product_gives(front.last(), before, out));
                assert forall|end: Color<S>| light_gives(all.take(i as int), out, end) implies light_gives(
                    all,
                    source,
                    end,
                ) by {
                    assert(light_gives(front, before, end));
                }
            }
        }
        proof {
            assert(all.take(0) =~= Seq::<Color<S>>::empty());
            assert(light_gives(all.take(0), out, out));
        }
        out
    }
}

/// Whether the scene `world` cannot stop the ray `r`: no answer of the
/// scene to the ray, tried from one over a thousand to `t_max`, is a hit.
pub open spec fn unstopped<S: Scalar + From<i16>, M, W: Hittable<S, M>>(world: W, r: Ray<S>, t_max: S) -> bool {
    forall|t_min: S, rec: HitRecord<S, M>|
        #![trigger hit_gives(world, r, t_min, t_max, Some(rec))]
        min_hit_distance_gives(t_min) ==> !hit_gives(world, r, t_min, t_max, Some(rec))
}

/// The light that the ray `r` brings to the eye from the scene `world`,
/// where `sqrt` takes square roots.
///
/// A light path is followed through the scene for at most `depth` bounces,
/// each ray being tried on the scene between one over a thousand and
/// `t_max`, which a caller sets beyond every surface. A path that leaves
/// the scene ends in the light of the sky along its last ray; a path that a
/// surface swallows, or that uses up its bounces, ends in black. The light
/// at the end is weakened by the attenuation of each surface met, the last
/// first.
///
/// With no bounce to spend the light is black, whatever the ray and the
/// scene. A first ray that the scene cannot stop brings the light of the
/// sky along that ray, weakened by nothing.
pub fn ray_color<S: Scalar + From<i16>, M: Material<S>, W: Hittable<S, M>, F: Fn(S) -> S>(
    r: &Ray<S>,
    world: &W,
    depth: u32,
    t_max: S,
    sqrt: F,
) -> (out: Color<S>)
    requires
        ray_color_req(*world, *r, depth, t_max, sqrt),
    ensures
        ray_color_gives(*world, *r, depth, t_max, sqrt, out),
        depth == 0 ==> is_black(out),
        depth > 0 && unstopped(*world, *r, t_max) ==> sky_color_gives(*r, sqrt, out),
        depth > 0 && unstopped(*world, *r, t_max) && exact::<S>() ==> exists|unit: Vec3<S>| #[trigger]
            unit_vector_spec(r.dir, sqrt, unit) && out == sky_spec(unit.y),
{
    let t_min: S = min_hit_distance();
    let path = trace_path(r, world, depth, t_min, t_max);
    proof {
        assert(traces(*world, *r, depth, t_min, t_max, path.attenuations@, path.end));
    }
    let source = match path.end {
        PathEnd::Escaped(last) => sky_color(&last, sqrt),
        _ => Vec3::zero(),
    };
    proof {
        assert(source_gives(path.end, sqrt, source));
    }
    let out = path.light(source);
    proof {
        assert(ray_color_by(
            *world,
            *r,
            depth,
            t_max,
            sqrt,
            t_min,
            path.attenuations@,
            path.end,
            source,
            out,
        ));
        if depth > 0 && unstopped(*world, *r, t_max) {
            assert forall|rec: HitRecord<S, M>| !hit_gives(
                *world,
                *r,
                t_min,
                t_max,
                Some(rec),
            ) by {}
            lemma_missed_ray_escapes(
                *world,
                *r,
                depth,
                t_min,
                t_max,
                path.attenuations@,
                path.end,
            );
        }
    }
    out
}

/// Whether the share of the far colour in the sky's light along a
/// direction with the height `y` can come to `t`, formed as
/// `(1 / 2) * (y + 1)`, and the share of white to `rest`, formed as `1 - t`,
/// by way of the scalars `one` and `half` and of the sum `lifted`.
pub open spec fn sky_shares_by<S: Scalar>(
    y: S,
    one: S,
    two: S,
    half: S,
    lifted: S,
    t: S,
    rest: S,
) -> bool {
    &&& number_gives(1, one)
    &&& number_gives(2, two)
    &&& div_gives(one, two, half)
    &&& add_gives(y, one, lifted)
    &&& mul_gives(half, lifted, t)
    &&& sub_gives(one, t, rest)
}

/// Whether the far colour of the sky, whose parts are a half, seven tenths
/// and one, can come to `blue`.
pub open spec fn sky_blue_by<S: Scalar>(one: S, half: S, seven: S, ten: S, blue: Color<S>) -> bool {
    &&& number_gives(7, seven)
    &&& number_gives(10, ten)
    &&& blue.x == half
    &&& div_gives(seven, ten, blue.y)
    &&& blue.z == one
}

/// Whether the light of the sky along a unit direction `unit` can come to
/// `out` by way of the values given: white times its share plus the far
/// colour times its share.
pub open spec fn sky_by<S: Scalar>(
    unit: Vec3<S>,
    one: S,
    two: S,
    half: S,
    lifted: S,
    t: S,
    rest: S,
    seven: S,
    ten: S,
    blue: Color<S>,
    near_part: Color<S>,
    far_part: Color<S>,
    out: Color<S>,
) -> bool {
    &&& sky_shares_by(unit.y, one, two, half, lifted, t, rest)
    &&& sky_blue_by(one, half, seven, ten, blue)
    &&& scaled_gives(Vec3 { x: one, y: one, z: one }, rest, near_part)
    &&& scaled_gives(blue, t, far_part)
    &&& sum_gives(near_part, far_part, out)
}

/// Whether the light of the sky along the ray `r` can come to `out`, where
/// `sqrt` takes square roots.
///
/// With `y` for the height of the ray's direction brought to the length one
/// and `t` for `(1 / 2) * (y + 1)`, the light is white times `1 - t` plus
/// the colour `(1 / 2, 7 / 10, 1)` times `t`: white towards the ground, blue
/// towards the zenith.
pub open spec fn sky_color_gives<S: Scalar, F: Fn(S) -> S>(r: Ray<S>, sqrt: F, out: Color<S>) -> bool {
    exists|
        unit: Vec3<S>,
        one: S,
        two: S,
        half: S,
        lifted: S,
        t: S,
        rest: S,
        seven: S,
        ten: S,
        blue: Color<S>,
        near_part: Color<S>,
        far_part: Color<S>,
    |
        {
            &&& #[trigger] unit_vector_gives(r.dir, sqrt, unit)
            &&& #[trigger] sky_by(
                unit,
                one,
                two,
                half,
                lifted,
                t,
                rest,
                seven,
                ten,
                blue,
                near_part,
                far_part,
                out,
            )
        }
}

/// The light of the sky along a unit direction with the height `y`, over
/// scalars whose arithmetic is exact: with `t` for `(1 / 2) * (y + 1)`,
/// white times `1 - t` plus the colour `(1 / 2, 7 / 10, 1)` times `t`.
pub open spec fn sky_spec<S: Scalar>(y: S) -> Color<S> {
    let one = number_spec::<S>(1);
    let half = one.div_spec(number_spec::<S>(2));
    let t = half.mul_spec(y.add_spec(one));
    let white = Vec3 { x: one, y: one, z: one };
    let blue = Vec3 { x: half, y: number_spec::<S>(7).div_spec(number_spec::<S>(10)), z: one };
    AddSpec::add_spec(MulSpec::mul_spec(white, one.sub_spec(t)), MulSpec::mul_spec(blue, t))
}

/// Whether the two parts of the sky's light can be formed and added, once
/// the shares of white and of the far colour are known.
pub open spec fn sky_blend_req<S: Scalar>(one: S, half: S, t: S, rest: S) -> bool {
    &&& MulSpec::mul_req(Vec3 { x: one, y: one, z: one }, rest)
    &&& forall|seven: S, ten: S|
        #![trigger number_gives(7, seven), number_gives(10, ten)]
        number_gives(7, seven) && number_gives(10, ten) ==> {
            &&& seven.div_req(ten)
            &&& forall|blue: Color<S>| #[trigger]
                sky_blue_by(one, half, seven, ten, blue) ==> {
                    &&& MulSpec::mul_req(blue, t)
                    &&& forall|near_part: Color<S>, far_part: Color<S>|
                        #![trigger scaled_gives(Vec3 { x: one, y: one, z: one }, rest, near_part), scaled_gives(blue, t, far_part)]
                        scaled_gives(Vec3 { x: one, y: one, z: one }, rest, near_part)
                            && scaled_gives(blue, t, far_part) ==> AddSpec::add_req(
                            near_part,
                            far_part,
                        )
                }
        }
}

/// Whether the light of the sky along the ray `r` can be formed: every step
/// can be taken on whatever the steps before it come to.
pub open spec fn sky_color_req<S: Scalar, F: Fn(S) -> S>(r: Ray<S>, sqrt: F) -> bool {
    &&& unit_vector_req(r.dir, sqrt)
    &&& forall|unit: Vec3<S>, one: S, two: S|
        #![trigger unit_vector_gives(r.dir, sqrt, unit), number_gives(1, one), number_gives(2, two)]
        unit_vector_gives(r.dir, sqrt, unit) && number_gives(1, one) && number_gives(2, two) ==> {
            &&& one.div_req(two)
            &&& unit.y.add_req(one)
            &&& forall|half: S, lifted: S|
                #![trigger div_gives(one, two, half), add_gives(unit.y, one, lifted)]
                div_gives(one, two, half) && add_gives(unit.y, one, lifted) ==> {
                    &&& half.mul_req(lifted)
                    &&& forall|t: S| #[trigger]
                        mul_gives(half, lifted, t) ==> {
                            &&& one.sub_req(t)
                            &&& forall|rest: S| #[trigger]
                                sub_gives(one, t, rest) ==> sky_blend_req(one, half, t, rest)
                        }
                }
        }
}

/// The light of the sky along the ray `r`, where `sqrt` takes square roots:
/// a blend of white and blue by the height of the ray's direction.
pub fn sky_color<S: Scalar, F: Fn(S) -> S>(r: &Ray<S>, sqrt: F) -> (out: Color<S>)
    requires
        sky_color_req(*r, sqrt),
    ensures
        sky_color_gives(*r, sqrt, out),
        exact::<S>() ==> exists|unit: Vec3<S>| #[trigger]
            unit_vector_spec(r.dir, sqrt, unit) && out == sky_spec(unit.y),
{
    let unit = r.dir().unit_vector(sqrt);
    let one: S = number(1);
    let two: S = number(2);
    proof {
        assert(unit_vector_gives(r.dir, sqrt, unit) && number_gives(1, one) && number_gives(
            2,
            two,
        ));
    }
    let half = one / two;
    let lifted = unit.y() + one;
    proof {
        assert(div_gives(one, two, half) && add_gives(unit.y, one, lifted));
    }
    let t = half * lifted;
    proof {
        assert(mul_gives(half, lifted, t));
    }
    let rest = one - t;
    proof {
        assert(sub_gives(one, t, rest));
        assert(sky_blend_req(one, half, t, rest));
    }
    let seven: S = number(7);
    let ten: S = number(10);
    proof {
        assert(number_gives(7, seven) && number_gives(10, ten));
    }
    let blue = Vec3::new(half, seven / ten, one);
    proof {
        assert(sky_blue_by(one, half, seven, ten, blue));
    }
    let near_part = Vec3::new(one, one, one) * rest;
    let far_part = blue * t;
    proof {
        assert(scaled_gives(Vec3 { x: one, y: one, z: one }, rest, near_part) && scaled_gives(
            blue,
            t,
            far_part,
        ));
    }
    let out = near_part + far_part;
    proof {
        assert(unit_vector_gives(r.dir, sqrt, unit));
        assert(sky_by(
            unit,
            one,
            two,
            half,
            lifted,
            t,
            rest,
            seven,
            ten,
            blue,
            near_part,
            far_part,
            out,
        ));
    }
    out
}

} // verus!
