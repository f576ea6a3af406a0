//! The camera: from a view of the scene to the rays through its window.
use vstd::prelude::*;
use vstd::std_specs::ops::{AddSpec, DivSpec, MulSpec, SubSpec};
use crate::ray::Ray;
use crate::scalar::{div_gives, exact, mul_gives, number, number_gives, number_spec, Scalar};
use crate::vec3::{
    cross_gives, cross_req, cross_spec, difference_gives, scaled_gives, shrunk_gives, sum_gives,
    unit_vector_gives, unit_vector_req, unit_vector_spec, Point3, Vec3,
};

verus! {

/// A camera with a thin lens: an eye, a window onto the scene at the
/// distance of sharp focus, and a lens of some width round the eye.
#[derive(Debug)]
pub struct Camera<S> {
    origin: Point3<S>,
    lower_left_corner: Point3<S>,
    horizontal: Vec3<S>,
    vertical: Vec3<S>,
    lens_radius: S,
    u: Vec3<S>,
    v: Vec3<S>,
    w: Vec3<S>,
}

/// What a camera is made of.
pub struct CameraData<S> {
    /// The eye.
    pub origin: Point3<S>,
    /// The lower left corner of the window.
    pub lower_left_corner: Point3<S>,
    /// The window's lower edge, from left to right.
    pub horizontal: Vec3<S>,
    /// The window's left edge, from the bottom up.
    pub vertical: Vec3<S>,
    /// Half the width of the lens.
    pub lens_radius: S,
    /// The unit vector to the camera's right.
    pub u: Vec3<S>,
    /// The unit vector that points up in the camera's view.
    pub v: Vec3<S>,
    /// The unit vector from the point looked at towards the eye.
    pub w: Vec3<S>,
}

impl<S> View for Camera<S> {
    type V = CameraData<S>;

    closed spec fn view(&self) -> CameraData<S> {
        CameraData {
            origin: self.origin,
            lower_left_corner: self.lower_left_corner,
            horizontal: self.horizontal,
            vertical: self.vertical,
            lens_radius: self.lens_radius,
            u: self.u,
            v: self.v,
            w: self.w,
        }
    }
}

/// Whether the three unit vectors of a camera at `origin` that looks at
/// `lookat`, with `vup` for the upward direction, can come to `u`, `v` and
/// `w`: `w` is `origin - lookat` brought to the length one, `u` the cross
/// product of `vup` and `w` brought to the length one, and `v` the cross
/// product of `w` and `u`.
pub open spec fn basis_gives<S: Scalar, F: Fn(S) -> S>(
    origin: Point3<S>,
    lookat: Point3<S>,
    vup: Vec3<S>,
    sqrt: F,
    u: Vec3<S>,
    v: Vec3<S>,
    w: Vec3<S>,
) -> bool {
    exists|back: Vec3<S>, right: Vec3<S>|
        {
            &&& #[trigger] difference_gives(origin, lookat, back)
            &&& unit_vector_gives(back, sqrt, w)
            &&& #[trigger] cross_gives(vup, w, right)
            &&& unit_vector_gives(right, sqrt, u)
            &&& cross_gives(w, u, v)
        }
}

/// Whether the window of a camera can come to the edges `horizontal` and
/// `vertical`, by way of the scalar `two`, of the window's height and width
/// at the distance one and of their products with the focus distance.
///
/// The window is `2 * half_height` high and `aspect_ratio` times as wide at
/// the distance one, and it stands at the focus distance, where it is
/// larger by that factor.
pub open spec fn window_by<S: Scalar>(
    aspect_ratio: S,
    half_height: S,
    focus_dist: S,
    u: Vec3<S>,
    v: Vec3<S>,
    two: S,
    height: S,
    width: S,
    far_width: S,
    far_height: S,
    horizontal: Vec3<S>,
    vertical: Vec3<S>,
) -> bool {
    &&& number_gives(2, two)
    &&& mul_gives(two, half_height, height)
    &&& mul_gives(aspect_ratio, height, width)
    &&& mul_gives(focus_dist, width, far_width)
    &&& scaled_gives(u, far_width, horizontal)
    &&& mul_gives(focus_dist, height, far_height)
    &&& scaled_gives(v, far_height, vertical)
}

/// Whether the lower left corner of a camera's window can come to `corner`,
/// formed as `origin - horizontal / 2 - vertical / 2 - w * focus_dist`, by
/// way of the values given.
pub open spec fn corner_by<S: Scalar>(
    origin: Point3<S>,
    horizontal: Vec3<S>,
    vertical: Vec3<S>,
    w: Vec3<S>,
    focus_dist: S,
    two: S,
    half_across: Vec3<S>,
    left: Point3<S>,
    half_up: Vec3<S>,
    low: Point3<S>,
    depth: Vec3<S>,
    corner: Point3<S>,
) -> bool {
    &&& number_gives(2, two)
    &&& shrunk_gives(horizontal, two, half_across)
    &&& difference_gives(origin, half_across, left)
    &&& shrunk_gives(vertical, two, half_up)
    &&& difference_gives(left, half_up, low)
    &&& scaled_gives(w, focus_dist, depth)
    &&& difference_gives(low, depth, corner)
}

/// Whether the camera for the given view can come to `camera`, where `sqrt`
/// takes square roots.
///
/// The eye is `origin`. The unit vectors are found from `origin`, `lookat`
/// and `vup`. The window is `2 * half_height` high and `aspect_ratio` times
/// as wide, both times the focus distance, and spans `horizontal` along `u`
/// and `vertical` along `v`. Its lower left corner is the eye less half of
/// each edge less `w` times the focus distance. The lens is half as wide
/// as the aperture.
pub open spec fn camera_gives<S: Scalar, F: Fn(S) -> S>(
    aspect_ratio: S,
    half_height: S,
    aperture: S,
    focus_dist: S,
    origin: Point3<S>,
    lookat: Point3<S>,
    vup: Vec3<S>,
    sqrt: F,
    camera: CameraData<S>,
) -> bool {
    &&& camera.origin == origin
    &&& basis_gives(origin, lookat, vup, sqrt, camera.u, camera.v, camera.w)
    &&& window_gives(
        aspect_ratio,
        half_height,
        focus_dist,
        camera.u,
        camera.v,
        camera.horizontal,
        camera.vertical,
    )
    &&& corner_gives(
        origin,
        camera.horizontal,
        camera.vertical,
        camera.w,
        focus_dist,
        camera.lower_left_corner,
    )
    &&& lens_radius_gives(aperture, camera.lens_radius)
}

/// Whether the window of a camera can come to the edges `horizontal` and
/// `vertical`.
pub open spec fn window_gives<S: Scalar>(
    aspect_ratio: S,
    half_height: S,
    focus_dist: S,
    u: Vec3<S>,
    v: Vec3<S>,
    horizontal: Vec3<S>,
    vertical: Vec3<S>,
) -> bool {
    exists|two: S, height: S, width: S, far_width: S, far_height: S| #[trigger]
        window_by(
            aspect_ratio,
            half_height,
            focus_dist,
            u,
            v,
            two,
            height,
            width,
            far_width,
            far_height,
            horizontal,
            vertical,
        )
}

/// Whether the lower left corner of a camera's window can come to `corner`.
pub open spec fn corner_gives<S: Scalar>(
    origin: Point3<S>,
    horizontal: Vec3<S>,
    vertical: Vec3<S>,
    w: Vec3<S>,
    focus_dist: S,
    corner: Point3<S>,
) -> bool {
    exists|
        two: S,
        half_across: Vec3<S>,
        left: Point3<S>,
        half_up: Vec3<S>,
        low: Point3<S>,
        depth: Vec3<S>,
    | #[trigger]
        corner_by(
            origin,
            horizontal,
            vertical,
            w,
            focus_dist,
            two,
            half_across,
            left,
            half_up,
            low,
            depth,
            corner,
        )
}

/// Whether half the width of a lens as wide as `aperture` can come to
/// `lens_radius`.
pub open spec fn lens_radius_gives<S: Scalar>(aperture: S, lens_radius: S) -> bool {
    exists|two: S| #[trigger] number_gives(2, two) && div_gives(aperture, two, lens_radius)
}

/// Whether `camera` is the camera for the given view, over scalars whose
/// arithmetic is exact, where `sqrt` takes square roots.
///
/// `w` is `origin - lookat` brought to the length one, `u` the cross
/// product of `vup` and `w` brought to the length one, and `v` the cross
/// product of `w` and `u`. With `height` for `2 * half_height`, the window
/// spans `u * (focus_dist * (aspect_ratio * height))` across and
/// `v * (focus_dist * height)` up, its lower left corner is
/// `origin - horizontal / 2 - vertical / 2 - w * focus_dist`, and the lens
/// radius is `aperture / 2`.
pub open spec fn camera_spec<S: Scalar, F: Fn(S) -> S>(
    aspect_ratio: S,
    half_height: S,
    aperture: S,
    focus_dist: S,
    origin: Point3<S>,
    lookat: Point3<S>,
    vup: Vec3<S>,
    sqrt: F,
    camera: CameraData<S>,
) -> bool {
    let two = number_spec::<S>(2);
    let height = two.mul_spec(half_height);
    let width = aspect_ratio.mul_spec(height);
    &&& camera.origin == origin
    &&& unit_vector_spec(SubSpec::sub_spec(origin, lookat), sqrt, camera.w)
    &&& unit_vector_spec(cross_spec(vup, camera.w), sqrt, camera.u)
    &&& camera.v == cross_spec(camera.w, camera.u)
    &&& camera.horizontal == MulSpec::mul_spec(camera.u, focus_dist.mul_spec(width))
    &&& camera.vertical == MulSpec::mul_spec(camera.v, focus_dist.mul_spec(height))
    &&& camera.lower_left_corner == SubSpec::sub_spec(
        SubSpec::sub_spec(
            SubSpec::sub_spec(origin, DivSpec::div_spec(camera.horizontal, two)),
            DivSpec::div_spec(camera.vertical, two),
        ),
        MulSpec::mul_spec(camera.w, focus_dist),
    )
    &&& camera.lens_radius == aperture.div_spec(two)
}

/// Whether the three unit vectors of a camera can be formed.
pub open spec fn basis_req<S: Scalar, F: Fn(S) -> S>(
    origin: Point3<S>,
    lookat: Point3<S>,
    vup: Vec3<S>,
    sqrt: F,
) -> bool {
    &&& SubSpec::sub_req(origin, lookat)
    &&& forall|back: Vec3<S>| #[trigger]
        difference_gives(origin, lookat, back) ==> {
            &&& unit_vector_req(back, sqrt)
            &&& forall|w: Vec3<S>| #[trigger]
                unit_vector_gives(back, sqrt, w) ==> {
                    &&& cross_req(vup, w)
                    &&& forall|right: Vec3<S>| #[trigger]
                        cross_gives(vup, w, right) ==> {
                            &&& unit_vector_req(right, sqrt)
                            &&& forall|u: Vec3<S>| #[trigger]
                                unit_vector_gives(right, sqrt, u) ==> cross_req(w, u)
                        }
                }
        }
}

/// Whether the edges of a camera's window can be formed.
pub open spec fn window_req<S: Scalar>(
    aspect_ratio: S,
    half_height: S,
    focus_dist: S,
    u: Vec3<S>,
    v: Vec3<S>,
) -> bool {
    forall|two: S| #[trigger]
        number_gives(2, two) ==> {
            &&& two.mul_req(half_height)
            &&& forall|height: S| #[trigger]
                mul_gives(two, half_height, height) ==> {
                    &&& aspect_ratio.mul_req(height)
                    &&& focus_dist.mul_req(height)
                    &&& forall|width: S| #[trigger]
                        mul_gives(aspect_ratio, height, width) ==> {
                            &&& focus_dist.mul_req(width)
                            &&& forall|far_width: S, far_height: S|
                                #![trigger mul_gives(focus_dist, width, far_width), mul_gives(focus_dist, height, far_height)]
                                mul_gives(focus_dist, width, far_width) && mul_gives(
                                    focus_dist,
                                    height,
                                    far_height,
                                ) ==> MulSpec::mul_req(u, far_width) && MulSpec::mul_req(
                                    v,
                                    far_height,
                                )
                        }
                }
        }
}

/// Whether the lower left corner of a camera's window can be formed.
pub open spec fn corner_req<S: Scalar>(
    origin: Point3<S>,
    horizontal: Vec3<S>,
    vertical: Vec3<S>,
    w: Vec3<S>,
    focus_dist: S,
) -> bool {
    &&& MulSpec::mul_req(w, focus_dist)
    &&& forall|two: S| #[trigger]
        number_gives(2, two) ==> {
            &&& DivSpec::div_req(horizontal, two)
            &&& DivSpec::div_req(vertical, two)
            &&& forall|half_across: Vec3<S>| #[trigger]
                shrunk_gives(horizontal, two, half_across) ==> {
                    &&& SubSpec::sub_req(origin, half_across)
                    &&& forall|left: Point3<S>, half_up: Vec3<S>|
                        #![trigger difference_gives(origin, half_across, left), shrunk_gives(vertical, two, half_up)]
                        difference_gives(origin, half_across, left) && shrunk_gives(
                            vertical,
                            two,
                            half_up,
                        ) ==> {
                            &&& SubSpec::sub_req(left, half_up)
                            &&& forall|low: Point3<S>, depth: Vec3<S>|
                                #![trigger difference_gives(left, half_up, low), scaled_gives(w, focus_dist, depth)]
                                difference_gives(left, half_up, low) && scaled_gives(
                                    w,
                                    focus_dist,
                                    depth,
                                ) ==> SubSpec::sub_req(low, depth)
                        }
                }
        }
}

/// Whether the camera for the given view can be formed: every step can be
/// taken on whatever the steps before it come to.
pub open spec fn camera_req<S: Scalar, F: Fn(S) -> S>(
    aspect_ratio: S,
    half_height: S,
    aperture: S,
    focus_dist: S,
    origin: Point3<S>,
    lookat: Point3<S>,
    vup: Vec3<S>,
    sqrt: F,
) -> bool {
    &&& basis_req(origin, lookat, vup, sqrt)
    &&& forall|two: S| #[trigger] number_gives(2, two) ==> aperture.div_req(two)
    &&& forall|u: Vec3<S>, v: Vec3<S>, w: Vec3<S>| #[trigger]
        basis_gives(origin, lookat, vup, sqrt, u, v, w) ==> {
            &&& window_req(aspect_ratio, half_height, focus_dist, u, v)
            &&& forall|horizontal: Vec3<S>, vertical: Vec3<S>| #[trigger]
                window_gives(aspect_ratio, half_height, focus_dist, u, v, horizontal, vertical)
                    ==> corner_req(origin, horizontal, vertical, w, focus_dist)
        }
}

/// Whether the place on the lens where a ray starts can come to the offset
/// `offset` from the eye, by way of the values given: with `rd` for
/// `lens_point` times the lens radius, it is `u` times the first coordinate
/// of `rd` plus `v` times the second.
pub open spec fn lens_by<S: Scalar>(
    camera: CameraData<S>,
    lens_point: Vec3<S>,
    rd: Vec3<S>,
    right: Vec3<S>,
    up: Vec3<S>,
    offset: Vec3<S>,
) -> bool {
    &&& scaled_gives(lens_point, camera.lens_radius, rd)
    &&& scaled_gives(camera.u, rd.x, right)
    &&& scaled_gives(camera.v, rd.y, up)
    &&& sum_gives(right, up, offset)
}

/// Whether the way from the eye to the point `(s, t)` of the window can
/// come to `from_eye`, by way of the values given: it is
/// `lower_left_corner + horizontal * s + vertical * t - origin`.
pub open spec fn aim_by<S: Scalar>(
    camera: CameraData<S>,
    s: S,
    t: S,
    across: Vec3<S>,
    bottom: Point3<S>,
    above: Vec3<S>,
    target: Point3<S>,
    from_eye: Vec3<S>,
) -> bool {
    &&& scaled_gives(camera.horizontal, s, across)
    &&& sum_gives(camera.lower_left_corner, across, bottom)
    &&& scaled_gives(camera.vertical, t, above)
    &&& sum_gives(bottom, above, target)
    &&& difference_gives(target, camera.origin, from_eye)
}

/// Whether the ray of a camera through the point `(s, t)` of its window can
/// come to `ray`, by way of the point `rd` on the lens, of its offset from
/// the eye and of the steps across and up the window.
pub open spec fn get_ray_by<S: Scalar>(
    camera: CameraData<S>,
    s: S,
    t: S,
    lens_point: Vec3<S>,
    rd: Vec3<S>,
    right: Vec3<S>,
    up: Vec3<S>,
    offset: Vec3<S>,
    across: Vec3<S>,
    bottom: Point3<S>,
    above: Vec3<S>,
    target: Point3<S>,
    from_eye: Vec3<S>,
    ray: Ray<S>,
) -> bool {
    &&& lens_by(camera, lens_point, rd, right, up, offset)
    &&& aim_by(camera, s, t, across, bottom, above, target, from_eye)
    &&& sum_gives(camera.origin, offset, ray.orig)
    &&& difference_gives(from_eye, offset, ray.dir)
}

/// Whether the offset of a ray's start from the eye can be formed.
pub open spec fn lens_req<S: Scalar>(camera: CameraData<S>, lens_point: Vec3<S>) -> bool {
    &&& MulSpec::mul_req(lens_point, camera.lens_radius)
    &&& forall|rd: Vec3<S>| #[trigger]
        scaled_gives(lens_point, camera.lens_radius, rd) ==> MulSpec::mul_req(camera.u, rd.x)
            && MulSpec::mul_req(camera.v, rd.y)
    &&& forall|rd: Vec3<S>, right: Vec3<S>, up: Vec3<S>|
        #![trigger scaled_gives(camera.u, rd.x, right), scaled_gives(camera.v, rd.y, up)]
        scaled_gives(lens_point, camera.lens_radius, rd) && scaled_gives(camera.u, rd.x, right)
            && scaled_gives(camera.v, rd.y, up) ==> AddSpec::add_req(right, up)
}

/// Whether the way from the eye to a point of the window can be formed.
pub open spec fn aim_req<S: Scalar>(camera: CameraData<S>, s: S, t: S) -> bool {
    &&& MulSpec::mul_req(camera.horizontal, s)
    &&& MulSpec::mul_req(camera.vertical, t)
    &&& forall|across: Vec3<S>| #[trigger]
        scaled_gives(camera.horizontal, s, across) ==> AddSpec::add_req(
            camera.lower_left_corner,
            across,
        )
    &&& forall|across: Vec3<S>, bottom: Point3<S>, above: Vec3<S>|
        #![trigger sum_gives(camera.lower_left_corner, across, bottom), scaled_gives(camera.vertical, t, above)]
        scaled_gives(camera.horizontal, s, across) && sum_gives(
            camera.lower_left_corner,
            across,
            bottom,
        ) && scaled_gives(camera.vertical, t, above) ==> AddSpec::add_req(bottom, above)
    &&& forall|across: Vec3<S>, bottom: Point3<S>, above: Vec3<S>, target: Point3<S>|
        #![trigger sum_gives(camera.lower_left_corner, across, bottom), sum_gives(bottom, above, target)]
        scaled_gives(camera.horizontal, s, across) && sum_gives(
            camera.lower_left_corner,
            across,
            bottom,
        ) && scaled_gives(camera.vertical, t, above) && sum_gives(bottom, above, target)
            ==> SubSpec::sub_req(target, camera.origin)
}

/// Whether the ray of a camera through the point `(s, t)` of its window can
/// be formed: every step can be taken on whatever the steps before it come
/// to.
pub open spec fn get_ray_req<S: Scalar>(camera: CameraData<S>, s: S, t: S, lens_point: Vec3<S>) -> bool {
    &&& lens_req(camera, lens_point)
    &&& aim_req(camera, s, t)
    &&& forall|rd: Vec3<S>, right: Vec3<S>, up: Vec3<S>, offset: Vec3<S>| #[trigger]
        lens_by(camera, lens_point, rd, right, up, offset) ==> AddSpec::add_req(
            camera.origin,
            offset,
        )
    &&& forall|
        rd: Vec3<S>,
        right: Vec3<S>,
        up: Vec3<S>,
        offset: Vec3<S>,
        across: Vec3<S>,
        bottom: Point3<S>,
        above: Vec3<S>,
        target: Point3<S>,
        from_eye: Vec3<S>,
    |
        #![trigger lens_by(camera, lens_point, rd, right, up, offset), aim_by(camera, s, t, across, bottom, above, target, from_eye)]
        lens_by(camera, lens_point, rd, right, up, offset) && aim_by(
            camera,
            s,
            t,
            across,
            bottom,
            above,
            target,
            from_eye,
        ) ==> SubSpec::sub_req(from_eye, offset)
}

/// The ray of a camera through the point `(s, t)` of its window, over
/// scalars whose arithmetic is exact.
pub open spec fn get_ray_spec<S: Scalar>(camera: CameraData<S>, s: S, t: S, lens_point: Vec3<S>) -> Ray<S> {
    let rd = MulSpec::mul_spec(lens_point, camera.lens_radius);
    let offset = AddSpec::add_spec(
        MulSpec::mul_spec(camera.u, rd.x),
        MulSpec::mul_spec(camera.v, rd.y),
    );
    let target = AddSpec::add_spec(
        AddSpec::add_spec(camera.lower_left_corner, MulSpec::mul_spec(camera.horizontal, s)),
        MulSpec::mul_spec(camera.vertical, t),
    );
    Ray {
        orig: AddSpec::add_spec(camera.origin, offset),
        dir: SubSpec::sub_spec(SubSpec::sub_spec(target, camera.origin), offset),
    }
}

/// Whether the ray of a camera through the point `(s, t)` of its window can
/// come to `ray`, given the point `lens_point` drawn from the unit disk.
///
/// The ray starts on the lens, at the eye plus `offset`, where `offset` is
/// `u` times the first coordinate plus `v` times the second coordinate of
/// `lens_point` times the lens radius. It aims at the window's point
/// `lower_left_corner + horizontal * s + vertical * t`: its direction is
/// that point less the eye less `offset`.
pub open spec fn get_ray_gives<S: Scalar>(
    camera: CameraData<S>,
    s: S,
    t: S,
    lens_point: Vec3<S>,
    ray: Ray<S>,
) -> bool {
    exists|
        rd: Vec3<S>,
        right: Vec3<S>,
        up: Vec3<S>,
        offset: Vec3<S>,
        across: Vec3<S>,
        bottom: Point3<S>,
        above: Vec3<S>,
        target: Point3<S>,
        from_eye: Vec3<S>,
    | #[trigger]
        get_ray_by(
            camera,
            s,
            t,
            lens_point,
            rd,
            right,
            up,
            offset,
            across,
            bottom,
            above,
            target,
            from_eye,
            ray,
        )
}

impl<S: Scalar> Camera<S> {
    /// The camera whose eye is at `origin` and looks at `lookat`, with `vup`
    /// for the upward direction. `half_height` is the tangent of half the
    /// vertical angle of view, `aspect_ratio` the width of the picture over
    /// its height, `aperture` the width of the lens and `focus_dist` the
    /// distance at which the picture is sharp. `sqrt` takes square roots.
    pub fn new<F: Fn(S) -> S + Copy>(
        aspect_ratio: S,
        half_height: S,
        aperture: S,
        focus_dist: S,
        origin: Point3<S>,
        lookat: Point3<S>,
        vup: Vec3<S>,
        sqrt: F,
    ) -> (camera: Self)
        requires
            camera_req(
                aspect_ratio,
                half_height,
                aperture,
                focus_dist,
                origin,
                lookat,
                vup,
                sqrt,
            ),
        ensures
            camera_gives(
                aspect_ratio,
                half_height,
                aperture,
                focus_dist,
                origin,
                lookat,
                vup,
                sqrt,
                camera@,
            ),
            exact::<S>() ==> camera_spec(
                aspect_ratio,
                half_height,
                aperture,
                focus_dist,
                origin,
                lookat,
                vup,
                sqrt,
                camera@,
            ),
    {
        let back = origin - lookat;
        proof {
            assert(difference_gives(origin, lookat, back));
        }
        let w = back.unit_vector(sqrt);
        proof {
            assert(unit_vector_gives(back, sqrt, w));
        }
        let right = vup.cross(&w);
        proof {
            assert(cross_gives(vup, w, right));
        }
        let u = right.unit_vector(sqrt);
        proof {
            assert(unit_vector_gives(right, sqrt, u));
        }
        let v = w.cross(&u);
        proof {
            assert(difference_gives(origin, lookat, back) && cross_gives(vup, w, right));
            assert(basis_gives(origin, lookat, vup, sqrt, u, v, w));
        }

        let two: S = number(2);
        proof {
            assert(number_gives(2, two));
        }
        let viewport_height = two * half_height;
        proof {
            assert(mul_gives(two, half_height, viewport_height));
        }
        let viewport_width = aspect_ratio * viewport_height;
        proof {
            assert(mul_gives(aspect_ratio, viewport_height, viewport_width));
        }
        let far_width = focus_dist * viewport_width;
        let far_height = focus_dist * viewport_height;
        proof {
            assert(mul_gives(focus_dist, viewport_width, far_width) && mul_gives(
                focus_dist,
                viewport_height,
                far_height,
            ));
        }
        let horizontal = u * far_width;
        let vertical = v * far_height;
        proof {
            assert(window_by(
                aspect_ratio,
                half_height,
                focus_dist,
                u,
                v,
                two,
                viewport_height,
                viewport_width,
                far_width,
                far_height,
                horizontal,
                vertical,
            ));
            assert(window_gives(aspect_ratio, half_height, focus_dist, u, v, horizontal, vertical));
        }
        let half_across = horizontal / two;
        proof {
            assert(shrunk_gives(horizontal, two, half_across));
        }
        let left = origin - half_across;
        let half_up = vertical / two;
        proof {
            assert(difference_gives(origin, half_across, left) && shrunk_gives(
                vertical,
                two,
                half_up,
            ));
        }
        let low = left - half_up;
        let depth = w * focus_dist;
        proof {
            assert(difference_gives(left, half_up, low) && scaled_gives(w, focus_dist, depth));
        }
        let lower_left_corner = low - depth;

        let lens_radius = aperture / two;

        let camera = Camera { origin, lower_left_corner, horizontal, vertical, lens_radius, u, v, w };
        proof {
            assert(corner_by(
                origin,
                horizontal,
                vertical,
                w,
                focus_dist,
                two,
                half_across,
                left,
                half_up,
                low,
                depth,
                lower_left_corner,
            ));
            assert(corner_gives(origin, horizontal, vertical, w, focus_dist, lower_left_corner));
            assert(number_gives(2, two) && div_gives(aperture, two, lens_radius));
            assert(lens_radius_gives(aperture, lens_radius));
        }
        camera
    }

    /// The ray from the lens through the point `(s, t)` of the window, where
    /// `s` runs from zero at the left edge to one at the right and `t` from
    /// zero at the bottom to one at the top. `lens_point` is a point drawn at
    /// random from the unit disk, which says where on the lens the ray
    /// starts.
    pub fn get_ray(&self, s: S, t: S, lens_point: Vec3<S>) -> (ray: Ray<S>)
        requires
            get_ray_req(self@, s, t, lens_point),
        ensures
            get_ray_gives(self@, s, t, lens_point, ray),
            exact::<S>() ==> ray == get_ray_spec(self@, s, t, lens_point),
    {
        let rd = lens_point * self.lens_radius;
        proof {
            assert(scaled_gives(lens_point, self@.lens_radius, rd));
        }
        let right = self.u * rd.x();
        let up = self.v * rd.y();
        proof {
            assert(scaled_gives(self@.u, rd.x, right) && scaled_gives(self@.v, rd.y, up));
        }
        let offset = right + up;
        proof {
            assert(lens_by(self@, lens_point, rd, right, up, offset));
        }
        let across = self.horizontal * s;
        proof {
            assert(scaled_gives(self@.horizontal, s, across));
        }
        let bottom = self.lower_left_corner + across;
        let above = self.vertical * t;
        proof {
            assert(sum_gives(self@.lower_left_corner, across, bottom) && scaled_gives(
                self@.vertical,
                t,
                above,
            ));
        }
        let target = bottom + above;
        proof {
            assert(sum_gives(bottom, above, target));
        }
        let from_eye = target - self.origin;
        proof {
            assert(aim_by(self@, s, t, across, bottom, above, target, from_eye));
        }
        let ray = Ray::new(self.origin + offset, from_eye - offset);
        proof {
            assert(get_ray_by(
                self@,
                s,
                t,
                lens_point,
                rd,
                right,
                up,
                offset,
                across,
                bottom,
                above,
                target,
                from_eye,
                ray,
            ));
        }
        ray
    }
}

} // verus!
