//! From gathered light to the values of a pixel, and from a pixel to its
//! place in the picture.
use vstd::prelude::*;
use vstd::std_specs::convert::FromSpec;
use vstd::std_specs::ops::{AddSpec, DivSpec, MulSpec};
use crate::scalar::{
    add_gives, count, count_gives, div_gives, exact, mul_gives, number, number_gives,
    number_spec, ordered, wide_number, wide_number_gives, Scalar,
};
use crate::utils::{clamp, clamp_spec, clamps_to};
use crate::vec3::{Color, Vec3};

verus! {

/// Whether the brightness of one colour channel of a pixel, between zero
/// and one, can come to `limited`, by way of the values given, where `sqrt`
/// takes square roots.
///
/// The light `sum` gathered over all samples is divided by their number,
/// here multiplied by `scale`, and corrected for a gamma of two by the
/// square root. The result is limited to the interval from zero to
/// `999 / 1000`.
pub open spec fn brightness_by<S: Scalar + From<i16>, F: Fn(S) -> S>(
    sum: S,
    scale: S,
    sqrt: F,
    mean: S,
    corrected: S,
    zero: S,
    parts: S,
    whole: S,
    top: S,
    limited: S,
) -> bool {
    &&& mul_gives(sum, scale, mean)
    &&& call_ensures(sqrt, (mean,), corrected)
    &&& number_gives(0, zero)
    &&& wide_number_gives(999, parts)
    &&& wide_number_gives(1000, whole)
    &&& div_gives(parts, whole, top)
    &&& clamps_to(corrected, zero, top, limited)
}

/// Whether the value of one colour channel of a pixel can come to `out`, by
/// way of the values given: the brightness of the channel times 256.
pub open spec fn channel_by<S: Scalar + From<i16>, F: Fn(S) -> S>(
    sum: S,
    scale: S,
    sqrt: F,
    mean: S,
    corrected: S,
    zero: S,
    parts: S,
    whole: S,
    top: S,
    limited: S,
    range: S,
    out: S,
) -> bool {
    &&& brightness_by(sum, scale, sqrt, mean, corrected, zero, parts, whole, top, limited)
    &&& wide_number_gives(256, range)
    &&& mul_gives(range, limited, out)
}

/// Whether the value of one colour channel of a pixel can come to `out`.
pub open spec fn channel_gives<S: Scalar + From<i16>, F: Fn(S) -> S>(
    sum: S,
    scale: S,
    sqrt: F,
    out: S,
) -> bool {
    exists|
        mean: S,
        corrected: S,
        zero: S,
        parts: S,
        whole: S,
        top: S,
        limited: S,
        range: S,
    | #[trigger]
        channel_by(sum, scale, sqrt, mean, corrected, zero, parts, whole, top, limited, range, out)
}

/// Whether `out` is the value of one colour channel of a pixel, over
/// scalars whose arithmetic is exact and whose tests go by their order,
/// where `sqrt` takes square roots: 256 times a square root of
/// `sum * scale`, limited to the interval from zero to `999 / 1000`.
pub open spec fn channel_spec<S: Scalar + From<i16>, F: Fn(S) -> S>(
    sum: S,
    scale: S,
    sqrt: F,
    out: S,
) -> bool {
    let top = <S as FromSpec<i16>>::from_spec(999).div_spec(<S as FromSpec<i16>>::from_spec(1000));
    exists|corrected: S| #[trigger]
        call_ensures(sqrt, (sum.mul_spec(scale),), corrected) && out == <S as FromSpec<
            i16,
        >>::from_spec(256).mul_spec(clamp_spec(corrected, number_spec::<S>(0), top))
}

/// Whether the value of one colour channel of a pixel can be formed: each
/// step can be taken on whatever the steps before it come to.
pub open spec fn channel_req<S: Scalar + From<i16>, F: Fn(S) -> S>(sum: S, scale: S, sqrt: F) -> bool {
    &&& sum.mul_req(scale)
    &&& forall|mean: S| #[trigger]
        mul_gives(sum, scale, mean) ==> call_requires(sqrt, (mean,))
    &&& forall|parts: S, whole: S|
        #![trigger wide_number_gives(999, parts), wide_number_gives(1000, whole)]
        wide_number_gives(999, parts) && wide_number_gives(1000, whole) ==> parts.div_req(whole)
    &&& forall|
        mean: S,
        corrected: S,
        zero: S,
        parts: S,
        whole: S,
        top: S,
        limited: S,
        range: S,
    |
        #![trigger brightness_by(sum, scale, sqrt, mean, corrected, zero, parts, whole, top, limited), wide_number_gives(256, range)]
        brightness_by(sum, scale, sqrt, mean, corrected, zero, parts, whole, top, limited)
            && wide_number_gives(256, range) ==> range.mul_req(limited)
}

/// Whether the factor that brings the gathered light to its mean can be
/// formed.
pub open spec fn scale_req<S: Scalar + From<u32>>(samples_per_pixel: u32) -> bool {
    forall|one: S, samples: S|
        #![trigger number_gives(1, one), count_gives(samples_per_pixel, samples)]
        number_gives(1, one) && count_gives(samples_per_pixel, samples) ==> one.div_req(samples)
}

/// Whether the three channel values of a pixel can be formed.
pub open spec fn channel_values_req<S: Scalar + From<i16> + From<u32>, F: Fn(S) -> S>(
    pixel_color: Color<S>,
    samples_per_pixel: u32,
    sqrt: F,
) -> bool {
    &&& scale_req::<S>(samples_per_pixel)
    &&& forall|scale: S| #[trigger]
        scale_gives(samples_per_pixel, scale) ==> channel_req(pixel_color.x, scale, sqrt)
            && channel_req(pixel_color.y, scale, sqrt) && channel_req(pixel_color.z, scale, sqrt)
}

/// Whether the factor by which the light gathered over `samples_per_pixel`
/// samples is brought to its mean can come to `scale`: one over the number
/// of samples.
pub open spec fn scale_gives<S: Scalar + From<u32>>(samples_per_pixel: u32, scale: S) -> bool {
    exists|one: S, samples: S|
        {
            &&& #[trigger] number_gives(1, one)
            &&& #[trigger] count_gives(samples_per_pixel, samples)
            &&& div_gives(one, samples, scale)
        }
}

/// Whether the three channel values of a pixel can come to `out`.
pub open spec fn channel_values_gives<S: Scalar + From<i16> + From<u32>, F: Fn(S) -> S>(
    pixel_color: Color<S>,
    samples_per_pixel: u32,
    sqrt: F,
    out: Vec3<S>,
) -> bool {
    exists|scale: S| #[trigger]
        scale_gives(samples_per_pixel, scale) && channel_gives(pixel_color.x, scale, sqrt, out.x)
            && channel_gives(pixel_color.y, scale, sqrt, out.y) && channel_gives(
            pixel_color.z,
            scale,
            sqrt,
            out.z,
        )
}

/// The value of one colour channel of a pixel, from the light `sum`
/// gathered over all samples and the factor `scale` that brings it to the
/// mean.
pub fn channel_value<S: Scalar + From<i16>, F: Fn(S) -> S>(sum: S, scale: S, sqrt: F) -> (out: S)
    requires
        channel_req(sum, scale, sqrt),
    ensures
        channel_gives(sum, scale, sqrt, out),
        exact::<S>() && ordered::<S>() && <S as FromSpec<i16>>::obeys_from_spec() ==> channel_spec(
            sum,
            scale,
            sqrt,
            out,
        ),
{
    let mean = sum * scale;
    proof {
        assert(mul_gives(sum, scale, mean));
    }
    let corrected = sqrt(mean);
    let zero: S = number(0);
    let parts: S = wide_number(999);
    let whole: S = wide_number(1000);
    proof {
        assert(wide_number_gives(999, parts) && wide_number_gives(1000, whole));
    }
    let top = parts / whole;
    let limited = clamp(corrected, zero, top);
    let range: S = wide_number(256);
    proof {
        assert(brightness_by(sum, scale, sqrt, mean, corrected, zero, parts, whole, top, limited)
            && wide_number_gives(256, range));
    }
    let out = range * limited;
    proof {
        assert(channel_by(
            sum,
            scale,
            sqrt,
            mean,
            corrected,
            zero,
            parts,
            whole,
            top,
            limited,
            range,
            out,
        ));
    }
    out
}

/// The red, green and blue values of a pixel, from the light `pixel_color`
/// gathered over `samples_per_pixel` samples. Each value stands for the
/// whole number below it, which is what a picture stores.
pub fn channel_values<S: Scalar + From<i16> + From<u32>, F: Fn(S) -> S + Copy>(
    pixel_color: Color<S>,
    samples_per_pixel: u32,
    sqrt: F,
) -> (out: Vec3<S>)
    requires
        channel_values_req(pixel_color, samples_per_pixel, sqrt),
    ensures
        channel_values_gives(pixel_color, samples_per_pixel, sqrt, out),
        exact::<S>() && ordered::<S>() && <S as FromSpec<i16>>::obeys_from_spec() && <S as FromSpec<
            u32,
        >>::obeys_from_spec() ==> {
            let scale = number_spec::<S>(1).div_spec(
                <S as FromSpec<u32>>::from_spec(samples_per_pixel),
            );
            &&& channel_spec(pixel_color.x, scale, sqrt, out.x)
            &&& channel_spec(pixel_color.y, scale, sqrt, out.y)
            &&& channel_spec(pixel_color.z, scale, sqrt, out.z)
        },
{
    let one: S = number(1);
    let samples: S = count(samples_per_pixel);
    proof {
        assert(number_gives(1, one) && count_gives(samples_per_pixel, samples));
    }
    let scale = one / samples;
    proof {
        assert(scale_gives(samples_per_pixel, scale));
    }
    let r = channel_value(pixel_color.x(), scale, sqrt);
    let g = channel_value(pixel_color.y(), scale, sqrt);
    let b = channel_value(pixel_color.z(), scale, sqrt);
    Vec3::new(r, g, b)
}

/// Whether the place of a sample in the picture, between zero at one edge
/// and one at the other, can come to `out`, formed as
/// `(index + jitter) / (extent - 1)`.
pub open spec fn screen_coordinate_gives<S: Scalar + From<u32>>(
    index: u32,
    jitter: S,
    extent: u32,
    out: S,
) -> bool {
    exists|place: S, moved: S, last: S|
        {
            &&& #[trigger] count_gives(index, place)
            &&& #[trigger] add_gives(place, jitter, moved)
            &&& #[trigger] count_gives((extent - 1) as u32, last)
            &&& div_gives(moved, last, out)
        }
}

/// Whether the place of a sample in the picture can be formed.
pub open spec fn screen_coordinate_req<S: Scalar + From<u32>>(index: u32, jitter: S, extent: u32) -> bool {
    &&& extent >= 1
    &&& forall|place: S| #[trigger] count_gives(index, place) ==> place.add_req(jitter)
    &&& forall|place: S, moved: S, last: S|
        #![trigger add_gives(place, jitter, moved), count_gives((extent - 1) as u32, last)]
        count_gives(index, place) && add_gives(place, jitter, moved) && count_gives(
            (extent - 1) as u32,
            last,
        ) ==> moved.div_req(last)
}

/// The place of a sample in the picture along one axis, for the pixel
/// `index` of `extent` pixels: the pixel's index, moved by `jitter`, a
/// number drawn evenly between zero and one, over the index of the last
/// pixel.
pub fn screen_coordinate<S: Scalar + From<u32>>(index: u32, jitter: S, extent: u32) -> (out: S)
    requires
        screen_coordinate_req(index, jitter, extent),
    ensures
        screen_coordinate_gives(index, jitter, extent, out),
        exact::<S>() && <S as FromSpec<u32>>::obeys_from_spec() ==> out == <S as FromSpec<
            u32,
        >>::from_spec(index).add_spec(jitter).div_spec(
            <S as FromSpec<u32>>::from_spec((extent - 1) as u32),
        ),
{
    let place: S = count(index);
    proof {
        assert(count_gives(index, place));
    }
    let moved = place + jitter;
    let last: S = count(extent - 1);
    proof {
        assert(add_gives(place, jitter, moved) && count_gives((extent - 1) as u32, last));
    }
    moved / last
}

} // verus!
