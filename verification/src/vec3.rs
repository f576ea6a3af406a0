//! Vectors of three scalars, and their algebra.
//!
//! Each operation comes with a relation, named after it and ending in
//! `_gives`, that holds of every result the operation can have, whatever the
//! scalar type; with a condition ending in `_req` under which the operation
//! can be carried out, where it takes more than one step; and, where the
//! result does not hang on a square root, with a function ending in `_spec`
//! that is the result over scalars whose arithmetic is exact.
use vstd::prelude::*;
use vstd::std_specs::convert::FromSpec;
use vstd::std_specs::ops::{
    AddSpec, AddSpecImpl, DivSpec, DivSpecImpl, MulSpec, MulSpecImpl, NegSpec, NegSpecImpl,
    SubSpec, SubSpecImpl,
};
use core::ops::{
    Add, AddAssign, Div, DivAssign, Mul, MulAssign, Neg, Sub, SubAssign,
};
use crate::scalar::{
    above, add_gives, below, div_gives, exact, greater, greater_gives, gt_gives, large_number,
    large_number_gives, lesser, lesser_gives,
    lt_gives, mul_gives, neg_gives, number, number_gives, number_spec, ordered, sub_gives,
    Scalar,
};

verus! {

/// A triple of scalars, read as a point, as a direction or as a colour.
///
/// The scalar type `S` is left open. What a sum or a product of two scalars
/// is, the scalar type says; the library says which sums and products it
/// forms.
#[derive(Debug, PartialEq)]
pub struct Vec3<S> {
    pub x: S,
    pub y: S,
    pub z: S,
}

impl<S: Copy> Clone for Vec3<S> {
    fn clone(&self) -> (v: Self)
        ensures
            v == *self,
    {
        *self
    }
}

impl<S: Copy> Copy for Vec3<S> {

}

/// A position in space.
pub type Point3<S> = Vec3<S>;

/// Red, green and blue.
pub type Color<S> = Vec3<S>;

/// Whether `out` can be `a` turned round, each coordinate negated.
pub open spec fn reversed_gives<S: Neg<Output = S>>(a: Vec3<S>, out: Vec3<S>) -> bool {
    neg_gives(a.x, out.x) && neg_gives(a.y, out.y) && neg_gives(a.z, out.z)
}

/// Whether `out` can be the sum of `a` and `b`, formed coordinate by
/// coordinate.
pub open spec fn sum_gives<S: Add<Output = S>>(a: Vec3<S>, b: Vec3<S>, out: Vec3<S>) -> bool {
    add_gives(a.x, b.x, out.x) && add_gives(a.y, b.y, out.y) && add_gives(a.z, b.z, out.z)
}

/// Whether `out` can be `a` less `b`, formed coordinate by coordinate.
pub open spec fn difference_gives<S: Sub<Output = S>>(a: Vec3<S>, b: Vec3<S>, out: Vec3<S>) -> bool {
    sub_gives(a.x, b.x, out.x) && sub_gives(a.y, b.y, out.y) && sub_gives(a.z, b.z, out.z)
}

/// Whether `out` can be the product of `a` and `b`, formed coordinate by
/// coordinate.
pub open spec fn product_gives<S: Mul<Output = S>>(a: Vec3<S>, b: Vec3<S>, out: Vec3<S>) -> bool {
    mul_gives(a.x, b.x, out.x) && mul_gives(a.y, b.y, out.y) && mul_gives(a.z, b.z, out.z)
}

/// Whether `out` can be `a` with each coordinate multiplied by `scalar`.
pub open spec fn scaled_gives<S: Mul<Output = S>>(a: Vec3<S>, scalar: S, out: Vec3<S>) -> bool {
    mul_gives(a.x, scalar, out.x) && mul_gives(a.y, scalar, out.y) && mul_gives(
        a.z,
        scalar,
        out.z,
    )
}

/// Whether `out` can be `a` with each coordinate divided by `scalar`.
pub open spec fn shrunk_gives<S: Div<Output = S>>(a: Vec3<S>, scalar: S, out: Vec3<S>) -> bool {
    div_gives(a.x, scalar, out.x) && div_gives(a.y, scalar, out.y) && div_gives(
        a.z,
        scalar,
        out.z,
    )
}

impl<S> Vec3<S> {
    /// The vector with the coordinates `x`, `y`, `z`.
    pub fn new(x: S, y: S, z: S) -> (v: Self)
        ensures
            v == (Vec3 { x, y, z }),
    {
        Vec3 { x, y, z }
    }
}

impl<S: Copy> Vec3<S> {
    /// The first coordinate.
    pub fn x(&self) -> (c: S)
        ensures
            c == self.x,
    {
        self.x
    }

    /// The second coordinate.
    pub fn y(&self) -> (c: S)
        ensures
            c == self.y,
    {
        self.y
    }

    /// The third coordinate.
    pub fn z(&self) -> (c: S)
        ensures
            c == self.z,
    {
        self.z
    }
}

impl<S: From<i8>> Vec3<S> {
    /// The zero vector.
    pub fn zero() -> (v: Self)
        ensures
            number_gives(0, v.x),
            number_gives(0, v.y),
            number_gives(0, v.z),
            <S as FromSpec<i8>>::obeys_from_spec() ==> v == (Vec3 {
                x: number_spec::<S>(0),
                y: number_spec::<S>(0),
                z: number_spec::<S>(0),
            }),
    {
        Vec3 { x: number(0), y: number(0), z: number(0) }
    }

    /// The vector whose coordinates are all one: as a colour, white.
    pub fn one() -> (v: Self)
        ensures
            number_gives(1, v.x),
            number_gives(1, v.y),
            number_gives(1, v.z),
            <S as FromSpec<i8>>::obeys_from_spec() ==> v == (Vec3 {
                x: number_spec::<S>(1),
                y: number_spec::<S>(1),
                z: number_spec::<S>(1),
            }),
    {
        Vec3 { x: number(1), y: number(1), z: number(1) }
    }
}

impl<S: Default> Default for Vec3<S> {
    /// The vector whose coordinates are each a default scalar, which for the
    /// number types is zero.
    fn default() -> (v: Self)
        ensures
            call_ensures(S::default, (), v.x),
            call_ensures(S::default, (), v.y),
            call_ensures(S::default, (), v.z),
    {
        Vec3 { x: S::default(), y: S::default(), z: S::default() }
    }
}

impl<S: Neg<Output = S>> NegSpecImpl for Vec3<S> {
    open spec fn obeys_neg_spec() -> bool {
        S::obeys_neg_spec()
    }

    open spec fn neg_req(self) -> bool {
        self.x.neg_req() && self.y.neg_req() && self.z.neg_req()
    }

    open spec fn neg_spec(self) -> Vec3<S> {
        Vec3 { x: self.x.neg_spec(), y: self.y.neg_spec(), z: self.z.neg_spec() }
    }
}

impl<S: Neg<Output = S>> Neg for Vec3<S> {
    type Output = Vec3<S>;

    /// The vector turned round: each coordinate negated.
    fn neg(self) -> (r: Vec3<S>)
        ensures
            reversed_gives(self, r),
    {
        Vec3 { x: self.x.neg(), y: self.y.neg(), z: self.z.neg() }
    }
}

impl<S: Add<Output = S>> AddSpecImpl for Vec3<S> {
    open spec fn obeys_add_spec() -> bool {
        S::obeys_add_spec()
    }

    open spec fn add_req(self, rhs: Vec3<S>) -> bool {
        self.x.add_req(rhs.x) && self.y.add_req(rhs.y) && self.z.add_req(rhs.z)
    }

    open spec fn add_spec(self, rhs: Vec3<S>) -> Vec3<S> {
        Vec3 { x: self.x.add_spec(rhs.x), y: self.y.add_spec(rhs.y), z: self.z.add_spec(rhs.z) }
    }
}

impl<S: Add<Output = S>> Add for Vec3<S> {
    type Output = Vec3<S>;

    /// The sum, coordinate by coordinate.
    fn add(self, other: Vec3<S>) -> (r: Vec3<S>)
        ensures
            sum_gives(self, other, r),
    {
        Vec3 { x: self.x + other.x, y: self.y + other.y, z: self.z + other.z }
    }
}

impl<S: Sub<Output = S>> SubSpecImpl for Vec3<S> {
    open spec fn obeys_sub_spec() -> bool {
        S::obeys_sub_spec()
    }

    open spec fn sub_req(self, rhs: Vec3<S>) -> bool {
        self.x.sub_req(rhs.x) && self.y.sub_req(rhs.y) && self.z.sub_req(rhs.z)
    }

    open spec fn sub_spec(self, rhs: Vec3<S>) -> Vec3<S> {
        Vec3 { x: self.x.sub_spec(rhs.x), y: self.y.sub_spec(rhs.y), z: self.z.sub_spec(rhs.z) }
    }
}

impl<S: Sub<Output = S>> Sub for Vec3<S> {
    type Output = Vec3<S>;

    /// The difference, coordinate by coordinate.
    fn sub(self, other: Vec3<S>) -> (r: Vec3<S>)
        ensures
            difference_gives(self, other, r),
    {
        Vec3 { x: self.x - other.x, y: self.y - other.y, z: self.z - other.z }
    }
}

impl<S: Mul<Output = S>> MulSpecImpl for Vec3<S> {
    open spec fn obeys_mul_spec() -> bool {
        S::obeys_mul_spec()
    }

    open spec fn mul_req(self, rhs: Vec3<S>) -> bool {
        self.x.mul_req(rhs.x) && self.y.mul_req(rhs.y) && self.z.mul_req(rhs.z)
    }

    open spec fn mul_spec(self, rhs: Vec3<S>) -> Vec3<S> {
        Vec3 { x: self.x.mul_spec(rhs.x), y: self.y.mul_spec(rhs.y), z: self.z.mul_spec(rhs.z) }
    }
}

impl<S: Mul<Output = S>> Mul for Vec3<S> {
    type Output = Vec3<S>;

    /// The product, coordinate by coordinate: a colour seen through a
    /// coloured filter.
    fn mul(self, other: Vec3<S>) -> (r: Vec3<S>)
        ensures
            product_gives(self, other, r),
    {
        Vec3 { x: self.x * other.x, y: self.y * other.y, z: self.z * other.z }
    }
}

impl<S: Copy + Mul<Output = S>> MulSpecImpl<S> for Vec3<S> {
    open spec fn obeys_mul_spec() -> bool {
        S::obeys_mul_spec()
    }

    open spec fn mul_req(self, rhs: S) -> bool {
        self.x.mul_req(rhs) && self.y.mul_req(rhs) && self.z.mul_req(rhs)
    }

    open spec fn mul_spec(self, rhs: S) -> Vec3<S> {
        Vec3 { x: self.x.mul_spec(rhs), y: self.y.mul_spec(rhs), z: self.z.mul_spec(rhs) }
    }
}

impl<S: Copy + Mul<Output = S>> Mul<S> for Vec3<S> {
    type Output = Vec3<S>;

    /// The vector stretched by `scalar`: each coordinate times `scalar`.
    fn mul(self, scalar: S) -> (r: Vec3<S>)
        ensures
            scaled_gives(self, scalar, r),
    {
        Vec3 { x: self.x * scalar, y: self.y * scalar, z: self.z * scalar }
    }
}

impl<S: Copy + Div<Output = S>> DivSpecImpl<S> for Vec3<S> {
    open spec fn obeys_div_spec() -> bool {
        S::obeys_div_spec()
    }

    open spec fn div_req(self, rhs: S) -> bool {
        self.x.div_req(rhs) && self.y.div_req(rhs) && self.z.div_req(rhs)
    }

    open spec fn div_spec(self, rhs: S) -> Vec3<S> {
        Vec3 { x: self.x.div_spec(rhs), y: self.y.div_spec(rhs), z: self.z.div_spec(rhs) }
    }
}

impl<S: Copy + Div<Output = S>> Div<S> for Vec3<S> {
    type Output = Vec3<S>;

    /// The vector shrunk by `scalar`: each coordinate over `scalar`.
    fn div(self, scalar: S) -> (r: Vec3<S>)
        ensures
            shrunk_gives(self, scalar, r),
    {
        Vec3 { x: self.x / scalar, y: self.y / scalar, z: self.z / scalar }
    }
}

impl<S: Copy + Add<Output = S>> AddAssign for Vec3<S> {
    /// Adds `other` to the vector, coordinate by coordinate.
    fn add_assign(&mut self, other: Vec3<S>)
        requires
            AddSpec::add_req(*old(self), other),
        ensures
            sum_gives(*old(self), other, *final(self)),
            S::obeys_add_spec() ==> *final(self) == AddSpec::add_spec(*old(self), other),
    {
        *self = *self + other;
    }
}

impl<S: Copy + Sub<Output = S>> SubAssign for Vec3<S> {
    /// Takes `other` from the vector, coordinate by coordinate.
    fn sub_assign(&mut self, other: Vec3<S>)
        requires
            SubSpec::sub_req(*old(self), other),
        ensures
            difference_gives(*old(self), other, *final(self)),
            S::obeys_sub_spec() ==> *final(self) == SubSpec::sub_spec(*old(self), other),
    {
        *self = *self - other;
    }
}

impl<S: Copy + Mul<Output = S>> MulAssign for Vec3<S> {
    /// Multiplies the vector by `other`, coordinate by coordinate.
    fn mul_assign(&mut self, other: Vec3<S>)
        requires
            MulSpec::mul_req(*old(self), other),
        ensures
            product_gives(*old(self), other, *final(self)),
            S::obeys_mul_spec() ==> *final(self) == MulSpec::mul_spec(*old(self), other),
    {
        *self = *self * other;
    }
}

impl<S: Copy + Mul<Output = S>> MulAssign<S> for Vec3<S> {
    /// Stretches the vector by `scalar`.
    fn mul_assign(&mut self, scalar: S)
        requires
            MulSpec::mul_req(*old(self), scalar),
        ensures
            scaled_gives(*old(self), scalar, *final(self)),
            S::obeys_mul_spec() ==> *final(self) == MulSpec::mul_spec(*old(self), scalar),
    {
        *self = *self * scalar;
    }
}

impl<S: Copy + Div<Output = S>> DivAssign<S> for Vec3<S> {
    /// Shrinks the vector by `scalar`.
    fn div_assign(&mut self, scalar: S)
        requires
            DivSpec::div_req(*old(self), scalar),
        ensures
            shrunk_gives(*old(self), scalar, *final(self)),
            S::obeys_div_spec() ==> *final(self) == DivSpec::div_spec(*old(self), scalar),
    {
        *self = *self / scalar;
    }
}

/// Whether `a * b - c * d` can come to `out` by way of the products `p` and
/// `q`.
pub open spec fn diff_of_products_by<S: Sub<Output = S> + Mul<Output = S>>(
    a: S,
    b: S,
    c: S,
    d: S,
    p: S,
    q: S,
    out: S,
) -> bool {
    mul_gives(a, b, p) && mul_gives(c, d, q) && sub_gives(p, q, out)
}

/// Whether `a * b - c * d` can come to `out`.
pub open spec fn diff_of_products_gives<S: Sub<Output = S> + Mul<Output = S>>(
    a: S,
    b: S,
    c: S,
    d: S,
    out: S,
) -> bool {
    exists|p: S, q: S| #[trigger] diff_of_products_by(a, b, c, d, p, q, out)
}

/// Whether `a * b - c * d` can be formed: both products, and the difference
/// of whatever they come to.
pub open spec fn diff_of_products_req<S: Sub<Output = S> + Mul<Output = S>>(
    a: S,
    b: S,
    c: S,
    d: S,
) -> bool {
    &&& a.mul_req(b)
    &&& c.mul_req(d)
    &&& forall|p: S, q: S|
        #![trigger mul_gives(a, b, p), mul_gives(c, d, q)]
        mul_gives(a, b, p) && mul_gives(c, d, q) ==> p.sub_req(q)
}

/// Whether the first two products of the dot product of `a` and `b` can come
/// to `px` and `py`, and their sum to `xy`.
pub open spec fn dot_front_by<S: Add<Output = S> + Mul<Output = S>>(
    a: Vec3<S>,
    b: Vec3<S>,
    px: S,
    py: S,
    xy: S,
) -> bool {
    mul_gives(a.x, b.x, px) && mul_gives(a.y, b.y, py) && add_gives(px, py, xy)
}

/// Whether the dot product of `a` and `b` can come to `out` by way of the
/// sum `xy` of its first two products and of its third product `pz`.
pub open spec fn dot_by<S: Add<Output = S> + Mul<Output = S>>(
    a: Vec3<S>,
    b: Vec3<S>,
    px: S,
    py: S,
    xy: S,
    pz: S,
    out: S,
) -> bool {
    dot_front_by(a, b, px, py, xy) && mul_gives(a.z, b.z, pz) && add_gives(xy, pz, out)
}

/// Whether the dot product of `a` and `b`, formed as
/// `(a.x * b.x + a.y * b.y) + a.z * b.z`, can come to `out`.
pub open spec fn dot_gives<S: Add<Output = S> + Mul<Output = S>>(a: Vec3<S>, b: Vec3<S>, out: S) -> bool {
    exists|px: S, py: S, xy: S, pz: S| #[trigger] dot_by(a, b, px, py, xy, pz, out)
}

/// Whether the dot product of `a` and `b` can be formed: its three products,
/// and the two sums of whatever they come to.
pub open spec fn dot_req<S: Add<Output = S> + Mul<Output = S>>(a: Vec3<S>, b: Vec3<S>) -> bool {
    &&& a.x.mul_req(b.x)
    &&& a.y.mul_req(b.y)
    &&& a.z.mul_req(b.z)
    &&& forall|px: S, py: S|
        #![trigger mul_gives(a.x, b.x, px), mul_gives(a.y, b.y, py)]
        mul_gives(a.x, b.x, px) && mul_gives(a.y, b.y, py) ==> px.add_req(py)
    &&& forall|px: S, py: S, xy: S, pz: S|
        #![trigger dot_front_by(a, b, px, py, xy), mul_gives(a.z, b.z, pz)]
        dot_front_by(a, b, px, py, xy) && mul_gives(a.z, b.z, pz) ==> xy.add_req(pz)
}

/// The dot product of `a` and `b` over scalars whose sums and products are
/// fixed by the operands.
pub open spec fn dot_spec<S: Add<Output = S> + Mul<Output = S>>(a: Vec3<S>, b: Vec3<S>) -> S {
    a.x.mul_spec(b.x).add_spec(a.y.mul_spec(b.y)).add_spec(a.z.mul_spec(b.z))
}

/// Whether the cross product of `a` and `b` can come to `out`.
pub open spec fn cross_gives<S: Sub<Output = S> + Mul<Output = S>>(
    a: Vec3<S>,
    b: Vec3<S>,
    out: Vec3<S>,
) -> bool {
    &&& diff_of_products_gives(a.y, b.z, a.z, b.y, out.x)
    &&& diff_of_products_gives(a.z, b.x, a.x, b.z, out.y)
    &&& diff_of_products_gives(a.x, b.y, a.y, b.x, out.z)
}

/// Whether the cross product of `a` and `b` can be formed.
pub open spec fn cross_req<S: Sub<Output = S> + Mul<Output = S>>(a: Vec3<S>, b: Vec3<S>) -> bool {
    &&& diff_of_products_req(a.y, b.z, a.z, b.y)
    &&& diff_of_products_req(a.z, b.x, a.x, b.z)
    &&& diff_of_products_req(a.x, b.y, a.y, b.x)
}

/// The cross product of `a` and `b` over scalars whose differences and
/// products are fixed by the operands.
pub open spec fn cross_spec<S: Sub<Output = S> + Mul<Output = S>>(a: Vec3<S>, b: Vec3<S>) -> Vec3<S> {
    Vec3 {
        x: a.y.mul_spec(b.z).sub_spec(a.z.mul_spec(b.y)),
        y: a.z.mul_spec(b.x).sub_spec(a.x.mul_spec(b.z)),
        z: a.x.mul_spec(b.y).sub_spec(a.y.mul_spec(b.x)),
    }
}

/// Over scalars whose sums and products are fixed by the operands, a dot
/// product comes to one value only.
pub proof fn lemma_dot_exact<S: Add<Output = S> + Mul<Output = S>>(a: Vec3<S>, b: Vec3<S>, d: S)
    requires
        S::obeys_add_spec(),
        S::obeys_mul_spec(),
        dot_gives(a, b, d),
    ensures
        d == dot_spec(a, b),
{
    let (px, py, xy, pz) = choose|px: S, py: S, xy: S, pz: S| #[trigger]
        dot_by(a, b, px, py, xy, pz, d);
    assert(dot_front_by(a, b, px, py, xy));
}

impl<S: Copy + Add<Output = S> + Mul<Output = S>> Vec3<S> {
    /// The dot product with `other`.
    pub fn dot(&self, other: &Vec3<S>) -> (d: S)
        requires
            dot_req(*self, *other),
        ensures
            dot_gives(*self, *other, d),
            S::obeys_add_spec() && S::obeys_mul_spec() ==> d == dot_spec(*self, *other),
    {
        let px = self.x * other.x;
        let py = self.y * other.y;
        proof {
            assert(mul_gives(self.x, other.x, px) && mul_gives(self.y, other.y, py));
        }
        let xy = px + py;
        let pz = self.z * other.z;
        proof {
            assert(dot_front_by(*self, *other, px, py, xy) && mul_gives(self.z, other.z, pz));
        }
        let d = xy + pz;
        proof {
            assert(dot_by(*self, *other, px, py, xy, pz, d));
        }
        d
    }

    /// The square of the length: the dot product of the vector with itself.
    pub fn norm_squared(&self) -> (n: S)
        requires
            dot_req(*self, *self),
        ensures
            dot_gives(*self, *self, n),
            S::obeys_add_spec() && S::obeys_mul_spec() ==> n == dot_spec(*self, *self),
    {
        self.dot(self)
    }
}

impl<S: Copy + Sub<Output = S> + Mul<Output = S>> Vec3<S> {
    /// The cross product with `other`.
    pub fn cross(&self, other: &Vec3<S>) -> (c: Vec3<S>)
        requires
            cross_req(*self, *other),
        ensures
            cross_gives(*self, *other, c),
            S::obeys_sub_spec() && S::obeys_mul_spec() ==> c == cross_spec(*self, *other),
    {
        let yz = self.y * other.z;
        let zy = self.z * other.y;
        proof {
            assert(mul_gives(self.y, other.z, yz) && mul_gives(self.z, other.y, zy));
        }
        let x = yz - zy;
        let zx = self.z * other.x;
        let xz = self.x * other.z;
        proof {
            assert(mul_gives(self.z, other.x, zx) && mul_gives(self.x, other.z, xz));
        }
        let y = zx - xz;
        let xy = self.x * other.y;
        let yx = self.y * other.x;
        proof {
            assert(mul_gives(self.x, other.y, xy) && mul_gives(self.y, other.x, yx));
        }
        let z = xy - yx;
        proof {
            assert(diff_of_products_by(self.y, other.z, self.z, other.y, yz, zy, x));
            assert(diff_of_products_by(self.z, other.x, self.x, other.z, zx, xz, y));
            assert(diff_of_products_by(self.x, other.y, self.y, other.x, xy, yx, z));
        }
        Vec3 { x, y, z }
    }
}

/// Whether `v` mirrored at a surface with the unit normal `n` can come to
/// `out`, by way of the dot product `d` of the two, of the scalar `two` for
/// the number two, of their product `k` and of the step `step` along the
/// normal.
pub open spec fn reflect_by<S: Scalar>(
    v: Vec3<S>,
    n: Vec3<S>,
    d: S,
    two: S,
    k: S,
    step: Vec3<S>,
    out: Vec3<S>,
) -> bool {
    &&& dot_gives(v, n, d)
    &&& number_gives(2, two)
    &&& mul_gives(two, d, k)
    &&& scaled_gives(n, k, step)
    &&& difference_gives(v, step, out)
}

/// Whether `v` mirrored at a surface with the unit normal `n`, formed as
/// `v - n * (2 * (v . n))`, can come to `out`.
pub open spec fn reflect_gives<S: Scalar>(v: Vec3<S>, n: Vec3<S>, out: Vec3<S>) -> bool {
    exists|d: S, two: S, k: S, step: Vec3<S>| #[trigger] reflect_by(v, n, d, two, k, step, out)
}

/// `v` mirrored at a surface with the unit normal `n`, over scalars whose
/// arithmetic is exact: `v - n * (2 * (v . n))`.
pub open spec fn reflect_spec<S: Scalar>(v: Vec3<S>, n: Vec3<S>) -> Vec3<S> {
    SubSpec::sub_spec(v, MulSpec::mul_spec(n, number_spec::<S>(2).mul_spec(dot_spec(v, n))))
}

/// Whether `v` can be mirrored at a surface with the normal `n`: every step
/// can be taken on whatever the steps before it come to.
pub open spec fn reflect_req<S: Scalar>(v: Vec3<S>, n: Vec3<S>) -> bool {
    &&& dot_req(v, n)
    &&& forall|d: S, two: S|
        #![trigger dot_gives(v, n, d), number_gives(2, two)]
        dot_gives(v, n, d) && number_gives(2, two) ==> two.mul_req(d)
    &&& forall|d: S, two: S, k: S|
        #![trigger dot_gives(v, n, d), mul_gives(two, d, k)]
        dot_gives(v, n, d) && number_gives(2, two) && mul_gives(two, d, k) ==> MulSpec::mul_req(
            n,
            k,
        )
    &&& forall|d: S, two: S, k: S, step: Vec3<S>|
        #![trigger dot_gives(v, n, d), mul_gives(two, d, k), scaled_gives(n, k, step)]
        dot_gives(v, n, d) && number_gives(2, two) && mul_gives(two, d, k) && scaled_gives(
            n,
            k,
            step,
        ) ==> SubSpec::sub_req(v, step)
}

/// Whether the test of `c` against the bounds `lo` and `hi`, first
/// `lo < c` and then `c < hi`, can find `c` strictly between them, or not,
/// as `answer` says.
pub open spec fn between_gives<S: PartialOrd>(c: S, lo: S, hi: S, answer: bool) -> bool {
    ||| lt_gives(lo, c, false) && !answer
    ||| lt_gives(lo, c, true) && lt_gives(c, hi, answer)
}

/// Whether `c` lies strictly between `lo` and `hi`.
pub open spec fn between<S: PartialOrd>(c: S, lo: S, hi: S) -> bool {
    below(lo, c) && below(c, hi)
}

/// Whether `v` is near to the zero vector, over scalars whose tests go by
/// their order and whose negation is fixed by its operand: whether each
/// coordinate lies strictly between the negated `threshold` and
/// `threshold`.
pub open spec fn near_zero_spec<S: Scalar>(v: Vec3<S>, threshold: S) -> bool {
    &&& between(v.x, threshold.neg_spec(), threshold)
    &&& between(v.y, threshold.neg_spec(), threshold)
    &&& between(v.z, threshold.neg_spec(), threshold)
}

/// Whether the test of the three coordinates of `v` against the bounds `lo`
/// and `hi`, in the order x, y, z and as far as each is found between them,
/// can find them all strictly between the bounds, or not, as `answer` says.
pub open spec fn all_between_gives<S: PartialOrd>(v: Vec3<S>, lo: S, hi: S, answer: bool) -> bool {
    ||| between_gives(v.x, lo, hi, false) && !answer
    ||| between_gives(v.x, lo, hi, true) && between_gives(v.y, lo, hi, false) && !answer
    ||| between_gives(v.x, lo, hi, true) && between_gives(v.y, lo, hi, true) && between_gives(
        v.z,
        lo,
        hi,
        answer,
    )
}

/// Whether the size below which a coordinate counts as zero can come to
/// `out`: one over a hundred million.
pub open spec fn near_zero_threshold_gives<S: Scalar + From<i32>>(out: S) -> bool {
    exists|one: S, many: S|
        {
            &&& #[trigger] number_gives(1, one)
            &&& #[trigger] large_number_gives(100_000_000, many)
            &&& div_gives(one, many, out)
        }
}

/// The size below which a coordinate counts as zero, over scalars whose
/// arithmetic is exact: one over a hundred million.
pub open spec fn near_zero_threshold_spec<S: Scalar + From<i32>>() -> S {
    number_spec::<S>(1).div_spec(<S as FromSpec<i32>>::from_spec(100_000_000))
}

/// Whether the size below which a coordinate counts as zero can be formed.
pub open spec fn near_zero_threshold_req<S: Scalar + From<i32>>() -> bool {
    forall|one: S, many: S|
        #![trigger number_gives(1, one), large_number_gives(100_000_000, many)]
        number_gives(1, one) && large_number_gives(100_000_000, many) ==> one.div_req(many)
}

/// The size below which a coordinate of a direction counts as zero: one
/// over a hundred million.
pub fn near_zero_threshold<S: Scalar + From<i32>>() -> (out: S)
    requires
        near_zero_threshold_req::<S>(),
    ensures
        near_zero_threshold_gives(out),
        exact::<S>() && <S as FromSpec<i32>>::obeys_from_spec() ==> out
            == near_zero_threshold_spec::<S>(),
{
    let one: S = number(1);
    let many: S = large_number(100_000_000);
    proof {
        assert(number_gives(1, one) && large_number_gives(100_000_000, many));
    }
    one / many
}

/// Whether the test of `v` for nearness to the zero vector, with the size
/// `threshold` below which a coordinate counts as zero, can end with
/// `answer`: each coordinate is tested for lying strictly between the
/// negated `threshold` and `threshold`.
pub open spec fn near_zero_within_gives<S: Scalar>(v: Vec3<S>, threshold: S, answer: bool) -> bool {
    exists|low: S| #[trigger]
        neg_gives(threshold, low) && all_between_gives(v, low, threshold, answer)
}

/// Whether the test of `v` for nearness to the zero vector can end with
/// `answer`: each coordinate is tested for a size below one over a hundred
/// million.
pub open spec fn near_zero_gives<S: Scalar + From<i32>>(v: Vec3<S>, answer: bool) -> bool {
    exists|threshold: S| #[trigger]
        near_zero_threshold_gives(threshold) && near_zero_within_gives(v, threshold, answer)
}

/// Whether the test of a vector for nearness to the zero vector can be
/// made.
pub open spec fn near_zero_req<S: Scalar + From<i32>>() -> bool {
    &&& near_zero_threshold_req::<S>()
    &&& forall|threshold: S| #[trigger] near_zero_threshold_gives(threshold) ==> threshold.neg_req()
}

impl<S: Scalar> Vec3<S> {
    /// The vector mirrored at a surface with the unit normal `normal`: the
    /// vector less twice its part along the normal.
    pub fn reflect(&self, normal: &Vec3<S>) -> (r: Vec3<S>)
        requires
            reflect_req(*self, *normal),
        ensures
            reflect_gives(*self, *normal, r),
            exact::<S>() ==> r == reflect_spec(*self, *normal),
    {
        let d = self.dot(normal);
        let two: S = number(2);
        proof {
            assert(dot_gives(*self, *normal, d) && number_gives(2, two));
        }
        let k = two * d;
        proof {
            assert(mul_gives(two, d, k));
        }
        let step = *normal * k;
        proof {
            assert(scaled_gives(*normal, k, step));
        }
        let r = *self - step;
        proof {
            assert(reflect_by(*self, *normal, d, two, k, step, r));
        }
        r
    }

}

impl<S: Scalar + From<i32>> Vec3<S> {
    /// Whether the vector is so close to the zero vector that it gives no
    /// direction: whether the size of each coordinate is below one over a
    /// hundred million.
    pub fn near_zero(&self) -> (near: bool)
        requires
            near_zero_req::<S>(),
        ensures
            near_zero_gives(*self, near),
            exact::<S>() && ordered::<S>() && <S as FromSpec<i32>>::obeys_from_spec() ==> near
                == near_zero_spec(*self, near_zero_threshold_spec::<S>()),
    {
        let threshold: S = near_zero_threshold();
        let low = threshold.neg();
        let near = (low < self.x && self.x < threshold) && (low < self.y && self.y < threshold) && (
        low < self.z && self.z < threshold);
        proof {
            assert(neg_gives(threshold, low) && all_between_gives(*self, low, threshold, near));
            assert(near_zero_threshold_gives(threshold) && near_zero_within_gives(
                *self,
                threshold,
                near,
            ));
        }
        near
    }
}

/// Whether the length of `v` can come to `out`, where `sqrt` takes square
/// roots: the square root of the dot product of `v` with itself.
pub open spec fn norm_gives<S: Scalar, F: Fn(S) -> S>(v: Vec3<S>, sqrt: F, out: S) -> bool {
    exists|squared: S| #[trigger] dot_gives(v, v, squared) && call_ensures(sqrt, (squared,), out)
}

/// Whether the length of `v` can be formed.
pub open spec fn norm_req<S: Scalar, F: Fn(S) -> S>(v: Vec3<S>, sqrt: F) -> bool {
    &&& dot_req(v, v)
    &&& forall|squared: S| #[trigger] dot_gives(v, v, squared) ==> call_requires(sqrt, (squared,))
}

/// Whether `v` brought to the length one can come to `out`, where `sqrt`
/// takes square roots: `v` over its length.
pub open spec fn unit_vector_gives<S: Scalar, F: Fn(S) -> S>(v: Vec3<S>, sqrt: F, out: Vec3<S>) -> bool {
    exists|length: S| #[trigger] norm_gives(v, sqrt, length) && shrunk_gives(v, length, out)
}

/// Whether `unit` is `v` brought to the length one, over scalars whose
/// arithmetic is exact, where `sqrt` takes square roots: `v` over a square
/// root of its dot product with itself.
pub open spec fn unit_vector_spec<S: Scalar, F: Fn(S) -> S>(v: Vec3<S>, sqrt: F, unit: Vec3<S>) -> bool {
    exists|length: S| #[trigger]
        call_ensures(sqrt, (dot_spec(v, v),), length) && unit == DivSpec::div_spec(v, length)
}

/// Whether `v` can be brought to the length one.
pub open spec fn unit_vector_req<S: Scalar, F: Fn(S) -> S>(v: Vec3<S>, sqrt: F) -> bool {
    &&& norm_req(v, sqrt)
    &&& forall|length: S| #[trigger] norm_gives(v, sqrt, length) ==> DivSpec::div_req(v, length)
}

impl<S: Scalar> Vec3<S> {
    /// The length of the vector, where `sqrt` takes square roots.
    pub fn norm<F: Fn(S) -> S>(&self, sqrt: F) -> (length: S)
        requires
            norm_req(*self, sqrt),
        ensures
            norm_gives(*self, sqrt, length),
            exact::<S>() ==> call_ensures(sqrt, (dot_spec(*self, *self),), length),
    {
        let squared = self.norm_squared();
        proof {
            assert(dot_gives(*self, *self, squared));
        }
        sqrt(squared)
    }

    /// The vector of the same direction and of the length one, where `sqrt`
    /// takes square roots. What comes of a vector without length, the
    /// scalar's division says.
    pub fn unit_vector<F: Fn(S) -> S>(&self, sqrt: F) -> (unit: Vec3<S>)
        requires
            unit_vector_req(*self, sqrt),
        ensures
            unit_vector_gives(*self, sqrt, unit),
            exact::<S>() ==> unit_vector_spec(*self, sqrt, unit),
    {
        let length = self.norm(sqrt);
        proof {
            assert(norm_gives(*self, sqrt, length));
        }
        *self / length
    }
}

/// Whether the part of a bent ray across the normal can come to `perp`, by
/// way of the values given: with `cos` for the negated lesser of the dot
/// product of `v` and `n` and one, it is `(v + n * cos) * eta`.
pub open spec fn refract_across_by<S: Scalar>(
    v: Vec3<S>,
    n: Vec3<S>,
    eta: S,
    d: S,
    one: S,
    capped: S,
    cos: S,
    along: Vec3<S>,
    bent: Vec3<S>,
    perp: Vec3<S>,
) -> bool {
    &&& dot_gives(v, n, d)
    &&& number_gives(1, one)
    &&& lesser_gives(d, one, capped)
    &&& neg_gives(capped, cos)
    &&& scaled_gives(n, cos, along)
    &&& sum_gives(v, along, bent)
    &&& scaled_gives(bent, eta, perp)
}

/// Whether the part of a bent ray along the normal can come to `par`, by way
/// of the values given, where `sqrt` takes square roots: with `kept` for
/// the greater of one less the squared length of `perp` and zero, it is `n`
/// times the negated square root of `kept`.
pub open spec fn refract_along_by<S: Scalar, F: Fn(S) -> S>(
    n: Vec3<S>,
    perp: Vec3<S>,
    sqrt: F,
    one: S,
    squared: S,
    gap: S,
    zero: S,
    kept: S,
    root: S,
    minus_root: S,
    par: Vec3<S>,
) -> bool {
    &&& number_gives(1, one)
    &&& dot_gives(perp, perp, squared)
    &&& sub_gives(one, squared, gap)
    &&& number_gives(0, zero)
    &&& greater_gives(gap, zero, kept)
    &&& call_ensures(sqrt, (kept,), root)
    &&& neg_gives(root, minus_root)
    &&& scaled_gives(n, minus_root, par)
}

/// Whether the unit vector `v`, bent at a surface with the unit normal `n`
/// by Snell's law, can come to `out`, where `eta` is the ratio of the
/// indices of refraction and `sqrt` takes square roots.
///
/// The bent ray is the sum of its part across the normal and of its part
/// along it. The radicand of the second is kept from falling below zero.
pub open spec fn refract_gives<S: Scalar, F: Fn(S) -> S>(
    v: Vec3<S>,
    n: Vec3<S>,
    eta: S,
    sqrt: F,
    out: Vec3<S>,
) -> bool {
    exists|perp: Vec3<S>, par: Vec3<S>|
        {
            &&& #[trigger] sum_gives(perp, par, out)
            &&& exists|d: S, one: S, capped: S, cos: S, along: Vec3<S>, bent: Vec3<S>| #[trigger]
                refract_across_by(v, n, eta, d, one, capped, cos, along, bent, perp)
            &&& exists|one: S, squared: S, gap: S, zero: S, kept: S, root: S, minus_root: S| #[trigger]
                refract_along_by(n, perp, sqrt, one, squared, gap, zero, kept, root, minus_root, par)
        }
}

/// The cosine of the angle between the unit vector `v` and the reverse of
/// the unit normal `n`, as the bending of a ray takes it, over scalars
/// whose arithmetic is exact and whose tests go by their order: the
/// negated lesser of the dot product of the two and one.
pub open spec fn refract_cos_spec<S: Scalar>(v: Vec3<S>, n: Vec3<S>) -> S {
    let d = dot_spec(v, n);
    let one = number_spec::<S>(1);
    (if below(d, one) {
        d
    } else {
        one
    }).neg_spec()
}

/// The part of a bent ray across the normal, over such scalars:
/// `(v + n * cos) * eta`.
pub open spec fn refract_across_spec<S: Scalar>(v: Vec3<S>, n: Vec3<S>, eta: S) -> Vec3<S> {
    MulSpec::mul_spec(AddSpec::add_spec(v, MulSpec::mul_spec(n, refract_cos_spec(v, n))), eta)
}

/// The radicand of the part of a bent ray along the normal, over such
/// scalars: one less the squared length of the part across the normal,
/// kept from falling below zero.
pub open spec fn refract_radicand_spec<S: Scalar>(perp: Vec3<S>) -> S {
    let gap = number_spec::<S>(1).sub_spec(dot_spec(perp, perp));
    if above(gap, number_spec::<S>(0)) {
        gap
    } else {
        number_spec::<S>(0)
    }
}

/// Whether `out` is the unit vector `v` bent at a surface with the unit
/// normal `n`, over such scalars, where `sqrt` takes square roots: the part
/// across the normal, plus `n` times the negated square root of the
/// radicand.
pub open spec fn refract_spec<S: Scalar, F: Fn(S) -> S>(
    v: Vec3<S>,
    n: Vec3<S>,
    eta: S,
    sqrt: F,
    out: Vec3<S>,
) -> bool {
    let perp = refract_across_spec(v, n, eta);
    exists|root: S| #[trigger]
        call_ensures(sqrt, (refract_radicand_spec(perp),), root) && out == AddSpec::add_spec(
            perp,
            MulSpec::mul_spec(n, root.neg_spec()),
        )
}

/// Whether the part of a bent ray along the normal can be formed, once its
/// part across the normal is known: every step can be taken on whatever
/// the steps before it come to.
pub open spec fn refract_along_req<S: Scalar, F: Fn(S) -> S>(n: Vec3<S>, perp: Vec3<S>, sqrt: F) -> bool {
    &&& dot_req(perp, perp)
    &&& forall|one: S, squared: S|
        #![trigger number_gives(1, one), dot_gives(perp, perp, squared)]
        number_gives(1, one) && dot_gives(perp, perp, squared) ==> {
            &&& one.sub_req(squared)
            &&& forall|gap: S, zero: S, kept: S|
                #![trigger sub_gives(one, squared, gap), greater_gives(gap, zero, kept)]
                sub_gives(one, squared, gap) && number_gives(0, zero) && greater_gives(
                    gap,
                    zero,
                    kept,
                ) ==> {
                    &&& call_requires(sqrt, (kept,))
                    &&& forall|root: S| #[trigger]
                        call_ensures(sqrt, (kept,), root) ==> {
                            &&& root.neg_req()
                            &&& forall|minus_root: S| #[trigger]
                                neg_gives(root, minus_root) ==> {
                                    &&& MulSpec::mul_req(n, minus_root)
                                    &&& forall|par: Vec3<S>| #[trigger]
                                        scaled_gives(n, minus_root, par) ==> AddSpec::add_req(
                                            perp,
                                            par,
                                        )
                                }
                        }
                }
        }
}

/// Whether the unit vector `v` can be bent at a surface with the normal
/// `n`: every step can be taken on whatever the steps before it come to.
pub open spec fn refract_req<S: Scalar, F: Fn(S) -> S>(v: Vec3<S>, n: Vec3<S>, eta: S, sqrt: F) -> bool {
    &&& dot_req(v, n)
    &&& forall|d: S, one: S, capped: S|
        #![trigger dot_gives(v, n, d), lesser_gives(d, one, capped)]
        dot_gives(v, n, d) && number_gives(1, one) && lesser_gives(d, one, capped) ==> {
            &&& capped.neg_req()
            &&& forall|cos: S| #[trigger]
                neg_gives(capped, cos) ==> {
                    &&& MulSpec::mul_req(n, cos)
                    &&& forall|along: Vec3<S>| #[trigger]
                        scaled_gives(n, cos, along) ==> {
                            &&& AddSpec::add_req(v, along)
                            &&& forall|bent: Vec3<S>| #[trigger]
                                sum_gives(v, along, bent) ==> {
                                    &&& MulSpec::mul_req(bent, eta)
                                    &&& forall|perp: Vec3<S>| #[trigger]
                                        scaled_gives(bent, eta, perp) ==> refract_along_req(
                                            n,
                                            perp,
                                            sqrt,
                                        )
                                }
                        }
                }
        }
}

impl<S: Scalar> Vec3<S> {
    /// The unit vector bent at a surface with the unit normal `normal` by
    /// Snell's law, where `etai_over_etat` is the index of refraction on the
    /// side from which the ray comes over that on the other side, and `sqrt`
    /// takes the square root of a scalar that is not below zero.
    pub fn refract<F: Fn(S) -> S>(&self, normal: &Vec3<S>, etai_over_etat: S, sqrt: F) -> (out: Vec3<S>)
        requires
            refract_req(*self, *normal, etai_over_etat, sqrt),
        ensures
            refract_gives(*self, *normal, etai_over_etat, sqrt, out),
            exact::<S>() && ordered::<S>() ==> refract_spec(
                *self,
                *normal,
                etai_over_etat,
                sqrt,
                out,
            ),
    {
        let d = self.dot(normal);
        let one: S = number(1);
        let capped = lesser(d, one);
        proof {
            assert(dot_gives(*self, *normal, d) && lesser_gives(d, one, capped));
        }
        let cos_theta = capped.neg();
        proof {
            assert(neg_gives(capped, cos_theta));
        }
        let along = *normal * cos_theta;
        proof {
            assert(scaled_gives(*normal, cos_theta, along));
        }
        let bent = *self + along;
        proof {
            assert(sum_gives(*self, along, bent));
        }
        let r_out_perp = bent * etai_over_etat;
        proof {
            assert(scaled_gives(bent, etai_over_etat, r_out_perp));
            assert(refract_along_req(*normal, r_out_perp, sqrt));
            assert(refract_across_by(
                *self,
                *normal,
                etai_over_etat,
                d,
                one,
                capped,
                cos_theta,
                along,
                bent,
                r_out_perp,
            ));
        }
        let squared = r_out_perp.norm_squared();
        proof {
            assert(number_gives(1, one) && dot_gives(r_out_perp, r_out_perp, squared));
        }
        let gap = one - squared;
        let zero: S = number(0);
        let kept = greater(gap, zero);
        proof {
            assert(sub_gives(one, squared, gap) && greater_gives(gap, zero, kept));
        }
        let root = sqrt(kept);
        let minus_root = root.neg();
        proof {
            assert(neg_gives(root, minus_root));
        }
        let r_out_parallel = *normal * minus_root;
        proof {
            assert(scaled_gives(*normal, minus_root, r_out_parallel));
            assert(refract_along_by(
                *normal,
                r_out_perp,
                sqrt,
                one,
                squared,
                gap,
                zero,
                kept,
                root,
                minus_root,
                r_out_parallel,
            ));
        }
        let out = r_out_perp + r_out_parallel;
        proof {
            assert(sum_gives(r_out_perp, r_out_parallel, out));
            if exact::<S>() && ordered::<S>() {
                let perp = refract_across_spec(*self, *normal, etai_over_etat);
                assert(r_out_perp == perp);
                assert(kept == refract_radicand_spec(perp));
                assert(call_ensures(sqrt, (refract_radicand_spec(perp),), root));
            }
        }
        out
    }
}

/// Whether the test of `p` for lying inside the unit ball can end with
/// `answer`: the dot product of `p` with itself is tested for being below
/// one.
pub open spec fn in_unit_sphere_gives<S: Scalar>(p: Vec3<S>, answer: bool) -> bool {
    exists|squared: S, one: S|
        {
            &&& #[trigger] dot_gives(p, p, squared)
            &&& #[trigger] number_gives(1, one)
            &&& lt_gives(squared, one, answer)
        }
}

/// Whether `sample` turned to the side of `normal` can come to `out`:
/// `sample` itself where its dot product with `normal` is found above zero,
/// else `sample` turned round.
pub open spec fn hemisphere_gives<S: Scalar>(normal: Vec3<S>, sample: Vec3<S>, out: Vec3<S>) -> bool {
    exists|d: S, zero: S|
        {
            &&& #[trigger] dot_gives(sample, normal, d)
            &&& #[trigger] number_gives(0, zero)
            &&& {
                ||| gt_gives(d, zero, true) && out == sample
                ||| gt_gives(d, zero, false) && reversed_gives(sample, out)
            }
        }
}

impl<S: Scalar> Vec3<S> {
    /// Whether the point lies inside the unit ball: whether the square of
    /// its length is below one. A sampler that draws points of the cube
    /// round the ball, or of the square round the disk, keeps the first
    /// point for which this holds.
    pub fn in_unit_sphere(&self) -> (inside: bool)
        requires
            dot_req(*self, *self),
        ensures
            in_unit_sphere_gives(*self, inside),
            exact::<S>() && ordered::<S>() ==> inside == below(
                dot_spec(*self, *self),
                number_spec::<S>(1),
            ),
    {
        let squared = self.norm_squared();
        let one: S = number(1);
        let inside = squared < one;
        proof {
            assert(dot_gives(*self, *self, squared) && number_gives(1, one));
        }
        inside
    }
}

/// Turns a point drawn from the unit ball to the side of the surface to
/// which `normal` points: the point itself where it lies on that side, else
/// the point turned round.
pub fn random_in_hemisphere<S: Scalar>(normal: &Vec3<S>, in_unit_sphere: Vec3<S>) -> (out: Vec3<S>)
    requires
        dot_req(in_unit_sphere, *normal),
        forall|d: S, zero: S|
            #![trigger dot_gives(in_unit_sphere, *normal, d), gt_gives(d, zero, false)]
            dot_gives(in_unit_sphere, *normal, d) && number_gives(0, zero) && gt_gives(
                d,
                zero,
                false,
            ) ==> NegSpec::neg_req(in_unit_sphere),
    ensures
        hemisphere_gives(*normal, in_unit_sphere, out),
        exact::<S>() && ordered::<S>() ==> out == if above(
            dot_spec(in_unit_sphere, *normal),
            number_spec::<S>(0),
        ) {
            in_unit_sphere
        } else {
            NegSpec::neg_spec(in_unit_sphere)
        },
{
    let d = in_unit_sphere.dot(normal);
    let zero: S = number(0);
    proof {
        assert(dot_gives(in_unit_sphere, *normal, d) && number_gives(0, zero));
    }
    let turned = d > zero;
    proof {
        assert(gt_gives(d, zero, turned));
    }
    if turned {
        in_unit_sphere
    } else {
        in_unit_sphere.neg()
    }
}

} // verus!
