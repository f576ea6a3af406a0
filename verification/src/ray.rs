//! Rays.
use vstd::prelude::*;
use vstd::std_specs::ops::{AddSpec, MulSpec};
use core::ops::{Add, Mul};
use crate::vec3::{scaled_gives, sum_gives, Point3, Vec3};

verus! {

/// A half-line: the points `orig + dir * t` for the parameters `t`.
#[derive(Debug, PartialEq)]
pub struct Ray<S> {
    pub orig: Point3<S>,
    pub dir: Vec3<S>,
}

impl<S: Copy> Clone for Ray<S> {
    fn clone(&self) -> (r: Self)
        ensures
            r == *self,
    {
        *self
    }
}

impl<S: Copy> Copy for Ray<S> {

}

/// Whether the point of `r` at the parameter `t` can come to `out` by way of
/// the step `step` from the origin.
pub open spec fn at_by<S: Add<Output = S> + Mul<Output = S>>(
    r: Ray<S>,
    t: S,
    step: Vec3<S>,
    out: Point3<S>,
) -> bool {
    scaled_gives(r.dir, t, step) && sum_gives(r.orig, step, out)
}

/// Whether the point of `r` at the parameter `t`, formed as
/// `orig + dir * t`, can come to `out`.
pub open spec fn at_gives<S: Add<Output = S> + Mul<Output = S>>(r: Ray<S>, t: S, out: Point3<S>) -> bool {
    exists|step: Vec3<S>| #[trigger] at_by(r, t, step, out)
}

/// Whether the point of `r` at the parameter `t` can be formed: the
/// direction times `t`, and the sum of the origin and whatever that comes
/// to.
pub open spec fn at_req<S: Copy + Add<Output = S> + Mul<Output = S>>(r: Ray<S>, t: S) -> bool {
    &&& r.dir.mul_req(t)
    &&& forall|step: Vec3<S>| #[trigger] scaled_gives(r.dir, t, step) ==> r.orig.add_req(step)
}

/// The point of `r` at the parameter `t` over scalars whose sums and
/// products are fixed by the operands.
pub open spec fn at_spec<S: Copy + Add<Output = S> + Mul<Output = S>>(r: Ray<S>, t: S) -> Point3<S> {
    r.orig.add_spec(r.dir.mul_spec(t))
}

impl<S> Ray<S> {
    /// The ray that starts at `orig` and runs along `dir`.
    pub fn new(orig: Point3<S>, dir: Vec3<S>) -> (r: Self)
        ensures
            r == (Ray { orig, dir }),
    {
        Ray { orig, dir }
    }
}

impl<S: Copy> Ray<S> {
    /// Where the ray starts.
    pub fn orig(&self) -> (p: Point3<S>)
        ensures
            p == self.orig,
    {
        self.orig
    }

    /// The direction along which the ray runs.
    pub fn dir(&self) -> (d: Vec3<S>)
        ensures
            d == self.dir,
    {
        self.dir
    }
}

impl<S: Copy + Add<Output = S> + Mul<Output = S>> Ray<S> {
    /// The point of the ray at the parameter `t`.
    pub fn at(&self, t: S) -> (p: Point3<S>)
        requires
            at_req(*self, t),
        ensures
            at_gives(*self, t, p),
            S::obeys_add_spec() && S::obeys_mul_spec() ==> p == at_spec(*self, t),
    {
        let step = self.dir * t;
        proof {
            assert(scaled_gives(self.dir, t, step));
        }
        let p = self.orig + step;
        proof {
            assert(at_by(*self, t, step, p));
        }
        p
    }
}

} // verus!
