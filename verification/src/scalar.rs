//! The numbers with which the library computes.
//!
//! The library is written for any number type that has the operators of
//! arithmetic, and it does not say what those operators return. It says
//! which operations it carries out. For each operation there is a relation
//! ending in `_gives`, which holds of the operands and of every result that
//! the operation can have: of the one sum of two whole numbers, and of
//! whatever the sum of two floating-point numbers may come to. A contract
//! that states such a relation of a function's result pins the result down
//! as far as the scalar type pins its own arithmetic down.
//!
//! Where the arithmetic of a scalar type is exact, and its tests go by an
//! order, contracts also give the result in closed form.
use vstd::prelude::*;
use vstd::std_specs::cmp::PartialOrdSpec;
use vstd::std_specs::convert::FromSpec;
use vstd::std_specs::ops::{AddSpec, DivSpec, MulSpec, NegSpec, SubSpec};
use core::cmp::Ordering;
use core::ops::{Add, Div, Mul, Neg, Sub};

verus! {

/// A number type with which the library can compute: one that can be
/// copied, compared, negated, added, subtracted, multiplied and divided, and
/// that holds the small whole numbers.
pub trait Scalar: Copy + PartialOrd + From<i8> + Neg<Output = Self> + Add<Output = Self> + Sub<
    Output = Self,
> + Mul<Output = Self> + Div<Output = Self> {

}

impl<
    T: Copy + PartialOrd + From<i8> + Neg<Output = T> + Add<Output = T> + Sub<Output = T> + Mul<
        Output = T,
    > + Div<Output = T>,
> Scalar for T {

}

/// Whether `out` is a value that `-a` can give.
pub open spec fn neg_gives<S: Neg<Output = S>>(a: S, out: S) -> bool {
    call_ensures(S::neg, (a,), out)
}

/// Whether `out` is a value that `a + b` can give.
pub open spec fn add_gives<S: Add<Output = S>>(a: S, b: S, out: S) -> bool {
    call_ensures(S::add, (a, b), out)
}

/// Whether `out` is a value that `a - b` can give.
pub open spec fn sub_gives<S: Sub<Output = S>>(a: S, b: S, out: S) -> bool {
    call_ensures(S::sub, (a, b), out)
}

/// Whether `out` is a value that `a * b` can give.
pub open spec fn mul_gives<S: Mul<Output = S>>(a: S, b: S, out: S) -> bool {
    call_ensures(S::mul, (a, b), out)
}

/// Whether `out` is a value that `a / b` can give.
pub open spec fn div_gives<S: Div<Output = S>>(a: S, b: S, out: S) -> bool {
    call_ensures(S::div, (a, b), out)
}

/// Whether `out` is a scalar that the whole number `n` can be turned into.
pub open spec fn number_gives<S: From<i8>>(n: i8, out: S) -> bool {
    call_ensures(S::from, (n,), out)
}

/// Whether `out` is a scalar that the whole number `n` can be turned into.
pub open spec fn wide_number_gives<S: From<i16>>(n: i16, out: S) -> bool {
    call_ensures(S::from, (n,), out)
}

/// Whether `out` is a scalar that the large whole number `n` can be turned
/// into.
pub open spec fn large_number_gives<S: From<i32>>(n: i32, out: S) -> bool {
    call_ensures(S::from, (n,), out)
}

/// Whether `out` is a scalar that the count `n` can be turned into.
pub open spec fn count_gives<S: From<u32>>(n: u32, out: S) -> bool {
    call_ensures(S::from, (n,), out)
}

/// Whether `answer` is a verdict that the test `a < b` can give.
pub open spec fn lt_gives<S: PartialOrd>(a: S, b: S, answer: bool) -> bool {
    call_ensures(S::lt, (&a, &b), answer)
}

/// Whether `answer` is a verdict that the test `a > b` can give.
pub open spec fn gt_gives<S: PartialOrd>(a: S, b: S, answer: bool) -> bool {
    call_ensures(S::gt, (&a, &b), answer)
}

/// Whether `a` is strictly below `b` in the order of `S`.
pub open spec fn below<S: PartialOrd>(a: S, b: S) -> bool {
    a.partial_cmp_spec(&b) == Some(Ordering::Less)
}

/// Whether `a` is strictly above `b` in the order of `S`.
pub open spec fn above<S: PartialOrd>(a: S, b: S) -> bool {
    a.partial_cmp_spec(&b) == Some(Ordering::Greater)
}

/// Whether `a` is below `b` or equal to it in the order of `S`.
pub open spec fn at_most<S: PartialOrd>(a: S, b: S) -> bool {
    a.partial_cmp_spec(&b) matches Some(Ordering::Less | Ordering::Equal)
}

/// Whether the order of `S` ranks its scalars: one that is at most a
/// second, which is at most a third, is at most the third; of two scalars
/// the first is below the second just where the second is not at most the
/// first; and the first is above the second just where the second is below
/// the first.
#[verifier::opaque]
pub open spec fn ranked<S: PartialOrd>() -> bool {
    &&& forall|a: S, b: S, c: S|
        #![trigger at_most(a, b), at_most(b, c)]
        at_most(a, b) && at_most(b, c) ==> at_most(a, c)
    &&& forall|a: S, b: S|
        #![trigger below(a, b)]
        #![trigger at_most(b, a)]
        below(a, b) <==> !at_most(b, a)
    &&& forall|a: S, b: S| #![trigger above(a, b)] above(a, b) <==> below(b, a)
}

/// Among ranked scalars, one that is at most a second, which is at most a
/// third, is at most the third.
pub proof fn lemma_ranked_transitive<S: PartialOrd>(a: S, b: S, c: S)
    requires
        ranked::<S>(),
        at_most(a, b),
        at_most(b, c),
    ensures
        at_most(a, c),
{
    reveal(ranked);
}

/// Among ranked scalars, every two can be compared: the first is below the
/// second just where the second is not at most the first, and above it just
/// where the second is below the first. Each scalar is at most itself.
pub proof fn lemma_ranked_total<S: PartialOrd>(a: S, b: S)
    requires
        ranked::<S>(),
    ensures
        below(a, b) <==> !at_most(b, a),
        above(a, b) <==> below(b, a),
        at_most(a, a),
{
    reveal(ranked);
    assert(below(a, a) <==> !at_most(a, a));
}

/// Whether the tests `<` and `>` of `S` go by its order, so that each has
/// one verdict for each pair of scalars.
pub open spec fn ordered<S: PartialOrd>() -> bool {
    S::obeys_partial_cmp_spec()
}

/// Whether the arithmetic of `S` is exact: each negation, sum, difference,
/// product and quotient, and the scalar for each small whole number, is
/// fixed by the operands, as it is of the whole numbers and is not of the
/// floating-point numbers.
pub open spec fn exact<S: Scalar>() -> bool {
    &&& S::obeys_neg_spec()
    &&& S::obeys_add_spec()
    &&& S::obeys_sub_spec()
    &&& S::obeys_mul_spec()
    &&& S::obeys_div_spec()
    &&& <S as FromSpec<i8>>::obeys_from_spec()
}

/// The scalar for the whole number `n`, where that is fixed.
pub open spec fn number_spec<S: From<i8>>(n: i8) -> S {
    <S as FromSpec<i8>>::from_spec(n)
}

/// The scalar for the whole number `n`.
pub fn number<S: From<i8>>(n: i8) -> (out: S)
    ensures
        number_gives(n, out),
        <S as FromSpec<i8>>::obeys_from_spec() ==> out == number_spec::<S>(n),
{
    S::from(n)
}

/// The scalar for the whole number `n`, which may be wider than a byte.
pub fn wide_number<S: From<i16>>(n: i16) -> (out: S)
    ensures
        wide_number_gives(n, out),
        <S as FromSpec<i16>>::obeys_from_spec() ==> out == <S as FromSpec<i16>>::from_spec(n),
{
    S::from(n)
}

/// The scalar for the whole number `n`, which may be large.
pub fn large_number<S: From<i32>>(n: i32) -> (out: S)
    ensures
        large_number_gives(n, out),
        <S as FromSpec<i32>>::obeys_from_spec() ==> out == <S as FromSpec<i32>>::from_spec(n),
{
    S::from(n)
}

/// The scalar for the count `n`.
pub fn count<S: From<u32>>(n: u32) -> (out: S)
    ensures
        count_gives(n, out),
        <S as FromSpec<u32>>::obeys_from_spec() ==> out == <S as FromSpec<u32>>::from_spec(n),
{
    S::from(n)
}

/// Whether the lesser of `a` and `b`, found by the test `a < b`, can come
/// to `out`: `a` where the test holds, else `b`.
pub open spec fn lesser_gives<S: PartialOrd>(a: S, b: S, out: S) -> bool {
    ||| lt_gives(a, b, true) && out == a
    ||| lt_gives(a, b, false) && out == b
}

/// Whether the greater of `a` and `b`, found by the test `a > b`, can come
/// to `out`: `a` where the test holds, else `b`.
pub open spec fn greater_gives<S: PartialOrd>(a: S, b: S, out: S) -> bool {
    ||| gt_gives(a, b, true) && out == a
    ||| gt_gives(a, b, false) && out == b
}

/// The lesser of `a` and `b`: `a` where it is below `b`, else `b`.
pub fn lesser<S: PartialOrd>(a: S, b: S) -> (out: S)
    ensures
        lesser_gives(a, b, out),
        ordered::<S>() ==> out == if below(a, b) {
            a
        } else {
            b
        },
{
    if a < b {
        a
    } else {
        b
    }
}

/// The greater of `a` and `b`: `a` where it is above `b`, else `b`.
pub fn greater<S: PartialOrd>(a: S, b: S) -> (out: S)
    ensures
        greater_gives(a, b, out),
        ordered::<S>() ==> out == if above(a, b) {
            a
        } else {
            b
        },
{
    if a > b {
        a
    } else {
        b
    }
}

} // verus!
