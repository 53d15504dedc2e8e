//! Comparisons shared by the geometry types.

use vstd::prelude::*;
use vstd::std_specs::cmp::{PartialOrdIs, PartialOrdSpec};
use vstd::std_specs::ops::NegSpec;
use std::ops::Neg;
use crate::geometry::scalar::Scalar;

verus! {

/// The lesser of `a` and `b`; `b` where they are equal or do not compare.
pub open spec fn min_spec<T: PartialOrd>(a: T, b: T) -> T {
    if a.is_lt(&b) {
        a
    } else {
        b
    }
}

/// The greater of `a` and `b`; `b` where they are equal or do not compare.
pub open spec fn max_spec<T: PartialOrd>(a: T, b: T) -> T {
    if a.is_gt(&b) {
        a
    } else {
        b
    }
}

/// The magnitude of `v`: its negation where it is below zero.
pub open spec fn abs_spec<T: Scalar + PartialOrd + Neg<Output = T>>(v: T) -> T {
    if v.is_lt(&T::zero_spec()) {
        v.neg_spec()
    } else {
        v
    }
}

/// Whether the magnitude of `v` can be taken: `v` is not below zero, or it
/// can be negated.
pub open spec fn abs_req<T: Scalar + PartialOrd + Neg<Output = T>>(v: T) -> bool {
    v.is_lt(&T::zero_spec()) ==> v.neg_req()
}

/// The lesser of `a` and `b`.
pub fn min<T: PartialOrd + Copy>(a: T, b: T) -> (r: T)
    ensures
        T::obeys_partial_cmp_spec() ==> r == min_spec(a, b),
{
    if a < b {
        a
    } else {
        b
    }
}

/// The greater of `a` and `b`.
pub fn max<T: PartialOrd + Copy>(a: T, b: T) -> (r: T)
    ensures
        T::obeys_partial_cmp_spec() ==> r == max_spec(a, b),
{
    if a > b {
        a
    } else {
        b
    }
}

/// The magnitude of `v`.
pub fn abs<T: Scalar + PartialOrd + Neg<Output = T>>(v: T) -> (r: T)
    requires
        T::obeys_partial_cmp_spec() ==> abs_req(v),
        !T::obeys_partial_cmp_spec() ==> v.neg_req(),
    ensures
        T::obeys_partial_cmp_spec() && T::obeys_neg_spec() ==> r == abs_spec(v),
{
    if v < T::zero() {
        v.neg()
    } else {
        v
    }
}

} // verus!
