//! The order on elements that the containers of this crate rely on.
//!
//! Elements are compared through `PartialOrd`. The containers are only
//! meaningful when that comparison is a total order, which is what
//! [`total_order`] states.

use core::cmp::Ordering;
use vstd::prelude::*;
use vstd::std_specs::cmp::PartialOrdSpec;

verus! {

/// `a` is not greater than `b`.
pub open spec fn le<T: PartialOrd>(a: T, b: T) -> bool {
    a.partial_cmp_spec(&b) matches Some(Ordering::Less | Ordering::Equal)
}

/// `a` is strictly smaller than `b`.
pub open spec fn lt<T: PartialOrd>(a: T, b: T) -> bool {
    a.partial_cmp_spec(&b) == Some(Ordering::Less)
}

/// `a` is strictly greater than `b`.
pub open spec fn gt<T: PartialOrd>(a: T, b: T) -> bool {
    a.partial_cmp_spec(&b) == Some(Ordering::Greater)
}

/// The comparison of `T` behaves as its specification says, every pair of
/// values is comparable, the two directions of a comparison agree, and
/// `le` is transitive.
pub open spec fn total_order<T: PartialOrd>() -> bool {
    &&& T::obeys_partial_cmp_spec()
    &&& forall|a: T, b: T| #[trigger] le(a, b) || le(b, a)
    &&& forall|a: T, b: T| #[trigger] gt(a, b) <==> lt(b, a)
    &&& forall|a: T, b: T| #[trigger] le(a, b) <==> !gt(a, b)
    &&& forall|a: T, b: T, c: T| #[trigger] le(a, b) && #[trigger] le(b, c) ==> le(a, c)
}

/// Strict comparison on executable values: `true` exactly when `a` is
/// smaller than `b`.
pub fn less<T: PartialOrd>(a: &T, b: &T) -> (r: bool)
    requires
        total_order::<T>(),
    ensures
        r == lt(*a, *b),
        r ==> le(*a, *b),
        !r ==> le(*b, *a),
{
    *a < *b
}

/// Strict comparison on executable values: `true` exactly when `a` is
/// greater than `b`.
pub fn greater<T: PartialOrd>(a: &T, b: &T) -> (r: bool)
    requires
        total_order::<T>(),
    ensures
        r == gt(*a, *b),
        r ==> le(*b, *a),
        !r ==> le(*a, *b),
{
    *a > *b
}

/// The built-in order of `i32` is a total order.
pub proof fn lemma_i32_total_order()
    ensures
        total_order::<i32>(),
{
}

/// The built-in order of `i64` is a total order.
pub proof fn lemma_i64_total_order()
    ensures
        total_order::<i64>(),
{
}

/// The built-in order of `u32` is a total order.
pub proof fn lemma_u32_total_order()
    ensures
        total_order::<u32>(),
{
}

/// The built-in order of `u64` is a total order.
pub proof fn lemma_u64_total_order()
    ensures
        total_order::<u64>(),
{
}

/// The built-in order of `usize` is a total order.
pub proof fn lemma_usize_total_order()
    ensures
        total_order::<usize>(),
{
}

} // verus!
