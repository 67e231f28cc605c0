//! The contract shared by the mergeable priority queues of this crate.
//!
//! A heap is seen as the multiset of the elements it holds. Every variant
//! keeps its elements in min-heap order, which `wf` states for each of them.

use crate::order::{le, total_order};
use vstd::multiset::Multiset;
use vstd::prelude::*;

verus! {

/// `m` occurs in `s` and no element of `s` is smaller than `m`.
pub open spec fn is_min_of<T: PartialOrd>(m: T, s: Multiset<T>) -> bool {
    &&& s.count(m) > 0
    &&& forall|x: T| #![trigger s.count(x)] s.count(x) > 0 ==> le(m, x)
}

/// A min-priority queue over a totally ordered element type.
///
/// The view of a heap is the multiset of its elements. `wf` is the
/// variant's structural invariant; every operation keeps it.
pub trait Heap<T: PartialOrd>: Sized + View<V = Multiset<T>> {
    /// The structural invariant of the variant.
    spec fn wf(&self) -> bool;

    /// An empty heap.
    fn new() -> (heap: Self)
        ensures
            heap.wf(),
            heap@ == Multiset::<T>::empty(),
    {
        Self::with_capacity(0)
    }

    /// An empty heap that expects `cap` elements.
    fn with_capacity(cap: usize) -> (heap: Self)
        ensures
            heap.wf(),
            heap@ == Multiset::<T>::empty(),
    ;

    /// A heap that holds exactly the elements of `data`.
    fn build(data: Vec<T>) -> (heap: Self)
        requires
            total_order::<T>(),
        ensures
            heap.wf(),
            heap@ == data@.to_multiset(),
    ;

    /// The union of two heaps. Merging with an empty heap gives back the
    /// other one as it is.
    fn merge(a: Self, b: Self) -> (heap: Self)
        requires
            total_order::<T>(),
            a.wf(),
            b.wf(),
            a@.len() + b@.len() <= usize::MAX,
        ensures
            heap.wf(),
            heap@ == a@.add(b@),
            a@.len() == 0 ==> heap == b,
            a@.len() != 0 && b@.len() == 0 ==> heap == a,
    ;

    /// Whether the heap holds no element.
    fn is_empty(&self) -> (r: bool)
        ensures
            r == (self@.len() == 0),
    ;

    /// A minimum of the heap, or `None` when it is empty.
    fn peek(&self) -> (r: Option<&T>)
        requires
            total_order::<T>(),
            self.wf(),
        ensures
            match r {
                Some(m) => is_min_of(*m, self@),
                None => self@.len() == 0,
            },
    ;

    /// Removes a minimum of the heap and returns it, or returns `None` and
    /// leaves the heap as it is when it is empty.
    fn pop(&mut self) -> (r: Option<T>)
        requires
            total_order::<T>(),
            old(self).wf(),
        ensures
            final(self).wf(),
            match r {
                Some(m) => is_min_of(m, old(self)@) && final(self)@ == old(self)@.remove(m),
                None => old(self)@.len() == 0 && *final(self) == *old(self),
            },
    ;

    /// Adds `elem` to the heap.
    fn push(&mut self, elem: T)
        requires
            total_order::<T>(),
            old(self).wf(),
            old(self)@.len() < usize::MAX,
        ensures
            final(self).wf(),
            final(self)@ == old(self)@.insert(elem),
    ;
}

/// The first `i + 1` elements of `all` are its first `i` elements and the
/// one at position `i`; fewer than `i + 1` of them are among the first `i`.
pub proof fn lemma_take_next<T>(all: Seq<T>, i: int)
    requires
        0 <= i < all.len(),
    ensures
        all.take(i + 1).to_multiset() == all.take(i).to_multiset().insert(all[i]),
        all.take(i).to_multiset().len() == i,
{
    let done = all.take(i);
    done.to_multiset_ensures();
    assert(all.take(i + 1) =~= done.push(all[i]));
}

/// No element is among the first zero elements of a sequence, and all of
/// them are among the first `all.len()`.
pub proof fn lemma_take_ends<T>(all: Seq<T>)
    ensures
        all.take(0).to_multiset() == Multiset::<T>::empty(),
        all.take(all.len() as int) == all,
{
    all.take(0).to_multiset_ensures();
}

/// `out` is an order in which the elements of `s` can leave a heap: its
/// first element is a minimum of `s`, and the rest is such an order for
/// what is left of `s`.
pub open spec fn is_drain_of<T: PartialOrd>(out: Seq<T>, s: Multiset<T>) -> bool
    decreases out.len(),
{
    if out.len() == 0 {
        s.len() == 0
    } else {
        is_min_of(out[0], s) && is_drain_of(out.drop_first(), s.remove(out[0]))
    }
}

/// No element of `out` is followed by a smaller one.
pub open spec fn ascending<T: PartialOrd>(out: Seq<T>) -> bool {
    forall|i: int, j: int| 0 <= i <= j < out.len() ==> le(out[i], out[j])
}

/// Popping until the heap is empty yields its elements in non-decreasing
/// order: whenever each element of `out` is a minimum of what the elements
/// before it have left of `s`, and nothing is left at the end, `out` is
/// ascending and holds exactly the elements of `s`.
pub proof fn lemma_drain_ascending<T: PartialOrd>(out: Seq<T>, s: Multiset<T>)
    requires
        total_order::<T>(),
        is_drain_of(out, s),
    ensures
        ascending(out),
        out.to_multiset() == s,
    decreases out.len(),
{
    out.to_multiset_ensures();
    if out.len() > 0 {
        let first = out[0];
        let rest = out.drop_first();
        let left = s.remove(first);
        lemma_drain_ascending(rest, left);
        rest.to_multiset_ensures();
        assert(out =~= seq![first] + rest);
        vstd::seq_lib::lemma_multiset_commutative(seq![first], rest);
        Seq::<T>::empty().to_multiset_ensures();
        assert forall|i: int, j: int| 0 <= i <= j < out.len() implies le(out[i], out[j]) by {
            if i == 0 && j > 0 {
                assert(left.count(out[j]) > 0);
            }
        }
    }
}

/// Two pops in a row: a minimum of what the first pop left is not smaller
/// than what the first pop returned.
pub proof fn lemma_pops_ascend<T: PartialOrd>(s: Multiset<T>, first: T, second: T)
    requires
        is_min_of(first, s),
        is_min_of(second, s.remove(first)),
    ensures
        le(first, second),
{
}

/// Pops until the heap is empty and returns what the pops gave, in that
/// order: the elements that the heap held, none of them followed by a
/// smaller one.
pub fn drain<T: PartialOrd, H: Heap<T>>(heap: &mut H) -> (out: Vec<T>)
    requires
        total_order::<T>(),
        old(heap).wf(),
    ensures
        final(heap).wf(),
        final(heap)@.len() == 0,
        ascending(out@),
        out@.to_multiset() == old(heap)@,
{
    let mut out: Vec<T> = Vec::new();
    proof {
        out@.to_multiset_ensures();
    }
    loop
        invariant
            total_order::<T>(),
            heap.wf(),
            ascending(out@),
            forall|i: int, x: T|
                #![trigger out@[i], heap@.count(x)]
                0 <= i < out@.len() && heap@.count(x) > 0 ==> le(out@[i], x),
            out@.to_multiset().add(heap@) == old(heap)@,
        ensures
            heap.wf(),
            heap@.len() == 0,
            ascending(out@),
            out@.to_multiset().add(heap@) == old(heap)@,
        decreases heap@.len(),
    {
        let ghost before = out@;
        match heap.pop() {
            None => {
                break ;
            },
            Some(min) => {
                out.push(min);
                proof {
                    before.to_multiset_ensures();
                }
            },
        }
    }
    out
}

} // verus!
