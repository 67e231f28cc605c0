//! A binary min-heap in one contiguous buffer.
//!
//! The buffer is read as a complete binary tree: index 0 is the root and
//! the children of index `i` are `2 * i + 1` and `2 * i + 2`.

use crate::algorithm::heap::{is_min_of, Heap};
use crate::order::{greater, gt, le, less, lt, total_order};
use vstd::multiset::Multiset;
use vstd::prelude::*;

verus! {

/// Calls `<[T]>::swap` on the buffer of `v`: the elements at the two
/// positions, which lie inside the buffer, change places, and every other
/// position stays as it is.
#[verifier::external_body]
fn swap_at<T>(v: &mut Vec<T>, a: usize, b: usize)
    requires
        a < old(v)@.len(),
        b < old(v)@.len(),
    ensures
        final(v)@ == swapped(old(v)@, a as int, b as int),
{
    v.swap(a, b);
}

/// `s` with the elements at positions `a` and `b` exchanged.
pub open spec fn swapped<T>(s: Seq<T>, a: int, b: int) -> Seq<T> {
    s.update(a, s[b]).update(b, s[a])
}

/// The index of the parent of the non-root index `i`.
pub open spec fn parent(i: int) -> int {
    (i - 1) / 2
}

/// What sifting up from `idx` leaves of `s`: as long as the element has a
/// parent and is smaller than it, the two change places.
pub open spec fn sifted_up<T: PartialOrd>(s: Seq<T>, idx: int) -> Seq<T>
    decreases idx,
{
    if 0 < idx < s.len() && lt(s[idx], s[parent(idx)]) {
        sifted_up(swapped(s, parent(idx), idx), parent(idx))
    } else {
        s
    }
}

/// The child of `idx` that sifting down looks at: the right one where it
/// exists and the left one is greater than it, else the left one.
pub open spec fn lesser_child<T: PartialOrd>(s: Seq<T>, idx: int) -> int {
    if 2 * idx + 2 < s.len() && gt(s[2 * idx + 1], s[2 * idx + 2]) {
        2 * idx + 2
    } else {
        2 * idx + 1
    }
}

/// What sifting down from `idx` leaves of `s`: as long as the element has
/// a child and its lesser child is smaller than it, the two change places.
pub open spec fn sifted_down<T: PartialOrd>(s: Seq<T>, idx: int) -> Seq<T>
    decreases s.len() - idx,
{
    if 0 <= idx && 2 * idx + 1 < s.len() && lt(s[lesser_child(s, idx)], s[idx]) {
        sifted_down(swapped(s, idx, lesser_child(s, idx)), lesser_child(s, idx))
    } else {
        s
    }
}

/// What sifting down from position `from - 1`, then from each earlier
/// position back to the root, leaves of `s`.
pub open spec fn heapified_from<T: PartialOrd>(s: Seq<T>, from: int) -> Seq<T>
    decreases from,
{
    if from <= 0 {
        s
    } else {
        heapified_from(sifted_down(s, from - 1), from - 1)
    }
}

/// What sifting down from the last position that has a child, then from
/// each earlier position back to the root, leaves of `s`.
pub open spec fn heapified<T: PartialOrd>(s: Seq<T>) -> Seq<T> {
    heapified_from(s, s.len() as int / 2)
}

/// Every non-root position whose parent is at `lo` or later holds an
/// element that is not smaller than the one at its parent.
pub open spec fn ordered_from<T: PartialOrd>(s: Seq<T>, lo: int) -> bool {
    forall|j: int| 0 < j < s.len() && parent(j) >= lo ==> le(s[parent(j)], #[trigger] s[j])
}

/// Min-heap order over the whole buffer.
pub open spec fn heap_ordered<T: PartialOrd>(s: Seq<T>) -> bool {
    ordered_from(s, 0)
}

/// As `ordered_from(s, lo)`, but nothing is said of the children of `hole`
/// against `hole`; instead, when `hole` has a parent at `lo` or later, that
/// parent is not greater than the children of `hole`.
pub open spec fn ordered_but_below<T: PartialOrd>(s: Seq<T>, lo: int, hole: int) -> bool {
    &&& forall|j: int|
        0 < j < s.len() && parent(j) >= lo && parent(j) != hole ==> le(
            s[parent(j)],
            #[trigger] s[j],
        )
    &&& forall|j: int|
        0 < j < s.len() && parent(j) == hole && hole > 0 && parent(hole) >= lo ==> le(
            s[parent(hole)],
            #[trigger] s[j],
        )
}

/// Min-heap order over the whole buffer, but nothing is said of `hole`
/// against its parent; instead that parent is not greater than the children
/// of `hole`.
pub open spec fn ordered_but_above<T: PartialOrd>(s: Seq<T>, hole: int) -> bool {
    &&& forall|j: int| 0 < j < s.len() && j != hole ==> le(s[parent(j)], #[trigger] s[j])
    &&& forall|j: int|
        0 < j < s.len() && parent(j) == hole && hole > 0 ==> le(s[parent(hole)], #[trigger] s[j])
}

/// In a heap-ordered buffer the root is not greater than any element.
pub proof fn lemma_root_is_min<T: PartialOrd>(s: Seq<T>, i: int)
    requires
        total_order::<T>(),
        heap_ordered(s),
        0 <= i < s.len(),
    ensures
        le(s[0], s[i]),
    decreases i,
{
    if i > 0 {
        lemma_root_is_min(s, parent(i));
    }
}

/// Exchanging two positions keeps the multiset of a sequence.
pub proof fn lemma_swap_multiset<T>(s: Seq<T>, a: int, b: int)
    requires
        0 <= a < s.len(),
        0 <= b < s.len(),
    ensures
        swapped(s, a, b).to_multiset() == s.to_multiset(),
{
    let mid = s.update(a, s[b]);
    vstd::seq_lib::to_multiset_update(s, a, s[b]);
    vstd::seq_lib::to_multiset_update(mid, b, s[a]);
    s.to_multiset_ensures();
}

/// A binary min-heap.
pub struct BinaryHeap<T: PartialOrd> {
    data: Vec<T>,
}

impl<T: PartialOrd> View for BinaryHeap<T> {
    type V = Multiset<T>;

    open spec fn view(&self) -> Multiset<T> {
        self.buffer().to_multiset()
    }
}

impl<T: PartialOrd> BinaryHeap<T> {
    /// The buffer, root first.
    pub closed spec fn buffer(&self) -> Seq<T> {
        self.data@
    }

    /// The number of elements in the heap.
    pub fn len(&self) -> (n: usize)
        ensures
            n == self.buffer().len(),
            n == self@.len(),
    {
        proof {
            self.data@.to_multiset_ensures();
        }
        self.data.len()
    }

    /// Moves the element at `idx` towards the root for as long as it is
    /// smaller than its parent.
    fn up(&mut self, mut idx: usize)
        requires
            total_order::<T>(),
            idx < old(self).data@.len(),
            ordered_but_above(old(self).data@, idx as int),
        ensures
            final(self).data@ == sifted_up(old(self).data@, idx as int),
            heap_ordered(final(self).data@),
            final(self).data@.len() == old(self).data@.len(),
            final(self).data@.to_multiset() == old(self).data@.to_multiset(),
    {
        let ghost start = idx as int;
        while idx > 0
            invariant_except_break
                ordered_but_above(self.data@, idx as int),
                sifted_up(self.data@, idx as int) == sifted_up(old(self).data@, start),
            invariant
                total_order::<T>(),
                idx < self.data@.len(),
                self.data@.len() == old(self).data@.len(),
                self.data@.to_multiset() == old(self).data@.to_multiset(),
            ensures
                heap_ordered(self.data@),
                self.data@ == sifted_up(old(self).data@, start),
            decreases idx,
        {
            let father = (idx - 1) / 2;
            if !less(&self.data[idx], &self.data[father]) {
                break ;
            }
            proof {
                lemma_swap_multiset(self.data@, father as int, idx as int);
            }
            swap_at(&mut self.data, father, idx);
            idx = father;
        }
    }

    /// Moves the element at `idx` away from the root for as long as its
    /// lesser child is smaller than it.
    fn down(&mut self, mut idx: usize)
        requires
            total_order::<T>(),
            ordered_from(old(self).data@, idx as int + 1),
        ensures
            final(self).data@ == sifted_down(old(self).data@, idx as int),
            ordered_from(final(self).data@, idx as int),
            final(self).data@.len() == old(self).data@.len(),
            final(self).data@.to_multiset() == old(self).data@.to_multiset(),
    {
        let ghost lo = idx as int;
        while idx < self.data.len() / 2
            invariant_except_break
                ordered_but_below(self.data@, lo, idx as int),
                sifted_down(self.data@, idx as int) == sifted_down(old(self).data@, lo),
            invariant
                total_order::<T>(),
                lo <= idx,
                self.data@.len() == old(self).data@.len(),
                self.data@.to_multiset() == old(self).data@.to_multiset(),
            ensures
                ordered_from(self.data@, lo),
                self.data@ == sifted_down(old(self).data@, lo),
            decreases self.data@.len() - idx,
        {
            let mut child = idx * 2 + 1;
            if child + 1 < self.data.len() && greater(&self.data[child], &self.data[child + 1]) {
                child += 1;
            }
            if !less(&self.data[child], &self.data[idx]) {
                break ;
            }
            proof {
                lemma_swap_multiset(self.data@, idx as int, child as int);
            }
            swap_at(&mut self.data, idx, child);
            idx = child;
        }
    }

    /// Restores min-heap order over an arbitrary buffer, from the last
    /// position that has a child back to the root.
    fn heapify(&mut self)
        requires
            total_order::<T>(),
        ensures
            final(self).data@ == heapified(old(self).data@),
            heap_ordered(final(self).data@),
            final(self).data@.to_multiset() == old(self).data@.to_multiset(),
    {
        let mut i = self.data.len() / 2;
        while i > 0
            invariant
                total_order::<T>(),
                i <= self.data@.len() / 2,
                ordered_from(self.data@, i as int),
                self.data@.to_multiset() == old(self).data@.to_multiset(),
                heapified_from(self.data@, i as int) == heapified(old(self).data@),
            decreases i,
        {
            i -= 1;
            self.down(i);
        }
    }
}

/// The root of a non-empty heap-ordered buffer is a minimum of its elements.
pub proof fn lemma_root_min_of<T: PartialOrd>(s: Seq<T>)
    requires
        total_order::<T>(),
        heap_ordered(s),
        s.len() > 0,
    ensures
        is_min_of(s[0], s.to_multiset()),
{
    s.to_multiset_ensures();
    assert forall|x: T| #![trigger s.to_multiset().count(x)]
        s.to_multiset().count(x) > 0 implies le(s[0], x) by {
        let i = choose|i: int| 0 <= i < s.len() && s[i] == x;
        lemma_root_is_min(s, i);
    }
}

impl<T: PartialOrd> Heap<T> for BinaryHeap<T> {
    /// The buffer is in min-heap order.
    open spec fn wf(&self) -> bool {
        heap_ordered(self.buffer())
    }

    fn with_capacity(cap: usize) -> (heap: Self)
        ensures
            heap.buffer() == Seq::<T>::empty(),
    {
        let heap = BinaryHeap { data: Vec::with_capacity(cap) };
        proof {
            heap.data@.to_multiset_ensures();
        }
        heap
    }

    /// Takes `data` as the buffer and sifts down from the last position
    /// that has a child back to the root.
    fn build(data: Vec<T>) -> (heap: Self)
        ensures
            heap.buffer() == heapified(data@),
    {
        let mut heap = BinaryHeap { data };
        heap.heapify();
        heap
    }

    /// Rebuilds one heap over the buffer of `a` followed by that of `b`, in
    /// time linear in their length.
    fn merge(a: Self, b: Self) -> (heap: Self)
        ensures
            a@.len() != 0 && b@.len() != 0 ==> heap.buffer() == heapified(a.buffer() + b.buffer()),
    {
        if a.is_empty() {
            return b;
        } else if b.is_empty() {
            return a;
        }
        let mut a = a;
        let mut b = b;
        proof {
            vstd::seq_lib::lemma_multiset_commutative(a.data@, b.data@);
        }
        a.data.append(&mut b.data);
        a.heapify();
        a
    }

    fn is_empty(&self) -> (r: bool) {
        self.len() == 0
    }

    /// The root of the buffer.
    fn peek(&self) -> (r: Option<&T>)
        ensures
            self.buffer().len() > 0 ==> r == Some(&self.buffer()[0]),
    {
        if self.data.len() == 0 {
            proof {
                self.data@.to_multiset_ensures();
            }
            None
        } else {
            proof {
                lemma_root_min_of(self.data@);
            }
            Some(&self.data[0])
        }
    }

    /// Puts the last element in the place of the root, which leaves, and
    /// sifts it down.
    fn pop(&mut self) -> (r: Option<T>)
        ensures
            old(self).buffer().len() > 0 ==> r == Some(old(self).buffer()[0]),
            old(self).buffer().len() > 0 ==> final(self).buffer() == sifted_down(
                swapped(old(self).buffer(), 0, old(self).buffer().len() - 1).drop_last(),
                0,
            ),
    {
        if self.data.is_empty() {
            proof {
                self.data@.to_multiset_ensures();
            }
            return None;
        }
        let last = self.data.len() - 1;
        let ghost before = self.data@;
        proof {
            lemma_root_min_of(before);
            lemma_swap_multiset(before, 0, last as int);
        }
        swap_at(&mut self.data, 0, last);
        let ghost moved = self.data@;
        let ans = self.data.pop();
        proof {
            assert(self.data@ =~= moved.remove(last as int));
            moved.to_multiset_ensures();
        }
        self.down(0);
        ans
    }

    /// Puts `elem` at the end of the buffer and sifts it up.
    fn push(&mut self, elem: T)
        ensures
            final(self).buffer() == sifted_up(
                old(self).buffer().push(elem),
                old(self).buffer().len() as int,
            ),
    {
        let ghost before = self.data@;
        self.data.push(elem);
        proof {
            before.to_multiset_ensures();
        }
        self.up(self.data.len() - 1);
    }
}

} // verus!
