//! A leftist heap: a binary tree in heap order whose right spine is kept
//! short by ranks.

use crate::algorithm::heap::{is_min_of, lemma_take_ends, lemma_take_next, Heap};
use crate::order::{greater, gt, le, total_order};
use vstd::arithmetic::power2::pow2;
use vstd::multiset::Multiset;
use vstd::prelude::*;

verus! {

/// A node of a leftist heap. It owns its two children and records its rank.
pub struct LeftistNode<T: PartialOrd> {
    /// The element of the node.
    pub elem: T,
    /// The rank of the node: the length of its right spine.
    pub hist: usize,
    /// The left child.
    pub left: Option<Box<LeftistNode<T>>>,
    /// The right child.
    pub right: Option<Box<LeftistNode<T>>>,
}

impl<T: PartialOrd> LeftistNode<T> {
    /// The rank recorded at the root of `tree`, and 0 for no tree.
    pub open spec fn tree_rank(tree: Option<Box<Self>>) -> nat {
        match tree {
            None => 0,
            Some(node) => node.hist as nat,
        }
    }

    /// The number of nodes of `tree`.
    pub open spec fn tree_size(tree: Option<Box<Self>>) -> nat
        decreases tree,
    {
        match tree {
            None => 0,
            Some(node) => node.size(),
        }
    }

    /// The number of nodes at and below this one.
    pub open spec fn size(self) -> nat
        decreases self,
    {
        1 + Self::tree_size(self.left) + Self::tree_size(self.right)
    }

    /// The node that holds `elem`, has no child and has rank 1.
    pub open spec fn leaf(elem: T) -> Self {
        LeftistNode { elem, hist: 1, left: None, right: None }
    }

    /// The tree that joining the trees `a` and `b` gives. The root with the
    /// smaller element stays on top (`a` when the elements tie). Its right
    /// subtree is joined with the other tree. The result becomes the right
    /// child, or the left one, with the former left child on the right,
    /// where there was no left child or its rank was smaller. The rank of
    /// the top is one more than that of its new right child.
    pub open spec fn joined(a: Self, b: Self) -> Self
        decreases a.size() + b.size(),
    {
        let (top, low) = if gt(a.elem, b.elem) {
            (b, a)
        } else {
            (a, b)
        };
        let sub = match top.right {
            None => low,
            Some(right) => Self::joined(*right, low),
        };
        if top.left is None || top.left.unwrap().hist < sub.hist {
            LeftistNode {
                elem: top.elem,
                hist: (Self::tree_rank(top.left) + 1) as usize,
                left: Some(Box::new(sub)),
                right: top.left,
            }
        } else {
            LeftistNode {
                elem: top.elem,
                hist: (sub.hist + 1) as usize,
                left: top.left,
                right: Some(Box::new(sub)),
            }
        }
    }

    /// What is left of the tree without its root: the one child, or the two
    /// children joined.
    pub open spec fn without_root(self) -> Option<Box<Self>> {
        match (self.left, self.right) {
            (None, _) => self.right,
            (Some(_), None) => self.left,
            (Some(left), Some(right)) => Some(Box::new(Self::joined(*left, *right))),
        }
    }

    /// The number of nodes on the path from the root of `tree` that always
    /// takes the right child.
    pub open spec fn spine(tree: Option<Box<Self>>) -> nat
        decreases tree,
    {
        match tree {
            None => 0,
            Some(node) => 1 + Self::spine(node.right),
        }
    }

    /// The elements of `tree`, and none for no tree.
    pub open spec fn tree_elems(tree: Option<Box<Self>>) -> Multiset<T>
        decreases tree,
    {
        match tree {
            None => Multiset::empty(),
            Some(node) => node.elems(),
        }
    }

    /// The elements of the node and of its descendants.
    pub open spec fn elems(self) -> Multiset<T>
        decreases self,
    {
        Self::tree_elems(self.left).add(Self::tree_elems(self.right)).insert(self.elem)
    }

    /// The elements of the descendants of the node.
    pub open spec fn below(self) -> Multiset<T> {
        Self::tree_elems(self.left).add(Self::tree_elems(self.right))
    }

    /// Heap order over `tree`.
    pub open spec fn tree_ordered(tree: Option<Box<Self>>) -> bool
        decreases tree,
    {
        match tree {
            None => true,
            Some(node) => node.ordered(),
        }
    }

    /// Heap order: no element below the node is smaller than the node's
    /// own, and the same holds of every descendant.
    pub open spec fn ordered(self) -> bool
        decreases self,
    {
        &&& forall|x: T|
            #![trigger self.below().count(x)]
            self.below().count(x) > 0 ==> le(self.elem, x)
        &&& Self::tree_ordered(self.left)
        &&& Self::tree_ordered(self.right)
    }

    /// The leftist property over `tree`.
    pub open spec fn tree_leftist(tree: Option<Box<Self>>) -> bool
        decreases tree,
    {
        match tree {
            None => true,
            Some(node) => node.leftist(),
        }
    }

    /// The leftist property: at the node and at every descendant, the rank
    /// of the left child is at least that of the right child, and the
    /// node's own rank is one more than that of its right child, where a
    /// missing child counts as rank 0.
    pub open spec fn leftist(self) -> bool
        decreases self,
    {
        &&& Self::tree_rank(self.left) >= Self::tree_rank(self.right)
        &&& self.hist == Self::tree_rank(self.right) + 1
        &&& Self::tree_leftist(self.left)
        &&& Self::tree_leftist(self.right)
    }

    /// In a leftist tree the recorded rank is the length of the right
    /// spine.
    pub proof fn lemma_rank_is_spine(tree: Option<Box<Self>>)
        requires
            Self::tree_leftist(tree),
        ensures
            Self::tree_rank(tree) == Self::spine(tree),
        decreases tree,
    {
        match tree {
            None => {},
            Some(node) => {
                Self::lemma_rank_is_spine(node.right);
            },
        }
    }

    /// A leftist tree of rank `k` has at least `2^k - 1` nodes, so the right
    /// spine, along which trees are joined, is short.
    pub proof fn lemma_rank_bound(tree: Option<Box<Self>>)
        requires
            Self::tree_leftist(tree),
        ensures
            pow2(Self::tree_rank(tree)) <= Self::tree_size(tree) + 1,
        decreases tree,
    {
        match tree {
            None => {
                vstd::arithmetic::power2::lemma2_to64();
            },
            Some(node) => {
                Self::lemma_rank_bound(node.left);
                Self::lemma_rank_bound(node.right);
                let low = Self::tree_rank(node.right);
                let high = Self::tree_rank(node.left);
                if low < high {
                    vstd::arithmetic::power2::lemma_pow2_strictly_increases(low, high);
                }
                vstd::arithmetic::power2::lemma_pow2_unfold(node.hist as nat);
            },
        }
    }

    /// A tree has as many nodes as elements.
    pub proof fn lemma_size_is_len(tree: Option<Box<Self>>)
        ensures
            Self::tree_size(tree) == Self::tree_elems(tree).len(),
        decreases tree,
    {
        match tree {
            None => {},
            Some(node) => {
                Self::lemma_size_is_len(node.left);
                Self::lemma_size_is_len(node.right);
            },
        }
    }

    /// In a leftist tree the recorded rank is at most the number of
    /// elements.
    pub proof fn lemma_rank_le_len(tree: Option<Box<Self>>)
        requires
            Self::tree_leftist(tree),
        ensures
            Self::tree_rank(tree) <= Self::tree_elems(tree).len(),
        decreases tree,
    {
        match tree {
            None => {},
            Some(node) => {
                Self::lemma_rank_le_len(node.right);
            },
        }
    }

    /// The element of an ordered node is a minimum of its elements.
    pub proof fn lemma_root_is_min(self)
        requires
            total_order::<T>(),
            self.ordered(),
        ensures
            is_min_of(self.elem, self.elems()),
            self.elems() == self.below().insert(self.elem),
    {
        assert forall|x: T| #![trigger self.elems().count(x)]
            self.elems().count(x) > 0 implies le(self.elem, x) by {
            if x != self.elem {
                assert(self.below().count(x) > 0);
            }
        }
    }

    /// A node that holds `elem`, has no child and has rank 1.
    pub fn new(elem: T) -> (node: Self)
        ensures
            node == Self::leaf(elem),
            node.ordered(),
            node.leftist(),
            node.elems() == Multiset::<T>::empty().insert(elem),
    {
        LeftistNode { elem, hist: 1, left: None, right: None }
    }

    /// Joins two trees. The root with the smaller element stays on top
    /// (`a` when the elements tie); the other tree is merged into its right
    /// subtree; then the children are exchanged if the left one has the
    /// smaller rank, and the rank is set anew.
    pub fn merge(a: Box<Self>, b: Box<Self>) -> (r: Box<Self>)
        requires
            total_order::<T>(),
            a.ordered(),
            b.ordered(),
            a.leftist(),
            b.leftist(),
            a.elems().len() + b.elems().len() <= usize::MAX,
        ensures
            *r == Self::joined(*a, *b),
            r.ordered(),
            r.leftist(),
            r.elems() == a.elems().add(b.elems()),
        decreases a.size() + b.size(),
    {
        let (mut a, mut b) = (a, b);
        if greater(&a.elem, &b.elem) {
            core::mem::swap(&mut a, &mut b);
        }
        let ghost top = *a;
        let ghost low = *b;
        proof {
            low.lemma_root_is_min();
        }
        a.right = if a.right.is_some() {
            Some(Self::merge(a.right.take().unwrap(), b))
        } else {
            Some(b)
        };
        proof {
            assert forall|x: T| #![trigger a.below().count(x)]
                a.below().count(x) > 0 implies le(a.elem, x) by {
                if top.below().count(x) == 0 {
                    assert(low.elems().count(x) > 0);
                }
            }
        }
        let ghost joined = *a;
        if a.left.is_none() || a.left.as_ref().unwrap().hist < a.right.as_ref().unwrap().hist {
            core::mem::swap(&mut a.left, &mut a.right);
        }
        proof {
            assert(a.below() =~= joined.below());
            Self::lemma_rank_le_len(a.right);
        }
        a.hist = match &a.right {
            Some(right) => right.hist + 1,
            None => 1,
        };
        a
    }

    /// Takes the node apart: its element, and its two children merged into
    /// one tree, or `None` when it has no child.
    pub fn pop(self) -> (r: (T, Option<Box<Self>>))
        requires
            total_order::<T>(),
            self.ordered(),
            self.leftist(),
            self.elems().len() <= usize::MAX,
        ensures
            r.0 == self.elem,
            r.1 == self.without_root(),
            is_min_of(r.0, self.elems()),
            Self::tree_elems(r.1) == self.elems().remove(r.0),
            Self::tree_ordered(r.1),
            Self::tree_leftist(r.1),
            r.1 is None <==> self.elems().len() == 1,
    {
        proof {
            self.lemma_root_is_min();
        }
        if self.left.is_none() {
            (self.elem, self.right)
        } else if self.right.is_none() {
            (self.elem, self.left)
        } else {
            (self.elem, Some(Self::merge(self.left.unwrap(), self.right.unwrap())))
        }
    }
}

/// A leftist heap: empty, or one leftist tree in heap order.
pub struct LeftistHeap<T: PartialOrd> {
    root: Option<Box<LeftistNode<T>>>,
}

impl<T: PartialOrd> View for LeftistHeap<T> {
    type V = Multiset<T>;

    open spec fn view(&self) -> Multiset<T> {
        LeftistNode::tree_elems(self.root())
    }
}

impl<T: PartialOrd> LeftistHeap<T> {
    /// The tree of the heap, `None` when the heap is empty.
    pub closed spec fn root(&self) -> Option<Box<LeftistNode<T>>> {
        self.root
    }

    /// The tree that pushing `elem` onto the tree `root` gives: a new node
    /// alone, or the old tree joined with it.
    pub open spec fn pushed(root: Option<Box<LeftistNode<T>>>, elem: T) -> Option<
        Box<LeftistNode<T>>,
    > {
        match root {
            None => Some(Box::new(LeftistNode::leaf(elem))),
            Some(top) => Some(Box::new(LeftistNode::joined(*top, LeftistNode::leaf(elem)))),
        }
    }

    /// The tree that pushing the elements of `data`, first to last, onto
    /// the empty heap gives.
    pub open spec fn built(data: Seq<T>) -> Option<Box<LeftistNode<T>>>
        decreases data.len(),
    {
        if data.len() == 0 {
            None
        } else {
            Self::pushed(Self::built(data.drop_last()), data.last())
        }
    }
}

impl<T: PartialOrd> Heap<T> for LeftistHeap<T> {
    /// The tree is in heap order, it is leftist, and the number of its
    /// elements fits the machine's word.
    open spec fn wf(&self) -> bool {
        &&& LeftistNode::tree_ordered(self.root())
        &&& LeftistNode::tree_leftist(self.root())
        &&& self@.len() <= usize::MAX
    }

    fn with_capacity(_cap: usize) -> (heap: Self)
        ensures
            heap.root() is None,
    {
        LeftistHeap { root: None }
    }

    /// Pushes the elements of `data`, first to last.
    fn build(data: Vec<T>) -> (heap: Self)
        ensures
            heap.root() == Self::built(data@),
    {
        let mut heap = Self::new();
        let ghost all = data@;
        proof {
            lemma_take_ends(all);
            assert(all.len() == data.len());
        }
        for elem in it: data
            invariant
                total_order::<T>(),
                all.len() <= usize::MAX,
                it.seq() == all,
                heap.wf(),
                heap@ == all.take(it.index() as int).to_multiset(),
                heap.root() == Self::built(all.take(it.index() as int)),
        {
            proof {
                lemma_take_next(all, it.index() as int);
                assert(all.take(it.index() + 1).drop_last() =~= all.take(it.index() as int));
            }
            heap.push(elem);
        }
        heap
    }

    /// Joins the two trees. Where one of the heaps is empty, the result is
    /// the other one.
    fn merge(a: Self, b: Self) -> (heap: Self)
        ensures
            a.root() is None ==> heap == b,
            b.root() is None ==> heap == a,
            a.root() is Some && b.root() is Some ==> heap.root() == Some(
                Box::new(LeftistNode::joined(*a.root().unwrap(), *b.root().unwrap())),
            ),
    {
        if a.is_empty() {
            return b;
        } else if b.is_empty() {
            return a;
        }
        LeftistHeap { root: Some(LeftistNode::merge(a.root.unwrap(), b.root.unwrap())) }
    }

    fn is_empty(&self) -> (r: bool)
        ensures
            r == (self.root() is None),
    {
        self.root.is_none()
    }

    /// The element of the root.
    fn peek(&self) -> (r: Option<&T>)
        ensures
            r == (match self.root() {
                None => None,
                Some(root) => Some(&root.elem),
            }),
    {
        match &self.root {
            None => None,
            Some(root) => {
                proof {
                    root.lemma_root_is_min();
                }
                Some(&root.elem)
            },
        }
    }

    /// Takes the root away and joins its two children into the new tree.
    fn pop(&mut self) -> (r: Option<T>)
        ensures
            old(self).root() is Some ==> r == Some(old(self).root().unwrap().elem),
            old(self).root() is Some ==> final(self).root() == old(
                self,
            ).root().unwrap().without_root(),
    {
        if self.is_empty() {
            None
        } else {
            let (elem, root) = (*self.root.take().unwrap()).pop();
            self.root = root;
            Some(elem)
        }
    }

    /// Joins the tree with a new node that holds `elem`.
    fn push(&mut self, elem: T)
        ensures
            final(self).root() == Self::pushed(old(self).root(), elem),
    {
        let node = Box::new(LeftistNode::new(elem));
        if self.root.is_none() {
            self.root = Some(node);
        } else {
            self.root = Some(LeftistNode::merge(self.root.take().unwrap(), node));
        }
    }
}

} // verus!
