//! A pairing heap: a tree whose root holds a minimum and whose nodes keep
//! their children in a linked chain of siblings.

use crate::algorithm::heap::{is_min_of, lemma_take_ends, lemma_take_next, Heap};
use crate::order::{greater, gt, le, total_order};
use vstd::multiset::Multiset;
use vstd::prelude::*;

verus! {

/// A node of a pairing heap. It owns its first child and its next sibling.
pub struct PairingNode<T: PartialOrd> {
    /// The element of the node.
    pub elem: T,
    /// The first child.
    pub child: Option<Box<PairingNode<T>>>,
    /// The next sibling.
    pub brother: Option<Box<PairingNode<T>>>,
}

impl<T: PartialOrd> PairingNode<T> {
    /// The elements of the chain that starts at `link`: those of its first
    /// node, of that node's descendants, and of the siblings that follow.
    pub open spec fn chain_elems(link: Option<Box<Self>>) -> Multiset<T>
        decreases link,
    {
        match link {
            None => Multiset::empty(),
            Some(node) => node.elems(),
        }
    }

    /// The elements of the node, of its descendants and of the siblings
    /// that follow it.
    pub open spec fn elems(self) -> Multiset<T>
        decreases self,
    {
        Self::chain_elems(self.child).add(Self::chain_elems(self.brother)).insert(self.elem)
    }

    /// The elements below the node: those of its children and of their
    /// descendants.
    pub open spec fn below(self) -> Multiset<T> {
        Self::chain_elems(self.child)
    }

    /// Heap order over the chain that starts at `link`.
    pub open spec fn chain_ordered(link: Option<Box<Self>>) -> bool
        decreases link,
    {
        match link {
            None => true,
            Some(node) => node.ordered(),
        }
    }

    /// Heap order: no element below the node is smaller than the node's
    /// own, and the same holds of every descendant and of every sibling
    /// that follows.
    pub open spec fn ordered(self) -> bool
        decreases self,
    {
        &&& forall|x: T|
            #![trigger self.below().count(x)]
            self.below().count(x) > 0 ==> le(self.elem, x)
        &&& Self::chain_ordered(self.child)
        &&& Self::chain_ordered(self.brother)
    }

    /// The number of nodes in the chain of siblings that starts at `link`.
    pub open spec fn chain_len(link: Option<Box<Self>>) -> nat
        decreases link,
    {
        match link {
            None => 0,
            Some(node) => 1 + Self::chain_len(node.brother),
        }
    }

    /// The node has no sibling after it.
    pub open spec fn is_root(self) -> bool {
        self.brother is None
    }

    /// The node that holds `elem` and has neither child nor sibling.
    pub open spec fn leaf(elem: T) -> Self {
        PairingNode { elem, child: None, brother: None }
    }

    /// The node cut off from the siblings that follow it.
    pub open spec fn alone(self) -> Self {
        PairingNode { elem: self.elem, child: self.child, brother: None }
    }

    /// The tree that joining the trees `a` and `b` gives: the root with the
    /// greater element becomes the first child of the other, and the
    /// children that one had before follow it as its siblings. When the
    /// elements tie, `a` stays on top.
    pub open spec fn joined(a: Self, b: Self) -> Self {
        let (top, low) = if gt(a.elem, b.elem) {
            (b, a)
        } else {
            (a, b)
        };
        PairingNode {
            elem: top.elem,
            child: Some(
                Box::new(PairingNode { elem: low.elem, child: low.child, brother: top.child }),
            ),
            brother: None,
        }
    }

    /// The tree that the chain of siblings starting at this node is
    /// consolidated into: the first two nodes are joined, and the result is
    /// joined with the consolidation of the nodes that follow them.
    pub open spec fn consolidated(self) -> Self
        decreases self,
    {
        match self.brother {
            None => self,
            Some(second) => {
                let pair = Self::joined(self.alone(), second.alone());
                match second.brother {
                    None => pair,
                    Some(next) => Self::joined(pair, next.consolidated()),
                }
            },
        }
    }

    /// The tree that joining each tree of `pairs`, last to first, onto
    /// `last` gives.
    pub open spec fn folded(pairs: Seq<Box<Self>>, last: Self) -> Self
        decreases pairs.len(),
    {
        if pairs.len() == 0 {
            last
        } else {
            Self::joined(*pairs[0], Self::folded(pairs.drop_first(), last))
        }
    }

    /// The consolidation of the chain that starts at `link`, and `None` for
    /// an empty chain.
    pub open spec fn chain_consolidated(link: Option<Box<Self>>) -> Option<Box<Self>> {
        match link {
            None => None,
            Some(first) => Some(Box::new(first.consolidated())),
        }
    }

    /// The element of an ordered node without siblings is a minimum of its
    /// elements.
    pub proof fn lemma_root_is_min(self)
        requires
            total_order::<T>(),
            self.ordered(),
            self.is_root(),
        ensures
            is_min_of(self.elem, self.elems()),
            self.elems() == self.below().insert(self.elem),
    {
        assert(self.elems() =~= self.below().insert(self.elem));
    }

    /// Joining two ordered trees gives an ordered tree with the elements of
    /// both.
    pub proof fn lemma_joined(a: Self, b: Self)
        requires
            total_order::<T>(),
            a.is_root(),
            b.is_root(),
            a.ordered(),
            b.ordered(),
        ensures
            Self::joined(a, b).is_root(),
            Self::joined(a, b).ordered(),
            Self::joined(a, b).elems() == a.elems().add(b.elems()),
    {
        let (top, low) = if gt(a.elem, b.elem) {
            (b, a)
        } else {
            (a, b)
        };
        let r = Self::joined(a, b);
        let under = *r.child.unwrap();
        assert(le(top.elem, low.elem));
        assert(under.elems() =~= low.below().add(top.below()).insert(low.elem));
        assert(under.ordered());
    }

    /// Consolidating an ordered chain gives an ordered tree with the
    /// elements of the chain.
    pub proof fn lemma_consolidated(self)
        requires
            total_order::<T>(),
            self.ordered(),
        ensures
            self.consolidated().is_root(),
            self.consolidated().ordered(),
            self.consolidated().elems() == self.elems(),
        decreases self,
    {
        match self.brother {
            None => {},
            Some(second) => {
                let first = self.alone();
                let other = second.alone();
                assert(second.ordered());
                assert(first.below() == self.below());
                assert(other.below() == second.below());
                Self::lemma_joined(first, other);
                let pair = Self::joined(first, other);
                assert(Self::chain_elems(self.brother) == second.elems());
                match second.brother {
                    None => {},
                    Some(next) => {
                        next.lemma_consolidated();
                        Self::lemma_joined(pair, next.consolidated());
                    },
                }
            },
        }
    }

    /// Joining one more tree in front of `last` before folding is folding
    /// with that tree at the end of `pairs`.
    pub proof fn lemma_folded_push(pairs: Seq<Box<Self>>, p: Box<Self>, last: Self)
        ensures
            Self::folded(pairs.push(p), last) == Self::folded(pairs, Self::joined(*p, last)),
        decreases pairs.len(),
    {
        let longer = pairs.push(p);
        if pairs.len() == 0 {
            assert(Self::folded(longer.drop_first(), last) == last);
        } else {
            Self::lemma_folded_push(pairs.drop_first(), p, last);
            assert(longer.drop_first() =~= pairs.drop_first().push(p));
        }
    }

    /// A chain holds no element exactly when it has no node.
    pub proof fn lemma_chain_elems_len(link: Option<Box<Self>>)
        ensures
            link is None <==> Self::chain_elems(link).len() == 0,
    {
    }

    /// A node that holds `elem` and has neither child nor sibling.
    pub fn new(elem: T) -> (node: Self)
        ensures
            node == Self::leaf(elem),
            node.is_root(),
            node.ordered(),
            node.elems() == Multiset::<T>::empty().insert(elem),
    {
        PairingNode { elem, child: None, brother: None }
    }

    /// Joins two trees: the root with the greater element becomes the first
    /// child of the other, in front of the children that one already had.
    pub fn merge(a: Box<Self>, b: Box<Self>) -> (r: Box<Self>)
        requires
            total_order::<T>(),
            a.is_root(),
            b.is_root(),
            a.ordered(),
            b.ordered(),
        ensures
            *r == Self::joined(*a, *b),
            r.is_root(),
            r.ordered(),
            r.elems() == a.elems().add(b.elems()),
    {
        proof {
            Self::lemma_joined(*a, *b);
        }
        let (mut a, mut b) = (a, b);
        if greater(&a.elem, &b.elem) {
            core::mem::swap(&mut a, &mut b);
        }
        b.brother = a.child.take();
        a.child = Some(b);
        a
    }

    /// Takes the node apart: its element, and its children consolidated
    /// into one tree, or `None` when it has no child.
    pub fn pop(self) -> (r: (T, Option<Box<Self>>))
        requires
            total_order::<T>(),
            self.is_root(),
            self.ordered(),
        ensures
            r.0 == self.elem,
            r.1 == Self::chain_consolidated(self.child),
            is_min_of(r.0, self.elems()),
            Self::chain_elems(r.1) == self.elems().remove(r.0),
            Self::chain_ordered(r.1),
            r.1 is Some ==> r.1.unwrap().is_root(),
    {
        proof {
            self.lemma_root_is_min();
        }
        let PairingNode { elem, child, brother: _ } = self;
        match child {
            None => (elem, None),
            Some(first) => (elem, Some(first.merges())),
        }
    }

    /// Consolidates the chain of siblings that starts at this node into one
    /// tree, in two passes: left to right, each node is joined with the one
    /// after it; right to left, each of these pairs is joined with what the
    /// pairs after it have become.
    pub fn merges(self: Box<Self>) -> (r: Box<Self>)
        requires
            total_order::<T>(),
            self.ordered(),
        ensures
            *r == self.consolidated(),
            r.is_root(),
            r.ordered(),
            r.elems() == self.elems(),
    {
        let ghost whole = *self;
        let mut pairs: Vec<Box<Self>> = Vec::new();
        let mut rest: Option<Box<Self>> = Some(self);
        while rest.is_some()
            invariant
                total_order::<T>(),
                Self::chain_ordered(rest),
                forall|i: int|
                    0 <= i < pairs@.len() ==> (#[trigger] pairs@[i]).is_root()
                        && pairs@[i].ordered(),
                match rest {
                    Some(node) => whole.consolidated() == Self::folded(
                        pairs@,
                        node.consolidated(),
                    ),
                    None => pairs@.len() > 0 && whole.consolidated() == Self::folded(
                        pairs@.drop_last(),
                        *pairs@.last(),
                    ),
                },
            decreases Self::chain_len(rest),
        {
            let ghost before = pairs@;
            let mut first = rest.take().unwrap();
            let ghost chain = *first;
            assert(chain.ordered());
            match first.brother.take() {
                None => {
                    pairs.push(first);
                    proof {
                        assert(pairs@.drop_last() =~= before);
                    }
                },
                Some(mut second) => {
                    let ghost other = *second;
                    rest = second.brother.take();
                    proof {
                        assert(other.ordered());
                        assert(first.below() == chain.below());
                        assert(second.below() == other.below());
                        assert(Self::chain_len(Some(Box::new(chain))) == 1 + Self::chain_len(
                            chain.brother,
                        ));
                    }
                    let pair = Self::merge(first, second);
                    proof {
                        if rest is Some {
                            Self::lemma_folded_push(before, pair, rest.unwrap().consolidated());
                        }
                    }
                    pairs.push(pair);
                    proof {
                        assert(pairs@.drop_last() =~= before);
                    }
                },
            }
        }
        let mut acc = pairs.pop().unwrap();
        while pairs.len() > 0
            invariant
                total_order::<T>(),
                acc.is_root(),
                acc.ordered(),
                forall|i: int|
                    0 <= i < pairs@.len() ==> (#[trigger] pairs@[i]).is_root()
                        && pairs@[i].ordered(),
                whole.consolidated() == Self::folded(pairs@, *acc),
            decreases pairs@.len(),
        {
            let ghost before = pairs@;
            let pair = pairs.pop().unwrap();
            proof {
                assert(before =~= pairs@.push(pair));
                Self::lemma_folded_push(pairs@, pair, *acc);
            }
            acc = Self::merge(pair, acc);
        }
        proof {
            whole.lemma_consolidated();
        }
        acc
    }
}

/// A pairing heap: empty, or one tree whose root has no sibling.
pub struct PairingHeap<T: PartialOrd> {
    root: Option<Box<PairingNode<T>>>,
}

impl<T: PartialOrd> View for PairingHeap<T> {
    type V = Multiset<T>;

    open spec fn view(&self) -> Multiset<T> {
        PairingNode::chain_elems(self.root())
    }
}

impl<T: PartialOrd> PairingHeap<T> {
    /// The tree of the heap, `None` when the heap is empty.
    pub closed spec fn root(&self) -> Option<Box<PairingNode<T>>> {
        self.root
    }

    /// The tree that pushing `elem` onto the tree `root` gives: a new node
    /// alone, or the old root joined with it.
    pub open spec fn pushed(root: Option<Box<PairingNode<T>>>, elem: T) -> Option<
        Box<PairingNode<T>>,
    > {
        match root {
            None => Some(Box::new(PairingNode::leaf(elem))),
            Some(top) => Some(Box::new(PairingNode::joined(*top, PairingNode::leaf(elem)))),
        }
    }

    /// The tree that pushing the elements of `data`, first to last, onto
    /// the empty heap gives.
    pub open spec fn built(data: Seq<T>) -> Option<Box<PairingNode<T>>>
        decreases data.len(),
    {
        if data.len() == 0 {
            None
        } else {
            Self::pushed(Self::built(data.drop_last()), data.last())
        }
    }
}

impl<T: PartialOrd> Heap<T> for PairingHeap<T> {
    /// The root, if there is one, has no sibling, and the tree is in heap
    /// order.
    open spec fn wf(&self) -> bool {
        &&& PairingNode::chain_ordered(self.root())
        &&& self.root() is Some ==> self.root().unwrap().is_root()
    }

    fn with_capacity(_cap: usize) -> (heap: Self)
        ensures
            heap.root() is None,
    {
        PairingHeap { root: None }
    }

    /// Pushes the elements of `data`, first to last.
    fn build(data: Vec<T>) -> (heap: Self)
        ensures
            heap.root() == Self::built(data@),
    {
        let mut heap = Self::new();
        let ghost all = data@;
        proof {
            lemma_take_ends(all);
            assert(all.len() == data.len());
            PairingNode::lemma_chain_elems_len(heap.root);
        }
        for elem in it: data
            invariant
                total_order::<T>(),
                all.len() <= usize::MAX,
                it.seq() == all,
                heap.wf(),
                heap@ == all.take(it.index() as int).to_multiset(),
                heap.root() == Self::built(all.take(it.index() as int)),
        {
            proof {
                lemma_take_next(all, it.index() as int);
                assert(all.take(it.index() + 1).drop_last() =~= all.take(it.index() as int));
            }
            heap.push(elem);
        }
        heap
    }

    /// Joins the two trees. Where one of the heaps is empty, the result is
    /// the other one.
    fn merge(a: Self, b: Self) -> (heap: Self)
        ensures
            a.root() is None ==> heap == b,
            b.root() is None ==> heap == a,
            a.root() is Some && b.root() is Some ==> heap.root() == Some(
                Box::new(PairingNode::joined(*a.root().unwrap(), *b.root().unwrap())),
            ),
    {
        if a.is_empty() {
            return b;
        } else if b.is_empty() {
            return a;
        }
        PairingHeap { root: Some(PairingNode::merge(a.root.unwrap(), b.root.unwrap())) }
    }

    /// The element of the root.
    fn peek(&self) -> (r: Option<&T>)
        ensures
            r == (match self.root() {
                None => None,
                Some(root) => Some(&root.elem),
            }),
    {
        match &self.root {
            None => None,
            Some(node) => {
                proof {
                    node.lemma_root_is_min();
                }
                Some(&node.elem)
            },
        }
    }

    /// Takes the root away and consolidates its children into the new
    /// tree.
    fn pop(&mut self) -> (r: Option<T>)
        ensures
            old(self).root() is Some ==> r == Some(old(self).root().unwrap().elem),
            old(self).root() is Some ==> final(self).root() == PairingNode::chain_consolidated(
                old(self).root().unwrap().child,
            ),
    {
        match self.root.take() {
            None => None,
            Some(root) => {
                let (elem, new_root) = (*root).pop();
                self.root = new_root;
                Some(elem)
            },
        }
    }

    /// Joins the tree with a new node that holds `elem`.
    fn push(&mut self, elem: T)
        ensures
            final(self).root() == Self::pushed(old(self).root(), elem),
    {
        let node = Box::new(PairingNode::new(elem));
        let root = if self.is_empty() {
            node
        } else {
            PairingNode::merge(self.root.take().unwrap(), node)
        };
        self.root = Some(root);
    }

    fn is_empty(&self) -> (r: bool)
        ensures
            r == (self.root() is None),
    {
        self.root.is_none()
    }
}

} // verus!
