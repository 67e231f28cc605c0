//! Disjoint sets over the numbers below a fixed bound, kept as a forest of
//! parent links.

use vstd::prelude::*;

verus! {

/// Every parent link points inside the forest.
pub open spec fn in_range(s: Seq<usize>) -> bool {
    forall|i: int| 0 <= i < s.len() ==> #[trigger] s[i] < s.len()
}

/// `r` gives every node that is not its own parent a greater number than
/// its parent.
pub open spec fn ranked(s: Seq<usize>, r: Seq<nat>) -> bool {
    &&& r.len() == s.len()
    &&& forall|i: int| #![trigger s[i]] 0 <= i < s.len() && s[i] != i ==> r[s[i] as int] < r[i]
}

/// The parent links form a forest: they stay in range and, but for the
/// roots, which are their own parents, they form no cycle.
pub open spec fn forest(s: Seq<usize>) -> bool {
    in_range(s) && exists|r: Seq<nat>| ranked(s, r)
}

/// A bound on the number of links between node `i` and its root.
pub closed spec fn height(s: Seq<usize>, i: int) -> nat {
    (choose|r: Seq<nat>| ranked(s, r))[i]
}

/// The root that is reached from node `i` by following parent links.
pub open spec fn root_of(s: Seq<usize>, i: int) -> int
    decreases height(s, i),
    when forest(s) && 0 <= i < s.len()
{
    if s[i] == i {
        i
    } else {
        root_of(s, s[i] as int)
    }
}

/// The root of a node is a node that is its own parent, and no numbering
/// of the forest gives it more than the node it was reached from.
pub proof fn lemma_root(s: Seq<usize>, r: Seq<nat>, i: int)
    requires
        in_range(s),
        ranked(s, r),
        0 <= i < s.len(),
    ensures
        0 <= root_of(s, i) < s.len(),
        s[root_of(s, i)] == root_of(s, i),
        root_of(s, root_of(s, i)) == root_of(s, i),
        r[root_of(s, i)] <= r[i],
        s[i] != i ==> r[root_of(s, i)] < r[i],
        s[i] != i ==> root_of(s, i) == root_of(s, s[i] as int),
    decreases r[i],
{
    if s[i] != i {
        lemma_root(s, r, s[i] as int);
    }
}

/// Linking a node straight to its root leaves the forest a forest and
/// every node with the root it had.
pub proof fn lemma_compress(s: Seq<usize>, r: Seq<nat>, x: int, i: int)
    requires
        in_range(s),
        ranked(s, r),
        0 <= x < s.len(),
        0 <= i < s.len(),
    ensures
        in_range(s.update(x, root_of(s, x) as usize)),
        ranked(s.update(x, root_of(s, x) as usize), r),
        root_of(s.update(x, root_of(s, x) as usize), i) == root_of(s, i),
    decreases r[i],
{
    let t = s.update(x, root_of(s, x) as usize);
    lemma_root(s, r, x);
    if t[i] != i {
        lemma_compress(s, r, x, t[i] as int);
    }
}

/// The numbering that lifts the tree under `top` above the node `under`.
pub open spec fn lifted(s: Seq<usize>, r: Seq<nat>, top: int, under: int) -> Seq<nat> {
    Seq::new(
        s.len(),
        |i: int|
            if root_of(s, i) == top {
                r[i] + r[under] + 1
            } else {
                r[i]
            },
    )
}

/// Linking one root to another leaves the forest a forest; the nodes of
/// the first tree get the second root and all others keep theirs.
pub proof fn lemma_link(s: Seq<usize>, r: Seq<nat>, top: int, under: int, i: int)
    requires
        in_range(s),
        ranked(s, r),
        0 <= top < s.len(),
        0 <= under < s.len(),
        s[top] == top,
        s[under] == under,
        top != under,
        0 <= i < s.len(),
    ensures
        in_range(s.update(top, under as usize)),
        ranked(s.update(top, under as usize), lifted(s, r, top, under)),
        root_of(s.update(top, under as usize), i) == (if root_of(s, i) == top {
            under
        } else {
            root_of(s, i)
        }),
    decreases lifted(s, r, top, under)[i],
{
    let t = s.update(top, under as usize);
    let q = lifted(s, r, top, under);
    assert(ranked(t, q));
    if t[i] != i {
        lemma_link(s, r, top, under, t[i] as int);
    }
}

/// Disjoint sets over the numbers `0..len`.
pub struct UnionFind {
    father: Vec<usize>,
}

impl View for UnionFind {
    type V = Seq<int>;

    /// For each number, the representative of its set.
    open spec fn view(&self) -> Seq<int> {
        Seq::new(self.parents().len(), |i: int| root_of(self.parents(), i))
    }
}

impl UnionFind {
    /// The parent link of each number.
    pub closed spec fn parents(&self) -> Seq<usize> {
        self.father@
    }

    /// The parent links form a forest.
    pub open spec fn wf(&self) -> bool {
        forest(self.parents())
    }

    /// `cap` sets of one number each.
    pub fn new(cap: usize) -> (uf: UnionFind)
        ensures
            uf.wf(),
            uf.parents() == Seq::new(cap as nat, |i: int| i as usize),
            uf@ == Seq::new(cap as nat, |i: int| i),
    {
        let mut father: Vec<usize> = Vec::with_capacity(cap);
        let mut i: usize = 0;
        while i < cap
            invariant
                i <= cap,
                father@.len() == i,
                forall|j: int| 0 <= j < i ==> father@[j] == j,
            decreases cap - i,
        {
            father.push(i);
            i += 1;
        }
        let uf = UnionFind { father };
        proof {
            let s = uf.father@;
            let r = Seq::new(s.len(), |j: int| 0nat);
            assert(ranked(s, r));
        }
        uf
    }

    /// Joins the set of `x` into the set of `y`: every number whose
    /// representative was that of `x` gets the representative of `y`.
    /// `x` and `y` are linked straight to their old representatives, and
    /// that of `x` to that of `y`.
    pub fn union(&mut self, x: usize, y: usize)
        requires
            old(self).wf(),
            x < old(self)@.len(),
            y < old(self)@.len(),
        ensures
            final(self).wf(),
            final(self).parents() == old(self).parents().update(
                x as int,
                old(self)@[x as int] as usize,
            ).update(y as int, old(self)@[y as int] as usize).update(
                old(self)@[x as int],
                old(self)@[y as int] as usize,
            ),
            final(self)@ == Seq::new(
                old(self)@.len(),
                |i: int|
                    if old(self)@[i] == old(self)@[x as int] {
                        old(self)@[y as int]
                    } else {
                        old(self)@[i]
                    },
            ),
    {
        let x = self.find(x);
        let y = self.find(y);
        let ghost s = self.father@;
        let ghost r = choose|r: Seq<nat>| ranked(s, r);
        proof {
            lemma_root(s, r, x as int);
            lemma_root(s, r, y as int);
            if x != y {
                assert forall|i: int| 0 <= i < s.len() implies root_of(
                    s.update(x as int, y),
                    i,
                ) == (if root_of(s, i) == x {
                    y as int
                } else {
                    root_of(s, i)
                }) by {
                    lemma_link(s, r, x as int, y as int, i);
                }
                lemma_link(s, r, x as int, y as int, 0);
            } else {
                assert(s.update(x as int, y) =~= s);
            }
        }
        self.father[x] = y;
    }

    /// The representative of the set of `x`. The sets stay as they are;
    /// `x` is linked straight to its representative.
    pub fn find(&mut self, x: usize) -> (root: usize)
        requires
            old(self).wf(),
            x < old(self)@.len(),
        ensures
            final(self).wf(),
            root == old(self)@[x as int],
            root < old(self)@.len(),
            old(self)@[root as int] == root,
            final(self).parents() == old(self).parents().update(x as int, root),
            final(self)@ == old(self)@,
    {
        let ghost s = self.father@;
        let ghost r = choose|r: Seq<nat>| ranked(s, r);
        let mut fa = self.father[x];
        while self.father[fa] != fa
            invariant
                self.father@ == s,
                in_range(s),
                ranked(s, r),
                fa < s.len(),
                root_of(s, fa as int) == root_of(s, x as int),
            decreases r[fa as int],
        {
            fa = self.father[fa];
        }
        proof {
            assert forall|i: int| 0 <= i < s.len() implies root_of(s.update(x as int, fa), i)
                == root_of(s, i) by {
                lemma_compress(s, r, x as int, i);
            }
            lemma_compress(s, r, x as int, 0);
        }
        self.father[x] = fa;
        fa
    }
}

} // verus!
