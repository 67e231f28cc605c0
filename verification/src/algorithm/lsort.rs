//! Quicksort on a singly linked list of `i32`.

use vstd::prelude::*;

verus! {

/// A node of the list: an element and the rest of the list.
pub struct ListNode {
    /// The element of the node.
    pub elem: i32,
    /// The rest of the list.
    pub next: Option<Box<ListNode>>,
}

/// The elements of the list that starts at `link`, first to last.
pub open spec fn list_seq(link: Option<Box<ListNode>>) -> Seq<i32>
    decreases link,
{
    match link {
        None => Seq::empty(),
        Some(node) => seq![node.elem] + list_seq(node.next),
    }
}

/// No element of `s` is followed by a smaller one.
pub open spec fn sorted(s: Seq<i32>) -> bool {
    forall|i: int, j: int| 0 <= i <= j < s.len() ==> s[i] <= s[j]
}

/// Every element of `s` is smaller than `p`.
pub open spec fn all_lt(s: Seq<i32>, p: i32) -> bool {
    forall|i: int| 0 <= i < s.len() ==> s[i] < p
}

/// No element of `s` is smaller than `p`.
pub open spec fn all_ge(s: Seq<i32>, p: i32) -> bool {
    forall|i: int| 0 <= i < s.len() ==> s[i] >= p
}

/// The elements of `[e] + s` are `e` and those of `s`.
proof fn lemma_cons_multiset(e: i32, s: Seq<i32>)
    ensures
        (seq![e] + s).to_multiset() == s.to_multiset().insert(e),
{
    vstd::seq_lib::lemma_multiset_commutative(seq![e], s);
    Seq::<i32>::empty().to_multiset_ensures();
}

/// Two sequences with the same elements have the same length and are on
/// the same side of every bound.
proof fn lemma_same_elems(a: Seq<i32>, b: Seq<i32>, p: i32)
    requires
        a.to_multiset() == b.to_multiset(),
    ensures
        a.len() == b.len(),
        all_lt(a, p) ==> all_lt(b, p),
        all_ge(a, p) ==> all_ge(b, p),
{
    a.to_multiset_ensures();
    b.to_multiset_ensures();
    assert forall|i: int| 0 <= i < b.len() implies a.contains(#[trigger] b[i]) by {
        assert(b.to_multiset().count(b[i]) > 0);
    }
}

/// Sorts the list: the result holds the elements of `head` in
/// non-decreasing order.
pub fn qsort(head: Option<Box<ListNode>>) -> (r: Option<Box<ListNode>>)
    ensures
        sorted(list_seq(r)),
        list_seq(r).to_multiset() == list_seq(head).to_multiset(),
    decreases list_seq(head).len(),
{
    if head.is_none() {
        return None;
    }
    let mut l1: Option<Box<ListNode>> = None;
    let mut l2: Option<Box<ListNode>> = None;
    let mut t1 = &mut l1;
    let mut t2 = &mut l2;
    let mut head = head.unwrap();
    let mut curr = head.next.take();
    let ghost pivot = head.elem;
    let ghost rest = list_seq(curr);
    let ghost mut d1: Seq<i32> = Seq::empty();
    let ghost mut d2: Seq<i32> = Seq::empty();
    proof {
        d1.to_multiset_ensures();
    }
    loop
        invariant
            head.elem == pivot,
            head.next is None,
            *t1 is None,
            *t2 is None,
            list_seq(after_borrow(l1)) == d1 + list_seq(*final(t1)),
            list_seq(after_borrow(l2)) == d2 + list_seq(*final(t2)),
            all_lt(d1, pivot),
            all_ge(d2, pivot),
            d1.to_multiset().add(d2.to_multiset()).add(list_seq(curr).to_multiset())
                == rest.to_multiset(),
        ensures
            curr is None,
        decreases list_seq(curr).len(),
    {
        match curr {
            None => {
                curr = None;
                break ;
            },
            Some(mut node) => {
                curr = node.next.take();
                let ghost e = node.elem;
                proof {
                    lemma_cons_multiset(e, list_seq(curr));
                }
                if node.elem < head.elem {
                    *t1 = Some(node);
                    match t1 {
                        None => {},
                        Some(last) => {
                            t1 = &mut last.next;
                        },
                    }
                    proof {
                        d1.to_multiset_ensures();
                        d1 = d1.push(e);
                    }
                } else {
                    *t2 = Some(node);
                    match t2 {
                        None => {},
                        Some(last) => {
                            t2 = &mut last.next;
                        },
                    }
                    proof {
                        d2.to_multiset_ensures();
                        d2 = d2.push(e);
                    }
                }
            },
        }
    }
    proof {
        d1.to_multiset_ensures();
        d2.to_multiset_ensures();
        rest.to_multiset_ensures();
    }
    let mut l1 = qsort(l1);
    let l2 = qsort(l2);
    let ghost s1 = list_seq(l1);
    let ghost s2 = list_seq(l2);
    proof {
        lemma_same_elems(d1, s1, pivot);
        lemma_same_elems(d2, s2, pivot);
        lemma_cons_multiset(pivot, s2);
        lemma_cons_multiset(pivot, rest);
        vstd::seq_lib::lemma_multiset_commutative(s1, seq![pivot] + s2);
    }
    head.next = l2;
    let mut cur = &mut l1;
    let ghost mut done: Seq<i32> = Seq::empty();
    loop
        invariant
            done + list_seq(*cur) == s1,
            list_seq(after_borrow(l1)) == done + list_seq(*final(cur)),
        ensures
            *cur is None,
        decreases list_seq(*cur).len(),
    {
        match cur {
            None => {
                break ;
            },
            Some(node) => {
                proof {
                    done = done.push(node.elem);
                }
                cur = &mut node.next;
            },
        }
    }
    *cur = Some(head);
    l1
}

/// Whether no element of the list is followed by a smaller one.
pub fn is_sorted(head: &Option<Box<ListNode>>) -> (r: bool)
    ensures
        r == sorted(list_seq(*head)),
{
    let ghost whole = list_seq(*head);
    let ghost mut done: Seq<i32> = Seq::empty();
    let mut curr = head;
    let mut prev = i32::MIN;
    loop
        invariant
            done + list_seq(*curr) == whole,
            sorted(done),
            done.len() > 0 ==> prev == done.last(),
            done.len() == 0 ==> prev == i32::MIN,
            whole == list_seq(*head),
        ensures
            *curr is None,
        decreases list_seq(*curr).len(),
    {
        match curr {
            None => {
                break ;
            },
            Some(node) => {
                if node.elem < prev {
                    proof {
                        let k = done.len() as int;
                        assert(whole[k - 1] == done[k - 1]);
                        assert(whole[k] == node.elem);
                    }
                    return false;
                }
                proof {
                    done = done.push(node.elem);
                }
                prev = node.elem;
                curr = &node.next;
            },
        }
    }
    true
}

/// Calls `rand::random::<i32>()`, which draws a number from the thread's
/// generator. Nothing is promised of the number.
#[verifier::external_body]
fn random_elem() -> i32 {
    rand::random()
}

/// A list of `len` random elements.
pub fn gen(len: usize) -> (r: Option<Box<ListNode>>)
    ensures
        list_seq(r).len() == len,
{
    let mut head: Option<Box<ListNode>> = None;
    let mut tail = &mut head;
    let ghost mut done: Seq<i32> = Seq::empty();
    let mut i: usize = 0;
    while i < len
        invariant
            i <= len,
            done.len() == i,
            *tail is None,
            list_seq(after_borrow(head)) == done + list_seq(*final(tail)),
        decreases len - i,
    {
        let val = random_elem();
        *tail = Some(Box::new(ListNode { elem: val, next: None }));
        match tail {
            None => {},
            Some(last) => {
                tail = &mut last.next;
            },
        }
        proof {
            done = done.push(val);
        }
        i += 1;
    }
    head
}

} // verus!
