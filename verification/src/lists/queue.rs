//! A first-in, first-out queue as two singly linked lists: the front part
//! of the queue in the order in which it leaves, and the back part with the
//! newest element first. Elements enter at the back part in constant time,
//! and the back part is turned round into the front part when that one runs
//! out.

use vstd::prelude::*;

verus! {

/// A node of a list: an element and the rest of the list.
pub struct Node<T> {
    elem: T,
    next: Option<Box<Node<T>>>,
}

impl<T> View for Node<T> {
    type V = Seq<T>;

    /// The element of the node and those that follow it.
    closed spec fn view(&self) -> Seq<T> {
        seq![self.elem] + list_seq(self.next)
    }
}

/// The elements of the list that starts at `link`, first to last.
spec fn list_seq<T>(link: Option<Box<Node<T>>>) -> Seq<T>
    decreases link,
{
    match link {
        None => Seq::empty(),
        Some(node) => seq![node.elem] + list_seq(node.next),
    }
}

/// What the references of `refs` point to.
spec fn values<T>(refs: Seq<&T>) -> Seq<T> {
    Seq::new(refs.len(), |i: int| *refs[i])
}

/// The list with its nodes in the opposite order.
fn reversed<T>(link: Option<Box<Node<T>>>) -> (r: Option<Box<Node<T>>>)
    ensures
        list_seq(r) == list_seq(link).reverse(),
{
    let ghost whole = list_seq(link);
    let mut link = link;
    let mut out: Option<Box<Node<T>>> = None;
    loop
        invariant
            list_seq(link).reverse() + list_seq(out) == whole.reverse(),
        ensures
            link is None,
        decreases list_seq(link).len(),
    {
        match link {
            None => {
                link = None;
                break ;
            },
            Some(mut node) => {
                link = node.next.take();
                node.next = out;
                out = Some(node);
            },
        }
    }
    out
}

/// A first-in, first-out queue.
pub struct Queue<T> {
    head: Option<Box<Node<T>>>,
    tail: Option<Box<Node<T>>>,
}

impl<T> View for Queue<T> {
    type V = Seq<T>;

    /// The elements in the order in which they leave the queue.
    closed spec fn view(&self) -> Seq<T> {
        list_seq(self.head) + list_seq(self.tail).reverse()
    }
}

impl<T> Queue<T> {
    /// The back part holds elements only while the front part does, so the
    /// element that leaves next is always at hand.
    pub closed spec fn wf(&self) -> bool {
        self.head is None ==> self.tail is None
    }

    /// An empty queue.
    pub fn new() -> (queue: Queue<T>)
        ensures
            queue.wf(),
            queue@ == Seq::<T>::empty(),
    {
        let queue = Queue { head: None, tail: None };
        queue
    }

    /// Adds `elem` at the back of the queue.
    pub fn enqueue(&mut self, elem: T)
        requires
            old(self).wf(),
        ensures
            final(self).wf(),
            final(self)@ == old(self)@.push(elem),
    {
        if self.head.is_none() {
            self.head = Some(Box::new(Node { elem, next: None }));
        } else {
            let rest = self.tail.take();
            self.tail = Some(Box::new(Node { elem, next: rest }));
        }
    }

    /// Removes the element at the front of the queue and returns it, or
    /// returns `None` when the queue is empty.
    pub fn dequeue(&mut self) -> (r: Option<T>)
        requires
            old(self).wf(),
        ensures
            final(self).wf(),
            old(self)@.len() == 0 ==> r is None && final(self)@ == old(self)@,
            old(self)@.len() > 0 ==> r == Some(old(self)@[0]) && final(self)@ == old(
                self,
            )@.drop_first(),
    {
        match self.head.take() {
            None => {
                None
            },
            Some(node) => {
                let Node { elem, next } = *node;
                if next.is_none() {
                    let back = self.tail.take();
                    self.head = reversed(back);
                } else {
                    self.head = next;
                }
                Some(elem)
            },
        }
    }

    /// The element at the front of the queue, or `None` when the queue is
    /// empty.
    pub fn peek(&self) -> (r: Option<&T>)
        requires
            self.wf(),
        ensures
            self@.len() == 0 ==> r is None,
            self@.len() > 0 ==> r == Some(&self@[0]),
    {
        match &self.head {
            None => None,
            Some(head) => Some(&head.elem),
        }
    }

    /// The element at the front of the queue, to be changed in place, or
    /// `None` when the queue is empty.
    pub fn peek_mut(&mut self) -> (r: Option<&mut T>)
        requires
            old(self).wf(),
        ensures
            final(self).wf(),
            match r {
                Some(front) => old(self)@.len() > 0 && *front == old(self)@[0] && final(self)@
                    == old(self)@.update(0, *final(front)),
                None => old(self)@.len() == 0 && final(self)@ == old(self)@,
            },
    {
        match &mut self.head {
            None => None,
            Some(head) => {
                Some(&mut head.elem)
            },
        }
    }

    /// An iterator that takes the elements out of the queue, front first.
    pub fn into_iter(self) -> (it: IntoIter<T>)
        requires
            self.wf(),
        ensures
            it.wf(),
            it@ == self@,
    {
        IntoIter(self)
    }

    /// An iterator over the elements of the queue, front first.
    pub fn iter(&self) -> (it: Iter<'_, T>)
        ensures
            it@ == self@,
    {
        let mut rest: Vec<&T> = Vec::new();
        let mut cur = &self.tail;
        loop
            invariant
                values(rest@) + list_seq(*cur) == list_seq(self.tail),
            ensures
                *cur is None,
            decreases list_seq(*cur).len(),
        {
            match cur {
                None => {
                    break ;
                },
                Some(node) => {
                    rest.push(&node.elem);
                    cur = &node.next;
                },
            }
        }
        Iter {
            next: match &self.head {
                None => None,
                Some(head) => Some(&**head),
            },
            rest,
        }
    }

    /// An iterator over the elements of the queue, front first, through
    /// which they can be changed in place. It first turns the back part of
    /// the queue round and hangs it behind the front part.
    pub fn iter_mut(&mut self) -> (it: IterMut<'_, T>)
        ensures
            final(self).wf(),
            it@ == old(self)@,
            final(self)@ == (match it.next {
                None => Seq::<T>::empty(),
                Some(node) => final(node)@,
            }),
    {
        let back = reversed(self.tail.take());
        let ghost front = list_seq(self.head);
        let ghost mut done: Seq<T> = Seq::empty();
        let mut cur = &mut self.head;
        loop
            invariant
                done + list_seq(*cur) == front,
                list_seq(after_borrow(self.head)) == done + list_seq(*final(cur)),
            ensures
                *cur is None,
            decreases list_seq(*cur).len(),
        {
            match cur {
                None => {
                    break ;
                },
                Some(node) => {
                    proof {
                        done = done.push(node.elem);
                    }
                    cur = &mut node.next;
                },
            }
        }
        *cur = back;
        IterMut {
            next: match &mut self.head {
                None => None,
                Some(head) => Some(&mut **head),
            },
        }
    }
}

/// Frees the nodes of a list one after the other, first to last.
fn release<T>(link: Option<Box<Node<T>>>)
    opens_invariants none
    no_unwind
{
    let mut link = link;
    loop
        decreases list_seq(link).len(),
    {
        match link {
            None => {
                break ;
            },
            Some(node) => {
                let Node { elem: _, next } = *node;
                link = next;
            },
        }
    }
}

impl<T> Drop for Queue<T> {
    /// Frees the nodes one after the other.
    fn drop(&mut self)
        opens_invariants none
        no_unwind
    {
        let mut head: Option<Box<Node<T>>> = None;
        let mut tail: Option<Box<Node<T>>> = None;
        core::mem::swap(&mut head, &mut self.head);
        core::mem::swap(&mut tail, &mut self.tail);
        release(head);
        release(tail);
    }
}

/// An iterator that owns a queue and takes its elements out, front first.
pub struct IntoIter<T>(Queue<T>);

impl<T> View for IntoIter<T> {
    type V = Seq<T>;

    /// The elements that are still to come.
    closed spec fn view(&self) -> Seq<T> {
        self.0@
    }
}

impl<T> IntoIter<T> {
    /// The queue inside is well formed.
    pub closed spec fn wf(&self) -> bool {
        self.0.wf()
    }

    /// The next element, or `None` when none is left.
    pub fn next(&mut self) -> (r: Option<T>)
        requires
            old(self).wf(),
        ensures
            final(self).wf(),
            old(self)@.len() == 0 ==> r is None && final(self)@ == old(self)@,
            old(self)@.len() > 0 ==> r == Some(old(self)@[0]) && final(self)@ == old(
                self,
            )@.drop_first(),
    {
        self.0.dequeue()
    }
}

/// An iterator over the elements of a queue, front first.
pub struct Iter<'a, T> {
    next: Option<&'a Node<T>>,
    rest: Vec<&'a T>,
}

impl<'a, T> View for Iter<'a, T> {
    type V = Seq<T>;

    /// The elements that are still to come.
    closed spec fn view(&self) -> Seq<T> {
        (match self.next {
            None => Seq::empty(),
            Some(node) => seq![node.elem] + list_seq(node.next),
        }) + values(self.rest@).reverse()
    }
}

impl<'a, T> Iter<'a, T> {
    /// The next element, or `None` when none is left.
    pub fn next(&mut self) -> (r: Option<&'a T>)
        ensures
            old(self)@.len() == 0 ==> r is None && final(self)@ == old(self)@,
            old(self)@.len() > 0 ==> r == Some(&old(self)@[0]) && final(self)@ == old(
                self,
            )@.drop_first(),
    {
        match self.next.take() {
            None => self.rest.pop(),
            Some(node) => {
                self.next = match &node.next {
                    None => None,
                    Some(after) => Some(&**after),
                };
                Some(&node.elem)
            },
        }
    }
}

/// An iterator over the elements of a queue, front first, through which
/// they can be changed in place.
pub struct IterMut<'a, T> {
    /// The node whose element comes next.
    pub next: Option<&'a mut Node<T>>,
}

impl<'a, T> View for IterMut<'a, T> {
    type V = Seq<T>;

    /// The elements that are still to come, as they are now.
    open spec fn view(&self) -> Seq<T> {
        match self.next {
            None => Seq::empty(),
            Some(node) => node@,
        }
    }
}

impl<'a, T> IterMut<'a, T> {
    /// The next element, or `None` when none is left. What the list holds
    /// in the end, from this element on, is what is written through the
    /// reference, followed by what the rest of the iteration leaves.
    pub fn next(&mut self) -> (r: Option<&'a mut T>)
        ensures
            match r {
                None => old(self).next is None && final(self).next is None,
                Some(elem) => old(self)@.len() > 0 && *elem == old(self)@[0] && final(self)@
                    == old(self)@.drop_first() && final(old(self).next.unwrap())@ == seq![
                    *final(elem),
                ] + (match final(self).next {
                    None => Seq::<T>::empty(),
                    Some(node) => final(node)@,
                }),
            },
    {
        match self.next.take() {
            None => None,
            Some(node) => {
                self.next = match &mut node.next {
                    None => None,
                    Some(after) => Some(&mut **after),
                };
                Some(&mut node.elem)
            },
        }
    }
}

} // verus!
