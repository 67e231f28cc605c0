//! A persistent stack: pushing and popping give a new stack and leave the
//! old one as it was; the stacks share their common part.

use std::rc::Rc;
use vstd::prelude::*;

verus! {

struct Node<T> {
    val: T,
    next: Option<Rc<Node<T>>>,
}

/// The elements of the list that starts at `link`, top first.
spec fn link_seq<T>(link: Option<Rc<Node<T>>>) -> Seq<T>
    decreases link,
{
    match link {
        None => Seq::empty(),
        Some(node) => seq![node.val] + link_seq(node.next),
    }
}

/// Calls `Rc::clone`: the result is another handle to the node that `node`
/// points to.
#[verifier::external_body]
fn share<T>(node: &Rc<Node<T>>) -> (r: Rc<Node<T>>)
    ensures
        r == *node,
{
    Rc::clone(node)
}

/// Calls `Rc::try_unwrap`: the node itself where no other handle points to
/// it, and the handle back where one does. Beyond that, the contract claims
/// that the call neither unwinds nor opens an invariant, which a destructor
/// has to know of what it calls.
#[verifier::external_body]
fn sole_owner<T>(node: Rc<Node<T>>) -> (r: Result<Node<T>, Rc<Node<T>>>)
    ensures
        match r {
            Ok(inner) => inner == *node,
            Err(shared) => shared == node,
        },
    opens_invariants none
    no_unwind
{
    Rc::try_unwrap(node)
}

/// A copy of `link` that shares the nodes behind it.
fn share_link<T>(link: &Option<Rc<Node<T>>>) -> (r: Option<Rc<Node<T>>>)
    ensures
        r == *link,
{
    match link {
        None => None,
        Some(node) => Some(share(node)),
    }
}

/// A persistent stack.
pub struct List<T> {
    head: Option<Rc<Node<T>>>,
}

impl<T> View for List<T> {
    type V = Seq<T>;

    /// The elements, top first.
    closed spec fn view(&self) -> Seq<T> {
        link_seq(self.head)
    }
}

impl<T> List<T> {
    /// An empty stack.
    pub fn new() -> (list: List<T>)
        ensures
            list@ == Seq::<T>::empty(),
    {
        List { head: None }
    }

    /// The stack without its top element; the empty stack stays empty.
    pub fn pop(&self) -> (list: List<T>)
        ensures
            self@.len() == 0 ==> list@ == Seq::<T>::empty(),
            self@.len() > 0 ==> list@ == self@.drop_first(),
    {
        match &self.head {
            None => List { head: None },
            Some(node) => {
                List { head: share_link(&node.next) }
            },
        }
    }

    /// The stack with `val` on top of the elements of this one.
    pub fn push(&self, val: T) -> (list: List<T>)
        ensures
            list@ == seq![val] + self@,
    {
        List { head: Some(Rc::new(Node { val, next: share_link(&self.head) })) }
    }

    /// The top element, or `None` when the stack is empty.
    pub fn peek(&self) -> (r: Option<&T>)
        ensures
            self@.len() == 0 ==> r is None,
            self@.len() > 0 ==> r == Some(&self@[0]),
    {
        match &self.head {
            None => None,
            Some(node) => Some(&node.val),
        }
    }
}

impl<T> Drop for List<T> {
    /// Frees the nodes that no other stack shares, one after the other,
    /// top first, and stops at the first node that another stack holds.
    fn drop(&mut self)
        opens_invariants none
        no_unwind
    {
        let mut head: Option<Rc<Node<T>>> = None;
        core::mem::swap(&mut head, &mut self.head);
        loop
            decreases link_seq(head).len(),
        {
            match head {
                None => {
                    break ;
                },
                Some(node) => {
                    match sole_owner(node) {
                        Ok(inner) => {
                            let Node { val: _, next } = inner;
                            head = next;
                        },
                        Err(_) => {
                            break ;
                        },
                    }
                },
            }
        }
    }
}

} // verus!
