//! The persistent list with atomically counted sharing.
//!
//! Same contract as [`crate::immutable_ll::ImmutableLinkedList`], but the
//! shared ownership of nodes is counted with atomic operations, so
//! versions may be handed to other threads.  Nodes are immutable once
//! constructed: no thread ever mutates a node another thread can
//! observe, so versions may be held, read and independently extended
//! from many threads at once without locking.

use std::sync::Arc;
use vstd::prelude::*;

use crate::immutable_ll::tail_seq;

verus! {

/// An immutable sequence whose versions share unmodified suffixes and
/// may cross thread boundaries.
pub struct ConcurrentImmutableLinkedList<T> {
    head: Link<T>,
}

type Link<T> = Option<Arc<Node<T>>>;

struct Node<T> {
    val: T,
    next: Link<T>,
}

/// The sequence of values held in the chain starting at `link`,
/// front to back.
spec fn link_view<T>(link: Link<T>) -> Seq<T>
    decreases link,
{
    match link {
        None => Seq::empty(),
        Some(node) => seq![node.val] + link_view(node.next),
    }
}

impl<T> View for ConcurrentImmutableLinkedList<T> {
    type V = Seq<T>;

    closed spec fn view(&self) -> Seq<T> {
        link_view(self.head)
    }
}

impl<T> ConcurrentImmutableLinkedList<T> {
    /// Creates an empty list.
    pub fn new() -> (r: Self)
        ensures
            r@ == Seq::<T>::empty(),
    {
        ConcurrentImmutableLinkedList { head: None }
    }

    /// Takes one more shared reference to the chain starting at `link`.
    fn clone_link(link: &Link<T>) -> (r: Link<T>)
        ensures
            r == *link,
    {
        match link {
            None => None,
            Some(arc) => Some(arc.clone()),
        }
    }

    /// Returns a new version whose front value is `val`, followed by
    /// every value of the receiver.  The receiver is left unmodified.
    pub fn prepend(&self, val: T) -> (r: ConcurrentImmutableLinkedList<T>)
        ensures
            r@ == seq![val] + self@,
    {
        ConcurrentImmutableLinkedList {
            head: Some(Arc::new(Node { val, next: Self::clone_link(&self.head) })),
        }
    }

    /// Returns a new version holding every value of the receiver but the
    /// front one.  On an empty receiver it returns the empty list again,
    /// never an error.
    pub fn tail(&self) -> (r: ConcurrentImmutableLinkedList<T>)
        ensures
            r@ == tail_seq(self@),
    {
        match &self.head {
            None => ConcurrentImmutableLinkedList { head: None },
            Some(arc) => ConcurrentImmutableLinkedList { head: Self::clone_link(&arc.next) },
        }
    }

    /// Read-only access to the front value without constructing a new
    /// version.
    pub fn head(&self) -> (r: Option<&T>)
        ensures
            self@.len() == 0 ==> r is None,
            self@.len() > 0 ==> r == Some(&self@[0]),
    {
        match &self.head {
            None => None,
            Some(arc) => Some(&arc.val),
        }
    }

    /// Walks `index` steps forward from the chain starting at `link`.
    fn link_get<'a>(link: &'a Link<T>, index: usize) -> (r: Option<&'a T>)
        ensures
            index < link_view(*link).len() ==> r == Some(&link_view(*link)[index as int]),
            index >= link_view(*link).len() ==> r is None,
        decreases *link,
    {
        match link {
            None => None,
            Some(arc) => {
                if index == 0 {
                    Some(&arc.val)
                } else {
                    Self::link_get(&arc.next, index - 1)
                }
            }
        }
    }

    /// Returns the value at `index`, counting from the front, or `None`
    /// when `index` is out of range.  Linear walk from the head, without
    /// constructing a new version.
    pub fn get(&self, index: usize) -> (r: Option<&T>)
        ensures
            index < self@.len() ==> r == Some(&self@[index as int]),
            index >= self@.len() ==> r is None,
    {
        Self::link_get(&self.head, index)
    }

    /// A second handle to the same version, for handing to another
    /// thread: both handles expose the same values and share the chain.
    pub fn fork(&self) -> (r: ConcurrentImmutableLinkedList<T>)
        ensures
            r@ == self@,
    {
        ConcurrentImmutableLinkedList { head: Self::clone_link(&self.head) }
    }

    /// A read-only iterator over the values, front to back.  It shares
    /// the chain without consuming or mutating it, so any number of
    /// independent iterations may run over the same version at once.
    pub fn iter(&self) -> (r: Iter<'_, T>)
        ensures
            r@ == self@,
    {
        Iter {
            next: match &self.head {
                None => None,
                Some(arc) => Some(&**arc),
            },
        }
    }
}

/// A read-only iterator over a [`ConcurrentImmutableLinkedList`],
/// yielding shared references front to back.
pub struct Iter<'a, T> {
    next: Option<&'a Node<T>>,
}

impl<'a, T> View for Iter<'a, T> {
    type V = Seq<T>;

    closed spec fn view(&self) -> Seq<T> {
        match self.next {
            None => Seq::empty(),
            Some(node) => seq![node.val] + link_view(node.next),
        }
    }
}

impl<'a, T> Iter<'a, T> {
    /// Returns a reference to the next value, or `None` once every
    /// position has been visited.
    pub fn next(&mut self) -> (r: Option<&'a T>)
        ensures
            old(self)@.len() == 0 ==> r is None && final(self)@ == old(self)@,
            old(self)@.len() > 0 ==> r == Some(&old(self)@[0]) && final(self)@ == old(self)@.drop_first(),
    {
        match self.next {
            None => None,
            Some(node) => {
                self.next = match &node.next {
                    None => None,
                    Some(next_arc) => Some(&**next_arc),
                };
                proof {
                    assert(old(self)@.drop_first() =~= link_view(node.next));
                }
                Some(&node.val)
            }
        }
    }
}

/// Relies on std's Arc::into_inner: gives up one shared reference,
/// atomically decrementing the count, and returns the held value exactly
/// when that reference was the last one.  The call neither panics nor
/// unwinds; vstd gives Arc::into_inner no specification, so the call
/// stands behind this wrapper.
#[verifier::external_body]
fn arc_release<T>(arc: Arc<T>) -> (r: Option<T>)
    ensures
        r matches Some(t) ==> t == arc,
    opens_invariants none
    no_unwind
{
    Arc::into_inner(arc)
}

/// Walks the chain starting at `link` iteratively, giving up each
/// node's shared reference in turn and stopping at the first node some
/// other version still owns.
fn release_chain<T>(link: Link<T>)
    opens_invariants none
    no_unwind
{
    let mut taken: Link<T> = link;
    loop
        decreases link_view(taken).len(),
    {
        match taken {
            None => {
                break;
            }
            Some(arc) => {
                match arc_release(arc) {
                    Some(node) => {
                        taken = node.next;
                    }
                    None => {
                        break;
                    }
                }
            }
        }
    }
}

impl<T> Drop for ConcurrentImmutableLinkedList<T> {
    /// Tears the chain down iteratively rather than by nested-ownership
    /// recursion, so destruction of a long chain cannot exhaust the
    /// stack, and stops at the first node another version still needs.
    fn drop(&mut self)
        opens_invariants none
        no_unwind
    {
        let mut taken: Link<T> = None;
        std::mem::swap(&mut taken, &mut self.head);
        release_chain(taken);
    }
}

} // verus!
