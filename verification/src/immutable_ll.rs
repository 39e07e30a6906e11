//! A persistent singly-linked list with structural sharing.
//!
//! A node is immutable once constructed and is shared-owned, through a
//! reference count, by every list version whose chain includes it.
//! `prepend` and `tail` return new versions and leave the receiver
//! untouched, so any number of versions may reference overlapping
//! suffixes of the same chain.

use std::rc::Rc;
use vstd::prelude::*;

verus! {

/// An immutable sequence whose versions share unmodified suffixes.
pub struct ImmutableLinkedList<T> {
    head: Link<T>,
}

type Link<T> = Option<Rc<Node<T>>>;

struct Node<T> {
    val: T,
    next: Link<T>,
}

/// The sequence of values held in the chain starting at `link`,
/// front to back.
spec fn link_view<T>(link: Link<T>) -> Seq<T>
    decreases link,
{
    match link {
        None => Seq::empty(),
        Some(node) => seq![node.val] + link_view(node.next),
    }
}

/// The values exposed by the version `tail` constructs from a version
/// with values `w`: one step towards the back, except that an empty
/// version stays empty.
pub open spec fn tail_seq<T>(w: Seq<T>) -> Seq<T> {
    if w.len() == 0 {
        Seq::empty()
    } else {
        w.drop_first()
    }
}

impl<T> View for ImmutableLinkedList<T> {
    type V = Seq<T>;

    closed spec fn view(&self) -> Seq<T> {
        link_view(self.head)
    }
}

impl<T> ImmutableLinkedList<T> {
    /// Creates an empty list.
    pub fn new() -> (r: Self)
        ensures
            r@ == Seq::<T>::empty(),
    {
        ImmutableLinkedList { head: None }
    }

    /// Takes one more shared reference to the chain starting at `link`.
    fn clone_link(link: &Link<T>) -> (r: Link<T>)
        ensures
            r == *link,
    {
        match link {
            None => None,
            Some(rc) => Some(rc.clone()),
        }
    }

    /// Returns a new version whose front value is `val`, followed by
    /// every value of the receiver.  The receiver is left unmodified.
    pub fn prepend(&self, val: T) -> (r: ImmutableLinkedList<T>)
        ensures
            r@ == seq![val] + self@,
    {
        ImmutableLinkedList {
            head: Some(Rc::new(Node { val, next: Self::clone_link(&self.head) })),
        }
    }

    /// Returns a new version holding every value of the receiver but the
    /// front one.  On an empty receiver it returns the empty list again,
    /// never an error.
    pub fn tail(&self) -> (r: ImmutableLinkedList<T>)
        ensures
            r@ == tail_seq(self@),
    {
        match &self.head {
            None => ImmutableLinkedList { head: None },
            Some(rc) => ImmutableLinkedList { head: Self::clone_link(&rc.next) },
        }
    }

    /// Read-only access to the front value without constructing a new
    /// version.
    pub fn head(&self) -> (r: Option<&T>)
        ensures
            self@.len() == 0 ==> r is None,
            self@.len() > 0 ==> r == Some(&self@[0]),
    {
        match &self.head {
            None => None,
            Some(rc) => Some(&rc.val),
        }
    }

    /// Walks `index` steps forward from the chain starting at `link`.
    fn link_get<'a>(link: &'a Link<T>, index: usize) -> (r: Option<&'a T>)
        ensures
            index < link_view(*link).len() ==> r == Some(&link_view(*link)[index as int]),
            index >= link_view(*link).len() ==> r is None,
        decreases *link,
    {
        match link {
            None => None,
            Some(rc) => {
                if index == 0 {
                    Some(&rc.val)
                } else {
                    Self::link_get(&rc.next, index - 1)
                }
            }
        }
    }

    /// Returns the value at `index`, counting from the front, or `None`
    /// when `index` is out of range.  Linear walk from the head, without
    /// constructing a new version.
    pub fn get(&self, index: usize) -> (r: Option<&T>)
        ensures
            index < self@.len() ==> r == Some(&self@[index as int]),
            index >= self@.len() ==> r is None,
    {
        Self::link_get(&self.head, index)
    }

    /// A read-only iterator over the values, front to back.  It shares
    /// the chain without consuming or mutating it, so each call starts
    /// fresh from the head.
    pub fn iter(&self) -> (r: Iter<'_, T>)
        ensures
            r@ == self@,
    {
        Iter {
            next: match &self.head {
                None => None,
                Some(rc) => Some(&**rc),
            },
        }
    }
}

/// A read-only iterator over an [`ImmutableLinkedList`], yielding shared
/// references front to back.
pub struct Iter<'a, T> {
    next: Option<&'a Node<T>>,
}

impl<'a, T> View for Iter<'a, T> {
    type V = Seq<T>;

    closed spec fn view(&self) -> Seq<T> {
        match self.next {
            None => Seq::empty(),
            Some(node) => seq![node.val] + link_view(node.next),
        }
    }
}

impl<'a, T> Iter<'a, T> {
    /// Returns a reference to the next value, or `None` once every
    /// position has been visited.
    pub fn next(&mut self) -> (r: Option<&'a T>)
        ensures
            old(self)@.len() == 0 ==> r is None && final(self)@ == old(self)@,
            old(self)@.len() > 0 ==> r == Some(&old(self)@[0]) && final(self)@ == old(self)@.drop_first(),
    {
        match self.next {
            None => None,
            Some(node) => {
                self.next = match &node.next {
                    None => None,
                    Some(next_rc) => Some(&**next_rc),
                };
                proof {
                    assert(old(self)@.drop_first() =~= link_view(node.next));
                }
                Some(&node.val)
            }
        }
    }
}

/// Prepending `v` to a version with values `w` and then taking the tail
/// of the result exposes exactly `w` again.  In particular, for versions
/// built as L1 = L0.prepend(a) and L2 = L1.prepend(b), the values of
/// L2.tail() are the values of L1; and since `prepend` and `tail` take
/// their receiver by shared reference, extending any version further
/// never changes what another version exposes.
pub proof fn lemma_prepend_then_tail<T>(w: Seq<T>, v: T)
    ensures
        tail_seq(seq![v] + w) == w,
{
    assert(tail_seq(seq![v] + w) =~= w);
}

/// `tail` applied to an empty persistent list yields an empty list
/// again; since each application of `tail` to an empty list is empty,
/// any number of repeated applications stays empty, never an error.
pub proof fn lemma_tail_of_empty_is_empty<T>()
    ensures
        tail_seq(Seq::<T>::empty()) == Seq::<T>::empty(),
        tail_seq(tail_seq(Seq::<T>::empty())) == Seq::<T>::empty(),
{
}

/// Relies on std's Rc::into_inner: gives up one shared reference and
/// returns the held value exactly when that reference was the last
/// one.  The call neither panics nor unwinds, which vstd's own
/// specification of Rc::into_inner does not state; teardown code needs
/// that clause, so the call stands behind this wrapper.
#[verifier::external_body]
fn rc_release<T>(rc: Rc<T>) -> (r: Option<T>)
    ensures
        r matches Some(t) ==> t == rc,
    opens_invariants none
    no_unwind
{
    Rc::into_inner(rc)
}

/// Walks the chain starting at `link` iteratively, giving up each
/// node's shared reference in turn and stopping at the first node some
/// other version still owns.
fn release_chain<T>(link: Link<T>)
    opens_invariants none
    no_unwind
{
    let mut taken: Link<T> = link;
    loop
        decreases link_view(taken).len(),
    {
        match taken {
            None => {
                break;
            }
            Some(rc) => {
                match rc_release(rc) {
                    Some(node) => {
                        taken = node.next;
                    }
                    None => {
                        break;
                    }
                }
            }
        }
    }
}

impl<T> Drop for ImmutableLinkedList<T> {
    /// Tears the chain down iteratively rather than by nested-ownership
    /// recursion, so destruction of a long chain cannot exhaust the
    /// stack, and stops at the first node another version still needs.
    fn drop(&mut self)
        opens_invariants none
        no_unwind
    {
        let mut taken: Link<T> = None;
        std::mem::swap(&mut taken, &mut self.head);
        release_chain(taken);
    }
}

} // verus!
