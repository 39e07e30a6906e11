//! A singly-linked list with exclusively owned nodes.
//!
//! Every node is owned by exactly one reference: either the list's head
//! slot or the `next` slot of its predecessor.  The list is a LIFO stack:
//! `push` inserts at the front and `pop` removes from the front.  Its view
//! is the sequence of held values from front to back.

use vstd::prelude::*;

verus! {

/// A LIFO sequence with single-owner nodes.
pub struct LinkedList<T> {
    head: Link<T>,
}

type Link<T> = Option<Box<Node<T>>>;

/// One chain node, exclusively owned by the list's head slot or by its
/// predecessor's `next` slot.
pub struct Node<T> {
    val: T,
    next: Link<T>,
}

/// The sequence of values held in the node `n` and its successors,
/// front to back.
pub closed spec fn node_view<T>(n: Node<T>) -> Seq<T> {
    seq![n.val] + link_view(n.next)
}

/// The sequence of values held in the chain starting at `link`,
/// front to back.
spec fn link_view<T>(link: Link<T>) -> Seq<T>
    decreases link,
{
    match link {
        None => Seq::empty(),
        Some(node) => seq![node.val] + link_view(node.next),
    }
}

impl<T> View for LinkedList<T> {
    type V = Seq<T>;

    closed spec fn view(&self) -> Seq<T> {
        link_view(self.head)
    }
}

impl<T> LinkedList<T> {
    /// Creates an empty list.
    pub fn new() -> (r: Self)
        ensures
            r@ == Seq::<T>::empty(),
    {
        LinkedList { head: None }
    }

    /// Inserts `val` at the front of the list.
    pub fn push(&mut self, val: T)
        ensures
            final(self)@ == seq![val] + old(self)@,
    {
        let mut taken: Link<T> = None;
        std::mem::swap(&mut taken, &mut self.head);
        let new = Box::new(Node { val, next: taken });
        self.head = Some(new);
    }

    /// Removes and returns the front value, or `None` when the list
    /// is empty.
    pub fn pop(&mut self) -> (r: Option<T>)
        ensures
            old(self)@.len() == 0 ==> r is None && final(self)@ == old(self)@,
            old(self)@.len() > 0 ==> r == Some(old(self)@[0]) && final(self)@ == old(self)@.drop_first(),
    {
        let mut taken: Link<T> = None;
        std::mem::swap(&mut taken, &mut self.head);
        match taken {
            None => None,
            Some(node) => {
                let node = *node;
                self.head = node.next;
                Some(node.val)
            }
        }
    }

    /// Read-only access to the front value without removing it.
    pub fn peek(&self) -> (r: Option<&T>)
        ensures
            self@.len() == 0 ==> r is None,
            self@.len() > 0 ==> r == Some(&self@[0]),
    {
        match &self.head {
            None => None,
            Some(node) => Some(&node.val),
        }
    }

    /// Walks `index` steps forward from the chain starting at `link`.
    fn link_get<'a>(link: &'a Link<T>, index: usize) -> (r: Option<&'a T>)
        ensures
            index < link_view(*link).len() ==> r == Some(&link_view(*link)[index as int]),
            index >= link_view(*link).len() ==> r is None,
        decreases *link,
    {
        match link {
            None => None,
            Some(node) => {
                if index == 0 {
                    Some(&node.val)
                } else {
                    Self::link_get(&node.next, index - 1)
                }
            }
        }
    }

    /// Returns the value at `index`, counting from the front, or `None`
    /// when `index` is out of range.  Linear forward scan from the head.
    pub fn get(&self, index: usize) -> (r: Option<&T>)
        ensures
            index < self@.len() ==> r == Some(&self@[index as int]),
            index >= self@.len() ==> r is None,
    {
        Self::link_get(&self.head, index)
    }

    /// Walks `index` steps forward from the chain starting at `link`,
    /// handing out exclusive access to the value there.
    fn link_get_mut<'a>(link: &'a mut Link<T>, index: usize) -> (r: Option<&'a mut T>)
        ensures
            index < link_view(*old(link)).len() ==> r is Some
                && *r.unwrap() == link_view(*old(link))[index as int]
                && link_view(*final(link)) == link_view(*old(link)).update(
                index as int,
                *final(r.unwrap()),
            ),
            index >= link_view(*old(link)).len() ==> r is None && *final(link) == *old(link),
        decreases *old(link),
    {
        match link {
            None => None,
            Some(node) => {
                if index == 0 {
                    Some(&mut node.val)
                } else {
                    Self::link_get_mut(&mut node.next, index - 1)
                }
            }
        }
    }

    /// Exclusive access to the value at `index`, or `None` when `index`
    /// is out of range.  Writing through the returned reference replaces
    /// exactly the value at that position.
    pub fn get_mut(&mut self, index: usize) -> (r: Option<&mut T>)
        ensures
            index < old(self)@.len() ==> r is Some
                && *r.unwrap() == old(self)@[index as int]
                && final(self)@ == old(self)@.update(index as int, *final(r.unwrap())),
            index >= old(self)@.len() ==> r is None && final(self)@ == old(self)@,
    {
        Self::link_get_mut(&mut self.head, index)
    }

    /// An iterator handing out exclusive references to the values, front
    /// to back, once per position.  A fresh call re-derives from the
    /// current head, so a completed pass may be followed by another.
    /// Once the iterator is spent, the list finally holds the final
    /// values of the chain the iterator walked.
    pub fn iter_mut(&mut self) -> (r: IterMut<'_, T>)
        ensures
            r@ == old(self)@,
            r.remaining() is None <==> r@.len() == 0,
            final(self)@ == (if r.remaining() is Some {
                node_view(*final(r.remaining().unwrap()))
            } else {
                Seq::<T>::empty()
            }),
    {
        IterMut {
            next: match &mut self.head {
                None => None,
                Some(node) => Some(&mut **node),
            },
        }
    }

    /// Turns the list into a consuming iterator that drains it from
    /// the front.
    pub fn into_iter(self) -> (r: IntoIter<T>)
        ensures
            r@ == self@,
    {
        IntoIter { ll: self }
    }

    /// A read-only iterator over the values, front to back.  Each call
    /// starts fresh from the current head, so iteration is restartable.
    pub fn iter(&self) -> (r: Iter<'_, T>)
        ensures
            r@ == self@,
    {
        Iter {
            next: match &self.head {
                None => None,
                Some(node) => Some(&**node),
            },
        }
    }
}

/// A consuming iterator over a [`LinkedList`]; each step removes and
/// returns the current front value.
pub struct IntoIter<T> {
    ll: LinkedList<T>,
}

impl<T> View for IntoIter<T> {
    type V = Seq<T>;

    closed spec fn view(&self) -> Seq<T> {
        self.ll@
    }
}

impl<T> IntoIter<T> {
    /// Removes and returns the next value from the front, or `None`
    /// once the list is drained.
    pub fn next(&mut self) -> (r: Option<T>)
        ensures
            old(self)@.len() == 0 ==> r is None && final(self)@ == old(self)@,
            old(self)@.len() > 0 ==> r == Some(old(self)@[0]) && final(self)@ == old(self)@.drop_first(),
    {
        self.ll.pop()
    }
}

/// A read-only iterator over a [`LinkedList`], yielding shared references
/// front to back without consuming the list.
pub struct Iter<'a, T> {
    next: Option<&'a Node<T>>,
}

impl<'a, T> View for Iter<'a, T> {
    type V = Seq<T>;

    closed spec fn view(&self) -> Seq<T> {
        match self.next {
            None => Seq::empty(),
            Some(node) => seq![node.val] + link_view(node.next),
        }
    }
}

impl<'a, T> Iter<'a, T> {
    /// Returns a reference to the next value, or `None` once every
    /// position has been visited.
    pub fn next(&mut self) -> (r: Option<&'a T>)
        ensures
            old(self)@.len() == 0 ==> r is None && final(self)@ == old(self)@,
            old(self)@.len() > 0 ==> r == Some(&old(self)@[0]) && final(self)@ == old(self)@.drop_first(),
    {
        match self.next {
            None => None,
            Some(node) => {
                self.next = match &node.next {
                    None => None,
                    Some(next_node) => Some(&**next_node),
                };
                proof {
                    assert(old(self)@.drop_first() =~= link_view(node.next));
                }
                Some(&node.val)
            }
        }
    }
}

/// An iterator over a [`LinkedList`] yielding exclusive references,
/// front to back.  Its view is the sequence of values not yet visited;
/// `remaining` exposes the node it currently points into, so that the
/// values a caller writes through the yielded references can be traced
/// back to the list.
pub struct IterMut<'a, T> {
    next: Option<&'a mut Node<T>>,
}

impl<'a, T> View for IterMut<'a, T> {
    type V = Seq<T>;

    closed spec fn view(&self) -> Seq<T> {
        match self.next {
            None => Seq::empty(),
            Some(node) => seq![node.val] + link_view(node.next),
        }
    }
}

impl<'a, T> IterMut<'a, T> {
    /// The reference into the first not-yet-visited node, or `None`
    /// once every position has been visited.
    pub closed spec fn remaining(self) -> Option<&'a mut Node<T>> {
        self.next
    }

    /// Returns an exclusive reference to the next value, or `None` once
    /// every position has been visited.  The node left behind finally
    /// holds whatever the caller writes through the reference, followed
    /// by the final values of the rest of the chain.
    pub fn next(&mut self) -> (r: Option<&'a mut T>)
        ensures
            old(self)@.len() == 0 ==> r is None && final(self)@ == old(self)@
                && final(self).remaining() == old(self).remaining(),
            final(self).remaining() is None <==> final(self)@.len() == 0,
            old(self)@.len() > 0 ==> r is Some && *r.unwrap() == old(self)@[0]
                && final(self)@ == old(self)@.drop_first()
                && old(self).remaining() is Some
                && node_view(*final(old(self).remaining().unwrap()))
                == seq![*final(r.unwrap())] + (if final(self).remaining() is Some {
                node_view(*final(final(self).remaining().unwrap()))
            } else {
                Seq::<T>::empty()
            }),
    {
        let mut taken: Option<&'a mut Node<T>> = None;
        std::mem::swap(&mut taken, &mut self.next);
        match taken {
            None => None,
            Some(node) => {
                let val_ref = &mut node.val;
                self.next = match &mut node.next {
                    None => None,
                    Some(next_node) => Some(&mut **next_node),
                };
                Some(val_ref)
            }
        }
    }
}

/// The view of a list after pushing the values of `vs`, in order, onto
/// a list whose view is `w`: each push places its value at the front,
/// exactly as `push` (and the doubly-linked list's `push_front`)
/// ensures.
pub open spec fn push_all<T>(w: Seq<T>, vs: Seq<T>) -> Seq<T>
    decreases vs.len(),
{
    if vs.len() == 0 {
        w
    } else {
        push_all(seq![vs[0]] + w, vs.drop_first())
    }
}

/// The values returned by popping from the front until the list is
/// empty, in order: each pop returns the current front value and leaves
/// the rest, exactly as `pop` (and the doubly-linked list's `pop_front`)
/// ensures.
pub open spec fn front_drain<T>(w: Seq<T>) -> Seq<T>
    decreases w.len(),
{
    if w.len() == 0 {
        Seq::empty()
    } else {
        seq![w[0]] + front_drain(w.drop_first())
    }
}

/// Popping a list from the front until empty returns exactly its values
/// in view order.
pub proof fn lemma_front_drain_is_view<T>(w: Seq<T>)
    ensures
        front_drain(w) == w,
    decreases w.len(),
{
    if w.len() == 0 {
        assert(front_drain(w) =~= w);
    } else {
        lemma_front_drain_is_view(w.drop_first());
        assert(front_drain(w) =~= w);
    }
}

/// Pushing the values of `vs` one after another onto a list with view
/// `w` leaves the values of `vs` in reverse order at the front.
pub proof fn lemma_push_all_reverses<T>(w: Seq<T>, vs: Seq<T>)
    ensures
        push_all(w, vs) == vs.reverse() + w,
    decreases vs.len(),
{
    if vs.len() == 0 {
        assert(push_all(w, vs) =~= vs.reverse() + w);
    } else {
        lemma_push_all_reverses(seq![vs[0]] + w, vs.drop_first());
        assert(vs.drop_first().reverse() + (seq![vs[0]] + w) =~= vs.reverse() + w);
    }
}

/// LIFO order: pushing the values v1..vn onto an empty list and then
/// popping from the front until empty yields vn..v1, the reverse of the
/// insertion order.  This holds for the exclusive list's `push`/`pop`
/// and equally for the doubly-linked list's front operations, whose
/// contracts make the same view transitions.
pub proof fn lemma_lifo_order<T>(vs: Seq<T>)
    ensures
        front_drain(push_all(Seq::empty(), vs)) == vs.reverse(),
{
    lemma_push_all_reverses(Seq::empty(), vs);
    assert(push_all(Seq::empty(), vs) =~= vs.reverse());
    lemma_front_drain_is_view(vs.reverse());
}

impl<T> Drop for LinkedList<T> {
    /// Unlinks nodes head-to-tail iteratively, so teardown uses constant
    /// stack depth however long the chain is.
    fn drop(&mut self)
        opens_invariants none
        no_unwind
    {
        let mut taken: Link<T> = None;
        std::mem::swap(&mut taken, &mut self.head);
        loop
            decreases taken,
        {
            match taken {
                None => {
                    break;
                }
                Some(node) => {
                    let node = *node;
                    taken = node.next;
                }
            }
        }
    }
}

} // verus!
