//! A doubly-linked list supporting pushes and pops at both ends.
//!
//! Interior nodes of a doubly-linked list are reachable from two
//! neighbours at once, so the nodes live in an index-linked arena: a
//! growable table of slots whose `prev` and `next` links are indices
//! into the table, with a free list of vacated slots.  Linking by index
//! keeps every slot owned by the table alone, so no ownership cycle can
//! form and teardown is a plain table drop.  The well-formedness
//! invariant carries a ghost sequence of the occupied slot indices from
//! front to back and ties both link directions to it.
//!
//! Indexing is deliberately unsupported: only sequential insertion and
//! removal at the two ends is exposed.
//!
//! With dual strong references a removal would have to assert at run
//! time that the unlinked node has exactly one owner left before its
//! value can be extracted.  Here that bookkeeping is part of the proved
//! invariant: the slot being vacated demonstrably still holds its value,
//! so the extraction cannot fail and no run-time ownership check is
//! needed.

use vstd::prelude::*;

use crate::ll::lemma_push_all_reverses;
use crate::ll::push_all;

verus! {

/// One arena slot: a held value with its neighbour links, or a vacant
/// slot (`val` is `None`) awaiting reuse through the free list.
struct Slot<T> {
    val: Option<T>,
    prev: Option<usize>,
    next: Option<usize>,
}

/// A sequence with O(1) insertion and removal at both ends.
pub struct DoublyLinkedList<T> {
    nodes: Vec<Slot<T>>,
    free: Vec<usize>,
    head: Option<usize>,
    tail: Option<usize>,
    chain: Ghost<Seq<usize>>,
}

impl<T> View for DoublyLinkedList<T> {
    type V = Seq<T>;

    closed spec fn view(&self) -> Seq<T> {
        Seq::new(self.chain@.len(), |i: int| self.slot_at(i).val.unwrap())
    }
}

impl<T> DoublyLinkedList<T> {
    /// The slot holding the `i`-th value, counting from the front.
    spec fn slot_at(self, i: int) -> Slot<T> {
        self.nodes@[self.chain@[i] as int]
    }

    /// The slot of the `i`-th chain position is occupied and linked to
    /// its chain neighbours in both directions.
    spec fn link_ok(self, i: int) -> bool {
        &&& self.chain@[i] < self.nodes@.len()
        &&& self.slot_at(i).val is Some
        &&& self.slot_at(i).prev == (if i == 0 {
            Option::<usize>::None
        } else {
            Some(self.chain@[i - 1])
        })
        &&& self.slot_at(i).next == (if i == self.chain@.len() - 1 {
            Option::<usize>::None
        } else {
            Some(self.chain@[i + 1])
        })
    }

    /// The `k`-th free-list entry names a vacant slot of the table.
    spec fn free_ok(self, k: int) -> bool {
        &&& self.free@[k] < self.nodes@.len()
        &&& self.nodes@[self.free@[k] as int].val is None
    }

    /// Well-formedness: the ghost chain lists distinct occupied slots
    /// linked to their neighbours in both directions, the head and tail
    /// slots mirror the chain's ends, and the free list holds distinct
    /// vacant slots.
    pub closed spec fn wf(self) -> bool {
        &&& forall|i: int| 0 <= i < self.chain@.len() ==> #[trigger] self.link_ok(i)
        &&& forall|i: int, j: int|
            0 <= i < j < self.chain@.len() ==> self.chain@[i] != self.chain@[j]
        &&& self.head == (if self.chain@.len() == 0 {
            Option::<usize>::None
        } else {
            Some(self.chain@[0])
        })
        &&& self.tail == (if self.chain@.len() == 0 {
            Option::<usize>::None
        } else {
            Some(self.chain@[self.chain@.len() - 1])
        })
        &&& forall|k: int| 0 <= k < self.free@.len() ==> #[trigger] self.free_ok(k)
        &&& forall|k: int, l: int| 0 <= k < l < self.free@.len() ==> self.free@[k] != self.free@[l]
    }

    /// Creates an empty list.
    pub fn new() -> (r: Self)
        ensures
            r.wf(),
            r@ == Seq::<T>::empty(),
    {
        let r = DoublyLinkedList {
            nodes: Vec::new(),
            free: Vec::new(),
            head: None,
            tail: None,
            chain: Ghost(Seq::empty()),
        };
        proof {
            assert(r@ =~= Seq::<T>::empty());
        }
        r
    }

    /// Stores `val` with the given links in a vacant slot, reusing one
    /// from the free list when it has any, and returns the slot's index.
    /// The chain, its slots, and the list's ends are untouched.
    fn reserve_slot(&mut self, val: T, prev: Option<usize>, next: Option<usize>) -> (idx: usize)
        requires
            old(self).wf(),
        ensures
            final(self).wf(),
            final(self).chain == old(self).chain,
            final(self).head == old(self).head,
            final(self).tail == old(self).tail,
            old(self).nodes@.len() <= final(self).nodes@.len(),
            idx < final(self).nodes@.len(),
            final(self).nodes@[idx as int].val == Some(val),
            final(self).nodes@[idx as int].prev == prev,
            final(self).nodes@[idx as int].next == next,
            forall|j: int|
                0 <= j < old(self).nodes@.len() && j != idx ==> final(self).nodes@[j] == old(
                    self,
                ).nodes@[j],
            forall|i: int| 0 <= i < old(self).chain@.len() ==> old(self).chain@[i] != idx,
            final(self)@ == old(self)@,
    {
        let slot = Slot { val: Some(val), prev, next };
        let idx: usize;
        match self.free.pop() {
            Some(f) => {
                proof {
                    assert(old(self).free_ok(old(self).free@.len() - 1));
                    assert(old(self).nodes@[f as int].val is None);
                }
                self.nodes[f] = slot;
                idx = f;
                proof {
                    assert forall|i: int| 0 <= i < self.chain@.len() implies #[trigger] self
                        .link_ok(i) && self.slot_at(i) == old(self).slot_at(i) && old(
                        self,
                    ).chain@[i] != idx by {
                        assert(old(self).link_ok(i));
                        assert(old(self).slot_at(i).val is Some);
                    }
                    assert forall|k: int| 0 <= k < self.free@.len() implies #[trigger] self
                        .free_ok(k) && self.free@[k] == old(self).free@[k] by {
                        assert(old(self).free_ok(k));
                        assert(old(self).free@[k] != f);
                    }
                    assert(self.wf());
                    assert forall|i: int| 0 <= i < self.chain@.len() implies (#[trigger] self
                        .slot_at(i)) == old(self).slot_at(i) by {
                        assert(self.link_ok(i));
                    }
                    assert(self@ =~= old(self)@);
                    assert forall|i: int| 0 <= i < old(self).chain@.len() implies #[trigger] old(
                        self,
                    ).chain@[i] != idx by {
                        assert(old(self).link_ok(i));
                        assert(old(self).slot_at(i).val is Some);
                    }
                }
            }
            None => {
                idx = self.nodes.len();
                self.nodes.push(slot);
                proof {
                    assert forall|i: int| 0 <= i < self.chain@.len() implies #[trigger] self
                        .link_ok(i) && self.slot_at(i) == old(self).slot_at(i) && old(
                        self,
                    ).chain@[i] != idx by {
                        assert(old(self).link_ok(i));
                        assert(old(self).chain@[i] < idx);
                    }
                    assert forall|k: int| 0 <= k < self.free@.len() implies #[trigger] self
                        .free_ok(k) by {
                        assert(old(self).free_ok(k));
                    }
                    assert(self.wf());
                    assert forall|i: int| 0 <= i < self.chain@.len() implies (#[trigger] self
                        .slot_at(i)) == old(self).slot_at(i) by {
                        assert(self.link_ok(i));
                    }
                    assert(self@ =~= old(self)@);
                    assert forall|i: int| 0 <= i < old(self).chain@.len() implies #[trigger] old(
                        self,
                    ).chain@[i] != idx by {
                        assert(old(self).link_ok(i));
                    }
                }
            }
        }
        idx
    }

    /// Inserts `val` at the front of the list.
    pub fn push_front(&mut self, val: T)
        requires
            old(self).wf(),
        ensures
            final(self).wf(),
            final(self)@ == seq![val] + old(self)@,
    {
        let h = self.head;
        let idx = self.reserve_slot(val, None, h);
        let ghost m = *self;
        match h {
            Some(old_head) => {
                proof {
                    assert(old(self).link_ok(0));
                    assert(old_head == old(self).chain@[0]);
                    assert(old(self).chain@[0] != idx);
                    assert(m.nodes@[old_head as int] == old(self).nodes@[old_head as int]);
                }
                let slot = &mut self.nodes[old_head];
                slot.prev = Some(idx);
            }
            None => {
                self.tail = Some(idx);
            }
        }
        self.head = Some(idx);
        self.chain = Ghost(seq![idx] + self.chain@);
        proof {
            let pre = *old(self);
            let c0 = pre.chain@;
            let n = c0.len() as int;
            let c1 = self.chain@;
            assert(c1 == seq![idx] + c0);
            assert(c1[0] == idx);
            if n > 0 {
                let oh = h.unwrap() as int;
                assert(oh == c0[0]);
                assert(self.nodes@[oh].prev == Some(idx));
                assert(self.nodes@[oh].val == m.nodes@[oh].val);
                assert(self.nodes@[oh].next == m.nodes@[oh].next);
                assert forall|i: int| 0 <= i < c1.len() implies #[trigger] self.link_ok(i) && (i
                    >= 1 ==> self.slot_at(i).val == pre.slot_at(i - 1).val) && (i == 0
                    ==> self.slot_at(0).val == Some(val)) by {
                    assert(c1[i] == (if i == 0 { idx } else { c0[i - 1] }));
                    if i == 0 {
                        assert(idx != oh);
                        assert(self.nodes@[idx as int] == m.nodes@[idx as int]);
                        assert(c1[1] == c0[0]);
                    } else if i == 1 {
                        assert(pre.link_ok(0));
                        assert(m.nodes@[oh] == pre.nodes@[oh]);
                        if n > 1 {
                            assert(c1[2] == c0[1]);
                        }
                    } else {
                        assert(pre.link_ok(i - 1));
                        let s = c0[i - 1] as int;
                        assert(pre.slot_at(i - 1).val is Some);
                        assert(s != idx);
                        assert(c0[i - 1] != c0[0]);
                        assert(self.nodes@[s] == m.nodes@[s]);
                        assert(m.nodes@[s] == pre.nodes@[s]);
                        assert(c1[i - 1] == c0[i - 2]);
                        if i < c1.len() - 1 {
                            assert(c1[i + 1] == c0[i]);
                        }
                    }
                }
                assert forall|i: int, j: int| 0 <= i < j < c1.len() implies c1[i] != c1[j] by {
                    if i == 0 {
                        assert(c1[j] == c0[j - 1]);
                    } else {
                        assert(c1[i] == c0[i - 1]);
                        assert(c1[j] == c0[j - 1]);
                    }
                }
                assert forall|k: int| 0 <= k < self.free@.len() implies #[trigger] self.free_ok(
                    k,
                ) by {
                    assert(m.free_ok(k));
                    assert(m.nodes@[oh].val is Some);
                    assert(self.free@[k] != h.unwrap());
                    assert(self.nodes@[self.free@[k] as int] == m.nodes@[self.free@[k] as int]);
                }
                assert(c1[c1.len() - 1] == c0[n - 1]);
                assert(self.wf());
                assert forall|i: int| 0 <= i < c1.len() implies (#[trigger] self.slot_at(
                    i,
                )).val == (if i == 0 {
                    Some(val)
                } else {
                    pre.slot_at(i - 1).val
                }) by {
                    assert(self.link_ok(i));
                }
                assert(self@ =~= seq![val] + pre@);
            } else {
                assert(c1 =~= seq![idx]);
                assert forall|i: int| 0 <= i < c1.len() implies #[trigger] self.link_ok(i) by {
                    assert(c1[0] == idx);
                    assert(self.nodes@ == m.nodes@);
                }
                assert forall|k: int| 0 <= k < self.free@.len() implies #[trigger] self.free_ok(
                    k,
                ) by {
                    assert(m.free_ok(k));
                }
                assert(self.wf());
                assert(self@ =~= seq![val] + pre@);
            }
        }
    }

    /// Inserts `val` at the back of the list.
    pub fn push_back(&mut self, val: T)
        requires
            old(self).wf(),
        ensures
            final(self).wf(),
            final(self)@ == old(self)@ + seq![val],
    {
        let t = self.tail;
        let idx = self.reserve_slot(val, t, None);
        let ghost m = *self;
        match t {
            Some(old_tail) => {
                proof {
                    assert(old(self).link_ok(old(self).chain@.len() - 1));
                    assert(old_tail == old(self).chain@[old(self).chain@.len() - 1]);
                    assert(old(self).chain@[old(self).chain@.len() - 1] != idx);
                    assert(m.nodes@[old_tail as int] == old(self).nodes@[old_tail as int]);
                }
                let slot = &mut self.nodes[old_tail];
                slot.next = Some(idx);
            }
            None => {
                self.head = Some(idx);
            }
        }
        self.tail = Some(idx);
        self.chain = Ghost(self.chain@ + seq![idx]);
        proof {
            let pre = *old(self);
            let c0 = pre.chain@;
            let n = c0.len() as int;
            let c1 = self.chain@;
            assert(c1 == c0 + seq![idx]);
            assert(c1[n] == idx);
            if n > 0 {
                let ot = t.unwrap() as int;
                assert(ot == c0[n - 1]);
                assert(self.nodes@[ot].next == Some(idx));
                assert(self.nodes@[ot].val == m.nodes@[ot].val);
                assert(self.nodes@[ot].prev == m.nodes@[ot].prev);
                assert forall|i: int| 0 <= i < c1.len() implies #[trigger] self.link_ok(i) && (i
                    < n ==> self.slot_at(i).val == pre.slot_at(i).val) && (i == n
                    ==> self.slot_at(n).val == Some(val)) by {
                    assert(c1[i] == (if i == n { idx } else { c0[i] }));
                    if i == n {
                        assert(idx != ot);
                        assert(self.nodes@[idx as int] == m.nodes@[idx as int]);
                        assert(c1[n - 1] == c0[n - 1]);
                    } else if i == n - 1 {
                        assert(pre.link_ok(n - 1));
                        assert(m.nodes@[ot] == pre.nodes@[ot]);
                        if n > 1 {
                            assert(c1[n - 2] == c0[n - 2]);
                        }
                    } else {
                        assert(pre.link_ok(i));
                        let s = c0[i] as int;
                        assert(pre.slot_at(i).val is Some);
                        assert(s != idx);
                        assert(c0[i] != c0[n - 1]);
                        assert(self.nodes@[s] == m.nodes@[s]);
                        assert(m.nodes@[s] == pre.nodes@[s]);
                        if i > 0 {
                            assert(c1[i - 1] == c0[i - 1]);
                        }
                        assert(c1[i + 1] == c0[i + 1]);
                    }
                }
                assert forall|i: int, j: int| 0 <= i < j < c1.len() implies c1[i] != c1[j] by {
                    if j == n {
                        assert(c1[i] == c0[i]);
                    } else {
                        assert(c1[i] == c0[i]);
                        assert(c1[j] == c0[j]);
                    }
                }
                assert forall|k: int| 0 <= k < self.free@.len() implies #[trigger] self.free_ok(
                    k,
                ) by {
                    assert(m.free_ok(k));
                    assert(m.nodes@[ot].val is Some);
                    assert(self.free@[k] != t.unwrap());
                    assert(self.nodes@[self.free@[k] as int] == m.nodes@[self.free@[k] as int]);
                }
                assert(self.wf());
                assert forall|i: int| 0 <= i < c1.len() implies (#[trigger] self.slot_at(
                    i,
                )).val == (if i == n {
                    Some(val)
                } else {
                    pre.slot_at(i).val
                }) by {
                    assert(self.link_ok(i));
                }
                assert(self@ =~= pre@ + seq![val]);
            } else {
                assert(c1 =~= seq![idx]);
                assert forall|i: int| 0 <= i < c1.len() implies #[trigger] self.link_ok(i) by {
                    assert(c1[0] == idx);
                    assert(self.nodes@ == m.nodes@);
                }
                assert forall|k: int| 0 <= k < self.free@.len() implies #[trigger] self.free_ok(
                    k,
                ) by {
                    assert(m.free_ok(k));
                }
                assert(self.wf());
                assert forall|i: int| 0 <= i < c1.len() implies (#[trigger] self.slot_at(
                    i,
                )).val == (if i == n {
                    Some(val)
                } else {
                    pre.slot_at(i).val
                }) by {
                    assert(self.link_ok(i));
                }
                assert(self@ =~= pre@ + seq![val]);
            }
        }
    }
    /// Removes and returns the front value, or `None` when the list is
    /// empty.  Removing the only remaining value clears both the head
    /// and the tail slot.
    pub fn pop_front(&mut self) -> (r: Option<T>)
        requires
            old(self).wf(),
        ensures
            final(self).wf(),
            old(self)@.len() == 0 ==> r is None && final(self)@ == old(self)@,
            old(self)@.len() > 0 ==> r == Some(old(self)@[0]) && final(self)@ == old(
                self,
            )@.drop_first(),
    {
        match self.head {
            None => None,
            Some(h) => {
                proof {
                    assert(old(self).link_ok(0));
                    assert(h == old(self).chain@[0]);
                }
                let nxt = self.nodes[h].next;
                match nxt {
                    Some(nh) => {
                        proof {
                            assert(old(self).chain@.len() > 1);
                            assert(old(self).link_ok(1));
                            assert(nh == old(self).chain@[1]);
                            assert(old(self).chain@[1] != old(self).chain@[0]);
                        }
                        let slot = &mut self.nodes[nh];
                        slot.prev = None;
                        self.head = Some(nh);
                    }
                    None => {
                        self.head = None;
                        self.tail = None;
                    }
                }
                let ghost m = *self;
                let mut slot = Slot { val: None, prev: None, next: None };
                let hole = &mut self.nodes[h];
                std::mem::swap(&mut slot, hole);
                self.free.push(h);
                self.chain = Ghost(self.chain@.drop_first());
                proof {
                    let pre = *old(self);
                    let c0 = pre.chain@;
                    let n = c0.len() as int;
                    let c1 = self.chain@;
                    assert(c1 == c0.drop_first());
                    assert(slot.val == pre.slot_at(0).val);
                    if n > 1 {
                        let nh = pre.chain@[1] as int;
                        assert forall|i: int| 0 <= i < c1.len() implies #[trigger] self.link_ok(
                            i,
                        ) && self.slot_at(i).val == pre.slot_at(i + 1).val by {
                            assert(c1[i] == c0[i + 1]);
                            assert(pre.link_ok(i + 1));
                            let s = c0[i + 1] as int;
                            assert(pre.slot_at(i + 1).val is Some);
                            assert(c0[i + 1] != c0[0]);
                            if i == 0 {
                                assert(self.nodes@[nh].prev == None::<usize>);
                                assert(self.nodes@[nh].val == pre.nodes@[nh].val);
                                assert(self.nodes@[nh].next == pre.nodes@[nh].next);
                                if c1.len() > 1 {
                                    assert(c1[1] == c0[2]);
                                }
                            } else {
                                assert(c0[i + 1] != c0[1]);
                                assert(self.nodes@[s] == m.nodes@[s]);
                                assert(m.nodes@[s] == pre.nodes@[s]);
                                assert(c1[i - 1] == c0[i]);
                                if i < c1.len() - 1 {
                                    assert(c1[i + 1] == c0[i + 2]);
                                }
                            }
                        }
                        assert forall|i: int, j: int| 0 <= i < j < c1.len() implies c1[i]
                            != c1[j] by {
                            assert(c1[i] == c0[i + 1]);
                            assert(c1[j] == c0[j + 1]);
                        }
                        assert(c1[c1.len() - 1] == c0[n - 1]);
                    } else {
                        assert(c1.len() == 0);
                    }
                    assert forall|k: int| 0 <= k < self.free@.len() implies #[trigger] self
                        .free_ok(k) by {
                        if k < self.free@.len() - 1 {
                            assert(pre.free_ok(k));
                            assert(self.free@[k] == pre.free@[k]);
                            assert(pre.nodes@[c0[0] as int].val is Some);
                            assert(pre.free@[k] != c0[0]);
                            if n > 1 {
                                assert(pre.nodes@[c0[1] as int].val is Some);
                                assert(pre.free@[k] != c0[1]);
                            }
                        } else {
                            assert(self.free@[k] == h);
                            assert(self.nodes@[h as int].val is None);
                        }
                    }
                    assert forall|k: int, l: int| 0 <= k < l < self.free@.len() implies self
                        .free@[k] != self.free@[l] by {
                        assert(pre.free_ok(k));
                        if l < self.free@.len() - 1 {
                            assert(pre.free@[k] != pre.free@[l]);
                        } else {
                            assert(pre.nodes@[pre.free@[k] as int].val is None);
                            assert(pre.nodes@[c0[0] as int].val is Some);
                        }
                    }
                    assert(self.wf());
                    assert forall|i: int| 0 <= i < c1.len() implies (#[trigger] self.slot_at(
                        i,
                    )).val == pre.slot_at(i + 1).val by {
                        assert(self.link_ok(i));
                    }
                    assert(self@ =~= pre@.drop_first());
                    assert(pre@[0] == pre.slot_at(0).val.unwrap());
                }
                Some(slot.val.unwrap())
            }
        }
    }

    /// Removes and returns the back value, or `None` when the list is
    /// empty.  Removing the only remaining value clears both the tail
    /// and the head slot.
    pub fn pop_back(&mut self) -> (r: Option<T>)
        requires
            old(self).wf(),
        ensures
            final(self).wf(),
            old(self)@.len() == 0 ==> r is None && final(self)@ == old(self)@,
            old(self)@.len() > 0 ==> r == Some(old(self)@.last()) && final(self)@ == old(
                self,
            )@.drop_last(),
    {
        match self.tail {
            None => None,
            Some(t) => {
                proof {
                    assert(old(self).link_ok(old(self).chain@.len() - 1));
                    assert(t == old(self).chain@[old(self).chain@.len() - 1]);
                }
                let prv = self.nodes[t].prev;
                match prv {
                    Some(nt) => {
                        proof {
                            assert(old(self).chain@.len() > 1);
                            assert(old(self).link_ok(old(self).chain@.len() - 2));
                            assert(nt == old(self).chain@[old(self).chain@.len() - 2]);
                            assert(old(self).chain@[old(self).chain@.len() - 2] != old(
                                self,
                            ).chain@[old(self).chain@.len() - 1]);
                        }
                        let slot = &mut self.nodes[nt];
                        slot.next = None;
                        self.tail = Some(nt);
                    }
                    None => {
                        self.tail = None;
                        self.head = None;
                    }
                }
                let ghost m = *self;
                let mut slot = Slot { val: None, prev: None, next: None };
                let hole = &mut self.nodes[t];
                std::mem::swap(&mut slot, hole);
                self.free.push(t);
                self.chain = Ghost(self.chain@.drop_last());
                proof {
                    let pre = *old(self);
                    let c0 = pre.chain@;
                    let n = c0.len() as int;
                    let c1 = self.chain@;
                    assert(c1 == c0.drop_last());
                    assert(slot.val == pre.slot_at(n - 1).val);
                    if n > 1 {
                        let nt = pre.chain@[n - 2] as int;
                        assert forall|i: int| 0 <= i < c1.len() implies #[trigger] self.link_ok(
                            i,
                        ) && self.slot_at(i).val == pre.slot_at(i).val by {
                            assert(c1[i] == c0[i]);
                            assert(pre.link_ok(i));
                            let s = c0[i] as int;
                            assert(pre.slot_at(i).val is Some);
                            assert(c0[i] != c0[n - 1]);
                            if i == c1.len() - 1 {
                                assert(self.nodes@[nt].next == None::<usize>);
                                assert(self.nodes@[nt].val == pre.nodes@[nt].val);
                                assert(self.nodes@[nt].prev == pre.nodes@[nt].prev);
                                if i > 0 {
                                    assert(c1[i - 1] == c0[i - 1]);
                                }
                            } else {
                                assert(c0[i] != c0[n - 2]);
                                assert(self.nodes@[s] == m.nodes@[s]);
                                assert(m.nodes@[s] == pre.nodes@[s]);
                                assert(c1[i + 1] == c0[i + 1]);
                                if i > 0 {
                                    assert(c1[i - 1] == c0[i - 1]);
                                }
                            }
                        }
                        assert forall|i: int, j: int| 0 <= i < j < c1.len() implies c1[i]
                            != c1[j] by {
                            assert(c1[i] == c0[i]);
                            assert(c1[j] == c0[j]);
                        }
                        assert(c1[0] == c0[0]);
                    } else {
                        assert(c1.len() == 0);
                    }
                    assert forall|k: int| 0 <= k < self.free@.len() implies #[trigger] self
                        .free_ok(k) by {
                        if k < self.free@.len() - 1 {
                            assert(pre.free_ok(k));
                            assert(self.free@[k] == pre.free@[k]);
                            assert(pre.nodes@[c0[n - 1] as int].val is Some);
                            assert(pre.free@[k] != c0[n - 1]);
                            if n > 1 {
                                assert(pre.nodes@[c0[n - 2] as int].val is Some);
                                assert(pre.free@[k] != c0[n - 2]);
                            }
                        } else {
                            assert(self.free@[k] == t);
                            assert(self.nodes@[t as int].val is None);
                        }
                    }
                    assert forall|k: int, l: int| 0 <= k < l < self.free@.len() implies self
                        .free@[k] != self.free@[l] by {
                        assert(pre.free_ok(k));
                        if l < self.free@.len() - 1 {
                            assert(pre.free@[k] != pre.free@[l]);
                        } else {
                            assert(pre.nodes@[pre.free@[k] as int].val is None);
                            assert(pre.nodes@[c0[n - 1] as int].val is Some);
                        }
                    }
                    assert(self.wf());
                    assert forall|i: int| 0 <= i < c1.len() implies (#[trigger] self.slot_at(
                        i,
                    )).val == pre.slot_at(i).val by {
                        assert(self.link_ok(i));
                    }
                    assert(self@ =~= pre@.drop_last());
                    assert(pre@.last() == pre.slot_at(n - 1).val.unwrap());
                }
                Some(slot.val.unwrap())
            }
        }
    }

    /// Turns the list into a consuming iterator from which values may
    /// be drawn at either end.
    pub fn into_iter(self) -> (r: IntoIter<T>)
        requires
            self.wf(),
        ensures
            r.wf(),
            r@ == self@,
    {
        IntoIter(self)
    }
}

/// A consuming iterator over a [`DoublyLinkedList`]: `next` draws from
/// the front and `next_back` from the back of the same iterator, until
/// the values are exhausted.
pub struct IntoIter<T>(DoublyLinkedList<T>);

impl<T> View for IntoIter<T> {
    type V = Seq<T>;

    closed spec fn view(&self) -> Seq<T> {
        self.0@
    }
}

impl<T> IntoIter<T> {
    /// Well-formedness of the underlying list.
    pub closed spec fn wf(self) -> bool {
        self.0.wf()
    }

    /// Removes and returns the next value from the front, or `None`
    /// once the values are exhausted.
    pub fn next(&mut self) -> (r: Option<T>)
        requires
            old(self).wf(),
        ensures
            final(self).wf(),
            old(self)@.len() == 0 ==> r is None && final(self)@ == old(self)@,
            old(self)@.len() > 0 ==> r == Some(old(self)@[0]) && final(self)@ == old(
                self,
            )@.drop_first(),
    {
        self.0.pop_front()
    }

    /// Removes and returns the next value from the back, or `None` once
    /// the values are exhausted.
    pub fn next_back(&mut self) -> (r: Option<T>)
        requires
            old(self).wf(),
        ensures
            final(self).wf(),
            old(self)@.len() == 0 ==> r is None && final(self)@ == old(self)@,
            old(self)@.len() > 0 ==> r == Some(old(self)@.last()) && final(self)@ == old(
                self,
            )@.drop_last(),
    {
        self.0.pop_back()
    }
}


/// The values returned by popping from the back until the list is
/// empty, in order: each pop returns the current back value and leaves
/// the rest, exactly as `pop_back` ensures.
pub open spec fn back_drain<T>(w: Seq<T>) -> Seq<T>
    decreases w.len(),
{
    if w.len() == 0 {
        Seq::empty()
    } else {
        seq![w.last()] + back_drain(w.drop_last())
    }
}

/// Popping a list from the back until empty returns exactly its values
/// in reverse view order.
pub proof fn lemma_back_drain_reverses<T>(w: Seq<T>)
    ensures
        back_drain(w) == w.reverse(),
    decreases w.len(),
{
    if w.len() == 0 {
        assert(back_drain(w) =~= w.reverse());
    } else {
        lemma_back_drain_reverses(w.drop_last());
        assert(seq![w.last()] + w.drop_last().reverse() =~= w.reverse());
    }
}

/// FIFO via back-removal: pushing the values v1..vn at the front of an
/// empty doubly-linked list and then popping from the back until empty
/// yields v1..vn, the insertion order, exercising both link directions.
pub proof fn lemma_fifo_via_back<T>(vs: Seq<T>)
    ensures
        back_drain(push_all(Seq::empty(), vs)) == vs,
{
    lemma_push_all_reverses(Seq::empty(), vs);
    assert(push_all(Seq::empty(), vs) =~= vs.reverse());
    lemma_back_drain_reverses(vs.reverse());
    assert(vs.reverse().reverse() =~= vs);
}

} // verus!
