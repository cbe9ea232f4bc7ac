//! A circular doubly linked chain.
//!
//! A [`Dll`] is a node that carries a payload and anchors a chain of further
//! nodes. The nodes of the chain live in an arena owned by the anchor and
//! are addressed by handles: small integers that stay valid while the node
//! stays in the chain. Handles are given out in rising order and a handle is
//! not given out twice, so one that is kept after its node has left the
//! chain names no node. A node that anchors an empty chain is linked to
//! itself only; such a node can be moved into the chain of another anchor,
//! and a node taken out of a chain comes back in that state.

use vstd::prelude::*;
use crate::ring::{content, lemma_put, lemma_splice_in, lemma_splice_out, link_ok, ring, Slot};

verus! {

/// Handle of the anchor of every chain. Walking a chain starts at the
/// anchor's successor and is over when the anchor comes up again.
pub const ANCHOR: usize = 0;

/// A node of a circular doubly linked chain, together with the chain that it
/// anchors.
pub struct Dll<T> {
    /// Payload of the node itself. It is not part of the chain's content.
    data: T,
    /// The arena. It is empty until the first node is linked in; after that
    /// cell 0 holds the links of the anchor.
    slots: Vec<Slot<T>>,
    /// The cycle in forward order, from the anchor round to its
    /// predecessor.
    cycle: Ghost<Seq<usize>>,
}

impl<T> Dll<T> {
    /// The invariant of the chain: its nodes form a single cycle through
    /// the anchor on which no node occurs twice, and the links of any two
    /// neighbours mirror each other.
    pub closed spec fn wf(&self) -> bool {
        if self.slots@.len() == 0 {
            self.cycle@ =~= seq![ANCHOR]
        } else {
            ring(self.slots@, self.cycle@) && self.cycle@.len() <= self.slots@.len()
        }
    }

    /// The payload of the node itself.
    pub closed spec fn payload(&self) -> T {
        self.data
    }

    /// The handles of the chain's nodes in forward order. The anchor is not
    /// among them.
    pub closed spec fn handles(&self) -> Seq<usize> {
        self.cycle@.subrange(1, self.cycle@.len() as int)
    }

    /// The payloads of the chain's nodes in forward order.
    pub closed spec fn view(&self) -> Seq<T> {
        content(self.slots@, self.cycle@)
    }

    /// The handle that the next node to enter the chain gets. The handles
    /// of the chain's nodes are all below it.
    pub closed spec fn next_handle(&self) -> usize {
        if self.slots@.len() == 0 {
            1
        } else {
            self.slots.len()
        }
    }

    /// Whether `h` is the handle of a node of the chain.
    pub open spec fn is_member(&self, h: usize) -> bool {
        self.handles().contains(h)
    }

    /// Whether `h` is the handle of a node of the cycle: of the anchor or of
    /// a node of the chain.
    pub open spec fn on_cycle(&self, h: usize) -> bool {
        h == ANCHOR || self.is_member(h)
    }

    /// Whether the node anchors an empty chain, that is, is linked to itself
    /// only.
    pub open spec fn is_detached(&self) -> bool {
        self@.len() == 0
    }

    /// The handle at position `k` of the forward walk; the anchor where `k`
    /// is no position of the chain.
    pub open spec fn handle_at(&self, k: int) -> usize {
        if 0 <= k < self.handles().len() {
            self.handles()[k]
        } else {
            ANCHOR
        }
    }

    /// The position of the node `h` in the forward walk, counted from 0; -1
    /// for the anchor.
    pub open spec fn position(&self, h: usize) -> int {
        if h == ANCHOR {
            -1
        } else {
            self.handles().index_of(h)
        }
    }

    /// The handle of the node that follows `h` on the cycle.
    pub open spec fn successor(&self, h: usize) -> usize {
        self.handle_at(self.position(h) + 1)
    }

    /// The handle of the node that precedes `h` on the cycle.
    pub open spec fn predecessor(&self, h: usize) -> usize {
        if h == ANCHOR {
            self.handle_at(self.handles().len() - 1)
        } else {
            self.handle_at(self.position(h) - 1)
        }
    }

    /// The position at which a node stands that is put directly in front
    /// of the node `at`: the position of `at` for a node of the chain, the
    /// end of the walk for the anchor.
    pub open spec fn slot_before(&self, at: usize) -> int {
        if at == ANCHOR {
            self.handles().len() as int
        } else {
            self.position(at)
        }
    }

    /// A chain has as many handles as payloads, no handle twice, none that
    /// is the anchor's, and none that is still to be given out.
    pub proof fn lemma_handles(&self)
        requires
            self.wf(),
        ensures
            self.handles().len() == self@.len(),
            self.handles().no_duplicates(),
            !self.is_member(ANCHOR),
            forall|h: usize| self.is_member(h) ==> h < self.next_handle(),
            self@.len() < usize::MAX,
    {
        let c = self.cycle@;
        let hs = self.handles();
        assert forall|h: usize| self.is_member(h) implies h < self.next_handle() by {
            let i = choose|i: int| 0 <= i < hs.len() && hs[i] == h;
            assert(c[i + 1] == h);
            assert(link_ok(self.slots@, c, i + 1));
        }
        assert forall|i: int, j: int| 0 <= i < hs.len() && 0 <= j < hs.len() && i != j implies hs[i]
            != hs[j] by {
            assert(hs[i] == c[i + 1]);
            assert(hs[j] == c[j + 1]);
        }
        if hs.contains(ANCHOR) {
            let i = choose|i: int| 0 <= i < hs.len() && hs[i] == ANCHOR;
            assert(c[i + 1] == c[0]);
        }
        assert(self.slots@.len() == self.slots.len());
    }

    /// The node at position `k` of the walk is a node of the chain, is not
    /// the anchor, and is found at position `k`.
    pub proof fn lemma_position(&self, k: int)
        requires
            self.wf(),
            0 <= k < self.handles().len(),
        ensures
            self.position(self.handles()[k]) == k,
            self.is_member(self.handles()[k]),
            self.handles()[k] != ANCHOR,
    {
        self.lemma_handles();
        let hs = self.handles();
        let h = hs[k];
        assert(hs.contains(h));
        let i = hs.index_of(h);
        assert(0 <= i < hs.len() && hs[i] == h);
    }

    /// A node of the chain has a position in the walk, and the walk has its
    /// handle there.
    pub proof fn lemma_member(&self, h: usize)
        requires
            self.wf(),
            self.is_member(h),
        ensures
            0 <= self.position(h) < self.handles().len(),
            self.handles()[self.position(h)] == h,
            h != ANCHOR,
    {
        self.lemma_handles();
        let hs = self.handles();
        let i = hs.index_of(h);
        assert(0 <= i < hs.len() && hs[i] == h);
    }

    /// On a cycle every link is mirrored: the predecessor of a node's
    /// successor is the node, and so is the successor of its predecessor.
    pub proof fn lemma_neighbours(&self, h: usize)
        requires
            self.wf(),
            self.on_cycle(h),
        ensures
            self.on_cycle(self.successor(h)),
            self.on_cycle(self.predecessor(h)),
            self.predecessor(self.successor(h)) == h,
            self.successor(self.predecessor(h)) == h,
    {
        self.lemma_handles();
        let hs = self.handles();
        let k = self.position(h);
        if h != ANCHOR {
            self.lemma_member(h);
        }
        if k + 1 < hs.len() {
            self.lemma_position(k + 1);
        }
        if h == ANCHOR {
            if hs.len() > 0 {
                self.lemma_position(hs.len() - 1);
            }
        } else if k >= 1 {
            self.lemma_position(k - 1);
        }
    }

    /// The place of a node of the cycle in the arena: its cell exists, and
    /// the cycle names it one position behind its position in the walk.
    proof fn lemma_cell(&self, h: usize)
        requires
            self.wf(),
            self.slots@.len() > 0,
            self.on_cycle(h),
        ensures
            0 <= self.position(h) + 1 < self.cycle@.len(),
            self.cycle@[self.position(h) + 1] == h,
            h < self.slots@.len(),
            link_ok(self.slots@, self.cycle@, self.position(h) + 1),
            h != ANCHOR ==> self.slots@[h as int].item == Some(self@[self.position(h)]),
            self.slots@[h as int].next == self.successor(h),
            self.slots@[h as int].prev == self.predecessor(h),
            self.on_cycle(self.successor(h)),
            self.on_cycle(self.predecessor(h)),
    {
        self.lemma_handles();
        let c = self.cycle@;
        if h != ANCHOR {
            self.lemma_member(h);
            assert(self.handles()[self.position(h)] == c[self.position(h) + 1]);
        }
        assert(link_ok(self.slots@, c, self.position(h) + 1));
        if h != ANCHOR {
            assert(c.contains(h));
            assert(self.slots@[h as int].item is Some);
        }
        let n = c.len() as int;
        let q = self.position(h) + 1;
        let hs = self.handles();
        if q + 1 < n {
            assert(hs[q] == c[q + 1]);
            assert(hs.contains(hs[q]));
        }
        let pq = if q == 0 {
            n - 1
        } else {
            q - 1
        };
        assert(link_ok(self.slots@, c, pq));
        if pq >= 1 {
            assert(hs[pq - 1] == c[pq]);
            assert(hs.contains(hs[pq - 1]));
        }
    }

    /// A cell holds a payload exactly if its index is the handle of a node
    /// of the chain.
    proof fn lemma_occupied(&self, h: usize)
        requires
            self.wf(),
        ensures
            self.is_member(h) <==> h != ANCHOR && h < self.slots@.len()
                && self.slots@[h as int].item is Some,
            self.is_member(h) ==> self.slots@.len() > 0,
    {
        let c = self.cycle@;
        let hs = self.handles();
        if hs.contains(h) {
            let i = choose|i: int| 0 <= i < hs.len() && hs[i] == h;
            assert(c[i + 1] == h);
            assert(c.contains(h));
            assert(link_ok(self.slots@, c, i + 1));
            assert(h != c[0]);
            assert(self.slots@[h as int].item is Some);
        }
        if h != ANCHOR && h < self.slots@.len() && self.slots@[h as int].item is Some {
            assert(c.contains(h));
            let i = choose|i: int| 0 <= i < c.len() && c[i] == h;
            assert(hs[i - 1] == h);
        }
    }

    /// Two chains on the same cycle have the same walk.
    proof fn lemma_same_walk(&self, other: &Self)
        requires
            self.cycle@ == other.cycle@,
        ensures
            self.handles() == other.handles(),
            forall|h: usize| self.position(h) == other.position(h),
            forall|h: usize| self.on_cycle(h) == other.on_cycle(h),
            forall|h: usize| self.slot_before(h) == other.slot_before(h),
    {
    }
}

impl<T> Dll<T> {
    /// A node that holds `init_data` and is linked to itself only.
    pub fn from(init_data: T) -> (node: Self)
        ensures
            node.wf(),
            node.is_detached(),
            node.handles() == Seq::<usize>::empty(),
            node.next_handle() == 1,
            node.payload() == init_data,
    {
        let ghost cycle = seq![ANCHOR];
        let node = Dll { data: init_data, slots: Vec::new(), cycle: Ghost(cycle) };
        assert(node.handles() =~= Seq::<usize>::empty());
        node
    }

    /// The payload of the node itself.
    pub fn data(&self) -> (data: &T)
        ensures
            *data == self.payload(),
    {
        &self.data
    }

    /// The payload of the node itself, to be changed in place. The chain
    /// that the node anchors stays as it is.
    pub fn data_mut(&mut self) -> (data: &mut T)
        ensures
            *data == old(self).payload(),
            final(self).payload() == *final(data),
            final(self).wf() == old(self).wf(),
            final(self)@ == old(self)@,
            final(self).handles() == old(self).handles(),
            final(self).next_handle() == old(self).next_handle(),
    {
        &mut self.data
    }

    /// Takes the node apart and hands out its payload. The nodes of its
    /// chain, if there are any, are dropped with their payloads.
    pub fn into_data(self) -> (data: T)
        ensures
            data == self.payload(),
    {
        self.data
    }

    /// Whether the node is the last one left on its cycle, that is, whether
    /// the chain that it anchors is empty.
    pub fn is_last(&self) -> (last: bool)
        requires
            self.wf(),
        ensures
            last == self.is_detached(),
    {
        let first: usize = self.next(ANCHOR);
        proof {
            self.lemma_handles();
            if self@.len() > 0 {
                self.lemma_position(0);
            }
        }
        first == ANCHOR
    }

    /// Links the node to itself only. The nodes of its chain, if there were
    /// any, are dropped with their payloads.
    pub fn relink(&mut self)
        ensures
            final(self).wf(),
            final(self).is_detached(),
            final(self).handles() == Seq::<usize>::empty(),
            final(self).next_handle() == 1,
            final(self).payload() == old(self).payload(),
    {
        let ghost cycle = seq![ANCHOR];
        self.slots = Vec::new();
        self.cycle = Ghost(cycle);
        assert(self.handles() =~= Seq::<usize>::empty());
    }

    /// The handle of the node that follows `h` on the cycle. From the anchor
    /// this is the head of the chain, from the last node of the chain the
    /// anchor.
    pub fn next(&self, h: usize) -> (n: usize)
        requires
            self.wf(),
            self.on_cycle(h),
        ensures
            n == self.successor(h),
            self.on_cycle(n),
    {
        if self.slots.len() == 0 {
            proof {
                assert(self.handles() =~= Seq::<usize>::empty());
            }
            ANCHOR
        } else {
            proof {
                self.lemma_cell(h);
            }
            self.slots[h].next
        }
    }

    /// The handle of the node that precedes `h` on the cycle. From the
    /// anchor this is the tail of the chain, from the first node of the
    /// chain the anchor.
    pub fn prev(&self, h: usize) -> (p: usize)
        requires
            self.wf(),
            self.on_cycle(h),
        ensures
            p == self.predecessor(h),
            self.on_cycle(p),
    {
        if self.slots.len() == 0 {
            proof {
                assert(self.handles() =~= Seq::<usize>::empty());
            }
            ANCHOR
        } else {
            proof {
                self.lemma_cell(h);
            }
            self.slots[h].prev
        }
    }

    /// Whether `h` is the handle of a node of the chain.
    pub fn contains(&self, h: usize) -> (found: bool)
        requires
            self.wf(),
        ensures
            found == self.is_member(h),
    {
        proof {
            self.lemma_occupied(h);
        }
        h != ANCHOR && h < self.slots.len() && self.slots[h].item.is_some()
    }

    /// The payload of the node `h` of the chain.
    pub fn get(&self, h: usize) -> (item: &T)
        requires
            self.wf(),
            self.is_member(h),
        ensures
            *item == self@[self.position(h)],
    {
        proof {
            self.lemma_occupied(h);
            self.lemma_cell(h);
        }
        self.slots[h].item.as_ref().unwrap()
    }

    /// The payload of the node `h` of the chain, to be changed in place.
    /// The chain keeps its nodes and their order.
    pub fn get_mut(&mut self, h: usize) -> (item: &mut T)
        requires
            old(self).wf(),
            old(self).is_member(h),
        ensures
            *item == old(self)@[old(self).position(h)],
            final(self).wf(),
            final(self)@ == old(self)@.update(old(self).position(h), *final(item)),
            final(self).handles() == old(self).handles(),
            final(self).next_handle() == old(self).next_handle(),
            final(self).payload() == old(self).payload(),
    {
        proof {
            self.lemma_occupied(h);
            self.lemma_cell(h);
            self.lemma_member(h);
        }
        let ghost k = self.position(h);
        let item: &mut T = self.slots[h].item.as_mut().unwrap();
        proof {
            let s0 = old(self).slots@;
            let cell = s0[h as int];
            let changed = Slot { next: cell.next, prev: cell.prev, item: Some(*final(item)) };
            let s = s0.update(h as int, changed);
            lemma_put(s0, old(self).cycle@, k + 1, s);
        }
        item
    }

    /// The number of nodes in the chain, found by walking it from the
    /// anchor round to the anchor.
    pub fn count(&self) -> (n: usize)
        requires
            self.wf(),
        ensures
            n == self@.len(),
    {
        proof {
            self.lemma_handles();
        }
        let mut n: usize = 0;
        let mut sel: usize = self.next(ANCHOR);
        while sel != ANCHOR
            invariant
                self.wf(),
                self.handles().len() == self@.len(),
                self@.len() < usize::MAX,
                0 <= n <= self@.len(),
                sel == self.handle_at(n as int),
            decreases self@.len() - n,
        {
            proof {
                self.lemma_position(n as int);
            }
            sel = self.next(sel);
            n = n + 1;
        }
        proof {
            if n < self@.len() {
                self.lemma_position(n as int);
            }
        }
        n
    }
}

impl<T> Dll<T> {
    /// Gives the anchor its cell in the arena if it has none yet.
    fn reserve_anchor(&mut self)
        requires
            old(self).wf(),
        ensures
            final(self).wf(),
            final(self).slots@.len() > 0,
            final(self).cycle@ == old(self).cycle@,
            final(self).data == old(self).data,
            final(self)@ == old(self)@,
            final(self).next_handle() == old(self).next_handle(),
    {
        if self.slots.len() == 0 {
            self.slots.push(Slot { next: ANCHOR, prev: ANCHOR, item: None });
            proof {
                assert(link_ok(self.slots@, self.cycle@, 0));
                assert(self@ =~= old(self)@);
            }
        }
    }

    /// Links a new node that holds `item` in between the neighbours `a` and
    /// `b`. This is the one place where nodes enter a chain.
    fn link_between(&mut self, a: usize, b: usize, item: T) -> (h: usize)
        requires
            old(self).wf(),
            old(self).slots@.len() > 0,
            old(self).on_cycle(a),
            b == old(self).successor(a),
        ensures
            final(self).wf(),
            final(self)@ == old(self)@.insert(old(self).position(a) + 1, item),
            final(self).handles() == old(self).handles().insert(old(self).position(a) + 1, h),
            final(self).payload() == old(self).payload(),
            0 <= old(self).position(a) + 1 <= old(self)@.len(),
            h == old(self).next_handle(),
            final(self).next_handle() == h + 1,
            h != ANCHOR,
            !old(self).is_member(h),
    {
        let ghost c = self.cycle@;
        let ghost s0 = self.slots@;
        let ghost q = self.position(a) + 1;
        proof {
            self.lemma_cell(a);
            self.lemma_handles();
        }
        let h: usize = self.slots.len();
        self.slots.push(Slot { next: b, prev: a, item: Some(item) });
        self.slots[b].prev = h;
        self.slots[a].next = h;
        let ghost nc = c.insert(q + 1, h);
        self.cycle = Ghost(nc);
        proof {
            lemma_splice_in(s0, c, q, self.slots@);
            assert(self.handles() =~= old(self).handles().insert(q, h));
            assert(self@ =~= old(self)@.insert(q, item)) by {
                assert forall|k: int| 0 <= k < self@.len() implies self@[k] == old(self)@.insert(
                    q,
                    item,
                )[k] by {
                    if k < q {
                        assert(nc[k + 1] == c[k + 1]);
                        assert(link_ok(s0, c, k + 1));
                    } else if k > q {
                        assert(nc[k + 1] == c[k]);
                        assert(link_ok(s0, c, k));
                    }
                }
            }
            old(self).lemma_occupied(h);
        }
        h
    }

    /// Adds a node to the chain directly behind the node `at`, which is the
    /// anchor or a node of the chain. The node to add must be linked to
    /// itself only. Returns the handle under which the chain now keeps it.
    pub fn insert_after(&mut self, at: usize, node: Dll<T>) -> (h: usize)
        requires
            old(self).wf(),
            old(self).on_cycle(at),
            node.wf(),
            node.is_detached(),
        ensures
            final(self).wf(),
            final(self)@ == old(self)@.insert(old(self).position(at) + 1, node.payload()),
            final(self)@.len() == old(self)@.len() + 1,
            final(self).handles() == old(self).handles().insert(old(self).position(at) + 1, h),
            final(self).payload() == old(self).payload(),
            h == old(self).next_handle(),
            final(self).next_handle() == h + 1,
            h != ANCHOR,
            !old(self).is_member(h),
    {
        self.reserve_anchor();
        proof {
            self.lemma_same_walk(old(self));
        }
        let b: usize = self.next(at);
        self.link_between(at, b, node.data)
    }

    /// Adds a node to the chain directly in front of the node `at`, which is
    /// the anchor or a node of the chain. The node to add must be linked to
    /// itself only. Returns the handle under which the chain now keeps it.
    pub fn insert_before(&mut self, at: usize, node: Dll<T>) -> (h: usize)
        requires
            old(self).wf(),
            old(self).on_cycle(at),
            node.wf(),
            node.is_detached(),
        ensures
            final(self).wf(),
            final(self)@ == old(self)@.insert(old(self).slot_before(at), node.payload()),
            final(self)@.len() == old(self)@.len() + 1,
            final(self).handles() == old(self).handles().insert(old(self).slot_before(at), h),
            final(self).payload() == old(self).payload(),
            h == old(self).next_handle(),
            final(self).next_handle() == h + 1,
            h != ANCHOR,
            !old(self).is_member(h),
    {
        self.reserve_anchor();
        proof {
            self.lemma_same_walk(old(self));
            self.lemma_cell(at);
            self.lemma_handles();
        }
        let a: usize = self.prev(at);
        proof {
            self.lemma_cell(a);
            if a != ANCHOR {
                self.lemma_member(a);
            }
            if at != ANCHOR {
                self.lemma_member(at);
            }
            assert(self.position(a) + 1 == self.slot_before(at)) by {
                let k = self.slot_before(at);
                if k >= 1 {
                    self.lemma_position(k - 1);
                }
            }
            assert(self.successor(a) == at);
        }
        self.link_between(a, at, node.data)
    }

    /// Adds a node at the head of the chain: directly behind the anchor, so
    /// that a forward walk meets it first. The node must be linked to
    /// itself only. Returns the handle under which the chain now keeps it.
    pub fn addh(&mut self, nhead: Dll<T>) -> (h: usize)
        requires
            old(self).wf(),
            nhead.wf(),
            nhead.is_detached(),
        ensures
            final(self).wf(),
            final(self)@ == seq![nhead.payload()] + old(self)@,
            final(self)@.len() == old(self)@.len() + 1,
            final(self).handles() == seq![h] + old(self).handles(),
            final(self).payload() == old(self).payload(),
            h == old(self).next_handle(),
            final(self).next_handle() == h + 1,
            h != ANCHOR,
            !old(self).is_member(h),
    {
        let h: usize = self.insert_after(ANCHOR, nhead);
        proof {
            assert(self@ =~= seq![nhead.payload()] + old(self)@);
            assert(self.handles() =~= seq![h] + old(self).handles());
        }
        h
    }

    /// Adds a node at the tail of the chain: directly in front of the
    /// anchor, so that a forward walk meets it last. The node must be
    /// linked to itself only. Returns the handle under which the chain now
    /// keeps it.
    pub fn addt(&mut self, ntail: Dll<T>) -> (h: usize)
        requires
            old(self).wf(),
            ntail.wf(),
            ntail.is_detached(),
        ensures
            final(self).wf(),
            final(self)@ == old(self)@.push(ntail.payload()),
            final(self)@.len() == old(self)@.len() + 1,
            final(self).handles() == old(self).handles().push(h),
            final(self).payload() == old(self).payload(),
            h == old(self).next_handle(),
            final(self).next_handle() == h + 1,
            h != ANCHOR,
            !old(self).is_member(h),
    {
        proof {
            self.lemma_handles();
        }
        let h: usize = self.insert_before(ANCHOR, ntail);
        proof {
            assert(self@ =~= old(self)@.push(ntail.payload()));
            assert(self.handles() =~= old(self).handles().push(h));
        }
        h
    }

    /// Takes the node `h` out of the chain: links its two neighbours to each
    /// other and hands the node out, linked to itself only. Where `h` is no
    /// node of the chain, as after an earlier call, nothing changes.
    pub fn unlink(&mut self, h: usize) -> (node: Option<Dll<T>>)
        requires
            old(self).wf(),
        ensures
            final(self).wf(),
            final(self).payload() == old(self).payload(),
            final(self).next_handle() == old(self).next_handle(),
            match node {
                Some(node) => {
                    &&& old(self).is_member(h)
                    &&& node.wf()
                    &&& node.is_detached()
                    &&& node.handles() == Seq::<usize>::empty()
                    &&& node.next_handle() == 1
                    &&& node.payload() == old(self)@[old(self).position(h)]
                    &&& final(self)@ == old(self)@.remove(old(self).position(h))
                    &&& final(self)@.len() == old(self)@.len() - 1
                    &&& final(self).handles() == old(self).handles().remove(old(self).position(h))
                },
                None => {
                    &&& !old(self).is_member(h)
                    &&& final(self)@ == old(self)@
                    &&& final(self).handles() == old(self).handles()
                },
            },
    {
        if !self.contains(h) {
            return None;
        }
        let ghost c = self.cycle@;
        let ghost s0 = self.slots@;
        let ghost k = self.position(h);
        proof {
            self.lemma_occupied(h);
            self.lemma_cell(h);
            self.lemma_member(h);
            self.lemma_handles();
            assert(link_ok(s0, c, k));
            assert(s0.len() == self.slots.len());
        }
        let p: usize = self.slots[h].prev;
        let n: usize = self.slots[h].next;
        self.slots[p].next = n;
        self.slots[n].prev = p;
        self.slots[h].next = h;
        self.slots[h].prev = h;
        let item: Option<T> = self.slots[h].item.take();
        let ghost nc = c.remove(k + 1);
        self.cycle = Ghost(nc);
        proof {
            lemma_splice_out(s0, c, k + 1, self.slots@);
            assert(self.handles() =~= old(self).handles().remove(k));
            assert(self@ =~= old(self)@.remove(k)) by {
                assert forall|i: int| 0 <= i < self@.len() implies self@[i] == old(self)@.remove(
                    k,
                )[i] by {
                    if i < k {
                        assert(nc[i + 1] == c[i + 1]);
                        assert(c[i + 1] != c[k + 1]);
                        assert(link_ok(s0, c, i + 1));
                    } else {
                        assert(nc[i + 1] == c[i + 2]);
                        assert(c[i + 2] != c[k + 1]);
                        assert(link_ok(s0, c, i + 2));
                    }
                }
            }
        }
        match item {
            Some(data) => Some(Dll::from(data)),
            None => None,
        }
    }

    /// Removes the node `h` from the chain and drops it with its payload;
    /// its two neighbours are linked to each other. Where `h` is no node of
    /// the chain, nothing changes.
    pub fn delete(&mut self, h: usize)
        requires
            old(self).wf(),
        ensures
            final(self).wf(),
            final(self).payload() == old(self).payload(),
            final(self).next_handle() == old(self).next_handle(),
            old(self).is_member(h) ==> final(self)@ == old(self)@.remove(old(self).position(h))
                && final(self).handles() == old(self).handles().remove(old(self).position(h)),
            !old(self).is_member(h) ==> final(self)@ == old(self)@ && final(self).handles() == old(
                self,
            ).handles(),
    {
        let _ = self.unlink(h);
    }
}

impl<T: Default> Dll<T> {
    /// A node that holds the default payload and is linked to itself only.
    pub fn new() -> (node: Self)
        ensures
            node.wf(),
            node.is_detached(),
            node.handles() == Seq::<usize>::empty(),
            node.next_handle() == 1,
            call_ensures(T::default, (), node.payload()),
    {
        Dll::from(T::default())
    }
}

impl<T: Default> Default for Dll<T> {
    /// The default node holds the default payload and is linked to itself
    /// only.
    fn default() -> (node: Self)
        ensures
            node.wf(),
            node.is_detached(),
            node.handles() == Seq::<usize>::empty(),
            node.next_handle() == 1,
            call_ensures(T::default, (), node.payload()),
    {
        Dll::from(T::default())
    }
}

impl<T: Clone> Dll<T> {
    /// Copies the node `h` of the chain, not its place in it: the copy holds
    /// a copy of the node's payload and is linked to itself only. The chain
    /// stays as it is.
    pub fn clone_node(&self, h: usize) -> (node: Self)
        requires
            self.wf(),
            self.is_member(h),
        ensures
            node.wf(),
            node.is_detached(),
            node.handles() == Seq::<usize>::empty(),
            node.next_handle() == 1,
            cloned(self@[self.position(h)], node.payload()),
    {
        Dll::from(self.get(h).clone())
    }
}

impl<T: Clone> Clone for Dll<T> {
    /// Copies the node, not the chain: the copy holds a copy of the node's
    /// own payload and is linked to itself only, whatever chain the node
    /// anchors.
    fn clone(&self) -> (node: Self)
        ensures
            node.wf(),
            node.is_detached(),
            node.handles() == Seq::<usize>::empty(),
            node.next_handle() == 1,
            cloned(self.payload(), node.payload()),
    {
        Dll::from(self.data.clone())
    }
}

/// The content of a chain that was empty and then took the values of
/// `items` at its head, one after the other.
pub open spec fn head_inserted<T>(items: Seq<T>) -> Seq<T>
    decreases items.len(),
{
    if items.len() == 0 {
        Seq::empty()
    } else {
        seq![items.last()] + head_inserted(items.drop_last())
    }
}

/// After any number of insertions at the head of an empty chain, the chain
/// holds one node for each insertion, and it is empty only if there was
/// none.
pub proof fn lemma_head_inserted_len<T>(items: Seq<T>)
    ensures
        head_inserted(items).len() == items.len(),
        head_inserted(items).len() == 0 <==> items.len() == 0,
    decreases items.len(),
{
    if items.len() > 0 {
        lemma_head_inserted_len(items.drop_last());
    }
}

/// A walk meets the values that were inserted at the head in the reverse
/// of the order of their insertion.
pub proof fn lemma_head_inserted_order<T>(items: Seq<T>, k: int)
    requires
        0 <= k < items.len(),
    ensures
        head_inserted(items).len() == items.len(),
        head_inserted(items)[k] == items[items.len() - 1 - k],
    decreases items.len(),
{
    lemma_head_inserted_len(items);
    lemma_head_inserted_len(items.drop_last());
    if k > 0 {
        lemma_head_inserted_order(items.drop_last(), k - 1);
    }
}

} // verus!
