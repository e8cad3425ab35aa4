//! The segmented FIFO queue.
use vstd::prelude::*;
use std::collections::VecDeque;
use crate::block::Block;
use crate::cache_padded::CachePadded;
use crate::model::{lemma_pushed_push, pop_model, pushed, returned};
use crate::index::{
    self, BLOCK_CAP, LAP, flag_of, lap_of, offset_of, pos_of,
};
use crate::slot::{Slot, DESTROY, READ, full_state, lemma_state_bits, taken_state};

verus! {

/// An unbounded first-in first-out queue. Items sit in a chain of blocks of
/// `BLOCK_CAP` slots; the head cursor addresses the next slot to read and the
/// tail cursor the next slot to write. The chain grows by a block when the
/// tail leaves the last data slot of a block, and a block is retired when the
/// head leaves it.
pub struct SegQueue<T> {
    head: CachePadded<usize>,
    tail: CachePadded<usize>,
    blocks: VecDeque<Block<T>>,
}

/// `k` as the pair (block, slot) of a chain of blocks of `BLOCK_CAP` slots.
proof fn lemma_split(k: int)
    requires
        k >= 0,
    ensures
        k == BLOCK_CAP * (k / BLOCK_CAP as int) + k % BLOCK_CAP as int,
        0 <= (k % BLOCK_CAP as int) < BLOCK_CAP,
        0 <= k / BLOCK_CAP as int,
        (k + BLOCK_CAP) / BLOCK_CAP as int == k / BLOCK_CAP as int + 1,
        (k + BLOCK_CAP) % BLOCK_CAP as int == k % BLOCK_CAP as int,
{
}

/// The pair (block, slot) back as a slot count.
proof fn lemma_join(b: int, s: int)
    requires
        b >= 0,
        0 <= s < BLOCK_CAP,
    ensures
        (BLOCK_CAP * b + s) / BLOCK_CAP as int == b,
        (BLOCK_CAP * b + s) % BLOCK_CAP as int == s,
{
    vstd::arithmetic::div_mod::lemma_fundamental_div_mod_converse(
        BLOCK_CAP * b + s,
        BLOCK_CAP as int,
        b,
        s,
    );
}

/// A position as lap and offset.
proof fn lemma_position(index: usize)
    ensures
        pos_of(index) == LAP * lap_of(index) + offset_of(index),
        offset_of(index) < LAP,
{
}

/// Lap and offset of a position given as `LAP * lap + offset`.
proof fn lemma_lap_offset(p: int, lap: int, offset: int)
    requires
        lap >= 0,
        0 <= offset < LAP,
        p == LAP * lap + offset,
    ensures
        p / LAP as int == lap,
        p % LAP as int == offset,
{
    vstd::arithmetic::div_mod::lemma_fundamental_div_mod_converse(p, LAP as int, lap, offset);
}

impl<T> SegQueue<T> {
    /// Packed head index.
    spec fn head_index(&self) -> usize {
        self.head.inner()
    }

    /// Packed tail index.
    spec fn tail_index(&self) -> usize {
        self.tail.inner()
    }

    /// Data slots from the first slot of the first block to the tail.
    spec fn tail_slot(&self) -> int {
        (lap_of(self.tail_index()) - lap_of(self.head_index())) * BLOCK_CAP + offset_of(
            self.tail_index(),
        )
    }

    /// Data slots from the first slot of the first block to the head.
    spec fn head_slot(&self) -> int {
        offset_of(self.head_index()) as int
    }

    /// The slot `k` data slots from the first slot of the first block.
    spec fn slot_at(&self, k: int) -> Slot<T> {
        self.blocks@[k / BLOCK_CAP as int].slots@[k % BLOCK_CAP as int]
    }

    /// What a slot holds, given its place relative to the cursors.
    spec fn slot_ok(&self, k: int, slot: Slot<T>) -> bool {
        if k < self.head_slot() {
            slot.state == taken_state() && slot.value is None
        } else if k < self.tail_slot() {
            slot.state == full_state() && slot.value is Some
        } else {
            slot.state == 0 && slot.value is None
        }
    }

    /// Slot positions the tail has moved past since the queue was made,
    /// the unused position at the end of each block included.
    pub closed spec fn tail_position(&self) -> nat {
        pos_of(self.tail_index())
    }

    /// Slot positions the head has moved past since the queue was made.
    pub closed spec fn head_position(&self) -> nat {
        pos_of(self.head_index())
    }

    /// Blocks in the chain from the head's block to the tail's.
    pub closed spec fn block_count(&self) -> nat {
        self.blocks@.len()
    }

    /// The shape of a well-formed queue: with no block, both cursors are at
    /// position zero; otherwise the chain holds one block per lap from the
    /// head's to the tail's. Neither cursor rests on the unused last position
    /// of a lap, and the head is never past the tail.
    pub proof fn lemma_chain_shape(&self)
        requires
            self.wf(),
        ensures
            self.block_count() == 0 ==> self.head_position() == 0 && self.tail_position() == 0,
            self.block_count() > 0 ==> self.block_count() == self.tail_position() / (LAP as nat)
                - self.head_position() / (LAP as nat) + 1,
            self.head_position() <= self.tail_position(),
            self.head_position() % (LAP as nat) < BLOCK_CAP,
            self.tail_position() % (LAP as nat) < BLOCK_CAP,
            self@.len() == 0 <==> self.head_position() == self.tail_position(),
    {
        lemma_position(self.head_index());
        lemma_position(self.tail_index());
    }

    /// Whether one more push fits in the tail's position counter: a push
    /// moves the tail by at most two positions, and the counter sits above
    /// the flag bit of a machine word.
    pub open spec fn has_room(&self) -> bool {
        self.tail_position() + 2 <= usize::MAX / 2
    }

    /// Well-formedness: the cursors address data slots, the head is not past
    /// the tail, the chain holds one block for each lap from the head's to the
    /// tail's, and each slot is taken before the head, full between the
    /// cursors and empty after the tail.
    pub closed spec fn wf(&self) -> bool {
        let h = self.head_index();
        let t = self.tail_index();
        &&& !flag_of(t)
        &&& offset_of(h) < BLOCK_CAP
        &&& offset_of(t) < BLOCK_CAP
        &&& lap_of(h) <= lap_of(t)
        &&& self.head_slot() <= self.tail_slot()
        &&& flag_of(h) ==> lap_of(h) < lap_of(t)
        &&& if self.blocks@.len() == 0 {
            h == 0 && t == 0
        } else {
            self.blocks@.len() == lap_of(t) - lap_of(h) + 1
        }
        &&& forall|b: int|
            0 <= b < self.blocks@.len() ==> (#[trigger] self.blocks@[b]).slots@.len() == BLOCK_CAP
        &&& forall|b: int, s: int|
            0 <= b < self.blocks@.len() && 0 <= s < BLOCK_CAP ==> self.slot_ok(
                BLOCK_CAP * b + s,
                #[trigger] self.blocks@[b].slots@[s],
            )
    }

    /// The items from head to tail, oldest first.
    pub closed spec fn items(&self) -> Seq<T> {
        Seq::new(
            (self.tail_slot() - self.head_slot()) as nat,
            |i: int| self.slot_at(self.head_slot() + i).value->0,
        )
    }

    /// The tail slot lies in the last block.
    proof fn lemma_tail_in_chain(&self)
        requires
            self.wf(),
            self.blocks@.len() > 0,
        ensures
            self.tail_slot() == BLOCK_CAP * (self.blocks@.len() - 1) + offset_of(
                self.tail_index(),
            ),
            self.tail_slot() < BLOCK_CAP * self.blocks@.len(),
    {
    }

    /// An empty queue. Nothing is allocated until the first push.
    pub fn new() -> (r: Self)
        ensures
            r.wf(),
            r@ == Seq::<T>::empty(),
            r.tail_position() == 0,
            r.head_position() == 0,
            r.block_count() == 0,
    {
        proof {
            assert(0usize / 2 == 0);
        }
        SegQueue { head: CachePadded::new(0), tail: CachePadded::new(0), blocks: VecDeque::new() }
    }

    /// Appends `value` at the tail. When the value fills the last data slot
    /// of the tail's block, a new block is linked after it and the tail moves
    /// over the unused position to the new block's first slot.
    pub fn push(&mut self, value: T)
        requires
            old(self).wf(),
            old(self).has_room(),
        ensures
            final(self).wf(),
            final(self)@ == old(self)@.push(value),
            final(self).tail_position() == old(self).tail_position() + if old(self).tail_position()
                % (LAP as nat) == BLOCK_CAP - 1 {
                2nat
            } else {
                1nat
            },
            final(self).head_position() == old(self).head_position(),
            final(self).block_count() == old(self).block_count() + (if old(self).block_count()
                == 0 {
                1nat
            } else {
                0nat
            }) + (if old(self).tail_position() % (LAP as nat) == BLOCK_CAP - 1 {
                1nat
            } else {
                0nat
            }),
    {
        let tail = *self.tail.get();
        let offset = index::offset(tail);
        proof {
            lemma_position(tail);
            lemma_state_bits();
        }
        // The successor block, made ready when this push fills the last data
        // slot of the tail's block.
        let mut next_block: Option<Block<T>> = None;
        if offset + 1 == BLOCK_CAP {
            next_block = Some(Block::new());
        }
        if self.blocks.len() == 0 {
            // The first push: the first block becomes both the head's and the
            // tail's.
            self.blocks.push_back(Block::new());
        }
        let ghost mid = *self;
        proof {
            assert(mid.wf()) by {
                assert forall|b: int, s: int|
                    0 <= b < mid.blocks@.len() && 0 <= s < BLOCK_CAP implies mid.slot_ok(
                    BLOCK_CAP * b + s,
                    #[trigger] mid.blocks@[b].slots@[s],
                ) by {
                    if old(self).blocks@.len() == 0 {
                        assert(b == 0);
                    } else {
                        assert(old(self).slot_ok(BLOCK_CAP * b + s, old(self).blocks@[b].slots@[s]));
                    }
                }
            }
            assert(mid@ == old(self)@);
        }
        let new_tail = index::advance(tail, 1);
        let last = self.blocks.len() - 1;
        let mut block = self.blocks.pop_back().unwrap();
        block.slots[offset].write(value);
        self.blocks.push_back(block);
        if offset + 1 == BLOCK_CAP {
            // Link the successor and move the tail over the unused position.
            let next_index = index::advance(new_tail, 1);
            self.blocks.push_back(next_block.unwrap());
            *self.tail.get_mut() = next_index;
        } else {
            *self.tail.get_mut() = new_tail;
        }
        proof {
            self.lemma_push_wf(mid, value);
        }
    }

    /// Removes and returns the item at the head, or `None` when the queue is
    /// empty. Reading the last data slot of a block moves the head to the
    /// successor block and retires the block it leaves.
    pub fn pop(&mut self) -> (r: Option<T>)
        requires
            old(self).wf(),
        ensures
            final(self).wf(),
            old(self)@.len() == 0 ==> r is None && final(self)@ == old(self)@,
            old(self)@.len() > 0 ==> r == Some(old(self)@[0]) && final(self)@ == old(
                self,
            )@.drop_first(),
            (r, final(self)@) == pop_model(old(self)@),
            final(self).tail_position() == old(self).tail_position(),
            old(self)@.len() == 0 ==> final(self).head_position() == old(self).head_position()
                && final(self).block_count() == old(self).block_count(),
            old(self)@.len() > 0 ==> final(self).head_position() == old(self).head_position() + (
            if old(self).head_position() % (LAP as nat) == BLOCK_CAP - 1 {
                2nat
            } else {
                1nat
            }),
            old(self)@.len() > 0 ==> final(self).block_count() == old(self).block_count() - (
            if old(self).head_position() % (LAP as nat) == BLOCK_CAP - 1 {
                1int
            } else {
                0int
            }),
    {
        let head = *self.head.get();
        let offset = index::offset(head);
        proof {
            lemma_position(head);
            lemma_position(self.tail_index());
            lemma_state_bits();
        }
        // Without the flag, the tail may be at the head: look at it.
        let mut flag_next = false;
        if !index::has_next(head) {
            let tail = *self.tail.get();
            if index::position(head) == index::position(tail) {
                return None;
            }
            if index::lap(head) != index::lap(tail) {
                flag_next = true;
            }
        }
        proof {
            assert(self@.len() > 0);
            self.lemma_head_in_chain();
        }
        let mut new_head = index::advance(head, 1);
        if flag_next {
            new_head = index::with_next(new_head);
        }
        let ghost pre = *self;
        let mut block = self.blocks.pop_front().unwrap();
        if offset + 1 == BLOCK_CAP {
            // The head leaves its block: move it over the unused position to
            // the successor, flagged when the successor has a successor too.
            let mut next_index = index::advance(index::without_next(new_head), 1);
            if self.blocks.len() > 1 {
                next_index = index::with_next(next_index);
            }
            *self.head.get_mut() = next_index;
        } else {
            *self.head.get_mut() = new_head;
        }
        let value = block.slots[offset].take();
        if offset + 1 == BLOCK_CAP {
            // The block's last data slot: sweep it from its first slot. All
            // of its slots have been read, so the block is retired here.
            let freed = block.destroy(0);
            proof {
                assert(freed);
                self.lemma_pop_last_wf(pre);
            }
        } else {
            let prev = block.slots[offset].mark(READ);
            proof {
                // A sweep only starts on a block that the head has left, so no
                // sweep has marked this slot and none is left to its reader.
                assert(prev & DESTROY == 0);
                assert(block.slots@ =~= pre.blocks@[0].slots@.update(
                    pre.head_slot(),
                    Slot { value: None, state: full_state() | READ },
                ));
            }
            self.blocks.push_front(block);
            proof {
                self.lemma_pop_wf(pre);
            }
        }
        value
    }

    /// Whether the queue holds no item: the cursors are at the same position.
    pub fn is_empty(&self) -> (r: bool)
        requires
            self.wf(),
        ensures
            r == (self@.len() == 0),
    {
        proof {
            lemma_position(self.head_index());
            lemma_position(self.tail_index());
        }
        index::position(*self.head.get()) == index::position(*self.tail.get())
    }

    /// The number of items in the queue: the slots between the cursors, less
    /// the unused position of each lap that the tail is past.
    pub fn len(&self) -> (r: usize)
        requires
            self.wf(),
        ensures
            r == self@.len(),
    {
        let mut tail = index::position(index::without_next(*self.tail.get()));
        let mut head = index::position(index::without_next(*self.head.get()));
        proof {
            lemma_position(self.head_index());
            lemma_position(self.tail_index());
        }
        // A cursor on the unused position counts from the next lap.
        if tail % LAP == LAP - 1 {
            tail = tail + 1;
        }
        if head % LAP == LAP - 1 {
            head = head + 1;
        }
        // Count from the first position of the head's lap.
        let lap = head / LAP;
        tail = tail - lap * LAP;
        head = head - lap * LAP;
        proof {
            lemma_lap_offset(
                tail as int,
                lap_of(self.tail_index()) - lap_of(self.head_index()),
                offset_of(self.tail_index()) as int,
            );
        }
        tail - head - tail / LAP
    }

    /// Whether one more push fits in the tail's position counter.
    pub fn has_room_for_push(&self) -> (r: bool)
        requires
            self.wf(),
        ensures
            r == self.has_room(),
    {
        index::position(*self.tail.get()) <= usize::MAX / 2 - 2
    }

    /// Hands the queue over to an iterator that takes its items in order.
    pub fn into_iter(self) -> (r: IntoIter<T>)
        requires
            self.wf(),
        ensures
            r.wf(),
            r@ == self@,
            r.head_position() == self.head_position(),
            r.block_count() == self.block_count(),
    {
        IntoIter { value: self }
    }

    /// The slot at the head lies in the first block, and holds the first item.
    proof fn lemma_head_in_chain(&self)
        requires
            self.wf(),
            self@.len() > 0,
        ensures
            self.blocks@.len() > 0,
            self.blocks@[0].slots@[self.head_slot()].value == Some(self@[0]),
            self.blocks@[0].slots@[self.head_slot()].state == full_state(),
            offset_of(self.head_index()) + 1 == BLOCK_CAP ==> lap_of(self.head_index()) < lap_of(
                self.tail_index(),
            ),
    {
        lemma_join(0, self.head_slot());
        assert(self.slot_ok(BLOCK_CAP * 0 + self.head_slot(), self.blocks@[0].slots@[self.head_slot()]));
    }

    /// What `pop` leaves behind when the head stays in its block, given the
    /// queue before.
    proof fn lemma_pop_wf(&self, pre: Self)
        requires
            pre.wf(),
            pre@.len() > 0,
            offset_of(pre.head_index()) + 1 < BLOCK_CAP,
            pos_of(self.head_index()) == pos_of(pre.head_index()) + 1,
            flag_of(self.head_index()) ==> lap_of(pre.head_index()) < lap_of(pre.tail_index()),
            self.tail_index() == pre.tail_index(),
            self.blocks@.len() == pre.blocks@.len(),
            forall|b: int| 0 < b < pre.blocks@.len() ==> #[trigger] self.blocks@[b] == pre.blocks@[b],
            self.blocks@[0].slots@ == pre.blocks@[0].slots@.update(
                pre.head_slot(),
                Slot { value: None, state: full_state() | READ },
            ),
        ensures
            self.wf(),
            self@ == pre@.drop_first(),
    {
        let h = pre.head_index();
        let h2 = self.head_index();
        lemma_state_bits();
        lemma_position(h);
        lemma_position(h2);
        lemma_lap_offset(pos_of(h2) as int, lap_of(h) as int, offset_of(h) + 1int);
        assert(self.head_slot() == pre.head_slot() + 1);
        assert(self.tail_slot() == pre.tail_slot());
        assert forall|b: int| 0 <= b < self.blocks@.len() implies (#[trigger] self.blocks@[b]).slots@.len() == BLOCK_CAP by {
            if b > 0 {
                assert(self.blocks@[b] == pre.blocks@[b]);
            }
        }
        assert forall|b: int, s: int|
            0 <= b < self.blocks@.len() && 0 <= s < BLOCK_CAP implies self.slot_ok(
            BLOCK_CAP * b + s,
            #[trigger] self.blocks@[b].slots@[s],
        ) by {
            assert(pre.slot_ok(BLOCK_CAP * b + s, pre.blocks@[b].slots@[s]));
            if b > 0 {
                assert(self.blocks@[b] == pre.blocks@[b]);
            }
        }
        assert(self@ =~= pre@.drop_first()) by {
            assert forall|i: int| 0 <= i < self@.len() implies #[trigger] self@[i] == pre@.drop_first()[i] by {
                let k = self.head_slot() + i;
                lemma_split(k);
                if k / BLOCK_CAP as int == 0 {
                    assert(k % BLOCK_CAP as int != pre.head_slot());
                }
            }
        }
    }

    /// What `pop` leaves behind when the head leaves its block, given the
    /// queue before.
    proof fn lemma_pop_last_wf(&self, pre: Self)
        requires
            pre.wf(),
            pre@.len() > 0,
            offset_of(pre.head_index()) + 1 == BLOCK_CAP,
            lap_of(pre.head_index()) < lap_of(pre.tail_index()),
            pos_of(self.head_index()) == pos_of(pre.head_index()) + 2,
            flag_of(self.head_index()) == (self.blocks@.len() > 1),
            self.tail_index() == pre.tail_index(),
            self.blocks@ == pre.blocks@.subrange(1, pre.blocks@.len() as int),
        ensures
            self.wf(),
            self@ == pre@.drop_first(),
    {
        let h = pre.head_index();
        let h2 = self.head_index();
        lemma_position(h);
        lemma_position(h2);
        lemma_lap_offset(pos_of(h2) as int, lap_of(h) + 1int, 0);
        assert(self.head_slot() == 0);
        assert(self.tail_slot() == pre.tail_slot() - BLOCK_CAP);
        assert forall|b: int, s: int|
            0 <= b < self.blocks@.len() && 0 <= s < BLOCK_CAP implies self.slot_ok(
            BLOCK_CAP * b + s,
            #[trigger] self.blocks@[b].slots@[s],
        ) by {
            assert(self.blocks@[b] == pre.blocks@[b + 1]);
            assert(pre.slot_ok(BLOCK_CAP * (b + 1) + s, pre.blocks@[b + 1].slots@[s]));
        }
        assert(self@ =~= pre@.drop_first()) by {
            assert forall|i: int| 0 <= i < self@.len() implies #[trigger] self@[i] == pre@.drop_first()[i] by {
                lemma_split(i);
            }
        }
    }

    /// What `push` leaves behind, given the queue just before its slot was
    /// written (with the first block already in place).
    proof fn lemma_push_wf(&self, mid: Self, value: T)
        requires
            mid.wf(),
            mid.blocks@.len() > 0,
            self.head_index() == mid.head_index(),
            offset_of(mid.tail_index()) + 1 < BLOCK_CAP ==> {
                &&& self.tail_index() == mid.tail_index() + 2
                &&& self.blocks@.len() == mid.blocks@.len()
            },
            offset_of(mid.tail_index()) + 1 == BLOCK_CAP ==> {
                &&& self.tail_index() == mid.tail_index() + 4
                &&& self.blocks@.len() == mid.blocks@.len() + 1
                &&& self.blocks@[mid.blocks@.len() as int].slots@.len() == BLOCK_CAP
                &&& forall|s: int|
                    0 <= s < BLOCK_CAP ==> (#[trigger] self.blocks@[mid.blocks@.len() as int].slots@[s]).value is None
                        && self.blocks@[mid.blocks@.len() as int].slots@[s].state == 0
            },
            forall|b: int| 0 <= b < mid.blocks@.len() - 1 ==> #[trigger] self.blocks@[b] == mid.blocks@[b],
            self.blocks@[mid.blocks@.len() - 1].slots@ == mid.blocks@[mid.blocks@.len() - 1].slots@.update(
                offset_of(mid.tail_index()) as int,
                Slot { value: Some(value), state: 0usize | crate::slot::WRITE },
            ),
        ensures
            self.wf(),
            self@ == mid@.push(value),
    {
        let t = mid.tail_index();
        let t2 = self.tail_index();
        let n = mid.blocks@.len() as int;
        lemma_state_bits();
        lemma_position(t);
        lemma_position(t2);
        mid.lemma_tail_in_chain();
        if offset_of(t) + 1 < BLOCK_CAP {
            lemma_lap_offset(pos_of(t2) as int, lap_of(t) as int, offset_of(t) + 1int);
        } else {
            lemma_lap_offset(pos_of(t2) as int, lap_of(t) + 1int, 0);
        }
        assert(self.tail_slot() == mid.tail_slot() + 1);
        assert forall|b: int| 0 <= b < self.blocks@.len() implies (#[trigger] self.blocks@[b]).slots@.len() == BLOCK_CAP by {
            if b < n - 1 {
                assert(self.blocks@[b] == mid.blocks@[b]);
            }
        }
        assert forall|b: int, s: int|
            0 <= b < self.blocks@.len() && 0 <= s < BLOCK_CAP implies self.slot_ok(
            BLOCK_CAP * b + s,
            #[trigger] self.blocks@[b].slots@[s],
        ) by {
            if b < n - 1 {
                assert(self.blocks@[b] == mid.blocks@[b]);
                assert(mid.slot_ok(BLOCK_CAP * b + s, mid.blocks@[b].slots@[s]));
            } else if b == n - 1 {
                assert(mid.slot_ok(BLOCK_CAP * b + s, mid.blocks@[b].slots@[s]));
            }
        }
        assert(self@ =~= mid@.push(value)) by {
            assert forall|i: int| 0 <= i < self@.len() implies #[trigger] self@[i] == mid@.push(value)[i] by {
                let k = self.head_slot() + i;
                lemma_split(k);
                if i < mid@.len() {
                    if k / BLOCK_CAP as int == n - 1 {
                        assert(k % BLOCK_CAP as int != offset_of(t));
                    }
                } else {
                    lemma_join(n - 1, offset_of(t) as int);
                }
            }
        }
    }
}

/// The queues after the first `i` pushes of a run of pushes from empty hold
/// the first `i` values pushed.
proof fn lemma_calls_pushes<T>(qs: Seq<SegQueue<T>>, vs: Seq<T>, i: int)
    requires
        qs.len() >= vs.len() + 1,
        qs[0]@ == Seq::<T>::empty(),
        forall|j: int| 0 <= j < vs.len() ==> #[trigger] qs[j + 1]@ == qs[j]@.push(vs[j]),
        0 <= i <= vs.len(),
    ensures
        qs[i]@ == vs.subrange(0, i),
    decreases i,
{
    if i == 0 {
        assert(vs.subrange(0, 0) =~= Seq::<T>::empty());
    } else {
        lemma_calls_pushes(qs, vs, i - 1);
        assert(qs[(i - 1) + 1]@ == qs[i - 1]@.push(vs[i - 1]));
        assert(vs.subrange(0, i - 1).push(vs[i - 1]) =~= vs.subrange(0, i));
    }
}

/// The queues after the first `i` pops of a run of pops on a queue holding
/// `vs` hold the rest of `vs`, and those pops returned its first `i` values.
proof fn lemma_calls_pops<T>(qs: Seq<SegQueue<T>>, vs: Seq<T>, rs: Seq<Option<T>>, i: int)
    requires
        qs.len() == 2 * vs.len() + 1,
        rs.len() == vs.len(),
        qs[vs.len() as int]@ == vs,
        forall|j: int|
            0 <= j < vs.len() ==> (#[trigger] rs[j], qs[vs.len() + j + 1]@) == pop_model(
                qs[vs.len() + j]@,
            ),
        0 <= i <= vs.len(),
    ensures
        qs[vs.len() + i]@ == vs.subrange(i, vs.len() as int),
        forall|j: int| 0 <= j < i ==> #[trigger] rs[j] == Some(vs[j]),
    decreases i,
{
    let n = vs.len() as int;
    if i == 0 {
        assert(vs.subrange(0, n) =~= vs);
    } else {
        lemma_calls_pops(qs, vs, rs, i - 1);
        assert((rs[i - 1], qs[n + (i - 1) + 1]@) == pop_model(qs[n + (i - 1)]@));
        assert(vs.subrange(i - 1, n).drop_first() =~= vs.subrange(i, n));
    }
}

/// First in, first out, over calls: `qs[0]` is an empty queue, `qs[i + 1]`
/// is `qs[i]` after `push(vs[i])`, and then `qs[n + i + 1]` is `qs[n + i]`
/// after a `pop` that returned `rs[i]`, each as the contracts of `push` and
/// `pop` state it. Then the pops return every value of `vs` in the order
/// pushed, and the queue is empty at the end.
pub proof fn lemma_calls_fifo<T>(qs: Seq<SegQueue<T>>, vs: Seq<T>, rs: Seq<Option<T>>)
    requires
        qs.len() == 2 * vs.len() + 1,
        rs.len() == vs.len(),
        qs[0]@ == Seq::<T>::empty(),
        forall|i: int| 0 <= i < vs.len() ==> #[trigger] qs[i + 1]@ == qs[i]@.push(vs[i]),
        forall|i: int|
            0 <= i < vs.len() ==> (#[trigger] rs[i], qs[vs.len() + i + 1]@) == pop_model(
                qs[vs.len() + i]@,
            ),
    ensures
        rs == vs.map_values(|v: T| Some(v)),
        qs.last()@ == Seq::<T>::empty(),
{
    let n = vs.len() as int;
    lemma_calls_pushes(qs, vs, n);
    assert(vs.subrange(0, n) =~= vs);
    lemma_calls_pops(qs, vs, rs, n);
    assert(vs.subrange(n, n) =~= Seq::<T>::empty());
    assert(rs =~= vs.map_values(|v: T| Some(v)));
}

/// No item is lost or made twice, over calls: `qs[0]` is an empty queue and
/// each `qs[i + 1]` is `qs[i]` after the call `ops[i]` as the contracts of
/// `push` and `pop` state it; `Some(v)` is a push of `v`, `None` a pop that
/// returned `rs[i]`. Then the items the pops returned, followed by the items
/// left in the last queue, are the pushed values in the order pushed: each
/// pushed value comes out as often as it went in, the values pushed by one
/// producer come out in that producer's order, and the number popped plus the
/// number left is the number pushed.
pub proof fn lemma_calls_no_loss<T>(
    qs: Seq<SegQueue<T>>,
    ops: Seq<Option<T>>,
    rs: Seq<Option<T>>,
)
    requires
        qs.len() == ops.len() + 1,
        rs.len() == ops.len(),
        qs[0]@ == Seq::<T>::empty(),
        forall|i: int|
            0 <= i < ops.len() && ops[i] is Some ==> #[trigger] qs[i + 1]@ == qs[i]@.push(
                ops[i]->0,
            ),
        forall|i: int|
            0 <= i < ops.len() && ops[i] is None ==> (rs[i], #[trigger] qs[i + 1]@) == pop_model(
                qs[i]@,
            ),
    ensures
        returned(ops, rs) + qs.last()@ == pushed(ops),
        (returned(ops, rs) + qs.last()@).to_multiset() == pushed(ops).to_multiset(),
        returned(ops, rs).len() + qs.last()@.len() == pushed(ops).len(),
    decreases ops.len(),
{
    if ops.len() == 0 {
        assert(Seq::<T>::empty() + qs[0]@ =~= Seq::<T>::empty());
    } else {
        let k = ops.len() - 1;
        let qs0 = qs.drop_last();
        let ops0 = ops.drop_last();
        let rs0 = rs.drop_last();
        assert forall|i: int| 0 <= i < ops0.len() && ops0[i] is Some implies #[trigger] qs0[i
            + 1]@ == qs0[i]@.push(ops0[i]->0) by {
            assert(qs[i + 1]@ == qs[i]@.push(ops[i]->0));
        }
        assert forall|i: int| 0 <= i < ops0.len() && ops0[i] is None implies (
        rs0[i],
        #[trigger] qs0[i + 1]@,
        ) == pop_model(qs0[i]@) by {
            assert((rs[i], qs[i + 1]@) == pop_model(qs[i]@));
        }
        lemma_calls_no_loss(qs0, ops0, rs0);
        assert(ops0.push(ops[k]) =~= ops);
        lemma_pushed_push(ops0, ops[k]);
        let before = returned(ops0, rs0);
        let q = qs[k]@;
        assert(qs0.last() == qs[k]);
        match ops[k] {
            Some(v) => {
                assert(qs[k + 1]@ == q.push(v));
                assert(before + q.push(v) =~= (before + q).push(v));
            },
            None => {
                assert((rs[k], qs[k + 1]@) == pop_model(q));
                if q.len() > 0 {
                    assert(before.push(q[0]) + q.drop_first() =~= before + q);
                }
            },
        }
    }
}

impl<T> View for SegQueue<T> {
    type V = Seq<T>;

    closed spec fn view(&self) -> Seq<T> {
        self.items()
    }
}

impl<T> Default for SegQueue<T> {
    fn default() -> (r: Self)
        ensures
            r.wf(),
            r@ == Seq::<T>::empty(),
    {
        SegQueue::new()
    }
}

/// Takes the items of a queue it owns, oldest first.
pub struct IntoIter<T> {
    value: SegQueue<T>,
}

impl<T> IntoIter<T> {
    /// The queue underneath is well formed.
    pub closed spec fn wf(&self) -> bool {
        self.value.wf()
    }

    /// Slot positions the head has moved past since the queue was made.
    pub closed spec fn head_position(&self) -> nat {
        self.value.head_position()
    }

    /// Blocks left in the chain.
    pub closed spec fn block_count(&self) -> nat {
        self.value.block_count()
    }

    /// Takes the oldest remaining item, or `None` when none is left. Taking
    /// the item in the last data slot of a block retires the block and moves
    /// the head over the unused position to the next block's first slot.
    pub fn next(&mut self) -> (r: Option<T>)
        requires
            old(self).wf(),
        ensures
            final(self).wf(),
            old(self)@.len() == 0 ==> r is None && final(self)@ == old(self)@,
            old(self)@.len() > 0 ==> r == Some(old(self)@[0]) && final(self)@ == old(
                self,
            )@.drop_first(),
            (r, final(self)@) == pop_model(old(self)@),
            old(self)@.len() == 0 ==> final(self).head_position() == old(self).head_position()
                && final(self).block_count() == old(self).block_count(),
            old(self)@.len() > 0 ==> final(self).head_position() == old(self).head_position() + (
            if old(self).head_position() % (LAP as nat) == BLOCK_CAP - 1 {
                2nat
            } else {
                1nat
            }),
            old(self)@.len() > 0 ==> final(self).block_count() == old(self).block_count() - (
            if old(self).head_position() % (LAP as nat) == BLOCK_CAP - 1 {
                1int
            } else {
                0int
            }),
    {
        self.value.pop()
    }
}

impl<T> View for IntoIter<T> {
    type V = Seq<T>;

    closed spec fn view(&self) -> Seq<T> {
        self.value@
    }
}

} // verus!
