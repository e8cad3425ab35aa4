//! A fixed run of slots: the unit in which the queue allocates and retires.
use vstd::prelude::*;
use crate::index::BLOCK_CAP;
use crate::slot::{Slot, DESTROY, READ, is_read};

verus! {

/// `BLOCK_CAP` slots. A block's successor in the chain is the block after it.
pub(crate) struct Block<T> {
    pub(crate) slots: Vec<Slot<T>>,
}

/// Whether every slot of `slots` in `start..end` has been read.
pub(crate) open spec fn read_between<T>(slots: Seq<Slot<T>>, start: int, end: int) -> bool {
    forall|i: int| start <= i < end ==> is_read(#[trigger] slots[i].state)
}

/// Whether every slot of `slots` from `start` up to the last data slot but
/// one has been read: the slots that a retirement sweep from `start` visits.
pub(crate) open spec fn read_from<T>(slots: Seq<Slot<T>>, start: int) -> bool {
    read_between(slots, start, BLOCK_CAP - 1)
}

impl<T> Block<T> {
    /// A block whose slots all hold nothing and have no state bit set.
    pub(crate) fn new() -> (r: Self)
        ensures
            r.slots@.len() == BLOCK_CAP,
            forall|i: int|
                0 <= i < BLOCK_CAP ==> (#[trigger] r.slots@[i]).value is None && r.slots@[i].state
                    == 0,
    {
        let mut slots: Vec<Slot<T>> = Vec::new();
        let mut i: usize = 0;
        while i < BLOCK_CAP
            invariant
                i <= BLOCK_CAP,
                slots@.len() == i,
                forall|j: int|
                    0 <= j < i ==> (#[trigger] slots@[j]).value is None && slots@[j].state == 0,
            decreases BLOCK_CAP - i,
        {
            slots.push(Slot::new());
            i = i + 1;
        }
        Block { slots }
    }

    /// Retirement sweep from slot `start`: for each slot up to the last data
    /// slot but one that has not been read, sets `DESTROY` and gives up, so
    /// that the reader of that slot finishes the sweep. Returns whether every
    /// slot swept had been read, in which case the block can be freed.
    pub(crate) fn destroy(&mut self, start: usize) -> (freed: bool)
        requires
            old(self).slots@.len() == BLOCK_CAP,
            start < BLOCK_CAP,
        ensures
            freed == read_from(old(self).slots@, start as int),
            final(self).slots@.len() == BLOCK_CAP,
            forall|i: int|
                0 <= i < BLOCK_CAP ==> (#[trigger] final(self).slots@[i]).value == old(
                    self,
                ).slots@[i].value,
            forall|i: int|
                0 <= i < BLOCK_CAP ==> (#[trigger] final(self).slots@[i]).state == old(
                    self,
                ).slots@[i].state || (final(self).slots@[i].state == old(self).slots@[i].state
                    | DESTROY && !is_read(old(self).slots@[i].state) && start <= i < BLOCK_CAP - 1
                    && read_between(old(self).slots@, start as int, i)),
            !freed ==> exists|j: int|
                start <= j < BLOCK_CAP - 1 && !is_read(old(self).slots@[j].state) && read_between(
                    old(self).slots@,
                    start as int,
                    j,
                ) && (#[trigger] final(self).slots@[j]).state == old(self).slots@[j].state
                    | DESTROY,
    {
        let mut i: usize = start;
        while i < BLOCK_CAP - 1
            invariant
                start <= i <= BLOCK_CAP - 1,
                self.slots@.len() == BLOCK_CAP,
                self.slots@ == old(self).slots@,
                forall|j: int| start <= j < i ==> is_read(#[trigger] self.slots@[j].state),
            decreases BLOCK_CAP - i,
        {
            if self.slots[i].state() & READ == 0 {
                let prev = self.slots[i].mark(DESTROY);
                if prev & READ == 0 {
                    assert(self.slots@[i as int].state == old(self).slots@[i as int].state
                        | DESTROY);
                    return false;
                }
            }
            i = i + 1;
        }
        true
    }
}

} // verus!
