//! A storage cell for one item and the state bits that guard it.
use vstd::prelude::*;

verus! {

/// State bit: an item has been written into the slot.
pub const WRITE: usize = 1;

/// State bit: the item has been read out of the slot.
pub const READ: usize = 2;

/// State bit: a retirement sweep has passed over the slot before it was read.
pub const DESTROY: usize = 4;

/// State of a slot that holds an item.
pub(crate) open spec fn full_state() -> usize {
    WRITE
}

/// State of a slot whose item has been taken.
pub(crate) open spec fn taken_state() -> usize {
    WRITE | READ
}

/// Whether a state word has the `READ` bit set.
pub(crate) open spec fn is_read(state: usize) -> bool {
    state & READ != 0
}

/// The bit facts about the three slot states that the queue relies on.
pub(crate) proof fn lemma_state_bits()
    ensures
        0usize | WRITE == full_state(),
        full_state() | READ == taken_state(),
        !is_read(0usize),
        !is_read(full_state()),
        is_read(taken_state()),
        full_state() & DESTROY == 0,
        taken_state() & DESTROY == 0,
{
    assert(0usize | 1usize == 1usize) by (bit_vector);
    assert(1usize | 2usize == 3usize) by (bit_vector);
    assert(0usize & 2usize == 0usize) by (bit_vector);
    assert(1usize & 2usize == 0usize) by (bit_vector);
    assert(3usize & 2usize != 0usize) by (bit_vector);
    assert(1usize & 4usize == 0usize) by (bit_vector);
    assert(3usize & 4usize == 0usize) by (bit_vector);
}

/// One item's storage: the item, if one is held, and the state bits
/// `WRITE`, `READ` and `DESTROY`.
pub struct Slot<T> {
    pub(crate) value: Option<T>,
    pub(crate) state: usize,
}

impl<T> Slot<T> {
    /// A slot that holds nothing, with no state bit set.
    pub(crate) fn new() -> (r: Self)
        ensures
            r.value is None,
            r.state == 0,
    {
        Slot { value: None, state: 0 }
    }

    /// Stores `v`, then publishes it by setting `WRITE`.
    pub(crate) fn write(&mut self, v: T)
        ensures
            final(self).value == Some(v),
            final(self).state == old(self).state | WRITE,
    {
        self.value = Some(v);
        self.state = self.state | WRITE;
    }

    /// Moves the item out, leaving the state bits as they are.
    pub(crate) fn take(&mut self) -> (r: Option<T>)
        ensures
            r == old(self).value,
            final(self).value is None,
            final(self).state == old(self).state,
    {
        self.value.take()
    }

    /// Sets the state bits of `bits` and returns the state from before.
    pub(crate) fn mark(&mut self, bits: usize) -> (prev: usize)
        ensures
            prev == old(self).state,
            final(self).state == old(self).state | bits,
            final(self).value == old(self).value,
    {
        let prev = self.state;
        self.state = prev | bits;
        prev
    }

    /// The current state bits.
    pub(crate) fn state(&self) -> (r: usize)
        ensures
            r == self.state,
    {
        self.state
    }
}

} // verus!
