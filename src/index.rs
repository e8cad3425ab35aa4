//! Packed cursor indices.
//!
//! A cursor index is one machine word. Bit 0 is the `HAS_NEXT` flag; the bits
//! above it count slot positions. A position is `lap * LAP + offset`, where
//! `offset < LAP` addresses a slot inside a block. Only offsets below
//! `BLOCK_CAP` hold data: the last offset of every lap is a marker that a
//! cursor steps over when it moves on to the next block.
use vstd::prelude::*;

verus! {

/// Slot positions per lap.
pub const LAP: usize = 32;

/// Data slots per block: one position per lap is never used for data.
pub const BLOCK_CAP: usize = 31;

/// Width of the flag field below the position counter.
pub const SHIFT: usize = 1;

/// Flag bit: the block at this index already has a successor.
pub const HAS_NEXT: usize = 1;

/// The slot position an index carries, flag dropped.
pub open spec fn pos_of(index: usize) -> nat {
    (index / 2) as nat
}

/// Whether the `HAS_NEXT` flag of an index is set.
pub open spec fn flag_of(index: usize) -> bool {
    index % 2 == 1
}

/// Offset of an index inside its lap.
pub open spec fn offset_of(index: usize) -> nat {
    pos_of(index) % 32
}

/// Lap number of an index.
pub open spec fn lap_of(index: usize) -> nat {
    pos_of(index) / 32
}

proof fn lemma_shift_is_half(x: usize)
    ensures
        x >> 1usize == x / 2,
{
    assert(x >> 1usize == x / 2) by (bit_vector);
}

/// Offset of `index` inside its lap.
pub fn offset(index: usize) -> (r: usize)
    ensures
        r == offset_of(index),
        r < LAP,
{
    proof {
        lemma_shift_is_half(index);
    }
    (index >> SHIFT) % LAP
}

/// Lap number of `index`.
pub fn lap(index: usize) -> (r: usize)
    ensures
        r == lap_of(index),
{
    proof {
        lemma_shift_is_half(index);
    }
    (index >> SHIFT) / LAP
}

/// Slot position of `index`, flag dropped.
pub fn position(index: usize) -> (r: usize)
    ensures
        r == pos_of(index),
{
    proof {
        lemma_shift_is_half(index);
    }
    index >> SHIFT
}

/// Whether `index` carries the `HAS_NEXT` flag.
pub fn has_next(index: usize) -> (r: bool)
    ensures
        r == flag_of(index),
{
    assert((index & 1usize != 0) == (index % 2 == 1)) by (bit_vector);
    index & HAS_NEXT != 0
}

/// `index` with the `HAS_NEXT` flag set.
pub fn with_next(index: usize) -> (r: usize)
    ensures
        pos_of(r) == pos_of(index),
        flag_of(r),
{
    assert(((index | 1usize) / 2 == index / 2) && ((index | 1usize) % 2 == 1)) by (bit_vector);
    index | HAS_NEXT
}

/// `index` with the `HAS_NEXT` flag cleared.
pub fn without_next(index: usize) -> (r: usize)
    ensures
        pos_of(r) == pos_of(index),
        !flag_of(r),
        r <= index,
{
    assert(((index & !1usize) / 2 == index / 2) && ((index & !1usize) % 2 == 0) && (index
        & !1usize) <= index) by (bit_vector);
    index & !HAS_NEXT
}

/// `index` moved forward by `n` slot positions, flag kept.
pub fn advance(index: usize, n: usize) -> (r: usize)
    requires
        index + 2 * n <= usize::MAX,
    ensures
        pos_of(r) == pos_of(index) + n,
        flag_of(r) == flag_of(index),
        r == index + 2 * n,
{
    proof {
        vstd::arithmetic::power2::lemma2_to64();
        vstd::bits::lemma_usize_shl_is_mul(n, 1);
    }
    index + (n << SHIFT)
}

} // verus!
