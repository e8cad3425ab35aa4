//! Spin-then-yield contention backoff.
use vstd::prelude::*;

verus! {

/// Above this step a backoff stops spinning longer and starts yielding.
pub const SPIN_LIMIT: u32 = 6;

/// Above this step a backoff reports itself completed.
pub const YIELD_LIMIT: u32 = 10;

/// `2` to the power `e`.
pub open spec fn pow2(e: nat) -> nat
    decreases e,
{
    if e == 0 {
        1
    } else {
        2 * pow2((e - 1) as nat)
    }
}

/// Relies on core::hint::spin_loop: a processor hint that changes no program state.
pub assume_specification[ core::hint::spin_loop ]();

/// Adaptive backoff for retry loops: a step counter that sets how long to wait.
pub struct Backoff {
    step: u32,
}

impl Backoff {
    /// The current step of the counter.
    pub closed spec fn step(&self) -> nat {
        self.step as nat
    }

    /// A backoff at step zero.
    pub fn new() -> (r: Self)
        ensures
            r.step() == 0,
    {
        Backoff { step: 0 }
    }

    /// Puts the counter back to step zero.
    pub fn reset(&mut self)
        ensures
            final(self).step() == 0,
    {
        self.step = 0;
    }

    /// Issues `2^min(step, SPIN_LIMIT)` spin hints, then moves the step up by
    /// one unless it is already past `SPIN_LIMIT`.
    pub fn spin(&mut self)
        ensures
            final(self).step() == if old(self).step() <= SPIN_LIMIT {
                old(self).step() + 1
            } else {
                old(self).step()
            },
    {
        let e = if self.step <= SPIN_LIMIT {
            self.step
        } else {
            SPIN_LIMIT
        };
        spin_hints(e);
        if self.step <= SPIN_LIMIT {
            self.step = self.step + 1;
        }
    }

    /// While the step is at most `SPIN_LIMIT`, issues `2^step` spin hints;
    /// past it, spins no more and reports that the caller should yield its
    /// thread. The step then moves up by one unless it is past `YIELD_LIMIT`.
    pub fn snooze(&mut self) -> (yield_now: bool)
        ensures
            yield_now == (old(self).step() > SPIN_LIMIT),
            final(self).step() == if old(self).step() <= YIELD_LIMIT {
                old(self).step() + 1
            } else {
                old(self).step()
            },
    {
        let yield_now = if self.step <= SPIN_LIMIT {
            spin_hints(self.step);
            false
        } else {
            true
        };
        if self.step <= YIELD_LIMIT {
            self.step = self.step + 1;
        }
        yield_now
    }

    /// Whether the step has gone past `YIELD_LIMIT`.
    pub fn is_completed(&self) -> (r: bool)
        ensures
            r == (self.step() > YIELD_LIMIT),
    {
        self.step > YIELD_LIMIT
    }
}

impl Default for Backoff {
    fn default() -> (r: Self)
        ensures
            r.step() == 0,
    {
        Backoff::new()
    }
}

proof fn lemma_shl_is_pow2(e: u32)
    requires
        e <= SPIN_LIMIT,
    ensures
        1u32 << e == pow2(e as nat),
{
    reveal_with_fuel(pow2, 7);
    assert(e == 0u32 ==> 1u32 << e == 1u32) by (bit_vector);
    assert(e == 1u32 ==> 1u32 << e == 2u32) by (bit_vector);
    assert(e == 2u32 ==> 1u32 << e == 4u32) by (bit_vector);
    assert(e == 3u32 ==> 1u32 << e == 8u32) by (bit_vector);
    assert(e == 4u32 ==> 1u32 << e == 16u32) by (bit_vector);
    assert(e == 5u32 ==> 1u32 << e == 32u32) by (bit_vector);
    assert(e == 6u32 ==> 1u32 << e == 64u32) by (bit_vector);
}

/// Issues `2^e` spin hints and returns how many were issued.
fn spin_hints(e: u32) -> (n: u32)
    requires
        e <= SPIN_LIMIT,
    ensures
        n == pow2(e as nat),
{
    proof {
        lemma_shl_is_pow2(e);
    }
    let count: u32 = 1u32 << e;
    let mut i: u32 = 0;
    while i < count
        invariant
            i <= count,
        decreases count - i,
    {
        core::hint::spin_loop();
        i = i + 1;
    }
    count
}

} // verus!
