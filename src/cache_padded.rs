//! A wrapper that keeps a value apart from its neighbours in memory.
use vstd::prelude::*;

verus! {

/// Holds a value that is written often by one group of threads, so that it
/// does not share a cache line with a value that another group writes.
pub struct CachePadded<T> {
    pub value: T,
}

impl<T> CachePadded<T> {
    /// The wrapped value.
    pub open spec fn inner(&self) -> T {
        self.value
    }

    /// Wraps `t`.
    pub fn new(t: T) -> (r: Self)
        ensures
            r.inner() == t,
    {
        CachePadded { value: t }
    }

    /// Unwraps the value.
    pub fn into_inner(self) -> (r: T)
        ensures
            r == self.inner(),
    {
        self.value
    }

    /// Reads the wrapped value.
    pub fn get(&self) -> (r: &T)
        ensures
            *r == self.inner(),
    {
        &self.value
    }

    /// Gives write access to the wrapped value.
    pub fn get_mut(&mut self) -> (r: &mut T)
        ensures
            *r == old(self).inner(),
            final(self).inner() == *final(r),
    {
        &mut self.value
    }
}

impl<T> From<T> for CachePadded<T> {
    fn from(t: T) -> (r: Self) {
        CachePadded::new(t)
    }
}

impl<T> vstd::std_specs::convert::FromSpecImpl<T> for CachePadded<T> {
    open spec fn obeys_from_spec() -> bool {
        true
    }

    open spec fn from_spec(v: T) -> Self {
        CachePadded { value: v }
    }
}

} // verus!
