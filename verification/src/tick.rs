use vstd::prelude::*;

verus! {

/// Atomic unit of time within the engine: one sample frame.
#[derive(Debug, Clone, Copy, PartialEq, Eq, PartialOrd, Ord, Hash, Structural)]
pub struct Tick(pub u64);

impl Tick {
    /// A tick from a frame count.
    pub fn from_frames(value: u64) -> (t: Tick)
        ensures
            t.0 == value,
    {
        Tick(value)
    }

    /// A tick from a frame count held in a `usize`.
    pub fn from_len(value: usize) -> (t: Tick)
        ensures
            t.0 == value,
    {
        Tick(value as u64)
    }

    /// The sum of two ticks.
    pub fn add(self, rhs: Tick) -> (t: Tick)
        requires
            self.0 + rhs.0 <= u64::MAX,
        ensures
            t.0 == self.0 + rhs.0,
    {
        Tick(self.0 + rhs.0)
    }

    /// The difference of two ticks.
    pub fn sub(self, rhs: Tick) -> (t: Tick)
        requires
            rhs.0 <= self.0,
        ensures
            t.0 == self.0 - rhs.0,
    {
        Tick(self.0 - rhs.0)
    }
}

impl From<u64> for Tick {
    fn from(value: u64) -> (t: Tick) {
        Tick(value)
    }
}

impl vstd::std_specs::convert::FromSpecImpl<u64> for Tick {
    open spec fn obeys_from_spec() -> bool {
        true
    }

    open spec fn from_spec(value: u64) -> Tick {
        Tick(value)
    }
}

impl From<usize> for Tick {
    fn from(value: usize) -> (t: Tick) {
        Tick(value as u64)
    }
}

impl vstd::std_specs::convert::FromSpecImpl<usize> for Tick {
    open spec fn obeys_from_spec() -> bool {
        true
    }

    open spec fn from_spec(value: usize) -> Tick {
        Tick(value as u64)
    }
}

} // verus!
