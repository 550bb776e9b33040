//! The single counter that hands out codepoint identifiers.

use vstd::prelude::*;

verus! {

/// A monotonically increasing counter, seeded from the configured start
/// point and shared across all emote sources during one run. Each
/// assignment returns the current value and advances it by one, so the
/// identifiers it hands out are unique and strictly increasing.
pub struct CodepointSequencer {
    next_value: u32,
}

impl CodepointSequencer {
    /// The value the next assignment will return.
    pub closed spec fn current(self) -> nat {
        self.next_value as nat
    }

    /// A fresh sequencer whose first assignment returns `start`.
    pub fn new(start: u32) -> (s: Self)
        ensures
            s.current() == start as nat,
    {
        CodepointSequencer { next_value: start }
    }

    /// Returns the current value and advances it by one.
    pub fn next(&mut self) -> (id: u32)
        requires
            old(self).current() < u32::MAX as nat,
        ensures
            id as nat == old(self).current(),
            final(self).current() == old(self).current() + 1,
    {
        let id = self.next_value;
        self.next_value = self.next_value + 1;
        id
    }

    /// The value the next assignment would return.
    pub fn peek(&self) -> (v: u32)
        ensures
            v as nat == self.current(),
    {
        self.next_value
    }
}

} // verus!
