//! Spans of time.
use vstd::prelude::*;

verus! {

/// How many nanoseconds a second has.
pub const NANOS_PER_SEC: u32 = 1_000_000_000;

/// A span of time: whole seconds, and the nanoseconds beyond them. A moment is the span of time
/// since the program began.
#[derive(Clone, Copy, PartialEq, Eq, Debug, Structural)]
pub struct Duration {
    secs: u64,
    nanos: u32,
}

/// The span in nanoseconds.
pub open spec fn in_nanos(secs: int, nanos: int) -> int {
    secs * NANOS_PER_SEC + nanos
}

impl View for Duration {
    type V = int;

    closed spec fn view(&self) -> int {
        in_nanos(self.secs as int, self.nanos as int)
    }
}

/// The longest span.
pub open spec fn longest() -> int {
    in_nanos(u64::MAX as int, NANOS_PER_SEC - 1)
}

impl Duration {
    #[verifier::type_invariant]
    spec fn is_normal(self) -> bool {
        self.nanos < NANOS_PER_SEC
    }

    pub fn new(secs: u64, nanos: u32) -> (d: Duration)
        requires
            nanos < NANOS_PER_SEC,
        ensures
            d@ == in_nanos(secs as int, nanos as int),
    {
        Duration { secs, nanos }
    }

    pub fn from_secs(secs: u64) -> (d: Duration)
        ensures
            d@ == in_nanos(secs as int, 0),
    {
        Duration { secs, nanos: 0 }
    }

    /// The whole seconds.
    pub fn secs(&self) -> (secs: u64)
        ensures
            secs == self@ / (NANOS_PER_SEC as int),
    {
        proof {
            use_type_invariant(self);
        }
        self.secs
    }

    /// The nanoseconds beyond the whole seconds.
    pub fn nanos(&self) -> (nanos: u32)
        ensures
            nanos == self@ % (NANOS_PER_SEC as int),
            nanos < NANOS_PER_SEC,
    {
        proof {
            use_type_invariant(self);
        }
        self.nanos
    }

    /// This span and another one, if there is one so long.
    pub fn checked_add(self, other: Duration) -> (sum: Option<Duration>)
        ensures
            match sum {
                Some(d) => d@ == self@ + other@ && d@ <= longest(),
                None => self@ + other@ > longest(),
            },
    {
        proof {
            use_type_invariant(&self);
            use_type_invariant(&other);
        }
        let mut nanos: u32 = self.nanos + other.nanos;
        let mut carry: u64 = 0;
        if nanos >= NANOS_PER_SEC {
            nanos = nanos - NANOS_PER_SEC;
            carry = 1;
        }
        if self.secs > u64::MAX - other.secs {
            return None;
        }
        let secs: u64 = self.secs + other.secs;
        if secs > u64::MAX - carry {
            return None;
        }
        Some(Duration { secs: secs + carry, nanos })
    }

    /// What this span has beyond another one, if it is not shorter.
    pub fn checked_sub(self, other: Duration) -> (rest: Option<Duration>)
        ensures
            match rest {
                Some(d) => d@ == self@ - other@ && d@ >= 0,
                None => self@ < other@,
            },
    {
        proof {
            use_type_invariant(&self);
            use_type_invariant(&other);
        }
        if self.secs < other.secs {
            return None;
        }
        let secs: u64 = self.secs - other.secs;
        if self.nanos >= other.nanos {
            return Some(Duration { secs, nanos: self.nanos - other.nanos });
        }
        if secs == 0 {
            return None;
        }
        Some(Duration { secs: secs - 1, nanos: NANOS_PER_SEC - other.nanos + self.nanos })
    }
}

} // verus!
