//! The clocks of the system.
use vstd::prelude::*;

verus! {

/// Linux clock id of `CLOCK_REALTIME`, as in `libc`.
pub const CLOCK_REALTIME: i32 = 0;

/// Linux clock id of `CLOCK_MONOTONIC`, as in `libc`.
pub const CLOCK_MONOTONIC: i32 = 1;

#[derive(Debug, Clone, Copy, PartialEq, Eq, Structural)]
pub enum Clock {
    Monotonic,
    Realtime,
}

impl Clock {
    /// The id of the clock for `clock_gettime` and `clock_nanosleep`
    pub fn clock_id(self) -> (id: i32)
        ensures
            self == Clock::Monotonic ==> id == CLOCK_MONOTONIC,
            self == Clock::Realtime ==> id == CLOCK_REALTIME,
    {
        match self {
            Clock::Monotonic => CLOCK_MONOTONIC,
            Clock::Realtime => CLOCK_REALTIME,
        }
    }
}

} // verus!
