//! File metadata as plain values.
use vstd::prelude::*;

verus! {

/// A point in time at or after the Unix epoch.
#[derive(Debug, Clone, Copy, PartialEq, Eq, Structural)]
pub struct Timestamp {
    /// Whole seconds since the epoch.
    pub secs: u64,
    /// Nanoseconds within the second.
    pub nanos: u32,
}

impl Timestamp {
    /// Nanoseconds since the epoch.
    pub open spec fn nanos_since_epoch(self) -> nat {
        (self.secs as nat) * 1_000_000_000 + self.nanos as nat
    }

    /// Nanoseconds since the epoch.
    pub fn as_nanos(&self) -> (n: u128)
        ensures
            n == self.nanos_since_epoch(),
    {
        (self.secs as u128) * 1_000_000_000u128 + (self.nanos as u128)
    }
}

/// What a successful stat of a file gives.
#[derive(Debug, Clone, Copy, PartialEq, Eq, Structural)]
pub struct FileMeta {
    /// Size in bytes.
    pub size: u64,
    /// Last modification, where the platform knows it and it is not before
    /// the epoch.
    pub modified: Option<Timestamp>,
    /// Creation, under the same conditions.
    pub created: Option<Timestamp>,
    /// POSIX mode bits, 0 on platforms without them.
    pub mode: u32,
}

} // verus!
