//! Points in time and spans of time, with nanosecond resolution.
//!
//! A `Timestamp` is viewed as the signed number of nanoseconds since the Unix
//! epoch, a `Duration` as an unsigned number of nanoseconds.
use vstd::prelude::*;

verus! {

/// Nanoseconds in one second.
pub open spec fn nanos_per_sec() -> int {
    1_000_000_000
}

/// A span of time: whole seconds plus a sub-second part in nanoseconds.
#[derive(Clone, Copy, Debug, PartialEq, Eq, Structural)]
pub struct Duration {
    secs: u64,
    nanos: u32,
}

impl Duration {
    #[verifier::type_invariant]
    spec fn well_formed(self) -> bool {
        self.nanos < 1_000_000_000
    }
}

impl View for Duration {
    type V = nat;

    /// The span in nanoseconds.
    closed spec fn view(&self) -> nat {
        (self.secs as nat) * 1_000_000_000 + self.nanos as nat
    }
}

impl Duration {
    /// A span of whole seconds.
    pub fn from_secs(secs: u64) -> (d: Duration)
        ensures
            d@ == secs * nanos_per_sec(),
    {
        Duration { secs, nanos: 0 }
    }

    /// A span of `secs` seconds and `nanos` nanoseconds.
    pub fn new(secs: u64, nanos: u32) -> (d: Duration)
        requires
            nanos < 1_000_000_000,
        ensures
            d@ == secs * nanos_per_sec() + nanos,
    {
        Duration { secs, nanos }
    }

    /// The empty span.
    pub fn zero() -> (d: Duration)
        ensures
            d@ == 0,
    {
        Duration { secs: 0, nanos: 0 }
    }

    /// The number of whole seconds in the span.
    pub fn as_secs(&self) -> (s: u64)
        ensures
            s == self@ as int / nanos_per_sec(),
    {
        proof {
            use_type_invariant(self);
        }
        self.secs
    }

    /// The sub-second part of the span, in nanoseconds.
    pub fn subsec_nanos(&self) -> (n: u32)
        ensures
            n == self@ as int % nanos_per_sec(),
    {
        proof {
            use_type_invariant(self);
        }
        self.nanos
    }

    /// `self - other`, or zero where `other` is the longer span.
    pub fn saturating_sub(&self, other: Duration) -> (d: Duration)
        ensures
            d@ == if self@ >= other@ { self@ - other@ } else { 0 },
    {
        proof {
            use_type_invariant(self);
            use_type_invariant(&other);
        }
        if self.secs > other.secs || (self.secs == other.secs && self.nanos >= other.nanos) {
            if self.nanos >= other.nanos {
                Duration { secs: self.secs - other.secs, nanos: self.nanos - other.nanos }
            } else {
                Duration {
                    secs: self.secs - other.secs - 1,
                    nanos: self.nanos + 1_000_000_000 - other.nanos,
                }
            }
        } else {
            Duration { secs: 0, nanos: 0 }
        }
    }
}

/// A point in time: seconds relative to the Unix epoch plus a non-negative
/// sub-second part in nanoseconds.
#[derive(Clone, Copy, Debug, PartialEq, Eq, Structural)]
pub struct Timestamp {
    secs: i64,
    nanos: u32,
}

impl Timestamp {
    #[verifier::type_invariant]
    spec fn well_formed(self) -> bool {
        self.nanos < 1_000_000_000
    }
}

impl View for Timestamp {
    type V = int;

    /// Nanoseconds since the Unix epoch (negative before it).
    closed spec fn view(&self) -> int {
        self.secs * 1_000_000_000 + self.nanos
    }
}

impl Timestamp {
    /// The latest point a `Timestamp` can hold, in nanoseconds since the epoch.
    pub open spec fn max_nanos() -> int {
        i64::MAX * nanos_per_sec() + (nanos_per_sec() - 1)
    }

    /// Whole seconds since the epoch of a point, counting only points at or
    /// after the epoch (earlier points count as zero).
    pub open spec fn unix_secs_of(t: int) -> int {
        if t >= 0 {
            t / nanos_per_sec()
        } else {
            0
        }
    }

    /// The Unix epoch itself.
    pub fn unix_epoch() -> (t: Timestamp)
        ensures
            t@ == 0,
    {
        Timestamp { secs: 0, nanos: 0 }
    }

    /// The point `secs` seconds and `nanos` nanoseconds after the epoch
    /// (`secs` may be negative).
    pub fn new(secs: i64, nanos: u32) -> (t: Timestamp)
        requires
            nanos < 1_000_000_000,
        ensures
            t@ == secs * nanos_per_sec() + nanos,
    {
        Timestamp { secs, nanos }
    }

    /// The whole-second part of the point (rounded towards minus infinity).
    pub fn secs(&self) -> (s: i64)
        ensures
            s == self@ as int / nanos_per_sec(),
    {
        proof {
            use_type_invariant(self);
        }
        self.secs
    }

    /// Whether `self` is strictly earlier than `other`.
    pub fn is_before(&self, other: &Timestamp) -> (b: bool)
        ensures
            b == (self@ < other@),
    {
        proof {
            use_type_invariant(self);
            use_type_invariant(other);
        }
        self.secs < other.secs || (self.secs == other.secs && self.nanos < other.nanos)
    }

    /// The point `d` after `self`, or `None` where it cannot be held.
    pub fn checked_add(&self, d: Duration) -> (r: Option<Timestamp>)
        ensures
            r matches Some(t) ==> t@ == self@ + d@,
            r is Some <==> self@ + d@ <= Timestamp::max_nanos(),
    {
        proof {
            use_type_invariant(self);
            use_type_invariant(&d);
        }
        let mut nanos = self.nanos + d.nanos;
        let mut carry: i128 = 0;
        if nanos >= 1_000_000_000 {
            nanos = nanos - 1_000_000_000;
            carry = 1;
        }
        let total: i128 = self.secs as i128 + d.secs as i128 + carry;
        if total > i64::MAX as i128 {
            return None;
        }
        Some(Timestamp { secs: total as i64, nanos })
    }

    /// The point `d` after `self`.
    pub fn add_duration(&self, d: Duration) -> (t: Timestamp)
        requires
            self@ + d@ <= Timestamp::max_nanos(),
        ensures
            t@ == self@ + d@,
    {
        self.checked_add(d).unwrap()
    }

    /// The span from `earlier` to `self`, or `None` where `earlier` is later.
    pub fn duration_since(&self, earlier: &Timestamp) -> (r: Option<Duration>)
        ensures
            r is Some <==> earlier@ <= self@,
            r matches Some(d) ==> d@ == self@ - earlier@,
    {
        proof {
            use_type_invariant(self);
            use_type_invariant(earlier);
        }
        if self.secs > earlier.secs || (self.secs == earlier.secs && self.nanos >= earlier.nanos) {
            let diff = (self.secs as i128 - earlier.secs as i128) as u64;
            if self.nanos >= earlier.nanos {
                Some(Duration { secs: diff, nanos: self.nanos - earlier.nanos })
            } else {
                Some(Duration { secs: diff - 1, nanos: self.nanos + 1_000_000_000 - earlier.nanos })
            }
        } else {
            None
        }
    }
}

} // verus!
