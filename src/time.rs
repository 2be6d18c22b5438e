//! Bag timestamps: seconds and nanoseconds, ordered by their total
//! nanosecond position.
use vstd::prelude::*;

use crate::errors::ParseError;
use crate::parsing::{le_u32, parse_le_u32, parse_le_u32_at};

verus! {

/// A timestamp of a bag: seconds and nanoseconds since the epoch.
#[derive(Clone, Copy, Debug, PartialEq, Eq, Structural)]
pub struct Time {
    pub secs: u32,
    pub nsecs: u32,
}

/// A duration as ROS messages carry it.
#[derive(Clone, Copy, Debug, PartialEq, Eq, Structural)]
pub struct RosDuration {
    pub secs: u32,
    pub nsecs: u32,
}

/// A non-negative span of wall-clock time, with `nsecs` below one second.
#[derive(Clone, Copy, Debug, PartialEq, Eq, Structural)]
pub struct Duration {
    pub secs: u64,
    pub nsecs: u32,
}

pub const NSECS_PER_SEC: u64 = 1_000_000_000;

impl Time {
    /// The position of this time in nanoseconds; times are ordered by it.
    pub open spec fn spec_nanos(self) -> int {
        self.secs * 1_000_000_000 + self.nsecs
    }

    /// The time whose eight bytes, seconds then nanoseconds, are `b[i..i + 8]`.
    pub open spec fn from_bytes_at(b: Seq<u8>, i: int) -> Time {
        Time { secs: le_u32(b, i), nsecs: le_u32(b, i + 4) }
    }

    /// The earliest time.
    pub fn zero() -> (r: Time)
        ensures
            r == (Time { secs: 0, nsecs: 0 }),
    {
        Time { secs: 0, nsecs: 0 }
    }

    /// The earliest non-zero time.
    pub fn min_time() -> (r: Time)
        ensures
            r == (Time { secs: 0, nsecs: 1 }),
    {
        Time { secs: 0, nsecs: 1 }
    }

    /// The latest time.
    pub fn max_time() -> (r: Time)
        ensures
            r == (Time { secs: u32::MAX, nsecs: 999_999_999 }),
    {
        Time { secs: u32::MAX, nsecs: 999_999_999 }
    }

    pub fn new(secs: u32, nsecs: u32) -> (r: Time)
        ensures
            r == (Time { secs, nsecs }),
    {
        Time { secs, nsecs }
    }

    /// Decodes a time from its eight bytes: little-endian seconds, then
    /// little-endian nanoseconds.
    pub fn from(buf: &[u8]) -> (r: Result<Time, ParseError>)
        ensures
            buf@.len() >= 8 ==> r == Ok::<Time, ParseError>(Time::from_bytes_at(buf@, 0)),
            buf@.len() < 8 ==> r == Err::<Time, ParseError>(ParseError::BufferTooSmall),
    {
        if buf.len() < 8 {
            return Err(ParseError::BufferTooSmall);
        }
        let secs = parse_le_u32(buf);
        let nsecs = parse_le_u32_at(buf, 4);
        match (secs, nsecs) {
            (Ok(secs), Ok(nsecs)) => Ok(Time { secs, nsecs }),
            _ => Err(ParseError::BufferTooSmall),
        }
    }

    /// The position of this time in nanoseconds.
    pub fn nanos(&self) -> (r: u64)
        ensures
            r == self.spec_nanos(),
    {
        self.secs as u64 * NSECS_PER_SEC + self.nsecs as u64
    }

    /// Orders two times by their nanosecond position.
    pub fn compare(&self, other: &Time) -> (r: core::cmp::Ordering)
        ensures
            (r == core::cmp::Ordering::Less) <==> self.spec_nanos() < other.spec_nanos(),
            (r == core::cmp::Ordering::Equal) <==> self.spec_nanos() == other.spec_nanos(),
            (r == core::cmp::Ordering::Greater) <==> self.spec_nanos() > other.spec_nanos(),
    {
        let a = self.nanos();
        let b = other.nanos();
        if a < b {
            core::cmp::Ordering::Less
        } else if a == b {
            core::cmp::Ordering::Equal
        } else {
            core::cmp::Ordering::Greater
        }
    }

    /// The wall-clock time from `other` to `self`.
    pub fn dur(&self, other: &Time) -> (r: Duration)
        requires
            other.spec_nanos() <= self.spec_nanos(),
        ensures
            r.spec_nanos() == self.spec_nanos() - other.spec_nanos(),
            r.nsecs < 1_000_000_000,
    {
        let d = self.nanos() - other.nanos();
        Duration { secs: d / NSECS_PER_SEC, nsecs: (d % NSECS_PER_SEC) as u32 }
    }
}

impl Duration {
    pub open spec fn spec_nanos(self) -> int {
        self.secs * 1_000_000_000 + self.nsecs
    }

    /// Whole seconds of this duration.
    pub fn as_secs(&self) -> (r: u64)
        ensures
            r == self.secs,
    {
        self.secs
    }
}

} // verus!
