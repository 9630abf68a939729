//! Absolute timestamps and signed spans of time, both with nanosecond
//! resolution.
//!
//! A timestamp is modelled as an integer number of nanoseconds since the
//! epoch (`Timespec::total_nanos`), a span as an integer number of
//! nanoseconds (`Duration::total_nanos`). All arithmetic is specified over
//! these integers.
use vstd::prelude::*;

verus! {

/// Nanoseconds in one second.
pub const NSEC_PER_SEC: i32 = 1_000_000_000;

/// Seconds in one minute.
pub const SECS_PER_MINUTE: i64 = 60;

/// Seconds in one hour.
pub const SECS_PER_HOUR: i64 = 3_600;

/// Seconds in one day.
pub const SECS_PER_DAY: i64 = 86_400;

/// The largest number of whole seconds a [`Duration`] spans in either
/// direction: as many seconds as fit in a 64-bit count of milliseconds.
pub const MAX_DURATION_SECS: i64 = 9_223_372_036_854_775;

/// The largest distance in seconds between the epoch and a timestamp the
/// engine computes with: three times `MAX_DURATION_SECS`, which leaves room
/// for a reference day, a moment and a jitter window on top of each other.
pub const MAX_TIMESTAMP_SECS: i64 = 27_670_116_110_564_325;

/// A signed span of time: `secs` whole seconds plus `nanos` nanoseconds, the
/// nanoseconds always counting forward.
#[derive(Clone, Copy, PartialEq, Eq, Structural, Debug, PartialOrd, Ord, Hash)]
pub struct Duration {
    pub secs: i64,
    pub nanos: i32,
}

impl Duration {
    /// The nanoseconds are below one second and the span is within
    /// `MAX_DURATION_SECS` of zero.
    pub open spec fn wf(self) -> bool {
        &&& 0 <= self.nanos < NSEC_PER_SEC
        &&& -MAX_DURATION_SECS <= self.secs <= MAX_DURATION_SECS
    }

    /// The span as a number of nanoseconds.
    pub open spec fn total_nanos(self) -> int {
        self.secs * NSEC_PER_SEC + self.nanos
    }

    /// The whole seconds of the span, rounded towards zero.
    pub open spec fn whole_seconds(self) -> int {
        if self.secs < 0 && self.nanos > 0 {
            self.secs + 1
        } else {
            self.secs as int
        }
    }

    /// A span of `seconds` seconds.
    pub fn seconds(seconds: i64) -> (d: Duration)
        requires
            -MAX_DURATION_SECS <= seconds <= MAX_DURATION_SECS,
        ensures
            d.wf(),
            d.secs == seconds,
            d.nanos == 0,
    {
        Duration { secs: seconds, nanos: 0 }
    }

    /// A span of `minutes` minutes.
    pub fn minutes(minutes: i64) -> (d: Duration)
        requires
            -MAX_DURATION_SECS <= minutes * SECS_PER_MINUTE <= MAX_DURATION_SECS,
        ensures
            d.wf(),
            d.secs == minutes * SECS_PER_MINUTE,
            d.nanos == 0,
    {
        Duration { secs: minutes * SECS_PER_MINUTE, nanos: 0 }
    }

    /// A span of `hours` hours.
    pub fn hours(hours: i64) -> (d: Duration)
        requires
            -MAX_DURATION_SECS <= hours * SECS_PER_HOUR <= MAX_DURATION_SECS,
        ensures
            d.wf(),
            d.secs == hours * SECS_PER_HOUR,
            d.nanos == 0,
    {
        Duration { secs: hours * SECS_PER_HOUR, nanos: 0 }
    }

    /// A span of `days` days of 24 hours.
    pub fn days(days: i64) -> (d: Duration)
        requires
            -MAX_DURATION_SECS <= days * SECS_PER_DAY <= MAX_DURATION_SECS,
        ensures
            d.wf(),
            d.secs == days * SECS_PER_DAY,
            d.nanos == 0,
    {
        Duration { secs: days * SECS_PER_DAY, nanos: 0 }
    }

    /// The sum of two spans.
    pub open spec fn spec_plus(self, other: Duration) -> Duration {
        if self.nanos + other.nanos >= NSEC_PER_SEC {
            Duration {
                secs: (self.secs + other.secs + 1) as i64,
                nanos: (self.nanos + other.nanos - NSEC_PER_SEC) as i32,
            }
        } else {
            Duration {
                secs: (self.secs + other.secs) as i64,
                nanos: (self.nanos + other.nanos) as i32,
            }
        }
    }

    /// Adds two spans whose sum is a span again.
    pub fn plus(self, other: Duration) -> (d: Duration)
        requires
            self.wf(),
            other.wf(),
            self.spec_plus(other).wf(),
        ensures
            d == self.spec_plus(other),
            d.total_nanos() == self.total_nanos() + other.total_nanos(),
    {
        let nanos: i32 = self.nanos + other.nanos;
        if nanos >= NSEC_PER_SEC {
            Duration { secs: self.secs + other.secs + 1, nanos: nanos - NSEC_PER_SEC }
        } else {
            Duration { secs: self.secs + other.secs, nanos }
        }
    }

    /// The number of whole seconds in the span, rounded towards zero.
    pub fn num_seconds(&self) -> (n: i64)
        ensures
            n == self.whole_seconds(),
    {
        if self.secs < 0 && self.nanos > 0 {
            self.secs + 1
        } else {
            self.secs
        }
    }
}

/// A point in time: `sec` whole seconds since the epoch plus `nsec`
/// nanoseconds. Before the epoch the seconds are negative and the nanoseconds
/// still count forward.
#[derive(Clone, Copy, PartialEq, Eq, Structural, Debug, PartialOrd, Ord, Hash)]
pub struct Timespec {
    pub sec: i64,
    pub nsec: i32,
}

impl Timespec {
    /// The nanoseconds are below one second and the timestamp is within
    /// `limit` seconds of the epoch.
    pub open spec fn within(self, limit: int) -> bool {
        &&& 0 <= self.nsec < NSEC_PER_SEC
        &&& -limit <= self.sec <= limit
    }

    /// The nanoseconds are below one second and the timestamp is within
    /// `MAX_TIMESTAMP_SECS` of the epoch.
    pub open spec fn wf(self) -> bool {
        self.within(MAX_TIMESTAMP_SECS as int)
    }

    /// A timestamp close enough to the epoch to serve as the reference
    /// midnight of a day: a moment and a jitter window added to it stay
    /// well-formed.
    pub open spec fn is_reference(self) -> bool {
        self.within(MAX_DURATION_SECS as int)
    }

    /// The timestamp as a number of nanoseconds since the epoch.
    pub open spec fn total_nanos(self) -> int {
        self.sec * NSEC_PER_SEC + self.nsec
    }

    /// `self` is strictly earlier than `other`.
    pub open spec fn before(self, other: Timespec) -> bool {
        self.sec < other.sec || (self.sec == other.sec && self.nsec < other.nsec)
    }

    /// `self` is `other` or earlier.
    pub open spec fn at_or_before(self, other: Timespec) -> bool {
        self.sec < other.sec || (self.sec == other.sec && self.nsec <= other.nsec)
    }

    /// The timestamp `d` after `self`.
    pub open spec fn spec_plus(self, d: Duration) -> Timespec {
        if self.nsec + d.nanos >= NSEC_PER_SEC {
            Timespec {
                sec: (self.sec + d.secs + 1) as i64,
                nsec: (self.nsec + d.nanos - NSEC_PER_SEC) as i32,
            }
        } else {
            Timespec { sec: (self.sec + d.secs) as i64, nsec: (self.nsec + d.nanos) as i32 }
        }
    }

    /// The timestamp `seconds` whole seconds after `self`.
    pub open spec fn shifted(self, seconds: int) -> Timespec {
        Timespec { sec: (self.sec + seconds) as i64, nsec: self.nsec }
    }

    /// The timestamp `sec` seconds and `nsec` nanoseconds after the epoch.
    pub fn new(sec: i64, nsec: i32) -> (t: Timespec)
        requires
            0 <= nsec < NSEC_PER_SEC,
        ensures
            t.sec == sec,
            t.nsec == nsec,
    {
        Timespec { sec, nsec }
    }

    /// Whether `self` is strictly earlier than `other`.
    pub fn is_before(&self, other: &Timespec) -> (b: bool)
        ensures
            b == self.before(*other),
    {
        self.sec < other.sec || (self.sec == other.sec && self.nsec < other.nsec)
    }

    /// Whether `self` is `other` or earlier.
    pub fn is_at_or_before(&self, other: &Timespec) -> (b: bool)
        ensures
            b == self.at_or_before(*other),
    {
        self.sec < other.sec || (self.sec == other.sec && self.nsec <= other.nsec)
    }

    /// Moves the timestamp by a span.
    pub fn plus(self, d: Duration) -> (t: Timespec)
        requires
            self.wf(),
            d.wf(),
            self.spec_plus(d).wf(),
        ensures
            t == self.spec_plus(d),
            t.total_nanos() == self.total_nanos() + d.total_nanos(),
    {
        let nsec: i32 = self.nsec + d.nanos;
        if nsec >= NSEC_PER_SEC {
            Timespec { sec: self.sec + d.secs + 1, nsec: nsec - NSEC_PER_SEC }
        } else {
            Timespec { sec: self.sec + d.secs, nsec }
        }
    }
}

/// Among timestamps whose nanoseconds are below one second, the field-wise
/// order is the order of the nanosecond counts.
pub proof fn lemma_before_is_nanos_order(a: Timespec, b: Timespec)
    requires
        0 <= a.nsec < NSEC_PER_SEC,
        0 <= b.nsec < NSEC_PER_SEC,
    ensures
        a.before(b) <==> a.total_nanos() < b.total_nanos(),
        a.at_or_before(b) <==> a.total_nanos() <= b.total_nanos(),
        a == b <==> a.total_nanos() == b.total_nanos(),
{
}

} // verus!
