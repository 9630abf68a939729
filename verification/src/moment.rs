//! A moment in a day, given as an offset from the local or from the UTC
//! midnight of a reference day.
use crate::calendar::{day_clock, seconds_since_midnight};
use crate::clock::{
    Duration, Timespec, MAX_DURATION_SECS, NSEC_PER_SEC, SECS_PER_HOUR, SECS_PER_MINUTE,
};
use crate::zone::LocalTimeState;
use vstd::prelude::*;

verus! {

/// Represents a fixed moment in a day.
#[derive(Clone, Copy, PartialEq, Eq, Structural)]
pub enum Moment {
    /// The offset from local midnight.
    LocalTime(Duration),
    /// The offset from UTC midnight.
    UtcTime(Duration),
}

/// The largest distance in seconds between the epoch and the timestamp of a
/// moment on a reference day: a reference day, a moment, and the zone's
/// offset from UTC.
pub open spec fn resolved_limit() -> int {
    2 * MAX_DURATION_SECS + 1 + 0x8000_0000
}

impl Moment {
    /// The offset from midnight.
    pub open spec fn offset(self) -> Duration {
        match self {
            Moment::LocalTime(offset) => offset,
            Moment::UtcTime(offset) => offset,
        }
    }

    /// The offset is a well-formed span.
    pub open spec fn wf(self) -> bool {
        self.offset().wf()
    }

    /// The timestamp of the moment on the day whose UTC midnight is
    /// `reference`.
    ///
    /// An offset from UTC midnight is added to the reference. An offset from
    /// local midnight gives a wall-clock reading, which is first taken back
    /// to UTC by the zone's offset before any transition; the zone's offset
    /// in effect at that provisional instant is the one the reading is
    /// finally taken back by.
    pub open spec fn resolve(self, reference: Timespec, window: LocalTimeState) -> Timespec {
        match self {
            Moment::UtcTime(offset) => reference.spec_plus(offset),
            Moment::LocalTime(offset) => {
                let wall = reference.spec_plus(offset);
                let provisional = wall.shifted(-window.first_info().ut_offset);
                wall.shifted(-window.info_at(provisional).ut_offset)
            },
        }
    }

    /// The moment `h` hours, `m` minutes and `s` seconds after local
    /// midnight.
    pub fn new(h: u8, m: u8, s: u8) -> (moment: Moment)
        ensures
            moment.wf(),
            moment == Moment::LocalTime(
                Duration {
                    secs: (h * SECS_PER_HOUR + m * SECS_PER_MINUTE + s) as i64,
                    nanos: 0,
                },
            ),
    {
        let hours = Duration::hours(h as i64);
        let minutes = Duration::minutes(m as i64);
        let seconds = Duration::seconds(s as i64);
        Moment::LocalTime(hours.plus(minutes).plus(seconds))
    }

    /// The moment of the timestamp within its UTC day: the time that has
    /// passed since the last UTC midnight.
    pub fn new_from_timespec(ts: Timespec) -> (moment: Moment)
        requires
            0 <= ts.nsec < NSEC_PER_SEC,
        ensures
            moment.wf(),
            moment == Moment::UtcTime(
                Duration { secs: day_clock(ts.sec as int) as i64, nanos: ts.nsec },
            ),
    {
        Moment::UtcTime(Duration { secs: seconds_since_midnight(ts), nanos: ts.nsec })
    }

    /// Converts the moment to the timestamp it has on the day whose UTC
    /// midnight is `ut_midnight_reference`.
    pub fn create_timestamp(
        &self,
        ut_midnight_reference: Timespec,
        localtime: &LocalTimeState,
    ) -> (timestamp: Timespec)
        requires
            self.wf(),
            ut_midnight_reference.is_reference(),
            self is LocalTime ==> !(localtime is Unknown),
        ensures
            timestamp == self.resolve(ut_midnight_reference, *localtime),
            timestamp.within(resolved_limit()),
    {
        match self {
            // the offset counts from UTC midnight: just add it
            Moment::UtcTime(offset) => ut_midnight_reference.plus(*offset),
            // the offset counts from local midnight
            Moment::LocalTime(offset) => {
                let pre_localtime_cor = ut_midnight_reference.plus(*offset);
                let ut_offset: i32 = match localtime {
                    LocalTimeState::NoChangePending(info) => info.ut_offset,
                    LocalTimeState::ChangePending(transition_time, before, after) => {
                        let reftime = Timespec::new(
                            pre_localtime_cor.sec - before.ut_offset as i64,
                            pre_localtime_cor.nsec,
                        );
                        if reftime.is_before(transition_time) {
                            before.ut_offset
                        } else {
                            after.ut_offset
                        }
                    },
                    LocalTimeState::Unknown => {
                        assert(false);
                        0
                    },
                };
                Timespec::new(pre_localtime_cor.sec - ut_offset as i64, pre_localtime_cor.nsec)
            },
        }
    }
}

} // verus!
