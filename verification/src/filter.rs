//! The days of the week on which an event is scheduled.
use crate::calendar::{day_of_week, is_weekend};
use crate::clock::Timespec;
use crate::zone::{LocalTimeState, ZoneInfoElement};
use vstd::prelude::*;

verus! {

/// Weekday filter specifier.
#[derive(Clone, Copy, PartialEq, Eq, Structural, Debug)]
pub enum Filter {
    /// Always execute the event.
    Always,
    /// Only execute Monday till Friday.
    MonToFri,
    /// Only execute Saturday and Sunday.
    Weekend,
}

impl Filter {
    /// Whether the filter lets a day pass, given whether the day is a
    /// Saturday or a Sunday.
    pub open spec fn admits(self, weekend: bool) -> bool {
        match self {
            Filter::Always => true,
            Filter::MonToFri => !weekend,
            Filter::Weekend => weekend,
        }
    }

    /// Whether an event is scheduled at the instant `time`: judged by the
    /// day of the week that `time` falls on in local time, with the zone's
    /// offset in effect at `time`.
    pub open spec fn permits(self, time: Timespec, window: LocalTimeState) -> bool {
        self.admits(is_weekend(time.sec + window.info_at(time).ut_offset))
    }

    /// Indicates whether an event is scheduled at `time`, by the day of the
    /// week in a zone that is `zoneinfo.ut_offset` seconds ahead of UTC.
    pub fn filter_days(&self, time: Timespec, zoneinfo: &ZoneInfoElement) -> (scheduled: bool)
        ensures
            scheduled == self.admits(is_weekend(time.sec + zoneinfo.ut_offset)),
    {
        // the UTC weekday of the shifted instant is the local weekday of `time`
        let wday = day_of_week(time, zoneinfo.ut_offset);
        let weekend = wday == 0 || wday == 6;  // 0 = Sunday, 6 = Saturday
        match self {
            Filter::Always => true,
            Filter::MonToFri => !weekend,
            Filter::Weekend => weekend,
        }
    }

    /// Indicates whether an event is scheduled at `time`, by the day of the
    /// week in local time.
    pub fn day_scheduled(&self, time: Timespec, localtime: &LocalTimeState) -> (scheduled: bool)
        requires
            !(self is Always) ==> !(localtime is Unknown),
        ensures
            scheduled == self.permits(time, *localtime),
    {
        match self {
            Filter::Always => true,
            Filter::MonToFri | Filter::Weekend => {
                match localtime {
                    LocalTimeState::NoChangePending(zoneinfo) => self.filter_days(time, zoneinfo),
                    LocalTimeState::ChangePending(transition, z1, z2) => {
                        if time.is_before(transition) {
                            self.filter_days(time, z1)
                        } else {
                            self.filter_days(time, z2)
                        }
                    },
                    LocalTimeState::Unknown => {
                        assert(false);
                        true
                    },
                }
            },
        }
    }
}

} // verus!
