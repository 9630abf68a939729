//! The UTC calendar reading of a timestamp, as far as the engine needs it:
//! the time of day and the day of the week.
//!
//! Both repeat every week, so the reading is only ever taken in the week
//! that began with the epoch.
use crate::clock::{Timespec, NSEC_PER_SEC, SECS_PER_DAY, SECS_PER_HOUR, SECS_PER_MINUTE};
use vstd::prelude::*;

verus! {

/// Seconds in one week.
pub const SECS_PER_WEEK: i64 = 604_800;

/// The time of day and the day of the week of a timestamp, in UTC.
#[derive(Clone, Copy, PartialEq, Eq, Structural, Debug)]
pub struct UtcClock {
    /// Hours after midnight.
    pub hour: i32,
    /// Minutes after the hour.
    pub minute: i32,
    /// Seconds after the minute.
    pub second: i32,
    /// Days since Sunday.
    pub weekday: i32,
}

/// The number of whole days between the epoch and the second `sec`; negative
/// before the epoch.
pub open spec fn day_number(sec: int) -> int {
    sec / (SECS_PER_DAY as int)
}

/// The number of seconds between the last UTC midnight and the second `sec`.
pub open spec fn day_clock(sec: int) -> int {
    sec % (SECS_PER_DAY as int)
}

/// The day of the week of the second `sec` in UTC, counted in days since
/// Sunday. The epoch was a Thursday.
pub open spec fn weekday(sec: int) -> int {
    (day_number(sec) + 4) % 7
}

/// Whether the second `sec` falls on a Saturday or a Sunday in UTC.
pub open spec fn is_weekend(sec: int) -> bool {
    weekday(sec) == 0 || weekday(sec) == 6
}

/// The second of the week that began with the epoch which has the time of
/// day and the day of the week of the second `sec`.
pub open spec fn week_clock(sec: int) -> int {
    sec % (SECS_PER_WEEK as int)
}

/// Calls `time::at_utc` for a timestamp in the week that began with the
/// epoch and hands back the hour, minute, second and weekday of the
/// broken-down time it returns.
///
/// Trusted: that within that week the time of day is the remainder of the
/// seconds by the 86 400 seconds of a day, split into hours, minutes and
/// seconds, and that the weekday is the number of whole days since the
/// epoch, counted on from Thursday.
#[verifier::external_body]
pub(crate) fn at_utc(t: Timespec) -> (c: UtcClock)
    requires
        0 <= t.sec < SECS_PER_WEEK,
        0 <= t.nsec < NSEC_PER_SEC,
    ensures
        c.hour == day_clock(t.sec as int) / (SECS_PER_HOUR as int),
        c.minute == (day_clock(t.sec as int) % (SECS_PER_HOUR as int)) / (SECS_PER_MINUTE as int),
        c.second == day_clock(t.sec as int) % (SECS_PER_MINUTE as int),
        c.weekday == weekday(t.sec as int),
{
    let tm = time::at_utc(time::Timespec::new(t.sec, t.nsec));
    UtcClock { hour: tm.tm_hour, minute: tm.tm_min, second: tm.tm_sec, weekday: tm.tm_wday }
}

/// A second and the second of the first week that is a whole number of
/// weeks away from it have the same time of day and the same weekday.
pub proof fn lemma_week_repeats(sec: int)
    ensures
        0 <= week_clock(sec) < SECS_PER_WEEK,
        day_clock(week_clock(sec)) == day_clock(sec),
        weekday(week_clock(sec)) == weekday(sec),
{
    let weeks = sec / 604_800;
    let rest = sec % 604_800;
    let days = rest / 86_400;
    let clock = rest % 86_400;
    assert(sec == 604_800 * weeks + rest);
    assert(rest == 86_400 * days + clock);
    assert(sec == (7 * weeks + days) * 86_400 + clock);
    vstd::arithmetic::div_mod::lemma_fundamental_div_mod_converse(
        sec,
        86_400,
        7 * weeks + days,
        clock,
    );
    assert((7 * weeks + days + 4) % 7 == (days + 4) % 7);
}

/// The calendar reading of the second `sec`, taken in the week that began
/// with the epoch.
fn clock_of(sec: i128) -> (c: UtcClock)
    ensures
        c.hour == day_clock(sec as int) / (SECS_PER_HOUR as int),
        c.minute == (day_clock(sec as int) % (SECS_PER_HOUR as int)) / (SECS_PER_MINUTE as int),
        c.second == day_clock(sec as int) % (SECS_PER_MINUTE as int),
        c.weekday == weekday(sec as int),
{
    let rest: i128 = sec % 604_800;
    let in_week: i64 = if rest < 0 {
        (rest + 604_800) as i64
    } else {
        rest as i64
    };
    proof {
        lemma_week_repeats(sec as int);
        assert(in_week == week_clock(sec as int));
    }
    at_utc(Timespec { sec: in_week, nsec: 0 })
}

/// The number of seconds that have passed since the last UTC midnight.
pub fn seconds_since_midnight(t: Timespec) -> (s: i64)
    ensures
        s == day_clock(t.sec as int),
        0 <= s < SECS_PER_DAY,
{
    let c = clock_of(t.sec as i128);
    let hour: i64 = c.hour as i64;
    let minute: i64 = c.minute as i64;
    let second: i64 = c.second as i64;
    hour * SECS_PER_HOUR + minute * SECS_PER_MINUTE + second
}

/// The day of the week in UTC, in days since Sunday, of the instant that is
/// `ut_offset` seconds after `t`: the day of the week at `t` in a zone that
/// is `ut_offset` seconds ahead of UTC.
pub fn day_of_week(t: Timespec, ut_offset: i32) -> (w: i32)
    ensures
        w == weekday(t.sec + ut_offset),
        0 <= w <= 6,
{
    clock_of(t.sec as i128 + ut_offset as i128).weekday
}

} // verus!
