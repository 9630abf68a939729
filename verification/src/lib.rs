//! Computes, for events that happen once per day, the timestamps at which
//! each is due on a given day, and hands them out in chronological order as
//! the caller's clock advances.
//!
//! The crate only calculates: it never reads the system clock and never
//! sleeps. All timestamps are UTC based.
//!
//! The caller registers events with [`Schedule::add_event`], updates the
//! schedule once for every day with [`Schedule::update_schedule`], and calls
//! [`Schedule::kick_event`] whenever its clock has advanced; the handlers of
//! the events that are due by then are called in the order of time.
//!
//! - [`clock`]: timestamps and spans of time.
//! - [`calendar`]: the time of day and the weekday of a timestamp.
//! - [`zone`]: the history of a time zone and the cached view of it.
//! - [`moment`], [`filter`], [`event`]: the abstract events and the
//!   timestamps they get on a day.
//! - [`random`]: the source of the random draws.
//! - [`pending`], [`schedule`]: what is pending, and the schedule itself.
//! - [`text`]: moments and events as text.
//! - [`laws`]: what holds of all of this in general.
//!
//! Everything is proved but what other crates compute: the calendar reading
//! of a timestamp in the week of the epoch, which the `time` crate gives and
//! [`calendar`] states, and the random draws, which the `rand` crate gives
//! and of which [`random`] only states the range.
pub mod calendar;
pub mod clock;
pub mod event;
pub mod filter;
pub mod laws;
pub mod moment;
pub mod pending;
pub mod random;
pub mod schedule;
pub mod text;
pub mod zone;

pub use clock::{Duration, Timespec};
pub use event::{DailyEvent, Event};
pub use filter::Filter;
pub use moment::Moment;
pub use random::Generator;
pub use schedule::{Handler, Schedule};
pub use zone::{LocalTimeState, Transition, ZoneInfo, ZoneInfoElement};
