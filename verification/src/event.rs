//! The abstract events of a day and the timestamps they get on a given day.
use crate::clock::{Duration, Timespec};
use crate::filter::Filter;
use crate::moment::{resolved_limit, Moment};
use crate::random::Generator;
use crate::zone::LocalTimeState;
use std::rc::Rc;
use vstd::prelude::*;

verus! {

/// Represents an (abstract) moment in a day.
pub enum DailyEvent<F> {
    /// A fixed moment in a day.
    Fixed(Filter, Moment),
    /// A random moment between two given fixed moments.
    Fuzzy(Filter, Moment, Moment),
    /// A moment that the given function provides for the day, with a window
    /// of the given width around it in which the event is placed at random.
    ByClosure(Filter, F, Duration),
}

/// The earlier of two timestamps.
pub open spec fn earlier(t1: Timespec, t2: Timespec) -> Timespec {
    if t2.at_or_before(t1) {
        t2
    } else {
        t1
    }
}

/// The later of two timestamps.
pub open spec fn later(t1: Timespec, t2: Timespec) -> Timespec {
    if t2.at_or_before(t1) {
        t1
    } else {
        t2
    }
}

/// The number of whole seconds from the earlier to the later of two
/// timestamps.
pub open spec fn fuzzy_span(t1: Timespec, t2: Timespec) -> int {
    let start = earlier(t1, t2);
    let end = later(t1, t2);
    if end.nsec < start.nsec {
        end.sec - start.sec - 1
    } else {
        end.sec - start.sec
    }
}

/// Whether `draw` can come out of a draw below `bound`; where there is
/// nothing to draw from, the draw is zero.
pub open spec fn is_draw(bound: int, draw: int) -> bool {
    0 <= draw && (draw < bound || draw == 0)
}

/// The timestamp `draw` seconds after the earlier of two timestamps.
pub open spec fn fuzzy_pick(t1: Timespec, t2: Timespec, draw: int) -> Timespec {
    earlier(t1, t2).shifted(draw)
}

/// The timestamp in the window of `variance` around `base` that the number
/// `draw` selects: the window is centred on `base`, and the draw counts
/// seconds back from its later end. A window of less than a second leaves
/// `base` as it is.
pub open spec fn jitter_pick(base: Timespec, variance: Duration, draw: int) -> Timespec {
    if variance.whole_seconds() > 0 {
        base.shifted(variance.whole_seconds() / 2 - draw)
    } else {
        base
    }
}

/// The number of whole seconds between two timestamps, from which the
/// offset of a fuzzy event is drawn.
pub fn fuzzy_bound(t1: Timespec, t2: Timespec) -> (bound: i64)
    requires
        t1.within(resolved_limit()),
        t2.within(resolved_limit()),
    ensures
        bound == fuzzy_span(t1, t2),
        0 <= bound,
{
    let (start, end) = if t2.is_at_or_before(&t1) {
        (t2, t1)
    } else {
        (t1, t2)
    };
    if end.nsec < start.nsec {
        end.sec - start.sec - 1
    } else {
        end.sec - start.sec
    }
}

/// Places a fuzzy event `draw` seconds after the earlier of the timestamps
/// of its two moments.
pub fn fuzzy_timestamp(t1: Timespec, t2: Timespec, draw: i64) -> (timestamp: Timespec)
    requires
        t1.within(resolved_limit()),
        t2.within(resolved_limit()),
        is_draw(fuzzy_span(t1, t2), draw as int),
    ensures
        timestamp == fuzzy_pick(t1, t2, draw as int),
        timestamp.within(resolved_limit()),
        earlier(t1, t2).at_or_before(timestamp),
        timestamp.at_or_before(later(t1, t2)),
        earlier(t1, t2) != later(t1, t2) ==> timestamp.before(later(t1, t2)),
{
    let start = if t2.is_at_or_before(&t1) {
        t2
    } else {
        t1
    };
    Timespec::new(start.sec + draw, start.nsec)
}

/// Places an event in the window of `variance` around `base`, as far from
/// the later end of the window as `draw` says.
pub fn jittered_timestamp(base: Timespec, variance: Duration, draw: i64) -> (timestamp: Timespec)
    requires
        base.within(resolved_limit()),
        variance.wf(),
        is_draw(variance.whole_seconds(), draw as int),
    ensures
        timestamp == jitter_pick(base, variance, draw as int),
        timestamp.wf(),
{
    let width = variance.num_seconds();
    if width > 0 {
        Timespec::new(base.sec + (width / 2 - draw), base.nsec)
    } else {
        base
    }
}

impl<F: Fn(Timespec) -> Moment> DailyEvent<F> {
    /// The weekday filter of the event.
    pub open spec fn filter(self) -> Filter {
        match self {
            DailyEvent::Fixed(filter, _) => filter,
            DailyEvent::Fuzzy(filter, _, _) => filter,
            DailyEvent::ByClosure(filter, _, _) => filter,
        }
    }

    /// The moments and the window of the event are well-formed, and its
    /// function gives a well-formed moment for every reference day.
    pub open spec fn wf(self) -> bool {
        match self {
            DailyEvent::Fixed(_, moment) => moment.wf(),
            DailyEvent::Fuzzy(_, m1, m2) => m1.wf() && m2.wf(),
            DailyEvent::ByClosure(_, func, variance) => {
                &&& variance.wf()
                &&& forall|reference: Timespec|
                    reference.is_reference() ==> call_requires(func, (reference,))
                &&& forall|reference: Timespec, moment: Moment|
                    reference.is_reference() && call_ensures(func, (reference,), moment)
                        ==> moment.wf()
            },
        }
    }

    /// Whether the timestamp of the event may depend on the time zone:
    /// through a moment given in local time, through the weekday filter, or
    /// through whatever moment the event's function returns.
    pub open spec fn needs_zone(self) -> bool {
        match self {
            DailyEvent::Fixed(filter, moment) => !(filter is Always) || moment is LocalTime,
            DailyEvent::Fuzzy(filter, m1, m2) => !(filter is Always) || m1 is LocalTime
                || m2 is LocalTime,
            DailyEvent::ByClosure(_, _, _) => true,
        }
    }

    /// Whether `timestamp` is a timestamp that the event can get on the day
    /// whose UTC midnight is `reference`, before its weekday filter is asked.
    ///
    /// A fixed event gets the timestamp of its moment. A fuzzy event gets one
    /// a whole number of seconds after the earlier of its two moments and
    /// before the later. An event given by a function gets one in the window
    /// around a moment that the function returns for the day.
    pub open spec fn may_resolve_to(
        self,
        reference: Timespec,
        window: LocalTimeState,
        timestamp: Timespec,
    ) -> bool {
        match self {
            DailyEvent::Fixed(_, moment) => timestamp == moment.resolve(reference, window),
            DailyEvent::Fuzzy(_, m1, m2) => {
                let t1 = m1.resolve(reference, window);
                let t2 = m2.resolve(reference, window);
                exists|draw: int|
                    is_draw(fuzzy_span(t1, t2), draw) && timestamp == #[trigger] fuzzy_pick(
                        t1,
                        t2,
                        draw,
                    )
            },
            DailyEvent::ByClosure(_, func, variance) => exists|moment: Moment, draw: int|
                {
                    &&& call_ensures(func, (reference,), moment)
                    &&& is_draw(variance.whole_seconds(), draw)
                    &&& timestamp == #[trigger] jitter_pick(
                        moment.resolve(reference, window),
                        variance,
                        draw,
                    )
                },
        }
    }

    /// Whether `outcome` is a result that scheduling the event can have on
    /// the day whose UTC midnight is `reference`: a timestamp that the event
    /// can get and that its filter permits, or nothing where the filter
    /// refuses the timestamp that the event got.
    pub open spec fn may_yield(
        self,
        reference: Timespec,
        window: LocalTimeState,
        outcome: Option<Timespec>,
    ) -> bool {
        match outcome {
            Some(timestamp) => {
                &&& self.may_resolve_to(reference, window, timestamp)
                &&& self.filter().permits(timestamp, window)
            },
            None => exists|timestamp: Timespec|
                {
                    &&& #[trigger] self.may_resolve_to(reference, window, timestamp)
                    &&& !self.filter().permits(timestamp, window)
                },
        }
    }

    /// Determines the timestamp of the event on the day whose UTC midnight
    /// is `ut_midnight_reference`; `None` where the event is not scheduled
    /// that day.
    pub fn create_timestamp(
        &self,
        ut_midnight_reference: Timespec,
        localtime: &LocalTimeState,
        generator: &mut Generator,
    ) -> (outcome: Option<Timespec>)
        requires
            self.wf(),
            ut_midnight_reference.is_reference(),
            self.needs_zone() ==> !(localtime is Unknown),
        ensures
            self.may_yield(ut_midnight_reference, *localtime, outcome),
            outcome matches Some(timestamp) ==> timestamp.wf(),
    {
        let ts: Timespec = match self {
            DailyEvent::Fixed(_, moment) => moment.create_timestamp(
                ut_midnight_reference,
                localtime,
            ),
            DailyEvent::Fuzzy(_, m1, m2) => {
                // pick a time between both given moments
                let t1 = m1.create_timestamp(ut_midnight_reference, localtime);
                let t2 = m2.create_timestamp(ut_midnight_reference, localtime);
                let bound = fuzzy_bound(t1, t2);
                let draw: i64 = if bound > 0 {
                    generator.draw(bound)
                } else {
                    0
                };
                let picked = fuzzy_timestamp(t1, t2, draw);
                assert(picked == fuzzy_pick(t1, t2, draw as int));
                picked
            },
            DailyEvent::ByClosure(_, func, variance) => {
                let moment = func(ut_midnight_reference);
                // place the event in the window around the provided moment
                let bound = variance.num_seconds();
                let draw: i64 = if bound > 0 {
                    generator.draw(bound)
                } else {
                    0
                };
                let base = moment.create_timestamp(ut_midnight_reference, localtime);
                let picked = jittered_timestamp(base, *variance, draw);
                assert(picked == jitter_pick(
                    moment.resolve(ut_midnight_reference, *localtime),
                    *variance,
                    draw as int,
                ));
                picked
            },
        };
        assert(self.may_resolve_to(ut_midnight_reference, *localtime, ts));
        let do_schedule = match self {
            DailyEvent::Fixed(w, _) | DailyEvent::Fuzzy(w, _, _) | DailyEvent::ByClosure(w, _, _) =>
                w.day_scheduled(ts, localtime),
        };
        if do_schedule {
            Some(ts)
        } else {
            None
        }
    }
}

/// Represents a moment and a specific action in a day.
pub struct Event<C, H, F> {
    /// A moment in a day.
    pub moment: DailyEvent<F>,
    /// Reference to an action handler.
    pub action: Rc<H>,
    /// Externally provided reference for the implementor.
    pub context: C,
}

} // verus!
