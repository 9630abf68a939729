//! The schedule: the registered events, the cached view of the time zone,
//! and the occurrences that are pending.
use crate::clock::Timespec;
use crate::event::{DailyEvent, Event};
use crate::moment::Moment;
use crate::pending::{
    are_due, as_pending, coherent, due_keys, first_key, is_earliest, later_than, occurrences,
    occurrences_at, place, place_all, place_in, remove_keys,
};
use crate::random::Generator;
use crate::zone::{lemma_next_is_later, LocalTimeState, ZoneInfo};
use std::collections::BTreeMap;
use std::rc::Rc;
use vstd::prelude::*;

verus! {

/// Trait to be implemented by the event handler.
pub trait Handler<C: Eq + PartialEq, F> {
    /// Hint for a future event: the event of `context` is going to be due
    /// at `timestamp`.
    fn hint(&self, timestamp: &Timespec, context: &C);

    /// Perform the action of `event`, which was due at `timestamp`.
    fn kick(&self, timestamp: &Timespec, event: &DailyEvent<F>, context: &C);
}

/// The handler of `event` has been given the hint that the event is going
/// to be due at `timestamp`, and has returned.
pub open spec fn hinted<C: Eq + PartialEq, H: Handler<C, F>, F>(
    event: Event<C, H, F>,
    timestamp: Timespec,
) -> bool {
    call_ensures(H::hint, (&*event.action, &timestamp, &event.context), ())
}

/// The handler of `event` has been told to perform the action that was due
/// at `timestamp`, and has returned.
pub open spec fn kicked<C: Eq + PartialEq, H: Handler<C, F>, F>(
    event: Event<C, H, F>,
    timestamp: Timespec,
) -> bool {
    call_ensures(H::kick, (&*event.action, &timestamp, &event.moment, &event.context), ())
}

/// Whether `outcomes` holds, for each of `events` in turn, a result that
/// scheduling the event can have on the day whose UTC midnight is
/// `reference`.
pub open spec fn are_outcomes<C: Eq + PartialEq, H: Handler<C, F>, F: Fn(Timespec) -> Moment>(
    events: Seq<Event<C, H, F>>,
    reference: Timespec,
    window: LocalTimeState,
    outcomes: Seq<Option<Timespec>>,
) -> bool {
    &&& outcomes.len() == events.len()
    &&& forall|i: int|
        0 <= i < events.len() ==> (#[trigger] events[i]).moment.may_yield(
            reference,
            window,
            outcomes[i],
        )
}

/// Whether `plan` is the order in which the occurrences that are due at
/// `now` have to be fired: from the earliest timestamp to the latest, and at
/// each timestamp in the order in which the events were scheduled.
pub open spec fn is_firing_order(
    pending: Map<Timespec, Seq<usize>>,
    now: Timespec,
    plan: Seq<(Timespec, usize)>,
) -> bool {
    exists|keys: Seq<Timespec>| #[trigger]
        are_due(pending, now, keys) && plan == occurrences(pending, keys)
}

/// Calculates and executes scheduled events every day.
pub struct Schedule<C: Eq + PartialEq, H: Handler<C, F>, F: Fn(Timespec) -> Moment> {
    // List of (abstract) moments in a day
    events: Vec<Event<C, H, F>>,
    // Time zone related information
    zoneinfo: ZoneInfo,
    // Next zone change
    localtime: LocalTimeState,
    // The reference day of the latest update
    latest: Option<Timespec>,
    // Tree of actual scheduled moments and the positions of the abstract
    // moments in a day that are due then
    schedule: BTreeMap<(i64, i32), Vec<usize>>,
    // Source of the random draws
    generator: Generator,
}

impl<C: Eq + PartialEq, H: Handler<C, F>, F: Fn(Timespec) -> Moment> Schedule<C, H, F> {
    /// The registered events, in the order of their registration.
    pub closed spec fn events(&self) -> Seq<Event<C, H, F>> {
        self.events@
    }

    /// The time zone of the schedule.
    pub closed spec fn zoneinfo(&self) -> ZoneInfo {
        self.zoneinfo
    }

    /// The cached view of the time zone.
    pub closed spec fn window(&self) -> LocalTimeState {
        self.localtime
    }

    /// The reference day of the latest update, if there has been one.
    pub closed spec fn latest(&self) -> Option<Timespec> {
        self.latest
    }

    /// The pending occurrences: for each timestamp at which something is
    /// due, the positions of the events due then among the registered ones,
    /// in the order in which they were scheduled.
    pub closed spec fn pending(&self) -> Map<Timespec, Seq<usize>> {
        as_pending(self.schedule@)
    }

    /// The registered events are well-formed, what is pending refers to
    /// them, and the view of the time zone holds nothing until a day has
    /// been scheduled and is up to date on the latest such day from then on.
    pub open spec fn wf(&self) -> bool {
        &&& forall|i: int| 0 <= i < self.events().len() ==> (#[trigger] self.events()[i]).moment.wf()
        &&& coherent(self.pending(), self.events().len())
        &&& match self.latest() {
            Some(latest) => self.window().is_current(self.zoneinfo(), latest),
            None => self.window() is Unknown,
        }
    }

    /// Whether the day whose UTC midnight is `reference` may be scheduled
    /// next: the days are scheduled in the order of time.
    pub open spec fn accepts(&self, reference: Timespec) -> bool {
        &&& reference.is_reference()
        &&& self.latest() matches Some(latest) ==> latest.at_or_before(reference)
    }

    /// Create an (empty) list of scheduled daily events that draws from the
    /// generator of the calling thread.
    pub fn new(zoneinfo: ZoneInfo) -> (schedule: Schedule<C, H, F>)
        ensures
            schedule.wf(),
            schedule.events() == Seq::<Event<C, H, F>>::empty(),
            schedule.pending() == Map::<Timespec, Seq<usize>>::empty(),
            schedule.zoneinfo() == zoneinfo,
            schedule.window() == LocalTimeState::Unknown,
            schedule.latest() is None,
    {
        Schedule::with_generator(zoneinfo, Generator::thread_local())
    }

    /// Create an (empty) list of scheduled daily events that draws from
    /// `generator`.
    pub fn with_generator(zoneinfo: ZoneInfo, generator: Generator) -> (schedule: Schedule<C, H, F>)
        ensures
            schedule.wf(),
            schedule.events() == Seq::<Event<C, H, F>>::empty(),
            schedule.pending() == Map::<Timespec, Seq<usize>>::empty(),
            schedule.zoneinfo() == zoneinfo,
            schedule.window() == LocalTimeState::Unknown,
            schedule.latest() is None,
    {
        let schedule = Schedule {
            events: Vec::new(),
            zoneinfo,
            localtime: LocalTimeState::Unknown,
            latest: None,
            schedule: BTreeMap::new(),
            generator,
        };
        assert(schedule.pending() =~= Map::<Timespec, Seq<usize>>::empty());
        schedule
    }

    /// Add an (abstract) moment and action in a day.
    pub fn add_event(&mut self, moment: DailyEvent<F>, action: Rc<H>, context: C)
        requires
            old(self).wf(),
            moment.wf(),
        ensures
            final(self).wf(),
            final(self).events() == old(self).events().push(Event { moment, action, context }),
            final(self).pending() == old(self).pending(),
            final(self).zoneinfo() == old(self).zoneinfo(),
            final(self).window() == old(self).window(),
            final(self).latest() == old(self).latest(),
    {
        self.events.push(Event { moment, action, context });
    }

    /// The reference day of the latest update, if there has been one.
    pub fn latest_reference(&self) -> (latest: Option<Timespec>)
        ensures
            latest == self.latest(),
    {
        self.latest
    }

    /// Determine the view of the time zone as seen from `timestamp`.
    fn new_change_state(&self, timestamp: Timespec) -> (state: LocalTimeState)
        ensures
            state == self.zoneinfo().window_at(timestamp),
            !(state is Unknown),
    {
        let actual = self.zoneinfo.get_actual_zoneinfo(timestamp);
        match self.zoneinfo.get_next_transition_time(timestamp) {
            Some((next_change, next)) => LocalTimeState::ChangePending(next_change, actual, next),
            None => LocalTimeState::NoChangePending(actual),
        }
    }

    /// Update the schedule for the 24 hours that begin at the UTC midnight
    /// `ut_midnight_reference`. The days have to be given in the order of
    /// time, preferably one every day.
    ///
    /// The view of the time zone is looked up anew where it holds nothing
    /// or its transition is not after the reference. Then each registered
    /// event, in the order of registration, gets its timestamp for the day;
    /// where it gets one, its handler is given the hint and the event is
    /// scheduled at that timestamp, after the events that are pending there
    /// already, unless it is among them. So a day that is updated twice has
    /// no occurrence pending twice; an occurrence that has been kicked in
    /// between is pending again.
    pub fn update_schedule(&mut self, ut_midnight_reference: Timespec)
        requires
            old(self).wf(),
            old(self).accepts(ut_midnight_reference),
        ensures
            final(self).wf(),
            final(self).events() == old(self).events(),
            final(self).zoneinfo() == old(self).zoneinfo(),
            final(self).latest() == Some(ut_midnight_reference),
            final(self).window() == old(self).window().refreshed(
                old(self).zoneinfo(),
                ut_midnight_reference,
            ),
            exists|outcomes: Seq<Option<Timespec>>|
                {
                    &&& are_outcomes(
                        old(self).events(),
                        ut_midnight_reference,
                        final(self).window(),
                        outcomes,
                    )
                    &&& final(self).pending() == #[trigger] place_all(
                        old(self).pending(),
                        outcomes,
                    )
                    &&& forall|i: int|
                        0 <= i < outcomes.len() ==> (#[trigger] outcomes[i] matches Some(
                            timestamp,
                        ) ==> hinted(old(self).events()[i], timestamp))
                },
    {
        if self.localtime.is_stale(&ut_midnight_reference) {
            self.localtime = self.new_change_state(ut_midnight_reference);
            assert(self.window().is_current(self.zoneinfo(), ut_midnight_reference)) by {
                lemma_next_is_later(self.zoneinfo().transitions@, ut_midnight_reference);
            }
        } else {
            assert(self.window().is_current(self.zoneinfo(), ut_midnight_reference)) by {
                let latest = old(self).latest()->0;
                let seen = choose|seen: Timespec|
                    seen.at_or_before(latest) && self.window() == #[trigger] self.zoneinfo().window_at(
                        seen,
                    );
                assert(seen.at_or_before(ut_midnight_reference));
            }
        }
        self.latest = Some(ut_midnight_reference);

        let ghost before = self.pending();
        let ghost mut outcomes: Seq<Option<Timespec>> = Seq::empty();
        let mut i: usize = 0;
        while i < self.events.len()
            invariant
                i <= self.events().len(),
                self.events() == old(self).events(),
                self.zoneinfo() == old(self).zoneinfo(),
                self.latest() == Some(ut_midnight_reference),
                self.window() == old(self).window().refreshed(
                    old(self).zoneinfo(),
                    ut_midnight_reference,
                ),
                !(self.window() is Unknown),
                self.window().is_current(self.zoneinfo(), ut_midnight_reference),
                ut_midnight_reference.is_reference(),
                forall|k: int|
                    0 <= k < self.events().len() ==> (#[trigger] self.events()[k]).moment.wf(),
                coherent(self.pending(), self.events().len()),
                outcomes.len() == i,
                forall|k: int|
                    0 <= k < i ==> (#[trigger] self.events()[k]).moment.may_yield(
                        ut_midnight_reference,
                        self.window(),
                        outcomes[k],
                    ),
                forall|k: int|
                    0 <= k < i ==> (#[trigger] outcomes[k] matches Some(timestamp) ==> hinted(
                        self.events()[k],
                        timestamp,
                    )),
                self.pending() == place_all(before, outcomes),
            decreases self.events().len() - i,
        {
            let event = &self.events[i];
            let timestamp = event.moment.create_timestamp(
                ut_midnight_reference,
                &self.localtime,
                &mut self.generator,
            );
            let ghost placed = self.pending();
            if let Some(timestamp) = timestamp {
                event.action.hint(&timestamp, &event.context);
                place_in(&mut self.schedule, timestamp, i);
                assert(coherent(self.pending(), self.events().len())) by {
                    assert(self.pending() == place(placed, timestamp, i));
                    assert forall|t: Timespec| #[trigger]
                        self.pending().contains_key(t) implies {
                        &&& t.wf()
                        &&& self.pending()[t].len() > 0
                        &&& self.pending()[t].no_duplicates()
                        &&& forall|j: int|
                            0 <= j < self.pending()[t].len() ==> (#[trigger] self.pending()[t][j])
                                < self.events().len()
                    } by {
                        if t != timestamp {
                            assert(placed.contains_key(t));
                        } else if placed.contains_key(t) {
                        }
                    }
                }
            }
            proof {
                let extended = outcomes.push(timestamp);
                assert(extended.drop_last() =~= outcomes);
                assert(extended.last() == timestamp);
                outcomes = extended;
            }
            i = i + 1;
        }
    }

    /// The timestamps up to `now` at which something is pending, and the
    /// order in which the occurrences at these timestamps have to be fired.
    fn due_plan(&self, now: Timespec) -> (due: (Vec<Timespec>, Vec<(Timespec, usize)>))
        requires
            self.wf(),
        ensures
            are_due(self.pending(), now, due.0@),
            due.1@ == occurrences(self.pending(), due.0@),
            forall|q: int| 0 <= q < due.1@.len() ==> (#[trigger] due.1@[q]).1 < self.events().len(),
    {
        let keys = due_keys(&self.schedule, now);
        let mut plan: Vec<(Timespec, usize)> = Vec::new();
        let mut p: usize = 0;
        assert(keys@.take(0) =~= Seq::<Timespec>::empty());
        while p < keys.len()
            invariant
                p <= keys@.len(),
                self.wf(),
                are_due(self.pending(), now, keys@),
                plan@ == occurrences(self.pending(), keys@.take(p as int)),
                forall|q: int| 0 <= q < plan@.len() ==> (#[trigger] plan@[q]).1 < self.events().len(),
            decreases keys@.len() - p,
        {
            let timestamp = keys[p];
            let key = (timestamp.sec, timestamp.nsec);
            let ghost done = plan@;
            proof {
                assert(keys@.contains(timestamp));
                assert(self.pending().contains_key(timestamp));
            }
            if let Some(schedule_events) = self.schedule.get(&key) {
                assert(schedule_events@ == self.pending()[timestamp]);
                let mut j: usize = 0;
                assert(occurrences_at(timestamp, schedule_events@.take(0)) =~= Seq::<
                    (Timespec, usize),
                >::empty());
                while j < schedule_events.len()
                    invariant
                        j <= schedule_events@.len(),
                        schedule_events@ == self.pending()[timestamp],
                        self.pending().contains_key(timestamp),
                        self.wf(),
                        plan@ == done + occurrences_at(timestamp, schedule_events@.take(j as int)),
                        forall|q: int|
                            0 <= q < plan@.len() ==> (#[trigger] plan@[q]).1 < self.events().len(),
                    decreases schedule_events@.len() - j,
                {
                    let ghost so_far = plan@;
                    plan.push((timestamp, schedule_events[j]));
                    proof {
                        assert(schedule_events@[j as int] == self.pending()[timestamp][j as int]);
                        assert(occurrences_at(timestamp, schedule_events@.take(j + 1))
                            =~= occurrences_at(timestamp, schedule_events@.take(j as int)).push(
                            (timestamp, schedule_events@[j as int]),
                        ));
                        assert(plan@ =~= done + occurrences_at(
                            timestamp,
                            schedule_events@.take(j + 1),
                        ));
                    }
                    j = j + 1;
                }
                assert(schedule_events@.take(j as int) =~= schedule_events@);
            }
            proof {
                let next = keys@.take(p + 1);
                assert(next.drop_last() =~= keys@.take(p as int));
                assert(next.last() == timestamp);
            }
            p = p + 1;
        }
        assert(keys@.take(p as int) =~= keys@);
        (keys, plan)
    }

    /// The occurrences that are due at `now`, each with its timestamp and
    /// the position of its event among the registered ones, in the order in
    /// which `kick_event` fires them.
    pub fn due_events(&self, now: Timespec) -> (plan: Vec<(Timespec, usize)>)
        requires
            self.wf(),
        ensures
            is_firing_order(self.pending(), now, plan@),
            forall|q: int| 0 <= q < plan@.len() ==> (#[trigger] plan@[q]).1 < self.events().len(),
    {
        let (keys, plan) = self.due_plan(now);
        assert(are_due(self.pending(), now, keys@));
        plan
    }

    /// Consume the schedule up to the moment `now`: kick every event that
    /// is due by then, in the firing order, drop what has been kicked, and
    /// return when the next event will happen.
    pub fn kick_event(&mut self, now: Timespec) -> (next: Option<Timespec>)
        requires
            old(self).wf(),
        ensures
            final(self).wf(),
            final(self).events() == old(self).events(),
            final(self).zoneinfo() == old(self).zoneinfo(),
            final(self).window() == old(self).window(),
            final(self).latest() == old(self).latest(),
            final(self).pending() == later_than(old(self).pending(), now),
            is_earliest(final(self).pending(), next),
            next matches Some(timestamp) ==> now.before(timestamp),
            exists|plan: Seq<(Timespec, usize)>|
                {
                    &&& #[trigger] is_firing_order(old(self).pending(), now, plan)
                    &&& forall|q: int|
                        0 <= q < plan.len() ==> kicked(
                            old(self).events()[(#[trigger] plan[q]).1 as int],
                            plan[q].0,
                        )
                },
    {
        let (past_events, plan) = self.due_plan(now);
        assert(are_due(self.pending(), now, past_events@));

        // kick the current event...
        let mut q: usize = 0;
        while q < plan.len()
            invariant
                q <= plan@.len(),
                self.events() == old(self).events(),
                forall|r: int| 0 <= r < plan@.len() ==> (#[trigger] plan@[r]).1 < self.events().len(),
                forall|r: int|
                    0 <= r < q ==> kicked(self.events()[(#[trigger] plan@[r]).1 as int], plan@[r].0),
            decreases plan@.len() - q,
        {
            let timestamp = plan[q].0;
            let schedule_event = &self.events[plan[q].1];
            schedule_event.action.kick(&timestamp, &schedule_event.moment, &schedule_event.context);
            q = q + 1;
        }

        // ...and consume that and prior events
        let ghost before = self.pending();
        remove_keys(&mut self.schedule, &past_events);
        proof {
            assert(self.pending() =~= later_than(before, now));
            assert(is_firing_order(before, now, plan@));
        }
        first_key(&self.schedule)
    }

    /// Peek when the next event will happen.
    pub fn peek_event(&self) -> (next: Option<Timespec>)
        ensures
            is_earliest(self.pending(), next),
    {
        first_key(&self.schedule)
    }
}

} // verus!
