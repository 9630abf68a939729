//! What holds of the engine in general, proved from the definitions that
//! the contracts of its operations are stated with.
use crate::calendar::{day_clock, day_number, is_weekend, weekday};
use crate::clock::{Duration, Timespec, NSEC_PER_SEC, SECS_PER_DAY, SECS_PER_HOUR, SECS_PER_MINUTE};
use crate::event::{earlier, fuzzy_pick, fuzzy_span, is_draw, later, DailyEvent, Event};
use crate::filter::Filter;
use crate::moment::Moment;
use crate::pending::{
    are_due, ascending, coherent, is_earliest, later_than, occurrences, occurrences_at, place,
    place_all,
};
use crate::schedule::{are_outcomes, is_firing_order, Handler};
use crate::zone::{lemma_passed_is, lemma_passed_splits, passed, LocalTimeState, ZoneInfo};
use vstd::prelude::*;

verus! {

/// A moment given from UTC midnight has the same timestamp whatever the
/// time zone does: the reference plus the offset.
pub proof fn law_utc_moment_ignores_zone(
    offset: Duration,
    reference: Timespec,
    window: LocalTimeState,
    other: LocalTimeState,
)
    requires
        offset.wf(),
        reference.is_reference(),
    ensures
        Moment::UtcTime(offset).resolve(reference, window) == Moment::UtcTime(offset).resolve(
            reference,
            other,
        ),
        Moment::UtcTime(offset).resolve(reference, window).total_nanos() == reference.total_nanos()
            + offset.total_nanos(),
{
}

/// The moment of a timestamp within its UTC day leads back to the
/// timestamp from the midnight at which that day began.
pub proof fn law_moment_of_timestamp_leads_back(ts: Timespec, window: LocalTimeState)
    requires
        ts.is_reference(),
    ensures
        ({
            let midnight = Timespec { sec: (ts.sec - day_clock(ts.sec as int)) as i64, nsec: 0 };
            let moment = Moment::UtcTime(
                Duration { secs: day_clock(ts.sec as int) as i64, nanos: ts.nsec },
            );
            &&& day_clock(midnight.sec as int) == 0
            &&& moment.wf()
            &&& moment.resolve(midnight, window) == ts
        }),
{
    let clock = day_clock(ts.sec as int);
    let days = day_number(ts.sec as int);
    assert(ts.sec == 86_400 * days + clock);
    vstd::arithmetic::div_mod::lemma_fundamental_div_mod_converse(ts.sec - clock, 86_400, days, 0);
}

/// A moment given from local midnight is as far from the reference as its
/// offset says, less the zone's offset from UTC. Where a transition is
/// pending, the zone's offset is the one from before the transition as long
/// as the moment, taken back to UTC by that offset, comes before the
/// transition, and the one from the transition on otherwise: the timestamp
/// moves by the difference of the two offsets on the day of the transition.
pub proof fn law_local_moment_follows_zone(
    offset: Duration,
    reference: Timespec,
    window: LocalTimeState,
)
    requires
        offset.wf(),
        reference.is_reference(),
        window.wf(),
        !(window is Unknown),
    ensures
        ({
            let resolved = Moment::LocalTime(offset).resolve(reference, window);
            let wall = reference.total_nanos() + offset.total_nanos();
            match window {
                LocalTimeState::ChangePending(transition, before, after) => {
                    if wall - before.ut_offset * NSEC_PER_SEC < transition.total_nanos() {
                        resolved.total_nanos() == wall - before.ut_offset * NSEC_PER_SEC
                    } else {
                        resolved.total_nanos() == wall - after.ut_offset * NSEC_PER_SEC
                    }
                },
                LocalTimeState::NoChangePending(info) => resolved.total_nanos() == wall
                    - info.ut_offset * NSEC_PER_SEC,
                LocalTimeState::Unknown => true,
            }
        }),
{
    if let LocalTimeState::ChangePending(transition, before, after) = window {
        let wall = reference.spec_plus(offset);
        let provisional = wall.shifted(-before.ut_offset);
        crate::clock::lemma_before_is_nanos_order(provisional, transition);
    }
}

/// The cached view of a time zone is right from the latest day scheduled
/// up to the transition that follows the one it knows: for every instant in
/// between, the rules that the view holds are the rules of the zone.
pub proof fn law_window_agrees_with_zone(
    zoneinfo: ZoneInfo,
    window: LocalTimeState,
    latest: Timespec,
    instant: Timespec,
)
    requires
        zoneinfo.wf(),
        window.is_current(zoneinfo, latest),
        latest.at_or_before(instant),
        window matches LocalTimeState::ChangePending(transition, _, _) ==> (
        zoneinfo.next_transition(transition) matches Some((following, _)) ==> instant.before(
            following,
        )),
    ensures
        window.info_at(instant) == zoneinfo.actual(instant),
{
    let transitions = zoneinfo.transitions@;
    let seen = choose|seen: Timespec|
        seen.at_or_before(latest) && window == #[trigger] zoneinfo.window_at(seen);
    let n = passed(transitions, seen) as int;
    lemma_passed_splits(transitions, seen);
    assert(seen.at_or_before(instant));
    match window {
        LocalTimeState::ChangePending(transition, _, _) => {
            assert(transition == transitions[n].at);
            if instant.before(transition) {
                assert forall|i: int| n <= i < transitions.len() implies instant.before(
                    (#[trigger] transitions[i]).at,
                ) by {
                    if n < i {
                        assert(transitions[n].at.before(transitions[i].at));
                    }
                }
                lemma_passed_is(transitions, instant, n);
            } else {
                assert forall|i: int| n + 1 <= i < transitions.len() implies transition.before(
                    (#[trigger] transitions[i]).at,
                ) by {
                    assert(transitions[n].at.before(transitions[i].at));
                }
                lemma_passed_is(transitions, transition, n + 1);
                assert forall|i: int| n + 1 <= i < transitions.len() implies instant.before(
                    (#[trigger] transitions[i]).at,
                ) by {
                    if n + 1 < i {
                        assert(transitions[n + 1].at.before(transitions[i].at));
                    }
                }
                lemma_passed_is(transitions, instant, n + 1);
            }
        },
        _ => {
            assert(n == transitions.len());
            lemma_passed_is(transitions, instant, n);
        },
    }
}

/// The day after, at the same time, the weekday is the next one, and the
/// epoch was a Thursday.
pub proof fn law_weekday_advances(sec: int)
    ensures
        weekday(0) == 4,
        0 <= weekday(sec) <= 6,
        weekday(sec + SECS_PER_DAY) == (weekday(sec) + 1) % 7,
{
    let days = sec / 86_400;
    assert((sec + 86_400) / 86_400 == days + 1) by {
        assert(sec == 86_400 * days + sec % 86_400);
        assert(sec + 86_400 == 86_400 * (days + 1) + sec % 86_400);
        vstd::arithmetic::div_mod::lemma_fundamental_div_mod_converse(
            sec + 86_400,
            86_400,
            days + 1,
            sec % 86_400,
        );
    }
    let shifted = days + 4;
    assert((shifted + 1) % 7 == (shifted % 7 + 1) % 7);
}

/// The filter for the weekend permits exactly the instants that the filter
/// for Monday till Friday refuses, and the filter that always permits
/// permits them all.
pub proof fn law_weekend_complements_weekdays(time: Timespec, window: LocalTimeState)
    ensures
        Filter::Weekend.permits(time, window) <==> !Filter::MonToFri.permits(time, window),
        Filter::Always.permits(time, window),
        Filter::Weekend.permits(time, window) <==> is_weekend(
            time.sec + window.info_at(time).ut_offset,
        ),
{
}

/// A fuzzy event whose two moments have different timestamps is placed at
/// or after the earlier of the two and before the later, whatever is drawn.
pub proof fn law_fuzzy_between_moments<F: Fn(Timespec) -> Moment>(
    filter: Filter,
    m1: Moment,
    m2: Moment,
    reference: Timespec,
    window: LocalTimeState,
    timestamp: Timespec,
)
    requires
        m1.wf(),
        m2.wf(),
        reference.is_reference(),
        m1.resolve(reference, window) != m2.resolve(reference, window),
        DailyEvent::<F>::Fuzzy(filter, m1, m2).may_resolve_to(reference, window, timestamp),
    ensures
        earlier(m1.resolve(reference, window), m2.resolve(reference, window)).at_or_before(
            timestamp,
        ),
        timestamp.before(later(m1.resolve(reference, window), m2.resolve(reference, window))),
{
    let t1 = m1.resolve(reference, window);
    let t2 = m2.resolve(reference, window);
    let draw = choose|draw: int|
        is_draw(fuzzy_span(t1, t2), draw) && timestamp == #[trigger] fuzzy_pick(t1, t2, draw);
    assert(timestamp == fuzzy_pick(t1, t2, draw));
}

/// A fuzzy event whose two moments have the same timestamp is placed at
/// that timestamp.
pub proof fn law_fuzzy_of_equal_moments<F: Fn(Timespec) -> Moment>(
    filter: Filter,
    m1: Moment,
    m2: Moment,
    reference: Timespec,
    window: LocalTimeState,
    timestamp: Timespec,
)
    requires
        m1.wf(),
        m2.wf(),
        reference.is_reference(),
        m1.resolve(reference, window) == m2.resolve(reference, window),
        DailyEvent::<F>::Fuzzy(filter, m1, m2).may_resolve_to(reference, window, timestamp),
    ensures
        timestamp == m1.resolve(reference, window),
{
    let t1 = m1.resolve(reference, window);
    let t2 = m2.resolve(reference, window);
    let draw = choose|draw: int|
        is_draw(fuzzy_span(t1, t2), draw) && timestamp == #[trigger] fuzzy_pick(t1, t2, draw);
    assert(timestamp == fuzzy_pick(t1, t2, draw));
}

/// Scheduling an event keeps what was pending: every timestamp stays, and
/// every event stays among those due at its timestamp. The event scheduled
/// is among those due at its timestamp afterwards.
pub proof fn lemma_place_keeps(
    pending: Map<Timespec, Seq<usize>>,
    timestamp: Timespec,
    index: usize,
)
    ensures
        place(pending, timestamp, index).contains_key(timestamp),
        place(pending, timestamp, index)[timestamp].contains(index),
        forall|t: Timespec| #[trigger]
            pending.contains_key(t) ==> place(pending, timestamp, index).contains_key(t),
        forall|t: Timespec, i: usize|
            pending.contains_key(t) && #[trigger] pending[t].contains(i) ==> place(
                pending,
                timestamp,
                index,
            )[t].contains(i),
{
    let placed = place(pending, timestamp, index);
    if !pending.contains_key(timestamp) {
        assert(seq![index][0] == index);
    } else if !pending[timestamp].contains(index) {
        let list = pending[timestamp];
        assert(list.push(index)[list.len() as int] == index);
        assert forall|i: usize| list.contains(i) implies list.push(index).contains(i) by {
            let j = choose|j: int| 0 <= j < list.len() && list[j] == i;
            assert(list.push(index)[j] == i);
        }
    }
}

/// Once the events have been scheduled with their outcomes, each event that
/// has got a timestamp is among those due at that timestamp.
pub proof fn lemma_place_all_holds(
    pending: Map<Timespec, Seq<usize>>,
    outcomes: Seq<Option<Timespec>>,
    k: int,
)
    requires
        outcomes.len() <= usize::MAX,
        0 <= k < outcomes.len(),
        outcomes[k] is Some,
    ensures
        place_all(pending, outcomes).contains_key(outcomes[k]->0),
        place_all(pending, outcomes)[outcomes[k]->0].contains(k as usize),
    decreases outcomes.len(),
{
    let rest = outcomes.drop_last();
    let before = place_all(pending, rest);
    let last = (outcomes.len() - 1) as usize;
    if k < outcomes.len() - 1 {
        assert(rest[k] == outcomes[k]);
        lemma_place_all_holds(pending, rest, k);
        if let Some(timestamp) = outcomes.last() {
            lemma_place_keeps(before, timestamp, last);
        }
    } else {
        lemma_place_keeps(before, outcomes[k]->0, last);
    }
}

/// Scheduling events that all are among those due at their timestamps
/// already changes nothing.
pub proof fn lemma_place_all_settled(
    pending: Map<Timespec, Seq<usize>>,
    outcomes: Seq<Option<Timespec>>,
)
    requires
        outcomes.len() <= usize::MAX,
        forall|k: int|
            0 <= k < outcomes.len() && (#[trigger] outcomes[k]) is Some ==> pending.contains_key(
                outcomes[k]->0,
            ) && pending[outcomes[k]->0].contains(k as usize),
    ensures
        place_all(pending, outcomes) == pending,
    decreases outcomes.len(),
{
    if outcomes.len() > 0 {
        let rest = outcomes.drop_last();
        assert forall|k: int| 0 <= k < rest.len() && (#[trigger] rest[k]) is Some implies pending.contains_key(
            rest[k]->0,
        ) && pending[rest[k]->0].contains(k as usize) by {
            assert(rest[k] == outcomes[k]);
        }
        lemma_place_all_settled(pending, rest);
        assert(outcomes.last() == outcomes[outcomes.len() - 1]);
    }
}

/// Updating the schedule a second time for the same day, with the events
/// getting the same timestamps again, leaves the pending occurrences as
/// they are: no occurrence is pending twice.
pub proof fn law_update_is_idempotent(
    pending: Map<Timespec, Seq<usize>>,
    outcomes: Seq<Option<Timespec>>,
)
    requires
        outcomes.len() <= usize::MAX,
    ensures
        place_all(place_all(pending, outcomes), outcomes) == place_all(pending, outcomes),
{
    let once = place_all(pending, outcomes);
    assert forall|k: int|
        0 <= k < outcomes.len() && (#[trigger] outcomes[k]) is Some implies once.contains_key(
        outcomes[k]->0,
    ) && once[outcomes[k]->0].contains(k as usize) by {
        lemma_place_all_holds(pending, outcomes, k);
    }
    lemma_place_all_settled(once, outcomes);
}

/// A fixed event is scheduled at the timestamp of its moment whenever its
/// filter permits that timestamp; with the filter that always permits, it
/// is scheduled every day.
pub proof fn law_fixed_event_is_determined<F: Fn(Timespec) -> Moment>(
    filter: Filter,
    moment: Moment,
    reference: Timespec,
    window: LocalTimeState,
    outcome: Option<Timespec>,
)
    requires
        DailyEvent::<F>::Fixed(filter, moment).may_yield(reference, window, outcome),
    ensures
        outcome == if filter.permits(moment.resolve(reference, window), window) {
            Some(moment.resolve(reference, window))
        } else {
            None
        },
        filter is Always ==> outcome == Some(moment.resolve(reference, window)),
{
    let event = DailyEvent::<F>::Fixed(filter, moment);
    if outcome is None {
        let t = choose|t: Timespec| #[trigger]
            event.may_resolve_to(reference, window, t) && !event.filter().permits(t, window);
        assert(t == moment.resolve(reference, window));
    }
}

/// A single event fixed at `h:m:s` local time that is permitted every day,
/// scheduled once in a zone that has no transitions and is `ut_offset`
/// seconds ahead of UTC, is due at the reference midnight plus `h:m:s` less
/// the zone's offset, and at no other time. Once it has been kicked at that
/// timestamp, nothing is pending.
pub proof fn law_single_fixed_event<C: Eq + PartialEq, H: Handler<C, F>, F: Fn(Timespec) -> Moment>(
    events: Seq<Event<C, H, F>>,
    h: u8,
    m: u8,
    s: u8,
    zoneinfo: ZoneInfo,
    midnight: Timespec,
    outcomes: Seq<Option<Timespec>>,
)
    requires
        midnight.is_reference(),
        zoneinfo.transitions@.len() == 0,
        events.len() == 1,
        events[0].moment == DailyEvent::<F>::Fixed(
            Filter::Always,
            Moment::LocalTime(
                Duration {
                    secs: (h * SECS_PER_HOUR + m * SECS_PER_MINUTE + s) as i64,
                    nanos: 0,
                },
            ),
        ),
        are_outcomes(events, midnight, LocalTimeState::Unknown.refreshed(zoneinfo, midnight), outcomes),
    ensures
        ({
            let due = midnight.shifted(
                h * SECS_PER_HOUR + m * SECS_PER_MINUTE + s - zoneinfo.initial.ut_offset,
            );
            let pending = place_all(Map::empty(), outcomes);
            &&& pending == Map::<Timespec, Seq<usize>>::empty().insert(due, seq![0usize])
            &&& is_earliest(pending, Some(due))
            &&& later_than(pending, due) == Map::<Timespec, Seq<usize>>::empty()
            &&& is_earliest(later_than(pending, due), None)
        }),
{
    let window = LocalTimeState::Unknown.refreshed(zoneinfo, midnight);
    let moment = Moment::LocalTime(
        Duration { secs: (h * SECS_PER_HOUR + m * SECS_PER_MINUTE + s) as i64, nanos: 0 },
    );
    let due = midnight.shifted(
        h * SECS_PER_HOUR + m * SECS_PER_MINUTE + s - zoneinfo.initial.ut_offset,
    );
    assert(window == LocalTimeState::NoChangePending(zoneinfo.initial));
    assert(moment.resolve(midnight, window) == due);
    assert(events[0].moment.may_yield(midnight, window, outcomes[0]));
    law_fixed_event_is_determined::<F>(Filter::Always, moment, midnight, window, outcomes[0]);
    let nothing = Map::<Timespec, Seq<usize>>::empty();
    assert(outcomes.drop_last() =~= Seq::<Option<Timespec>>::empty());
    assert(place_all(nothing, outcomes.drop_last()) == nothing);
    assert(outcomes.last() == Some(due));
    let pending = place_all(nothing, outcomes);
    assert(pending == place(nothing, due, 0usize));
    assert(later_than(pending, due) =~= nothing);
}

/// Events that are scheduled at the same timestamp in one update of an
/// empty schedule are kept, and so fired, in the order of their
/// registration: the events due at a timestamp are exactly those that got
/// it, each once, the earlier registered first.
pub proof fn law_same_instant_in_registration_order(
    outcomes: Seq<Option<Timespec>>,
    timestamp: Timespec,
)
    requires
        outcomes.len() <= usize::MAX,
    ensures
        ({
            let pending = place_all(Map::empty(), outcomes);
            &&& pending.contains_key(timestamp) <==> exists|k: int|
                0 <= k < outcomes.len() && #[trigger] outcomes[k] == Some(timestamp)
            &&& pending.contains_key(timestamp) ==> {
                &&& forall|a: int, b: int|
                    0 <= a < b < pending[timestamp].len() ==> (#[trigger] pending[timestamp][a]) < (
                    #[trigger] pending[timestamp][b])
                &&& forall|i: usize| #[trigger]
                    pending[timestamp].contains(i) <==> i < outcomes.len() && outcomes[i as int]
                        == Some(timestamp)
            }
        }),
    decreases outcomes.len(),
{
    let pending = place_all(Map::<Timespec, Seq<usize>>::empty(), outcomes);
    if outcomes.len() > 0 {
        let rest = outcomes.drop_last();
        let before = place_all(Map::<Timespec, Seq<usize>>::empty(), rest);
        let last = (outcomes.len() - 1) as usize;
        law_same_instant_in_registration_order(rest, timestamp);
        assert forall|k: int| 0 <= k < rest.len() implies rest[k] == outcomes[k] by {}
        if before.contains_key(timestamp) {
            let k = choose|k: int| 0 <= k < rest.len() && #[trigger] rest[k] == Some(timestamp);
            assert(outcomes[k] == Some(timestamp));
        }
        if outcomes.last() == Some(timestamp) {
            assert(outcomes[outcomes.len() - 1] == Some(timestamp));
            if before.contains_key(timestamp) {
                let list = before[timestamp];
                assert(!list.contains(last));
                assert(pending[timestamp] == list.push(last));
                assert forall|i: usize| #[trigger]
                    list.push(last).contains(i) <==> i < outcomes.len() && outcomes[i as int]
                        == Some(timestamp) by {
                    if list.push(last).contains(i) {
                        let j = choose|j: int| 0 <= j < list.push(last).len() && list.push(last)[j] == i;
                        if j < list.len() {
                            assert(list[j] == i);
                            assert(list.contains(i));
                        }
                    }
                    if i < outcomes.len() && outcomes[i as int] == Some(timestamp) {
                        if i == last {
                            assert(list.push(last)[list.len() as int] == i);
                        } else {
                            assert(rest[i as int] == Some(timestamp));
                            assert(list.contains(i));
                            let j = choose|j: int| 0 <= j < list.len() && list[j] == i;
                            assert(list.push(last)[j] == i);
                        }
                    }
                }
                assert forall|a: int, b: int| 0 <= a < b < list.push(last).len() implies (
                #[trigger] list.push(last)[a]) < (#[trigger] list.push(last)[b]) by {
                    if b == list.len() {
                        assert(list.contains(list[a]));
                    }
                }
            } else {
                assert(pending[timestamp] == seq![last]);
                assert forall|i: usize| #[trigger]
                    seq![last].contains(i) <==> i < outcomes.len() && outcomes[i as int] == Some(
                        timestamp,
                    ) by {
                    if i < outcomes.len() && outcomes[i as int] == Some(timestamp) {
                        if i != last {
                            assert(rest[i as int] == Some(timestamp));
                        }
                        assert(seq![last][0] == i);
                    }
                }
            }
        } else {
            if pending.contains_key(timestamp) {
                assert(before.contains_key(timestamp));
                assert(pending[timestamp] == before[timestamp]);
            }
            if exists|k: int| 0 <= k < outcomes.len() && #[trigger] outcomes[k] == Some(timestamp) {
                let k = choose|k: int|
                    0 <= k < outcomes.len() && #[trigger] outcomes[k] == Some(timestamp);
                assert(rest[k] == Some(timestamp));
            }
        }
    }
}

/// There is one answer to when the next event will happen.
pub proof fn law_earliest_is_unique(
    pending: Map<Timespec, Seq<usize>>,
    first: Option<Timespec>,
    other: Option<Timespec>,
)
    requires
        is_earliest(pending, first),
        is_earliest(pending, other),
    ensures
        first == other,
{
}

/// There is one list of the timestamps that are due, from the earliest to
/// the latest.
pub proof fn lemma_due_keys_are_unique(
    pending: Map<Timespec, Seq<usize>>,
    now: Timespec,
    keys: Seq<Timespec>,
    other: Seq<Timespec>,
)
    requires
        are_due(pending, now, keys),
        are_due(pending, now, other),
    ensures
        keys == other,
{
    lemma_ascending_same_elements(keys, other);
}

/// Two ascending sequences of timestamps with the same elements are equal.
pub proof fn lemma_ascending_same_elements(keys: Seq<Timespec>, other: Seq<Timespec>)
    requires
        ascending(keys),
        ascending(other),
        forall|t: Timespec| keys.contains(t) <==> other.contains(t),
    ensures
        keys == other,
    decreases keys.len(),
{
    if keys.len() == 0 {
        if other.len() > 0 {
            assert(other.contains(other[0]));
        }
        assert(keys =~= other);
    } else {
        let top = keys.last();
        assert(keys.contains(top));
        assert(other.contains(top));
        let at = choose|j: int| 0 <= j < other.len() && other[j] == top;
        if at < other.len() - 1 {
            let beyond = other.last();
            assert(other.contains(beyond));
            assert(keys.contains(beyond));
            let j = choose|j: int| 0 <= j < keys.len() && keys[j] == beyond;
            assert(other[at].before(other[other.len() - 1]));
            if j < keys.len() - 1 {
                assert(keys[j].before(keys[keys.len() - 1]));
            }
        }
        let k1 = keys.drop_last();
        let k2 = other.drop_last();
        assert forall|t: Timespec| k1.contains(t) <==> k2.contains(t) by {
            if k1.contains(t) {
                let j = choose|j: int| 0 <= j < k1.len() && k1[j] == t;
                assert(keys[j] == t);
                assert(keys[j].before(keys[keys.len() - 1]));
                assert(keys.contains(t));
                let j2 = choose|j2: int| 0 <= j2 < other.len() && other[j2] == t;
                assert(k2[j2] == t);
            }
            if k2.contains(t) {
                let j = choose|j: int| 0 <= j < k2.len() && k2[j] == t;
                assert(other[j] == t);
                assert(other[j].before(other[other.len() - 1]));
                assert(other.contains(t));
                let j2 = choose|j2: int| 0 <= j2 < keys.len() && keys[j2] == t;
                assert(k1[j2] == t);
            }
        }
        lemma_ascending_same_elements(k1, k2);
        assert(keys =~= k1.push(top));
        assert(other =~= k2.push(top));
    }
}

/// What the occurrences at ascending timestamps are: each is an event kept
/// at one of the timestamps, they come in the order of time, and every
/// event kept at one of the timestamps is among them.
pub proof fn lemma_occurrences_in_order(pending: Map<Timespec, Seq<usize>>, keys: Seq<Timespec>)
    requires
        ascending(keys),
    ensures
        forall|q: int|
            0 <= q < occurrences(pending, keys).len() ==> keys.contains(
                (#[trigger] occurrences(pending, keys)[q]).0,
            ) && pending[occurrences(pending, keys)[q].0].contains(occurrences(pending, keys)[q].1),
        forall|a: int, b: int|
            0 <= a < b < occurrences(pending, keys).len() ==> (#[trigger] occurrences(
                pending,
                keys,
            )[a]).0.at_or_before((#[trigger] occurrences(pending, keys)[b]).0),
        forall|k: int, j: int|
            0 <= k < keys.len() && 0 <= j < pending[keys[k]].len() ==> occurrences(
                pending,
                keys,
            ).contains((keys[k], #[trigger] pending[keys[k]][j])),
    decreases keys.len(),
{
    let plan = occurrences(pending, keys);
    if keys.len() > 0 {
        let rest = keys.drop_last();
        let top = keys.last();
        let prev = occurrences(pending, rest);
        let tail = occurrences_at(top, pending[top]);
        lemma_occurrences_in_order(pending, rest);
        assert(plan == prev + tail);
        assert(keys[keys.len() - 1] == top);
        assert forall|q: int| 0 <= q < plan.len() implies keys.contains((#[trigger] plan[q]).0)
            && pending[plan[q].0].contains(plan[q].1) by {
            if q < prev.len() {
                assert(plan[q] == prev[q]);
                let at = choose|at: int| 0 <= at < rest.len() && rest[at] == prev[q].0;
                assert(keys[at] == prev[q].0);
            } else {
                assert(plan[q] == tail[q - prev.len()]);
                assert(pending[top][q - prev.len()] == plan[q].1);
            }
        }
        assert forall|a: int, b: int| 0 <= a < b < plan.len() implies (#[trigger] plan[a]).0.at_or_before(
            (#[trigger] plan[b]).0,
        ) by {
            if b < prev.len() {
                assert(plan[a] == prev[a] && plan[b] == prev[b]);
            } else {
                assert(plan[b] == tail[b - prev.len()]);
                if a < prev.len() {
                    assert(plan[a] == prev[a]);
                    let at = choose|at: int| 0 <= at < rest.len() && rest[at] == prev[a].0;
                    assert(keys[at].before(keys[keys.len() - 1]));
                } else {
                    assert(plan[a] == tail[a - prev.len()]);
                }
            }
        }
        assert forall|k: int, j: int|
            0 <= k < keys.len() && 0 <= j < pending[keys[k]].len() implies plan.contains(
            (keys[k], #[trigger] pending[keys[k]][j]),
        ) by {
            if k < rest.len() {
                assert(rest[k] == keys[k]);
                let q = choose|q: int|
                    0 <= q < prev.len() && prev[q] == (rest[k], pending[rest[k]][j]);
                assert(plan[q] == prev[q]);
            } else {
                assert(plan[prev.len() + j] == tail[j]);
            }
        }
    }
}

/// The firing order is the order of time, and it holds what is due and
/// nothing else: each of its occurrences is an event that is pending at a
/// timestamp up to `now`, the timestamps never go back, and every event
/// that is pending at a timestamp up to `now` is among its occurrences.
pub proof fn law_firing_order_is_chronological(
    pending: Map<Timespec, Seq<usize>>,
    now: Timespec,
    plan: Seq<(Timespec, usize)>,
)
    requires
        is_firing_order(pending, now, plan),
    ensures
        forall|q: int|
            0 <= q < plan.len() ==> {
                let (timestamp, event) = #[trigger] plan[q];
                &&& pending.contains_key(timestamp)
                &&& timestamp.at_or_before(now)
                &&& pending[timestamp].contains(event)
            },
        forall|a: int, b: int|
            0 <= a < b < plan.len() ==> (#[trigger] plan[a]).0.at_or_before((#[trigger] plan[b]).0),
        forall|timestamp: Timespec, j: int|
            pending.contains_key(timestamp) && timestamp.at_or_before(now) && 0 <= j
                < pending[timestamp].len() ==> plan.contains(
                (timestamp, #[trigger] pending[timestamp][j]),
            ),
{
    let keys = choose|keys: Seq<Timespec>| #[trigger]
        are_due(pending, now, keys) && plan == occurrences(pending, keys);
    lemma_occurrences_in_order(pending, keys);
    assert forall|timestamp: Timespec, j: int|
        pending.contains_key(timestamp) && timestamp.at_or_before(now) && 0 <= j
            < pending[timestamp].len() implies plan.contains(
        (timestamp, #[trigger] pending[timestamp][j]),
    ) by {
        assert(keys.contains(timestamp));
        let k = choose|k: int| 0 <= k < keys.len() && keys[k] == timestamp;
        assert(plan.contains((keys[k], pending[keys[k]][j])));
    }
}

/// Where no event is kept twice at a timestamp, no occurrence comes twice
/// among the occurrences at ascending timestamps.
pub proof fn lemma_occurrences_once(pending: Map<Timespec, Seq<usize>>, keys: Seq<Timespec>)
    requires
        ascending(keys),
        forall|k: int| 0 <= k < keys.len() ==> pending[#[trigger] keys[k]].no_duplicates(),
    ensures
        occurrences(pending, keys).no_duplicates(),
    decreases keys.len(),
{
    let plan = occurrences(pending, keys);
    if keys.len() > 0 {
        let rest = keys.drop_last();
        let top = keys.last();
        let prev = occurrences(pending, rest);
        let tail = occurrences_at(top, pending[top]);
        assert forall|k: int| 0 <= k < rest.len() implies pending[#[trigger] rest[k]].no_duplicates() by {
            assert(rest[k] == keys[k]);
        }
        lemma_occurrences_once(pending, rest);
        lemma_occurrences_in_order(pending, rest);
        assert(keys[keys.len() - 1] == top);
        assert(pending[top].no_duplicates());
        assert forall|a: int, b: int| 0 <= a < plan.len() && 0 <= b < plan.len() && a != b implies plan[a]
            != plan[b] by {
            if a < prev.len() && b < prev.len() {
                assert(plan[a] == prev[a] && plan[b] == prev[b]);
            } else if a >= prev.len() && b >= prev.len() {
                assert(plan[a] == tail[a - prev.len()]);
                assert(plan[b] == tail[b - prev.len()]);
            } else {
                let (low, high) = if a < b {
                    (a, b)
                } else {
                    (b, a)
                };
                assert(plan[low] == prev[low]);
                assert(plan[high] == tail[high - prev.len()]);
                let at = choose|at: int| 0 <= at < rest.len() && rest[at] == prev[low].0;
                assert(keys[at].before(keys[keys.len() - 1]));
            }
        }
    }
}

/// Each occurrence that is due is fired once: where no event is pending
/// twice at a timestamp, as it is in every schedule, the firing order holds
/// no occurrence twice.
pub proof fn law_firing_order_fires_once(
    pending: Map<Timespec, Seq<usize>>,
    registered: nat,
    now: Timespec,
    plan: Seq<(Timespec, usize)>,
)
    requires
        coherent(pending, registered),
        is_firing_order(pending, now, plan),
    ensures
        plan.no_duplicates(),
{
    let keys = choose|keys: Seq<Timespec>| #[trigger]
        are_due(pending, now, keys) && plan == occurrences(pending, keys);
    assert forall|k: int| 0 <= k < keys.len() implies pending[#[trigger] keys[k]].no_duplicates() by {
        assert(keys.contains(keys[k]));
    }
    lemma_occurrences_once(pending, keys);
}

/// There is one firing order of what is due.
pub proof fn law_firing_order_is_unique(
    pending: Map<Timespec, Seq<usize>>,
    now: Timespec,
    plan: Seq<(Timespec, usize)>,
    other: Seq<(Timespec, usize)>,
)
    requires
        is_firing_order(pending, now, plan),
        is_firing_order(pending, now, other),
    ensures
        plan == other,
{
    let k1 = choose|keys: Seq<Timespec>| #[trigger]
        are_due(pending, now, keys) && plan == occurrences(pending, keys);
    let k2 = choose|keys: Seq<Timespec>| #[trigger]
        are_due(pending, now, keys) && other == occurrences(pending, keys);
    lemma_due_keys_are_unique(pending, now, k1, k2);
}

} // verus!
