use dailyschedule::calendar::{day_of_week, seconds_since_midnight};
use dailyschedule::event::{fuzzy_bound, fuzzy_timestamp, jittered_timestamp};
use dailyschedule::{
    DailyEvent, Duration, Filter, Generator, Handler, LocalTimeState, Moment, Schedule, Timespec,
    Transition, ZoneInfo, ZoneInfoElement,
};
use std::cell::RefCell;
use std::rc::Rc;

type Closure = Box<dyn Fn(Timespec) -> Moment>;

struct Recorder {
    hints: RefCell<Vec<(Timespec, u32)>>,
    kicks: RefCell<Vec<(Timespec, u32)>>,
    texts: RefCell<Vec<String>>,
}

impl Recorder {
    fn shared() -> Rc<Recorder> {
        Rc::new(Recorder {
            hints: RefCell::new(vec![]),
            kicks: RefCell::new(vec![]),
            texts: RefCell::new(vec![]),
        })
    }
}

impl Handler<u32, Closure> for Recorder {
    fn hint(&self, timestamp: &Timespec, context: &u32) {
        self.hints.borrow_mut().push((*timestamp, *context));
    }

    fn kick(&self, timestamp: &Timespec, event: &DailyEvent<Closure>, context: &u32) {
        self.kicks.borrow_mut().push((*timestamp, *context));
        self.texts.borrow_mut().push(event.describe());
    }
}

fn offset(seconds: i32) -> ZoneInfoElement {
    ZoneInfoElement { ut_offset: seconds }
}

fn spring_2015() -> Timespec {
    Timespec::new(1427590800, 0)
}

fn autumn_2015() -> Timespec {
    Timespec::new(1445734800, 0)
}

fn central_europe() -> ZoneInfo {
    ZoneInfo::new(
        offset(3600),
        vec![
            Transition { at: spring_2015(), info: offset(7200) },
            Transition { at: autumn_2015(), info: offset(3600) },
        ],
    )
    .unwrap()
}

fn new_schedule(zone: ZoneInfo) -> Schedule<u32, Recorder, Closure> {
    Schedule::new(zone)
}

fn seeded_schedule(zone: ZoneInfo, seed: usize) -> Schedule<u32, Recorder, Closure> {
    Schedule::with_generator(zone, Generator::seeded(&[seed, 17, 4]))
}

#[test]
fn timespec_plus_carries_nanoseconds() {
    let t = Timespec::new(5, 999_999_999).plus(Duration { secs: 0, nanos: 1 });
    assert_eq!(t, Timespec::new(6, 0));
    let t = Timespec::new(-1, 500_000_000).plus(Duration { secs: -2, nanos: 700_000_000 });
    assert_eq!(t, Timespec::new(-2, 200_000_000));
    let t = Timespec::new(10, 1).plus(Duration::seconds(-10));
    assert_eq!(t, Timespec::new(0, 1));
}

#[test]
fn duration_constructors_count_seconds() {
    assert_eq!(Duration::seconds(7), Duration { secs: 7, nanos: 0 });
    assert_eq!(Duration::minutes(3), Duration { secs: 180, nanos: 0 });
    assert_eq!(Duration::hours(-2), Duration { secs: -7200, nanos: 0 });
    assert_eq!(Duration::days(2), Duration { secs: 172_800, nanos: 0 });
    assert_eq!(
        Duration::hours(2).plus(Duration::minutes(30)),
        Duration { secs: 9000, nanos: 0 }
    );
    assert_eq!(
        Duration { secs: 1, nanos: 600_000_000 }.plus(Duration { secs: 2, nanos: 600_000_000 }),
        Duration { secs: 4, nanos: 200_000_000 }
    );
}

#[test]
fn num_seconds_rounds_towards_zero() {
    assert_eq!(Duration { secs: 3, nanos: 900_000_000 }.num_seconds(), 3);
    assert_eq!(Duration { secs: -1, nanos: 500_000_000 }.num_seconds(), 0);
    assert_eq!(Duration { secs: -2, nanos: 500_000_000 }.num_seconds(), -1);
    assert_eq!(Duration { secs: -2, nanos: 0 }.num_seconds(), -2);
}

#[test]
fn timestamps_compare_by_seconds_then_nanoseconds() {
    let a = Timespec::new(1, 999_999_999);
    let b = Timespec::new(2, 0);
    assert!(a.is_before(&b));
    assert!(!b.is_before(&a));
    assert!(!a.is_before(&a));
    assert!(a.is_at_or_before(&a));
    assert!(a.is_at_or_before(&b));
    assert!(!b.is_at_or_before(&a));
    assert!(Timespec::new(-1, 5).is_before(&Timespec::new(-1, 6)));
}

#[test]
fn weekday_of_known_days() {
    // the epoch was a Thursday
    assert_eq!(day_of_week(Timespec::new(0, 0), 0), 4);
    assert_eq!(day_of_week(Timespec::new(86_399, 0), 0), 4);
    assert_eq!(day_of_week(Timespec::new(86_400, 0), 0), 5);
    // the second before the epoch was on a Wednesday
    assert_eq!(day_of_week(Timespec::new(-1, 0), 0), 3);
    // January 4th 1970 was a Sunday
    assert_eq!(day_of_week(Timespec::new(3 * 86_400, 0), 0), 0);
    // March 29th 2015 was a Sunday
    assert_eq!(day_of_week(spring_2015(), 0), 0);
    // one second ahead of UTC the last second of Thursday is on Friday
    assert_eq!(day_of_week(Timespec::new(86_399, 0), 1), 5);
    assert_eq!(day_of_week(Timespec::new(0, 0), -1), 3);
}

#[test]
fn calendar_reading_of_each_second_of_a_week() {
    for sec in 0..604_800i64 {
        let t = Timespec::new(sec, 0);
        assert_eq!(seconds_since_midnight(t), sec % 86_400);
        assert_eq!(day_of_week(t, 0) as i64, (sec / 86_400 + 4) % 7);
    }
}

#[test]
fn calendar_reading_far_from_the_epoch() {
    for sec in [
        i64::MIN,
        i64::MIN + 1,
        -9_223_372_036_854_775,
        -1_000_000_000_000,
        -604_801,
        -604_800,
        -86_401,
        -86_400,
        -1,
        604_799,
        604_800,
        1_427_590_800,
        253_402_300_799,
        9_223_372_036_854_775,
        i64::MAX,
    ] {
        let t = Timespec::new(sec, 999_999_999);
        let wide = sec as i128;
        assert_eq!(seconds_since_midnight(t) as i128, wide.rem_euclid(86_400));
        for ahead in [i32::MIN, -3600, 0, 3600, i32::MAX] {
            let local = wide + ahead as i128;
            assert_eq!(day_of_week(t, ahead) as i128, (local.div_euclid(86_400) + 4).rem_euclid(7));
        }
    }
}

#[test]
fn seconds_since_midnight_of_known_instants() {
    assert_eq!(seconds_since_midnight(Timespec::new(0, 0)), 0);
    assert_eq!(seconds_since_midnight(Timespec::new(7237, 5)), 7237);
    assert_eq!(seconds_since_midnight(Timespec::new(-1, 0)), 86_399);
    // March 27th 2015, 2:00:37
    assert_eq!(seconds_since_midnight(Timespec::new(1427414400 + 7237, 0)), 7237);
}

#[test]
fn moment_new_counts_from_local_midnight() {
    assert!(Moment::new(1, 2, 3) == Moment::LocalTime(Duration { secs: 3723, nanos: 0 }));
    assert!(Moment::new(0, 0, 0) == Moment::LocalTime(Duration { secs: 0, nanos: 0 }));
    assert!(Moment::new(255, 255, 255) == Moment::LocalTime(Duration { secs: 933_555, nanos: 0 }));
}

#[test]
fn moment_from_timespec_is_time_of_utc_day() {
    let moment = Moment::new_from_timespec(Timespec::new(1427414400 + 3661, 42));
    assert!(moment == Moment::UtcTime(Duration { secs: 3661, nanos: 42 }));
    let moment = Moment::new_from_timespec(Timespec::new(-1, 999_999_999));
    assert!(moment == Moment::UtcTime(Duration { secs: 86_399, nanos: 999_999_999 }));
}

#[test]
fn moment_of_timestamp_leads_back_to_it() {
    for (sec, nsec) in [(0i64, 0i32), (1427414400 + 18_000, 0), (1445558400 + 86_399, 999_999_999), (-1, 5)] {
        let ts = Timespec::new(sec, nsec);
        let midnight = Timespec::new(sec - sec.rem_euclid(86_400), 0);
        let moment = Moment::new_from_timespec(ts);
        assert_eq!(moment.create_timestamp(midnight, &LocalTimeState::Unknown), ts);
    }
}

#[test]
fn weekday_advances_day_by_day() {
    let start = Timespec::new(1427414400 + 40_000, 0);
    let mut expected = day_of_week(start, 0);
    // March 27th 2015 was a Friday
    assert_eq!(expected, 5);
    for day in 1..30 {
        expected = (expected + 1) % 7;
        assert_eq!(day_of_week(start.plus(Duration::days(day)), 0), expected);
    }
}

#[test]
fn utc_moment_ignores_the_zone() {
    let reference = Timespec::new(1427414400, 0);
    let moment = Moment::UtcTime(Duration { secs: 18_000, nanos: 250 });
    let expected = Timespec::new(1427414400 + 18_000, 250);
    assert_eq!(moment.create_timestamp(reference, &LocalTimeState::Unknown), expected);
    assert_eq!(
        moment.create_timestamp(reference, &LocalTimeState::NoChangePending(offset(-3600))),
        expected
    );
    assert_eq!(
        moment.create_timestamp(
            reference,
            &LocalTimeState::ChangePending(spring_2015(), offset(3600), offset(7200))
        ),
        expected
    );
}

#[test]
fn local_moment_is_taken_back_by_the_zone_offset() {
    let reference = Timespec::new(86_400, 0);
    let moment = Moment::new(2, 0, 0);
    assert_eq!(
        moment.create_timestamp(reference, &LocalTimeState::NoChangePending(offset(3600))),
        Timespec::new(86_400 + 3600, 0)
    );
    assert_eq!(
        moment.create_timestamp(reference, &LocalTimeState::NoChangePending(offset(-18_000))),
        Timespec::new(86_400 + 7200 + 18_000, 0)
    );
    // half an hour after local midnight lies before the reference
    assert_eq!(
        Moment::new(0, 30, 0)
            .create_timestamp(reference, &LocalTimeState::NoChangePending(offset(3600))),
        Timespec::new(86_400 - 1800, 0)
    );
}

#[test]
fn local_moment_around_a_transition() {
    // the day of the transition to summer time in 2015
    let reference = Timespec::new(1427587200, 0);
    let window = LocalTimeState::ChangePending(spring_2015(), offset(3600), offset(7200));
    // 1:59:59 local is the last second of winter time
    assert_eq!(
        Moment::new(1, 59, 59).create_timestamp(reference, &window),
        Timespec::new(1427587200 + 3599, 0)
    );
    // 2:00:00 local is reached with the offset of summer time
    assert_eq!(
        Moment::new(2, 0, 0).create_timestamp(reference, &window),
        Timespec::new(1427587200, 0)
    );
    // 3:00:00 local is the first second of summer time
    assert_eq!(
        Moment::new(3, 0, 0).create_timestamp(reference, &window),
        Timespec::new(1427587200 + 3600, 0)
    );
}

#[test]
fn filter_judges_the_local_weekday() {
    // Friday January 2nd 1970, 23:30 UTC
    let friday_night = Timespec::new(86_400 + 23 * 3600 + 1800, 0);
    assert!(Filter::Always.filter_days(friday_night, &offset(0)));
    assert!(Filter::MonToFri.filter_days(friday_night, &offset(0)));
    assert!(!Filter::Weekend.filter_days(friday_night, &offset(0)));
    // one hour ahead of UTC it is Saturday already
    assert!(!Filter::MonToFri.filter_days(friday_night, &offset(3600)));
    assert!(Filter::Weekend.filter_days(friday_night, &offset(3600)));
    // Monday January 5th 1970, 0:30 UTC; one hour behind UTC it is Sunday still
    let monday_morning = Timespec::new(4 * 86_400 + 1800, 0);
    assert!(Filter::MonToFri.filter_days(monday_morning, &offset(0)));
    assert!(Filter::Weekend.filter_days(monday_morning, &offset(-3600)));
}

#[test]
fn filter_takes_the_offset_in_effect() {
    // Saturday 23:30 UTC: Saturday with no offset, Sunday one hour ahead;
    // Sunday 23:30 UTC: Monday one hour ahead
    let sunday_night = Timespec::new(3 * 86_400 + 23 * 3600 + 1800, 0);
    let change = Timespec::new(3 * 86_400 + 23 * 3600, 0);
    let window = LocalTimeState::ChangePending(change, offset(0), offset(3600));
    assert!(Filter::Always.day_scheduled(sunday_night, &LocalTimeState::Unknown));
    assert!(Filter::MonToFri.day_scheduled(sunday_night, &window));
    assert!(!Filter::Weekend.day_scheduled(sunday_night, &window));
    let before_change = Timespec::new(3 * 86_400 + 22 * 3600, 0);
    assert!(Filter::Weekend.day_scheduled(before_change, &window));
    assert!(Filter::Weekend.day_scheduled(sunday_night, &LocalTimeState::NoChangePending(offset(0))));
}

#[test]
fn zone_lookup_follows_the_transitions() {
    let zone = central_europe();
    let before = Timespec::new(1427590799, 999_999_999);
    assert_eq!(zone.get_actual_zoneinfo(Timespec::new(0, 0)), offset(3600));
    assert_eq!(zone.get_actual_zoneinfo(before), offset(3600));
    assert_eq!(zone.get_actual_zoneinfo(spring_2015()), offset(7200));
    assert_eq!(zone.get_actual_zoneinfo(Timespec::new(1440000000, 0)), offset(7200));
    assert_eq!(zone.get_actual_zoneinfo(autumn_2015()), offset(3600));
    assert_eq!(zone.get_actual_zoneinfo(Timespec::new(1500000000, 0)), offset(3600));

    assert_eq!(zone.get_next_transition_time(before), Some((spring_2015(), offset(7200))));
    // the transition given is strictly after the instant asked for
    assert_eq!(zone.get_next_transition_time(spring_2015()), Some((autumn_2015(), offset(3600))));
    assert_eq!(zone.get_next_transition_time(autumn_2015()), None);
}

#[test]
fn zone_without_transitions_never_changes() {
    let zone = ZoneInfo::fixed(-18_000);
    assert_eq!(zone.get_actual_zoneinfo(Timespec::new(-5, 0)), offset(-18_000));
    assert_eq!(zone.get_next_transition_time(Timespec::new(-5, 0)), None);
}

#[test]
fn zone_rejects_transitions_out_of_order() {
    let swapped = vec![
        Transition { at: autumn_2015(), info: offset(3600) },
        Transition { at: spring_2015(), info: offset(7200) },
    ];
    assert!(ZoneInfo::new(offset(3600), swapped).is_none());
    let twice = vec![
        Transition { at: spring_2015(), info: offset(7200) },
        Transition { at: spring_2015(), info: offset(3600) },
    ];
    assert!(ZoneInfo::new(offset(3600), twice).is_none());
    assert!(ZoneInfo::new(offset(3600), vec![]).is_some());
}

#[test]
fn window_is_stale_when_the_transition_is_reached() {
    let window = LocalTimeState::ChangePending(spring_2015(), offset(3600), offset(7200));
    assert!(LocalTimeState::Unknown.is_stale(&Timespec::new(0, 0)));
    assert!(!LocalTimeState::NoChangePending(offset(0)).is_stale(&Timespec::new(0, 0)));
    assert!(!window.is_stale(&Timespec::new(1427590799, 0)));
    assert!(window.is_stale(&spring_2015()));
    assert!(window.is_stale(&autumn_2015()));
}

#[test]
fn fuzzy_bound_counts_whole_seconds() {
    let a = Timespec::new(100, 500_000_000);
    let b = Timespec::new(110, 400_000_000);
    assert_eq!(fuzzy_bound(a, b), 9);
    assert_eq!(fuzzy_bound(b, a), 9);
    assert_eq!(fuzzy_bound(a, a), 0);
    assert_eq!(fuzzy_bound(Timespec::new(100, 0), Timespec::new(110, 0)), 10);
    assert_eq!(fuzzy_bound(Timespec::new(100, 0), Timespec::new(100, 999_999_999)), 0);
}

#[test]
fn fuzzy_timestamp_counts_from_the_earlier_moment() {
    let a = Timespec::new(7200, 5);
    let b = Timespec::new(10_800, 5);
    assert_eq!(fuzzy_timestamp(a, b, 0), Timespec::new(7200, 5));
    assert_eq!(fuzzy_timestamp(b, a, 0), Timespec::new(7200, 5));
    assert_eq!(fuzzy_timestamp(b, a, 1234), Timespec::new(8434, 5));
    assert_eq!(fuzzy_timestamp(a, b, 3599), Timespec::new(10_799, 5));
}

#[test]
fn jitter_window_is_centred_on_the_moment() {
    let base = Timespec::new(1000, 7);
    assert_eq!(jittered_timestamp(base, Duration::seconds(10), 0), Timespec::new(1005, 7));
    assert_eq!(jittered_timestamp(base, Duration::seconds(10), 5), Timespec::new(1000, 7));
    assert_eq!(jittered_timestamp(base, Duration::seconds(10), 9), Timespec::new(996, 7));
    assert_eq!(jittered_timestamp(base, Duration::seconds(3), 2), Timespec::new(999, 7));
    assert_eq!(jittered_timestamp(base, Duration::seconds(1), 0), Timespec::new(1000, 7));
    // no window at all
    assert_eq!(jittered_timestamp(base, Duration::seconds(0), 0), base);
    assert_eq!(jittered_timestamp(base, Duration { secs: 0, nanos: 999_999_999 }, 0), base);
    assert_eq!(jittered_timestamp(base, Duration::seconds(-10), 0), base);
}

#[test]
fn generator_draws_below_the_bound() {
    let mut seeded = Generator::seeded(&[1, 2, 3]);
    let mut thread = Generator::thread_local();
    for bound in [1i64, 2, 3, 10, 3600, 1_000_000_007] {
        for _ in 0..200 {
            let draw = seeded.draw(bound);
            assert!(0 <= draw && draw < bound);
            let draw = thread.draw(bound);
            assert!(0 <= draw && draw < bound);
        }
    }
}

#[test]
fn seeded_generator_repeats_its_draws() {
    let mut first = Generator::seeded(&[42, 7]);
    let mut second = Generator::seeded(&[42, 7]);
    let mut third = Generator::seeded(&[43, 7]);
    let mut differs = false;
    for _ in 0..100 {
        let draw = first.draw(1_000_000_000);
        assert_eq!(draw, second.draw(1_000_000_000));
        if draw != third.draw(1_000_000_000) {
            differs = true;
        }
    }
    assert!(differs);
}

#[test]
fn fixed_event_obeys_its_filter() {
    let window = LocalTimeState::NoChangePending(offset(0));
    let mut generator = Generator::seeded(&[1]);
    let saturday = Timespec::new(2 * 86_400, 0);
    let monday = Timespec::new(4 * 86_400, 0);
    let weekend: DailyEvent<Closure> = DailyEvent::Fixed(Filter::Weekend, Moment::new(8, 0, 0));
    assert_eq!(
        weekend.create_timestamp(saturday, &window, &mut generator),
        Some(Timespec::new(2 * 86_400 + 8 * 3600, 0))
    );
    assert_eq!(weekend.create_timestamp(monday, &window, &mut generator), None);
    let weekdays: DailyEvent<Closure> = DailyEvent::Fixed(Filter::MonToFri, Moment::new(8, 0, 0));
    assert_eq!(weekdays.create_timestamp(saturday, &window, &mut generator), None);
    assert_eq!(
        weekdays.create_timestamp(monday, &window, &mut generator),
        Some(Timespec::new(4 * 86_400 + 8 * 3600, 0))
    );
}

#[test]
fn fuzzy_event_lies_between_its_moments_for_any_seed() {
    let window = LocalTimeState::NoChangePending(offset(3600));
    let reference = Timespec::new(10 * 86_400, 0);
    let event: DailyEvent<Closure> =
        DailyEvent::Fuzzy(Filter::Always, Moment::new(6, 40, 0), Moment::new(6, 20, 0));
    let start = Timespec::new(10 * 86_400 + 6 * 3600 + 20 * 60 - 3600, 0);
    let end = Timespec::new(10 * 86_400 + 6 * 3600 + 40 * 60 - 3600, 0);
    let mut seen_different = false;
    let mut previous = None;
    for seed in 0..300usize {
        let mut generator = Generator::seeded(&[seed]);
        let t = event.create_timestamp(reference, &window, &mut generator).unwrap();
        assert!(start <= t && t < end);
        assert_eq!(t.nsec, 0);
        if previous.is_some() && previous != Some(t) {
            seen_different = true;
        }
        previous = Some(t);
    }
    assert!(seen_different);
}

#[test]
fn fuzzy_event_of_equal_moments_is_fixed() {
    let window = LocalTimeState::NoChangePending(offset(0));
    let mut generator = Generator::thread_local();
    let event: DailyEvent<Closure> =
        DailyEvent::Fuzzy(Filter::Always, Moment::new(6, 20, 0), Moment::new(6, 20, 0));
    assert_eq!(
        event.create_timestamp(Timespec::new(0, 0), &window, &mut generator),
        Some(Timespec::new(6 * 3600 + 20 * 60, 0))
    );
    // less than a second apart: the earlier of the two
    let event: DailyEvent<Closure> = DailyEvent::Fuzzy(
        Filter::Always,
        Moment::UtcTime(Duration { secs: 10, nanos: 900 }),
        Moment::UtcTime(Duration { secs: 10, nanos: 100 }),
    );
    assert_eq!(
        event.create_timestamp(Timespec::new(0, 0), &window, &mut generator),
        Some(Timespec::new(10, 100))
    );
}

#[test]
fn jittered_event_stays_in_its_window_for_any_seed() {
    let window = LocalTimeState::NoChangePending(offset(0));
    let reference = Timespec::new(20 * 86_400, 0);
    let sunset: Closure =
        Box::new(|day: Timespec| Moment::new_from_timespec(day.plus(Duration::hours(18))));
    let event = DailyEvent::ByClosure(Filter::Always, sunset, Duration::minutes(10));
    let base = 20 * 86_400 + 18 * 3600;
    let mut earliest = i64::MAX;
    let mut latest = i64::MIN;
    for seed in 0..400usize {
        let mut generator = Generator::seeded(&[seed, 99]);
        let t = event.create_timestamp(reference, &window, &mut generator).unwrap();
        assert!(base - 299 <= t.sec && t.sec <= base + 300);
        earliest = earliest.min(t.sec);
        latest = latest.max(t.sec);
    }
    // the window extends to both sides of the moment
    assert!(earliest < base && base < latest);
}

#[test]
fn single_fixed_event_is_due_at_its_moment() {
    for (h, m, s, ahead) in [(0u8, 0u8, 0u8, 0i32), (2, 0, 0, 0), (23, 59, 59, 0), (7, 30, 15, 3600), (7, 30, 15, -7200)] {
        let handler = Recorder::shared();
        let mut schedule = new_schedule(ZoneInfo::fixed(ahead));
        schedule.add_event(DailyEvent::Fixed(Filter::Always, Moment::new(h, m, s)), handler.clone(), 1);
        let midnight = Timespec::new(5 * 86_400, 0);
        schedule.update_schedule(midnight);
        let due = Timespec::new(
            5 * 86_400 + h as i64 * 3600 + m as i64 * 60 + s as i64 - ahead as i64,
            0,
        );
        assert_eq!(schedule.peek_event(), Some(due));
        assert_eq!(schedule.kick_event(due), None);
        assert_eq!(schedule.peek_event(), None);
        assert_eq!(*handler.kicks.borrow(), vec![(due, 1)]);
    }
}

#[test]
fn empty_schedule_has_nothing_pending() {
    let mut schedule = new_schedule(ZoneInfo::fixed(0));
    assert_eq!(schedule.peek_event(), None);
    assert_eq!(schedule.latest_reference(), None);
    assert_eq!(schedule.kick_event(Timespec::new(1_000_000, 0)), None);
    schedule.update_schedule(Timespec::new(86_400, 0));
    assert_eq!(schedule.latest_reference(), Some(Timespec::new(86_400, 0)));
    assert_eq!(schedule.peek_event(), None);
    assert!(schedule.due_events(Timespec::new(1_000_000, 0)).is_empty());
}

#[test]
fn kick_before_the_first_event_fires_nothing() {
    let handler = Recorder::shared();
    let mut schedule = new_schedule(ZoneInfo::fixed(0));
    schedule.add_event(DailyEvent::Fixed(Filter::Always, Moment::new(2, 0, 0)), handler.clone(), 1);
    schedule.update_schedule(Timespec::new(0, 0));
    assert_eq!(schedule.kick_event(Timespec::new(7199, 999_999_999)), Some(Timespec::new(7200, 0)));
    assert!(handler.kicks.borrow().is_empty());
    assert_eq!(*handler.hints.borrow(), vec![(Timespec::new(7200, 0), 1)]);
    assert_eq!(schedule.kick_event(Timespec::new(7200, 0)), None);
    assert_eq!(*handler.kicks.borrow(), vec![(Timespec::new(7200, 0), 1)]);
}

#[test]
fn kick_fires_everything_due_in_order() {
    let handler = Recorder::shared();
    let mut schedule = new_schedule(ZoneInfo::fixed(0));
    schedule.add_event(DailyEvent::Fixed(Filter::Always, Moment::new(4, 0, 0)), handler.clone(), 40);
    schedule.add_event(DailyEvent::Fixed(Filter::Always, Moment::new(2, 0, 0)), handler.clone(), 20);
    schedule.add_event(DailyEvent::Fixed(Filter::Always, Moment::new(4, 0, 0)), handler.clone(), 41);
    schedule.add_event(DailyEvent::Fixed(Filter::Always, Moment::new(9, 0, 0)), handler.clone(), 90);
    schedule.update_schedule(Timespec::new(0, 0));
    schedule.update_schedule(Timespec::new(86_400, 0));

    let now = Timespec::new(86_400 + 3 * 3600, 0);
    let plan = schedule.due_events(now);
    assert_eq!(
        plan,
        vec![
            (Timespec::new(7200, 0), 1),
            (Timespec::new(14_400, 0), 0),
            (Timespec::new(14_400, 0), 2),
            (Timespec::new(32_400, 0), 3),
            (Timespec::new(86_400 + 7200, 0), 1),
        ]
    );
    // looking at what is due changes nothing
    assert_eq!(schedule.peek_event(), Some(Timespec::new(7200, 0)));

    assert_eq!(schedule.kick_event(now), Some(Timespec::new(86_400 + 14_400, 0)));
    assert_eq!(
        *handler.kicks.borrow(),
        vec![
            (Timespec::new(7200, 0), 20),
            (Timespec::new(14_400, 0), 40),
            (Timespec::new(14_400, 0), 41),
            (Timespec::new(32_400, 0), 90),
            (Timespec::new(86_400 + 7200, 0), 20),
        ]
    );
    assert!(schedule.due_events(now).is_empty());
}

#[test]
fn update_twice_for_the_same_day_schedules_once() {
    let handler = Recorder::shared();
    let mut schedule = new_schedule(ZoneInfo::fixed(0));
    schedule.add_event(DailyEvent::Fixed(Filter::Always, Moment::new(2, 0, 0)), handler.clone(), 1);
    schedule.add_event(DailyEvent::Fixed(Filter::Always, Moment::new(2, 0, 0)), handler.clone(), 2);
    schedule.update_schedule(Timespec::new(0, 0));
    let once = schedule.due_events(Timespec::new(86_400, 0));
    schedule.update_schedule(Timespec::new(0, 0));
    assert_eq!(schedule.due_events(Timespec::new(86_400, 0)), once);
    assert_eq!(once, vec![(Timespec::new(7200, 0), 0), (Timespec::new(7200, 0), 1)]);
    assert_eq!(schedule.kick_event(Timespec::new(86_400, 0)), None);
    assert_eq!(
        *handler.kicks.borrow(),
        vec![(Timespec::new(7200, 0), 1), (Timespec::new(7200, 0), 2)]
    );
}

#[test]
fn handler_gets_the_event_that_fired() {
    let handler = Recorder::shared();
    let mut schedule = new_schedule(ZoneInfo::fixed(0));
    let noon: Closure = Box::new(|_| Moment::UtcTime(Duration::hours(12)));
    schedule.add_event(DailyEvent::Fixed(Filter::Always, Moment::new(2, 0, 0)), handler.clone(), 1);
    schedule.add_event(
        DailyEvent::Fuzzy(Filter::Always, Moment::new(6, 20, 0), Moment::new(6, 40, 0)),
        handler.clone(),
        2,
    );
    schedule.add_event(DailyEvent::ByClosure(Filter::Always, noon, Duration::minutes(2)), handler.clone(), 3);
    schedule.update_schedule(Timespec::new(0, 0));
    assert_eq!(schedule.kick_event(Timespec::new(86_400, 0)), None);
    assert_eq!(
        *handler.texts.borrow(),
        vec![
            "Fixed 02:00:00".to_string(),
            "Fuzzy 06:20:00 ~ 06:40:00".to_string(),
            "ByClosure ~120s".to_string()
        ]
    );
}

#[test]
fn seeded_schedules_agree() {
    let reference = Timespec::new(3 * 86_400, 0);
    let mut first = seeded_schedule(central_europe(), 5);
    let mut second = seeded_schedule(central_europe(), 5);
    for schedule in [&mut first, &mut second] {
        let sunrise: Closure =
            Box::new(|day: Timespec| Moment::new_from_timespec(day.plus(Duration::hours(6))));
        schedule.add_event(
            DailyEvent::Fuzzy(Filter::Always, Moment::new(6, 20, 0), Moment::new(22, 40, 0)),
            Recorder::shared(),
            1,
        );
        schedule.add_event(
            DailyEvent::ByClosure(Filter::Always, sunrise, Duration::hours(3)),
            Recorder::shared(),
            2,
        );
        schedule.update_schedule(reference);
    }
    let far = Timespec::new(10 * 86_400, 0);
    assert_eq!(first.due_events(far).len(), 2);
    assert_eq!(first.due_events(far), second.due_events(far));
}

#[test]
fn window_is_looked_up_anew_after_the_transition() {
    let handler = Recorder::shared();
    let mut schedule = new_schedule(central_europe());
    schedule.add_event(DailyEvent::Fixed(Filter::Always, Moment::new(12, 0, 0)), handler.clone(), 1);
    // the day before the transition to summer time, the day of it, and the day after
    let day = 1427587200 - 86_400;
    for k in 0..3 {
        schedule.update_schedule(Timespec::new(day + k * 86_400, 0));
    }
    // the day before the transition back, the day of it, and the day after
    let day = 1445731200 - 86_400;
    for k in 0..3 {
        schedule.update_schedule(Timespec::new(day + k * 86_400, 0));
    }
    assert_eq!(schedule.kick_event(Timespec::new(1500000000, 0)), None);
    let noon_utc: Vec<i64> =
        handler.kicks.borrow().iter().map(|(t, _)| t.sec % 86_400 / 3600).collect();
    assert_eq!(noon_utc, vec![11, 10, 10, 10, 11, 11]);
}

#[test]
fn moments_are_described_as_clock_readings() {
    assert_eq!(Moment::new(2, 0, 0).describe(), "02:00:00");
    assert_eq!(Moment::new(12, 34, 56).describe(), "12:34:56");
    assert_eq!(Moment::new(255, 255, 255).describe(), "259:19:15");
    assert_eq!(Moment::UtcTime(Duration::hours(5)).describe(), "05:00:00 (UTC)");
    assert_eq!(
        Moment::new_from_timespec(Timespec::new(86_400 + 3661, 5)).describe(),
        "01:01:01 (UTC)"
    );
    assert_eq!(Moment::LocalTime(Duration::seconds(-5400)).describe(), "-1:-30:00");
    assert_eq!(Moment::LocalTime(Duration::seconds(-45_296)).describe(), "-12:-34:-56");
    assert_eq!(Moment::LocalTime(Duration { secs: -1, nanos: 500_000_000 }).describe(), "00:00:00");
}

#[test]
fn events_are_described_by_kind() {
    let fixed: DailyEvent<Closure> = DailyEvent::Fixed(Filter::Weekend, Moment::new(7, 5, 0));
    assert_eq!(fixed.describe(), "Fixed 07:05:00");
    let fuzzy: DailyEvent<Closure> = DailyEvent::Fuzzy(
        Filter::Always,
        Moment::new(0, 15, 0),
        Moment::UtcTime(Duration::minutes(30)),
    );
    assert_eq!(fuzzy.describe(), "Fuzzy 00:15:00 ~ 00:30:00 (UTC)");
    let sunrise: Closure = Box::new(|_| Moment::new(6, 0, 0));
    assert_eq!(
        DailyEvent::ByClosure(Filter::Always, sunrise, Duration::minutes(10)).describe(),
        "ByClosure ~600s"
    );
    let sunset: Closure = Box::new(|_| Moment::new(18, 0, 0));
    assert_eq!(
        DailyEvent::ByClosure(Filter::Always, sunset, Duration::seconds(-90)).describe(),
        "ByClosure ~-90s"
    );
}
