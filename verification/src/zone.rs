//! What the engine knows of a civil time zone: the offsets from UTC it has
//! had over time, and the cached view of them for the days being scheduled.
use crate::clock::{Timespec, NSEC_PER_SEC};
use vstd::prelude::*;

verus! {

/// The rules of a time zone that are in effect over some stretch of time.
#[derive(Clone, Copy, PartialEq, Eq, Structural, Debug)]
pub struct ZoneInfoElement {
    /// Seconds that local time is ahead of UTC.
    pub ut_offset: i32,
}

/// The instant from which on a time zone follows other rules.
#[derive(Clone, Copy, PartialEq, Eq, Structural, Debug)]
pub struct Transition {
    /// The first instant of the new rules.
    pub at: Timespec,
    /// The new rules.
    pub info: ZoneInfoElement,
}

/// The history of a time zone: the rules it started with and every later
/// change of them, in chronological order.
#[derive(Debug)]
pub struct ZoneInfo {
    /// The rules in effect before the first transition.
    pub initial: ZoneInfoElement,
    /// The changes of rules, each later than the one before.
    pub transitions: Vec<Transition>,
}

/// Each transition of the sequence is strictly later than the one before.
pub open spec fn chronological(transitions: Seq<Transition>) -> bool {
    forall|i: int, j: int|
        0 <= i < j < transitions.len() ==> (#[trigger] transitions[i]).at.before(
            (#[trigger] transitions[j]).at,
        )
}

/// How many of the transitions come before the first one that is later than
/// `instant`. In a chronological sequence these are the transitions that
/// have taken place at `instant`.
pub open spec fn passed(transitions: Seq<Transition>, instant: Timespec) -> nat
    decreases transitions.len(),
{
    if transitions.len() == 0 {
        0
    } else if instant.before(transitions[0].at) {
        0
    } else {
        1 + passed(transitions.drop_first(), instant)
    }
}

/// The cached view of a time zone for the days being scheduled.
#[derive(Clone, Copy, PartialEq, Eq, Structural, Debug)]
pub enum LocalTimeState {
    /// Nothing has been looked up yet.
    Unknown,
    /// The rules in effect, which are not going to change.
    NoChangePending(ZoneInfoElement),
    /// The instant of the next transition, the rules before it, and the
    /// rules from it on.
    ChangePending(Timespec, ZoneInfoElement, ZoneInfoElement),
}

impl LocalTimeState {
    /// The nanoseconds of the instant of the transition are below one
    /// second.
    pub open spec fn wf(self) -> bool {
        self matches LocalTimeState::ChangePending(transition, _, _) ==> 0 <= transition.nsec
            < NSEC_PER_SEC
    }

    /// The rules the view holds for `instant`: those after the transition
    /// from the transition on, the only ones the view has otherwise.
    pub open spec fn info_at(self, instant: Timespec) -> ZoneInfoElement {
        match self {
            LocalTimeState::Unknown => ZoneInfoElement { ut_offset: 0 },
            LocalTimeState::NoChangePending(info) => info,
            LocalTimeState::ChangePending(transition, before, after) => if instant.before(
                transition,
            ) {
                before
            } else {
                after
            },
        }
    }

    /// The rules the view holds for the time before any transition.
    pub open spec fn first_info(self) -> ZoneInfoElement {
        match self {
            LocalTimeState::Unknown => ZoneInfoElement { ut_offset: 0 },
            LocalTimeState::NoChangePending(info) => info,
            LocalTimeState::ChangePending(_, before, _) => before,
        }
    }

    /// The view to schedule the day of `reference` with: a fresh one where
    /// `self` holds nothing or its transition is not after `reference`,
    /// `self` otherwise.
    pub open spec fn refreshed(self, zoneinfo: ZoneInfo, reference: Timespec) -> LocalTimeState {
        match self {
            LocalTimeState::Unknown => zoneinfo.window_at(reference),
            LocalTimeState::NoChangePending(_) => self,
            LocalTimeState::ChangePending(transition, _, _) => if transition.at_or_before(
                reference,
            ) {
                zoneinfo.window_at(reference)
            } else {
                self
            },
        }
    }

    /// Whether the view is up to date on the day of `latest`: it is the view
    /// of `zoneinfo` as seen from some instant up to `latest`, and its
    /// transition, if it has one, is still ahead of `latest`.
    pub open spec fn is_current(self, zoneinfo: ZoneInfo, latest: Timespec) -> bool {
        &&& exists|seen: Timespec|
            seen.at_or_before(latest) && self == #[trigger] zoneinfo.window_at(seen)
        &&& self matches LocalTimeState::ChangePending(transition, _, _) ==> latest.before(
            transition,
        )
    }

    /// Whether `self` has to be looked up anew before the day of `reference`
    /// is scheduled.
    pub fn is_stale(&self, reference: &Timespec) -> (stale: bool)
        ensures
            stale == (match *self {
                LocalTimeState::Unknown => true,
                LocalTimeState::NoChangePending(_) => false,
                LocalTimeState::ChangePending(transition, _, _) => transition.at_or_before(
                    *reference,
                ),
            }),
    {
        match self {
            LocalTimeState::Unknown => true,
            LocalTimeState::NoChangePending(_) => false,
            LocalTimeState::ChangePending(transition, _, _) => transition.is_at_or_before(
                reference,
            ),
        }
    }
}

impl ZoneInfo {
    /// The transitions are in chronological order.
    pub open spec fn wf(self) -> bool {
        chronological(self.transitions@)
    }

    /// The rules in effect at `instant`: those of the last transition that
    /// has taken place, the initial ones before the first transition.
    pub open spec fn actual(self, instant: Timespec) -> ZoneInfoElement {
        let n = passed(self.transitions@, instant);
        if n == 0 {
            self.initial
        } else {
            self.transitions@[n - 1].info
        }
    }

    /// The first transition strictly after `instant`, if there is one.
    pub open spec fn next_transition(self, instant: Timespec) -> Option<
        (Timespec, ZoneInfoElement),
    > {
        let n = passed(self.transitions@, instant);
        if n < self.transitions@.len() {
            Some((self.transitions@[n as int].at, self.transitions@[n as int].info))
        } else {
            None
        }
    }

    /// The view of the zone as seen from `instant`.
    pub open spec fn window_at(self, instant: Timespec) -> LocalTimeState {
        match self.next_transition(instant) {
            Some((transition, next)) => LocalTimeState::ChangePending(
                transition,
                self.actual(instant),
                next,
            ),
            None => LocalTimeState::NoChangePending(self.actual(instant)),
        }
    }

    /// A zone that always is `ut_offset` seconds ahead of UTC.
    pub fn fixed(ut_offset: i32) -> (zone: ZoneInfo)
        ensures
            zone.wf(),
            zone.initial.ut_offset == ut_offset,
            zone.transitions@.len() == 0,
    {
        ZoneInfo { initial: ZoneInfoElement { ut_offset }, transitions: Vec::new() }
    }

    /// The zone with the given history, or `None` where the transitions are
    /// not in chronological order.
    pub fn new(initial: ZoneInfoElement, transitions: Vec<Transition>) -> (zone: Option<ZoneInfo>)
        ensures
            zone is Some <==> chronological(transitions@),
            zone matches Some(z) ==> z.initial == initial && z.transitions == transitions,
    {
        let mut i: usize = 1;
        while i < transitions.len()
            invariant
                1 <= i,
                forall|k: int|
                    1 <= k < i && k < transitions.len() ==> (#[trigger] transitions[k - 1]).at.before(
                        transitions[k].at,
                    ),
            decreases transitions.len() - i,
        {
            if !transitions[i - 1].at.is_before(&transitions[i].at) {
                return None;
            }
            i = i + 1;
        }
        proof {
            lemma_adjacent_is_chronological(transitions@);
        }
        Some(ZoneInfo { initial, transitions })
    }

    /// The number of transitions that have taken place at `instant`.
    fn count_passed(&self, instant: &Timespec) -> (n: usize)
        ensures
            n == passed(self.transitions@, *instant),
            n <= self.transitions@.len(),
            n < self.transitions@.len() ==> instant.before(self.transitions@[n as int].at),
    {
        let mut n: usize = 0;
        assert(self.transitions@.skip(0) =~= self.transitions@);
        while n < self.transitions.len() && !instant.is_before(&self.transitions[n].at)
            invariant
                n <= self.transitions@.len(),
                passed(self.transitions@, *instant) == n + passed(
                    self.transitions@.skip(n as int),
                    *instant,
                ),
            decreases self.transitions@.len() - n,
        {
            proof {
                let rest = self.transitions@.skip(n as int);
                assert(rest[0] == self.transitions@[n as int]);
                assert(rest.drop_first() =~= self.transitions@.skip(n + 1));
            }
            n = n + 1;
        }
        proof {
            let rest = self.transitions@.skip(n as int);
            if n < self.transitions@.len() {
                assert(rest[0] == self.transitions@[n as int]);
            }
        }
        n
    }

    /// The rules in effect at `timestamp`.
    pub fn get_actual_zoneinfo(&self, timestamp: Timespec) -> (info: ZoneInfoElement)
        ensures
            info == self.actual(timestamp),
    {
        let n = self.count_passed(&timestamp);
        if n == 0 {
            self.initial
        } else {
            self.transitions[n - 1].info
        }
    }

    /// The first transition strictly after `timestamp` and the rules from
    /// then on; `None` after the last transition.
    pub fn get_next_transition_time(&self, timestamp: Timespec) -> (next: Option<
        (Timespec, ZoneInfoElement),
    >)
        ensures
            next == self.next_transition(timestamp),
            next matches Some((transition, _)) ==> timestamp.before(transition),
    {
        let n = self.count_passed(&timestamp);
        if n < self.transitions.len() {
            Some((self.transitions[n].at, self.transitions[n].info))
        } else {
            None
        }
    }
}

/// A sequence in which each transition is later than the one just before it
/// is chronological.
pub proof fn lemma_adjacent_is_chronological(transitions: Seq<Transition>)
    requires
        forall|k: int|
            1 <= k < transitions.len() ==> (#[trigger] transitions[k - 1]).at.before(
                transitions[k].at,
            ),
    ensures
        chronological(transitions),
{
    assert forall|i: int, j: int| 0 <= i < j < transitions.len() implies (
    #[trigger] transitions[i]).at.before((#[trigger] transitions[j]).at) by {
        lemma_adjacent_reaches(transitions, i, j);
    }
}

proof fn lemma_adjacent_reaches(transitions: Seq<Transition>, i: int, j: int)
    requires
        forall|k: int|
            1 <= k < transitions.len() ==> (#[trigger] transitions[k - 1]).at.before(
                transitions[k].at,
            ),
        0 <= i < j < transitions.len(),
    ensures
        transitions[i].at.before(transitions[j].at),
    decreases j - i,
{
    assert(transitions[j - 1].at.before(transitions[j].at));
    if i < j - 1 {
        lemma_adjacent_reaches(transitions, i, j - 1);
    }
}

/// The transition that follows those that have taken place at an instant is
/// later than the instant.
pub proof fn lemma_next_is_later(transitions: Seq<Transition>, instant: Timespec)
    ensures
        passed(transitions, instant) <= transitions.len(),
        passed(transitions, instant) < transitions.len() ==> instant.before(
            transitions[passed(transitions, instant) as int].at,
        ),
    decreases transitions.len(),
{
    if transitions.len() > 0 && !instant.before(transitions[0].at) {
        let rest = transitions.drop_first();
        lemma_next_is_later(rest, instant);
        if passed(rest, instant) < rest.len() {
            assert(rest[passed(rest, instant) as int] == transitions[passed(rest, instant) as int + 1]);
        }
    }
}

/// In a chronological history, a number of transitions such that these are
/// not later than an instant and all others are is the number of
/// transitions that have taken place at the instant.
pub proof fn lemma_passed_is(transitions: Seq<Transition>, instant: Timespec, count: int)
    requires
        chronological(transitions),
        0 <= count <= transitions.len(),
        forall|i: int| 0 <= i < count ==> (#[trigger] transitions[i]).at.at_or_before(instant),
        forall|i: int|
            count <= i < transitions.len() ==> instant.before((#[trigger] transitions[i]).at),
    ensures
        passed(transitions, instant) == count,
{
    lemma_passed_splits(transitions, instant);
    let p = passed(transitions, instant) as int;
    if p < count {
        assert(instant.before(transitions[p].at));
        assert(transitions[p].at.at_or_before(instant));
    } else if p > count {
        assert(instant.before(transitions[count].at));
        assert(transitions[count].at.at_or_before(instant));
    }
}

/// In a chronological history the transitions that have taken place at an
/// instant are exactly those at or before it: the ones counted by `passed`
/// are not later than the instant, and all others are.
pub proof fn lemma_passed_splits(transitions: Seq<Transition>, instant: Timespec)
    requires
        chronological(transitions),
    ensures
        passed(transitions, instant) <= transitions.len(),
        forall|i: int|
            0 <= i < passed(transitions, instant) ==> (#[trigger] transitions[i]).at.at_or_before(
                instant,
            ),
        forall|i: int|
            passed(transitions, instant) <= i < transitions.len() ==> instant.before(
                (#[trigger] transitions[i]).at,
            ),
    decreases transitions.len(),
{
    if transitions.len() == 0 {
    } else if instant.before(transitions[0].at) {
        assert forall|i: int| 0 <= i < transitions.len() implies instant.before(
            (#[trigger] transitions[i]).at,
        ) by {
            if i > 0 {
                assert(transitions[0].at.before(transitions[i].at));
            }
        }
    } else {
        let rest = transitions.drop_first();
        assert forall|i: int, j: int| 0 <= i < j < rest.len() implies (#[trigger] rest[i]).at.before(
            (#[trigger] rest[j]).at,
        ) by {
            assert(rest[i] == transitions[i + 1]);
            assert(rest[j] == transitions[j + 1]);
        }
        lemma_passed_splits(rest, instant);
        assert forall|i: int| 0 <= i < passed(transitions, instant) implies (
        #[trigger] transitions[i]).at.at_or_before(instant) by {
            if i > 0 {
                assert(rest[i - 1] == transitions[i]);
            }
        }
        assert forall|i: int|
            passed(transitions, instant) <= i < transitions.len() implies instant.before(
            (#[trigger] transitions[i]).at,
        ) by {
            assert(rest[i - 1] == transitions[i]);
        }
    }
}

} // verus!
