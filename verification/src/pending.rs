//! The pending occurrences: for each timestamp at which something is due,
//! the events due then, in the order in which they were scheduled.
//!
//! An event is named by its position in the list of registered events.
use crate::clock::Timespec;
use std::collections::BTreeMap;
use vstd::prelude::*;
use vstd::std_specs::btree::*;
use vstd::std_specs::cmp::OrdSpec;
use vstd::std_specs::iter::IteratorSpec;

verus! {

/// The key under which the occurrences at a timestamp are kept: the seconds,
/// then the nanoseconds, so that the keys are ordered as the timestamps are.
pub open spec fn key_of(t: Timespec) -> (i64, i32) {
    (t.sec, t.nsec)
}

/// The timestamp that is kept under a key.
pub open spec fn instant_of(key: (i64, i32)) -> Timespec {
    Timespec { sec: key.0, nsec: key.1 }
}

/// The pending occurrences that a map from keys to lists of events holds.
pub open spec fn as_pending(m: Map<(i64, i32), Vec<usize>>) -> Map<Timespec, Seq<usize>> {
    Map::new(|t: Timespec| m.contains_key(key_of(t)), |t: Timespec| m[key_of(t)]@)
}

/// The pending occurrences after the event `index` has been scheduled at
/// `timestamp`: the event comes last among those due at that timestamp,
/// unless it already is among them.
pub open spec fn place(pending: Map<Timespec, Seq<usize>>, timestamp: Timespec, index: usize) -> Map<
    Timespec,
    Seq<usize>,
> {
    if !pending.contains_key(timestamp) {
        pending.insert(timestamp, seq![index])
    } else if pending[timestamp].contains(index) {
        pending
    } else {
        pending.insert(timestamp, pending[timestamp].push(index))
    }
}

/// The pending occurrences after each event has been scheduled with its
/// outcome, in the order of the events: the event at position `i` at the
/// timestamp `outcomes[i]`, or not at all where there is none.
pub open spec fn place_all(pending: Map<Timespec, Seq<usize>>, outcomes: Seq<Option<Timespec>>) -> Map<
    Timespec,
    Seq<usize>,
>
    decreases outcomes.len(),
{
    if outcomes.len() == 0 {
        pending
    } else {
        let before = place_all(pending, outcomes.drop_last());
        match outcomes.last() {
            Some(timestamp) => place(before, timestamp, (outcomes.len() - 1) as usize),
            None => before,
        }
    }
}

/// Whether `first` is the earliest timestamp at which something is pending;
/// `None` where nothing is pending.
pub open spec fn is_earliest(pending: Map<Timespec, Seq<usize>>, first: Option<Timespec>) -> bool {
    match first {
        Some(timestamp) => {
            &&& pending.contains_key(timestamp)
            &&& forall|t: Timespec| #[trigger]
                pending.contains_key(t) ==> timestamp.at_or_before(t)
        },
        None => forall|t: Timespec| !#[trigger] pending.contains_key(t),
    }
}

/// The pending occurrences that are due after `now`.
pub open spec fn later_than(pending: Map<Timespec, Seq<usize>>, now: Timespec) -> Map<
    Timespec,
    Seq<usize>,
> {
    Map::new(|t: Timespec| pending.contains_key(t) && now.before(t), |t: Timespec| pending[t])
}

/// Each timestamp of the sequence is strictly later than the one before.
pub open spec fn ascending(keys: Seq<Timespec>) -> bool {
    forall|i: int, j: int| 0 <= i < j < keys.len() ==> (#[trigger] keys[i]).before(#[trigger] keys[j])
}

/// Whether `keys` lists, from the earliest to the latest, the timestamps up
/// to `now` at which something is pending.
pub open spec fn are_due(pending: Map<Timespec, Seq<usize>>, now: Timespec, keys: Seq<Timespec>) -> bool {
    &&& ascending(keys)
    &&& forall|t: Timespec| #[trigger]
        keys.contains(t) <==> pending.contains_key(t) && t.at_or_before(now)
}

/// The occurrences at one timestamp, in the order in which they are kept.
pub open spec fn occurrences_at(timestamp: Timespec, events: Seq<usize>) -> Seq<(Timespec, usize)> {
    Seq::new(events.len(), |j: int| (timestamp, events[j]))
}

/// The occurrences at the timestamps `keys`: timestamp by timestamp in the
/// order of `keys`, and at each timestamp in the order in which they are
/// kept.
pub open spec fn occurrences(pending: Map<Timespec, Seq<usize>>, keys: Seq<Timespec>) -> Seq<
    (Timespec, usize),
>
    decreases keys.len(),
{
    if keys.len() == 0 {
        Seq::empty()
    } else {
        occurrences(pending, keys.drop_last()) + occurrences_at(keys.last(), pending[keys.last()])
    }
}

/// Every timestamp at which something is pending is well-formed and holds
/// at least one event; each of its events is one of the `registered` first
/// and occurs once.
pub open spec fn coherent(pending: Map<Timespec, Seq<usize>>, registered: nat) -> bool {
    forall|t: Timespec| #[trigger]
        pending.contains_key(t) ==> {
            &&& t.wf()
            &&& pending[t].len() > 0
            &&& pending[t].no_duplicates()
            &&& forall|j: int| 0 <= j < pending[t].len() ==> (#[trigger] pending[t][j]) < registered
        }
}

/// The order of the keys: by the seconds, then by the nanoseconds.
pub open spec fn key_before(a: (i64, i32), b: (i64, i32)) -> bool {
    a.0 < b.0 || (a.0 == b.0 && a.1 < b.1)
}

/// The order of the keys of an ordered map: the keys come out in ascending
/// order, and they are the keys of the map.
proof fn lemma_keys_ascend(m: &BTreeMap<(i64, i32), Vec<usize>>)
    ensures
        key_obeys_cmp_spec::<(i64, i32)>(),
        spec_keys_iter(m).remaining().unref().to_set() == m@.dom(),
        forall|i: int, j: int|
            0 <= i < j < spec_keys_iter(m).remaining().len() ==> key_before(
                *#[trigger] spec_keys_iter(m).remaining()[i],
                *#[trigger] spec_keys_iter(m).remaining()[j],
            ),
{
    broadcast use group_btree_axioms;
    broadcast use vstd::laws_cmp::group_laws_cmp;

    let all = spec_keys_iter(m).remaining();
    assert(vstd::laws_cmp::obeys_cmp::<&(i64, i32)>());
    assert(increasing_seq(all));
    assert forall|i: int, j: int| 0 <= i < j < all.len() implies key_before(
        *#[trigger] all[i],
        *#[trigger] all[j],
    ) by {
        assert((&all[i]).cmp_spec(&&all[j]) is Less);
    }
}

/// The earliest timestamp at which something is pending.
pub(crate) fn first_key(m: &BTreeMap<(i64, i32), Vec<usize>>) -> (first: Option<Timespec>)
    ensures
        is_earliest(as_pending(m@), first),
{
    proof {
        lemma_keys_ascend(m);
    }
    let keys = m.keys();
    let ghost all = keys.remaining();
    #[verifier::loop_isolation(false)]
    for k in it: keys
        invariant
            it.seq() == all,
            it.index() == 0,
    {
        let first = Timespec { sec: k.0, nsec: k.1 };
        proof {
            assert(*all[0] == key_of(first));
            assert(all.unref()[0] == key_of(first));
            assert(all.unref().to_set().contains(key_of(first)));
            assert forall|t: Timespec| #[trigger]
                as_pending(m@).contains_key(t) implies first.at_or_before(t) by {
                assert(all.unref().to_set().contains(key_of(t)));
                let p = choose|p: int| 0 <= p < all.unref().len() && all.unref()[p] == key_of(t);
                assert(*all[p] == key_of(t));
                if p > 0 {
                    assert(key_before(*all[0], *all[p]));
                }
            }
        }
        return Some(first);
    }
    proof {
        assert(all.len() == 0);
        assert forall|t: Timespec| !#[trigger] as_pending(m@).contains_key(t) by {
            if m@.contains_key(key_of(t)) {
                assert(all.unref().to_set().contains(key_of(t)));
            }
        }
    }
    None
}

/// The timestamps up to `now` at which something is pending, from the
/// earliest to the latest.
pub(crate) fn due_keys(m: &BTreeMap<(i64, i32), Vec<usize>>, now: Timespec) -> (keys: Vec<Timespec>)
    ensures
        are_due(as_pending(m@), now, keys@),
{
    proof {
        lemma_keys_ascend(m);
    }
    let mut out: Vec<Timespec> = Vec::new();
    let ghost mut positions: Seq<int> = Seq::empty();
    let keys = m.keys();
    let ghost all = keys.remaining();
    #[verifier::loop_isolation(false)]
    for k in it: keys
        invariant
            it.seq() == all,
            positions.len() == out@.len(),
            forall|q: int|
                0 <= q < out@.len() ==> 0 <= #[trigger] positions[q] < it.index() && key_of(out@[q])
                    == *all[positions[q]] && out@[q].at_or_before(now),
            forall|q: int, r: int| 0 <= q < r < out@.len() ==> positions[q] < positions[r],
            forall|p: int|
                0 <= p < it.index() && instant_of(*#[trigger] all[p]).at_or_before(now)
                    ==> out@.contains(instant_of(*all[p])),
    {
        let t = Timespec { sec: k.0, nsec: k.1 };
        assert(t == instant_of(*all[it.index()]));
        if t.is_at_or_before(&now) {
            let ghost before = out@;
            out.push(t);
            proof {
                positions = positions.push(it.index());
                assert forall|p: int|
                    0 <= p < it.index() + 1 && instant_of(*#[trigger] all[p]).at_or_before(
                        now,
                    ) implies out@.contains(instant_of(*all[p])) by {
                    if p < it.index() {
                        let x = instant_of(*all[p]);
                        assert(before.contains(x));
                        let q = choose|q: int| 0 <= q < before.len() && before[q] == x;
                        assert(out@[q] == x);
                    } else {
                        assert(out@[out@.len() - 1] == t);
                    }
                }
            }
        }
    }
    proof {
        assert forall|i: int, j: int| 0 <= i < j < out@.len() implies (#[trigger] out@[i]).before(
            #[trigger] out@[j],
        ) by {
            assert(key_before(*all[positions[i]], *all[positions[j]]));
        }
        assert forall|t: Timespec| #[trigger]
            out@.contains(t) <==> as_pending(m@).contains_key(t) && t.at_or_before(now) by {
            if out@.contains(t) {
                let q = choose|q: int| 0 <= q < out@.len() && out@[q] == t;
                assert(all.unref()[positions[q]] == key_of(t));
                assert(all.unref().to_set().contains(key_of(t)));
            }
            if as_pending(m@).contains_key(t) && t.at_or_before(now) {
                assert(all.unref().to_set().contains(key_of(t)));
                let p = choose|p: int| 0 <= p < all.unref().len() && all.unref()[p] == key_of(t);
                assert(*all[p] == key_of(t));
                assert(instant_of(*all[p]) == t);
            }
        }
    }
    out
}

/// Whether the event `index` is among `events`.
pub(crate) fn holds(events: &Vec<usize>, index: usize) -> (found: bool)
    ensures
        found == events@.contains(index),
{
    let mut i: usize = 0;
    while i < events.len()
        invariant
            i <= events.len(),
            forall|j: int| 0 <= j < i ==> events@[j] != index,
        decreases events.len() - i,
    {
        if events[i] == index {
            return true;
        }
        i = i + 1;
    }
    false
}

/// Schedules the event `index` at `timestamp`.
pub(crate) fn place_in(m: &mut BTreeMap<(i64, i32), Vec<usize>>, timestamp: Timespec, index: usize)
    ensures
        as_pending(final(m)@) == place(as_pending(old(m)@), timestamp, index),
{
    broadcast use group_btree_axioms;

    let key = (timestamp.sec, timestamp.nsec);
    let ghost before = m@;
    let mut events: Vec<usize> = match m.remove(&key) {
        Some(events) => events,
        None => Vec::new(),
    };
    if !holds(&events, index) {
        events.push(index);
    }
    m.insert(key, events);
    proof {
        assert(key == key_of(timestamp));
        assert(as_pending(m@) =~= place(as_pending(before), timestamp, index)) by {
            assert forall|t: Timespec| t != timestamp implies key_of(t) != key by {}
            if before.contains_key(key) {
                if before[key]@.contains(index) {
                    assert(m@[key]@ == before[key]@);
                } else {
                    assert(m@[key]@ == before[key]@.push(index));
                }
            } else {
                assert(m@[key]@ =~= seq![index]);
            }
        }
    }
}

/// Drops what is pending at each of the timestamps `keys`.
pub(crate) fn remove_keys(m: &mut BTreeMap<(i64, i32), Vec<usize>>, keys: &Vec<Timespec>)
    ensures
        as_pending(final(m)@) == Map::new(
            |t: Timespec| as_pending(old(m)@).contains_key(t) && !keys@.contains(t),
            |t: Timespec| as_pending(old(m)@)[t],
        ),
{
    broadcast use group_btree_axioms;

    let ghost before = m@;
    let mut i: usize = 0;
    while i < keys.len()
        invariant
            i <= keys.len(),
            forall|k: (i64, i32)| #[trigger]
                m@.contains_key(k) <==> before.contains_key(k) && !keys@.take(i as int).contains(
                    instant_of(k),
                ),
            forall|k: (i64, i32)| #[trigger] m@.contains_key(k) ==> m@[k] == before[k],
        decreases keys.len() - i,
    {
        let key = (keys[i].sec, keys[i].nsec);
        let ghost prior = m@;
        let ghost done = keys@.take(i as int);
        m.remove(&key);
        proof {
            assert(m@ == prior.remove(key));
            assert(instant_of(key) == keys@[i as int]);
            let next = keys@.take(i + 1);
            assert(next =~= done.push(keys@[i as int]));
            assert forall|k: (i64, i32)| #[trigger]
                m@.contains_key(k) <==> before.contains_key(k) && !next.contains(
                    instant_of(k),
                ) by {
                if next.contains(instant_of(k)) {
                    let j = choose|j: int| 0 <= j < next.len() && next[j] == instant_of(k);
                    if j < i {
                        assert(done[j] == instant_of(k));
                        assert(done.contains(instant_of(k)));
                    } else {
                        assert(k == key);
                    }
                }
                if done.contains(instant_of(k)) {
                    let j = choose|j: int| 0 <= j < done.len() && done[j] == instant_of(k);
                    assert(next[j] == instant_of(k));
                }
                if k == key {
                    assert(next[i as int] == instant_of(k));
                }
            }
        }
        i = i + 1;
    }
    proof {
        assert(keys@.take(i as int) =~= keys@);
        let target = Map::new(
            |t: Timespec| as_pending(before).contains_key(t) && !keys@.contains(t),
            |t: Timespec| as_pending(before)[t],
        );
        assert forall|t: Timespec| as_pending(m@).contains_key(t) <==> target.contains_key(t) by {
            assert(instant_of(key_of(t)) == t);
        }
        assert(as_pending(m@) =~= target);
    }
}

} // verus!
