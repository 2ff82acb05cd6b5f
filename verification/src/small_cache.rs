//! A small map whose entries disappear once nobody has asked for them for a while.

use mut_binary_heap::{BinaryHeap, MinComparator};
use std::collections::hash_map::Entry;
use std::collections::HashMap;
use vstd::prelude::*;

verus! {

broadcast use vstd::std_specs::hash::group_hash_axioms;

/// The heap of the crate `mut_binary_heap`, whose values are found by keys.
#[verifier::external_type_specification]
#[verifier::external_body]
#[verifier::reject_recursive_types(K)]
#[verifier::reject_recursive_types(T)]
#[verifier::reject_recursive_types(C)]
pub struct ExBinaryHeap<K, T, C>(mut_binary_heap::BinaryHeap<K, T, C>);

/// The order in which the least value of a heap comes first.
#[verifier::external_type_specification]
#[verifier::external_body]
pub struct ExMinComparator(mut_binary_heap::MinComparator);

/// What a heap of expiry times holds: for each key, when it expires.
pub uninterp spec fn expiry_times(heap: BinaryHeap<u64, u64, MinComparator>) -> Map<u64, u64>;

/// `BinaryHeap::new`: a new heap holds nothing.
#[verifier::external_body]
fn new_expiry_heap() -> (r: BinaryHeap<u64, u64, MinComparator>)
    ensures
        expiry_times(r).is_empty(),
{
    BinaryHeap::new()
}

/// `BinaryHeap::push`: the key gets the value, in place of the one that it had.
#[verifier::external_body]
fn push_expiry(heap: &mut BinaryHeap<u64, u64, MinComparator>, key: u64, expire_at: u64)
    ensures
        expiry_times(*final(heap)) == expiry_times(*old(heap)).insert(key, expire_at),
{
    heap.push(key, expire_at);
}

/// `BinaryHeap::get_mut`: a key that is there gets the value, and the heap is put in order
/// again; another key changes nothing.
#[verifier::external_body]
fn refresh_expiry(heap: &mut BinaryHeap<u64, u64, MinComparator>, key: u64, expire_at: u64)
    ensures
        expiry_times(*final(heap)) == if expiry_times(*old(heap)).contains_key(key) {
            expiry_times(*old(heap)).insert(key, expire_at)
        } else {
            expiry_times(*old(heap))
        },
{
    if let Some(mut value) = heap.get_mut(&key) {
        *value = expire_at;
    }
}

/// `BinaryHeap::peek`: the least value, where there is one.
#[verifier::external_body]
fn first_expiry(heap: &BinaryHeap<u64, u64, MinComparator>) -> (r: Option<u64>)
    ensures
        r is None <==> expiry_times(*heap).is_empty(),
        r matches Some(least) ==> {
            &&& exists|k: u64| #[trigger]
                expiry_times(*heap).contains_key(k) && expiry_times(*heap)[k] == least
            &&& forall|k: u64| #[trigger]
                expiry_times(*heap).contains_key(k) ==> expiry_times(*heap)[k] >= least
        },
{
    heap.peek().copied()
}

/// `BinaryHeap::pop_with_key`: takes out a key with the least value, where there is one.
#[verifier::external_body]
fn pop_expiry(heap: &mut BinaryHeap<u64, u64, MinComparator>) -> (r: Option<(u64, u64)>)
    ensures
        r is None <==> expiry_times(*old(heap)).is_empty(),
        r is None ==> expiry_times(*final(heap)) == expiry_times(*old(heap)),
        r matches Some((key, least)) ==> {
            &&& expiry_times(*old(heap)).contains_key(key)
            &&& expiry_times(*old(heap))[key] == least
            &&& forall|k: u64| #[trigger]
                expiry_times(*old(heap)).contains_key(k) ==> expiry_times(*old(heap))[k] >= least
            &&& expiry_times(*final(heap)) == expiry_times(*old(heap)).remove(key)
        },
{
    heap.pop_with_key()
}

/// The entries of a table that expire at `now` or later.
pub open spec fn unexpired(times: Map<u64, u64>, now: u64) -> Map<u64, u64> {
    times.restrict(Set::new(|k: u64| times.contains_key(k) && times[k] >= now))
}

/// A map whose entries expire once `time_to_idle` has gone by since they were last asked
/// for. Times are counted from one moment, in one unit, whichever these are.
pub struct SmallCache<V> {
    pub cache: HashMap<u64, V>,
    pub expiration: BinaryHeap<u64, u64, MinComparator>,
    pub time_to_idle: u64,
}

impl<V> SmallCache<V> {
    /// When each entry expires.
    pub open spec fn times(&self) -> Map<u64, u64> {
        expiry_times(self.expiration)
    }

    /// Every entry expires at some time, and nothing else does.
    pub open spec fn well_formed(&self) -> bool {
        self.cache@.dom() == self.times().dom()
    }

    pub fn new(time_to_idle: u64) -> (r: Self)
        ensures
            r.well_formed(),
            r.cache@ == Map::<u64, V>::empty(),
            r.time_to_idle == time_to_idle,
    {
        Self { cache: HashMap::new(), expiration: new_expiry_heap(), time_to_idle }
    }

    /// Drops the entries that are over. Those that expire without being there are only
    /// such that are not over.
    fn cleanup(&mut self, now: u64)
        requires
            forall|k: u64| #[trigger]
                old(self).times().contains_key(k) ==> old(self).cache@.contains_key(k) || old(
                    self,
                ).times()[k] >= now,
        ensures
            final(self).times() == unexpired(old(self).times(), now),
            final(self).cache@ == old(self).cache@.restrict(
                Set::new(
                    |k: u64|
                        old(self).cache@.contains_key(k) && !(old(self).times().contains_key(k)
                            && old(self).times()[k] < now),
                ),
            ),
            final(self).time_to_idle == old(self).time_to_idle,
    {
        let ghost times = self.times();
        let ghost before = self.cache@;
        loop
            invariant
                times == old(self).times(),
                before == old(self).cache@,
                self.time_to_idle == old(self).time_to_idle,
                forall|k: u64| #[trigger]
                    times.contains_key(k) ==> before.contains_key(k) || times[k] >= now,
                forall|k: u64| #[trigger]
                    self.times().contains_key(k) ==> times.contains_key(k) && times[k]
                        == self.times()[k],
                forall|k: u64|
                    times.contains_key(k) && !#[trigger] self.times().contains_key(k) ==> times[k]
                        < now,
                self.cache@ == before.restrict(
                    Set::new(
                        |k: u64|
                            before.contains_key(k) && !(times.contains_key(k)
                                && !self.times().contains_key(k)),
                    ),
                ),
            ensures
                forall|k: u64| #[trigger]
                    self.times().contains_key(k) ==> self.times()[k] >= now,
            decreases self.cache@.dom().len(),
        {
            match first_expiry(&self.expiration) {
                Some(expire_at) => {
                    if expire_at >= now {
                        break;
                    }
                    let ghost held = self.times();
                    let ghost cached = self.cache@;
                    match pop_expiry(&mut self.expiration) {
                        Some((key, least)) => {
                            assert(held.contains_key(key));
                            assert(least < now) by {
                                let k = choose|k: u64| #[trigger]
                                    held.contains_key(k) && held[k] == expire_at;
                                assert(held[k] >= least);
                            }
                            assert(before.contains_key(key));
                            assert(cached.contains_key(key));
                            self.cache.remove(&key);
                            assert(self.cache@ =~= before.restrict(
                                Set::new(
                                    |k: u64|
                                        before.contains_key(k) && !(times.contains_key(k)
                                            && !self.times().contains_key(k)),
                                ),
                            ));
                        },
                        None => {},
                    }
                },
                None => {
                    break;
                },
            }
        }
        assert(self.times() =~= unexpired(times, now));
        assert(self.cache@ =~= before.restrict(
            Set::new(
                |k: u64| before.contains_key(k) && !(times.contains_key(k) && times[k] < now),
            ),
        ));
    }

    /// Hands out an entry. That it was asked for keeps it; the entries that are over are
    /// dropped.
    pub fn get_mut(&mut self, k: u64, now: u64) -> (r: Option<&mut V>)
        requires
            old(self).well_formed(),
            now + old(self).time_to_idle <= u64::MAX,
        ensures
            final(self).well_formed(),
            final(self).time_to_idle == old(self).time_to_idle,
            r is Some <==> old(self).cache@.contains_key(k),
            ({
                let renewed = if old(self).times().contains_key(k) {
                    old(self).times().insert(k, (now + old(self).time_to_idle) as u64)
                } else {
                    old(self).times()
                };
                let kept = unexpired(renewed, now);
                &&& final(self).times() == kept
                &&& match r {
                    Some(value) => *value == old(self).cache@[k] && final(self).cache@ == old(
                        self,
                    ).cache@.restrict(kept.dom()).insert(k, *final(value)),
                    None => final(self).cache@ == old(self).cache@.restrict(kept.dom()),
                }
            }),
    {
        let ghost times = self.times();
        let ghost before = self.cache@;
        assert(times.dom().contains(k) <==> before.dom().contains(k));
        let expire_at: u64 = now + self.time_to_idle;
        refresh_expiry(&mut self.expiration, k, expire_at);
        let ghost renewed = self.times();
        proof {
            assert forall|j: u64| #[trigger] renewed.contains_key(j) implies before.contains_key(
                j,
            ) by {
                assert(before.dom().contains(j) <==> times.dom().contains(j));
            }
            assert forall|j: u64| before.contains_key(j) implies #[trigger] renewed.contains_key(
                j,
            ) by {
                assert(before.dom().contains(j) <==> times.dom().contains(j));
            }
        }
        self.cleanup(now);
        proof {
            assert(self.cache@ =~= before.restrict(unexpired(renewed, now).dom()));
        }
        match self.cache.entry(k) {
            Entry::Occupied(entry) => {
                let value = entry.into_mut();
                assert(before.restrict(unexpired(renewed, now).dom()).insert(
                    k,
                    *final(value),
                ).dom() =~= unexpired(renewed, now).dom());
                Some(value)
            },
            Entry::Vacant(_) => {
                let ghost kept = before.restrict(unexpired(renewed, now).dom());
                assert(kept.remove(k) =~= kept);
                assert(kept.dom() =~= unexpired(renewed, now).dom());
                None
            },
        }
    }

    /// Hands out an entry, which `value` makes if there is none. That it was asked for
    /// keeps it; the entries that are over are dropped.
    pub fn get_or_insert_mut<F: FnOnce() -> V>(&mut self, k: u64, value: F, now: u64) -> (r:
        &mut V)
        requires
            old(self).well_formed(),
            now + old(self).time_to_idle <= u64::MAX,
            value.requires(()),
        ensures
            final(self).well_formed(),
            final(self).time_to_idle == old(self).time_to_idle,
            old(self).cache@.contains_key(k) ==> *r == old(self).cache@[k],
            !old(self).cache@.contains_key(k) ==> value.ensures((), *r),
            ({
                let kept = unexpired(
                    old(self).times().insert(k, (now + old(self).time_to_idle) as u64),
                    now,
                );
                &&& final(self).times() == kept
                &&& final(self).cache@ == old(self).cache@.restrict(kept.dom()).insert(
                    k,
                    *final(r),
                )
            }),
    {
        let ghost times = self.times();
        let ghost before = self.cache@;
        let expire_at: u64 = now + self.time_to_idle;
        push_expiry(&mut self.expiration, k, expire_at);
        let ghost renewed = self.times();
        proof {
            assert forall|j: u64| #[trigger] renewed.contains_key(j) implies before.contains_key(j)
                || renewed[j] >= now by {
                assert(before.dom().contains(j) <==> times.dom().contains(j));
            }
            assert forall|j: u64| before.contains_key(j) implies #[trigger] renewed.contains_key(
                j,
            ) by {
                assert(before.dom().contains(j) <==> times.dom().contains(j));
            }
        }
        self.cleanup(now);
        proof {
            assert(self.cache@ =~= before.restrict(unexpired(renewed, now).dom()));
            assert forall|j: u64| j != k && unexpired(renewed, now).contains_key(j) implies
                before.contains_key(j) by {
                assert(before.dom().contains(j) <==> times.dom().contains(j));
            }
        }
        let r = match self.cache.entry(k) {
            Entry::Occupied(entry) => entry.into_mut(),
            Entry::Vacant(entry) => entry.insert(value()),
        };
        assert(before.restrict(unexpired(renewed, now).dom()).insert(k, *final(r)).dom()
            =~= unexpired(renewed, now).dom());
        r
    }

    /// Hands out an entry without this counting as asking for it.
    pub fn held_mut(&mut self, k: u64) -> (r: Option<&mut V>)
        requires
            old(self).well_formed(),
        ensures
            final(self).well_formed(),
            final(self).times() == old(self).times(),
            final(self).time_to_idle == old(self).time_to_idle,
            r is Some <==> old(self).cache@.contains_key(k),
            match r {
                Some(value) => *value == old(self).cache@[k] && final(self).cache@ == old(
                    self,
                ).cache@.insert(k, *final(value)),
                None => final(self).cache@ == old(self).cache@,
            },
    {
        let ghost before = self.cache@;
        match self.cache.entry(k) {
            Entry::Occupied(entry) => {
                let value = entry.into_mut();
                assert(before.insert(k, *final(value)).dom() =~= before.dom());
                Some(value)
            },
            Entry::Vacant(_) => {
                assert(before.remove(k) =~= before);
                None
            },
        }
    }
}

/// An entry that was asked for at `now` is dropped at `later` if, and only if, more than the
/// time that it may be idle has gone by.
pub proof fn entry_lives_while_asked_for(
    times: Map<u64, u64>,
    k: u64,
    now: u64,
    time_to_idle: u64,
    later: u64,
)
    requires
        now + time_to_idle <= u64::MAX,
    ensures
        unexpired(times.insert(k, (now + time_to_idle) as u64), later).contains_key(k) <==> later
            <= now + time_to_idle,
{
}

/// Entries are dropped exactly once their time is over, and those that stay keep their time.
pub proof fn only_old_entries_are_dropped(times: Map<u64, u64>, now: u64, k: u64)
    ensures
        unexpired(times, now).contains_key(k) <==> times.contains_key(k) && times[k] >= now,
        unexpired(times, now).contains_key(k) ==> unexpired(times, now)[k] == times[k],
{
}

} // verus!
