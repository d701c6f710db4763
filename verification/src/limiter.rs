//! The limiter that many threads share.
//!
//! The queue of prior slots and the current slot each sit behind a
//! reader-writer lock of their own, and every count is an atomic counter, so
//! that a count for a key the current slot knows needs shared access only.
//! What another thread did a moment ago decides what a call finds, so the
//! contracts here say what holds of every outcome; what the counts lead to
//! when one owner makes the calls in turn is `SlottedCounter`.
use crate::counts::sum_of;
use crate::ring::{empty_slots, exchange, limit_reached, take_oldest, within_limit};
use crate::sync::{exclusive, guarded, read_lock, shared, try_read_lock, write_lock};
use parking_lot::RwLock;
use std::collections::{HashMap, VecDeque};
use std::hash::Hash;
use std::sync::atomic::AtomicUsize;
use std::sync::atomic::Ordering;
use std::sync::Arc;
use vstd::prelude::*;
use vstd::std_specs::hash::obeys_key_model;

verus! {

/// A limit and the ring of slots, shared by reference between threads.
#[verifier::reject_recursive_types(K)]
pub struct RateLimiter<K: Eq + Hash> {
    limit: usize,
    prior_slots: RwLock<VecDeque<HashMap<K, AtomicUsize>>>,
    current_slot: RwLock<HashMap<K, AtomicUsize>>,
}

/// `counts` holds, slot by slot, a value that `read` can give for the counter
/// of `key` in that slot, and 0 for a slot without an entry for `key`.
pub open spec fn read_from<K, V, F: Fn(&V) -> usize>(
    slots: Seq<HashMap<K, V>>,
    key: K,
    read: F,
    counts: Seq<usize>,
) -> bool {
    &&& counts.len() == slots.len()
    &&& forall|i: int|
        0 <= i < slots.len() ==> if slots[i]@.contains_key(key) {
            call_ensures(read, (&slots[i]@[key],), #[trigger] counts[i])
        } else {
            counts[i] == 0
        }
}

/// Sums what `read` gives for the counters of `key` in `prior`, each slot
/// read once, from the oldest on; a slot without an entry adds nothing.
/// `None` where no `usize` holds the sum.
pub fn sum_counters<K: Eq + Hash, V, F: Fn(&V) -> usize>(
    prior: &VecDeque<HashMap<K, V>>,
    key: &K,
    read: F,
) -> (sum: Option<usize>)
    requires
        forall|counter: &V| call_requires(read, (counter,)),
    ensures
        obeys_key_model::<K>() ==> exists|counts: Seq<usize>|
            {
                &&& read_from(prior@, *key, read, counts)
                &&& match sum {
                    Some(sum) => sum == sum_of(counts),
                    None => sum_of(counts) > usize::MAX,
                }
            },
        obeys_key_model::<K>() && (forall|i: int|
            0 <= i < prior@.len() ==> !(#[trigger] prior@[i])@.contains_key(*key)) ==> sum
            == Some(0usize),
{
    let mut sum: Option<usize> = Some(0);
    let ghost mut counts: Seq<usize> = Seq::empty();
    let mut i: usize = 0;
    while i < prior.len()
        invariant
            forall|counter: &V| call_requires(read, (counter,)),
            i <= prior@.len(),
            counts.len() == i,
            obeys_key_model::<K>() ==> forall|j: int|
                0 <= j < i ==> if prior@[j]@.contains_key(*key) {
                    call_ensures(read, (&prior@[j]@[*key],), #[trigger] counts[j])
                } else {
                    counts[j] == 0
                },
            match sum {
                Some(sum) => sum == sum_of(counts),
                None => sum_of(counts) > usize::MAX,
            },
            obeys_key_model::<K>() && (forall|i: int|
                0 <= i < prior@.len() ==> !(#[trigger] prior@[i])@.contains_key(*key)) ==> sum
                == Some(0usize),
        decreases prior@.len() - i,
    {
        let count: usize = match prior[i].get(key) {
            Some(counter) => read(counter),
            None => 0,
        };
        proof {
            let before = counts;
            counts = counts.push(count);
            assert(counts.drop_last() =~= before);
        }
        sum = match sum {
            Some(so_far) => so_far.checked_add(count),
            None => None,
        };
        i += 1;
    }
    assert(obeys_key_model::<K>() ==> read_from(prior@, *key, read, counts));
    sum
}

/// Counts one occurrence of `key` in `slot` if the slot has an entry for it,
/// and hands back what the counter held before. A slot without an entry
/// stays as it is.
pub fn count_known<K: Eq + Hash>(slot: &HashMap<K, AtomicUsize>, key: &K) -> (seen: Option<usize>)
    ensures
        obeys_key_model::<K>() ==> seen.is_some() == slot@.contains_key(*key),
{
    match slot.get(key) {
        Some(counter) => Some(counter.fetch_add(1, Ordering::Relaxed)),
        None => None,
    }
}

/// Counts one occurrence of `key` in `slot`. A key with an entry keeps its
/// counter, and what the counter held before is handed back; a key without
/// one gets a counter that starts at 1, and 1 is handed back.
pub fn count_any<K: Eq + Hash>(slot: &mut HashMap<K, AtomicUsize>, key: K) -> (seen: usize)
    ensures
        obeys_key_model::<K>() ==> final(slot)@.dom() == old(slot)@.dom().insert(key),
        obeys_key_model::<K>() && old(slot)@.contains_key(key) ==> final(slot)@ == old(slot)@,
        obeys_key_model::<K>() && !old(slot)@.contains_key(key) ==> seen == 1,
{
    match count_known(slot, &key) {
        Some(seen) => {
            assert(obeys_key_model::<K>() ==> old(slot)@.dom().insert(key) =~= old(slot)@.dom());
            seen
        },
        None => {
            slot.insert(key, AtomicUsize::new(1));
            1
        },
    }
}

impl<K: Eq + Hash> RateLimiter<K> {
    /// The number of occurrences within the window from which a key is
    /// limited.
    pub closed spec fn limit(&self) -> usize {
        self.limit
    }

    /// A limiter of `slots` empty slots, one of them the current slot, behind
    /// a handle that can be cloned and sent to other threads.
    pub fn new(limit: usize, slots: usize) -> (limiter: Arc<Self>)
        requires
            slots > 0,
        ensures
            limiter.limit() == limit,
    {
        let prior_slots: VecDeque<HashMap<K, AtomicUsize>> = empty_slots(slots - 1);
        Arc::new(
            RateLimiter {
                limit,
                prior_slots: guarded(prior_slots),
                current_slot: guarded(HashMap::new()),
            },
        )
    }

    /// Ages every count by one slot. The queue of prior slots is held
    /// exclusively throughout, the current slot only while it is exchanged.
    pub fn rotate_slots(&self) {
        let mut prior = write_lock(&self.prior_slots);
        let queue = exclusive(&mut prior);
        match take_oldest(queue) {
            Some(slot) => {
                let retired = self.exchange_current(slot);
                queue.push_back(retired);
            },
            None => {
                self.clear_current();
            },
        }
    }

    /// Checks `key` against the limit and, unless the prior slots alone are
    /// over it, counts this occurrence in the current slot. `true` means
    /// limited. What the slots hold is behind the locks, so the answer is
    /// promised only where it does not depend on them; `within_limit` and
    /// `limit_reached` say what it is for each sum and count that is found.
    pub fn check_limited(&self, key: K) -> (limited: bool)
        ensures
            self.limit() == 0 ==> limited,
    {
        match within_limit(self.limit, self.prior_total(&key)) {
            Some(prior) => {
                let seen = self.increment(key);
                limit_reached(self.limit, prior, seen)
            },
            None => true,
        }
    }

    /// Puts `slot` in the place of the current slot and hands back the slot
    /// that was current. Which slot that is, only the lock knows: `exchange`
    /// says what is done with it.
    fn exchange_current(&self, slot: HashMap<K, AtomicUsize>) -> HashMap<K, AtomicUsize> {
        let mut current = write_lock(&self.current_slot);
        exchange(exclusive(&mut current), slot)
    }

    /// Empties the current slot.
    fn clear_current(&self) {
        let mut current = write_lock(&self.current_slot);
        exclusive(&mut current).clear();
    }

    /// The sum of the prior slots' counters for `key`, read under shared
    /// access to the queue. What the queue holds, only the lock knows:
    /// `sum_counters` says what the sum is of.
    fn prior_total(&self, key: &K) -> (sum: Option<usize>) {
        let prior = read_lock(&self.prior_slots);
        sum_counters(shared(&prior), key, |counter: &AtomicUsize| counter.load(Ordering::Relaxed))
    }

    /// Counts one occurrence of `key` in the current slot under shared
    /// access, where that can be had at once and the slot knows the key.
    /// `None` where it cannot or the slot does not; `count_known` says what
    /// is handed back of a slot.
    fn increment_known(&self, key: &K) -> (seen: Option<usize>) {
        match try_read_lock(&self.current_slot) {
            Some(current) => count_known(shared(&current), key),
            None => None,
        }
    }

    /// Counts one occurrence of `key` in the current slot: under shared
    /// access if possible, else under exclusive access, where `count_any`
    /// says what is handed back of a slot.
    fn increment(&self, key: K) -> (seen: usize) {
        match self.increment_known(&key) {
            Some(seen) => seen,
            None => {
                let mut current = write_lock(&self.current_slot);
                count_any(exclusive(&mut current), key)
            },
        }
    }
}

} // verus!
