//! The ring of slots in the hands of a single owner.
//!
//! `SlottedCounter` keeps plain counts and changes them through `&mut self`,
//! so every call has an exact outcome: the answer and the new counts are
//! those that `Counts` gives.
use crate::counts::{count_in, lemma_total_prefix, total, Counts};
use crate::ring::{empty_slots, limit_reached, rotate};
use std::collections::{HashMap, VecDeque};
use std::hash::Hash;
use vstd::prelude::*;
use vstd::std_specs::hash::obeys_key_model;

verus! {

/// A limit, a queue of prior slots from oldest to newest, and the current
/// slot, each slot a map from key to count.
pub struct SlottedCounter<K> {
    limit: usize,
    prior_slots: VecDeque<HashMap<K, usize>>,
    current_slot: HashMap<K, usize>,
}

/// The slots of a queue as maps.
pub open spec fn slot_maps<K>(slots: Seq<HashMap<K, usize>>) -> Seq<Map<K, usize>> {
    Seq::new(slots.len(), |i: int| slots[i]@)
}

impl<K> View for SlottedCounter<K> {
    type V = Counts<K>;

    closed spec fn view(&self) -> Counts<K> {
        Counts {
            limit: self.limit,
            prior: slot_maps(self.prior_slots@),
            current: self.current_slot@,
        }
    }
}

impl<K: Eq + Hash> SlottedCounter<K> {
    /// A counter of `slots` empty slots that limits a key once `limit`
    /// occurrences of it are on record.
    pub fn new(limit: usize, slots: usize) -> (counter: Self)
        requires
            slots > 0,
        ensures
            counter@ == Counts::<K>::fresh(limit, slots as nat),
    {
        let prior_slots: VecDeque<HashMap<K, usize>> = empty_slots(slots - 1);
        let counter = SlottedCounter { limit, prior_slots, current_slot: HashMap::new() };
        assert(counter@.prior =~= Counts::<K>::fresh(limit, slots as nat).prior);
        counter
    }

    /// Ages every count by one slot: see `Counts::rotated`.
    pub fn rotate_slots(&mut self)
        ensures
            final(self)@ == old(self)@.rotated(),
    {
        rotate(&mut self.prior_slots, &mut self.current_slot);
        assert(self@.prior =~= old(self)@.rotated().prior);
    }

    /// Checks `key` against the limit and, unless the prior slots alone are
    /// over it, counts this occurrence in the current slot. `true` means
    /// limited.
    pub fn check_limited(&mut self, key: K) -> (limited: bool)
        requires
            obeys_key_model::<K>(),
        ensures
            limited == old(self)@.limited(key),
            final(self)@ == old(self)@.checked(key),
    {
        match self.prior_total(&key) {
            Some(prior) => {
                if prior > self.limit {
                    true
                } else {
                    let seen = self.increment(key);
                    limit_reached(self.limit, prior, seen)
                }
            },
            None => true,
        }
    }

    /// What all slots together hold for `key`, or `None` where no `usize`
    /// holds it.
    pub fn aggregate(&self, key: &K) -> (sum: Option<usize>)
        requires
            obeys_key_model::<K>(),
        ensures
            match sum {
                Some(sum) => sum == self@.aggregate(*key),
                None => self@.aggregate(*key) > usize::MAX,
            },
    {
        let current: usize = match self.current_slot.get(key) {
            Some(count) => *count,
            None => 0,
        };
        match self.prior_total(key) {
            Some(prior) => prior.checked_add(current),
            None => None,
        }
    }

    /// The sum of the prior slots' counts for `key`, or `None` where no
    /// `usize` holds it.
    fn prior_total(&self, key: &K) -> (sum: Option<usize>)
        requires
            obeys_key_model::<K>(),
        ensures
            match sum {
                Some(sum) => sum == self@.prior_total(*key),
                None => self@.prior_total(*key) > usize::MAX,
            },
    {
        let mut sum: usize = 0;
        let mut i: usize = 0;
        while i < self.prior_slots.len()
            invariant
                obeys_key_model::<K>(),
                i <= self.prior_slots@.len(),
                sum == total(self@.prior.take(i as int), *key),
            decreases self.prior_slots@.len() - i,
        {
            let count: usize = match self.prior_slots[i].get(key) {
                Some(count) => *count,
                None => 0,
            };
            proof {
                let slots = self@.prior;
                assert(slots.take(i + 1).drop_last() =~= slots.take(i as int));
                assert(count == count_in(slots[i as int], *key));
                lemma_total_prefix(slots, *key, i + 1);
            }
            match sum.checked_add(count) {
                Some(more) => {
                    sum = more;
                },
                None => {
                    return None;
                },
            }
            i += 1;
        }
        assert(self@.prior.take(i as int) =~= self@.prior);
        Some(sum)
    }

    /// Counts one occurrence of `key` in the current slot and hands back the
    /// count before it, or 1 where the key had no entry.
    fn increment(&mut self, key: K) -> (seen: usize)
        requires
            obeys_key_model::<K>(),
        ensures
            seen == old(self)@.seen(key),
            final(self)@ == (Counts { current: old(self)@.counted(key), ..old(self)@ }),
    {
        let known: Option<usize> = match self.current_slot.get(&key) {
            Some(count) => Some(*count),
            None => None,
        };
        match known {
            Some(seen) => {
                self.current_slot.insert(key, seen.wrapping_add(1));
                seen
            },
            None => {
                self.current_slot.insert(key, 1);
                1
            },
        }
    }
}

} // verus!
