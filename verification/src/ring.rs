//! What every form of the limiter shares: the tests of what was counted
//! against the limit, the making of empty slots, and the turn of the ring.
use crate::counts::reaches;
use std::collections::{HashMap, VecDeque};
use vstd::prelude::*;

verus! {

/// What a check goes on with once it has summed the prior slots: the sum,
/// if one more occurrence is to be counted in the current slot, and `None`
/// if the key is limited without that. `prior` is the sum, `None` for one
/// that no `usize` holds. The key is limited at once exactly when the prior
/// slots alone hold more than `limit`.
pub fn within_limit(limit: usize, prior: Option<usize>) -> (counting: Option<usize>)
    ensures
        counting == match prior {
            Some(sum) => if sum <= limit {
                Some(sum)
            } else {
                None
            },
            None => None,
        },
{
    match prior {
        Some(sum) => {
            if sum <= limit {
                Some(sum)
            } else {
                None
            }
        },
        None => None,
    }
}

/// Tells whether `prior` occurrences in the prior slots and `seen` in the
/// current slot reach `limit`. The sum is taken exactly: one that no `usize`
/// holds reaches every limit.
pub fn limit_reached(limit: usize, prior: usize, seen: usize) -> (reached: bool)
    ensures
        reached == reaches(limit, prior as nat, seen),
{
    match prior.checked_add(seen) {
        Some(sum) => sum >= limit,
        None => true,
    }
}

/// A queue of `count` empty slots.
pub fn empty_slots<K, V>(count: usize) -> (slots: VecDeque<HashMap<K, V>>)
    ensures
        slots@.len() == count,
        forall|i: int| 0 <= i < count ==> (#[trigger] slots@[i])@ == Map::<K, V>::empty(),
{
    let mut slots: VecDeque<HashMap<K, V>> = VecDeque::new();
    let mut made: usize = 0;
    while made < count
        invariant
            made <= count,
            slots@.len() == made,
            forall|i: int| 0 <= i < made ==> (#[trigger] slots@[i])@ == Map::<K, V>::empty(),
        decreases count - made,
    {
        slots.push_back(HashMap::new());
        made += 1;
    }
    slots
}

/// What `rotate` leaves in the queue of prior slots.
pub open spec fn turned<S>(prior: Seq<S>, current: S) -> Seq<S> {
    if prior.len() == 0 {
        prior
    } else {
        prior.drop_first().push(current)
    }
}

/// Takes the oldest slot out of the queue and empties it, keeping its
/// storage. `None` where the queue holds no slot.
pub fn take_oldest<K, V>(prior: &mut VecDeque<HashMap<K, V>>) -> (oldest: Option<HashMap<K, V>>)
    ensures
        match oldest {
            Some(slot) => {
                &&& old(prior)@.len() > 0
                &&& slot@ == Map::<K, V>::empty()
                &&& final(prior)@ == old(prior)@.drop_first()
            },
            None => {
                &&& old(prior)@.len() == 0
                &&& final(prior)@ == old(prior)@
            },
        },
{
    match prior.pop_front() {
        Some(front) => {
            let mut front = front;
            front.clear();
            assert(old(prior)@.subrange(1, old(prior)@.len() as int) =~= old(prior)@.drop_first());
            Some(front)
        },
        None => None,
    }
}

/// Puts `slot` in the place of the current slot and hands back the slot that
/// was current, with all it holds.
pub fn exchange<K, V>(current: &mut HashMap<K, V>, slot: HashMap<K, V>) -> (retired: HashMap<K, V>)
    ensures
        *final(current) == slot,
        retired == *old(current),
{
    let mut slot = slot;
    std::mem::swap(current, &mut slot);
    slot
}

/// Turns the ring by one slot. The oldest prior slot is taken out, emptied
/// and made the current slot, and the slot that was current goes to the back
/// of the queue with all it holds. A ring without prior slots has its one
/// slot emptied.
pub fn rotate<K, V>(prior: &mut VecDeque<HashMap<K, V>>, current: &mut HashMap<K, V>)
    ensures
        final(prior)@ == turned(old(prior)@, *old(current)),
        final(current)@ == Map::<K, V>::empty(),
{
    match take_oldest(prior) {
        Some(slot) => {
            let mut slot = slot;
            std::mem::swap(current, &mut slot);
            prior.push_back(slot);
        },
        None => {
            current.clear();
        },
    }
}

} // verus!
