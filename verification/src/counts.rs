//! The counts of a limiter as plain mathematics: what a limit, a queue of
//! prior slots and a current slot say about a key, and how a check and a
//! rotation change them.
use vstd::prelude::*;

verus! {

/// The count that `slot` holds for `key`; a key without an entry counts as 0.
pub open spec fn count_in<K>(slot: Map<K, usize>, key: K) -> nat {
    if slot.contains_key(key) {
        slot[key] as nat
    } else {
        0
    }
}

/// The sum of the counts that `slots` hold for `key`.
pub open spec fn total<K>(slots: Seq<Map<K, usize>>, key: K) -> nat
    decreases slots.len(),
{
    if slots.len() == 0 {
        0
    } else {
        total(slots.drop_last(), key) + count_in(slots.last(), key)
    }
}

/// The sum of `counts`.
pub open spec fn sum_of(counts: Seq<usize>) -> nat
    decreases counts.len(),
{
    if counts.len() == 0 {
        0
    } else {
        sum_of(counts.drop_last()) + counts.last() as nat
    }
}

/// The counter that follows `count`: one more, and 0 after the largest `usize`.
pub open spec fn successor(count: usize) -> usize {
    if count == usize::MAX {
        0
    } else {
        (count + 1) as usize
    }
}

/// Whether `prior` occurrences in the prior slots and `seen` in the current
/// slot reach `limit` together.
pub open spec fn reaches(limit: usize, prior: nat, seen: usize) -> bool {
    prior + seen >= limit
}

/// The state of a limiter: its limit, the prior slots from oldest to newest,
/// and the current slot.
#[verifier::reject_recursive_types(K)]
pub struct Counts<K> {
    pub limit: usize,
    pub prior: Seq<Map<K, usize>>,
    pub current: Map<K, usize>,
}

impl<K> Counts<K> {
    /// A limiter of `slots` empty slots, one of them the current slot.
    pub open spec fn fresh(limit: usize, slots: nat) -> Counts<K> {
        Counts {
            limit,
            prior: Seq::new((slots - 1) as nat, |i: int| Map::<K, usize>::empty()),
            current: Map::empty(),
        }
    }

    /// The number of slots, the current one included.
    pub open spec fn slots(self) -> nat {
        self.prior.len() + 1
    }

    /// What the prior slots hold for `key`.
    pub open spec fn prior_total(self, key: K) -> nat {
        total(self.prior, key)
    }

    /// What all slots together hold for `key`.
    pub open spec fn aggregate(self, key: K) -> nat {
        self.prior_total(key) + count_in(self.current, key)
    }

    /// No slot has an entry for `key`.
    pub open spec fn unseen(self, key: K) -> bool {
        &&& !self.current.contains_key(key)
        &&& forall|i: int|
            0 <= i < self.prior.len() ==> !(#[trigger] self.prior[i]).contains_key(key)
    }

    /// A check of `key` leaves the current slot alone: the prior slots by
    /// themselves are over the limit.
    pub open spec fn skips(self, key: K) -> bool {
        self.prior_total(key) > self.limit
    }

    /// What counting one occurrence of `key` in the current slot hands back:
    /// the count before it, or 1 where the key had no entry.
    pub open spec fn seen(self, key: K) -> usize {
        if self.current.contains_key(key) {
            self.current[key]
        } else {
            1
        }
    }

    /// The current slot after one more occurrence of `key`.
    pub open spec fn counted(self, key: K) -> Map<K, usize> {
        if self.current.contains_key(key) {
            self.current.insert(key, successor(self.current[key]))
        } else {
            self.current.insert(key, 1)
        }
    }

    /// The answer of a check of `key`: `true` means limited.
    pub open spec fn limited(self, key: K) -> bool {
        self.skips(key) || reaches(self.limit, self.prior_total(key), self.seen(key))
    }

    /// The state after a check of `key`.
    pub open spec fn checked(self, key: K) -> Counts<K> {
        if self.skips(key) {
            self
        } else {
            Counts { current: self.counted(key), ..self }
        }
    }

    /// The state after a rotation: the oldest prior slot leaves, the current
    /// slot becomes the newest prior slot, and an empty slot becomes current.
    /// With no prior slot at all the current slot is just emptied.
    pub open spec fn rotated(self) -> Counts<K> {
        if self.prior.len() == 0 {
            Counts { current: Map::empty(), ..self }
        } else {
            Counts {
                prior: self.prior.drop_first().push(self.current),
                current: Map::empty(),
                ..self
            }
        }
    }
}

/// One call on a limiter.
pub enum Step<K> {
    /// A check of the key.
    Check(K),
    /// A rotation of the slots.
    Rotate,
}

/// The state that `steps`, taken in order, lead to from `start`.
pub open spec fn run<K>(start: Counts<K>, steps: Seq<Step<K>>) -> Counts<K>
    decreases steps.len(),
{
    if steps.len() == 0 {
        start
    } else {
        let before = run(start, steps.drop_last());
        match steps.last() {
            Step::Check(key) => before.checked(key),
            Step::Rotate => before.rotated(),
        }
    }
}

/// The number of checks of `key` among `steps`.
pub open spec fn occurrences<K>(steps: Seq<Step<K>>, key: K) -> nat
    decreases steps.len(),
{
    if steps.len() == 0 {
        0
    } else {
        occurrences(steps.drop_last(), key) + if steps.last() == Step::Check(key) {
            1nat
        } else {
            0nat
        }
    }
}

/// The number of rotations among `steps`.
pub open spec fn rotations<K>(steps: Seq<Step<K>>) -> nat
    decreases steps.len(),
{
    if steps.len() == 0 {
        0
    } else {
        rotations(steps.drop_last()) + if steps.last() is Rotate {
            1nat
        } else {
            0nat
        }
    }
}

/// `count` checks of `key` in a row.
pub open spec fn repeated<K>(key: K, count: nat) -> Seq<Step<K>> {
    Seq::new(count, |i: int| Step::Check(key))
}

/// Leaving out slots never raises a total.
pub proof fn lemma_total_prefix<K>(slots: Seq<Map<K, usize>>, key: K, n: int)
    requires
        0 <= n <= slots.len(),
    ensures
        total(slots.take(n), key) <= total(slots, key),
    decreases slots.len(),
{
    if n < slots.len() {
        lemma_total_prefix(slots.drop_last(), key, n);
        assert(slots.drop_last().take(n) =~= slots.take(n));
    } else {
        assert(slots.take(n) =~= slots);
    }
}

/// One more slot adds its count to the total.
pub proof fn lemma_total_push<K>(slots: Seq<Map<K, usize>>, slot: Map<K, usize>, key: K)
    ensures
        total(slots.push(slot), key) == total(slots, key) + count_in(slot, key),
{
    assert(slots.push(slot).drop_last() =~= slots);
}

/// Without the oldest slot the total is lower by that slot's count.
pub proof fn lemma_total_drop_first<K>(slots: Seq<Map<K, usize>>, key: K)
    requires
        slots.len() > 0,
    ensures
        total(slots, key) == count_in(slots.first(), key) + total(slots.drop_first(), key),
    decreases slots.len(),
{
    if slots.len() == 1 {
        assert(slots.drop_first() =~= Seq::empty());
        assert(slots.drop_last() =~= Seq::empty());
    } else {
        lemma_total_drop_first(slots.drop_last(), key);
        assert(slots.drop_last().drop_first() =~= slots.drop_first().drop_last());
    }
}

/// Slots without an entry for `key` total 0.
pub proof fn lemma_total_absent<K>(slots: Seq<Map<K, usize>>, key: K)
    requires
        forall|i: int| 0 <= i < slots.len() ==> !(#[trigger] slots[i]).contains_key(key),
    ensures
        total(slots, key) == 0,
    decreases slots.len(),
{
    if slots.len() > 0 {
        lemma_total_absent(slots.drop_last(), key);
    }
}

} // verus!
