//! What rotations do to the counts of a key that is no longer checked: they
//! move towards the old end of the queue and are gone after one full turn.
use crate::counts::{
    count_in, lemma_total_absent, lemma_total_drop_first, lemma_total_push, occurrences,
    rotations, run, Counts, Step,
};
use vstd::prelude::*;

verus! {

/// The current slot and the `newest` newest prior slots have no entry for
/// `key`.
pub open spec fn clear_behind<K>(counts: Counts<K>, key: K, newest: nat) -> bool {
    &&& !counts.current.contains_key(key)
    &&& forall|i: int|
        counts.prior.len() - newest <= i && 0 <= i < counts.prior.len() ==> !(
        #[trigger] counts.prior[i]).contains_key(key)
}

/// Steps never change the limit or the number of slots.
pub proof fn shape_kept<K>(start: Counts<K>, steps: Seq<Step<K>>)
    ensures
        run(start, steps).limit == start.limit,
        run(start, steps).slots() == start.slots(),
    decreases steps.len(),
{
    if steps.len() > 0 {
        shape_kept(start, steps.drop_last());
    }
}

/// A rotation takes from what the slots hold for a key exactly what the
/// oldest slot held for it: the oldest prior slot, or the current slot where
/// there is no prior slot.
pub proof fn rotation_evicts_oldest<K>(counts: Counts<K>, key: K)
    ensures
        counts.prior.len() > 0 ==> counts.rotated().aggregate(key) + count_in(
            counts.prior.first(),
            key,
        ) == counts.aggregate(key),
        counts.prior.len() == 0 ==> counts.rotated().aggregate(key) == 0,
{
    if counts.prior.len() > 0 {
        lemma_total_drop_first(counts.prior, key);
        lemma_total_push(counts.prior.drop_first(), counts.current, key);
    }
}

/// After `r` rotations without a check of `key`, with `r` at least 1, the
/// current slot and the `r - 1` newest prior slots have no entry for it.
proof fn lemma_rotations_clear<K>(start: Counts<K>, steps: Seq<Step<K>>, key: K)
    requires
        occurrences(steps, key) == 0,
        rotations(steps) >= 1,
    ensures
        clear_behind(run(start, steps), key, (rotations(steps) - 1) as nat),
    decreases steps.len(),
{
    let before = run(start, steps.drop_last());
    let after = run(start, steps);
    match steps.last() {
        Step::Check(other) => {
            lemma_rotations_clear(start, steps.drop_last(), key);
            assert(other != key);
            assert(after.prior == before.prior);
        },
        Step::Rotate => {
            if rotations(steps.drop_last()) >= 1 {
                lemma_rotations_clear(start, steps.drop_last(), key);
                let newest = (rotations(steps) - 1) as nat;
                if before.prior.len() > 0 {
                    assert forall|i: int|
                        after.prior.len() - newest <= i && 0 <= i < after.prior.len() implies !(
                    #[trigger] after.prior[i]).contains_key(key) by {
                        if i < after.prior.len() - 1 {
                            assert(after.prior[i] == before.prior[i + 1]);
                        }
                    }
                }
            }
        },
    }
}

/// Rotations age a key out: after as many rotations as the limiter has
/// slots, with no check of the key in between, no slot has an entry for it,
/// whatever was checked for other keys meanwhile. Its next check is answered
/// as on a new limiter: admitted, where the limit is 2 or more.
pub proof fn aged_out_after_full_turn<K>(start: Counts<K>, steps: Seq<Step<K>>, key: K)
    requires
        occurrences(steps, key) == 0,
        rotations(steps) >= start.slots(),
    ensures
        run(start, steps).unseen(key),
        run(start, steps).aggregate(key) == 0,
        run(start, steps).limit >= 2 ==> !run(start, steps).limited(key),
        run(start, steps).limited(key) == Counts::<K>::fresh(start.limit, start.slots()).limited(
            key,
        ),
{
    shape_kept(start, steps);
    lemma_rotations_clear(start, steps, key);
    lemma_total_absent(run(start, steps).prior, key);
    lemma_total_absent(Counts::<K>::fresh(start.limit, start.slots()).prior, key);
}

} // verus!
