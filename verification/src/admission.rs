//! What holds of the answers between two rotations: when a key is admitted,
//! that other keys have no part in it, and that a key over its limit stays
//! limited.
use crate::counts::{
    count_in, lemma_total_absent, occurrences, repeated, rotations, run, Counts, Step,
};
use vstd::prelude::*;

verus! {

/// The state that checks alone lead to: the limit and the prior slots are
/// those at the start, and a key that no slot knew at the start has in the
/// current slot as many occurrences as it had checks.
proof fn lemma_checks_counted<K>(start: Counts<K>, steps: Seq<Step<K>>, key: K)
    requires
        start.unseen(key),
        rotations(steps) == 0,
        occurrences(steps, key) <= usize::MAX,
    ensures
        run(start, steps).limit == start.limit,
        run(start, steps).prior == start.prior,
        run(start, steps).prior_total(key) == 0,
        run(start, steps).current.contains_key(key) == (occurrences(steps, key) > 0),
        count_in(run(start, steps).current, key) == occurrences(steps, key),
    decreases steps.len(),
{
    lemma_total_absent(start.prior, key);
    if steps.len() > 0 {
        lemma_checks_counted(start, steps.drop_last(), key);
    }
}

/// A key that no slot knows is limited at a check exactly when `limit`
/// checks of it went before, whatever the slots hold for other keys and
/// however many checks of other keys come in between. (With a limit of 1 the
/// very first check of a key is limited already: it is left out here.)
pub proof fn admitted_until_limit<K>(start: Counts<K>, steps: Seq<Step<K>>, key: K)
    requires
        start.unseen(key),
        start.limit != 1,
        rotations(steps) == 0,
        occurrences(steps, key) <= usize::MAX,
    ensures
        run(start, steps).limited(key) == (occurrences(steps, key) >= start.limit),
{
    lemma_checks_counted(start, steps, key);
}

/// `count` checks of `key` and nothing else hold `count` checks of it and no
/// rotation.
proof fn lemma_repeated<K>(key: K, count: nat)
    ensures
        occurrences(repeated(key, count), key) == count,
        rotations(repeated(key, count)) == 0,
    decreases count,
{
    if count > 0 {
        lemma_repeated(key, (count - 1) as nat);
        assert(repeated(key, count).drop_last() =~= repeated(key, (count - 1) as nat));
    }
}

/// On a new limiter the first `limit` checks of a key are admitted, and each
/// check after them is limited until the slots are rotated: after `earlier`
/// checks of the key the next one is limited exactly when `earlier` is
/// `limit` or more. (A limit of 1 is left out: there the first check is
/// limited too.)
pub proof fn first_checks_admitted<K>(limit: usize, slots: nat, key: K, earlier: nat)
    requires
        slots > 0,
        limit != 1,
        earlier <= usize::MAX,
    ensures
        run(Counts::fresh(limit, slots), repeated(key, earlier)).limited(key) == (earlier >= limit),
{
    lemma_repeated(key, earlier);
    admitted_until_limit(Counts::fresh(limit, slots), repeated(key, earlier), key);
}

/// A check of one key changes nothing for another: neither what any slot
/// holds for it nor the answer to a check of it.
pub proof fn other_key_untouched<K>(counts: Counts<K>, checked: K, other: K)
    requires
        checked != other,
    ensures
        counts.checked(checked).prior == counts.prior,
        counts.checked(checked).current.contains_key(other) == counts.current.contains_key(other),
        count_in(counts.checked(checked).current, other) == count_in(counts.current, other),
        counts.checked(checked).aggregate(other) == counts.aggregate(other),
        counts.checked(checked).limited(other) == counts.limited(other),
{
}

/// Two checks of different keys lead to the same counts in either order.
pub proof fn checks_commute<K>(counts: Counts<K>, one: K, other: K)
    requires
        one != other,
    ensures
        counts.checked(one).checked(other) == counts.checked(other).checked(one),
{
    let left = counts.checked(one).checked(other);
    let right = counts.checked(other).checked(one);
    assert(left.current =~= right.current);
}

/// A check that admits the key has counted it: the slots hold one more
/// occurrence of it afterwards.
pub proof fn admitted_check_is_counted<K>(counts: Counts<K>, key: K)
    requires
        !counts.limited(key),
    ensures
        counts.checked(key).aggregate(key) == counts.aggregate(key) + 1,
{
}

/// The answer in terms of what all slots hold for the key. A key with an
/// entry in the current slot is limited exactly when its counts have reached
/// the limit; a key without one counts as one more, so it is limited from
/// one below the limit.
pub proof fn limited_by_aggregate<K>(counts: Counts<K>, key: K)
    ensures
        counts.limited(key) == if counts.current.contains_key(key) {
            counts.aggregate(key) >= counts.limit
        } else {
            counts.aggregate(key) + 1 >= counts.limit
        },
{
}

/// A key whose counts over all slots have reached the limit is limited.
pub proof fn at_limit_is_limited<K>(counts: Counts<K>, key: K)
    requires
        counts.aggregate(key) >= counts.limit,
    ensures
        counts.limited(key),
{
}

/// Checks alone never lower what the slots hold for a key, as long as its
/// counter in the current slot stays below the largest `usize`.
proof fn lemma_checks_keep_counts<K>(start: Counts<K>, steps: Seq<Step<K>>, key: K)
    requires
        rotations(steps) == 0,
        count_in(start.current, key) + occurrences(steps, key) <= usize::MAX,
    ensures
        run(start, steps).limit == start.limit,
        run(start, steps).prior == start.prior,
        count_in(start.current, key) <= count_in(run(start, steps).current, key),
        count_in(run(start, steps).current, key) <= count_in(start.current, key) + occurrences(
            steps,
            key,
        ),
    decreases steps.len(),
{
    if steps.len() > 0 {
        lemma_checks_keep_counts(start, steps.drop_last(), key);
    }
}

/// Checks alone leave the entry of a key as it is while the prior slots hold
/// more than the limit for it.
proof fn lemma_skipped_checks<K>(start: Counts<K>, steps: Seq<Step<K>>, key: K)
    requires
        start.skips(key),
        rotations(steps) == 0,
    ensures
        run(start, steps).limit == start.limit,
        run(start, steps).prior == start.prior,
        run(start, steps).current.contains_key(key) == start.current.contains_key(key),
        run(start, steps).current.contains_key(key) ==> run(start, steps).current[key]
            == start.current[key],
    decreases steps.len(),
{
    if steps.len() > 0 {
        lemma_skipped_checks(start, steps.drop_last(), key);
    }
}

/// Between two rotations the counts of a key only grow, by one for each
/// check of it at most. (Stated for counters that stay below the largest
/// `usize`.)
pub proof fn counts_grow_between_rotations<K>(start: Counts<K>, steps: Seq<Step<K>>, key: K)
    requires
        rotations(steps) == 0,
        count_in(start.current, key) + occurrences(steps, key) <= usize::MAX,
    ensures
        start.aggregate(key) <= run(start, steps).aggregate(key),
        run(start, steps).aggregate(key) <= start.aggregate(key) + occurrences(steps, key),
{
    lemma_checks_keep_counts(start, steps, key);
}

/// Once the counts of a key have reached the limit, every further check of
/// it is limited until the slots are rotated, whatever is checked in between;
/// the counts of the key do not fall. (Stated for counters that stay below
/// the largest `usize`.)
pub proof fn saturated_stays_limited<K>(start: Counts<K>, steps: Seq<Step<K>>, key: K)
    requires
        start.aggregate(key) >= start.limit,
        rotations(steps) == 0,
        count_in(start.current, key) + occurrences(steps, key) <= usize::MAX,
    ensures
        run(start, steps).aggregate(key) >= start.aggregate(key),
        run(start, steps).limited(key),
{
    lemma_checks_keep_counts(start, steps, key);
}

/// While the prior slots alone hold more than the limit for a key, checks of
/// it are limited and count nothing: its counter in the current slot stays
/// as it is until the slots are rotated, however often the key is checked.
pub proof fn over_limit_counts_nothing<K>(start: Counts<K>, steps: Seq<Step<K>>, key: K)
    requires
        start.skips(key),
        rotations(steps) == 0,
    ensures
        start.checked(key) == start,
        run(start, steps).limited(key),
        run(start, steps).current.contains_key(key) == start.current.contains_key(key),
        count_in(run(start, steps).current, key) == count_in(start.current, key),
{
    lemma_skipped_checks(start, steps, key);
}

/// The number of checks of `key` among `steps` that were admitted, the steps
/// taken in order from `start`.
pub open spec fn admissions<K>(start: Counts<K>, steps: Seq<Step<K>>, key: K) -> nat
    decreases steps.len(),
{
    if steps.len() == 0 {
        0
    } else {
        let before = steps.drop_last();
        admissions(start, before, key) + if steps.last() == Step::Check(key) && !run(
            start,
            before,
        ).limited(key) {
            1nat
        } else {
            0nat
        }
    }
}

/// Between two rotations a key that no slot knew is admitted `limit` times
/// at most, whatever else is checked: as often as it is checked, up to
/// `limit`. (With a limit of 1 it is never admitted.) This is stated of
/// calls made one after another.
pub proof fn admissions_within_limit<K>(start: Counts<K>, steps: Seq<Step<K>>, key: K)
    requires
        start.unseen(key),
        rotations(steps) == 0,
        occurrences(steps, key) <= usize::MAX,
    ensures
        admissions(start, steps, key) <= start.limit,
        start.limit != 1 ==> admissions(start, steps, key) == if occurrences(steps, key)
            <= start.limit {
            occurrences(steps, key)
        } else {
            start.limit as nat
        },
        start.limit == 1 ==> admissions(start, steps, key) == 0,
    decreases steps.len(),
{
    if steps.len() > 0 {
        let before = steps.drop_last();
        admissions_within_limit(start, before, key);
        lemma_checks_counted(start, before, key);
    }
}

} // verus!
