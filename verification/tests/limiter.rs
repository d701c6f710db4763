use rate_limiter::limiter::{count_any, count_known, sum_counters};
use rate_limiter::RateLimiter;
use std::collections::{HashMap, VecDeque};
use std::sync::atomic::{AtomicUsize, Ordering};
use std::sync::Arc;

fn expect(limiter: &RateLimiter<u32>, key: u32, n: usize, limited: bool) {
    for i in 0..n {
        assert_eq!(limiter.check_limited(key), limited, "key {} call {}", key, i);
    }
}

#[test]
fn test() {
    let slots = 10;
    let limit = slots * 10;
    let rate_limiter = RateLimiter::<u32>::new(limit, slots);

    let check_attempts = |key: u32, n: usize, expect: bool| {
        for _ in 0..n {
            assert_eq!(
                rate_limiter.check_limited(key.clone()),
                expect,
                "Check: limited[{}] == {}",
                key,
                expect,
            );
        }
    };

    // Check limit reached in 1 slot for key 0
    check_attempts(0, limit, false);
    check_attempts(0, slots * 2, true);
    // Check limit not reached for key 1
    check_attempts(1, limit, false);
    // Reset
    for _ in 0..limit {
        rate_limiter.rotate_slots();
    }
    for _ in 0..3 {
        // Run 2 full cycles where each slot is maxed out with even distribution for key 0
        for _ in 0..(slots * 2) {
            check_attempts(0, limit / slots, false);
            // Check limit not reached for key 1
            check_attempts(1, limit / slots, false);
            rate_limiter.rotate_slots();
        }
        // Fill current slot for key 0
        check_attempts(0, slots, false);
        // Check limit reached for key 0, additional counts should not be tracked
        check_attempts(0, slots + 3, true);
        rate_limiter.rotate_slots();
        // Check limit still reached for key 0
        check_attempts(0, slots, true);
        rate_limiter.rotate_slots();
        rate_limiter.rotate_slots();
        // Check limit no longer reached after two rotations
        check_attempts(0, slots, false);
        rate_limiter.rotate_slots();
    }
}

#[test]
fn limiter_admits_first_calls_up_to_limit() {
    let limiter = RateLimiter::<u32>::new(5, 4);
    expect(&limiter, 9, 5, false);
    expect(&limiter, 9, 7, true);
}

#[test]
fn limiter_keys_do_not_interfere() {
    let limiter = RateLimiter::<u32>::new(3, 2);
    expect(&limiter, 1, 3, false);
    expect(&limiter, 1, 10, true);
    expect(&limiter, 2, 3, false);
    expect(&limiter, 2, 1, true);
    // interleaved
    let limiter = RateLimiter::<u32>::new(3, 2);
    for _ in 0..3 {
        assert!(!limiter.check_limited(1));
        assert!(!limiter.check_limited(2));
    }
    assert!(limiter.check_limited(1));
    assert!(limiter.check_limited(2));
    assert!(!limiter.check_limited(3));
}

#[test]
fn limiter_forgets_a_key_after_a_full_turn() {
    let slots = 3;
    let limiter = RateLimiter::<u32>::new(4, slots);
    expect(&limiter, 7, 4, false);
    expect(&limiter, 7, 2, true);
    // one rotation short of a full turn: the counts are still in the oldest slot
    limiter.rotate_slots();
    limiter.rotate_slots();
    expect(&limiter, 7, 1, true);
    // that check counted nothing, so one more rotation clears the key
    limiter.rotate_slots();
    expect(&limiter, 7, 4, false);
    expect(&limiter, 7, 1, true);
}

#[test]
fn limiter_other_keys_checked_while_a_key_ages_out() {
    let limiter = RateLimiter::<u32>::new(2, 2);
    expect(&limiter, 1, 2, false);
    expect(&limiter, 1, 1, true);
    limiter.rotate_slots();
    expect(&limiter, 2, 2, false);
    limiter.rotate_slots();
    expect(&limiter, 1, 2, false);
    expect(&limiter, 2, 1, true);
}

#[test]
fn limiter_saturated_key_stays_limited() {
    let limiter = RateLimiter::<u32>::new(3, 3);
    expect(&limiter, 5, 3, false);
    expect(&limiter, 5, 50, true);
    // 53 occurrences are on record in one slot; as a prior slot it limits the key alone
    limiter.rotate_slots();
    expect(&limiter, 5, 50, true);
    limiter.rotate_slots();
    expect(&limiter, 5, 50, true);
    // nothing was counted meanwhile, so the third rotation frees the key
    limiter.rotate_slots();
    expect(&limiter, 5, 3, false);
}

#[test]
fn limiter_hundred_per_ten_slots() {
    let limiter = RateLimiter::<u32>::new(100, 10);
    expect(&limiter, 0, 100, false);
    expect(&limiter, 0, 20, true);
    expect(&limiter, 1, 100, false);
    for _ in 0..10 {
        limiter.rotate_slots();
    }
    // ten per slot for two full turns
    for _ in 0..20 {
        expect(&limiter, 0, 10, false);
        limiter.rotate_slots();
    }
    // nine prior slots hold 90
    expect(&limiter, 0, 10, false);
    expect(&limiter, 0, 13, true);
    limiter.rotate_slots();
    // 80 + 23 in the prior slots
    expect(&limiter, 0, 10, true);
    limiter.rotate_slots();
    limiter.rotate_slots();
    // 60 + 23 in the prior slots
    expect(&limiter, 0, 10, false);
}

#[test]
fn limiter_with_limit_zero_limits_every_call() {
    let limiter = RateLimiter::<u32>::new(0, 3);
    expect(&limiter, 1, 3, true);
    limiter.rotate_slots();
    expect(&limiter, 1, 3, true);
    expect(&limiter, 2, 1, true);
}

#[test]
fn limiter_with_limit_one_limits_the_first_call() {
    let limiter = RateLimiter::<u32>::new(1, 3);
    expect(&limiter, 1, 3, true);
}

#[test]
fn limiter_with_limit_two_admits_two() {
    let limiter = RateLimiter::<u32>::new(2, 1);
    expect(&limiter, 1, 2, false);
    expect(&limiter, 1, 2, true);
}

#[test]
fn limiter_with_one_slot_forgets_on_each_rotation() {
    let limiter = RateLimiter::<u32>::new(2, 1);
    expect(&limiter, 1, 2, false);
    expect(&limiter, 1, 3, true);
    limiter.rotate_slots();
    expect(&limiter, 1, 2, false);
    expect(&limiter, 1, 1, true);
    limiter.rotate_slots();
    limiter.rotate_slots();
    expect(&limiter, 1, 2, false);
}

#[test]
fn limiter_handle_can_be_cloned() {
    let limiter = RateLimiter::<u32>::new(3, 2);
    let other = Arc::clone(&limiter);
    assert!(!limiter.check_limited(1));
    assert!(!other.check_limited(1));
    assert!(!limiter.check_limited(1));
    assert!(other.check_limited(1));
    other.rotate_slots();
    assert!(limiter.check_limited(1));
}

#[test]
fn limiter_with_string_keys() {
    let limiter = RateLimiter::<String>::new(2, 2);
    assert!(!limiter.check_limited(String::from("a")));
    assert!(!limiter.check_limited(String::from("a")));
    assert!(limiter.check_limited(String::from("a")));
    assert!(!limiter.check_limited(String::from("b")));
}

fn load(counter: &AtomicUsize) -> usize {
    counter.load(Ordering::Relaxed)
}

fn slot_of(entries: &[(u32, usize)]) -> HashMap<u32, AtomicUsize> {
    let mut slot = HashMap::new();
    for (key, count) in entries {
        slot.insert(*key, AtomicUsize::new(*count));
    }
    slot
}

#[test]
fn sum_counters_adds_the_slots_that_know_the_key() {
    let mut prior = VecDeque::new();
    prior.push_back(slot_of(&[(1, 4), (2, 10)]));
    prior.push_back(slot_of(&[(2, 7)]));
    prior.push_back(slot_of(&[(1, 5)]));
    assert_eq!(sum_counters(&prior, &1, load), Some(9));
    assert_eq!(sum_counters(&prior, &2, load), Some(17));
    assert_eq!(sum_counters(&prior, &3, load), Some(0));
}

#[test]
fn sum_counters_of_no_slots_is_zero() {
    let prior: VecDeque<HashMap<u32, AtomicUsize>> = VecDeque::new();
    assert_eq!(sum_counters(&prior, &1, load), Some(0));
}

#[test]
fn sum_counters_beyond_usize_is_none() {
    let mut prior = VecDeque::new();
    prior.push_back(slot_of(&[(1, usize::MAX)]));
    prior.push_back(slot_of(&[(1, 1)]));
    assert_eq!(sum_counters(&prior, &1, load), None);
    prior.pop_back();
    assert_eq!(sum_counters(&prior, &1, load), Some(usize::MAX));
}

#[test]
fn sum_counters_reads_each_counter_of_the_key_once() {
    let mut prior = VecDeque::new();
    prior.push_back(slot_of(&[(1, 4), (2, 10)]));
    prior.push_back(slot_of(&[(2, 7)]));
    prior.push_back(slot_of(&[(1, 5)]));
    let reads = AtomicUsize::new(0);
    let sum = sum_counters(&prior, &1, |counter: &AtomicUsize| {
        reads.fetch_add(1, Ordering::Relaxed);
        counter.fetch_add(1, Ordering::Relaxed)
    });
    assert_eq!(sum, Some(9));
    assert_eq!(reads.load(Ordering::Relaxed), 2);
    assert_eq!(sum_counters(&prior, &1, load), Some(11));
    assert_eq!(sum_counters(&prior, &2, load), Some(17));
}

#[test]
fn sum_counters_with_plain_counts() {
    let mut prior: VecDeque<HashMap<u32, usize>> = VecDeque::new();
    prior.push_back([(1, 4), (2, 10)].into_iter().collect());
    prior.push_back([(1, 6)].into_iter().collect());
    assert_eq!(sum_counters(&prior, &1, |count: &usize| *count), Some(10));
    assert_eq!(sum_counters(&prior, &2, |count: &usize| *count), Some(10));
    assert_eq!(sum_counters(&prior, &3, |count: &usize| *count), Some(0));
    assert_eq!(sum_counters(&prior, &1, |count: &usize| *count * 2), Some(20));
}

#[test]
fn sum_counters_beyond_usize_in_the_middle_is_none() {
    let mut prior = VecDeque::new();
    prior.push_back(slot_of(&[(1, usize::MAX)]));
    prior.push_back(slot_of(&[(1, 2)]));
    prior.push_back(slot_of(&[(1, 0)]));
    prior.push_back(slot_of(&[(2, 1)]));
    assert_eq!(sum_counters(&prior, &1, load), None);
    assert_eq!(sum_counters(&prior, &2, load), Some(1));
}

#[test]
fn count_known_counts_only_known_keys() {
    let slot = slot_of(&[(1, 4)]);
    assert_eq!(count_known(&slot, &1), Some(4));
    assert_eq!(count_known(&slot, &1), Some(5));
    assert_eq!(slot[&1].load(Ordering::Relaxed), 6);
    assert_eq!(count_known(&slot, &2), None);
    assert_eq!(slot.len(), 1);
}

#[test]
fn count_any_starts_new_keys_at_one() {
    let mut slot = slot_of(&[(1, 4)]);
    assert_eq!(count_any(&mut slot, 2), 1);
    assert_eq!(slot[&2].load(Ordering::Relaxed), 1);
    assert_eq!(count_any(&mut slot, 2), 1);
    assert_eq!(slot[&2].load(Ordering::Relaxed), 2);
    assert_eq!(count_any(&mut slot, 2), 2);
    assert_eq!(count_any(&mut slot, 1), 4);
    assert_eq!(slot[&1].load(Ordering::Relaxed), 5);
    assert_eq!(slot.len(), 2);
}

#[test]
fn count_known_wraps_at_the_largest_count() {
    let slot = slot_of(&[(1, usize::MAX)]);
    assert_eq!(count_known(&slot, &1), Some(usize::MAX));
    assert_eq!(count_known(&slot, &1), Some(0));
}
