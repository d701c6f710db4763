use rate_limiter::ring::{
    empty_slots, exchange, limit_reached, rotate, take_oldest, within_limit,
};
use std::collections::{HashMap, VecDeque};

#[test]
fn limit_reached_compares_the_sum() {
    assert!(!limit_reached(5, 2, 2));
    assert!(limit_reached(5, 2, 3));
    assert!(limit_reached(5, 2, 4));
    assert!(limit_reached(5, 5, 0));
    assert!(!limit_reached(5, 0, 4));
    assert!(limit_reached(0, 0, 0));
    assert!(!limit_reached(1, 0, 0));
    assert!(limit_reached(1, 0, 1));
}

#[test]
fn limit_reached_with_a_sum_beyond_usize() {
    assert!(limit_reached(usize::MAX, usize::MAX, 1));
    assert!(limit_reached(usize::MAX, 1, usize::MAX));
    assert!(limit_reached(usize::MAX, usize::MAX, usize::MAX));
    assert!(limit_reached(usize::MAX, usize::MAX, 0));
    assert!(!limit_reached(usize::MAX, usize::MAX - 1, 0));
    assert!(limit_reached(usize::MAX, usize::MAX - 1, 1));
}

fn slot_of(entries: &[(u32, usize)]) -> HashMap<u32, usize> {
    entries.iter().copied().collect()
}

#[test]
fn take_oldest_hands_out_the_front_slot_emptied() {
    let mut prior = VecDeque::new();
    prior.push_back(slot_of(&[(1, 4)]));
    prior.push_back(slot_of(&[(2, 7)]));
    let oldest = take_oldest(&mut prior);
    assert_eq!(oldest, Some(HashMap::new()));
    assert_eq!(prior.len(), 1);
    assert_eq!(prior[0], slot_of(&[(2, 7)]));
}

#[test]
fn take_oldest_of_an_empty_queue_is_none() {
    let mut prior: VecDeque<HashMap<u32, usize>> = VecDeque::new();
    assert_eq!(take_oldest(&mut prior), None);
    assert!(prior.is_empty());
}

#[test]
fn rotate_moves_the_current_slot_to_the_back() {
    let mut prior = VecDeque::new();
    prior.push_back(slot_of(&[(1, 4)]));
    prior.push_back(slot_of(&[(2, 7)]));
    let mut current = slot_of(&[(3, 9), (1, 1)]);
    rotate(&mut prior, &mut current);
    assert!(current.is_empty());
    assert_eq!(prior.len(), 2);
    assert_eq!(prior[0], slot_of(&[(2, 7)]));
    assert_eq!(prior[1], slot_of(&[(3, 9), (1, 1)]));
    rotate(&mut prior, &mut current);
    assert!(current.is_empty());
    assert_eq!(prior.len(), 2);
    assert_eq!(prior[0], slot_of(&[(3, 9), (1, 1)]));
    assert_eq!(prior[1], HashMap::new());
}

#[test]
fn rotate_without_prior_slots_empties_the_current_slot() {
    let mut prior: VecDeque<HashMap<u32, usize>> = VecDeque::new();
    let mut current = slot_of(&[(3, 9)]);
    rotate(&mut prior, &mut current);
    assert!(current.is_empty());
    assert!(prior.is_empty());
}

#[test]
fn empty_slots_makes_as_many_as_asked() {
    let slots: VecDeque<HashMap<u32, usize>> = empty_slots(3);
    assert_eq!(slots.len(), 3);
    assert!(slots.iter().all(|slot| slot.is_empty()));
    let none: VecDeque<HashMap<u32, usize>> = empty_slots(0);
    assert!(none.is_empty());
}

#[test]
fn within_limit_hands_on_sums_up_to_the_limit() {
    assert_eq!(within_limit(5, Some(0)), Some(0));
    assert_eq!(within_limit(5, Some(4)), Some(4));
    assert_eq!(within_limit(5, Some(5)), Some(5));
    assert_eq!(within_limit(5, Some(6)), None);
    assert_eq!(within_limit(5, None), None);
    assert_eq!(within_limit(0, Some(0)), Some(0));
    assert_eq!(within_limit(0, Some(1)), None);
    assert_eq!(within_limit(usize::MAX, Some(usize::MAX)), Some(usize::MAX));
    assert_eq!(within_limit(usize::MAX, None), None);
}

#[test]
fn exchange_swaps_the_slots() {
    let mut current = slot_of(&[(3, 9), (1, 1)]);
    let retired = exchange(&mut current, slot_of(&[(7, 2)]));
    assert_eq!(retired, slot_of(&[(3, 9), (1, 1)]));
    assert_eq!(current, slot_of(&[(7, 2)]));
    let retired = exchange(&mut current, HashMap::new());
    assert_eq!(retired, slot_of(&[(7, 2)]));
    assert!(current.is_empty());
}
