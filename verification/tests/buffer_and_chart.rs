use std::collections::VecDeque;

use procmon::bounded::push_bounded;
use procmon::chart::project;
use procmon::types::MAX_LEN;

#[test]
fn bounded_push_below_capacity_keeps_everything() {
    let mut q: VecDeque<u64> = VecDeque::new();
    for v in 0..10u64 {
        push_bounded(&mut q, v);
    }
    assert_eq!(q.len(), 10);
    let collected: Vec<u64> = q.iter().copied().collect();
    assert_eq!(collected, (0..10u64).collect::<Vec<u64>>());
}

#[test]
fn bounded_push_evicts_oldest_at_capacity() {
    let mut q: VecDeque<u64> = VecDeque::new();
    for v in 0..70u64 {
        push_bounded(&mut q, v);
    }
    assert_eq!(q.len(), MAX_LEN);
    let collected: Vec<u64> = q.iter().copied().collect();
    assert_eq!(collected, (10..70u64).collect::<Vec<u64>>());
}

#[test]
fn bounded_push_exactly_at_capacity() {
    let mut q: VecDeque<u64> = VecDeque::new();
    for v in 0..60u64 {
        push_bounded(&mut q, v);
    }
    assert_eq!(q.len(), 60);
    assert_eq!(q.front().copied(), Some(0));
    push_bounded(&mut q, 60);
    assert_eq!(q.len(), 60);
    assert_eq!(q.front().copied(), Some(1));
    assert_eq!(q.back().copied(), Some(60));
}

#[test]
fn project_empty_buffer_gives_zeros_and_zero_max() {
    let q: VecDeque<u64> = VecDeque::new();
    let (window, max) = project(&q, 60);
    assert_eq!(window.len(), 60);
    assert!(window.iter().all(|&v| v == 0));
    assert_eq!(max, 0);
}

#[test]
fn project_full_buffer_is_identity() {
    let mut q: VecDeque<u64> = VecDeque::new();
    for v in 100..160u64 {
        q.push_back(v);
    }
    let (window, max) = project(&q, 60);
    assert_eq!(window.len(), 60);
    let contents: Vec<u64> = q.iter().copied().collect();
    assert_eq!(window, contents);
    assert_eq!(max, 159);
}

#[test]
fn project_short_buffer_right_justifies() {
    let mut q: VecDeque<u64> = VecDeque::new();
    q.push_back(7);
    q.push_back(9);
    q.push_back(5);
    let (window, max) = project(&q, 60);
    assert_eq!(window.len(), 60);
    assert!(window[..57].iter().all(|&v| v == 0));
    assert_eq!(&window[57..], &[7, 9, 5]);
    assert_eq!(max, 9);
}

#[test]
fn project_does_not_mutate_and_is_idempotent() {
    let mut q: VecDeque<u64> = VecDeque::new();
    q.push_back(3);
    q.push_back(1);
    let before: Vec<u64> = q.iter().copied().collect();
    let first = project(&q, 60);
    let after_once: Vec<u64> = q.iter().copied().collect();
    let second = project(&q, 60);
    let after_twice: Vec<u64> = q.iter().copied().collect();
    assert_eq!(before, after_once);
    assert_eq!(before, after_twice);
    assert_eq!(first, second);
}

#[test]
fn project_smaller_window() {
    let mut q: VecDeque<u64> = VecDeque::new();
    q.push_back(4);
    let (window, max) = project(&q, 5);
    assert_eq!(window, vec![0, 0, 0, 0, 4]);
    assert_eq!(max, 4);
}
