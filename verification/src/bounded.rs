//! Bounded history buffer: a sliding window of the most recent samples.

use vstd::prelude::*;
use std::collections::VecDeque;
use crate::types::MAX_LEN;

verus! {

/// What one bounded push does to a window's contents: append the sample,
/// evicting the oldest one first when the window is full.
pub open spec fn push_bounded_spec<T>(s: Seq<T>, item: T) -> Seq<T> {
    if s.len() == MAX_LEN {
        s.subrange(1, s.len() as int).push(item)
    } else {
        s.push(item)
    }
}

/// The contents of a window after pushing every sample of `samples`, in
/// order, into an initially empty buffer.
pub open spec fn pushed_all<T>(samples: Seq<T>) -> Seq<T>
    decreases samples.len(),
{
    if samples.len() == 0 {
        Seq::empty()
    } else {
        push_bounded_spec(pushed_all(samples.drop_last()), samples.last())
    }
}

/// How many of `n` pushed samples the window retains.
pub open spec fn window_len(n: int) -> int {
    if n <= MAX_LEN {
        n
    } else {
        MAX_LEN as int
    }
}

/// Append one sample to the window; if the window already holds `MAX_LEN`
/// samples the oldest is evicted first, so the length never passes the cap.
pub fn push_bounded<T>(queue: &mut VecDeque<T>, item: T)
    ensures
        final(queue)@ == push_bounded_spec(old(queue)@, item),
        old(queue)@.len() <= MAX_LEN ==> final(queue)@.len() <= MAX_LEN,
{
    if queue.len() == MAX_LEN {
        queue.pop_front();
    }
    queue.push_back(item);
}

/// After any sequence of pushes into an initially empty window, the window
/// holds the last `min(N, MAX_LEN)` of the `N` pushed samples, in push order.
pub proof fn lemma_pushed_all_window<T>(samples: Seq<T>)
    ensures
        pushed_all(samples).len() == window_len(samples.len() as int),
        pushed_all(samples) == samples.subrange(
            samples.len() - window_len(samples.len() as int),
            samples.len() as int,
        ),
    decreases samples.len(),
{
    if samples.len() == 0 {
        assert(pushed_all(samples) =~= samples.subrange(0, 0));
    } else {
        let prefix = samples.drop_last();
        lemma_pushed_all_window(prefix);
        let m0 = window_len(prefix.len() as int);
        let m = window_len(samples.len() as int);
        if m0 < MAX_LEN {
            assert(pushed_all(samples) =~= samples.subrange(samples.len() - m, samples.len() as int));
        } else {
            assert(pushed_all(samples) =~= samples.subrange(samples.len() - m, samples.len() as int));
        }
    }
}

} // verus!
