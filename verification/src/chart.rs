//! Chart window projection: turn a rolling history of any length up to the
//! window capacity into a fixed-length series, right-justified against the
//! most recent edge and zero-padded in front, plus the axis maximum.

use vstd::prelude::*;
use std::collections::VecDeque;

verus! {

/// The largest sample in the sequence; zero for an empty sequence.
pub open spec fn seq_max(s: Seq<u64>) -> int
    decreases s.len(),
{
    if s.len() == 0 {
        0
    } else if s.last() as int >= seq_max(s.drop_last()) {
        s.last() as int
    } else {
        seq_max(s.drop_last())
    }
}

/// The value at window position `i` when a history of length `len` is
/// right-justified in a window of length `window`.
pub open spec fn projected_at(s: Seq<u64>, window: int, i: int) -> u64 {
    if i >= window - s.len() {
        s[i - (window - s.len())]
    } else {
        0u64
    }
}

/// Project a history buffer onto a fixed window: the result's first
/// component has exactly `window` entries, a zero prefix followed by the
/// buffer's samples in order against the right edge; the second component
/// is the maximum of the buffer's own contents (not of the padding), zero
/// for an empty buffer. The buffer itself is only read.
pub fn project(buffer: &VecDeque<u64>, window: usize) -> (r: (Vec<u64>, u64))
    requires
        buffer@.len() <= window,
    ensures
        r.0@.len() == window,
        forall|i: int| 0 <= i < window ==> r.0@[i] == projected_at(buffer@, window as int, i),
        r.1 as int == seq_max(buffer@),
{
    let len = buffer.len();
    let pad = window - len;
    let mut out: Vec<u64> = Vec::new();
    let mut i: usize = 0;
    while i < pad
        invariant
            i <= pad,
            out@.len() == i,
            forall|k: int| 0 <= k < i ==> out@[k] == 0u64,
        decreases pad - i,
    {
        out.push(0);
        i = i + 1;
    }
    let mut j: usize = 0;
    while j < len
        invariant
            j <= len,
            len == buffer@.len(),
            pad == window - len,
            out@.len() == pad + j,
            forall|k: int| 0 <= k < pad ==> out@[k] == 0u64,
            forall|k: int| 0 <= k < j ==> out@[pad + k] == buffer@[k],
        decreases len - j,
    {
        out.push(buffer[j]);
        j = j + 1;
    }
    let mut mx: u64 = 0;
    let mut k: usize = 0;
    proof {
        assert(buffer@.subrange(0, 0) =~= Seq::<u64>::empty());
    }
    while k < len
        invariant
            k <= len,
            len == buffer@.len(),
            mx as int == seq_max(buffer@.subrange(0, k as int)),
        decreases len - k,
    {
        let v = buffer[k];
        proof {
            assert(buffer@.subrange(0, k + 1).drop_last() =~= buffer@.subrange(0, k as int));
            assert(buffer@.subrange(0, k + 1).last() == buffer@[k as int]);
        }
        if v > mx {
            mx = v;
        }
        k = k + 1;
    }
    proof {
        assert(buffer@.subrange(0, buffer@.len() as int) =~= buffer@);
    }
    (out, mx)
}

/// Projecting an empty history gives a window of zeros and a maximum of
/// zero.
pub proof fn lemma_project_empty(s: Seq<u64>, out: Seq<u64>, window: int)
    requires
        s.len() == 0,
        out.len() == window,
        forall|i: int| 0 <= i < window ==> out[i] == projected_at(s, window, i),
    ensures
        forall|i: int| 0 <= i < window ==> out[i] == 0u64,
        seq_max(s) == 0,
{
}

/// Projecting a history that fills the window reproduces the history
/// exactly, one to one, with no padding.
pub proof fn lemma_project_full(s: Seq<u64>, out: Seq<u64>, window: int)
    requires
        s.len() == window,
        out.len() == window,
        forall|i: int| 0 <= i < window ==> out[i] == projected_at(s, window, i),
    ensures
        out == s,
{
    assert(out =~= s);
}

} // verus!
