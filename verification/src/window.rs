//! Arithmetic on slots and leader windows.

use vstd::prelude::*;

verus! {

/// Number of consecutive slots that one leader holds.
pub const WINDOW_SIZE: u64 = 4;

/// The first slot of the window that contains `slot`.
pub open spec fn window_start(slot: int) -> int {
    slot - slot % (WINDOW_SIZE as int)
}

/// The boundary of the window before the one that contains `slot`, or 0 where
/// `slot` lies in the very first window.
pub open spec fn first_candidate(slot: int) -> int {
    if window_start(slot) >= WINDOW_SIZE {
        window_start(slot) - WINDOW_SIZE
    } else {
        0
    }
}

/// The `i`-th candidate boundary for `slot`: `i` windows after the first one.
pub open spec fn candidate(slot: int, i: int) -> int {
    first_candidate(slot) + WINDOW_SIZE * i
}

/// Whether all of the `n` candidate boundaries for `slot` are slots, that is,
/// whether the last of them still fits in 64 bits.
pub open spec fn candidates_in_range(slot: u64, n: nat) -> bool {
    n > 0 ==> candidate(slot as int, n - 1) <= u64::MAX
}

/// The `n` candidate boundaries for `slot`, in increasing order.
pub open spec fn candidates(slot: u64, n: nat) -> Seq<u64> {
    Seq::new(n, |i: int| candidate(slot as int, i) as u64)
}

/// A window starts at a multiple of the window size and holds its slot. The
/// first candidate is the start of the window before it, so that the window of
/// `slot` is the second candidate; only in the very first window, which has
/// none before it, the first candidate is that window itself.
pub proof fn lemma_window_start(slot: int)
    requires
        0 <= slot,
    ensures
        window_start(slot) % (WINDOW_SIZE as int) == 0,
        window_start(slot) <= slot < window_start(slot) + WINDOW_SIZE,
        first_candidate(slot) % (WINDOW_SIZE as int) == 0,
        0 <= first_candidate(slot) <= window_start(slot),
        slot >= WINDOW_SIZE ==> first_candidate(slot) == window_start(slot) - WINDOW_SIZE
            && candidate(slot, 1) == window_start(slot),
        slot < WINDOW_SIZE ==> first_candidate(slot) == 0 && window_start(slot) == 0,
{
}

/// The candidate boundaries for a slot are exactly `n`, start at the first
/// candidate, lie one window apart, increase strictly and are all multiples of
/// the window size. As they differ from each other, they are `n` as a set too.
pub proof fn lemma_candidates(slot: u64, n: nat)
    requires
        candidates_in_range(slot, n),
    ensures
        candidates(slot, n).len() == n,
        forall|i: int|
            0 <= i < n ==> #[trigger] candidates(slot, n)[i] == first_candidate(slot as int)
                + WINDOW_SIZE * i,
        forall|i: int|
            0 < i < n ==> #[trigger] candidates(slot, n)[i] == candidates(slot, n)[i - 1]
                + WINDOW_SIZE,
        forall|i: int, j: int|
            0 <= i < j < n ==> #[trigger] candidates(slot, n)[i] < #[trigger] candidates(
                slot,
                n,
            )[j],
        forall|i: int| 0 <= i < n ==> #[trigger] candidates(slot, n)[i] % WINDOW_SIZE == 0,
        candidates(slot, n).no_duplicates(),
        candidates(slot, n).to_set().len() == n,
{
    lemma_window_start(slot as int);
    candidates(slot, n).unique_seq_to_set();
}

/// Computes the first slot of the window that contains `slot`.
pub fn window_boundary(slot: u64) -> (boundary: u64)
    ensures
        boundary == window_start(slot as int),
{
    let remainder: u64 = slot % WINDOW_SIZE;
    slot - remainder
}

/// Computes the boundary at which a prediction for `slot` starts: one window
/// before the current one, and never below slot 0.
pub fn start_boundary(slot: u64) -> (boundary: u64)
    ensures
        boundary == first_candidate(slot as int),
{
    window_boundary(slot).saturating_sub(WINDOW_SIZE)
}

/// Tells whether `n` candidate boundaries for `slot` can be generated without
/// leaving the range of slots.
pub fn windows_in_range(slot: u64, n: usize) -> (fits: bool)
    ensures
        fits == candidates_in_range(slot, n as nat),
{
    if n == 0 {
        return true;
    }
    let room: u64 = (u64::MAX - start_boundary(slot)) / WINDOW_SIZE;
    (n - 1) as u64 <= room
}

/// Generates the `n` candidate boundaries for `slot`: the previous window, the
/// current one, then the windows that follow.
pub fn candidate_boundaries(slot: u64, n: usize) -> (boundaries: Vec<u64>)
    requires
        candidates_in_range(slot, n as nat),
    ensures
        boundaries@ == candidates(slot, n as nat),
        boundaries@.len() == n,
        forall|i: int|
            0 <= i < n ==> #[trigger] boundaries@[i] == first_candidate(slot as int) + WINDOW_SIZE
                * i,
        forall|i: int, j: int|
            0 <= i < j < n ==> #[trigger] boundaries@[i] < #[trigger] boundaries@[j],
{
    proof {
        lemma_candidates(slot, n as nat);
    }
    let start: u64 = start_boundary(slot);
    let mut boundaries: Vec<u64> = Vec::new();
    let mut i: usize = 0;
    while i < n
        invariant
            i <= n,
            start == first_candidate(slot as int),
            candidates_in_range(slot, n as nat),
            boundaries@ == candidates(slot, i as nat),
        decreases n - i,
    {
        let offset: u64 = WINDOW_SIZE * (i as u64);
        boundaries.push(start + offset);
        i = i + 1;
    }
    boundaries
}

} // verus!
