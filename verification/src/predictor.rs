//! The predictor of upcoming leaders.

use crate::schedule::{
    is_order_witness, lemma_resolved_len, lemma_resolved_order, passed_over, resolved,
    LeaderSchedule, ScheduleEntry,
};
use crate::tracker::{PoisonError, SlotTracker, TrackerState};
use crate::window::{candidate_boundaries, candidates, candidates_in_range, lemma_candidates};
use solana_pubkey::Pubkey;
use std::sync::Arc;
use vstd::prelude::*;

verus! {

/// The leaders predicted around `slot` by a schedule with these entries: those
/// of the `n` candidate windows for `slot` that the schedule knows, in the
/// order of the windows.
pub open spec fn predicted(slot: u64, entries: Map<u64, ScheduleEntry>, n: nat) -> Seq<Pubkey> {
    resolved(entries, candidates(slot, n))
}

/// What a prediction of `n` leaders gives for a tracker in `state` and a
/// schedule with these entries. Nothing is asked of either where `n` is 0;
/// otherwise a poisoned tracker makes the whole prediction fail.
pub open spec fn prediction(state: TrackerState, entries: Map<u64, ScheduleEntry>, n: nat) -> Result<
    Seq<Pubkey>,
    PoisonError,
> {
    if n == 0 {
        Ok(Seq::empty())
    } else {
        match state {
            TrackerState::Tracking(slot) => Ok(predicted(slot, entries, n)),
            TrackerState::Poisoned => Err(PoisonError),
        }
    }
}

/// The outcome of a prediction with the leaders as a sequence.
pub open spec fn outcome_view(outcome: Result<Vec<Pubkey>, PoisonError>) -> Result<
    Seq<Pubkey>,
    PoisonError,
> {
    match outcome {
        Ok(leaders) => Ok(leaders@),
        Err(error) => Err(error),
    }
}

/// The predicted leaders come in the order of their windows: of two leaders in
/// the result, the earlier one belongs to the window with the smaller boundary.
/// The positions returned name, for each leader, its window among the `n`
/// candidates.
pub proof fn lemma_predicted_order(slot: u64, entries: Map<u64, ScheduleEntry>, n: nat) -> (positions:
    Seq<int>)
    requires
        candidates_in_range(slot, n),
    ensures
        is_order_witness(entries, candidates(slot, n), predicted(slot, entries, n), positions),
        forall|j: int, k: int|
            0 <= j < k < positions.len() ==> candidates(slot, n)[#[trigger] positions[j]]
                < candidates(slot, n)[#[trigger] positions[k]],
{
    lemma_candidates(slot, n);
    lemma_resolved_order(entries, candidates(slot, n))
}

/// A prediction depends on nothing but the tracker's state, the schedule's
/// entries and `n`: two calls that find these unchanged return the same
/// leaders in the same order, or fail alike.
pub proof fn lemma_prediction_repeats(
    first: YellowstoneUpcomingLeader,
    second: YellowstoneUpcomingLeader,
    n: usize,
    first_outcome: Result<Vec<Pubkey>, PoisonError>,
    second_outcome: Result<Vec<Pubkey>, PoisonError>,
)
    requires
        first.slot_tracker@ == second.slot_tracker@,
        first.managed_schedule@ == second.managed_schedule@,
        first.may_return(n, first_outcome),
        second.may_return(n, second_outcome),
    ensures
        outcome_view(first_outcome) == outcome_view(second_outcome),
{
}

/// `Arc::clone`, which hands out one more handle to the value that `handle`
/// points to. Nothing is copied, so the new handle points to that same value.
#[verifier::external_body]
fn share<T>(handle: &Arc<T>) -> (shared: Arc<T>)
    ensures
        shared == *handle,
{
    Arc::clone(handle)
}

/// Predicts the leaders around the current slot: the previous one, the current
/// one and those that follow. It holds shared handles to a slot tracker and to
/// a leader schedule and changes neither.
pub struct YellowstoneUpcomingLeader {
    pub slot_tracker: Arc<SlotTracker>,
    pub managed_schedule: Arc<LeaderSchedule>,
}

impl YellowstoneUpcomingLeader {
    /// Whether the `n` candidate windows for the tracker's slot all start at a
    /// slot that fits in 64 bits. This holds of any `n` where the tracker is
    /// poisoned or `n` is 0.
    pub open spec fn in_range(&self, n: nat) -> bool {
        self.slot_tracker@ matches TrackerState::Tracking(slot) ==> candidates_in_range(slot, n)
    }

    /// Whether `outcome` is what a prediction of `n` leaders returns from this
    /// predictor.
    pub open spec fn may_return(&self, n: usize, outcome: Result<Vec<Pubkey>, PoisonError>) -> bool {
        outcome_view(outcome) == prediction(self.slot_tracker@, self.managed_schedule@, n as nat)
    }

    /// Returns the leaders of up to `n` windows, starting one window before
    /// the one that holds the tracker's slot. Windows whose leader the schedule
    /// does not know, or fails to look up, are left out, so the result may be
    /// shorter than `n`. With `n` at 0 the result is empty whatever the tracker
    /// holds; otherwise a poisoned tracker fails the call.
    pub fn try_predict_next_n_leaders(&self, n: usize) -> (outcome: Result<Vec<Pubkey>, PoisonError>)
        requires
            self.in_range(n as nat),
        ensures
            self.may_return(n, outcome),
            n == 0 ==> outcome_view(outcome) == Ok::<Seq<Pubkey>, PoisonError>(Seq::empty()),
            outcome is Err <==> n > 0 && self.slot_tracker@ is Poisoned,
            outcome matches Ok(leaders) ==> leaders@.len() <= n,
            self.slot_tracker@ matches TrackerState::Tracking(slot) ==> (outcome matches Ok(leaders)
                ==> leaders@.len() == n - passed_over(
                    self.managed_schedule@,
                    candidates(slot, n as nat),
                ).len()),
            self.slot_tracker@ matches TrackerState::Tracking(slot) ==> (outcome matches Ok(leaders)
                ==> exists|positions: Seq<int>| #[trigger] is_order_witness(
                    self.managed_schedule@,
                    candidates(slot, n as nat),
                    leaders@,
                    positions,
                )),
    {
        if n == 0 {
            proof {
                if let TrackerState::Tracking(slot) = self.slot_tracker@ {
                    lemma_resolved_len(self.managed_schedule@, candidates(slot, 0));
                    let positions = lemma_resolved_order(
                        self.managed_schedule@,
                        candidates(slot, 0),
                    );
                    assert(is_order_witness(
                        self.managed_schedule@,
                        candidates(slot, 0),
                        Seq::<Pubkey>::empty(),
                        positions,
                    ));
                }
            }
            return Ok(Vec::new());
        }
        let slot: u64 = match self.slot_tracker.load() {
            Ok(slot) => slot,
            Err(error) => {
                return Err(error);
            },
        };
        let boundaries: Vec<u64> = candidate_boundaries(slot, n);
        let leaders: Vec<Pubkey> = self.managed_schedule.resolve(boundaries.as_slice());
        Ok(leaders)
    }
}

impl Clone for YellowstoneUpcomingLeader {
    /// A second predictor on the same tracker and the same schedule. Only the
    /// two handles are duplicated.
    fn clone(&self) -> (copy: YellowstoneUpcomingLeader)
        ensures
            copy == *self,
    {
        YellowstoneUpcomingLeader {
            slot_tracker: share(&self.slot_tracker),
            managed_schedule: share(&self.managed_schedule),
        }
    }
}

} // verus!
