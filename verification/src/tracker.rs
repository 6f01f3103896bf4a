//! The cell that holds the most recently observed slot.

use vstd::prelude::*;

verus! {

/// The failure of a read from a tracker whose updater has died.
#[derive(Debug, Clone, Copy, PartialEq, Eq, Structural)]
pub struct PoisonError;

/// What a tracker holds: the latest slot it was told of, or nothing any more.
#[derive(Debug, Clone, Copy, PartialEq, Eq, Structural)]
pub enum TrackerState {
    /// The updater is alive; the field is the latest slot it has reported.
    Tracking(u64),
    /// The updater has ended abnormally. There is no way back from here.
    Poisoned,
}

impl TrackerState {
    /// What a read returns in this state.
    pub open spec fn reading(self) -> Result<u64, PoisonError> {
        match self {
            TrackerState::Tracking(slot) => Ok(slot),
            TrackerState::Poisoned => Err(PoisonError),
        }
    }

    /// The state after the updater has reported `slot`. Slots never go back,
    /// and a poisoned tracker stays poisoned.
    pub open spec fn observed(self, slot: u64) -> TrackerState {
        match self {
            TrackerState::Tracking(latest) => TrackerState::Tracking(
                if slot > latest {
                    slot
                } else {
                    latest
                },
            ),
            TrackerState::Poisoned => TrackerState::Poisoned,
        }
    }
}

/// Holds the most recently observed slot, or the mark that its updater has died.
#[derive(Debug)]
pub struct SlotTracker {
    state: TrackerState,
}

impl View for SlotTracker {
    type V = TrackerState;

    closed spec fn view(&self) -> TrackerState {
        self.state
    }
}

impl SlotTracker {
    /// A live tracker that has observed `slot`.
    pub fn new(slot: u64) -> (tracker: SlotTracker)
        ensures
            tracker@ == TrackerState::Tracking(slot),
    {
        SlotTracker { state: TrackerState::Tracking(slot) }
    }

    /// Reads the latest slot. Fails once the tracker is poisoned, and then on
    /// every later read.
    pub fn load(&self) -> (reading: Result<u64, PoisonError>)
        ensures
            reading == self@.reading(),
    {
        match self.state {
            TrackerState::Tracking(slot) => Ok(slot),
            TrackerState::Poisoned => Err(PoisonError),
        }
    }

    /// Records a slot reported by the updater. The tracker keeps the larger of
    /// the slot it holds and `slot`; a poisoned tracker ignores the report.
    pub fn observe(&mut self, slot: u64)
        ensures
            final(self)@ == old(self)@.observed(slot),
            old(self)@ is Poisoned ==> final(self)@ is Poisoned,
            old(self)@ matches TrackerState::Tracking(before) ==> (final(self)@
                matches TrackerState::Tracking(after) && before <= after && slot <= after),
    {
        match self.state {
            TrackerState::Tracking(latest) => {
                if slot > latest {
                    self.state = TrackerState::Tracking(slot);
                }
            },
            TrackerState::Poisoned => {},
        }
    }

    /// Marks the tracker as poisoned, for good.
    pub fn poison(&mut self)
        ensures
            final(self)@ == TrackerState::Poisoned,
            final(self)@.reading() == Err::<u64, PoisonError>(PoisonError),
    {
        self.state = TrackerState::Poisoned;
    }
}

} // verus!
