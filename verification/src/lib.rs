//! Prediction of the leaders around the current slot of a slot-based ledger.
//!
//! A leader holds a window of [`window::WINDOW_SIZE`] consecutive slots. From the
//! slot that a [`tracker::SlotTracker`] last observed, the predictor picks the
//! window before the current one, the current one and the windows that follow,
//! and asks a [`schedule::LeaderSchedule`] for the leader of each.

pub mod window;
pub mod tracker;
pub mod schedule;
pub mod predictor;

pub use predictor::YellowstoneUpcomingLeader;
pub use schedule::{LeaderSchedule, LookupError, ScheduleEntry};
pub use tracker::{PoisonError, SlotTracker, TrackerState};
pub use window::WINDOW_SIZE;
