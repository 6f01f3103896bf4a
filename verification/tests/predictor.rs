use solana_pubkey::Pubkey;
use std::sync::Arc;
use upcoming_leader::{LeaderSchedule, PoisonError, SlotTracker, YellowstoneUpcomingLeader};

fn leader(tag: u8) -> Pubkey {
    Pubkey::new_from_array([tag; 32])
}

fn predictor(tracker: SlotTracker, schedule: LeaderSchedule) -> YellowstoneUpcomingLeader {
    YellowstoneUpcomingLeader {
        slot_tracker: Arc::new(tracker),
        managed_schedule: Arc::new(schedule),
    }
}

fn is_send_and_sync<T: Send + Sync>() -> bool {
    true
}

fn full_schedule(windows: u8) -> LeaderSchedule {
    let mut schedule = LeaderSchedule::new();
    for window in 0..windows {
        schedule.set_leader(4 * window as u64, leader(window));
    }
    schedule
}

#[test]
fn zero_leaders_is_empty() {
    let upcoming = predictor(SlotTracker::new(10), full_schedule(8));
    assert_eq!(upcoming.try_predict_next_n_leaders(0), Ok(vec![]));
}

#[test]
fn zero_leaders_is_empty_even_when_poisoned() {
    let mut tracker = SlotTracker::new(10);
    tracker.poison();
    let mut schedule = full_schedule(8);
    schedule.set_unavailable(4);
    let upcoming = predictor(tracker, schedule);
    assert_eq!(upcoming.try_predict_next_n_leaders(0), Ok(vec![]));
}

#[test]
fn poisoned_tracker_fails_the_prediction() {
    let mut tracker = SlotTracker::new(10);
    tracker.poison();
    let upcoming = predictor(tracker, full_schedule(8));
    assert_eq!(upcoming.try_predict_next_n_leaders(1), Err(PoisonError));
    assert_eq!(upcoming.try_predict_next_n_leaders(5), Err(PoisonError));
    assert_eq!(upcoming.try_predict_next_n_leaders(usize::MAX), Err(PoisonError));
}

#[test]
fn unknown_window_in_the_middle_is_dropped() {
    let (a, b, c, e) = (leader(1), leader(2), leader(3), leader(5));
    let mut schedule = LeaderSchedule::new();
    schedule.set_leader(4, a);
    schedule.set_leader(8, b);
    schedule.set_leader(12, c);
    schedule.set_leader(20, e);
    let upcoming = predictor(SlotTracker::new(10), schedule);
    assert_eq!(upcoming.try_predict_next_n_leaders(5), Ok(vec![a, b, c, e]));
}

#[test]
fn slot_in_the_first_window_starts_at_zero() {
    let upcoming = predictor(SlotTracker::new(3), full_schedule(8));
    assert_eq!(upcoming.try_predict_next_n_leaders(2), Ok(vec![leader(0), leader(1)]));
}

#[test]
fn previous_leader_comes_first() {
    let upcoming = predictor(SlotTracker::new(10), full_schedule(8));
    assert_eq!(upcoming.try_predict_next_n_leaders(1), Ok(vec![leader(1)]));
    assert_eq!(upcoming.try_predict_next_n_leaders(2), Ok(vec![leader(1), leader(2)]));
    assert_eq!(
        upcoming.try_predict_next_n_leaders(5),
        Ok(vec![leader(1), leader(2), leader(3), leader(4), leader(5)])
    );
}

#[test]
fn every_slot_of_a_window_gives_the_same_prediction() {
    let schedule = Arc::new(full_schedule(8));
    for slot in 8..12u64 {
        let upcoming = YellowstoneUpcomingLeader {
            slot_tracker: Arc::new(SlotTracker::new(slot)),
            managed_schedule: Arc::clone(&schedule),
        };
        assert_eq!(
            upcoming.try_predict_next_n_leaders(3),
            Ok(vec![leader(1), leader(2), leader(3)])
        );
    }
}

#[test]
fn failed_lookup_is_dropped_and_the_rest_goes_on() {
    let mut schedule = full_schedule(8);
    schedule.set_unavailable(8);
    let upcoming = predictor(SlotTracker::new(10), schedule);
    assert_eq!(
        upcoming.try_predict_next_n_leaders(4),
        Ok(vec![leader(1), leader(3), leader(4)])
    );
}

#[test]
fn result_is_shorter_by_the_windows_passed_over() {
    let mut schedule = full_schedule(4);
    schedule.set_unavailable(4);
    let upcoming = predictor(SlotTracker::new(10), schedule);
    // Windows 4 to 28: one fails, 8 and 12 are known, the four from 16 on are not covered.
    let leaders = upcoming.try_predict_next_n_leaders(7).unwrap();
    assert_eq!(leaders.len(), 7 - 5);
    assert_eq!(leaders, vec![leader(2), leader(3)]);
}

#[test]
fn nothing_known_gives_an_empty_result() {
    let upcoming = predictor(SlotTracker::new(10), LeaderSchedule::new());
    assert_eq!(upcoming.try_predict_next_n_leaders(5), Ok(vec![]));
}

#[test]
fn same_leader_in_consecutive_windows_is_kept_twice() {
    let mut schedule = LeaderSchedule::new();
    schedule.set_leader(4, leader(7));
    schedule.set_leader(8, leader(7));
    schedule.set_leader(12, leader(9));
    schedule.set_leader(16, leader(7));
    let upcoming = predictor(SlotTracker::new(10), schedule);
    assert_eq!(
        upcoming.try_predict_next_n_leaders(4),
        Ok(vec![leader(7), leader(7), leader(9), leader(7)])
    );
}

#[test]
fn two_calls_return_the_same() {
    let mut schedule = full_schedule(6);
    schedule.set_unavailable(12);
    let upcoming = predictor(SlotTracker::new(10), schedule);
    let first = upcoming.try_predict_next_n_leaders(6);
    let second = upcoming.try_predict_next_n_leaders(6);
    assert_eq!(first, second);
    assert_eq!(first, Ok(vec![leader(1), leader(2), leader(4), leader(5)]));
}

#[test]
fn prediction_follows_the_tracker() {
    let mut tracker = SlotTracker::new(10);
    tracker.observe(17);
    let upcoming = predictor(tracker, full_schedule(8));
    assert_eq!(
        upcoming.try_predict_next_n_leaders(3),
        Ok(vec![leader(3), leader(4), leader(5)])
    );
}

#[test]
fn prediction_at_the_end_of_the_slot_range() {
    let mut schedule = LeaderSchedule::new();
    schedule.set_leader(u64::MAX - 7, leader(1));
    schedule.set_leader(u64::MAX - 3, leader(2));
    let upcoming = predictor(SlotTracker::new(u64::MAX), schedule);
    assert_eq!(upcoming.try_predict_next_n_leaders(2), Ok(vec![leader(1), leader(2)]));
}

#[test]
fn clone_shares_the_tracker_and_the_schedule() {
    let upcoming = predictor(SlotTracker::new(10), full_schedule(8));
    let copy = upcoming.clone();
    assert!(Arc::ptr_eq(&upcoming.slot_tracker, &copy.slot_tracker));
    assert!(Arc::ptr_eq(&upcoming.managed_schedule, &copy.managed_schedule));
    assert_eq!(Arc::strong_count(&upcoming.slot_tracker), 2);
    assert_eq!(Arc::strong_count(&upcoming.managed_schedule), 2);
    assert_eq!(
        copy.try_predict_next_n_leaders(3),
        upcoming.try_predict_next_n_leaders(3)
    );
    assert_eq!(copy.try_predict_next_n_leaders(2), Ok(vec![leader(1), leader(2)]));
}

#[test]
fn predictor_can_be_shared_between_threads() {
    assert!(is_send_and_sync::<YellowstoneUpcomingLeader>());
    assert!(is_send_and_sync::<SlotTracker>());
    assert!(is_send_and_sync::<LeaderSchedule>());
}
