use std::time::{Duration, Instant};

use keyclack::input::{dispatch_key_event, KeyEvent};
use keyclack::press_tracker::{PressTracker, STALE_AFTER_NANOS};

#[test]
fn first_press_sounds() {
    let mut t = PressTracker::new();
    assert_eq!(t.on_down(10), true);
}

#[test]
fn repeat_press_silent() {
    let mut t = PressTracker::new();
    assert_eq!(t.on_down(10), true);
    assert_eq!(t.on_down(10), false);
}

#[test]
fn press_after_release_sounds() {
    let mut t = PressTracker::new();
    assert_eq!(t.on_down(10), true);
    t.on_up(10);
    assert_eq!(t.on_down(10), true);
}

#[test]
fn distinct_keys_independent() {
    let mut t = PressTracker::new();
    assert_eq!(t.on_down(10), true);
    assert_eq!(t.on_down(11), true);
}

#[test]
fn unmatched_up_is_ignored() {
    let mut t = PressTracker::new();
    t.on_up(99);
    assert_eq!(t.held_count(), 0);
}

#[test]
fn stale_key_is_swept() {
    let mut t = PressTracker::new();
    let past = Instant::now() - Duration::from_secs(6);
    t.insert_at(10, past);
    assert_eq!(t.on_down(10), true);
}

#[test]
fn explicit_times_follow_the_stale_window() {
    let mut t = PressTracker::new();
    assert!(t.on_down_at(5, 1_000));
    assert!(!t.on_down_at(5, 1_000 + STALE_AFTER_NANOS - 1));
    assert!(t.on_down_at(5, 1_000 + STALE_AFTER_NANOS));
    assert_eq!(t.held_count(), 1);
}

#[test]
fn repeat_press_does_not_refresh_the_hold() {
    let mut t = PressTracker::new();
    assert!(t.on_down_at(7, 0));
    assert!(!t.on_down_at(7, 4_000_000_000));
    assert!(t.on_down_at(7, 5_000_000_000));
}

#[test]
fn sweep_removes_other_stale_keys() {
    let mut t = PressTracker::new();
    assert!(t.on_down_at(1, 0));
    assert!(t.on_down_at(2, 4_000_000_000));
    assert_eq!(t.held_count(), 2);
    assert!(t.on_down_at(3, 6_000_000_000));
    assert_eq!(t.held_count(), 2);
    assert!(!t.on_down_at(2, 6_000_000_001));
}

#[test]
fn press_time_earlier_than_the_hold_counts_as_fresh() {
    let mut t = PressTracker::new();
    assert!(t.on_down_at(4, 100));
    assert!(!t.on_down_at(4, -1_000_000_000_000));
}

#[test]
fn release_then_press_at_same_time_sounds() {
    let mut t = PressTracker::new();
    assert!(t.on_down_at(8, 50));
    t.on_up(8);
    assert_eq!(t.held_count(), 0);
    assert!(t.on_down_at(8, 50));
}

#[test]
fn dispatch_plays_only_unmuted_first_presses() {
    let mut t = PressTracker::new();
    assert!(dispatch_key_event(&mut t, KeyEvent::Down(3), false));
    assert!(!dispatch_key_event(&mut t, KeyEvent::Down(3), false));
    assert!(!dispatch_key_event(&mut t, KeyEvent::Up(3), false));
    assert_eq!(t.held_count(), 0);
    assert!(!dispatch_key_event(&mut t, KeyEvent::Down(3), true));
    assert_eq!(t.held_count(), 1);
    assert!(!dispatch_key_event(&mut t, KeyEvent::Down(3), false));
}
