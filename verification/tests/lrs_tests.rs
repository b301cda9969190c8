use voice_core::lrs::LrsTracker;

#[test]
fn empty_tracker_returns_none() {
    let tracker = LrsTracker::new();
    assert!(tracker.find_least_recently_spoken().is_none());
    assert!(tracker.is_empty());
}

#[test]
fn single_user() {
    let mut tracker = LrsTracker::new();
    tracker.update_activity(1001, 100, 0);

    assert_eq!(tracker.len(), 1);
    assert_eq!(tracker.find_least_recently_spoken(), Some(1001));
}

#[test]
fn least_recently_spoken_is_oldest() {
    let mut tracker = LrsTracker::new();

    tracker.update_activity(1001, 100, 0);
    tracker.update_activity(1002, 200, 10);
    tracker.update_activity(1003, 300, 20);

    // The first speaker is the least recently spoken.
    assert_eq!(tracker.find_least_recently_spoken(), Some(1001));
}

#[test]
fn update_refreshes_timestamp() {
    let mut tracker = LrsTracker::new();

    tracker.update_activity(1001, 100, 0);
    tracker.update_activity(1002, 200, 10);

    // The first speaker speaks again and is refreshed.
    tracker.update_activity(1001, 100, 20);

    assert_eq!(tracker.find_least_recently_spoken(), Some(1002));
}

#[test]
fn remove_clears_entry() {
    let mut tracker = LrsTracker::new();
    tracker.update_activity(1001, 100, 0);
    tracker.update_activity(1002, 200, 1);

    tracker.remove(1001);
    assert_eq!(tracker.len(), 1);
    assert_eq!(tracker.find_least_recently_spoken(), Some(1002));
}

#[test]
fn remove_nonexistent_is_noop() {
    let mut tracker = LrsTracker::new();
    tracker.update_activity(1001, 100, 0);
    tracker.remove(9999);
    assert_eq!(tracker.len(), 1);
}

#[test]
fn eviction_scenario() {
    // Four speakers are active; admitting a fifth evicts the oldest.
    let mut tracker = LrsTracker::new();

    tracker.update_activity(1001, 100, 0);
    tracker.update_activity(1002, 200, 5);
    tracker.update_activity(1003, 300, 10);
    tracker.update_activity(1004, 400, 15);

    assert_eq!(tracker.len(), 4);

    let lrs = tracker.find_least_recently_spoken().unwrap();
    assert_eq!(lrs, 1001);
    tracker.remove(lrs);

    tracker.update_activity(1005, 500, 20);
    assert_eq!(tracker.len(), 4);

    assert_eq!(tracker.find_least_recently_spoken(), Some(1002));
}

#[test]
fn accept_speaker_evicts_oldest_when_full() {
    // Three speakers fill the bound; a fourth gets in by evicting the
    // oldest.
    let mut tracker = LrsTracker::new();
    assert_eq!(tracker.accept_speaker(1001, 100, 0, 3), None);
    assert_eq!(tracker.accept_speaker(1002, 200, 5, 3), None);
    assert_eq!(tracker.accept_speaker(1003, 300, 10, 3), None);
    assert_eq!(tracker.len(), 3);

    let evicted = tracker.accept_speaker(1004, 400, 15, 3);
    assert_eq!(evicted, Some(1001));
    assert_eq!(tracker.len(), 3);
    assert_eq!(tracker.find_least_recently_spoken(), Some(1002));
}

#[test]
fn accept_speaker_refreshes_known_speaker() {
    let mut tracker = LrsTracker::new();
    assert_eq!(tracker.accept_speaker(1001, 100, 0, 1), None);
    // The same speaker never evicts anyone, even at the bound.
    assert_eq!(tracker.accept_speaker(1001, 100, 5, 1), None);
    assert_eq!(tracker.len(), 1);
}
