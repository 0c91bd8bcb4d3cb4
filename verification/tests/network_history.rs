use buildermon::net_history::{NetworkHistory, NET_HISTORY_POINTS};
use std::time::SystemTime;

#[test]
fn new_history_is_empty() {
    let h = NetworkHistory::new();
    let (rx, tx) = h.get_history();
    assert!(rx.is_empty());
    assert!(tx.is_empty());
    assert_eq!(h.last_counters(), (0, 0));
}

#[test]
fn first_reading_only_sets_baseline() {
    let mut h = NetworkHistory::new();
    assert!(!h.adds_point(true));
    let now = SystemTime::now();
    h.update(1000, 2000, now, true, (5, 5));
    assert_eq!(h.get_history(), (vec![], vec![]));
    assert_eq!(h.last_counters(), (1000, 2000));
    assert_eq!(h.last_update(), now);
    assert!(h.adds_point(true));
    assert!(!h.adds_point(false));
}

#[test]
fn later_readings_record_given_rates() {
    let mut h = NetworkHistory::new();
    let now = SystemTime::now();
    h.update(1000, 2000, now, true, (0, 0));
    h.update(4000, 2500, now, true, (1500, 250));
    assert_eq!(h.get_history(), (vec![1500], vec![250]));
    h.update(4001, 2500, now, true, (99, 0));
    assert_eq!(h.get_history(), (vec![1500, 99], vec![250, 0]));
}

#[test]
fn reading_without_time_passing_adds_no_point() {
    let mut h = NetworkHistory::new();
    let now = SystemTime::now();
    h.update(10, 10, now, true, (0, 0));
    h.update(20, 20, now, false, (7, 7));
    assert!(h.get_history().0.is_empty());
    assert_eq!(h.last_counters(), (20, 20));
}

#[test]
fn history_keeps_latest_twenty() {
    let mut h = NetworkHistory::new();
    let now = SystemTime::now();
    for i in 0..26u64 {
        h.update(1 + i, 1, now, true, (i, 100 + i));
    }
    let (rx, tx) = h.get_history();
    assert_eq!(rx.len(), NET_HISTORY_POINTS);
    assert_eq!(tx.len(), NET_HISTORY_POINTS);
    let expected: Vec<u64> = (6..=25).collect();
    assert_eq!(rx, expected);
    assert_eq!(tx[0], 106);
}

#[test]
fn history_length_after_k_readings() {
    for k in 1..=25usize {
        let mut h = NetworkHistory::new();
        let now = SystemTime::now();
        for i in 0..k {
            h.update(10 + i as u64, 0, now, true, (1, 1));
        }
        assert_eq!(h.get_history().0.len(), (k - 1).min(NET_HISTORY_POINTS));
        assert_eq!(h.get_history().1.len(), (k - 1).min(NET_HISTORY_POINTS));
    }
}
