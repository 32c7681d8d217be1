//! History-window overwrite discipline and loss-list bookkeeping.

use srt_receiver::loss_list::{backoff_interval, LossList};
use srt_receiver::window::HistoryWindow;

#[test]
fn window_retains_only_most_recent_at_capacity() {
    let mut w = HistoryWindow::new(3);
    for k in 1..=5 {
        w.record(k, (k as i64) * 10);
    }
    assert_eq!(w.len(), 3);
    // the two oldest were overwritten
    assert_eq!(w.find(1), None);
    assert_eq!(w.find(2), None);
    // the three most recent are retained with their timestamps
    assert_eq!(w.find(3), Some(30));
    assert_eq!(w.find(4), Some(40));
    assert_eq!(w.find(5), Some(50));
    // a key never recorded is absent, not stale
    assert_eq!(w.find(99), None);
}

#[test]
fn window_prefers_most_recent_record_of_a_key() {
    let mut w = HistoryWindow::new(4);
    w.record(7, 100);
    w.record(8, 200);
    w.record(7, 300);
    assert_eq!(w.find(7), Some(300));
}

#[test]
fn gap_is_recorded_and_cleared() {
    let mut l = LossList::new();
    l.record_gap(3, 5, 0);
    assert_eq!(l.seq_nums(), vec![3, 4]);
    assert_eq!(l.len(), 2);
    assert!(l.contains(3) && l.contains(4) && !l.contains(5));
    // a gap that does not lie beyond the tail is rejected whole
    l.record_gap(2, 4, 0);
    assert_eq!(l.seq_nums(), vec![3, 4]);
    l.remove(3);
    assert_eq!(l.seq_nums(), vec![4]);
    l.remove(4);
    assert_eq!(l.seq_nums(), Vec::<i32>::new());
    // removing an absent number is a no-op
    l.remove(4);
    assert_eq!(l.seq_nums(), Vec::<i32>::new());
}

#[test]
fn gap_across_the_wraparound_point() {
    let mut l = LossList::new();
    l.record_gap(i32::MAX, 2, 0);
    assert_eq!(l.seq_nums(), vec![i32::MAX, 0, 1]);
    l.remove(0);
    assert_eq!(l.seq_nums(), vec![i32::MAX, 1]);
}

#[test]
fn remove_range_clears_a_span() {
    let mut l = LossList::new();
    l.record_gap(10, 20, 0);
    l.remove_range(12, 17);
    assert_eq!(l.seq_nums(), vec![10, 11, 18, 19]);
    // a range covering nothing present is a no-op
    l.remove_range(100, 200);
    assert_eq!(l.seq_nums(), vec![10, 11, 18, 19]);
}

#[test]
fn empty_gap_is_rejected() {
    let mut l = LossList::new();
    l.record_gap(5, 5, 0);
    l.record_gap(5, 3, 0);
    assert_eq!(l.seq_nums(), Vec::<i32>::new());
}

#[test]
fn backoff_interval_doubles_and_caps() {
    assert_eq!(backoff_interval(100, 0), 100);
    assert_eq!(backoff_interval(100, 1), 200);
    assert_eq!(backoff_interval(100, 3), 800);
    assert_eq!(backoff_interval(100, 16), 100 * 65536);
    // beyond the cap the interval no longer grows
    assert_eq!(backoff_interval(100, 30), 100 * 65536);
}

#[test]
fn due_selection_refreshes_entries() {
    let mut l = LossList::new();
    l.record_gap(3, 5, 0);
    // not yet due: the minimum interval has not elapsed
    let due = l.due_for_feedback(50, 100);
    assert_eq!(due.len(), 0);
    // due: selected in order, counts incremented, feedback time updated
    let due = l.due_for_feedback(100, 100);
    assert_eq!(due.len(), 2);
    assert_eq!(due[0].seq_num, 3);
    assert_eq!(due[1].seq_num, 4);
    assert_eq!(due[0].k, 1);
    assert_eq!(l.entries[0].feedback_time, 100);
    // the backed-off interval (now 200) has not elapsed at 250
    let due = l.due_for_feedback(250, 100);
    assert_eq!(due.len(), 0);
    // but has at 300
    let due = l.due_for_feedback(300, 100);
    assert_eq!(due.len(), 2);
    assert_eq!(l.entries[0].k, 2);
}
