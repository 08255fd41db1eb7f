use std::time::Duration;

use helius_stream::{ReconnectPolicy, StreamHealth};

#[test]
fn clean_stream_no_gap() {
    let mut h = StreamHealth::new();
    for s in 100..110u64 {
        assert!(!h.record_update(s));
    }
    assert_eq!(h.total_gaps(), 0);
}

#[test]
fn gap_detected_on_slot_skip() {
    let mut h = StreamHealth::new();
    h.record_update(100);
    assert!(h.record_update(105));
    assert_eq!(h.max_observed_gap(), 4);
}

#[test]
fn stale_with_zero_threshold() {
    let h = StreamHealth::new();
    assert!(h.is_stale(Duration::from_millis(0)));
}

#[test]
fn backoff_grows_and_caps() {
    let mut r = ReconnectPolicy::new();
    let d0 = r.next_delay_ms();
    let d1 = r.next_delay_ms();
    assert!(d1 >= d0);
    for _ in 0..30 {
        r.next_delay_ms();
    }
    assert!(r.next_delay_ms() <= r.max_ms());
}

#[test]
fn backoff_resets() {
    let mut r = ReconnectPolicy::new();
    for _ in 0..6 {
        r.next_delay_ms();
    }
    let high = r.next_delay_ms();
    r.reset();
    assert!(r.next_delay_ms() < high);
}

#[test]
fn fresh_health_is_zeroed() {
    let h = StreamHealth::default();
    assert_eq!(h.last_slot(), 0);
    assert_eq!(h.total_updates(), 0);
    assert_eq!(h.total_gaps(), 0);
    assert_eq!(h.max_observed_gap(), 0);
    assert_eq!(h.consecutive_clean(), 0);
    h.counters_are_consistent();
}

#[test]
fn first_update_never_reports_a_gap() {
    let mut h = StreamHealth::new();
    assert!(!h.record_update(1_000_000));
    assert_eq!(h.last_slot(), 1_000_000);
    assert_eq!(h.consecutive_clean(), 1);
}

#[test]
fn repeated_and_older_slots_are_clean() {
    let mut h = StreamHealth::new();
    assert!(!h.record_update(50));
    assert!(!h.record_update(50));
    assert!(!h.record_update(10));
    assert!(!h.record_update(51));
    assert_eq!(h.last_slot(), 51);
    assert_eq!(h.total_gaps(), 0);
    assert_eq!(h.consecutive_clean(), 4);
    assert_eq!(h.total_updates(), 4);
}

#[test]
fn gap_resets_clean_run_and_tracks_maximum() {
    let mut h = StreamHealth::new();
    h.record_update(10);
    h.record_update(11);
    assert_eq!(h.consecutive_clean(), 2);
    assert!(h.record_update(20));
    assert_eq!(h.consecutive_clean(), 0);
    assert_eq!(h.max_observed_gap(), 8);
    assert!(h.record_update(23));
    assert_eq!(h.max_observed_gap(), 8);
    assert!(h.record_update(40));
    assert_eq!(h.max_observed_gap(), 16);
    assert_eq!(h.total_gaps(), 3);
    assert_eq!(h.total_updates(), 5);
    assert_eq!(h.last_slot(), 40);
}

#[test]
fn gap_counts_for_even_slots() {
    let mut h = StreamHealth::new();
    for i in 0..10u64 {
        h.record_update(i * 2);
    }
    // slot 0 leaves no slot recorded, slot 2 is the first one seen, and
    // every later slot skips one.
    assert_eq!(h.total_updates(), 10);
    assert_eq!(h.total_gaps(), 8);
    assert_eq!(h.max_observed_gap(), 1);
}

#[test]
fn last_update_moves_forward() {
    let mut h = StreamHealth::new();
    let before = h.last_update();
    h.record_update(7);
    assert!(h.last_update() >= before);
    assert!(!h.is_stale(Duration::from_secs(3600)));
}

#[test]
fn backoff_exact_delays() {
    let mut r = ReconnectPolicy::new();
    let expected = [100u64, 200, 400, 800, 1600, 3200, 6400, 10_000, 10_000, 10_000, 10_000, 10_000, 10_000];
    for (i, e) in expected.iter().enumerate() {
        assert_eq!(r.attempt(), i as u32);
        assert_eq!(r.next_delay_ms(), *e);
    }
    assert_eq!(r.attempt(), expected.len() as u32);
}

#[test]
fn backoff_exponent_stops_at_ten() {
    let mut r = ReconnectPolicy::with_bounds(1, u64::MAX);
    let mut last = 0;
    for _ in 0..15 {
        last = r.next_delay_ms();
    }
    assert_eq!(last, 1024);
    assert_eq!(r.base_ms(), 1);
    assert_eq!(r.max_ms(), u64::MAX);
}

#[test]
fn backoff_reset_restarts_at_base() {
    let mut r = ReconnectPolicy::with_bounds(30, 1_000);
    for _ in 0..5 {
        r.next_delay_ms();
    }
    r.reset();
    assert_eq!(r.attempt(), 0);
    assert_eq!(r.next_delay_ms(), 30);
    let d = ReconnectPolicy::default();
    assert_eq!(d.base_ms(), 100);
    assert_eq!(d.max_ms(), 10_000);
}

#[test]
fn highest_possible_slot_is_recorded_twice() {
    let mut h = StreamHealth::new();
    assert!(!h.record_update(u64::MAX));
    assert!(!h.record_update(u64::MAX));
    assert_eq!(h.total_gaps(), 0);
    assert_eq!(h.last_slot(), u64::MAX);
    let mut g = StreamHealth::new();
    g.record_update(1);
    assert!(g.record_update(u64::MAX));
    assert_eq!(g.max_observed_gap(), u64::MAX - 2);
}

#[test]
fn huge_base_is_capped_without_overflow() {
    let mut p = ReconnectPolicy::with_bounds(u64::MAX, 1_000);
    assert_eq!(p.next_delay_ms(), 1_000);
    assert_eq!(p.next_delay_ms(), 1_000);
    assert_eq!(p.attempt(), 2);
}

#[test]
fn clock_of_last_update_is_the_reading_given() {
    let start = std::time::Instant::now();
    let mut h = StreamHealth::started_at(start);
    assert_eq!(h.last_update(), start);
    let later = start + Duration::from_millis(250);
    assert!(!h.record_update_at(5, later));
    assert_eq!(h.last_update(), later);
    assert_eq!(h.total_updates(), 1);
}
