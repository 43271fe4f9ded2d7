use revhz::tracker::{is_window, FrequencyTracker, DEFAULT_WINDOW, MAX_HZ};

fn tracker(capacity: usize) -> FrequencyTracker {
    FrequencyTracker::with_capacity(capacity).expect("a power of two")
}

#[test]
fn default_tracker_averages_over_64_samples() {
    let t = FrequencyTracker::default();
    assert_eq!(DEFAULT_WINDOW, 64);
    assert_eq!(t.capacity(), 64);
    assert_eq!(t.sample_count(), 0);
    assert_eq!(t.average_hz(), 0);
    assert_eq!(t.previous_timestamp_ms(), None);
    assert_eq!(t.recent_hz(), &vec![0i32; 64]);
}

#[test]
fn window_must_be_a_power_of_two() {
    for ok in [1usize, 2, 4, 8, 64, 1024, 1 << 20] {
        assert!(is_window(ok), "{}", ok);
        assert!(FrequencyTracker::with_capacity(ok).is_some(), "{}", ok);
    }
    for bad in [0usize, 3, 5, 6, 7, 12, 63, 65, 100, usize::MAX] {
        assert!(!is_window(bad), "{}", bad);
        assert!(FrequencyTracker::with_capacity(bad).is_none(), "{}", bad);
    }
}

#[test]
fn first_observation_only_sets_the_baseline() {
    let mut t = tracker(4);
    assert_eq!(t.observe(12_345), None);
    assert_eq!(t.sample_count(), 0);
    assert_eq!(t.average_hz(), 0);
    assert_eq!(t.recent_hz(), &vec![0, 0, 0, 0]);
    assert_eq!(t.previous_timestamp_ms(), Some(12_345));
}

#[test]
fn one_second_apart_is_one_hertz() {
    let mut t = tracker(64);
    assert_eq!(t.observe(0), None);
    assert_eq!(t.observe(1000), Some(1));
    assert_eq!(t.average_hz(), 1);
    assert_eq!(t.sample_count(), 1);
    assert_eq!(t.recent_hz()[0], 1);
}

#[test]
fn five_samples_wrap_a_window_of_four() {
    let mut t = tracker(4);
    assert_eq!(t.observe(0), None);
    for step in 1..=5i128 {
        assert_eq!(t.observe(step * 10), Some(100));
    }
    assert_eq!(t.sample_count(), 5);
    assert_eq!(t.average_hz(), 100);
    assert_eq!(t.recent_hz(), &vec![100, 100, 100, 100]);
}

#[test]
fn the_oldest_sample_is_overwritten() {
    let mut t = tracker(2);
    t.observe(0);
    assert_eq!(t.observe(10), Some(100));
    assert_eq!(t.observe(15), Some(200));
    assert_eq!(t.recent_hz(), &vec![100, 200]);
    assert_eq!(t.average_hz(), 150);
    assert_eq!(t.observe(16), Some(1000));
    assert_eq!(t.recent_hz(), &vec![1000, 200]);
    assert_eq!(t.average_hz(), 600);
    assert_eq!(t.observe(20), Some(250));
    assert_eq!(t.recent_hz(), &vec![1000, 250]);
    assert_eq!(t.average_hz(), 625);
    assert_eq!(t.sample_count(), 4);
}

#[test]
fn warm_up_divides_by_the_samples_taken() {
    let mut t = tracker(8);
    t.observe(0);
    assert_eq!(t.observe(3), Some(333));
    assert_eq!(t.average_hz(), 333);
    assert_eq!(t.observe(10), Some(142));
    assert_eq!(t.average_hz(), (333 + 142) / 2);
    assert_eq!(t.observe(11), Some(1000));
    assert_eq!(t.average_hz(), (333 + 142 + 1000) / 3);
    assert_eq!(t.average_hz(), 491);
}

#[test]
fn frequency_is_rounded_down() {
    let mut t = tracker(4);
    t.observe(0);
    assert_eq!(t.observe(7), Some(142));
    assert_eq!(t.observe(7 + 999), Some(1));
    assert_eq!(t.observe(7 + 999 + 501), Some(1));
    assert_eq!(t.observe(7 + 999 + 501 + 500), Some(2));
    assert_eq!(t.observe(7 + 999 + 501 + 500 + 1), Some(MAX_HZ));
}

#[test]
fn coinciding_events_are_dropped_but_move_the_baseline() {
    let mut t = tracker(4);
    t.observe(100);
    assert_eq!(t.observe(110), Some(100));
    let ring = t.recent_hz().clone();
    assert_eq!(t.observe(110), None);
    assert_eq!(t.sample_count(), 1);
    assert_eq!(t.average_hz(), 100);
    assert_eq!(t.recent_hz(), &ring);
    assert_eq!(t.previous_timestamp_ms(), Some(110));
}

#[test]
fn a_clock_that_runs_backwards_is_dropped_but_moves_the_baseline() {
    let mut t = tracker(4);
    t.observe(1_000);
    assert_eq!(t.observe(1_020), Some(50));
    let ring = t.recent_hz().clone();
    assert_eq!(t.observe(500), None);
    assert_eq!(t.sample_count(), 1);
    assert_eq!(t.average_hz(), 50);
    assert_eq!(t.recent_hz(), &ring);
    assert_eq!(t.previous_timestamp_ms(), Some(500));
    assert_eq!(t.observe(520), Some(50));
    assert_eq!(t.sample_count(), 2);
}

#[test]
fn more_than_a_second_apart_is_dropped() {
    let mut t = tracker(4);
    t.observe(0);
    assert_eq!(t.observe(1001), None);
    assert_eq!(t.sample_count(), 0);
    assert_eq!(t.average_hz(), 0);
    assert_eq!(t.previous_timestamp_ms(), Some(1001));
    assert_eq!(t.observe(2001), Some(1));
}

#[test]
fn extreme_timestamps_do_not_overflow() {
    let mut t = tracker(4);
    assert_eq!(t.observe(i128::MIN), None);
    assert_eq!(t.observe(i128::MAX), None);
    assert_eq!(t.previous_timestamp_ms(), Some(i128::MAX));
    assert_eq!(t.observe(i128::MIN), None);
    assert_eq!(t.previous_timestamp_ms(), Some(i128::MIN));
    assert_eq!(t.observe(i128::MIN + 4), Some(250));
    assert_eq!(t.sample_count(), 1);
    let mut u = tracker(4);
    u.observe(i128::MAX - 2);
    assert_eq!(u.observe(i128::MAX), Some(500));
}

#[test]
fn average_is_the_mean_of_the_most_recent_samples() {
    for capacity in [1usize, 2, 4, 8, 64] {
        let mut t = tracker(capacity);
        let mut history: Vec<i64> = Vec::new();
        let mut now: i128 = 5;
        let mut seed: u64 = 0x2545_f491_4f6c_dd1d;
        t.observe(now);
        for _ in 0..500 {
            seed ^= seed << 13;
            seed ^= seed >> 7;
            seed ^= seed << 17;
            let delta = (seed % 40) as i128 + 1;
            now += delta;
            let live = t.observe(now);
            let hz = (1000 / delta) as i64;
            assert_eq!(live, Some(hz as i32));
            history.push(hz);
            let taken = history.len().min(capacity);
            let sum: i64 = history[history.len() - taken..].iter().sum();
            assert_eq!(t.average_hz() as i64, sum / taken as i64);
            assert_eq!(t.sample_count(), history.len() as u64);
        }
    }
}

#[test]
fn a_fresh_tracker_has_room() {
    let t = tracker(4);
    assert!(!t.is_exhausted());
}
