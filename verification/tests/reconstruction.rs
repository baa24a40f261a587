use particelle::reconstruction::{
    effective_control_interval, normalized_tap_count, DEFAULT_CONTROL_INTERVAL_SAMPLES,
    MAX_SINC_TAPS,
};

#[test]
fn sinc_tap_count_is_bounded_and_even() {
    assert_eq!(normalized_tap_count(0), 2);
    assert_eq!(normalized_tap_count(7), 8);
    assert_eq!(normalized_tap_count(usize::MAX), MAX_SINC_TAPS);
}

#[test]
fn tap_count_edges() {
    assert_eq!(normalized_tap_count(1), 2);
    assert_eq!(normalized_tap_count(2), 2);
    assert_eq!(normalized_tap_count(3), 4);
    assert_eq!(normalized_tap_count(4095), 4096);
    assert_eq!(normalized_tap_count(4096), 4096);
    assert_eq!(normalized_tap_count(4097), 4096);
    for taps in 0..5000usize {
        let n = normalized_tap_count(taps);
        assert_eq!(n % 2, 0);
        assert!((2..=MAX_SINC_TAPS).contains(&n));
    }
}

#[test]
fn control_interval_is_at_least_one() {
    assert_eq!(effective_control_interval(0), 1);
    assert_eq!(effective_control_interval(1), 1);
    assert_eq!(effective_control_interval(4), 4);
    assert_eq!(DEFAULT_CONTROL_INTERVAL_SAMPLES, 64);
}
