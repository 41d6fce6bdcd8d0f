use rf_limiter::engine::latency;
use rf_limiter::lookahead::{DELAY_SAMPLES, LOOKAHEAD_MAX};

#[test]
fn the_latency_is_two_lookaheads_and_the_detector() {
    assert_eq!(latency(0), 4);
    assert_eq!(latency(96), 196);
    assert_eq!(latency(LOOKAHEAD_MAX), 1924);
    assert!(latency(LOOKAHEAD_MAX) < DELAY_SAMPLES);
}
