use rf_limiter::lookahead::{BoxAverage, Delay, History, MinWindow, REBUILD_INTERVAL};

#[test]
fn the_delay_reads_what_was_pushed_that_many_samples_ago() {
    let mut delay = Delay::new(0.0_f32);
    for n in 0..3000 {
        delay.push(n as f32);
    }
    assert_eq!(delay.read(0), 2999.0);
    assert_eq!(delay.read(1924), 2999.0 - 1924.0);
}

#[test]
fn the_delay_rests_before_it_is_filled_and_after_a_clear() {
    let mut delay = Delay::new(0.0_f32);
    delay.push(1.0);
    assert_eq!(delay.read(0), 1.0);
    assert_eq!(delay.read(1), 0.0);
    assert_eq!(delay.read(2047), 0.0);
    delay.clear();
    assert_eq!(delay.read(0), 0.0);
}

#[test]
fn the_history_keeps_the_last_eight_oldest_first() {
    let mut history = History::new(0.0_f32);
    for n in 0..20 {
        history.push(n as f32);
    }
    for k in 0..8 {
        assert_eq!(history.at(k), (12 + k) as f32);
    }
    history.clear();
    assert_eq!(history.at(7), 0.0);
}

#[test]
fn the_window_minimum_matches_a_brute_force_scan() {
    let mut window = MinWindow::new();
    let mut seen = Vec::new();
    let width = 7;
    let mut seed = 12345_u32;
    for _ in 0..5000 {
        seed = seed.wrapping_mul(1_664_525).wrapping_add(1_013_904_223);
        let value = (seed >> 8) as f32 / (1u32 << 24) as f32;
        seen.push(value);
        let fast = f32::from_bits(window.push(value.to_bits(), width));
        let from = seen.len().saturating_sub(width as usize + 1);
        let slow = seen[from..].iter().copied().fold(f32::INFINITY, f32::min);
        assert_eq!(fast, slow);
    }
}

#[test]
fn a_zero_width_window_is_the_value_itself() {
    let mut window = MinWindow::new();
    assert_eq!(f32::from_bits(window.push(0.5_f32.to_bits(), 0)), 0.5);
    assert_eq!(f32::from_bits(window.push(0.9_f32.to_bits(), 0)), 0.9);
    assert_eq!(f32::from_bits(window.push(0.1_f32.to_bits(), 0)), 0.1);
}

#[test]
fn the_window_orders_negative_values_and_forgets_on_clear() {
    let mut window = MinWindow::new();
    assert_eq!(f32::from_bits(window.push((-1.0_f32).to_bits(), 3)), -1.0);
    assert_eq!(f32::from_bits(window.push(2.0_f32.to_bits(), 3)), -1.0);
    assert_eq!(f32::from_bits(window.push((-3.0_f32).to_bits(), 3)), -3.0);
    window.clear();
    assert_eq!(f32::from_bits(window.push(5.0_f32.to_bits(), 3)), 5.0);
}

#[test]
fn the_window_lets_a_minimum_go_after_width_plus_one_pushes() {
    let mut window = MinWindow::new();
    let width = 2;
    let values = [0.2_f32, 0.9, 0.8, 0.7, 0.95];
    let expected = [0.2_f32, 0.2, 0.2, 0.7, 0.7];
    for (value, want) in values.iter().zip(expected) {
        assert_eq!(f32::from_bits(window.push(value.to_bits(), width)), want);
    }
}

#[test]
fn the_longest_window_survives_the_clock_running_long() {
    let mut window = MinWindow::new();
    let width = 1022;
    for n in 0..50_000_u32 {
        let value = ((n % 1500) as f32) + 1.0;
        let got = f32::from_bits(window.push(value.to_bits(), width));
        let low = n.saturating_sub(width);
        let expected = (low..=n).map(|m| ((m % 1500) as f32) + 1.0).fold(f32::INFINITY, f32::min);
        if n % 997 == 0 {
            assert_eq!(got, expected, "at {n}");
        }
    }
}

/// The mean the box ramp gives: the sum of the ring in storage order over
/// its length.
fn mean(ring: &BoxAverage<f32>) -> f32 {
    let sum: f64 = (0..ring.length()).map(|k| f64::from(ring.slot(k))).sum();
    (sum / ring.length() as f64) as f32
}

#[test]
fn the_box_average_ramps_and_settles() {
    let mut average = BoxAverage::new(1.0_f32);
    average.reset(4, 1.0);
    average.push(0.0);
    assert_eq!(mean(&average), 0.75);
    average.push(0.0);
    assert_eq!(mean(&average), 0.5);
    average.push(0.0);
    assert_eq!(mean(&average), 0.25);
    average.push(0.0);
    assert_eq!(mean(&average), 0.0);
    for _ in 0..10_000 {
        average.push(0.5);
    }
    average.push(0.5);
    assert!((mean(&average) - 0.5).abs() < 1.0e-6);
}

#[test]
fn the_box_average_says_what_left_and_when_to_rebuild() {
    let mut average = BoxAverage::new(1.0_f32);
    average.reset(3, 1.0);
    assert_eq!(average.push(0.5), (1.0, false));
    assert_eq!(average.push(0.25), (1.0, false));
    assert_eq!(average.push(0.125), (1.0, false));
    assert_eq!(average.push(0.0), (0.5, false));
    for _ in 4..(REBUILD_INTERVAL - 1) {
        assert!(!average.push(0.0).1);
    }
    assert!(average.push(0.0).1);
    assert!(!average.push(0.0).1);
}

#[test]
fn the_box_average_length_is_clamped() {
    let mut average = BoxAverage::new(1.0_f32);
    average.reset(0, 0.5);
    assert_eq!(average.length(), 1);
    average.reset(5000, 0.5);
    assert_eq!(average.length(), 1024);
}

#[test]
fn a_push_shifts_every_age_by_one() {
    let mut delay = Delay::new(0_u32);
    for n in 1..=10_u32 {
        delay.push(n);
    }
    let before: Vec<u32> = (0..2048).map(|age| delay.read(age)).collect();
    delay.push(99);
    assert_eq!(delay.read(0), 99);
    for age in 1..2048 {
        assert_eq!(delay.read(age), before[age - 1]);
    }
}

#[test]
fn a_short_history_rests_before_the_first_push() {
    let mut history = History::new(0.0_f32);
    history.push(1.0);
    history.push(2.0);
    history.push(3.0);
    assert_eq!(history.at(7), 3.0);
    assert_eq!(history.at(6), 2.0);
    assert_eq!(history.at(5), 1.0);
    for k in 0..5 {
        assert_eq!(history.at(k), 0.0);
    }
}

#[test]
fn a_cleared_window_answers_as_a_new_one() {
    let values = [0.4_f32, 0.1, 0.7, 0.3, 0.9, 0.8];
    let mut used = MinWindow::new();
    for value in [0.01_f32, 0.02, 0.03] {
        used.push(value.to_bits(), 2);
    }
    used.clear();
    let mut fresh = MinWindow::new();
    for value in values {
        assert_eq!(used.push(value.to_bits(), 2), fresh.push(value.to_bits(), 2));
    }
}
