use logshear::rate_limiter::{pause_after, RateLimiter};
use std::time::Instant;

#[test]
fn test_unlimited_no_sleep() {
    let mut rl = RateLimiter::new(0);
    assert!(!rl.is_active());
    let start = Instant::now();
    for _ in 0..10_000 {
        let _ = rl.throttle();
    }
    assert!(start.elapsed().as_millis() < 500);
    assert_eq!(rl.total_lines(), 10_000);
    assert_eq!(rl.total_sleep_ns(), 0);
}

#[test]
fn test_active_when_limit_set() {
    let rl = RateLimiter::new(100);
    assert!(rl.is_active());
}

#[test]
fn test_counts_lines() {
    let mut rl = RateLimiter::new(0);
    for _ in 0..42 {
        let _ = rl.throttle();
    }
    assert_eq!(rl.total_lines(), 42);
}

#[test]
fn test_counts_lines_with_limit() {
    let mut rl = RateLimiter::new(10_000);
    for _ in 0..50 {
        let _ = rl.throttle();
    }
    assert_eq!(rl.total_lines(), 50);
}

#[test]
fn test_high_limit_no_sleep_for_small_batch() {
    let mut rl = RateLimiter::new(100_000);
    let start = Instant::now();
    for _ in 0..100 {
        let _ = rl.throttle();
    }
    assert!(start.elapsed().as_millis() < 200);
    assert_eq!(rl.total_sleep_ns(), 0);
}

#[test]
fn test_effective_rate_nonzero_after_lines() {
    let mut rl = RateLimiter::new(0);
    for _ in 0..100 {
        let _ = rl.throttle();
    }
    let elapsed = rl.window_start().elapsed().as_secs_f64();
    let _rate = if elapsed > 0.0 { rl.lines_in_window() as f64 / elapsed } else { 0.0 };
    assert_eq!(rl.lines_in_window(), 0);
}

#[test]
fn test_zero_max_is_unlimited() {
    let mut rl = RateLimiter::new(0);
    assert!(!rl.is_active());
    let _ = rl.throttle();
    assert_eq!(rl.total_lines(), 1);
}

#[test]
fn over_limit_asks_for_pause_until_window_end() {
    assert_eq!(pause_after(3, 2, 250_000_000), Some(750_000_000));
    assert_eq!(pause_after(2, 2, 250_000_000), None);
    assert_eq!(pause_after(3, 0, 0), None);
    assert_eq!(pause_after(3, 2, 1_000_000_000), None);
}

#[test]
fn limiter_pauses_when_window_is_full() {
    let mut rl = RateLimiter::new(2);
    assert_eq!(rl.throttle(), None);
    assert_eq!(rl.throttle(), None);
    let pause = rl.throttle();
    let ns = pause.expect("third line in the window is over the limit");
    assert!(ns > 0 && ns <= 1_000_000_000);
    assert_eq!(rl.total_sleep_ns(), ns);
    assert_eq!(rl.lines_in_window(), 3);
    rl.resume();
    assert_eq!(rl.lines_in_window(), 0);
    assert_eq!(rl.total_lines(), 3);
}

#[test]
fn window_restart_and_pause_on_readings() {
    let mut rl = RateLimiter::new(2);
    assert_eq!(rl.throttle_at(0, 0), None);
    assert_eq!(rl.throttle_at(100, 100), None);
    assert_eq!(rl.throttle_at(200, 400_000_000), Some(600_000_000));
    assert_eq!(rl.lines_in_window(), 3);
    assert_eq!(rl.total_sleep_ns(), 600_000_000);
    assert_eq!(rl.throttle_at(1_000_000_000, 5), None);
    assert_eq!(rl.lines_in_window(), 1);
    assert_eq!(rl.total_lines(), 4);
}

#[test]
fn limit_stays_over_throttle_calls() {
    let mut rl = RateLimiter::new(100);
    for _ in 0..150 {
        let _ = rl.throttle();
        rl.resume();
    }
    assert!(rl.is_active());
    assert_eq!(rl.total_lines(), 150);
    let mut off = RateLimiter::new(0);
    for _ in 0..5 {
        let _ = off.throttle();
    }
    assert!(!off.is_active());
}
