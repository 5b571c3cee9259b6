use flui_core::{Clock, Instant, TestClock, Ticker, TickerCanceled};
use std::time::Duration;

fn test_ticker() -> Ticker<TestClock> {
    Ticker::new(TestClock::new())
}

#[test]
fn idle_ticker_is_inactive() {
    let ticker = test_ticker();
    assert!(!ticker.is_active());
    assert_eq!(ticker.elapsed(), Duration::ZERO);
}

#[test]
fn start_marks_active_and_resets_elapsed_to_zero() {
    let mut ticker = test_ticker();
    let _fut = ticker.start();
    assert!(ticker.is_active());
    assert_eq!(ticker.elapsed(), Duration::ZERO);
}

#[test]
fn elapsed_advances_with_clock() {
    let mut ticker = test_ticker();
    let _fut = ticker.start();
    ticker.clock_mut().advance(Duration::from_millis(250));
    assert_eq!(ticker.elapsed(), Duration::from_millis(250));
}

#[test]
fn stop_settles_future_completed() {
    let mut ticker = test_ticker();
    let fut = ticker.start();
    assert!(fut.is_pending(&ticker));
    ticker.stop(false);
    assert!(fut.is_completed(&ticker));
    assert!(!ticker.is_active());
    assert_eq!(ticker.elapsed(), Duration::ZERO);
}

#[test]
fn stop_settles_future_canceled() {
    let mut ticker = test_ticker();
    let fut = ticker.start();
    ticker.stop(true);
    assert!(fut.is_canceled(&ticker));
}

#[test]
fn second_start_cancels_previous_future() {
    let mut ticker = test_ticker();
    let fut1 = ticker.start();
    let fut2 = ticker.start();
    assert!(fut1.is_canceled(&ticker), "previous future canceled by new start");
    assert!(fut2.is_pending(&ticker));
}

#[test]
fn now_delegates_to_clock() {
    let mut ticker = test_ticker();
    let t0 = ticker.now();
    ticker.clock_mut().advance(Duration::from_millis(100));
    let t1 = ticker.now();
    assert!(t1 > t0);
    assert_eq!(t1.saturating_duration_since(t0), Duration::from_millis(100));
}

#[test]
fn ticker_canceled_error_displays() {
    let err = TickerCanceled;
    assert_eq!(err.to_string(), "ticker canceled");
}

#[test]
fn stop_on_idle_ticker_is_noop() {
    let mut ticker = test_ticker();
    let fut = ticker.start();
    ticker.stop(false);
    ticker.stop(true);
    assert!(fut.is_completed(&ticker));
    assert!(!ticker.is_active());
}

#[test]
fn elapsed_saturates_when_clock_is_behind_start() {
    let ticker = test_ticker();
    let start = Instant::from_nanos(1_000);
    let earlier = Instant::from_nanos(400);
    assert_eq!(earlier.saturating_duration_since(start), Duration::ZERO);
    assert_eq!(start.saturating_duration_since(earlier), Duration::from_nanos(600));
    assert_eq!(ticker.elapsed_at(start), Duration::ZERO);
}

#[test]
fn elapsed_at_measures_from_start() {
    let mut ticker = test_ticker();
    ticker.clock_mut().advance(Duration::from_millis(5));
    let _fut = ticker.start();
    let later = Instant::from_nanos(ticker.now().as_nanos() + 1_500);
    assert_eq!(ticker.elapsed_at(later), Duration::from_nanos(1_500));
}

#[test]
fn test_clock_starts_at_origin_and_advances() {
    let mut clock = TestClock::new();
    assert_eq!(clock.now().as_nanos(), 0);
    clock.advance(Duration::from_micros(3));
    assert_eq!(clock.now().as_nanos(), 3_000);
}

#[test]
fn try_advance_refuses_to_overflow() {
    let mut clock = TestClock::new();
    assert!(clock.try_advance(Duration::from_nanos(5)));
    assert_eq!(clock.now().as_nanos(), 5);
    assert!(!clock.try_advance(Duration::from_nanos(u64::MAX)));
    assert_eq!(clock.now().as_nanos(), 5);
}

#[test]
fn elapsed_is_measured_from_the_latest_start() {
    let mut ticker = test_ticker();
    let _first = ticker.start();
    ticker.clock_mut().advance(Duration::from_millis(100));
    let _second = ticker.start();
    assert_eq!(ticker.elapsed(), Duration::ZERO);
    ticker.clock_mut().advance(Duration::from_millis(250));
    assert_eq!(ticker.elapsed(), Duration::from_millis(250));
}

#[test]
fn each_future_is_settled_by_the_call_after_its_start() {
    let mut ticker = test_ticker();
    let first = ticker.start();
    let second = ticker.start();
    ticker.stop(false);
    let third = ticker.start();
    assert!(ticker.is_active());
    ticker.stop(true);
    assert!(!ticker.is_active());
    ticker.stop(false);
    assert!(first.is_canceled(&ticker));
    assert!(second.is_completed(&ticker));
    assert!(third.is_canceled(&ticker));
    let fourth = ticker.start();
    assert!(ticker.is_active());
    assert!(fourth.is_pending(&ticker));
    assert!(!first.is_pending(&ticker) && !second.is_pending(&ticker) && !third.is_pending(&ticker));
}
