use liwinux::latency::{LatencyStats, Shown, RECENT};
use std::time::{Duration, SystemTime};

fn us(d: Duration) -> u64 {
    d.as_micros() as u64
}

fn ms(v: u64) -> String {
    format!("{:6.2}", v as f64 / 1000.0)
}

/// The figures of a report, written the way a caller writes them.
fn shown(l: &LatencyStats) -> Shown {
    let (p50, p95, p99, worst) = l.percentiles();
    Shown { p50: ms(p50), p95: ms(p95), p99: ms(p99), worst: ms(worst), mean: ms(l.mean_us()) }
}

#[test]
fn percentiles_of_known_set() {
    let mut l = LatencyStats::new();
    for n in 1..=100u64 {
        l.record_duration(us(Duration::from_micros(n * 100)));
    }
    let (p50, p95, p99, max) = l.percentiles();
    assert_eq!(max, 10_000);
    assert!(p50 > 0 && p50 < p95 && p95 <= p99 && p99 <= max);
}

/// The live window must forget.
#[test]
fn the_recent_window_forgets() {
    let mut l = LatencyStats::new();
    l.record_duration(us(Duration::from_millis(900)));
    for _ in 0..RECENT {
        l.record_duration(us(Duration::from_micros(500)));
    }
    let (p50, p99) = l.recent_percentiles();
    assert_eq!(p50, 500);
    assert_eq!(p99, 500, "the stall should have been evicted");
    assert_eq!(l.recent_len(), RECENT, "the window must stay bounded");
    assert_eq!(l.percentiles().3, 900_000);
}

#[test]
fn a_short_window_still_reports() {
    let mut l = LatencyStats::new();
    for n in [100u64, 200, 300] {
        l.record_duration(us(Duration::from_micros(n)));
    }
    let (p50, p99) = l.recent_percentiles();
    assert_eq!(p50, 200);
    assert_eq!(p99, 300);
}

#[test]
fn an_empty_window_is_zero_not_a_panic() {
    assert_eq!(LatencyStats::new().recent_percentiles(), (0, 0));
}

#[test]
fn empty_stats_are_safe() {
    let l = LatencyStats::new();
    assert_eq!(l.percentiles(), (0, 0, 0, 0));
    assert_eq!(l.mean_us(), 0);
    assert!(l.report("x", &shown(&l)).contains("no samples"));
    assert!(l.is_empty());
}

#[test]
fn future_timestamps_are_counted_not_swallowed() {
    let mut l = LatencyStats::new();
    l.record(SystemTime::now() + Duration::from_secs(10));
    assert_eq!(l.len(), 0);
    assert_eq!(l.skipped, 1);
    assert!(l.report("x", &shown(&l)).contains("clock skew"));
}

/// A time stamp in the past is a sample, and roughly as long ago as it says.
#[test]
fn past_timestamps_are_samples() {
    let mut l = LatencyStats::new();
    l.record(SystemTime::now() - Duration::from_secs(3));
    assert_eq!(l.len(), 1);
    assert_eq!(l.skipped, 0);
    let worst = l.percentiles().3;
    assert!(worst >= 2_900_000 && worst < 60_000_000, "{worst}");
}

#[test]
fn single_sample_percentiles_are_that_sample() {
    let mut l = LatencyStats::new();
    l.record_duration(us(Duration::from_micros(2500)));
    assert_eq!(l.percentiles(), (2500, 2500, 2500, 2500));
}

/// Samples are sorted before they are read off, whatever order they came in.
#[test]
fn percentiles_do_not_depend_on_the_order() {
    let mut l = LatencyStats::new();
    for n in [900u64, 100, 500, 300, 700] {
        l.record_duration(n);
    }
    let (p50, _, p99, max) = l.percentiles();
    assert_eq!((p50, p99, max), (500, 900, 900));
    assert_eq!(l.mean_us(), 500);
}

#[test]
fn a_report_warns_of_skipped_samples() {
    let mut l = LatencyStats::new();
    l.record_duration(1500);
    l.record_elapsed(None);
    assert_eq!(
        l.report("touch", &shown(&l)),
        "touch  (1 samples)\n  p50   1.50 ms   p95   1.50 ms   p99   1.50 ms   \
         worst   1.50 ms   mean   1.50 ms\n  warning: 1 samples skipped (clock skew)"
    );
}
