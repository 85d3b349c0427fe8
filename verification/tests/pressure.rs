use room::oom::pressure::{
    is_over_threshold, time_since, MemoryStats, PressureDetector, PressureThresholds,
};

const MIB_BYTES: u64 = 1024 * 1024;
const GIB_BYTES: u64 = 1024 * 1024 * 1024;

const MEMINFO: &[u8] = b"MemTotal:       16303428 kB\nMemFree:          577372 kB\nMemAvailable:    9854660 kB\nBuffers:          932232 kB\nCached:          8024740 kB\nSwapCached:         1532 kB\nActive:          6234560 kB\nSwapTotal:       2097148 kB\nSwapFree:        2081276 kB\nHugePages_Total:       0\nDirectMap4k:      414080 kB\n";

fn reading(available: u64, total: u64) -> MemoryStats {
    MemoryStats {
        total_memory: total,
        free_memory: available,
        available_memory: available,
        total_swap: 0,
        free_swap: 0,
        cached_memory: 0,
    }
}

fn swap_reading(total_swap: u64, free_swap: u64) -> MemoryStats {
    MemoryStats {
        total_memory: 10 * GIB_BYTES,
        free_memory: 8 * GIB_BYTES,
        available_memory: 8 * GIB_BYTES,
        total_swap,
        free_swap,
        cached_memory: 0,
    }
}

#[test]
fn test_memory_stats() {
    let detector = PressureDetector::new(None, 0);
    let stats = detector.get_memory_stats(MEMINFO);

    assert!(stats.total_memory > 0);
    assert!(stats.available_memory <= stats.total_memory);
    assert!(stats.free_memory <= stats.total_memory);
}

#[test]
fn meminfo_is_read_in_bytes() {
    let detector = PressureDetector::new(None, 0);
    assert_eq!(
        detector.get_memory_stats(MEMINFO),
        MemoryStats {
            total_memory: 16303428 * 1024,
            free_memory: 577372 * 1024,
            available_memory: 9854660 * 1024,
            total_swap: 2097148 * 1024,
            free_swap: 2081276 * 1024,
            cached_memory: 8024740 * 1024,
        }
    );
}

#[test]
fn meminfo_missing_keys_are_zero_and_unknown_keys_ignored() {
    let detector = PressureDetector::new(None, 0);
    assert_eq!(
        detector.get_memory_stats(b"Foo: 12 kB\nMemTotal: 100 kB\nBar\nSwapCached: 5 kB\n"),
        MemoryStats {
            total_memory: 102400,
            free_memory: 0,
            available_memory: 0,
            total_swap: 0,
            free_swap: 0,
            cached_memory: 0,
        }
    );
    assert_eq!(detector.get_memory_stats(b""), reading(0, 0));
    assert_eq!(
        detector.get_memory_stats(b"MemTotal: many kB\nMemFree: 1 kB\nMemFree: 2 kB\n").free_memory,
        2048
    );
}

#[test]
fn default_thresholds_are_five_percent_eighty_percent_five_seconds() {
    let t = PressureThresholds::default();
    assert_eq!(t.min_free_ratio, 50_000);
    assert_eq!(t.max_swap_ratio, 800_000);
    assert_eq!(t.pressure_duration, 5_000);
    let d = PressureDetector::new(None, 42);
    assert_eq!(d.thresholds, t);
    assert_eq!(d.pressure_start, None);
    assert_eq!(d.last_pressure_check, 42);
}

#[test]
fn free_ratio_is_compared_exactly() {
    let t = PressureThresholds::default();
    // exactly 5% available is not below the threshold
    assert!(!is_over_threshold(&reading(5, 100), &t));
    assert!(is_over_threshold(&reading(4, 100), &t));
    assert!(!is_over_threshold(&reading(50_000, 1_000_000), &t));
    assert!(is_over_threshold(&reading(49_999, 1_000_000), &t));
    assert!(is_over_threshold(&reading(400 * MIB_BYTES, 10 * GIB_BYTES), &t));
    assert!(!is_over_threshold(&reading(8 * GIB_BYTES, 10 * GIB_BYTES), &t));
    // no memory at all is no pressure
    assert!(!is_over_threshold(&reading(0, 0), &t));
    assert!(!is_over_threshold(&reading(5, 0), &t));
    assert!(is_over_threshold(&reading(0, 1), &t));
    assert!(!is_over_threshold(&reading(u64::MAX, u64::MAX), &t));
    assert!(is_over_threshold(&reading(u64::MAX / 21, u64::MAX), &t));
}

#[test]
fn swap_ratio_is_compared_exactly() {
    let t = PressureThresholds::default();
    // exactly 80% in use is not above the threshold
    assert!(!is_over_threshold(&swap_reading(100, 20), &t));
    assert!(is_over_threshold(&swap_reading(100, 19), &t));
    assert!(is_over_threshold(&swap_reading(100, 0), &t));
    assert!(!is_over_threshold(&swap_reading(100, 100), &t));
    // no swap is no pressure, nor is more free swap than swap
    assert!(!is_over_threshold(&swap_reading(0, 0), &t));
    assert!(!is_over_threshold(&swap_reading(0, 7), &t));
    assert!(!is_over_threshold(&swap_reading(100, 200), &t));
    assert!(is_over_threshold(&swap_reading(u64::MAX, 0), &t));
}

#[test]
fn elapsed_time_does_not_run_backwards() {
    assert_eq!(time_since(10, 3), 7);
    assert_eq!(time_since(3, 3), 0);
    assert_eq!(time_since(3, 10), 0);
    assert_eq!(time_since(u64::MAX, 0), u64::MAX);
}

#[test]
fn test_pressure_detection() {
    let mut detector = PressureDetector::new(
        Some(PressureThresholds {
            min_free_ratio: 990_000,
            max_swap_ratio: 0,
            pressure_duration: 100,
        }),
        0,
    );
    let stats = PressureDetector::new(None, 0).get_memory_stats(MEMINFO);

    assert!(!detector.check_pressure(&stats, 0));

    assert!(detector.check_pressure(&stats, 150));
}

#[test]
fn test_pressure_recovery() {
    let mut detector = PressureDetector::new(
        Some(PressureThresholds {
            min_free_ratio: 0,
            max_swap_ratio: 1_000_000,
            pressure_duration: 100,
        }),
        0,
    );
    let stats = PressureDetector::new(None, 0).get_memory_stats(MEMINFO);

    assert!(!detector.check_pressure(&stats, 0));

    assert!(detector.pressure_start.is_none());
}

#[test]
fn no_pressure_with_plenty_available() {
    let mut detector = PressureDetector::new(None, 0);
    let stats = reading(8 * GIB_BYTES, 10 * GIB_BYTES);
    assert!(!detector.check_pressure(&stats, 0));
    assert!(detector.pressure_start.is_none());
    assert!(!detector.check_pressure(&stats, 60_000));
    assert!(detector.pressure_start.is_none());
    assert_eq!(detector.last_pressure_check, 60_000);
}

#[test]
fn pressure_builds_over_the_dwell_time() {
    let mut detector = PressureDetector::new(None, 0);
    let stats = reading(400 * MIB_BYTES, 10 * GIB_BYTES);
    assert!(!detector.check_pressure(&stats, 0));
    assert_eq!(detector.pressure_start, Some(0));
    assert!(!detector.check_pressure(&stats, 4_000));
    assert_eq!(detector.pressure_start, Some(0));
    assert!(!detector.check_pressure(&stats, 4_999));
    assert!(detector.check_pressure(&stats, 5_000));
    assert_eq!(detector.pressure_start, Some(0));
    assert!(detector.check_pressure(&stats, 9_000));
    assert_eq!(detector.pressure_start, Some(0));
    // a confirming check leaves the time of the last quiet check alone
    assert_eq!(detector.last_pressure_check, 4_999);
}

#[test]
fn one_reading_below_the_threshold_ends_the_episode() {
    let mut detector = PressureDetector::new(None, 0);
    let low = reading(400 * MIB_BYTES, 10 * GIB_BYTES);
    let fine = reading(8 * GIB_BYTES, 10 * GIB_BYTES);
    assert!(!detector.check_pressure(&low, 1_000));
    assert!(!detector.check_pressure(&low, 5_900));
    assert!(!detector.check_pressure(&fine, 5_950));
    assert_eq!(detector.pressure_start, None);
    assert!(!detector.check_pressure(&low, 6_000));
    assert_eq!(detector.pressure_start, Some(6_000));
    assert!(!detector.check_pressure(&low, 10_999));
    assert!(detector.check_pressure(&low, 11_000));
}

#[test]
fn first_reading_never_confirms_even_without_dwell() {
    let mut detector = PressureDetector::new(
        Some(PressureThresholds { min_free_ratio: 50_000, max_swap_ratio: 800_000, pressure_duration: 0 }),
        0,
    );
    let low = reading(1, 100);
    assert!(!detector.would_confirm(&low, 7));
    assert!(!detector.check_pressure(&low, 7));
    assert!(detector.would_confirm(&low, 7));
    assert!(detector.check_pressure(&low, 7));
}

#[test]
fn would_confirm_agrees_with_check_and_changes_nothing() {
    let mut detector = PressureDetector::new(None, 0);
    let low = reading(400 * MIB_BYTES, 10 * GIB_BYTES);
    let mut now = 0;
    while now <= 12_000 {
        let before = detector;
        let expected = detector.would_confirm(&low, now);
        assert_eq!(detector, before);
        assert_eq!(detector.check_pressure(&low, now), expected);
        now += 500;
    }
}

#[test]
fn pressure_info_reports_durations() {
    let mut detector = PressureDetector::new(None, 100);
    let low = reading(400 * MIB_BYTES, 10 * GIB_BYTES);
    let info = detector.get_pressure_info(low, 350);
    assert_eq!(info.stats, low);
    assert_eq!(info.pressure_duration, 0);
    assert_eq!(info.last_check, 250);
    detector.check_pressure(&low, 1_000);
    detector.check_pressure(&low, 2_000);
    let info = detector.get_pressure_info(low, 2_500);
    assert_eq!(info.pressure_duration, 1_500);
    assert_eq!(info.last_check, 500);
}
