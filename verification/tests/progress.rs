use netdisk_sync::downloader::progress::{format_bytes_per_second, format_eta, SpeedCalculator};
use netdisk_sync::time::{Duration, Instant};

#[test]
fn test_speed_calculator_creation() {
    let calc = SpeedCalculator::new(5);
    assert_eq!(calc.total_bytes(), 0);
    assert_eq!(calc.speed(), 0);
}

#[test]
fn test_add_sample() {
    let mut calc = SpeedCalculator::new(5);

    calc.add_sample(1024);
    assert_eq!(calc.total_bytes(), 1024);

    calc.add_sample(2048);
    assert_eq!(calc.total_bytes(), 3072);
}

#[test]
fn test_speed_calculation() {
    let mut calc = SpeedCalculator::new(5);
    let start = Instant { nanos: 0 };

    calc.refresh_at(start);
    calc.add_sample_at(1024 * 1024, start.plus(Duration::from_millis(500)));
    calc.add_sample_at(1024 * 1024, start.plus(Duration::from_secs(1)));

    assert_eq!(calc.speed_at(start.plus(Duration::from_secs(1))), 2 * 1024 * 1024);
}

#[test]
fn test_speed_requires_warmup() {
    let mut calc = SpeedCalculator::new(10);
    let start = Instant { nanos: 0 };

    calc.refresh_at(start);
    calc.add_sample_at(1024 * 1024, start.plus(Duration::from_millis(500)));

    assert_eq!(calc.speed_at(start.plus(Duration::from_millis(500))), 0);
}

#[test]
fn test_idle_time_reduces_speed_to_zero() {
    let mut calc = SpeedCalculator::new(10);
    let start = Instant { nanos: 0 };

    calc.refresh_at(start);
    for second in 1..=10 {
        calc.add_sample_at(1024 * 1024, start.plus(Duration::from_secs(second)));
    }
    assert_eq!(calc.speed_at(start.plus(Duration::from_secs(10))), 1024 * 1024);

    for second in 11..=21 {
        calc.refresh_at(start.plus(Duration::from_secs(second)));
    }
    assert_eq!(calc.speed_at(start.plus(Duration::from_secs(21))), 0);
}

#[test]
fn test_speed_decays_without_refresh() {
    let mut calc = SpeedCalculator::new(10);
    let start = Instant { nanos: 0 };

    calc.refresh_at(start);
    for second in 1..=5 {
        calc.add_sample_at(1024 * 1024, start.plus(Duration::from_secs(second)));
    }
    let at_5s = calc.speed_at(start.plus(Duration::from_secs(5)));
    assert_eq!(at_5s, 1024 * 1024);
    let at_20s = calc.speed_at(start.plus(Duration::from_secs(20)));
    assert!(
        at_20s < at_5s / 3,
        "无刷新时速度应随时间下降，5s 时 {} B/s，20s 时仍有 {} B/s",
        at_5s,
        at_20s
    );
}

#[test]
fn test_snapshot_count_is_bounded() {
    let mut calc = SpeedCalculator::new(10);
    let start = Instant { nanos: 0 };

    for step in 0..=120 {
        calc.add_sample_at(1024, start.plus(Duration::from_millis(step * 500)));
    }

    assert!(calc.sample_count() <= 22);
}

#[test]
fn test_burst_write_is_not_reported_as_huge_speed() {
    let mut calc = SpeedCalculator::new(10);
    let start = Instant { nanos: 0 };
    for step in 0..=10 {
        calc.refresh_at(start.plus(Duration::from_millis(step * 500)));
    }
    calc.add_sample_at(256 * 1024, start.plus(Duration::from_secs(5)));
    let speed = calc.refresh_at(start.plus(Duration::from_millis(5500)));

    assert!(speed > 0, "有字节进来就该有速度");
    assert!(
        speed < 100 * 1024,
        "5.5 秒里只传了 256KB（约 47KB/s）不应被算成 {} B/s（分母塌缩）",
        speed
    );
}

#[test]
fn test_speed_is_insensitive_to_sample_density() {
    let start = Instant { nanos: 0 };
    let at_10s = start.plus(Duration::from_secs(10));
    let mut dense = SpeedCalculator::new(10);
    dense.refresh_at(start);
    for step in 1..=20 {
        dense.add_sample_at(100_000, start.plus(Duration::from_millis(step * 500)));
    }
    let mut sparse = SpeedCalculator::new(10);
    sparse.refresh_at(start);
    sparse.add_sample_at(1_000_000, start.plus(Duration::from_secs(5)));
    sparse.add_sample_at(1_000_000, start.plus(Duration::from_secs(10)));

    assert_eq!(dense.speed_at(at_10s), 200_000);
    assert_eq!(sparse.speed_at(at_10s), dense.speed_at(at_10s));
}

#[test]
fn test_reset_clears_stale_baseline() {
    let mut calc = SpeedCalculator::new(10);
    let start = Instant { nanos: 0 };
    calc.refresh_at(start);
    for second in 1..=5 {
        calc.add_sample_at(1024 * 1024, start.plus(Duration::from_secs(second)));
    }
    let resumed = start.plus(Duration::from_secs(305));
    calc.reset();
    calc.refresh_at(resumed);
    calc.add_sample_at(1024 * 1024, resumed.plus(Duration::from_secs(1)));
    assert_eq!(calc.speed_at(resumed.plus(Duration::from_secs(1))), 1024 * 1024);
}

#[test]
fn test_reset() {
    let mut calc = SpeedCalculator::new(5);

    calc.add_sample(1024);
    calc.add_sample(2048);
    assert_eq!(calc.total_bytes(), 3072);

    calc.reset();
    assert_eq!(calc.total_bytes(), 0);
    assert_eq!(calc.speed(), 0);
}

#[test]
fn test_format_speed() {
    assert_eq!(format_bytes_per_second(500), "500 B/s");
    assert_eq!(format_bytes_per_second(1024), "1.00 KB/s");
    assert_eq!(format_bytes_per_second(1024 * 1024), "1.00 MB/s");
    assert_eq!(format_bytes_per_second(1024 * 1024 * 1024), "1.00 GB/s");
}

#[test]
fn test_format_eta() {
    assert_eq!(format_eta(0), "即将完成");
    assert_eq!(format_eta(30), "30秒");
    assert_eq!(format_eta(90), "1分钟30秒");
    assert_eq!(format_eta(3661), "1小时1分钟");
}

#[test]
fn rounds_speeds_to_two_digits() {
    assert_eq!(format_bytes_per_second(0), "0 B/s");
    assert_eq!(format_bytes_per_second(1023), "1023 B/s");
    assert_eq!(format_bytes_per_second(1536), "1.50 KB/s");
    assert_eq!(format_bytes_per_second(1_300_000), "1.24 MB/s");
}

#[test]
fn default_window_and_clock_work_together() {
    let mut calc = SpeedCalculator::with_default_window();
    calc.add_sample(10);
    calc.refresh();
    assert_eq!(calc.total_bytes(), 10);
    assert!(calc.sample_count() >= 1);
    assert_eq!(calc.format_speed(), "0 B/s");
}

#[test]
fn speed_over_a_second_of_samples() {
    let mut calc = SpeedCalculator::new(5);
    let start = Instant { nanos: 7 };
    calc.refresh_at(start);
    calc.add_sample_at(3, start.plus(Duration::from_secs(2)));
    assert_eq!(calc.speed_at(start.plus(Duration::from_secs(2))), 1);
}

#[test]
fn speeds_are_shown_as_std_shows_them() {
    for n in 1024u64..6000 {
        assert_eq!(format_bytes_per_second(n), format!("{:.2} KB/s", n as f64 / 1024.0));
    }
    for n in [1_048_576u64, 1_179_648, 1_441_792, 999_999_999] {
        assert_eq!(format_bytes_per_second(n), format!("{:.2} MB/s", n as f64 / 1_048_576.0));
    }
    for n in [1_073_741_824u64, 1_207_959_552, 5_000_000_000_000] {
        assert_eq!(format_bytes_per_second(n), format!("{:.2} GB/s", n as f64 / 1_073_741_824.0));
    }
}
