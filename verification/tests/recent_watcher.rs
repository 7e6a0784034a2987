use netdisk_sync::netdisk::recent_watcher::{RecentFile, RecentWatcher, RecentWatcherConfig};
use netdisk_sync::time::Duration;

#[test]
fn default_config_in_safe_range() {
    let cfg = RecentWatcherConfig::default();
    assert_eq!(cfg.top_n, 200);
    assert!(cfg.min_interval.nanos < cfg.max_interval.nanos);
    assert!(cfg.min_interval.nanos >= Duration::from_secs(30).nanos);
    assert!(cfg.max_interval.nanos <= Duration::from_secs(30 * 60).nanos);
    assert!(cfg.silent_baseline);
}

#[test]
fn config_silent_baseline_can_be_toggled() {
    let mut cfg = RecentWatcherConfig::default();
    assert!(cfg.silent_baseline);
    cfg.silent_baseline = false;
    assert!(!cfg.silent_baseline);
}

fn file(fs_id: u64) -> RecentFile {
    RecentFile {
        fs_id,
        path: format!("/f/{}", fs_id),
        server_filename: format!("{}", fs_id),
        size: 7,
        isdir: 0,
        server_mtime: 100,
    }
}

#[test]
fn a_watch_starts_once_and_stops_once() {
    let mut w = RecentWatcher::new(5);
    assert!(!w.running());
    assert!(w.start());
    assert!(w.running());
    assert!(!w.start());
    assert!(w.stop());
    assert!(!w.stop());
    assert!(!w.running());
}

#[test]
fn the_first_listing_is_silent_and_news_come_once() {
    let mut w = RecentWatcher::new(5);
    assert!(w.diff_and_publish(&vec![file(1), file(2)], true).is_empty());
    let news = w.diff_and_publish(&vec![file(3), file(1), file(3)], true);
    assert_eq!(news.len(), 1);
    assert_eq!(news[0].fs_id, 3);
    assert_eq!(news[0].path, "/f/3");
    assert_eq!(news[0].filename, "3");
    assert_eq!(news[0].event_id, 1);
    assert_eq!(news[0].account_uid, 5);
    assert!(!news[0].is_dir);
    assert!(w.diff_and_publish(&vec![file(3), file(1)], true).is_empty());
}

#[test]
fn a_loud_baseline_reports_the_first_listing() {
    let cfg = RecentWatcherConfig { silent_baseline: false, ..RecentWatcherConfig::default() };
    let mut w = RecentWatcher::with_config(5, cfg);
    assert_eq!(w.diff_and_publish(&vec![file(1), file(2)], true).len(), 2);
}

#[test]
fn the_interval_backs_off_up_to_the_longest() {
    let mut w = RecentWatcher::new(5);
    assert_eq!(w.after_poll(Some(0)).nanos, Duration::from_secs(120).nanos);
    assert_eq!(w.after_poll(Some(0)).nanos, Duration::from_secs(240).nanos);
    assert_eq!(w.after_poll(Some(0)).nanos, Duration::from_secs(300).nanos);
    assert_eq!(w.after_poll(Some(0)).nanos, Duration::from_secs(300).nanos);
    assert_eq!(w.after_poll(Some(1)).nanos, Duration::from_secs(60).nanos);
    assert_eq!(w.after_poll(None).nanos, Duration::from_secs(300).nanos);
}

#[test]
fn a_poll_gives_the_news_and_the_time_of_the_next() {
    let mut w = RecentWatcher::new(5);
    let (news, wait) = w.polled(Some((0, vec![file(1)])), true);
    assert!(news.is_empty());
    assert_eq!(wait.nanos, Duration::from_secs(120).nanos);
    let (news, wait) = w.polled(Some((0, vec![file(1), file(2)])), true);
    assert_eq!(news.len(), 1);
    assert_eq!(wait.nanos, Duration::from_secs(60).nanos);
    let (news, wait) = w.polled(Some((-6, vec![file(3)])), true);
    assert!(news.is_empty());
    assert_eq!(wait.nanos, Duration::from_secs(300).nanos);
    let (_, wait) = w.polled(None, true);
    assert_eq!(wait.nanos, Duration::from_secs(300).nanos);
}

#[test]
fn only_the_first_listing_is_silent() {
    let mut w = RecentWatcher::new(5);
    assert!(w.diff_and_publish(&vec![], true).is_empty());
    let news = w.diff_and_publish(&vec![file(7)], true);
    assert_eq!(news.len(), 1);
    assert_eq!(news[0].fs_id, 7);
}
