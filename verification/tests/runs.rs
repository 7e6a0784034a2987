use netdisk_sync::collections::PathSet;
use netdisk_sync::share_sync::capture::{
    Capture, CaptureAsk, CaptureOrder, CapturePhase, ListFailure,
};
use netdisk_sync::share_sync::config::{PollConfig, ShareSubscription};
use netdisk_sync::share_sync::diff::{LocalTarget, ShareDiff, SyncTarget};
use netdisk_sync::share_sync::error::ShareSyncError;
use netdisk_sync::share_sync::events::{DiffSummary, Effect, RunStatus, ShareSyncEvent};
use netdisk_sync::share_sync::manager::ShareSyncManager;
use netdisk_sync::share_sync::resume::{QueueAsk, ResumeQueue, ResumedAsk, ResumedRun};
use netdisk_sync::share_sync::run::{
    progress_frame, ApplyOutcome, CaptureFailure, CaptureStage, RunItem,
};
use netdisk_sync::share_sync::scan::{
    backoff_ms, effective_password, list_retry_backoff_ms, list_retry_limit, password_to_verify,
    retry_delay, PageStep, ScanStep, ShareScan, SnapshotCollector,
};
use netdisk_sync::share_sync::snapshot::{
    CapturedShare, ScanCache, ShareSnapshot, ShareSnapshotItem,
};
use netdisk_sync::share_sync::startup::{targets_to_resume, ResumeTarget, RunRecord};
use netdisk_sync::share_sync::submit::{
    delete_targets, deleted_locally, local_delete_target, rename_target, renamed, LocalDelete,
    RenameReply,
};
use netdisk_sync::share_sync::subtasks::{Progress, ShareSyncSubtask};
use netdisk_sync::share_sync::sync_run::{RunAsk, RunPhase, RunSettings, SyncRun};
use netdisk_sync::share_sync::wait::{
    env_duration_secs, env_u32, has_free_download_slot, is_waiting_for_download_slot,
    share_sync_stall_retry_after,
    share_sync_stall_retry_cooldown, share_sync_stall_retry_max, share_sync_task_hard_timeout,
    share_sync_task_idle_timeout, TaskWait, WaitAction, WaitLimits,
};
use netdisk_sync::downloader::task::TaskStatus;
use netdisk_sync::time::{Duration, Instant};
use netdisk_sync::transfer::{
    ShareFileListResult, ShareKind, ShareLink, SharePageInfo, SharedFileInfo, TransferStatus,
    TransferTask,
};

fn sub(id: &str) -> ShareSubscription {
    ShareSubscription {
        id: id.into(),
        name: "n".into(),
        share_url: "https://pan.baidu.com/s/1abc".into(),
        password: None,
        include_paths: vec![],
        exclude_patterns: vec![],
        targets: vec![SyncTarget::Local(LocalTarget { local_path: "/data".into() })],
        enabled: true,
        poll_config: PollConfig { enabled: false, interval_secs: 0 },
        owner_uid: 9,
        created_at: 1,
        updated_at: 1,
        link_invalid: false,
        link_invalid_reason: None,
        consecutive_link_failures: 0,
    }
}

fn manager() -> ShareSyncManager {
    ShareSyncManager::new(vec![sub("s"), sub("t")], None).0
}

fn settings() -> RunSettings {
    RunSettings { max_retries: 2, base_ms: 100, threshold: 1, whole_dirs: false }
}

fn row(id: &str, kind: &str, status: &str) -> ShareSyncSubtask {
    ShareSyncSubtask {
        task_id: id.into(),
        name: id.into(),
        kind: kind.into(),
        status: status.into(),
        downloaded: 0,
        total: 10,
        progress: Progress { done: 0, total: 10 },
        speed: 0,
        eta_seconds: None,
        parent_task_id: None,
        owner_uid: 9,
    }
}

fn share() -> CapturedShare {
    CapturedShare {
        short_key: "1abc".into(),
        shareid: "sid".into(),
        uk: "uk".into(),
        share_uk: "uk".into(),
        bdstoken: "".into(),
        kind: ShareKind::Personal,
        password: None,
        randsk: None,
    }
}

fn snapshot() -> ShareSnapshot {
    ShareSnapshot::with_items("", vec![ShareSnapshotItem::new("/a.txt", "a.txt", 7, 3, false)])
}

fn no_difference() -> ShareDiff {
    ShareDiff { added: vec![], removed: vec![], modified: vec![], unchanged_count: 1 }
}

fn begun(m: &mut ShareSyncManager, id: &str) -> SyncRun {
    let (mut run, action) = SyncRun::begin(m, id, None, settings(), 5);
    assert!(matches!(action.ask, RunAsk::FindAccount { owner_uid: 9 }));
    assert!(m.is_running(id));
    let action = run.account_found(m, true, true, 5);
    match action.ask {
        RunAsk::StoreRun { run: new } => {
            assert_eq!(new.subscription_id, id);
            assert_eq!(new.run_id, run.run_id);
        }
        _ => panic!("the run is stored"),
    }
    let action = run.run_stored(m, Ok(()));
    assert!(matches!(
        &action.effects[..],
        [Effect::Publish { event: ShareSyncEvent::RunStarted { owner_uid: 9, .. } }]
    ));
    assert!(matches!(action.ask, RunAsk::ListRows));
    run
}

#[test]
fn a_run_goes_from_the_account_to_its_end() {
    let mut m = manager();
    let mut run = begun(&mut m, "s");
    let action = run.rows_listed(&vec![row("x", "transfer", "transferring")]);
    assert!(matches!(
        &action.effects[..],
        [Effect::DeleteTasks { owner_uid: 9, backup_config_id }] if backup_config_id.ends_with("s")
    ));
    assert!(matches!(action.ask, RunAsk::Capture { after_ms: 0, cache } if cache.is_empty()));
    let action = run.capture_done(&mut m, Ok((share(), snapshot())), ScanCache::new(), 6);
    assert!(matches!(action.ask, RunAsk::Compare));
    assert_eq!(run.taken.as_ref().unwrap().1.subscription_id, "s");
    let action = run.compared(None, no_difference(), &vec![vec![None]]);
    match action.ask {
        RunAsk::Apply { found, whole_dirs } => {
            assert_eq!(found.modified.len() + found.added.len(), 1);
            assert_eq!(whole_dirs, settings().whole_dirs);
        }
        _ => panic!("the difference is carried out"),
    }
    assert!(matches!(
        &action.effects[..],
        [Effect::Publish { event: ShareSyncEvent::DiffDetected { .. } }]
    ));
    let outcome = ApplyOutcome {
        run_id: run.run_id.clone(),
        status: RunStatus::Completed,
        diff_summary: DiffSummary::default(),
        error: None,
        resource_skipped: false,
        transient_skipped: false,
    };
    let action = run.applied(&mut m, outcome, 40);
    assert!(matches!(action.ask, RunAsk::Done { result: Ok(_) }));
    assert!(action.effects.iter().any(|e| matches!(e, Effect::PromoteSnapshot { .. })));
    assert_eq!(run.phase, RunPhase::Over);
    assert!(!m.is_running("s"));
}

fn failure(may_pass: bool) -> CaptureFailure {
    CaptureFailure {
        stage: CaptureStage::Listing,
        error: ShareSyncError::ShareLinkError("gone".into()),
        text: "gone".into(),
        may_pass,
        link_invalid: !may_pass,
    }
}

#[test]
fn a_run_captures_again_and_then_gives_up() {
    let mut m = manager();
    let mut run = begun(&mut m, "s");
    run.rows_listed(&vec![]);
    let mut kept = ScanCache::new();
    kept.put("/up/one".into(), vec![]);
    let action = run.capture_done(&mut m, Err(failure(true)), kept, 6);
    let kept = match action.ask {
        RunAsk::Capture { after_ms: 100, cache } => cache,
        _ => panic!("the share is captured again"),
    };
    assert!(kept.get("/up/one").is_some());
    let action = run.capture_done(&mut m, Err(failure(true)), kept, 6);
    let kept = match action.ask {
        RunAsk::Capture { after_ms: 200, cache } => cache,
        _ => panic!("the share is captured again"),
    };
    assert_eq!(kept.len(), 1);
    let action = run.capture_done(&mut m, Err(failure(false)), kept, 6);
    assert!(matches!(
        action.ask,
        RunAsk::Done { result: Err(ShareSyncError::ShareLinkError(_)) }
    ));
    assert!(action.effects.iter().any(|e| matches!(
        e,
        Effect::FinishRun { status: RunStatus::Failed, .. }
    )));
    assert!(!m.is_running("s"));
    assert!(m.get_subscription("s").unwrap().link_invalid);
}

#[test]
fn a_run_that_cannot_be_stored_is_left() {
    let mut m = manager();
    let (mut run, _) = SyncRun::begin(&mut m, "s", None, settings(), 5);
    run.account_found(&mut m, true, true, 5);
    let action = run.run_stored(&mut m, Err(ShareSyncError::Internal("disk".into())));
    assert!(matches!(action.ask, RunAsk::Done { result: Err(ShareSyncError::Internal(_)) }));
    assert!(!m.is_running("s"));
}

#[test]
fn an_announced_run_keeps_its_id_and_says_why_it_stopped() {
    let mut m = manager();
    let (_, action) = SyncRun::begin(&mut m, "other", Some("r1".into()), settings(), 5);
    assert!(matches!(
        action.ask,
        RunAsk::Done { result: Err(ShareSyncError::SubscriptionNotFound(_)) }
    ));
    assert!(!m.is_running("other"));
    let (mut run, _) = SyncRun::begin(&mut m, "s", Some("r2".into()), settings(), 5);
    let action = run.account_found(&mut m, true, true, 5);
    assert!(matches!(action.ask, RunAsk::ListRows));
    assert_eq!(run.run_id, "r2");
    let (_, action) = SyncRun::begin(&mut m, "s", Some("r3".into()), settings(), 5);
    assert!(matches!(
        action.ask,
        RunAsk::Done { result: Err(ShareSyncError::AlreadyRunning(_)) }
    ));
    assert!(m.is_running("s"));
}

#[test]
fn a_run_stops_at_an_unsafe_path() {
    let mut m = manager();
    let mut run = begun(&mut m, "s");
    run.rows_listed(&vec![]);
    let bad = ShareSnapshotItem::new("/../x", "x", 7, 3, false);
    let captured = Ok((share(), ShareSnapshot::with_items("", vec![bad])));
    run.capture_done(&mut m, captured, ScanCache::new(), 6);
    let action = run.compared(None, no_difference(), &vec![vec![None]]);
    assert!(matches!(action.ask, RunAsk::ShowError));
    let action = run.error_shown(&mut m, "unsafe", 6);
    match &action.effects[..] {
        [.., Effect::Publish { event: ShareSyncEvent::RunFailed { error, .. } }] => {
            assert_eq!(error, "本地目标校验失败: unsafe")
        }
        other => panic!("{other:?}"),
    }
    assert!(matches!(action.ask, RunAsk::Done { result: Err(_) }));
    assert!(!m.is_running("s"));
}

fn at(secs: u64) -> Instant {
    Instant { nanos: 0 }.plus(Duration::from_secs(secs))
}

#[test]
fn a_run_that_was_taken_up_wakes_its_downloads() {
    let mut m = manager();
    let (mut run, ask) = ResumedRun::begin(&mut m, "s", "r", 9, at(0), None);
    assert!(matches!(ask, ResumedAsk::FindTransfer));
    let (effects, ask) = run.transfer_found(&mut m, true);
    assert!(matches!(&effects[..], [Effect::MarkRunRunning { run_id }] if run_id == "r"));
    assert!(matches!(ask, ResumedAsk::Look { .. }));
    assert!(matches!(run.look(at(0)), ResumedAsk::AskSlot));
    assert!(matches!(run.slot_asked(true), ResumedAsk::ListRows));
    let rows = vec![row("d", "download", "paused")];
    match run.rows_listed(&rows) {
        ResumedAsk::Wake { rows } => assert_eq!(rows[0].task_id, "d"),
        other => panic!("{other:?}"),
    }
    assert!(matches!(run.woken(), ResumedAsk::ListRows));
    assert!(matches!(run.rows_listed(&rows), ResumedAsk::Look { after_secs: 2 }));
    assert!(matches!(run.look(at(3)), ResumedAsk::ListRows));
    assert!(matches!(
        run.rows_listed(&vec![row("d", "download", "completed")]),
        ResumedAsk::ListItems
    ));
    let items = vec![RunItem { id: 4, status: "running".into(), transfer_task_id: None }];
    let effects = run.items_listed(&mut m, &items, &vec![], 8);
    assert!(effects.iter().any(|e| matches!(
        e,
        Effect::FinishRun { status: RunStatus::Completed, .. }
    )));
    assert!(effects.iter().any(|e| matches!(e, Effect::PromoteSnapshot { .. })));
    assert!(!m.is_running("s"));
}

#[test]
fn a_run_is_not_taken_up_twice_nor_forever() {
    let mut m = manager();
    assert!(m.enter_run("s"));
    let (_, ask) = ResumedRun::begin(&mut m, "s", "r", 9, at(0), None);
    assert!(matches!(ask, ResumedAsk::Done));
    let (mut run, _) =
        ResumedRun::begin(&mut m, "t", "r", 9, at(0), Some(Duration::from_secs(60)));
    run.transfer_found(&mut m, true);
    assert!(matches!(run.look(at(61)), ResumedAsk::ListItems));
    let (mut run, _) = ResumedRun::begin(&mut manager(), "t", "r", 9, at(0), None);
    let (effects, ask) = run.transfer_found(&mut m, false);
    assert!(effects.is_empty() && matches!(ask, ResumedAsk::Done));
    assert!(!m.is_running("t"));
}

fn target(fresh: &[&str], stale: &[&str]) -> ResumeTarget {
    ResumeTarget {
        fresh: fresh.iter().map(|s| s.to_string()).collect(),
        stale: stale.iter().map(|s| s.to_string()).collect(),
    }
}

#[test]
fn interrupted_runs_are_tried_in_order() {
    let m = manager();
    let mut q = ResumeQueue::begin(vec![
        ("gone".into(), target(&["r0"], &[])),
        ("s".into(), target(&["r1"], &["r2"])),
        ("t".into(), target(&[], &["r3"])),
    ]);
    assert!(matches!(q.next(&m), QueueAsk::FindAccount { after_secs: 0, owner_uid: 9 }));
    assert!(matches!(
        q.account_found(&m, true, false),
        QueueAsk::FindAccount { after_secs: 10, owner_uid: 9 }
    ));
    assert!(matches!(
        q.account_found(&m, true, true),
        QueueAsk::Probe { id, run_id } if id == "s" && run_id == "r1"
    ));
    assert!(matches!(q.probed(&m, false), QueueAsk::Probe { run_id, .. } if run_id == "r2"));
    match q.probed(&m, false) {
        QueueAsk::Rerun { id, effects } => {
            assert_eq!(id, "s");
            assert!(matches!(&effects[0], Effect::DeleteSnapshot { run_id } if run_id == "r1"));
        }
        other => panic!("{other:?}"),
    }
    assert!(matches!(q.next(&m), QueueAsk::FindAccount { .. }));
    assert!(matches!(
        q.account_found(&m, true, true),
        QueueAsk::Probe { id, run_id } if id == "t" && run_id == "r3"
    ));
    assert!(matches!(q.probed(&m, false), QueueAsk::Done));
}

#[test]
fn an_account_that_is_never_ready_is_waited_for_after_each_try() {
    let m = manager();
    let mut q = ResumeQueue::begin(vec![
        ("s".into(), target(&["r1"], &[])),
        ("t".into(), target(&["r2"], &[])),
    ]);
    q.next(&m);
    for _ in 0..11 {
        assert!(matches!(
            q.account_found(&m, false, true),
            QueueAsk::FindAccount { after_secs: 10, owner_uid: 9 }
        ));
    }
    assert!(matches!(q.account_found(&m, false, true), QueueAsk::Wait { secs: 10 }));
    assert!(matches!(q.next(&m), QueueAsk::FindAccount { after_secs: 0, owner_uid: 9 }));
    assert!(matches!(
        q.account_found(&m, true, true),
        QueueAsk::Probe { id, run_id } if id == "t" && run_id == "r2"
    ));
}

#[test]
fn a_run_that_can_be_resumed_is_taken_up() {
    let m = manager();
    let mut q = ResumeQueue::begin(vec![("s".into(), target(&["r1"], &[]))]);
    q.next(&m);
    q.account_found(&m, true, true);
    assert!(matches!(
        q.probed(&m, true),
        QueueAsk::TakeUp { id, run_id, owner_uid: 9 } if id == "s" && run_id == "r1"
    ));
    assert!(matches!(q.next(&m), QueueAsk::Done));
}

fn task(status: TransferStatus) -> TransferTask {
    TransferTask {
        id: "tr".into(),
        file_name: None,
        save_path: "/".into(),
        status,
        transferred_count: 0,
        total_count: 1,
        error: None,
        download_task_ids: vec![],
        completed_download_ids: vec![],
        failed_download_ids: vec![],
        is_internal: true,
        backup_config_id: None,
        updated_at: 0,
    }
}

fn wait(require_download: bool) -> TaskWait {
    let limits = WaitLimits {
        idle_timeout: Duration::from_secs(100),
        hard_timeout: Some(Duration::from_secs(1000)),
        stall_retry_after: Some(Duration::from_secs(50)),
        stall_retry_max: 1,
    };
    TaskWait::begin("tr", require_download, limits, at(0))
}

#[test]
fn a_wait_ends_with_its_task() {
    let rows = vec![];
    let mut w = wait(false);
    assert!(matches!(
        w.look(&Some(task(TransferStatus::Completed)), &rows, at(1), at(1)),
        WaitAction::Finish(Ok(()))
    ));
    assert!(matches!(
        w.look(&Some(task(TransferStatus::Transferred)), &rows, at(1), at(1)),
        WaitAction::Finish(Ok(()))
    ));
    let mut w = wait(true);
    assert!(matches!(
        w.look(&Some(task(TransferStatus::Transferred)), &rows, at(1), at(1)),
        WaitAction::Finish(Err(ShareSyncError::DownloadError(_)))
    ));
    assert!(matches!(
        w.look(&Some(task(TransferStatus::TransferFailed)), &rows, at(1), at(1)),
        WaitAction::Finish(Err(ShareSyncError::TransferError(m))) if m == "转存失败"
    ));
    assert!(matches!(
        w.look(&Some(task(TransferStatus::DownloadFailed)), &rows, at(1), at(1)),
        WaitAction::Finish(Err(ShareSyncError::DownloadError(m))) if m == "下载失败"
    ));
    assert!(matches!(
        w.look(&None, &rows, at(1), at(1)),
        WaitAction::Finish(Err(ShareSyncError::TransferError(m))) if m == "转存任务不存在: tr"
    ));
}

#[test]
fn a_task_that_stands_still_is_restarted_once_and_then_given_up() {
    let running = Some(task(TransferStatus::Downloading));
    let status = TransferStatus::Downloading;
    let rows = vec![row("d", "download", "downloading")];
    let mut w = wait(true);
    let first = w.look(&running, &rows, at(1), at(1));
    let first = match first {
        WaitAction::Probe => w.after_probe(false, status, at(1)),
        other => other,
    };
    assert!(matches!(first, WaitAction::Sleep));
    assert!(matches!(w.look(&running, &rows, at(60), at(60)), WaitAction::Probe));
    assert!(matches!(w.after_probe(false, status, at(60)), WaitAction::Restart));
    assert!(matches!(w.after_restart(1, status, at(60), at(61)), WaitAction::Sleep));
    assert_eq!(w.stall_retry_attempts, 1);
    assert!(matches!(w.look(&running, &rows, at(120), at(120)), WaitAction::Probe));
    assert!(matches!(w.after_probe(true, status, at(120)), WaitAction::Sleep));
    assert!(matches!(w.look(&running, &rows, at(221), at(221)), WaitAction::Probe));
    assert!(matches!(
        w.after_probe(false, status, at(221)),
        WaitAction::Finish(Err(_))
    ));
}

#[test]
fn paused_downloads_are_woken_and_time_runs_out() {
    let running = Some(task(TransferStatus::Downloading));
    let rows = vec![row("d", "download", "paused")];
    let mut w = wait(true);
    match w.look(&running, &rows, at(1), at(1)) {
        WaitAction::Wake(rows) => assert_eq!(rows.len(), 1),
        other => panic!("{other:?}"),
    }
    assert!(matches!(
        w.after_wake(1, running.as_ref().unwrap(), &rows, at(1), at(1)),
        WaitAction::Sleep
    ));
    let mut w = wait(false);
    assert!(matches!(
        w.look(&Some(task(TransferStatus::Transferring)), &vec![], at(1001), at(1001)),
        WaitAction::Finish(Err(_))
    ));
}

#[test]
fn limits_of_a_wait_can_be_set() {
    assert_eq!(env_duration_secs(Some("7")), Some(Duration::from_secs(7)));
    assert_eq!(env_duration_secs(Some("x")), None);
    assert_eq!(env_u32(Some("5")), Some(5));
    assert_eq!(env_u32(Some(" 5 ")), None);
    assert_eq!(
        share_sync_task_idle_timeout(Some("30"), Duration::from_secs(1)),
        Duration::from_secs(30)
    );
    assert_eq!(
        share_sync_task_idle_timeout(None, Duration::from_secs(1)),
        Duration::from_secs(1)
    );
    assert_eq!(share_sync_task_hard_timeout(Some("0")), None);
    assert_eq!(share_sync_task_hard_timeout(None), Some(Duration::from_secs(604_800)));
    assert_eq!(share_sync_stall_retry_after(Some("0"), Duration::from_secs(9)), None);
    assert_eq!(share_sync_stall_retry_max(None), 3);
    assert_eq!(share_sync_stall_retry_cooldown(None), Duration::from_secs(5));
    assert!(has_free_download_slot(false, 0));
    assert!(!has_free_download_slot(true, 0));
}

fn page(shareid: &str) -> SharePageInfo {
    SharePageInfo {
        shareid: shareid.into(),
        uk: "page-uk".into(),
        share_uk: "u2".into(),
        bdstoken: "t".into(),
        kind: ShareKind::Personal,
        short_key: "1abc".into(),
    }
}

fn link() -> ShareLink {
    ShareLink {
        short_key: "1abc".into(),
        raw_url: "https://pan.baidu.com/s/1abc".into(),
        password: Some("pw".into()),
        kind: ShareKind::Personal,
    }
}

fn entry(path: &str, fs_id: u64, is_dir: bool) -> SharedFileInfo {
    SharedFileInfo {
        fs_id,
        is_dir,
        path: path.into(),
        size: 1,
        name: path.rsplit('/').next().unwrap().into(),
    }
}

fn scan(includes: Vec<String>, excludes: Vec<String>, cache: Option<ScanCache>) -> ShareScan {
    let collector =
        SnapshotCollector::from_page(link(), page("sid"), None, None, includes, excludes);
    let root = ShareFileListResult {
        files: vec![
            entry("/up/one", 1, true),
            entry("/up/two", 2, true),
            entry("/up/top.txt", 3, false),
        ],
        uk: "".into(),
        shareid: "listed".into(),
        share_root_path: None,
    };
    ShareScan::begin(collector, root, cache)
}

#[test]
fn a_scan_walks_all_directories() {
    let mut s = scan(vec![], vec!["*.tmp".into()], Some(ScanCache::new()));
    match s.open_next() {
        ScanStep::List { dir, page } => {
            assert_eq!(dir, "/up/one");
            assert_eq!(page, 1);
        }
        _ => panic!("the first directory is listed"),
    }
    let files = (0..100).map(|i| entry(&format!("/up/one/{i}"), 100 + i, false)).collect();
    assert!(matches!(s.page_listed(files), Ok(PageStep::More { page: 2 })));
    match s.page_listed(vec![entry("/up/one/x.tmp", 300, false)]) {
        Ok(PageStep::DirDone(p)) => {
            assert_eq!(p.dirs_done, 1);
            assert_eq!(p.dirs_pending, 1);
            assert_eq!(p.current_dir, "/one");
        }
        _ => panic!("the directory is done"),
    }
    assert!(matches!(s.open_next(), ScanStep::List { dir, .. } if dir == "/up/two"));
    assert!(matches!(s.page_listed(vec![]), Ok(PageStep::DirDone(_))));
    assert!(matches!(s.open_next(), ScanStep::Finished));
    let cache = s.cache.take().unwrap();
    assert_eq!(cache.get("/up/one").unwrap().len(), 101);
    let (share, snapshot) = s.finish();
    assert_eq!(share.shareid, "listed");
    assert_eq!(share.uk, "page-uk");
    assert_eq!(snapshot.items.len(), 103);
    let one = snapshot.items.iter().find(|i| i.path == "/one").unwrap();
    assert!(one.subtree_pruned);

    let mut again = scan(vec![], vec![], Some(cache));
    assert!(matches!(again.open_next(), ScanStep::Cached(p) if p.cached_hits == 1));
}

#[test]
fn a_walk_ends_with_all_that_was_listed() {
    let mut s = scan(vec![], vec![], None);
    let mut opened: Vec<String> = vec![];
    loop {
        match s.open_next() {
            ScanStep::Finished => break,
            ScanStep::List { dir, .. } => {
                let batch = match dir.as_str() {
                    "/up/one" => vec![
                        entry("/up/one/deep", 4, true),
                        entry("/up/one/a", 5, false),
                        entry("/up/one/a", 5, false),
                        entry("/up/two", 2, true),
                    ],
                    "/up/one/deep" => vec![entry("/up/one/deep/b", 6, false)],
                    _ => vec![entry("/up/two/a", 7, false), entry("/up/two/a", 8, false)],
                };
                opened.push(dir);
                assert!(matches!(s.page_listed(batch), Ok(PageStep::DirDone(_))));
            }
            ScanStep::Skipped | ScanStep::Cached(_) => panic!("each directory is listed"),
        }
    }
    assert_eq!(opened, vec!["/up/one", "/up/two", "/up/one/deep"]);
    assert_eq!(s.dirs_done, 3);
    let (_, snapshot) = s.finish();
    let mut got: Vec<(&str, u64)> =
        snapshot.items.iter().map(|i| (i.path.as_str(), i.fs_id)).collect();
    got.sort();
    assert_eq!(
        got,
        vec![
            ("/one", 1),
            ("/one/a", 5),
            ("/one/deep", 4),
            ("/one/deep/b", 6),
            ("/top.txt", 3),
            ("/two", 2),
            ("/two/a", 7),
            ("/two/a", 8),
        ]
    );
}

#[test]
fn a_scan_leaves_out_what_is_not_wanted() {
    let mut s = scan(vec!["/two".into()], vec![], None);
    loop {
        match s.open_next() {
            ScanStep::Finished => break,
            ScanStep::List { dir, .. } => {
                assert_eq!(dir, "/up/two");
                assert!(s.page_listed(vec![entry("/up/two/a", 9, false)]).is_ok());
            }
            ScanStep::Skipped | ScanStep::Cached(_) => {}
        }
    }
    let (_, snapshot) = s.finish();
    let paths: Vec<&str> = snapshot.items.iter().map(|i| i.path.as_str()).collect();
    assert_eq!(paths, vec!["/two", "/two/a"]);
}

#[test]
fn a_share_is_opened_with_its_password() {
    assert_eq!(effective_password(None, &link()).as_deref(), Some("pw"));
    assert_eq!(effective_password(Some("own".into()), &link()).as_deref(), Some("own"));
    assert!(matches!(password_to_verify(&page("sid"), &None), Ok(None)));
    assert!(matches!(password_to_verify(&page("sid"), &Some("".into())), Ok(None)));
    assert!(matches!(
        password_to_verify(&page("sid"), &Some("pw".into())),
        Ok(Some(p)) if p == "pw"
    ));
    assert!(matches!(
        password_to_verify(&page(""), &None),
        Err(ShareSyncError::ShareLinkError(_))
    ));
}

#[test]
fn delays_double_until_no_attempt_is_left() {
    assert_eq!(backoff_ms(100, 0), 100);
    assert_eq!(backoff_ms(100, 3), 800);
    assert_eq!(retry_delay(true, 1, 3, 100), Some(200));
    assert_eq!(retry_delay(true, 3, 3, 100), None);
    assert_eq!(retry_delay(false, 0, 3, 100), None);
}

fn order(url: &str) -> CaptureOrder {
    CaptureOrder {
        share_url: url.into(),
        password: None,
        include_paths: vec![],
        exclude_patterns: vec![],
        max_retries: 1,
        base_ms: 50,
    }
}

fn root() -> ShareFileListResult {
    ShareFileListResult {
        files: vec![entry("/up/one", 1, true), entry("/up/top.txt", 3, false)],
        uk: "".into(),
        shareid: "".into(),
        share_root_path: None,
    }
}

fn listing_failed(may_pass: bool) -> ListFailure {
    ListFailure { text: "timeout".into(), may_pass }
}

#[test]
fn a_share_is_captured_from_its_link() {
    let (c, ask) = Capture::begin(order("https://pan.baidu.com/s/1abc?pwd=pw12"), None);
    assert!(matches!(ask, CaptureAsk::OpenPage));
    let (c, ask) = c.page_opened(Ok(page("sid")));
    match ask {
        CaptureAsk::Verify { password, referer } => {
            assert_eq!(password, "pw12");
            assert_eq!(referer, "https://pan.baidu.com/s/1abc");
        }
        _ => panic!("the password is verified"),
    }
    let (c, ask) = c.verified(Ok("key".into()));
    assert!(matches!(ask, CaptureAsk::ListRoot { page: 1, after_ms: 0 }));
    let (c, progress, ask) = c.root_listed(Err(listing_failed(true)));
    assert!(progress.is_none() && matches!(ask, CaptureAsk::ListRoot { page: 1, after_ms: 50 }));
    let (c, progress, ask) = c.root_listed(Ok(root()));
    assert_eq!(progress.unwrap().dirs_pending, 1);
    assert!(matches!(ask, CaptureAsk::GoOn));
    let (c, _, ask) = c.go_on();
    assert!(matches!(
        ask,
        CaptureAsk::ListDir { dir, page: 1, after_ms: 0 } if dir == "/up/one"
    ));
    let (c, _, ask) = c.dir_listed(Err(listing_failed(true)));
    assert!(matches!(
        ask,
        CaptureAsk::ListDir { dir, page: 1, after_ms: 50 } if dir == "/up/one"
    ));
    let (c, progress, ask) = c.dir_listed(Ok(vec![entry("/up/one/a", 5, false)]));
    assert_eq!(progress.unwrap().dirs_done, 1);
    assert!(matches!(ask, CaptureAsk::GoOn));
    let (c, _, ask) = c.go_on();
    assert!(matches!(c.phase, CapturePhase::Over));
    match ask {
        CaptureAsk::Done { result: Ok((share, shot)), stage: CaptureStage::Listing } => {
            assert_eq!(share.randsk.as_deref(), Some("key"));
            assert_eq!(share.shareid, "sid");
            assert_eq!(shot.items.len(), 3);
        }
        _ => panic!("the share was captured"),
    }
}

fn root_page(from: u64, n: u64, shareid: &str) -> ShareFileListResult {
    ShareFileListResult {
        files: (from..from + n).map(|i| entry(&format!("/up/{i}"), i, false)).collect(),
        uk: "".into(),
        shareid: shareid.into(),
        share_root_path: None,
    }
}

#[test]
fn the_top_directory_is_listed_to_its_end() {
    let (c, _) = Capture::begin(order("https://pan.baidu.com/s/1abc"), None);
    let (c, _) = c.page_opened(Ok(page("sid")));
    let (c, progress, ask) = c.root_listed(Ok(root_page(1, 100, "listed")));
    assert!(progress.is_none());
    assert!(matches!(ask, CaptureAsk::ListRoot { page: 2, after_ms: 0 }));
    let (c, _, ask) = c.root_listed(Err(listing_failed(true)));
    assert!(matches!(ask, CaptureAsk::ListRoot { page: 2, after_ms: 50 }));
    let (c, progress, ask) = c.root_listed(Ok(root_page(101, 1, "other")));
    assert_eq!(progress.unwrap().files_seen, 101);
    assert!(matches!(ask, CaptureAsk::GoOn));
    let (_, _, ask) = c.go_on();
    match ask {
        CaptureAsk::Done { result: Ok((share, shot)), .. } => {
            assert_eq!(shot.file_count(), 101);
            assert_eq!(share.shareid, "listed");
        }
        _ => panic!("the share was captured"),
    }
}

#[test]
fn another_attempt_goes_on_where_the_last_one_stopped() {
    let begin = |cache| {
        let (c, _) = Capture::begin(order("https://pan.baidu.com/s/1abc"), Some(cache));
        let (c, _) = c.page_opened(Ok(page("sid")));
        let mut top = root();
        top.files.push(entry("/up/two", 2, true));
        let (c, _, _) = c.root_listed(Ok(top));
        c.go_on()
    };
    let (c, _, ask) = begin(ScanCache::new());
    assert!(matches!(ask, CaptureAsk::ListDir { dir, .. } if dir == "/up/one"));
    let (c, _, _) = c.dir_listed(Ok(vec![entry("/up/one/a", 5, false)]));
    let (c, _, ask) = c.go_on();
    assert!(matches!(ask, CaptureAsk::ListDir { dir, .. } if dir == "/up/two"));
    let (c, _, ask) = c.dir_listed(Err(listing_failed(false)));
    assert!(matches!(ask, CaptureAsk::Done { result: Err(_), .. }));
    let (c, progress, ask) = begin(c.cache.unwrap());
    assert_eq!(progress.unwrap().cached_hits, 1);
    assert!(matches!(ask, CaptureAsk::GoOn));
    let (_, _, ask) = c.go_on();
    assert!(matches!(ask, CaptureAsk::ListDir { dir, .. } if dir == "/up/two"));
}

#[test]
fn a_capture_says_where_it_failed() {
    let failed = |ask: CaptureAsk| match ask {
        CaptureAsk::Done { result: Err(ShareSyncError::ShareLinkError(m)), stage } => (m, stage),
        _ => panic!("the capture fails"),
    };
    let (_, ask) = Capture::begin(order("https://example.com/"), None);
    assert_eq!(
        failed(ask),
        ("无效的分享链接：不是百度网盘链接".to_string(), CaptureStage::Opening)
    );
    let opened = || Capture::begin(order("https://pan.baidu.com/s/1abc?pwd=pw12"), None).0;
    let (_, ask) = opened().page_opened(Err("gone".into()));
    assert_eq!(failed(ask), ("gone".to_string(), CaptureStage::Opening));
    let (_, ask) = opened().page_opened(Ok(page("")));
    assert_eq!(
        failed(ask),
        ("分享页面返回的 shareid 为空".to_string(), CaptureStage::Opening)
    );
    let (c, _) = opened().page_opened(Ok(page("sid")));
    let (_, ask) = c.verified(Err("wrong".into()));
    assert_eq!(failed(ask), ("验证提取码失败: wrong".to_string(), CaptureStage::Opening));
    let (c, _) = Capture::begin(order("https://pan.baidu.com/s/1abc"), None);
    let (c, ask) = c.page_opened(Ok(page("sid")));
    assert!(matches!(ask, CaptureAsk::ListRoot { page: 1, after_ms: 0 }));
    let (_, _, ask) = c.root_listed(Err(listing_failed(false)));
    assert_eq!(failed(ask), ("timeout".to_string(), CaptureStage::Listing));
    let (c, _) = Capture::begin(order("https://pan.baidu.com/s/1abc"), Some(ScanCache::new()));
    let (c, _) = c.page_opened(Ok(page("sid")));
    let (c, _, _) = c.root_listed(Ok(root()));
    let (c, _, _) = c.go_on();
    let (c, _, _) = c.dir_listed(Err(listing_failed(true)));
    let (c, _, ask) = c.dir_listed(Err(listing_failed(true)));
    assert_eq!(failed(ask), ("timeout".to_string(), CaptureStage::Listing));
    assert!(c.cache.is_some());
}

#[test]
fn only_wanted_runs_are_taken_up_after_a_start() {
    let record = |run: &str, sub: &str| RunRecord {
        run_id: run.into(),
        subscription_id: sub.into(),
    };
    let mut m = manager();
    m.set_enabled("t", false, 9).unwrap();
    let interrupted = || Some(vec![record("r1", "s"), record("r2", "t"), record("r3", "gone")]);
    let stale = || Some(vec![record("r0", "s"), record("r1", "s")]);
    let targets = targets_to_resume(&m, true, interrupted(), stale());
    assert_eq!(targets.len(), 1);
    assert_eq!(targets[0].0, "s");
    assert_eq!(targets[0].1.fresh, vec!["r1"]);
    assert_eq!(targets[0].1.stale, vec!["r0"]);
    assert!(targets_to_resume(&m, false, interrupted(), stale()).is_empty());
    let targets = targets_to_resume(&m, true, None, stale());
    assert_eq!(targets[0].1.stale, vec!["r0", "r1"]);
}

#[test]
fn rows_are_told_until_they_are_done() {
    let mut reported = PathSet::new();
    let rows = vec![row("a", "download", "completed"), row("b", "download", "downloading")];
    let first = progress_frame("r", "s", 9, &rows, &mut reported);
    assert_eq!(first.len(), 2);
    assert!(matches!(
        &first[0],
        ShareSyncEvent::ItemProgress { run_id, row, owner_uid: 9, .. }
            if run_id == "r" && row.task_id == "a"
    ));
    assert_eq!(progress_frame("r", "s", 9, &rows, &mut reported).len(), 1);
}

#[test]
fn files_are_renamed_and_deleted() {
    assert_eq!(rename_target("a/b"), "/a/b");
    assert!(matches!(renamed("/a/b", "c", RenameReply::Done), Ok(p) if p == "/a/c"));
    assert!(matches!(
        renamed("/a/b", "c", RenameReply::Refused("no".into())),
        Err(ShareSyncError::TransferError(m)) if m == "网盘重命名失败: no"
    ));
    assert_eq!(delete_targets(&vec!["a".into(), "/b/".into()]), vec!["/a", "/b"]);
    assert_eq!(local_delete_target("//x/y"), "x/y");
    assert!(deleted_locally(LocalDelete::NotThere).is_ok());
    assert!(matches!(
        deleted_locally(LocalDelete::Failed("busy".into())),
        Err(ShareSyncError::FileSystemError(m)) if m == "busy"
    ));
}

#[test]
fn a_full_pool_makes_downloads_wait() {
    assert!(is_waiting_for_download_slot(true, 0, &[TaskStatus::Pending, TaskStatus::Paused]));
    assert!(!is_waiting_for_download_slot(true, 1, &[TaskStatus::Pending]));
    assert!(!is_waiting_for_download_slot(false, 0, &[TaskStatus::Pending]));
    let mixed = [TaskStatus::Pending, TaskStatus::Downloading];
    assert!(!is_waiting_for_download_slot(true, 0, &mixed));
    assert_eq!(list_retry_limit(None), 3);
    assert_eq!(list_retry_limit(Some("0")), 0);
    assert_eq!(list_retry_backoff_ms(Some("x")), 800);
}
