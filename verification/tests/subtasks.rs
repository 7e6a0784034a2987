use netdisk_sync::collections::PathSet;
use netdisk_sync::downloader::task::{DownloadTask, FolderDownload, FolderStatus, TaskStatus};
use netdisk_sync::share_sync::activity::task_activity_signature;
use netdisk_sync::share_sync::restart::{
    restart_plan, restartable_share_sync_download, RestartAction, RestartRun,
    RestartableShareSyncDownload,
};
use netdisk_sync::share_sync::subtasks::{
    any_download_failed, collect_share_sync_subtasks, collect_share_sync_subtasks_with_children,
    compute_eta_seconds, drop_orphan_children, folder_child_subtask, folder_has_queued_work,
    folder_subtask_status, is_terminal_run_item_status, is_terminal_subtask_status,
    no_progress_but_queued, paused_subtasks, residual_subtasks, rows_to_report,
    share_sync_backup_config_id, sum_running_speed, unfinished_downloads, unfinished_subtasks,
    visible_subtasks, FolderState, Progress, ShareSyncSubtask,
};
use netdisk_sync::time::Duration;
use netdisk_sync::transfer::{TransferStatus, TransferTask};

fn subtask(status: &str) -> ShareSyncSubtask {
    ShareSyncSubtask {
        task_id: "dl-1".into(),
        name: "a.bin".into(),
        kind: "download".into(),
        status: status.into(),
        downloaded: 0,
        total: 1024,
        progress: Progress { done: 0, total: 1024 },
        speed: 0,
        eta_seconds: None,
        parent_task_id: None,
        owner_uid: 1,
    }
}

fn child_subtask(task_id: &str, parent: &str, status: &str) -> ShareSyncSubtask {
    ShareSyncSubtask {
        task_id: task_id.into(),
        name: format!("{}.mp4", task_id),
        parent_task_id: Some(parent.into()),
        ..subtask(status)
    }
}

fn folder_row(task_id: &str, status: &str) -> ShareSyncSubtask {
    ShareSyncSubtask { task_id: task_id.into(), name: "某文件夹".into(), ..subtask(status) }
}

#[test]
fn test_drop_orphan_children_keeps_children_with_present_parent() {
    let subs = vec![
        folder_row("folder:f1", "downloading"),
        child_subtask("dl-1", "folder:f1", "downloading"),
        child_subtask("dl-2", "folder:f1", "pending"),
    ];
    let out = drop_orphan_children(subs);
    assert_eq!(out.len(), 3);
    assert_eq!(out[0].task_id, "folder:f1");
}

#[test]
fn test_drop_orphan_children_drops_children_without_parent() {
    let subs = vec![
        subtask("downloading"),
        child_subtask("dl-9", "folder:gone", "downloading"),
    ];
    let out = drop_orphan_children(subs);
    assert_eq!(out.len(), 1);
    assert_eq!(out[0].task_id, "dl-1");
}

#[test]
fn test_drop_orphan_children_noop_without_children() {
    assert!(drop_orphan_children(Vec::new()).is_empty());
    let flat = vec![subtask("downloading"), folder_row("folder:f1", "scanning")];
    assert_eq!(drop_orphan_children(flat).len(), 2);
}

#[test]
fn test_folder_child_subtask_prefers_relative_path() {
    let mut t = DownloadTask::new(
        1,
        "/来自：分享/剧集/第一季/01.mp4".to_string(),
        "/data/剧集/第一季/01.mp4".to_string(),
        2000,
        42,
    );
    t.id = "dl-7".to_string();
    t.status = TaskStatus::Downloading;
    t.downloaded_size = 500;
    t.speed = 100;
    t.relative_path = Some("第一季/01.mp4".to_string());

    let c = folder_child_subtask(t.clone(), "folder:f1", 42);
    assert_eq!(c.name, "第一季/01.mp4");
    assert_eq!(c.task_id, "dl-7");
    assert_eq!(c.parent_task_id.as_deref(), Some("folder:f1"));
    assert_eq!(c.kind, "download");
    assert_eq!(c.status, "downloading");
    assert_eq!(c.progress.millis() as f64 / 1000.0, 25.0);
    assert_eq!(c.eta_seconds, Some(15));
    assert_eq!(c.owner_uid, 42);

    let mut no_rel = t;
    no_rel.relative_path = None;
    assert_eq!(folder_child_subtask(no_rel, "folder:f1", 42).name, "01.mp4");
}

#[test]
fn test_subtask_terminal_status_drives_resume() {
    for s in [
        "completed",
        "success",
        "failed",
        "cancelled",
        "transferred",
        "transferfailed",
        "downloadfailed",
    ] {
        assert!(is_terminal_subtask_status(s), "{} 应是终态", s);
    }
    for s in ["pending", "downloading", "paused", "scanning", "transferring"] {
        assert!(!is_terminal_subtask_status(s), "{} 不是终态，续跑要继续等", s);
    }
}

#[test]
fn test_is_terminal_run_item_status() {
    for s in ["completed", "failed", "skipped"] {
        assert!(is_terminal_run_item_status(s), "{} 应是终态", s);
    }
    for s in ["pending", "transferring", "downloading", "deleting"] {
        assert!(!is_terminal_run_item_status(s), "{} 不是终态", s);
    }
}

#[test]
fn test_folder_has_queued_work_counts_paused() {
    assert!(
        folder_has_queued_work(&[TaskStatus::Paused, TaskStatus::Paused]),
        "重启恢复出来的暂停子任务也是「待办」"
    );
    assert!(
        folder_has_queued_work(&[TaskStatus::Pending, TaskStatus::Paused]),
        "Pending 与 Paused 混合同样算待办"
    );
    assert!(
        !folder_has_queued_work(&[TaskStatus::Paused, TaskStatus::Downloading]),
        "有子任务在跑就不是「等待中」"
    );
    assert!(
        !folder_has_queued_work(&[TaskStatus::Completed, TaskStatus::Failed]),
        "没有待办 → 不是在等槽位"
    );
    assert!(!folder_has_queued_work(&[]));
}

#[test]
fn test_no_progress_but_queued() {
    assert!(
        no_progress_but_queued(&[TaskStatus::Pending, TaskStatus::Pending]),
        "全在等待队列 → 在等槽位"
    );
    assert!(
        !no_progress_but_queued(&[TaskStatus::Pending, TaskStatus::Decrypting]),
        "解密中也算在动"
    );
    assert!(
        !no_progress_but_queued(&[TaskStatus::Completed, TaskStatus::Failed]),
        "没有排队中的任务 → 不是在等槽位"
    );
    assert!(
        no_progress_but_queued(&[TaskStatus::Completed, TaskStatus::Pending]),
        "跑完的不算在跑，剩下的还在排队 → 是在等槽位"
    );
    assert!(!no_progress_but_queued(&[]), "还没建出任务 → 不该误报");
}

#[test]
fn test_preempted_paused_counts_as_waiting_for_slot() {
    assert!(
        no_progress_but_queued(&[TaskStatus::Paused, TaskStatus::Paused]),
        "全被抢占暂停 → 仍是在等槽位，不该计入 idle 超时"
    );
    assert!(
        no_progress_but_queued(&[TaskStatus::Paused, TaskStatus::Pending]),
        "一部分被抢占、一部分排队 → 同样是在等槽位"
    );
    assert!(
        !no_progress_but_queued(&[TaskStatus::Paused, TaskStatus::Downloading]),
        "还有在跑的 → 走原来的停滞检测，不能把 idle 清零"
    );
}

#[test]
fn test_waiting_requires_nothing_actually_running() {
    assert!(
        !no_progress_but_queued(&[
            TaskStatus::Downloading,
            TaskStatus::Pending,
            TaskStatus::Pending,
        ]),
        "槽位被自己占着在下载 → 不是「等槽位」，必须继续走停滞检测"
    );
}

#[test]
fn test_folder_subtask_status_only_rewrites_downloading() {
    assert_eq!(
        folder_subtask_status(FolderStatus::Downloading, true),
        "pending",
        "下载中 + 子任务全排队 → 改报「等待中」"
    );
    assert_eq!(
        folder_subtask_status(FolderStatus::Downloading, false),
        "downloading",
        "有子任务在跑 → 照实上报"
    );

    for terminal in [FolderStatus::Failed, FolderStatus::Cancelled, FolderStatus::Completed] {
        let s = folder_subtask_status(terminal.clone(), true);
        assert!(
            is_terminal_subtask_status(&s),
            "终态 {:?} 不得被改写成非终态（会绕过 subtasks() 的终态过滤）, 实际={}",
            terminal,
            s
        );
    }
    assert_eq!(
        folder_subtask_status(FolderStatus::Scanning, true),
        "scanning",
        "扫描中是真的在干活，不该说成等待中"
    );
    assert_eq!(
        folder_subtask_status(FolderStatus::Paused, true),
        "paused",
        "用户显式暂停 ≠ 在等槽位"
    );
}

#[test]
fn test_pending_folder_stays_restartable() {
    let mut folder = subtask("pending");
    folder.task_id = "folder:abc".into();
    assert!(
        restartable_share_sync_download(&folder).is_some(),
        "pending 的文件夹必须可被 stall 重试踢一下"
    );
}

#[test]
fn test_pending_download_subtask_is_not_restartable() {
    assert!(
        restartable_share_sync_download(&subtask("pending")).is_none(),
        "pending（排队等槽位）不是可重启的停滞任务"
    );
    assert!(
        restartable_share_sync_download(&subtask("downloading")).is_some(),
        "downloading 才是 stall 重试的目标"
    );
    assert!(
        restartable_share_sync_download(&subtask("paused")).is_some(),
        "paused 可被重启（但槽位满时由调用方跳过）"
    );
    assert!(
        restartable_share_sync_download(&subtask("completed")).is_none(),
        "终态不该被重启"
    );
}

#[test]
fn test_is_terminal_subtask_status() {
    for s in [
        "completed",
        "success",
        "failed",
        "cancelled",
        "transferred",
        "transferfailed",
        "downloadfailed",
    ] {
        assert!(is_terminal_subtask_status(s), "{s} 应判终态");
    }
    for s in [
        "pending",
        "scanning",
        "downloading",
        "transferring",
        "waiting_transfer",
        "paused",
    ] {
        assert!(!is_terminal_subtask_status(s), "{s} 不应判终态");
    }
}

fn wait_signature_task() -> TransferTask {
    TransferTask {
        id: "t-1".into(),
        file_name: None,
        save_path: "/target".into(),
        status: TransferStatus::Downloading,
        transferred_count: 0,
        total_count: 0,
        error: None,
        download_task_ids: vec!["dl-1".into()],
        completed_download_ids: vec![],
        failed_download_ids: vec![],
        is_internal: false,
        backup_config_id: None,
        updated_at: 1,
    }
}

fn wait_signature_subtask(downloaded: u64, speed: u64) -> ShareSyncSubtask {
    let total = 100;
    ShareSyncSubtask {
        task_id: "dl-1".into(),
        name: "large.bin".into(),
        kind: "download".into(),
        status: "downloading".into(),
        downloaded,
        total,
        progress: Progress { done: downloaded, total },
        speed,
        eta_seconds: None,
        parent_task_id: None,
        owner_uid: 1,
    }
}

#[test]
fn test_restartable_share_sync_download_detects_active_downloads() {
    let task = wait_signature_subtask(10, 1024);
    assert_eq!(
        restartable_share_sync_download(&task),
        Some(RestartableShareSyncDownload::Task("dl-1".into()))
    );

    let mut folder = task.clone();
    folder.task_id = "folder:folder-1".into();
    assert_eq!(
        restartable_share_sync_download(&folder),
        Some(RestartableShareSyncDownload::Folder("folder-1".into()))
    );

    folder.status = "scanning".into();
    assert_eq!(
        restartable_share_sync_download(&folder),
        Some(RestartableShareSyncDownload::Folder("folder-1".into()))
    );

    folder.status = "paused".into();
    assert_eq!(
        restartable_share_sync_download(&folder),
        Some(RestartableShareSyncDownload::Folder("folder-1".into()))
    );

    let mut paused_task = task.clone();
    paused_task.status = "paused".into();
    assert_eq!(
        restartable_share_sync_download(&paused_task),
        Some(RestartableShareSyncDownload::Task("dl-1".into()))
    );
}

#[test]
fn test_restartable_share_sync_download_skips_terminal_and_non_running_tasks() {
    let mut subtask = wait_signature_subtask(10, 1024);

    subtask.kind = "transfer".into();
    assert_eq!(restartable_share_sync_download(&subtask), None);

    subtask.kind = "download".into();
    for status in ["completed", "failed", "cancelled", "pending"] {
        subtask.status = status.into();
        assert_eq!(
            restartable_share_sync_download(&subtask),
            None,
            "status {status} 不应自动暂停/继续"
        );
    }
}

#[test]
fn test_task_activity_signature_tracks_downloaded_bytes() {
    let task = wait_signature_task();
    let a = task_activity_signature(&task, &vec![wait_signature_subtask(10, 1024)]);
    let b = task_activity_signature(&task, &vec![wait_signature_subtask(20, 1024)]);
    assert!(!a.same_as(&b), "下载字节增长应刷新等待活动指纹");
}

#[test]
fn test_task_activity_signature_ignores_speed_only_noise() {
    let task = wait_signature_task();
    let a = task_activity_signature(&task, &vec![wait_signature_subtask(10, 1024)]);
    let b = task_activity_signature(&task, &vec![wait_signature_subtask(10, 4096)]);
    assert!(a.same_as(&b), "只有速度抖动不应重置空闲超时");
}

fn activity_row(id: &str, downloaded: u64) -> ShareSyncSubtask {
    let mut row = wait_signature_subtask(downloaded, 1024);
    row.task_id = id.into();
    row
}

#[test]
fn an_activity_signature_knows_no_order() {
    let mut task = wait_signature_task();
    task.download_task_ids = vec!["dl-1".into(), "dl-2".into(), "dl-3".into()];
    task.completed_download_ids = vec!["dl-1".into(), "dl-2".into()];
    task.failed_download_ids = vec!["dl-3".into(), "dl-0".into()];
    let rows = vec![activity_row("dl-1", 10), activity_row("dl-2", 20), activity_row("dl-3", 30)];
    let a = task_activity_signature(&task, &rows);

    let mut moved = wait_signature_task();
    moved.download_task_ids = vec!["dl-3".into(), "dl-1".into(), "dl-2".into()];
    moved.completed_download_ids = vec!["dl-2".into(), "dl-1".into()];
    moved.failed_download_ids = vec!["dl-0".into(), "dl-3".into()];
    let mut noisy = vec![activity_row("dl-3", 30), activity_row("dl-1", 10), activity_row("dl-2", 20)];
    noisy[0].speed = 5;
    noisy[0].eta_seconds = Some(9);
    noisy[1].name = "other.bin".into();
    noisy[1].parent_task_id = Some("p".into());
    noisy[2].owner_uid = 7;
    let b = task_activity_signature(&moved, &noisy);
    assert!(a.same_as(&b));
}

#[test]
fn an_activity_signature_shows_each_changed_row() {
    let task = wait_signature_task();
    let rows = || vec![activity_row("dl-1", 10), activity_row("dl-2", 20)];
    let a = task_activity_signature(&task, &rows());
    let mut status = rows();
    status[1].status = "paused".into();
    assert!(!a.same_as(&task_activity_signature(&task, &status)));
    let mut total = rows();
    total[0].total = 101;
    assert!(!a.same_as(&task_activity_signature(&task, &total)));
    let mut exchanged = rows();
    exchanged[0].downloaded = 20;
    exchanged[1].downloaded = 10;
    assert!(!a.same_as(&task_activity_signature(&task, &exchanged)));
}

#[test]
fn an_eta_needs_speed_and_a_rest() {
    assert_eq!(compute_eta_seconds(500, 2000, 100), Some(15));
    assert_eq!(compute_eta_seconds(500, 2000, 0), None);
    assert_eq!(compute_eta_seconds(2000, 2000, 100), None);
}

#[test]
fn marks_of_subscriptions_differ() {
    let a = share_sync_backup_config_id("a");
    let b = share_sync_backup_config_id("b");
    assert_ne!(a, b);
    assert!(a.ends_with('a'));
}

fn task(id: &str, status: TaskStatus, mark: Option<String>) -> DownloadTask {
    let mut t = DownloadTask::new(1, format!("/r/{id}"), format!("/l/{id}"), 100, 9);
    t.id = id.to_string();
    t.status = status;
    t.backup_config_id = mark;
    t.speed = 3;
    t
}

#[test]
fn rows_come_from_downloads_transfers_and_folders() {
    let mark = share_sync_backup_config_id("s");
    let downloads = vec![task("d1", TaskStatus::Downloading, Some(mark.clone()))];
    let mut transfer = wait_signature_task();
    transfer.is_internal = true;
    transfer.backup_config_id = Some(mark.clone());
    let folders = || FolderState {
        folder: {
            let mut f = FolderDownload::new("/r/f".into(), "/l/f".into());
            f.id = "f".into();
            f.backup_config_id = Some(share_sync_backup_config_id("s"));
            f.status = FolderStatus::Downloading;
            f
        },
        progress: Progress { done: 0, total: 10 },
        children: vec![task("c1", TaskStatus::Paused, None)],
    };
    let rows =
        collect_share_sync_subtasks("s", &downloads, &vec![transfer], &vec![folders()], 9);
    let ids: Vec<&str> = rows.iter().map(|r| r.task_id.as_str()).collect();
    assert!(ids.contains(&"d1"));
    assert!(ids.contains(&"t-1"));
    assert!(ids.contains(&"folder:f"));
    assert!(!ids.contains(&"c1"));
    let row = rows.iter().find(|r| r.task_id == "folder:f").unwrap();
    assert_eq!(row.status, "pending");
    let with = collect_share_sync_subtasks_with_children("s", &downloads, &vec![], &vec![folders()], 9);
    let child = with.iter().find(|r| r.task_id == "c1").unwrap();
    assert_eq!(child.parent_task_id.as_deref(), Some("folder:f"));
    let tops: Vec<&str> = with
        .iter()
        .filter(|r| r.parent_task_id.is_none())
        .map(|r| r.task_id.as_str())
        .collect();
    let plain = collect_share_sync_subtasks("s", &downloads, &vec![], &vec![folders()], 9);
    assert_eq!(tops, plain.iter().map(|r| r.task_id.as_str()).collect::<Vec<&str>>());
    let mut finished = folders();
    finished.folder.status = FolderStatus::Completed;
    let none = collect_share_sync_subtasks_with_children("s", &vec![], &vec![], &vec![finished], 9);
    assert_eq!(none.len(), 1);
}

#[test]
fn rows_are_sorted_out_by_status() {
    let rows = vec![subtask("downloading"), subtask("failed"), subtask("paused")];
    assert_eq!(unfinished_subtasks(&rows).len(), 2);
    assert_eq!(paused_subtasks(&rows).len(), 1);
    assert_eq!(unfinished_downloads(&rows), 2);
    assert!(any_download_failed(&rows));
    assert!(!any_download_failed(&vec![subtask("completed")]));
    assert_eq!(residual_subtasks(&rows).len(), 2);
    assert_eq!(visible_subtasks(&rows).len(), 2);
    assert_eq!(
        sum_running_speed(&vec![
            task("a", TaskStatus::Downloading, None),
            task("b", TaskStatus::Paused, None)
        ]),
        3
    );
}

#[test]
fn finished_rows_are_reported_once() {
    let mut told = PathSet::new();
    let rows = vec![subtask("completed")];
    assert_eq!(rows_to_report(&rows, &mut told).len(), 1);
    assert_eq!(rows_to_report(&rows, &mut told).len(), 0);
    let running = vec![subtask("downloading")];
    assert_eq!(rows_to_report(&running, &mut told).len(), 1);
    assert_eq!(rows_to_report(&running, &mut told).len(), 1);
}

#[test]
fn a_restart_pauses_and_resumes_each_download() {
    let rows = vec![subtask("downloading"), folder_row("folder:f1", "paused")];
    let plan = restart_plan(&rows);
    assert_eq!(plan.tasks, vec!["dl-1"]);
    assert_eq!(plan.paused_folders, vec!["f1"]);
    let mut run = RestartRun::begin(&plan, true, true, Duration::from_secs(1));
    let mut asked = Vec::new();
    loop {
        match run.next() {
            RestartAction::Pause { folder, id } => asked.push(format!("pause {folder} {id}")),
            RestartAction::Resume { folder, id, .. } => {
                asked.push(format!("resume {folder} {id}"))
            }
            RestartAction::Done { restarted } => {
                assert_eq!(restarted, 2);
                break;
            }
        }
        run.done(true);
    }
    assert_eq!(asked, vec!["resume true f1", "pause false dl-1", "resume false dl-1"]);
}
