use netdisk_sync::downloader::task::{DownloadTask, FolderDownload, FolderStatus, TaskStatus};
use netdisk_sync::server::folder_download::{
    command_reply, done, effective_uid, folder_totals_fit, found, get_all_downloads_mixed,
    get_all_folder_downloads, plan_folder_download, tasks_of_account, tasks_of_all, tasks_listed,
    CreateFolderDownloadRequest, DownloadItem, FolderCommand,
};
use netdisk_sync::transfer::DownloadConflictStrategy;

#[test]
fn folder_item_keeps_folder_level_progress_stats() {
    let mut folder = FolderDownload::new("/test/folder".to_string(), "/tmp/folder".to_string());
    folder.status = FolderStatus::Downloading;
    folder.total_files = 48;
    folder.total_size = 4_800;
    folder.completed_count = 10;
    folder.completed_downloaded_size = 1_000;
    folder.downloaded_size = 1_300;

    let completed_files = folder.completed_count;
    assert_eq!(completed_files, 10);

    let computed = folder.compute_downloaded_size(300);
    assert_eq!(computed, 1_300);
    assert_eq!(folder.downloaded_size, 1_300);
}

#[test]
fn failed_subtask_not_counted_as_completed() {
    let mut folder = FolderDownload::new("/test/folder".to_string(), "/tmp/folder".to_string());
    folder.total_files = 10;
    folder.total_size = 10_000;
    folder.completed_count = 5;
    folder.completed_downloaded_size = 5_000;

    folder.completed_count += 1;
    folder.completed_downloaded_size += 1_000;
    assert_eq!(folder.completed_count, 6);
    assert_eq!(folder.completed_downloaded_size, 6_000);

    assert_eq!(folder.completed_count, 6);
    assert_eq!(folder.completed_downloaded_size, 6_000);
}

fn task(id: &str, group: Option<&str>, status: TaskStatus, at: i64) -> DownloadTask {
    let mut t = DownloadTask::new(1, format!("/r/{id}"), format!("/l/{id}"), 100, 9);
    t.id = id.to_string();
    t.group_id = group.map(|g| g.to_string());
    t.status = status;
    t.created_at = at;
    t.speed = 7;
    t.downloaded_size = 40;
    t
}

fn folder(id: &str, at: i64) -> FolderDownload {
    let mut f = FolderDownload::new(format!("/r/{id}"), format!("/l/{id}"));
    f.id = id.to_string();
    f.created_at = at;
    f.completed_downloaded_size = 100;
    f.owner_uid = 9;
    f
}

fn name(i: &DownloadItem) -> String {
    match i {
        DownloadItem::File { task } => task.id.clone(),
        DownloadItem::Folder { folder, .. } => folder.id.clone(),
    }
}

#[test]
fn files_and_folders_are_listed_latest_first() {
    let tasks = vec![
        task("a", None, TaskStatus::Downloading, 5),
        task("b", Some("f"), TaskStatus::Downloading, 99),
        task("c", Some("f"), TaskStatus::Completed, 99),
        task("d", Some("f"), TaskStatus::Paused, 99),
        task("e", None, TaskStatus::Completed, 20),
        task("g", None, TaskStatus::Pending, 5),
    ];
    let mut hidden = folder("h", 50);
    hidden.backup_config_id = Some("share_sync:x".into());
    let mut other = folder("o", 50);
    other.owner_uid = 8;
    let mut counted = folder("f", 10);
    counted.counted_task_ids.insert("d".to_string());
    for f in [&hidden, &other, &counted] {
        assert!(folder_totals_fit(f, &tasks));
    }
    let mut foreign = task("x", None, TaskStatus::Pending, 40);
    foreign.owner_uid = 8;
    let mut known = tasks.clone();
    known.push(foreign);
    assert_eq!(tasks_listed(vec![known.clone()], Some(9)).len(), tasks.len());
    let items = get_all_downloads_mixed(vec![known], vec![hidden, counted, other], Some(9));
    let names: Vec<String> = items.iter().map(name).collect();
    assert_eq!(names, vec!["e", "f", "a", "g"]);
    match &items[1] {
        DownloadItem::Folder { folder, speed, completed_files } => {
            assert_eq!(folder.downloaded_size, 140);
            assert_eq!(*speed, 7);
            assert_eq!(*completed_files, 0);
        }
        _ => panic!("a folder"),
    }
    assert_eq!(items[1].created_at(), 10);
}

#[test]
fn sums_that_do_not_fit_are_noticed() {
    let mut a = task("a", Some("f"), TaskStatus::Downloading, 1);
    a.speed = u64::MAX;
    let b = task("b", Some("f"), TaskStatus::Downloading, 1);
    assert!(!folder_totals_fit(&folder("f", 1), &vec![a, b]));
    let mut c = task("c", Some("f"), TaskStatus::Paused, 1);
    c.downloaded_size = u64::MAX;
    assert!(!folder_totals_fit(&folder("f", 1), &vec![c]));
}

#[test]
fn tasks_are_taken_by_account_and_once() {
    let mut other = task("x", None, TaskStatus::Pending, 1);
    other.owner_uid = 8;
    let mine = tasks_of_account(vec![task("a", None, TaskStatus::Pending, 1), other], 9);
    assert_eq!(mine.len(), 1);
    assert_eq!(mine[0].id, "a");
    let all = tasks_of_all(vec![
        vec![task("a", None, TaskStatus::Pending, 1), task("b", None, TaskStatus::Pending, 1)],
        vec![task("b", None, TaskStatus::Pending, 2), task("c", None, TaskStatus::Pending, 1)],
    ]);
    let ids: Vec<&str> = all.iter().map(|t| t.id.as_str()).collect();
    assert_eq!(ids, vec!["a", "b", "c"]);
    assert_eq!(all[1].created_at, 1);
}

#[test]
fn hidden_folders_are_not_shown() {
    let mut hidden = folder("h", 50);
    hidden.backup_config_id = Some("m".into());
    let shown = get_all_folder_downloads(vec![hidden, folder("f", 1)]);
    assert_eq!(shown.len(), 1);
    assert_eq!(shown[0].id, "f");
}

#[test]
fn folder_downloads_are_answered() {
    assert_eq!(effective_uid(Some(3), Some(4)), Ok(3));
    assert_eq!(effective_uid(None, Some(4)), Ok(4));
    assert_eq!(effective_uid(None, None), Err(401));
    let req = |strategy| CreateFolderDownloadRequest {
        path: "/p".into(),
        original_name: Some("n".into()),
        conflict_strategy: strategy,
        uid: None,
    };
    let plan = plan_folder_download(req(None), DownloadConflictStrategy::Skip, 4, true).unwrap();
    assert_eq!(plan.conflict_strategy, DownloadConflictStrategy::Skip);
    assert_eq!(plan.uid, 4);
    assert_eq!(plan.path, "/p");
    let given = req(Some(DownloadConflictStrategy::Overwrite));
    let plan = plan_folder_download(given, DownloadConflictStrategy::Skip, 4, true).unwrap();
    assert_eq!(plan.conflict_strategy, DownloadConflictStrategy::Overwrite);
    assert_eq!(
        plan_folder_download(req(None), DownloadConflictStrategy::Skip, 4, false).unwrap_err(),
        404
    );
    assert_eq!(done::<u8>(Err("x".into())).unwrap_err(), 500);
    assert!(done(Ok(1)).unwrap().success);
    assert_eq!(found::<u8>(None).unwrap_err(), 404);
    assert_eq!(found(Some(2)).unwrap().data, 2);
    assert_eq!(command_reply(FolderCommand::Pause, Ok(())).unwrap().data, "已暂停");
    assert_eq!(command_reply(FolderCommand::Resume, Ok(())).unwrap().data, "已恢复");
    assert_eq!(command_reply(FolderCommand::Cancel, Ok(())).unwrap().data, "已取消");
    assert_eq!(command_reply(FolderCommand::Cancel, Err("x".into())).unwrap_err(), 500);
}

#[test]
fn a_task_that_two_accounts_know_is_listed_once() {
    let accounts = || {
        vec![
            vec![task("a", None, TaskStatus::Pending, 3), task("b", None, TaskStatus::Pending, 2)],
            vec![task("b", None, TaskStatus::Pending, 2), task("c", None, TaskStatus::Pending, 1)],
        ]
    };
    let items = get_all_downloads_mixed(accounts(), vec![], None);
    let names: Vec<String> = items.iter().map(name).collect();
    assert_eq!(names, vec!["a", "b", "c"]);
    assert!(get_all_downloads_mixed(accounts(), vec![], Some(8)).is_empty());
}
