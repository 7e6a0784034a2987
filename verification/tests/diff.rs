use netdisk_sync::collections::path_set_of;
use netdisk_sync::share_sync::diff::{
    augment_diff_with_local_target_state, dir_subtree_fully_changed,
    execution_diff_with_directory_ancestors, local_roots, LocalTarget, NetdiskTarget, ShareDiff,
    SyncTarget,
};
use netdisk_sync::share_sync::error::ShareSyncError;
use netdisk_sync::share_sync::snapshot::{ShareSnapshot, ShareSnapshotItem};
use netdisk_sync::share_sync::target_paths::{
    basename_netdisk_path, is_netdisk_not_found_error, join_netdisk_path, normalize_netdisk_path,
    parent_netdisk_dir, safe_relative_download_path, share_direct_download_root,
};

fn ss_file(path: &str, fs_id: u64, size: u64) -> ShareSnapshotItem {
    let name = path.rsplit('/').next().unwrap_or(path).to_string();
    ShareSnapshotItem::new(path, &name, fs_id, size, false)
}

fn ss_dir(path: &str, fs_id: u64) -> ShareSnapshotItem {
    let name = path.rsplit('/').next().unwrap_or(path).to_string();
    ShareSnapshotItem::new(path, &name, fs_id, 0, true)
}

fn diff(added: Vec<ShareSnapshotItem>, unchanged_count: usize) -> ShareDiff {
    ShareDiff { added, removed: vec![], modified: vec![], unchanged_count }
}

#[test]
fn test_exec_diff_promotes_dir_only_when_subtree_fully_new() {
    let items = vec![ss_dir("/d", 100), ss_file("/d/a", 1, 10), ss_file("/d/b", 2, 20)];
    let curr = ShareSnapshot::with_items("sub", items.clone());
    let found = diff(items, 0);
    let (out, _added) = execution_diff_with_directory_ancestors(&found, &curr);
    assert!(out.added.iter().any(|i| i.path == "/d" && i.is_dir));

    let files = diff(vec![ss_file("/d/a", 1, 10), ss_file("/d/b", 2, 20)], 0);
    let (out, added) = execution_diff_with_directory_ancestors(&files, &curr);
    assert_eq!(added, 1);
    assert!(out.added.iter().any(|i| i.path == "/d" && i.is_dir));
}

#[test]
fn test_exec_diff_does_not_promote_partially_changed_dir() {
    let curr = ShareSnapshot::with_items(
        "sub",
        vec![
            ss_dir("/d", 100),
            ss_file("/d/a", 1, 10),
            ss_file("/d/b", 2, 20),
            ss_file("/d/c", 3, 30),
        ],
    );
    let diff = diff(vec![ss_file("/d/c", 3, 30)], 3);
    assert_eq!(diff.added.len(), 1);
    assert_eq!(diff.added[0].path, "/d/c");

    let (out, added) = execution_diff_with_directory_ancestors(&diff, &curr);
    assert_eq!(added, 0, "含未变动文件的目录不应被补成整目录转存");
    assert!(!out.added.iter().any(|i| i.path == "/d"));
    assert_eq!(out.added.len(), 1);
    assert_eq!(out.added[0].path, "/d/c");
}

#[test]
fn test_dir_subtree_fully_changed_predicate() {
    let curr = ShareSnapshot::with_items(
        "sub",
        vec![ss_dir("/d", 100), ss_file("/d/a", 1, 10), ss_file("/d/sub/x", 4, 40)],
    );
    let idx = curr.index_by_path();

    let all = path_set_of(vec!["/d/a".to_string(), "/d/sub/x".to_string()]);
    assert!(dir_subtree_fully_changed(&idx, "/d", &all));

    let some = path_set_of(vec!["/d/a".to_string()]);
    assert!(!dir_subtree_fully_changed(&idx, "/d", &some));

    let sub_only = path_set_of(vec!["/d/sub/x".to_string()]);
    assert!(dir_subtree_fully_changed(&idx, "/d/sub", &sub_only));

    let none = path_set_of(vec![]);
    assert!(!dir_subtree_fully_changed(&idx, "/d", &none));
}

#[test]
fn test_share_direct_download_root_avoids_duplicate_parent_dir() {
    let item = ShareSnapshotItem::new("/monthly/000009.SZ.csv", "000009.SZ.csv", 9, 1024, false);
    let target_root = "/home/hyx/codespace/one-family/data";

    let download_root = share_direct_download_root(target_root, &item).unwrap();
    assert_eq!(download_root, target_root);

    let transfer_restored_path =
        format!("{}/{}", download_root, safe_relative_download_path(&item.path).unwrap());
    assert_eq!(
        transfer_restored_path,
        "/home/hyx/codespace/one-family/data/monthly/000009.SZ.csv"
    );
    assert_ne!(
        transfer_restored_path,
        "/home/hyx/codespace/one-family/data/monthly/monthly/000009.SZ.csv"
    );
}

fn local() -> Vec<SyncTarget> {
    vec![SyncTarget::Local(LocalTarget { local_path: "/data".into() })]
}

#[test]
fn test_local_missing_file_is_promoted_to_modified_diff() {
    let items = vec![
        ShareSnapshotItem::new("/a.csv", "a.csv", 1, 3, false),
        ShareSnapshotItem::new("/b.csv", "b.csv", 2, 4, false),
    ];
    let prev = ShareSnapshot::with_items("sub", items.clone());
    let curr = ShareSnapshot::with_items("sub", items);
    let on_disk = vec![vec![Some(b"abc".len() as u64)], vec![None]];

    let diff = augment_diff_with_local_target_state(
        &local(),
        Some(&prev),
        &curr,
        diff(vec![], 2),
        &on_disk,
    )
    .unwrap();

    assert_eq!(diff.modified.len(), 1);
    assert_eq!(diff.modified[0].new.path, "/b.csv");
    assert_eq!(diff.unchanged_count, 1);
}

#[test]
fn test_local_size_mismatch_is_promoted_to_modified_diff() {
    let item = ShareSnapshotItem::new("/nested/a.csv", "a.csv", 1, 4, false);
    let prev = ShareSnapshot::with_items("sub", vec![item.clone()]);
    let curr = ShareSnapshot::with_items("sub", vec![item]);
    let on_disk = vec![vec![Some(b"abc".len() as u64)]];

    let diff = augment_diff_with_local_target_state(
        &local(),
        Some(&prev),
        &curr,
        diff(vec![], 1),
        &on_disk,
    )
    .unwrap();

    assert_eq!(diff.modified.len(), 1);
    assert_eq!(diff.modified[0].new.path, "/nested/a.csv");
    assert_eq!(diff.unchanged_count, 0);
}

#[test]
fn test_netdisk_only_target_does_not_use_local_filesystem_diff() {
    let targets = vec![SyncTarget::Netdisk(NetdiskTarget { remote_path: "/backup".into() })];
    let item = ShareSnapshotItem::new("/missing-locally.csv", "missing-locally.csv", 1, 4, false);
    let prev = ShareSnapshot::with_items("sub", vec![item.clone()]);
    let curr = ShareSnapshot::with_items("sub", vec![item]);

    let diff = augment_diff_with_local_target_state(
        &targets,
        Some(&prev),
        &curr,
        diff(vec![], 1),
        &vec![vec![]],
    )
    .unwrap();

    assert!(diff.modified.is_empty());
    assert_eq!(diff.unchanged_count, 1);
}

#[test]
fn an_unsafe_path_is_an_error() {
    let item = ShareSnapshotItem::new("/../x", "x", 1, 4, false);
    let curr = ShareSnapshot::with_items("sub", vec![item]);
    let r = augment_diff_with_local_target_state(
        &local(),
        None,
        &curr,
        diff(vec![], 1),
        &vec![vec![None]],
    );
    assert!(r.is_err());
    assert!(safe_relative_download_path("/a/../b").is_err());
    assert!(matches!(
        safe_relative_download_path("/a/../b"),
        Err(ShareSyncError::FileSystemError(_)) | Err(ShareSyncError::ConfigError(_))
    ));
    assert_eq!(safe_relative_download_path("/a/b").unwrap(), "a/b");
    assert_eq!(local_roots(&local()), vec!["/data"]);
}

#[test]
fn netdisk_paths_are_joined_and_split() {
    assert_eq!(normalize_netdisk_path("a/b/"), "/a/b");
    assert_eq!(parent_netdisk_dir("/a/b"), "/a");
    assert_eq!(parent_netdisk_dir("/a"), "/");
    assert_eq!(basename_netdisk_path("/a/b"), "b");
    assert_eq!(join_netdisk_path("/a", "b"), "/a/b");
    assert_eq!(join_netdisk_path("/", "b"), "/b");
    assert!(is_netdisk_not_found_error("errno=2"));
    assert!(is_netdisk_not_found_error("路径不存在"));
    assert!(!is_netdisk_not_found_error("errno=-9"));
}
