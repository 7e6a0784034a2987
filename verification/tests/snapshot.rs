use netdisk_sync::collections::{PathSet, SeenItems};
use netdisk_sync::share_sync::paths::{
    ancestor_dirs, infer_share_root, is_path_ancestor_or_self, normalize_share_path,
    normalize_snapshot_path, remap_include_to_share_root,
};
use netdisk_sync::share_sync::patterns::{compile_exclude_patterns, glob_to_regex};
use netdisk_sync::share_sync::scan::absorb_entries;
use netdisk_sync::share_sync::snapshot::{
    build_include_index, dir_allowed_with, filter_and_mark_pruned, ScanCache, ShareSnapshot,
    ShareSnapshotItem,
};
use netdisk_sync::transfer::SharedFileInfo;
use regex::RegexSet;
use std::collections::{BTreeMap, VecDeque};


#[test]
fn test_ancestor_dirs() {
    assert_eq!(
        ancestor_dirs("/a/b/c.mp4"),
        vec!["/a/b".to_string(), "/a".to_string()]
    );
    assert_eq!(ancestor_dirs("/a"), Vec::<String>::new());
    assert_eq!(ancestor_dirs("/a/b"), vec!["/a".to_string()]);
    assert_eq!(ancestor_dirs("/a/b/"), vec!["/a".to_string()]);
}

fn item(path: &str, fs_id: u64, size: u64) -> ShareSnapshotItem {
    let name = path.rsplit('/').next().unwrap_or(path).to_string();
    ShareSnapshotItem::new(path, &name, fs_id, size, false)
}

#[test]
fn test_scan_cache_roundtrip() {
    let mut cache = ScanCache::new();
    assert!(cache.is_empty());
    assert!(cache.get("/a").is_none());

    let files = vec![
        shared_file("/a/1.mp4", "1.mp4", 11, false),
        shared_file("/a/sub", "sub", 12, true),
    ];
    cache.put("/a".into(), files);

    assert_eq!(cache.len(), 1);
    let hit = cache.get("/a").expect("刚写入的目录应命中");
    assert_eq!(hit.len(), 2);
    assert_eq!(hit[0].fs_id, 11);
    assert!(hit[1].is_dir);
    assert!(cache.get("/b").is_none());
}

#[test]
fn test_absorb_entries_dedups_and_enqueues_dirs() {
    let include_paths = PathSet::new();
    let include_index = PathSet::new();
    let mut all_items = Vec::new();
    let mut seen = SeenItems::new();
    let mut queued_dirs = PathSet::new();
    let mut queue: VecDeque<String> = VecDeque::new();
    let mut found = PathSet::new();
    let mut files_seen = 0usize;

    let batch = || {
        vec![
            shared_file("/a/1.mp4", "1.mp4", 11, false),
            shared_file("/a/sub", "sub", 12, true),
        ]
    };
    absorb_entries(
        batch(),
        "",
        &include_paths,
        &include_index,
        &mut all_items,
        &mut seen,
        &mut queued_dirs,
        &mut queue,
        &mut found,
        &mut files_seen,
    );
    assert_eq!(files_seen, 1, "只有文件计数，目录不算");
    assert_eq!(queue.len(), 1, "子目录应入队");
    absorb_entries(
        batch(),
        "",
        &include_paths,
        &include_index,
        &mut all_items,
        &mut seen,
        &mut queued_dirs,
        &mut queue,
        &mut found,
        &mut files_seen,
    );
    assert_eq!(files_seen, 1, "重复条目不应重复计数");
    assert_eq!(queue.len(), 1, "重复目录不应重复入队");
    assert_eq!(all_items.len(), 2, "快照条目应保持去重");
}

#[test]
fn test_dir_allowed_with_matches_collector_semantics() {
    let empty = PathSet::new();
    assert!(dir_allowed_with(&empty, &empty, "/anything"));
    let mut includes = PathSet::new();
    includes.insert("/a/b/c.mp4".to_string());
    let index = build_include_index(&includes);
    assert!(dir_allowed_with(&includes, &index, "/a"));
    assert!(dir_allowed_with(&includes, &index, "/a/b"));
    assert!(!dir_allowed_with(&includes, &index, "/other"));
    assert!(!dir_allowed_with(&includes, &index, "/a/b/other_dir"));
    let mut dir_includes = PathSet::new();
    dir_includes.insert("/大主宰3D".to_string());
    let dir_index = build_include_index(&dir_includes);
    assert!(dir_allowed_with(&dir_includes, &dir_index, "/大主宰3D"));
    assert!(
        dir_allowed_with(&dir_includes, &dir_index, "/大主宰3D/S02 连载中"),
        "include 目录的一级子目录必须放行"
    );
    assert!(
        dir_allowed_with(
            &dir_includes,
            &dir_index,
            "/大主宰3D/S02 连载中/S02 4K NoSub/字幕文件"
        ),
        "include 目录的任意深度后代都必须放行"
    );
    assert!(!dir_allowed_with(&dir_includes, &dir_index, "/其他目录"));
    assert!(!dir_allowed_with(&dir_includes, &dir_index, "/大主宰3Dxx"));
}

#[test]
fn test_issue128_deep_exclude_marks_whole_ancestor_chain() {
    let mut includes = PathSet::new();
    includes.insert("/大主宰3D".to_string());
    let index = build_include_index(&includes);
    let excludes =
        compile_exclude_patterns(&["*S01*".into(), "*Soft*".into(), "*.zip*".into()])
            .unwrap();

    let mk_dir = |path: &str, fs_id: u64| {
        let name = path.rsplit('/').next().unwrap().to_string();
        ShareSnapshotItem::new(path, &name, fs_id, 0, true)
    };
    let all_items = vec![
        mk_dir("/大主宰3D", 1),
        mk_dir("/大主宰3D/S01", 6),
        mk_dir("/大主宰3D/S02 连载中", 2),
        mk_dir("/大主宰3D/S02 连载中/S02 4K NoSub", 3),
        mk_dir("/大主宰3D/S02 连载中/S02 4K NoSub/字幕文件", 4),
        item("/大主宰3D/S02 连载中/S02 4K NoSub/字幕文件/56.zip", 41, 1),
        item(
            "/大主宰3D/S02 连载中/S02 4K NoSub/E01.4K.Soft-GM.mp4",
            31,
            100,
        ),
        item(
            "/大主宰3D/S02 连载中/S02 4K NoSub/E01.4K.HEVC-GM.mp4",
            32,
            100,
        ),
    ];

    let out = filter_and_mark_pruned(all_items, &includes, &index, Some(&excludes));
    let by_path: BTreeMap<&str, &ShareSnapshotItem> =
        out.iter().map(|i| (i.path.as_str(), i)).collect();
    for gone in [
        "/大主宰3D/S01",
        "/大主宰3D/S02 连载中/S02 4K NoSub/字幕文件/56.zip",
        "/大主宰3D/S02 连载中/S02 4K NoSub/E01.4K.Soft-GM.mp4",
    ] {
        assert!(!by_path.contains_key(gone), "{gone} 应被排除");
    }
    assert!(by_path.contains_key("/大主宰3D/S02 连载中/S02 4K NoSub/E01.4K.HEVC-GM.mp4"));
    for (dir, why) in [
        ("/大主宰3D", "含被排除的 S01 与深层内容"),
        ("/大主宰3D/S02 连载中", "含深层被排除内容"),
        ("/大主宰3D/S02 连载中/S02 4K NoSub", "直接含被排除的 Soft/zip"),
        ("/大主宰3D/S02 连载中/S02 4K NoSub/字幕文件", "全部子项被排除"),
    ] {
        let d = by_path
            .get(dir)
            .unwrap_or_else(|| panic!("{dir} 应存活于快照"));
        assert!(d.subtree_pruned, "{dir} 应被标 subtree_pruned（{why}）");
    }
}

#[test]
fn test_absorb_entries_enqueues_descendants_of_included_dir() {
    let mut includes = PathSet::new();
    includes.insert("/大主宰3D".to_string());
    let index = build_include_index(&includes);
    let mut all_items = Vec::new();
    let mut seen = SeenItems::new();
    let mut queued_dirs = PathSet::new();
    let mut queue: VecDeque<String> = VecDeque::new();
    let mut found = PathSet::new();
    let mut files_seen = 0usize;
    let batch = vec![
        shared_file("/大主宰3D/S02 连载中", "S02 连载中", 2, true),
        shared_file("/其他目录", "其他目录", 9, true),
    ];
    absorb_entries(
        batch,
        "",
        &includes,
        &index,
        &mut all_items,
        &mut seen,
        &mut queued_dirs,
        &mut queue,
        &mut found,
        &mut files_seen,
    );
    assert!(
        queued_dirs.contains("/大主宰3D/S02 连载中"),
        "include 目录的子目录必须入队继续深入"
    );
    assert!(
        !queued_dirs.contains("/其他目录"),
        "include 范围外的目录不应入队"
    );
}

fn shared_file(path: &str, name: &str, fs_id: u64, is_dir: bool) -> SharedFileInfo {
    SharedFileInfo {
        fs_id,
        is_dir,
        path: path.to_string(),
        size: if is_dir { 0 } else { 123 },
        name: name.to_string(),
    }
}

#[test]
fn test_empty_snapshot() {
    let s = ShareSnapshot::empty("sub-1");
    assert_eq!(s.subscription_id, "sub-1");
    assert!(s.items.is_empty());
    assert_eq!(s.file_count(), 0);
}

#[test]
fn test_snapshot_with_items() {
    let s = ShareSnapshot::with_items(
        "sub-1",
        vec![
            item("/a.txt", 1, 100),
            item("/b/c.txt", 2, 200),
            ShareSnapshotItem::new("/dir", "dir", 3, 0, true),
        ],
    );
    assert_eq!(s.file_count(), 2);
}

#[test]
fn test_index_by_path() {
    let s = ShareSnapshot::with_items(
        "sub-1",
        vec![item("/a.txt", 1, 100), item("/b.txt", 2, 200)],
    );
    let map = s.index_by_path();
    assert_eq!(map.get("/a.txt").unwrap().fs_id, 1);
    assert_eq!(map.get("/b.txt").unwrap().fs_id, 2);
    assert!(map.get("/c.txt").is_none());
}

#[test]
fn test_sorted_items() {
    let s = ShareSnapshot::with_items(
        "sub-1",
        vec![
            item("/c.txt", 3, 1),
            item("/a.txt", 1, 1),
            item("/b.txt", 2, 1),
        ],
    );
    let sorted = s.sorted_items();
    assert_eq!(sorted[0].path, "/a.txt");
    assert_eq!(sorted[1].path, "/b.txt");
    assert_eq!(sorted[2].path, "/c.txt");
}

#[test]
fn test_normalize_single_file_share_to_root_file() {
    let files = vec![shared_file(
        "/_pcs_.workspace/curated/report.csv",
        "report.csv",
        1,
        false,
    )];
    let root = infer_share_root(&files);

    assert_eq!(root, "/_pcs_.workspace/curated");
    assert_eq!(
        normalize_share_path(&files[0].path, &files[0].name, &root),
        "/report.csv"
    );
}

#[test]
fn test_normalize_multi_folder_share_keeps_folder_prefixes() {
    let files = vec![
        shared_file(
            "/_pcs_.workspace/curated/fina_indicator",
            "fina_indicator",
            1,
            true,
        ),
        shared_file(
            "/_pcs_.workspace/curated/stock_basic",
            "stock_basic",
            2,
            true,
        ),
    ];
    let root = infer_share_root(&files);

    assert_eq!(root, "/_pcs_.workspace/curated");
    assert_eq!(
        normalize_share_path(&files[0].path, &files[0].name, &root),
        "/fina_indicator"
    );
    assert_eq!(
        normalize_share_path(
            "/_pcs_.workspace/curated/fina_indicator/000004.SZ.csv",
            "000004.SZ.csv",
            &root,
        ),
        "/fina_indicator/000004.SZ.csv"
    );
}

#[test]
fn test_remap_include_absolute_path_to_share_root() {
    let files = vec![shared_file("/13/a测试上传1/scan_test", "scan_test", 1, true)];
    let share_root = infer_share_root(&files);
    assert_eq!(share_root, "/13/a测试上传1");
    let remapped = remap_include_to_share_root("/13/a测试上传1/scan_test", &share_root);
    assert_eq!(remapped, "/scan_test");

    let mut set = PathSet::new();
    set.insert(remapped);
    let index = build_include_index(&set);
    assert!(index.contains("/scan_test"));
    assert!(is_path_ancestor_or_self("/scan_test/foo.mp4", "/scan_test"));
}

#[test]
fn test_remap_include_sharelink_path_to_share_root() {
    let share_root = "/13/a测试上传1";
    let remapped = remap_include_to_share_root(
        "/sharelink3745347292-20270075815/scan_test/sub",
        share_root,
    );
    assert_eq!(remapped, "/scan_test/sub");
}

#[test]
fn test_remap_include_already_relative_is_idempotent() {
    let share_root = "/13/a测试上传1";
    assert_eq!(
        remap_include_to_share_root("/scan_test", share_root),
        "/scan_test"
    );
}

#[test]
fn test_remap_include_root_share_keeps_absolute() {
    let remapped = remap_include_to_share_root("/13/foo", "/");
    assert_eq!(remapped, "/13/foo");
}


fn compile(patterns: &[&str]) -> RegexSet {
    let regexes: Vec<String> = patterns
        .iter()
        .map(|p| format!("^{}$", glob_to_regex(p).unwrap()))
        .collect();
    RegexSet::new(&regexes).unwrap()
}

fn is_hit(set: &RegexSet, s: &str) -> bool {
    set.is_match(s)
}

#[test]
fn test_glob_match_star() {
    let set = compile(&["*.txt"]);
    assert!(is_hit(&set, "a.txt"));
    assert!(is_hit(&set, "abc.txt"));
    assert!(!is_hit(&set, "a.png"));
    let set_any = compile(&["*"]);
    assert!(is_hit(&set_any, "anything"));
}

#[test]
fn test_glob_match_question() {
    let set = compile(&["a?c"]);
    assert!(is_hit(&set, "abc"));
    assert!(is_hit(&set, "axc"));
    assert!(!is_hit(&set, "ac"));
    assert!(!is_hit(&set, "abbc"));
}

#[test]
fn test_glob_match_literal() {
    let set = compile(&["foo"]);
    assert!(is_hit(&set, "foo"));
    assert!(!is_hit(&set, "bar"));
    assert!(!is_hit(&set, "fooo"));
}

#[test]
fn test_glob_match_combined() {
    let set = compile(&["a/*/b", "file-*.txt", "?est.tmp", "*.tmp"]);
    assert!(is_hit(&set, "a/x/b"));
    assert!(is_hit(&set, "a/x/y/b"));
    assert!(is_hit(&set, "file-2024.txt"));
    assert!(is_hit(&set, "test.tmp"));
    assert!(is_hit(&set, "anything.tmp"));
    assert!(!is_hit(&set, "anything.txt"));
}

#[test]
fn test_glob_to_regex_escapes_metachars() {
    assert_eq!(glob_to_regex("a.b").unwrap(), "a\\.b");
    assert_eq!(glob_to_regex("a+b").unwrap(), "a\\+b");
    assert_eq!(glob_to_regex("a(b)c").unwrap(), "a\\(b\\)c");
}

#[test]
fn test_build_include_index_basic() {
    let mut inc = PathSet::new();
    inc.insert("/a/b/c.csv".to_string());
    inc.insert("/a/x/y.csv".to_string());
    let idx = build_include_index(&inc);
    assert!(idx.contains("/"));
    assert!(idx.contains("/a"));
    assert!(idx.contains("/a/b"));
    assert!(idx.contains("/a/b/c.csv"));
    assert!(idx.contains("/a/x"));
    assert!(idx.contains("/a/x/y.csv"));
    assert!(!idx.contains("/c"));
    assert!(!idx.contains("/a/b/other.csv"));
}

#[test]
fn test_compile_exclude_empty_returns_none() {
    let set = compile_exclude_patterns(&[]);
    assert!(set.is_none());
}

#[test]
fn test_compile_exclude_invalid_falls_back() {
    assert!(glob_to_regex("[abc]").is_ok());
    assert!(compile_exclude_patterns(&[]).is_none());
    let set = compile_exclude_patterns(&["*.tmp".to_string(), "*.bak".to_string()]);
    assert!(set.is_some());
}

#[test]
fn test_is_path_ancestor_or_self() {
    assert!(is_path_ancestor_or_self("/foo/bar", "/foo"));
    assert!(is_path_ancestor_or_self("/foo", "/foo"));
    assert!(!is_path_ancestor_or_self("/foobar", "/foo"));
    assert!(is_path_ancestor_or_self("/foobar", "/"));
}

#[test]
fn test_normalize_snapshot_path() {
    assert_eq!(
        normalize_snapshot_path("/foo/".to_string()),
        Some("/foo".to_string())
    );
    assert_eq!(
        normalize_snapshot_path("foo".to_string()),
        Some("/foo".to_string())
    );
    assert_eq!(
        normalize_snapshot_path("   /bar//".to_string()),
        Some("/bar".to_string())
    );
    assert_eq!(normalize_snapshot_path("".to_string()), None);
}
