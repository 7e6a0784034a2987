//! Snapshots of a share.
//!
//! A snapshot lists the entries of a share at one time. It is filled by walking the
//! share's directories (see `scan`); here stand its model, the choice of the entries
//! that belong to it, and the way a listed page is taken in.

use vstd::hash_map::StringHashMap;
use vstd::prelude::*;

use crate::collections::PathSet;
use crate::ids::{fresh_id, now_utc, Timestamp};
use crate::share_sync::paths;
use crate::share_sync::paths::{ancestor_dirs, is_path_ancestor_or_self, path_cuts};
use crate::share_sync::patterns;
use crate::share_sync::patterns::ExcludeSet;
use crate::sorting;
use crate::sorting::{sort_stable, text_before, Keyed};
use crate::text;
use crate::text::chars_of;
use crate::transfer::{copy_files, ShareKind, SharedFileInfo};

verus! {

/// One entry of a snapshot: a file or a directory.
#[derive(Debug)]
pub struct ShareSnapshotItem {
    /// The path relative to the root of the share.
    pub path: String,
    /// The path as the service gave it.
    pub raw_path: String,
    pub fs_id: u64,
    /// The size in bytes; zero for a directory.
    pub size: u64,
    /// The entry's own name.
    pub name: String,
    pub is_dir: bool,
    /// Whether something below this directory was filtered out. Such a directory must
    /// not be copied as a whole.
    pub subtree_pruned: bool,
}

/// What a `ShareSnapshotItem` holds.
#[verifier::ext_equal]
pub struct ItemView {
    pub path: Seq<char>,
    pub raw_path: Seq<char>,
    pub fs_id: u64,
    pub size: u64,
    pub name: Seq<char>,
    pub is_dir: bool,
    pub subtree_pruned: bool,
}

impl View for ShareSnapshotItem {
    type V = ItemView;

    open spec fn view(&self) -> ItemView {
        ItemView {
            path: self.path@,
            raw_path: self.raw_path@,
            fs_id: self.fs_id,
            size: self.size,
            name: self.name@,
            is_dir: self.is_dir,
            subtree_pruned: self.subtree_pruned,
        }
    }
}

/// What several items hold.
pub open spec fn item_views(items: Seq<ShareSnapshotItem>) -> Seq<ItemView> {
    items.map_values(|i: ShareSnapshotItem| i@)
}

impl Clone for ShareSnapshotItem {
    fn clone(&self) -> (r: Self)
        ensures
            r == *self,
    {
        ShareSnapshotItem {
            path: self.path.clone(),
            raw_path: self.raw_path.clone(),
            fs_id: self.fs_id,
            size: self.size,
            name: self.name.clone(),
            is_dir: self.is_dir,
            subtree_pruned: self.subtree_pruned,
        }
    }
}

impl Keyed for ShareSnapshotItem {
    open spec fn key(&self) -> Seq<int> {
        sorting::text_key(self.path@)
    }

    fn before(&self, other: &Self) -> (r: bool) {
        text_before(self.path.as_str(), other.path.as_str())
    }

    fn dup(&self) -> (r: Self) {
        self.clone()
    }
}

impl ShareSnapshotItem {
    /// An entry whose raw path is its path.
    pub fn new(path: &str, name: &str, fs_id: u64, size: u64, is_dir: bool) -> (r:
        ShareSnapshotItem)
        ensures
            r@ == (ItemView {
                path: path@,
                raw_path: path@,
                fs_id,
                size,
                name: name@,
                is_dir,
                subtree_pruned: false,
            }),
    {
        ShareSnapshotItem {
            path: path.to_owned(),
            raw_path: path.to_owned(),
            fs_id,
            size,
            name: name.to_owned(),
            is_dir,
            subtree_pruned: false,
        }
    }

    /// An entry with a raw path of its own.
    pub fn with_raw_path(
        path: &str,
        name: &str,
        fs_id: u64,
        size: u64,
        is_dir: bool,
        raw_path: &str,
    ) -> (r: ShareSnapshotItem)
        ensures
            r@ == (ItemView {
                path: path@,
                raw_path: raw_path@,
                fs_id,
                size,
                name: name@,
                is_dir,
                subtree_pruned: false,
            }),
    {
        ShareSnapshotItem {
            path: path.to_owned(),
            raw_path: raw_path.to_owned(),
            fs_id,
            size,
            name: name.to_owned(),
            is_dir,
            subtree_pruned: false,
        }
    }
}

/// The entries of a share at one time.
#[derive(Debug)]
pub struct ShareSnapshot {
    pub id: String,
    pub subscription_id: String,
    pub captured_at: Timestamp,
    pub items: Vec<ShareSnapshotItem>,
}

/// Items by path; of several with one path the last.
pub struct PathIndex {
    paths: PathSet,
    by_path: StringHashMap<ShareSnapshotItem>,
}

impl View for PathIndex {
    type V = Map<Seq<char>, ShareSnapshotItem>;

    closed spec fn view(&self) -> Map<Seq<char>, ShareSnapshotItem> {
        self.by_path@
    }
}

/// Items by path; of several with one path the last.
pub open spec fn indexed(items: Seq<ShareSnapshotItem>) -> Map<Seq<char>, ShareSnapshotItem>
    decreases items.len(),
{
    if items.len() == 0 {
        Map::empty()
    } else {
        indexed(items.drop_last()).insert(items.last().path@, items.last())
    }
}

impl PathIndex {
    #[verifier::type_invariant]
    spec fn inv(self) -> bool {
        self.paths@ == self.by_path@.dom()
    }

    /// The items by path.
    pub fn of(items: &Vec<ShareSnapshotItem>) -> (r: PathIndex)
        ensures
            r@ == indexed(items@),
    {
        let mut by_path: StringHashMap<ShareSnapshotItem> = StringHashMap::new();
        let mut paths = PathSet::new();
        let mut i: usize = 0;
        proof {
            assert(indexed(items@.take(0)) =~= Map::empty());
            assert(paths@ =~= by_path@.dom());
        }
        while i < items.len()
            invariant
                i <= items@.len(),
                by_path@ == indexed(items@.take(i as int)),
                paths@ == by_path@.dom(),
            decreases items@.len() - i,
        {
            by_path.insert(items[i].path.clone(), items[i].clone());
            paths.insert(items[i].path.clone());
            i += 1;
            proof {
                assert(items@.take(i as int).drop_last() =~= items@.take(i - 1));
                assert(items@.take(i as int).last() == items@[i - 1]);
                assert(paths@ =~= by_path@.dom());
            }
        }
        assert(items@.take(i as int) =~= items@);
        PathIndex { paths, by_path }
    }

    /// The item at `path`.
    pub fn get(&self, path: &str) -> (r: Option<&ShareSnapshotItem>)
        ensures
            match r {
                Some(item) => self@.contains_key(path@) && *item == self@[path@],
                None => !self@.contains_key(path@),
            },
    {
        self.by_path.get(path)
    }

    /// The paths of the items, each once.
    pub fn paths(&self) -> (r: &Vec<String>)
        ensures
            text::texts(r@).to_set() == self@.dom(),
            text::texts(r@).no_duplicates(),
    {
        proof {
            use_type_invariant(self);
        }
        self.paths.items()
    }
}

/// What is found in an index is an item at the path asked for, and each path of an item
/// is found.
pub proof fn law_index_finds_every_path(items: Seq<ShareSnapshotItem>, path: Seq<char>)
    ensures
        indexed(items).contains_key(path) <==> exists|i: int|
            0 <= i < items.len() && #[trigger] items[i].path@ == path,
        indexed(items).contains_key(path) ==> {
            &&& items.contains(indexed(items)[path])
            &&& indexed(items)[path].path@ == path
        },
    decreases items.len(),
{
    if items.len() > 0 {
        let front = items.drop_last();
        law_index_finds_every_path(front, path);
        if items.last().path@ == path {
            assert(items[items.len() - 1] == items.last());
        } else {
            if indexed(front).contains_key(path) {
                let i = choose|i: int| 0 <= i < front.len() && #[trigger] front[i].path@ == path;
                assert(items[i] == front[i]);
                let x = indexed(front)[path];
                let k = choose|k: int| 0 <= k < front.len() && front[k] == x;
                assert(items[k] == x);
            }
            if exists|i: int| 0 <= i < items.len() && #[trigger] items[i].path@ == path {
                let i = choose|i: int| 0 <= i < items.len() && #[trigger] items[i].path@ == path;
                assert(i < front.len());
                assert(front[i] == items[i]);
            }
        }
    }
}

impl ShareSnapshot {
    /// A snapshot without entries.
    pub fn empty(subscription_id: &str) -> (r: ShareSnapshot)
        ensures
            r.subscription_id@ == subscription_id@,
            r.items@.len() == 0,
            r.id@.len() == 36,
    {
        ShareSnapshot::with_items(subscription_id, Vec::new())
    }

    /// A snapshot of the given entries, with a fresh id and the current time.
    pub fn with_items(subscription_id: &str, items: Vec<ShareSnapshotItem>) -> (r: ShareSnapshot)
        ensures
            r.subscription_id@ == subscription_id@,
            r.items == items,
            r.id@.len() == 36,
    {
        ShareSnapshot {
            id: fresh_id(),
            subscription_id: subscription_id.to_owned(),
            captured_at: now_utc(),
            items,
        }
    }

    /// The items by path.
    pub fn index_by_path(&self) -> (r: PathIndex)
        ensures
            r@ == indexed(self.items@),
    {
        PathIndex::of(&self.items)
    }

    /// The items by path, those of equal path in the order they have.
    pub fn sorted_items(&self) -> (r: Vec<ShareSnapshotItem>)
        ensures
            sorting::is_stable_sort(r@, self.items@),
    {
        sort_stable(&self.items)
    }

    /// The number of files; directories do not count.
    pub fn file_count(&self) -> (r: usize)
        ensures
            r == self.items@.filter(|i: ShareSnapshotItem| !i.is_dir).len(),
    {
        let mut n: usize = 0;
        let mut i: usize = 0;
        let ghost p = |i: ShareSnapshotItem| !i.is_dir;
        assert(self.items@.take(0).filter(p).len() == 0) by {
            reveal(Seq::filter);
        }
        while i < self.items.len()
            invariant
                i <= self.items@.len(),
                n <= i,
                p == (|i: ShareSnapshotItem| !i.is_dir),
                n == self.items@.take(i as int).filter(p).len(),
            decreases self.items@.len() - i,
        {
            proof {
                reveal(Seq::filter);
                let now = self.items@.take(i + 1);
                assert(now.drop_last() =~= self.items@.take(i as int));
                assert(now.last() == self.items@[i as int]);
            }
            if !self.items[i].is_dir {
                n += 1;
            }
            i += 1;
        }
        assert(self.items@.take(i as int) =~= self.items@);
        n
    }
}

/// What is needed of a share, besides its entries, to copy or download them later.
#[derive(Debug)]
pub struct CapturedShare {
    pub short_key: String,
    pub shareid: String,
    pub uk: String,
    /// The share's own user key, which may differ from `uk`.
    pub share_uk: String,
    pub bdstoken: String,
    pub password: Option<String>,
    pub randsk: Option<String>,
    pub kind: ShareKind,
}

/// How far a scan has come.
///
/// `dirs_pending` grows while directories are found, so it is no base for a percentage.
#[derive(Debug)]
pub struct ScanProgress {
    pub dirs_done: usize,
    pub dirs_pending: usize,
    pub files_seen: usize,
    pub current_dir: String,
    pub cached_hits: usize,
}

impl Default for ScanProgress {
    fn default() -> (r: Self)
        ensures
            r.dirs_done == 0,
            r.dirs_pending == 0,
            r.files_seen == 0,
            r.current_dir@.len() == 0,
            r.cached_hits == 0,
    {
        ScanProgress {
            dirs_done: 0,
            dirs_pending: 0,
            files_seen: 0,
            current_dir: String::new(),
            cached_hits: 0,
        }
    }
}

/// Directories that were listed to the end, kept over the attempts of one run, so that
/// another attempt does not list them again.
pub struct ScanCache {
    dirs: StringHashMap<Vec<SharedFileInfo>>,
}

impl View for ScanCache {
    type V = Map<Seq<char>, Vec<SharedFileInfo>>;

    closed spec fn view(&self) -> Map<Seq<char>, Vec<SharedFileInfo>> {
        self.dirs@
    }
}

impl ScanCache {
    /// A cache without directories.
    pub fn new() -> (r: ScanCache)
        ensures
            r@ == Map::<Seq<char>, Vec<SharedFileInfo>>::empty(),
    {
        ScanCache { dirs: StringHashMap::new() }
    }

    /// The entries of `dir`, where it is cached.
    pub fn get(&self, dir: &str) -> (r: Option<Vec<SharedFileInfo>>)
        ensures
            match r {
                Some(files) => self@.contains_key(dir@) && files@ == self@[dir@]@,
                None => !self@.contains_key(dir@),
            },
    {
        match self.dirs.get(dir) {
            Some(files) => Some(copy_files(files)),
            None => None,
        }
    }

    /// Keeps the entries of `dir`.
    pub fn put(&mut self, dir: String, files: Vec<SharedFileInfo>)
        ensures
            final(self)@ == old(self)@.insert(dir@, files),
    {
        self.dirs.insert(dir, files);
    }

    /// The number of cached directories.
    pub fn len(&self) -> (r: usize)
        ensures
            r == self@.len(),
    {
        self.dirs.len()
    }

    /// Whether no directory is cached.
    pub fn is_empty(&self) -> (r: bool)
        ensures
            r == self@.is_empty(),
    {
        self.dirs.is_empty()
    }
}

// ---------------------------------------------------------------------------
// Which entries belong to a snapshot
// ---------------------------------------------------------------------------
/// The root, every include path and every directory above one.
pub open spec fn include_index(includes: Set<Seq<char>>) -> Set<Seq<char>> {
    Set::new(
        |d: Seq<char>|
            d == seq!['/'] || exists|inc: Seq<char>| #[trigger]
                includes.contains(inc) && (d == inc || paths::is_ancestor_dir(d, inc)),
    )
}

/// `include_index` of the first `n` paths of a list.
spec fn index_of_first(list: Seq<Seq<char>>, n: int) -> Set<Seq<char>> {
    Set::new(
        |d: Seq<char>|
            d == seq!['/'] || exists|k: int|
                0 <= k < n && (d == #[trigger] list[k] || paths::is_ancestor_dir(d, list[k])),
    )
}

/// The root, every include path and every directory above one.
pub fn build_include_index(include_paths: &PathSet) -> (r: PathSet)
    ensures
        r@ == include_index(include_paths@),
{
    build_include_index_impl(include_paths)
}

fn build_include_index_impl(include_paths: &PathSet) -> (r: PathSet)
    ensures
        r@ == include_index(include_paths@),
{
    let list = include_paths.items();
    let ghost tl = text::texts(list@);
    let mut idx = PathSet::new();
    idx.insert("/".to_owned());
    proof {
        reveal_strlit("/");
        assert("/"@ =~= seq!['/']);
        assert(idx@ =~= index_of_first(tl, 0));
    }
    let mut i: usize = 0;
    while i < list.len()
        invariant
            i <= list@.len(),
            tl == text::texts(list@),
            idx@ == index_of_first(tl, i as int),
        decreases list@.len() - i,
    {
        idx.insert(list[i].clone());
        let cs = chars_of(list[i].as_str());
        let cuts = path_cuts(&cs, cs.len());
        let ghost tc = text::texts(cuts@);
        let ghost inc = tl[i as int];
        assert(cs@.take(cs@.len() as int) =~= inc);
        let mut j: usize = 0;
        proof {
            assert(idx@ =~= index_of_first(tl, i as int).insert(inc).union(
                tc.take(0).to_set(),
            )) by {
                assert(tc.take(0).to_set() =~= Set::<Seq<char>>::empty());
            }
        }
        while j < cuts.len()
            invariant
                j <= cuts@.len(),
                tc == text::texts(cuts@),
                idx@ == index_of_first(tl, i as int).insert(inc).union(tc.take(j as int).to_set()),
            decreases cuts@.len() - j,
        {
            idx.insert(cuts[j].clone());
            j += 1;
            proof {
                assert(tc.take(j as int) =~= tc.take(j - 1).push(tc[j - 1]));
                crate::collections::lemma_push_to_set(tc.take(j - 1), tc[j - 1]);
                assert(idx@ =~= index_of_first(tl, i as int).insert(inc).union(
                    tc.take(j as int).to_set(),
                ));
            }
        }
        proof {
            assert(tc.take(j as int) =~= tc);
            let old_set = index_of_first(tl, i as int);
            let new_set = index_of_first(tl, i + 1);
            assert forall|d: Seq<char>| idx@.contains(d) == new_set.contains(d) by {
                assert(tc.to_set().contains(d) == tc.contains(d));
                if new_set.contains(d) && d != seq!['/'] {
                    let k = choose|k: int|
                        0 <= k < i + 1 && (d == #[trigger] tl[k] || paths::is_ancestor_dir(
                            d,
                            tl[k],
                        ));
                    if k < i {
                        assert(old_set.contains(d));
                    }
                }
                if old_set.contains(d) && d != seq!['/'] {
                    let k = choose|k: int|
                        0 <= k < i && (d == #[trigger] tl[k] || paths::is_ancestor_dir(d, tl[k]));
                    assert(k < i + 1);
                }
                if d == inc || paths::is_ancestor_dir(d, inc) {
                    assert(tl[i as int] == inc);
                }
            }
            assert(idx@ =~= new_set);
        }
        i += 1;
    }
    proof {
        let set = include_index(include_paths@);
        assert forall|d: Seq<char>| idx@.contains(d) == set.contains(d) by {
            if idx@.contains(d) && d != seq!['/'] {
                let k = choose|k: int|
                    0 <= k < i && (d == #[trigger] tl[k] || paths::is_ancestor_dir(d, tl[k]));
                assert(tl.contains(tl[k]));
                assert(include_paths@.contains(tl[k]));
            }
            if set.contains(d) && d != seq!['/'] {
                let inc = choose|inc: Seq<char>| #[trigger]
                    include_paths@.contains(inc) && (d == inc || paths::is_ancestor_dir(d, inc));
                assert(tl.to_set().contains(inc));
                let k = choose|k: int| 0 <= k < tl.len() && tl[k] == inc;
                assert(tl[k] == inc);
            }
        }
        assert(idx@ =~= set);
    }
    idx
}

/// Whether `path` is an include path or below one.
pub open spec fn below_include(includes: Set<Seq<char>>, path: Seq<char>) -> bool {
    exists|inc: Seq<char>| #[trigger] includes.contains(inc) && paths::within(path, inc)
}

/// Whether `path` is an include path or below one.
fn is_below_include(include_paths: &PathSet, path: &str) -> (r: bool)
    ensures
        r == below_include(include_paths@, path@),
{
    let list = include_paths.items();
    let ghost tl = text::texts(list@);
    let mut i: usize = 0;
    while i < list.len()
        invariant
            i <= list@.len(),
            tl == text::texts(list@),
            tl.to_set() == include_paths@,
            forall|k: int| 0 <= k < i ==> !paths::within(path@, #[trigger] tl[k]),
        decreases list@.len() - i,
    {
        if is_path_ancestor_or_self(path, list[i].as_str()) {
            proof {
                assert(tl.contains(tl[i as int]));
                assert(include_paths@.contains(tl[i as int]));
            }
            return true;
        }
        i += 1;
    }
    proof {
        assert forall|inc: Seq<char>| #[trigger] include_paths@.contains(inc) implies !paths::within(
            path@,
            inc,
        ) by {
            assert(tl.to_set().contains(inc));
            let k = choose|k: int| 0 <= k < tl.len() && tl[k] == inc;
            assert(!paths::within(path@, tl[k]));
        }
    }
    false
}

/// Whether a scan enters the directory `dir`: where there are no include paths, always;
/// else where `dir` leads to an include path or lies below one.
pub open spec fn dir_allowed(
    includes: Set<Seq<char>>,
    index: Set<Seq<char>>,
    dir: Seq<char>,
) -> bool {
    ||| includes == Set::<Seq<char>>::empty()
    ||| index.contains(dir)
    ||| below_include(includes, dir)
}

/// Whether a scan enters the directory `dir`.
pub fn dir_allowed_with(include_paths: &PathSet, include_index: &PathSet, dir: &str) -> (r: bool)
    ensures
        r == dir_allowed(include_paths@, include_index@, dir@),
{
    include_paths.is_empty() || include_index.contains(dir) || is_below_include(include_paths, dir)
}

/// A directory is entered exactly when there is no include path, or it is the root, or
/// it is, leads to or lies below an include path. A file that is included lets in the
/// directories on the way to it and no sibling of theirs.
pub proof fn law_dir_allowed_by_relation(includes: Set<Seq<char>>, dir: Seq<char>)
    ensures
        dir_allowed(includes, include_index(includes), dir) <==> {
            ||| includes == Set::<Seq<char>>::empty()
            ||| dir == seq!['/']
            ||| exists|inc: Seq<char>| #[trigger]
                includes.contains(inc) && (paths::within(dir, inc) || paths::is_ancestor_dir(
                    dir,
                    inc,
                ))
        },
{
    let index = include_index(includes);
    if index.contains(dir) && dir != seq!['/'] {
        let inc = choose|inc: Seq<char>| #[trigger]
            includes.contains(inc) && (dir == inc || paths::is_ancestor_dir(dir, inc));
        assert(paths::within(dir, inc) || paths::is_ancestor_dir(dir, inc));
    }
}

/// Everything below a directory that is included is entered, at any depth.
pub proof fn law_descendants_of_included_dir_allowed(
    includes: Set<Seq<char>>,
    index: Set<Seq<char>>,
    inc: Seq<char>,
    dir: Seq<char>,
)
    requires
        includes.contains(inc),
        paths::within(dir, inc),
    ensures
        dir_allowed(includes, index, dir),
{
}

/// Whether an entry at `path` belongs to the snapshot: it is, leads to or lies below an
/// include path, where there are any, and no exclude glob matches it.
pub open spec fn item_allowed(
    includes: Set<Seq<char>>,
    index: Set<Seq<char>>,
    excludes: Option<Seq<Seq<char>>>,
    path: Seq<char>,
) -> bool {
    &&& dir_allowed(includes, index, path)
    &&& excludes matches Some(globs) ==> !patterns::any_glob_matches(globs, path)
}

/// The globs of an optional exclude set.
pub open spec fn globs_of(set: Option<&ExcludeSet>) -> Option<Seq<Seq<char>>> {
    match set {
        Some(s) => Some(s@),
        None => None,
    }
}

/// Whether an entry belongs to the snapshot.
pub fn item_allowed_with(
    include_paths: &PathSet,
    include_index: &PathSet,
    exclude_set: Option<&ExcludeSet>,
    item: &ShareSnapshotItem,
) -> (r: bool)
    ensures
        r == item_allowed(
            include_paths@,
            include_index@,
            globs_of(exclude_set),
            item.path@,
        ),
{
    if !dir_allowed_with(include_paths, include_index, item.path.as_str()) {
        return false;
    }
    match exclude_set {
        Some(set) => !set.is_match(item.path.as_str()),
        None => true,
    }
}

/// Whether more pages of the directory `dir` have to be listed: always where there are
/// no include paths or `dir` lies below one; else as long as an include path below
/// `dir` has not been found.
pub open spec fn more_pages_needed(
    includes: Set<Seq<char>>,
    dir: Seq<char>,
    found: Set<Seq<char>>,
) -> bool {
    ||| includes == Set::<Seq<char>>::empty()
    ||| below_include(includes, dir)
    ||| exists|inc: Seq<char>| #[trigger]
        includes.contains(inc) && paths::within(inc, dir) && !found.contains(inc)
}

/// Whether more pages of the directory `dir` have to be listed.
pub fn dir_needs_more_pages(include_paths: &PathSet, dir: &str, found_included_files: &PathSet) -> (r:
    bool)
    ensures
        r == more_pages_needed(include_paths@, dir@, found_included_files@),
{
    if include_paths.is_empty() || is_below_include(include_paths, dir) {
        return true;
    }
    let list = include_paths.items();
    let ghost tl = text::texts(list@);
    let mut i: usize = 0;
    while i < list.len()
        invariant
            i <= list@.len(),
            tl == text::texts(list@),
            tl.to_set() == include_paths@,
            forall|k: int|
                0 <= k < i ==> !(paths::within(#[trigger] tl[k], dir@)
                    && !found_included_files@.contains(tl[k])),
        decreases list@.len() - i,
    {
        if is_path_ancestor_or_self(list[i].as_str(), dir) && !found_included_files.contains(
            list[i].as_str(),
        ) {
            proof {
                assert(tl.contains(tl[i as int]));
                assert(include_paths@.contains(tl[i as int]));
            }
            return true;
        }
        i += 1;
    }
    proof {
        assert forall|inc: Seq<char>| #[trigger] include_paths@.contains(inc) implies !(
        paths::within(inc, dir@) && !found_included_files@.contains(inc)) by {
            assert(tl.to_set().contains(inc));
            let k = choose|k: int| 0 <= k < tl.len() && tl[k] == inc;
            assert(tl[k] == inc);
        }
    }
    false
}

/// A directory is listed to its end where nothing is picked out, where it is an include path, and
/// where it lies below one, at whatever depth.
pub proof fn law_included_dirs_are_listed_to_their_end(
    includes: Set<Seq<char>>,
    dir: Seq<char>,
    found: Set<Seq<char>>,
)
    requires
        includes == Set::<Seq<char>>::empty() || exists|inc: Seq<char>| #[trigger]
            includes.contains(inc) && (inc == dir || inc == seq!['/'] || inc.push(
                '/',
            ).is_prefix_of(dir)),
    ensures
        more_pages_needed(includes, dir, found),
{
    if includes != Set::<Seq<char>>::empty() {
        let inc = choose|inc: Seq<char>| #[trigger]
            includes.contains(inc) && (inc == dir || inc == seq!['/'] || inc.push(
                '/',
            ).is_prefix_of(dir));
        paths::law_within_is_a_whole_beginning(dir, inc, seq![]);
    }
}

/// Of a directory above include paths no more is listed once each of those has been found, and
/// not before.
pub proof fn law_dir_is_left_once_all_is_found(
    includes: Set<Seq<char>>,
    dir: Seq<char>,
    found: Set<Seq<char>>,
)
    requires
        includes != Set::<Seq<char>>::empty(),
        forall|inc: Seq<char>| #[trigger]
            includes.contains(inc) ==> inc != dir && inc != seq!['/'] && !inc.push(
                '/',
            ).is_prefix_of(dir),
    ensures
        more_pages_needed(includes, dir, found) <==> exists|inc: Seq<char>| #[trigger]
            includes.contains(inc) && !found.contains(inc) && (dir == seq!['/'] || dir.push(
                '/',
            ).is_prefix_of(inc)),
{
    assert forall|inc: Seq<char>| #[trigger] includes.contains(inc) implies !paths::within(dir, inc)
        && (paths::within(inc, dir) <==> (dir == seq!['/'] || dir.push('/').is_prefix_of(inc))) by {
        paths::law_within_is_a_whole_beginning(dir, inc, seq![]);
        paths::law_within_is_a_whole_beginning(inc, dir, seq![]);
    }
}

/// Whether an entry that does not belong to the snapshot lies below the directory at
/// `path`.
pub open spec fn has_dropped_descendant(
    items: Seq<ShareSnapshotItem>,
    includes: Set<Seq<char>>,
    index: Set<Seq<char>>,
    excludes: Option<Seq<Seq<char>>>,
    path: Seq<char>,
) -> bool {
    exists|i: int|
        0 <= i < items.len() && !item_allowed(includes, index, excludes, (
        #[trigger] items[i]).path@) && paths::is_ancestor_dir(
            path,
            text::strip_end(items[i].path@, '/'),
        )
}

/// The first `n` entries without those that do not belong to the snapshot, the
/// directories marked below which an entry was dropped.
pub open spec fn kept_views(
    items: Seq<ShareSnapshotItem>,
    includes: Set<Seq<char>>,
    index: Set<Seq<char>>,
    excludes: Option<Seq<Seq<char>>>,
    n: int,
) -> Seq<ItemView>
    decreases n,
{
    if n <= 0 {
        Seq::empty()
    } else {
        let front = kept_views(items, includes, index, excludes, n - 1);
        let it = items[n - 1]@;
        if item_allowed(includes, index, excludes, it.path) {
            front.push(
                ItemView {
                    subtree_pruned: it.subtree_pruned || (it.is_dir && has_dropped_descendant(
                        items,
                        includes,
                        index,
                        excludes,
                        it.path,
                    )),
                    ..it
                },
            )
        } else {
            front
        }
    }
}

/// `r` holds the entries that belong to the snapshot, marked and sorted by path.
pub open spec fn is_filtered(
    r: Seq<ShareSnapshotItem>,
    items: Seq<ShareSnapshotItem>,
    includes: Set<Seq<char>>,
    index: Set<Seq<char>>,
    excludes: Option<Seq<Seq<char>>>,
) -> bool {
    exists|kept: Seq<ShareSnapshotItem>| #[trigger]
        sorting::is_stable_sort(r, kept) && item_views(kept) == kept_views(
            items,
            includes,
            index,
            excludes,
            items.len() as int,
        )
}

/// Leaves out the entries that do not belong to the snapshot, marks every directory
/// below which something was left out, and sorts by path.
pub fn filter_and_mark_pruned(
    all_items: Vec<ShareSnapshotItem>,
    include_paths: &PathSet,
    include_index: &PathSet,
    exclude_set: Option<&ExcludeSet>,
) -> (r: Vec<ShareSnapshotItem>)
    ensures
        is_filtered(
            r@,
            all_items@,
            include_paths@,
            include_index@,
            globs_of(exclude_set),
        ),
{
    let ghost inc = include_paths@;
    let ghost index = include_index@;
    let ghost exc = globs_of(exclude_set);
    let ghost all = all_items@;
    // The directories above the entries that are left out.
    let mut pruned = PathSet::new();
    let mut i: usize = 0;
    while i < all_items.len()
        invariant
            i <= all_items@.len(),
            inc == include_paths@,
            index == include_index@,
            exc == globs_of(exclude_set),
            all == all_items@,
            forall|p: Seq<char>| #[trigger]
                pruned@.contains(p) <==> has_dropped_descendant(all.take(i as int), inc, index, exc, p),
        decreases all_items@.len() - i,
    {
        let ghost before = pruned@;
        if !item_allowed_with(include_paths, include_index, exclude_set, &all_items[i]) {
            let above = ancestor_dirs(all_items[i].path.as_str());
            let ghost ta = text::texts(above@);
            let mut j: usize = 0;
            assert(before.union(ta.take(0).to_set()) =~= before) by {
                assert(ta.take(0).to_set() =~= Set::<Seq<char>>::empty());
            }
            while j < above.len()
                invariant
                    j <= above@.len(),
                    ta == text::texts(above@),
                    pruned@ == before.union(ta.take(j as int).to_set()),
                decreases above@.len() - j,
            {
                pruned.insert(above[j].clone());
                j += 1;
                proof {
                    assert(ta.take(j as int) =~= ta.take(j - 1).push(ta[j - 1]));
                    crate::collections::lemma_push_to_set(ta.take(j - 1), ta[j - 1]);
                    assert(pruned@ =~= before.union(ta.take(j as int).to_set()));
                }
            }
            assert(ta.take(j as int) =~= ta);
        }
        proof {
            let prev = all.take(i as int);
            let now = all.take(i + 1);
            let it = all[i as int];
            let dropped = !item_allowed(inc, index, exc, it.path@);
            assert forall|p: Seq<char>| #[trigger]
                pruned@.contains(p) <==> has_dropped_descendant(now, inc, index, exc, p) by {
                let above = paths::is_ancestor_dir(p, text::strip_end(it.path@, '/'));
                assert(pruned@.contains(p) == (before.contains(p) || (dropped && above)));
                if has_dropped_descendant(prev, inc, index, exc, p) {
                    let k = choose|k: int|
                        0 <= k < prev.len() && !item_allowed(inc, index, exc, (
                        #[trigger] prev[k]).path@) && paths::is_ancestor_dir(
                            p,
                            text::strip_end(prev[k].path@, '/'),
                        );
                    assert(now[k] == prev[k]);
                }
                if dropped && above {
                    assert(now[i as int] == it);
                }
                if has_dropped_descendant(now, inc, index, exc, p) {
                    let k = choose|k: int|
                        0 <= k < now.len() && !item_allowed(inc, index, exc, (
                        #[trigger] now[k]).path@) && paths::is_ancestor_dir(
                            p,
                            text::strip_end(now[k].path@, '/'),
                        );
                    if k < i {
                        assert(prev[k] == now[k]);
                    }
                }
            }
        }
        i += 1;
    }
    assert(all.take(i as int) =~= all);
    let mut kept: Vec<ShareSnapshotItem> = Vec::new();
    let mut k: usize = 0;
    assert(item_views(kept@) =~= kept_views(all, inc, index, exc, 0));
    while k < all_items.len()
        invariant
            k <= all_items@.len(),
            inc == include_paths@,
            index == include_index@,
            exc == globs_of(exclude_set),
            all == all_items@,
            forall|p: Seq<char>| #[trigger]
                pruned@.contains(p) <==> has_dropped_descendant(all, inc, index, exc, p),
            item_views(kept@) == kept_views(all, inc, index, exc, k as int),
        decreases all_items@.len() - k,
    {
        let ghost before = item_views(kept@);
        if item_allowed_with(include_paths, include_index, exclude_set, &all_items[k]) {
            let mut it = all_items[k].clone();
            if it.is_dir && pruned.contains(it.path.as_str()) {
                it.subtree_pruned = true;
            }
            kept.push(it);
            assert(item_views(kept@) =~= before.push(it@));
        }
        k += 1;
    }
    let r = sort_stable(&kept);
    assert(sorting::is_stable_sort(r@, kept@));
    r
}

/// What a kept entry is: an entry that belongs to the snapshot, marked where something
/// below it was dropped.
pub open spec fn kept_from(
    v: ItemView,
    items: Seq<ShareSnapshotItem>,
    includes: Set<Seq<char>>,
    index: Set<Seq<char>>,
    excludes: Option<Seq<Seq<char>>>,
    i: int,
) -> bool {
    let it = items[i]@;
    &&& item_allowed(includes, index, excludes, it.path)
    &&& v == (ItemView {
        subtree_pruned: it.subtree_pruned || (it.is_dir && has_dropped_descendant(
            items,
            includes,
            index,
            excludes,
            it.path,
        )),
        ..it
    })
}

/// `v` is kept from one of the first `n` entries.
pub open spec fn kept_from_some(
    v: ItemView,
    items: Seq<ShareSnapshotItem>,
    includes: Set<Seq<char>>,
    index: Set<Seq<char>>,
    excludes: Option<Seq<Seq<char>>>,
    n: int,
) -> bool {
    exists|i: int|
        0 <= i < n && #[trigger] kept_from(v, items, includes, index, excludes, i)
}

/// One of `views` is kept from entry `i`.
pub open spec fn some_kept_from(
    views: Seq<ItemView>,
    items: Seq<ShareSnapshotItem>,
    includes: Set<Seq<char>>,
    index: Set<Seq<char>>,
    excludes: Option<Seq<Seq<char>>>,
    i: int,
) -> bool {
    exists|k: int|
        0 <= k < views.len() && kept_from(
            #[trigger] views[k],
            items,
            includes,
            index,
            excludes,
            i,
        )
}

proof fn lemma_kept_views(
    items: Seq<ShareSnapshotItem>,
    includes: Set<Seq<char>>,
    index: Set<Seq<char>>,
    excludes: Option<Seq<Seq<char>>>,
    n: int,
)
    requires
        0 <= n <= items.len(),
    ensures
        forall|k: int|
            0 <= k < kept_views(items, includes, index, excludes, n).len() ==> kept_from_some(
                #[trigger] kept_views(items, includes, index, excludes, n)[k],
                items,
                includes,
                index,
                excludes,
                n,
            ),
        forall|i: int|
            0 <= i < n && item_allowed(includes, index, excludes, (#[trigger] items[i]).path@)
                ==> some_kept_from(
                kept_views(items, includes, index, excludes, n),
                items,
                includes,
                index,
                excludes,
                i,
            ),
    decreases n,
{
    if n > 0 {
        lemma_kept_views(items, includes, index, excludes, n - 1);
        let front = kept_views(items, includes, index, excludes, n - 1);
        let kept = kept_views(items, includes, index, excludes, n);
        assert forall|k: int| 0 <= k < kept.len() implies kept_from_some(
            #[trigger] kept[k],
            items,
            includes,
            index,
            excludes,
            n,
        ) by {
            if k < front.len() {
                assert(kept[k] == front[k]);
                assert(kept_from_some(front[k], items, includes, index, excludes, n - 1));
                let i = choose|i: int|
                    0 <= i < n - 1 && #[trigger] kept_from(
                        front[k],
                        items,
                        includes,
                        index,
                        excludes,
                        i,
                    );
                assert(kept_from(kept[k], items, includes, index, excludes, i));
            } else {
                assert(kept_from(kept[k], items, includes, index, excludes, n - 1));
            }
        }
        assert forall|i: int|
            0 <= i < n && item_allowed(
                includes,
                index,
                excludes,
                (#[trigger] items[i]).path@,
            ) implies some_kept_from(kept, items, includes, index, excludes, i) by {
            if i < n - 1 {
                assert(some_kept_from(front, items, includes, index, excludes, i));
                let k = choose|k: int|
                    0 <= k < front.len() && kept_from(
                        #[trigger] front[k],
                        items,
                        includes,
                        index,
                        excludes,
                        i,
                    );
                assert(kept[k] == front[k]);
            } else {
                let k = kept.len() - 1;
                assert(kept_from(kept[k], items, includes, index, excludes, i));
            }
        }
    }
}

/// The filtered list holds exactly the entries that belong to the snapshot: each of its
/// entries comes from one of the given ones that does, and each of those is in it.
pub proof fn law_filter_keeps_allowed_entries(
    r: Seq<ShareSnapshotItem>,
    items: Seq<ShareSnapshotItem>,
    includes: Set<Seq<char>>,
    index: Set<Seq<char>>,
    excludes: Option<Seq<Seq<char>>>,
)
    requires
        is_filtered(r, items, includes, index, excludes),
    ensures
        forall|k: int|
            0 <= k < r.len() ==> kept_from_some(
                (#[trigger] r[k])@,
                items,
                includes,
                index,
                excludes,
                items.len() as int,
            ),
        forall|i: int|
            0 <= i < items.len() && item_allowed(
                includes,
                index,
                excludes,
                (#[trigger] items[i]).path@,
            ) ==> some_kept_from(item_views(r), items, includes, index, excludes, i),
{
    let n = items.len() as int;
    let kept = choose|kept: Seq<ShareSnapshotItem>| #[trigger]
        sorting::is_stable_sort(r, kept) && item_views(kept) == kept_views(
            items,
            includes,
            index,
            excludes,
            n,
        );
    let views = kept_views(items, includes, index, excludes, n);
    lemma_kept_views(items, includes, index, excludes, n);
    sorting::lemma_stable_sort_elements(r, kept);
    assert forall|k: int| 0 <= k < r.len() implies kept_from_some(
        (#[trigger] r[k])@,
        items,
        includes,
        index,
        excludes,
        n,
    ) by {
        assert(r.contains(r[k]));
        let m = choose|m: int| 0 <= m < kept.len() && kept[m] == r[k];
        assert(item_views(kept)[m] == r[k]@);
        assert(views[m] == r[k]@);
    }
    assert forall|i: int|
        0 <= i < items.len() && item_allowed(
            includes,
            index,
            excludes,
            (#[trigger] items[i]).path@,
        ) implies some_kept_from(item_views(r), items, includes, index, excludes, i) by {
        assert(some_kept_from(views, items, includes, index, excludes, i));
        let m = choose|m: int|
            0 <= m < views.len() && kept_from(
                #[trigger] views[m],
                items,
                includes,
                index,
                excludes,
                i,
            );
        assert(item_views(kept)[m] == kept[m]@);
        assert(kept.contains(kept[m]));
        let k = choose|k: int| 0 <= k < r.len() && r[k] == kept[m];
        assert(item_views(r)[k] == views[m]);
    }
}

/// Every directory that survives and has something dropped below it, however deep, is
/// marked, so that it is not copied as a whole.
pub proof fn law_dropped_entry_marks_surviving_ancestors(
    r: Seq<ShareSnapshotItem>,
    items: Seq<ShareSnapshotItem>,
    includes: Set<Seq<char>>,
    index: Set<Seq<char>>,
    excludes: Option<Seq<Seq<char>>>,
    k: int,
    d: int,
)
    requires
        is_filtered(r, items, includes, index, excludes),
        0 <= k < r.len(),
        0 <= d < items.len(),
        r[k].is_dir,
        !item_allowed(includes, index, excludes, items[d].path@),
        paths::is_ancestor_dir(r[k].path@, text::strip_end(items[d].path@, '/')),
    ensures
        r[k].subtree_pruned,
{
    law_filter_keeps_allowed_entries(r, items, includes, index, excludes);
    assert(kept_from_some(r[k]@, items, includes, index, excludes, items.len() as int));
    let i = choose|i: int|
        0 <= i < items.len() && #[trigger] kept_from(
            r[k]@,
            items,
            includes,
            index,
            excludes,
            i,
        );
    assert(r[k]@.path == items[i]@.path);
    assert(has_dropped_descendant(items, includes, index, excludes, r[k].path@));
}

/// The filtered list is sorted by path.
pub proof fn law_filtered_is_sorted(
    r: Seq<ShareSnapshotItem>,
    items: Seq<ShareSnapshotItem>,
    includes: Set<Seq<char>>,
    index: Set<Seq<char>>,
    excludes: Option<Seq<Seq<char>>>,
    a: int,
    b: int,
)
    requires
        is_filtered(r, items, includes, index, excludes),
        0 <= a < b < r.len(),
    ensures
        !sorting::lex_lt(sorting::text_key(r[b].path@), sorting::text_key(r[a].path@)),
{
    let kept = choose|kept: Seq<ShareSnapshotItem>| #[trigger]
        sorting::is_stable_sort(r, kept) && item_views(kept) == kept_views(
            items,
            includes,
            index,
            excludes,
            items.len() as int,
        );
    sorting::lemma_stable_sort_sorted(r, kept, a, b);
}

/// Which directories are entered, said of the paths themselves: all where nothing is picked out;
/// else the root, the include paths, what is below one of them, and what is above one of them.
pub proof fn law_which_dirs_are_entered(includes: Set<Seq<char>>, dir: Seq<char>)
    ensures
        dir_allowed(includes, include_index(includes), dir) <==> {
            ||| forall|inc: Seq<char>| !includes.contains(inc)
            ||| dir == seq!['/']
            ||| exists|inc: Seq<char>| #[trigger]
                includes.contains(inc) && {
                    ||| dir == inc
                    ||| inc == seq!['/']
                    ||| inc.push('/').is_prefix_of(dir)
                    ||| dir.len() > 0 && dir.push('/').is_prefix_of(inc)
                }
        },
{
    law_dir_allowed_by_relation(includes, dir);
    assert forall|inc: Seq<char>| #[trigger] includes.contains(inc) implies (paths::within(dir, inc)
        || paths::is_ancestor_dir(dir, inc)) == (dir == inc || inc == seq!['/'] || inc.push(
        '/',
    ).is_prefix_of(dir) || (dir.len() > 0 && dir.push('/').is_prefix_of(inc))) by {
        paths::law_within_is_a_whole_beginning(dir, inc, seq![]);
        paths::law_ancestor_is_a_whole_beginning(dir, inc);
    }
    if forall|inc: Seq<char>| !includes.contains(inc) {
        assert(includes =~= Set::<Seq<char>>::empty());
    }
}

/// An entry belongs to the snapshot exactly when its path is one that is entered and no exclude
/// glob matches it.
pub proof fn law_which_entries_belong(
    includes: Set<Seq<char>>,
    index: Set<Seq<char>>,
    globs: Seq<Seq<char>>,
    path: Seq<char>,
)
    ensures
        item_allowed(includes, index, None, path) <==> dir_allowed(includes, index, path),
        item_allowed(includes, index, Some(globs), path) <==> dir_allowed(includes, index, path) && (
        forall|i: int|
            0 <= i < globs.len() ==> !patterns::glob_matches(#[trigger] globs[i], path)),
{
}

/// A directory of the snapshot is marked exactly where it was marked before, or where an entry
/// below it was left out, at whatever depth. Nothing else of an entry changes.
pub proof fn law_marks_say_that_something_is_missing(
    r: Seq<ShareSnapshotItem>,
    items: Seq<ShareSnapshotItem>,
    includes: Set<Seq<char>>,
    index: Set<Seq<char>>,
    excludes: Option<Seq<Seq<char>>>,
    k: int,
) -> (i: int)
    requires
        is_filtered(r, items, includes, index, excludes),
        0 <= k < r.len(),
    ensures
        0 <= i < items.len(),
        r[k].path@ == items[i].path@,
        r[k].raw_path@ == items[i].raw_path@,
        r[k].fs_id == items[i].fs_id,
        r[k].size == items[i].size,
        r[k].name@ == items[i].name@,
        r[k].is_dir == items[i].is_dir,
        item_allowed(includes, index, excludes, items[i].path@),
        r[k].subtree_pruned <==> items[i].subtree_pruned || (items[i].is_dir && exists|d: int|
            0 <= d < items.len() && !item_allowed(
                includes,
                index,
                excludes,
                (#[trigger] items[d]).path@,
            ) && r[k].path@.len() > 0 && r[k].path@.push('/').is_prefix_of(
                text::strip_end(items[d].path@, '/'),
            )),
{
    law_filter_keeps_allowed_entries(r, items, includes, index, excludes);
    assert(kept_from_some(r[k]@, items, includes, index, excludes, items.len() as int));
    let i = choose|i: int|
        0 <= i < items.len() && #[trigger] kept_from(r[k]@, items, includes, index, excludes, i);
    let v = r[k]@;
    let it = items[i]@;
    assert(v.path == it.path && v.raw_path == it.raw_path && v.name == it.name);
    assert forall|d: int| 0 <= d < items.len() implies paths::is_ancestor_dir(
        it.path,
        text::strip_end((#[trigger] items[d]).path@, '/'),
    ) == (it.path.len() > 0 && it.path.push('/').is_prefix_of(
        text::strip_end(items[d].path@, '/'),
    )) by {
        paths::law_ancestor_is_a_whole_beginning(it.path, text::strip_end(items[d].path@, '/'));
    }
    i
}

/// The entries of a snapshot stand sorted by path.
pub proof fn law_entries_stand_in_order(
    r: Seq<ShareSnapshotItem>,
    items: Seq<ShareSnapshotItem>,
    includes: Set<Seq<char>>,
    index: Set<Seq<char>>,
    excludes: Option<Seq<Seq<char>>>,
    a: int,
    b: int,
)
    requires
        is_filtered(r, items, includes, index, excludes),
        0 <= a < b < r.len(),
    ensures
        !sorting::comes_before(r[b].path@, r[a].path@),
{
    law_filtered_is_sorted(r, items, includes, index, excludes, a, b);
    sorting::law_text_order(r[b].path@, r[a].path@);
}

} // verus!
