//! What changed in a share, and what has to be done about it.
use vstd::prelude::*;

use crate::collections::PathSet;
use crate::share_sync::error::{ErrorView, ShareSyncError};
use crate::share_sync::paths;
use crate::share_sync::snapshot;
use crate::share_sync::snapshot::{PathIndex, ShareSnapshot, ShareSnapshotItem};
use crate::share_sync::target_paths;
use crate::share_sync::target_paths::{parent_netdisk_dir, safe_relative_download_path};
use crate::sorting;
use crate::sorting::{sort_stable, text_before, Keyed};
use crate::text;
use crate::text::{chars_of, run_end, same, starts_with, string_between};

verus! {

/// An entry that is there before and after, and differs.
#[derive(Debug)]
pub struct ShareModifiedItem {
    pub old: ShareSnapshotItem,
    pub new: ShareSnapshotItem,
}

impl Clone for ShareModifiedItem {
    fn clone(&self) -> (r: Self)
        ensures
            r == *self,
    {
        ShareModifiedItem { old: self.old.clone(), new: self.new.clone() }
    }
}

impl Keyed for ShareModifiedItem {
    open spec fn key(&self) -> Seq<int> {
        sorting::text_key(self.old.path@)
    }

    fn before(&self, other: &Self) -> (r: bool) {
        text_before(self.old.path.as_str(), other.old.path.as_str())
    }

    fn dup(&self) -> (r: Self) {
        self.clone()
    }
}

/// What changed between two snapshots.
#[derive(Debug)]
pub struct ShareDiff {
    pub added: Vec<ShareSnapshotItem>,
    pub removed: Vec<ShareSnapshotItem>,
    pub modified: Vec<ShareModifiedItem>,
    pub unchanged_count: usize,
}

fn copy_items(items: &Vec<ShareSnapshotItem>) -> (r: Vec<ShareSnapshotItem>)
    ensures
        r@ == items@,
{
    let mut r: Vec<ShareSnapshotItem> = Vec::new();
    let mut i: usize = 0;
    while i < items.len()
        invariant
            i <= items@.len(),
            r@ == items@.take(i as int),
        decreases items@.len() - i,
    {
        r.push(items[i].clone());
        i += 1;
        assert(items@.take(i as int) =~= items@.take(i - 1).push(items@[i - 1]));
    }
    assert(items@.take(i as int) =~= items@);
    r
}

fn copy_modified(items: &Vec<ShareModifiedItem>) -> (r: Vec<ShareModifiedItem>)
    ensures
        r@ == items@,
{
    let mut r: Vec<ShareModifiedItem> = Vec::new();
    let mut i: usize = 0;
    while i < items.len()
        invariant
            i <= items@.len(),
            r@ == items@.take(i as int),
        decreases items@.len() - i,
    {
        r.push(items[i].clone());
        i += 1;
        assert(items@.take(i as int) =~= items@.take(i - 1).push(items@[i - 1]));
    }
    assert(items@.take(i as int) =~= items@);
    r
}

/// The paths of the entries that a diff speaks of.
pub open spec fn touched(diff: ShareDiff) -> Set<Seq<char>> {
    Set::new(
        |p: Seq<char>|
            {
                ||| exists|i: int| 0 <= i < diff.added@.len() && #[trigger] diff.added@[i].path@ == p
                ||| exists|i: int|
                    0 <= i < diff.modified@.len() && #[trigger] diff.modified@[i].new.path@ == p
                ||| exists|i: int|
                    0 <= i < diff.removed@.len() && #[trigger] diff.removed@[i].path@ == p
            },
    )
}

/// The paths of the files that are new or modified.
pub open spec fn changed_files(diff: ShareDiff) -> Set<Seq<char>> {
    Set::new(
        |p: Seq<char>|
            {
                ||| exists|i: int|
                    0 <= i < diff.added@.len() && !(#[trigger] diff.added@[i]).is_dir
                        && diff.added@[i].path@ == p
                ||| exists|i: int|
                    0 <= i < diff.modified@.len() && !(#[trigger] diff.modified@[i]).new.is_dir
                        && diff.modified@[i].new.path@ == p
            },
    )
}

/// The paths of the entries that a diff speaks of.
fn touched_paths(diff: &ShareDiff) -> (r: PathSet)
    ensures
        r@ == touched(*diff),
{
    let mut r = PathSet::new();
    let mut i: usize = 0;
    while i < diff.added.len()
        invariant
            i <= diff.added@.len(),
            forall|p: Seq<char>| #[trigger]
                r@.contains(p) <==> exists|k: int|
                    0 <= k < i && #[trigger] diff.added@[k].path@ == p,
        decreases diff.added@.len() - i,
    {
        let ghost before = r@;
        r.insert(diff.added[i].path.clone());
        proof {
            assert forall|p: Seq<char>| #[trigger] r@.contains(p) <==> exists|k: int|
                0 <= k < i + 1 && #[trigger] diff.added@[k].path@ == p by {
                if before.contains(p) {
                    let k = choose|k: int| 0 <= k < i && #[trigger] diff.added@[k].path@ == p;
                    assert(0 <= k < i + 1);
                }
                if diff.added@[i as int].path@ == p {
                    assert(0 <= i < i + 1);
                }
            }
        }
        i += 1;
    }
    let ghost first = r@;
    let mut j: usize = 0;
    while j < diff.modified.len()
        invariant
            j <= diff.modified@.len(),
            forall|p: Seq<char>| #[trigger]
                r@.contains(p) <==> first.contains(p) || exists|k: int|
                    0 <= k < j && #[trigger] diff.modified@[k].new.path@ == p,
        decreases diff.modified@.len() - j,
    {
        let ghost before = r@;
        r.insert(diff.modified[j].new.path.clone());
        proof {
            assert forall|p: Seq<char>| #[trigger] r@.contains(p) <==> first.contains(p) || exists|
                k: int,
            |
                0 <= k < j + 1 && #[trigger] diff.modified@[k].new.path@ == p by {
                if before.contains(p) && !first.contains(p) {
                    let k = choose|k: int|
                        0 <= k < j && #[trigger] diff.modified@[k].new.path@ == p;
                    assert(0 <= k < j + 1);
                }
                if diff.modified@[j as int].new.path@ == p {
                    assert(0 <= j < j + 1);
                }
            }
        }
        j += 1;
    }
    let ghost second = r@;
    let mut m: usize = 0;
    while m < diff.removed.len()
        invariant
            m <= diff.removed@.len(),
            forall|p: Seq<char>| #[trigger]
                r@.contains(p) <==> second.contains(p) || exists|k: int|
                    0 <= k < m && #[trigger] diff.removed@[k].path@ == p,
        decreases diff.removed@.len() - m,
    {
        let ghost before = r@;
        r.insert(diff.removed[m].path.clone());
        proof {
            assert forall|p: Seq<char>| #[trigger] r@.contains(p) <==> second.contains(p) || exists|
                k: int,
            |
                0 <= k < m + 1 && #[trigger] diff.removed@[k].path@ == p by {
                if before.contains(p) && !second.contains(p) {
                    let k = choose|k: int| 0 <= k < m && #[trigger] diff.removed@[k].path@ == p;
                    assert(0 <= k < m + 1);
                }
                if diff.removed@[m as int].path@ == p {
                    assert(0 <= m < m + 1);
                }
            }
        }
        m += 1;
    }
    assert(r@ =~= touched(*diff));
    r
}

/// The paths of the files that are new or modified.
fn changed_file_paths(diff: &ShareDiff) -> (r: PathSet)
    ensures
        r@ == changed_files(*diff),
{
    let mut r = PathSet::new();
    let mut i: usize = 0;
    while i < diff.added.len()
        invariant
            i <= diff.added@.len(),
            forall|p: Seq<char>| #[trigger]
                r@.contains(p) <==> exists|k: int|
                    0 <= k < i && !(#[trigger] diff.added@[k]).is_dir && diff.added@[k].path@ == p,
        decreases diff.added@.len() - i,
    {
        let ghost before = r@;
        if !diff.added[i].is_dir {
            r.insert(diff.added[i].path.clone());
        }
        proof {
            assert forall|p: Seq<char>| #[trigger] r@.contains(p) <==> exists|k: int|
                0 <= k < i + 1 && !(#[trigger] diff.added@[k]).is_dir && diff.added@[k].path@
                    == p by {
                if before.contains(p) {
                    let k = choose|k: int|
                        0 <= k < i && !(#[trigger] diff.added@[k]).is_dir && diff.added@[k].path@
                            == p;
                    assert(0 <= k < i + 1);
                }
                if !diff.added@[i as int].is_dir && diff.added@[i as int].path@ == p {
                    assert(0 <= i < i + 1);
                }
            }
        }
        i += 1;
    }
    let ghost first = r@;
    let mut j: usize = 0;
    while j < diff.modified.len()
        invariant
            j <= diff.modified@.len(),
            forall|p: Seq<char>| #[trigger]
                r@.contains(p) <==> first.contains(p) || exists|k: int|
                    0 <= k < j && !(#[trigger] diff.modified@[k]).new.is_dir
                        && diff.modified@[k].new.path@ == p,
        decreases diff.modified@.len() - j,
    {
        let ghost before = r@;
        if !diff.modified[j].new.is_dir {
            r.insert(diff.modified[j].new.path.clone());
        }
        proof {
            assert forall|p: Seq<char>| #[trigger] r@.contains(p) <==> first.contains(p) || exists|
                k: int,
            |
                0 <= k < j + 1 && !(#[trigger] diff.modified@[k]).new.is_dir
                    && diff.modified@[k].new.path@ == p by {
                if before.contains(p) && !first.contains(p) {
                    let k = choose|k: int|
                        0 <= k < j && !(#[trigger] diff.modified@[k]).new.is_dir
                            && diff.modified@[k].new.path@ == p;
                    assert(0 <= k < j + 1);
                }
                if !diff.modified@[j as int].new.is_dir && diff.modified@[j as int].new.path@ == p {
                    assert(0 <= j < j + 1);
                }
            }
        }
        j += 1;
    }
    assert(r@ =~= changed_files(*diff));
    r
}

// ---------------------------------------------------------------------------
// Whole directories
// ---------------------------------------------------------------------------
/// Whether `p` is the path of a file of the index below the directory `dir`.
pub open spec fn is_file_below(
    index: Map<Seq<char>, ShareSnapshotItem>,
    dir: Seq<char>,
    p: Seq<char>,
) -> bool {
    &&& index.contains_key(p)
    &&& !index[p].is_dir
    &&& text::strip_end(dir, '/').push('/').is_prefix_of(p)
}

/// Whether there are files below `dir`, and all of them, however deep, are in `changed`.
pub open spec fn subtree_changed(
    index: Map<Seq<char>, ShareSnapshotItem>,
    dir: Seq<char>,
    changed: Set<Seq<char>>,
) -> bool {
    &&& exists|p: Seq<char>| is_file_below(index, dir, p)
    &&& forall|p: Seq<char>| is_file_below(index, dir, p) ==> changed.contains(p)
}

/// Whether there are files below `dir`, and all of them, however deep, are in `changed`.
pub fn dir_subtree_fully_changed(curr_index: &PathIndex, dir: &str, changed: &PathSet) -> (r: bool)
    ensures
        r == subtree_changed(curr_index@, dir@, changed@),
{
    let cs = chars_of(dir);
    let n: usize = run_end(&cs, '/');
    let mut prefix = string_between(&cs, 0, n);
    assert(prefix@ =~= cs@.take(n as int));
    prefix.push('/');
    let list = curr_index.paths();
    let ghost tl = text::texts(list@);
    let mut saw_file = false;
    let mut i: usize = 0;
    while i < list.len()
        invariant
            i <= list@.len(),
            tl == text::texts(list@),
            tl.to_set() == curr_index@.dom(),
            prefix@ == text::strip_end(dir@, '/').push('/'),
            saw_file == exists|k: int|
                0 <= k < i && is_file_below(curr_index@, dir@, #[trigger] tl[k]),
            forall|k: int|
                0 <= k < i && is_file_below(curr_index@, dir@, #[trigger] tl[k])
                    ==> changed@.contains(tl[k]),
        decreases list@.len() - i,
    {
        let path = list[i].as_str();
        let ghost before = saw_file;
        proof {
            assert(tl.contains(tl[i as int]));
            assert(tl.to_set().contains(tl[i as int]));
        }
        if starts_with(path, prefix.as_str()) {
            match curr_index.get(path) {
                Some(item) => {
                    if !item.is_dir {
                        assert(is_file_below(curr_index@, dir@, tl[i as int]));
                        saw_file = true;
                        if !changed.contains(path) {
                            return false;
                        }
                    }
                },
                None => {},
            }
        }
        proof {
            if before {
                let k = choose|k: int|
                    0 <= k < i && is_file_below(curr_index@, dir@, #[trigger] tl[k]);
                assert(0 <= k < i + 1);
            }
        }
        i += 1;
    }
    proof {
        assert forall|p: Seq<char>| is_file_below(curr_index@, dir@, p) implies changed@.contains(
            p,
        ) && saw_file by {
            assert(tl.to_set().contains(p));
            let k = choose|k: int| 0 <= k < tl.len() && tl[k] == p;
            assert(is_file_below(curr_index@, dir@, tl[k]));
        }
        if saw_file {
            let k = choose|k: int|
                0 <= k < i && is_file_below(curr_index@, dir@, #[trigger] tl[k]);
            assert(is_file_below(curr_index@, dir@, tl[k]));
        }
    }
    saw_file
}

/// The directory `k` steps above `p`.
pub open spec fn above(p: Seq<char>, k: nat) -> Seq<char>
    decreases k,
{
    if k == 0 {
        p
    } else {
        target_paths::netdisk_parent(above(p, (k - 1) as nat))
    }
}

/// Whether `d` is a directory above `p`, the root excepted.
pub open spec fn is_above(d: Seq<char>, p: Seq<char>) -> bool {
    d != seq!['/'] && exists|k: nat| k >= 1 && #[trigger] above(p, k) == d
}

/// Whether `d` is among the `k - 1` directories right above `p`.
spec fn is_just_above(d: Seq<char>, p: Seq<char>, k: nat) -> bool {
    exists|m: nat| 1 <= m < k && #[trigger] above(p, m) == d
}

/// A path in normal form is at most one character longer than what it was made from.
proof fn lemma_joined_len(s: Seq<char>)
    ensures
        paths::joined(paths::components(s)).len() <= s.len() + 1,
        s.len() > 0 && s.last() == '/' ==> paths::joined(paths::components(s)).len() <= s.len(),
    decreases s.len(),
{
    if s.len() > 0 {
        let t = s.drop_last();
        lemma_joined_len(t);
        paths::lemma_components_are_parts(t);
        let head = paths::components(t);
        let c = s.last();
        if c != '/' {
            if s.len() == 1 || s[s.len() - 2] == '/' {
                assert(head.push(seq![c]).drop_last() =~= head);
                if s.len() > 1 {
                    assert(t.last() == s[s.len() - 2]);
                } else {
                    assert(head =~= Seq::<Seq<char>>::empty());
                    assert(paths::joined(head).len() == 0);
                }
            } else {
                assert(t.last() == s[s.len() - 2]);
                let grown = head.drop_last().push(head.last().push(c));
                assert(grown.drop_last() =~= head.drop_last());
            }
        }
    } else {
        assert(paths::components(s) =~= Seq::<Seq<char>>::empty());
    }
}

proof fn lemma_trimmed_len(s: Seq<char>)
    ensures
        text::trimmed(s).len() <= s.len(),
{
    lemma_trim_start_len(s);
    lemma_trim_end_len(text::trim_start(s));
}

proof fn lemma_trim_start_len(s: Seq<char>)
    ensures
        text::trim_start(s).len() <= s.len(),
    decreases s.len(),
{
    if s.len() > 0 && text::is_space(s[0]) {
        lemma_trim_start_len(s.skip(1));
    }
}

proof fn lemma_trim_end_len(s: Seq<char>)
    ensures
        text::trim_end(s).len() <= s.len(),
    decreases s.len(),
{
    if s.len() > 0 && text::is_space(s.last()) {
        lemma_trim_end_len(s.drop_last());
    }
}

/// A parent directory other than the root is a shorter path.
proof fn lemma_parent_shorter(p: Seq<char>)
    requires
        target_paths::netdisk_parent(p) != seq!['/'],
    ensures
        target_paths::netdisk_parent(p).len() < p.len(),
{
    let t = paths::unified(text::trimmed(p));
    let parts = paths::components(t);
    lemma_trimmed_len(p);
    lemma_joined_len(t);
    paths::lemma_components_are_parts(t);
    assert(parts.len() >= 2);
    assert(paths::is_part(parts[parts.len() - 1]));
}

proof fn lemma_root_parent()
    ensures
        target_paths::netdisk_parent(seq!['/']) == seq!['/'],
{
    let s = seq!['/'];
    assert(text::trim_start(s) == s);
    assert(text::trim_end(s) == s);
    assert(paths::unified(s) =~= s);
    reveal_with_fuel(paths::components, 2);
    assert(paths::components(s) =~= Seq::<Seq<char>>::empty());
}

proof fn lemma_above_root(p: Seq<char>, k: nat, m: nat)
    requires
        above(p, k) == seq!['/'],
        k <= m,
    ensures
        above(p, m) == seq!['/'],
    decreases m,
{
    if k < m {
        lemma_above_root(p, k, (m - 1) as nat);
        lemma_root_parent();
    }
}

/// Whether the directory `d` is handed over as a whole although it did not change
/// itself: it stands above a changed file, the diff does not speak of it, and all files
/// below it changed.
pub open spec fn is_promoted(
    diff: ShareDiff,
    index: Map<Seq<char>, ShareSnapshotItem>,
    d: Seq<char>,
) -> bool {
    &&& exists|f: Seq<char>| #[trigger] changed_files(diff).contains(f) && is_above(d, f)
    &&& !touched(diff).contains(d)
    &&& index.contains_key(d)
    &&& index[d].is_dir
    &&& subtree_changed(index, d, changed_files(diff))
}

/// The items at the given paths.
pub open spec fn items_at(
    index: Map<Seq<char>, ShareSnapshotItem>,
    dirs: Seq<Seq<char>>,
) -> Seq<ShareSnapshotItem> {
    dirs.map_values(|d: Seq<char>| index[d])
}

/// `r` is the diff with the promoted directories among what is added, sorted by path.
pub open spec fn is_execution_diff(
    r: ShareDiff,
    count: nat,
    diff: ShareDiff,
    index: Map<Seq<char>, ShareSnapshotItem>,
) -> bool {
    &&& r.removed@ == diff.removed@
    &&& r.modified@ == diff.modified@
    &&& r.unchanged_count == diff.unchanged_count
    &&& exists|dirs: Seq<Seq<char>>|
        {
            &&& dirs.no_duplicates()
            &&& dirs.len() == count
            &&& forall|d: Seq<char>| #[trigger] dirs.contains(d) <==> is_promoted(diff, index, d)
            &&& #[trigger] sorting::is_stable_sort(
                r.added@,
                diff.added@ + items_at(index, dirs),
            )
        }
}

/// The diff for handing over whole directories, and the number of directories that were
/// put into it.
///
/// A directory that did not change itself is put in only when every file below it is new
/// or modified; otherwise its unchanged files would be copied once more.
pub fn execution_diff_with_directory_ancestors(diff: &ShareDiff, curr: &ShareSnapshot) -> (r: (
    ShareDiff,
    usize,
))
    ensures
        is_execution_diff(r.0, r.1 as nat, *diff, snapshot::indexed(curr.items@)),
{
    let index = curr.index_by_path();
    let ghost gi = index@;
    let mut seen = touched_paths(diff);
    let changed = changed_file_paths(diff);
    let files = changed.items();
    let ghost tf = text::texts(files@);
    let ghost old_paths = touched(*diff);
    let mut added = copy_items(&diff.added);
    let mut count: usize = 0;
    let ghost mut dirs: Seq<Seq<char>> = Seq::empty();
    let mut i: usize = 0;
    proof {
        assert(diff.added@ + items_at(gi, dirs) =~= diff.added@);
    }
    while i < files.len()
        invariant
            i <= files@.len(),
            tf == text::texts(files@),
            tf.to_set() == changed@,
            changed@ == changed_files(*diff),
            gi == index@,
            old_paths == touched(*diff),
            forall|d: Seq<char>| #[trigger]
                seen@.contains(d) <==> old_paths.contains(d) || exists|k: int|
                    0 <= k < i && is_above(d, #[trigger] tf[k]),
            dirs.no_duplicates(),
            dirs.len() == count,
            count <= added@.len(),
            forall|d: Seq<char>| #[trigger]
                dirs.contains(d) <==> seen@.contains(d) && !old_paths.contains(d)
                    && gi.contains_key(d) && gi[d].is_dir && subtree_changed(gi, d, changed@),
            added@ == diff.added@ + items_at(gi, dirs),
        decreases files@.len() - i,
    {
        let ghost f = tf[i as int];
        let mut current = parent_netdisk_dir(files[i].as_str());
        let ghost mut k: nat = 1;
        let ghost seen0 = seen@;
        proof {
            assert(above(f, 0) == f);
            reveal_strlit("/");
            assert("/"@ =~= seq!['/']);
        }
        while !same(current.as_str(), "/")
            invariant
                "/"@ == seq!['/'],
                i < files@.len(),
                tf == text::texts(files@),
                f == tf[i as int],
                changed@ == changed_files(*diff),
                gi == index@,
                k >= 1,
                current@ == above(f, k),
                forall|m: nat| 1 <= m < k ==> #[trigger] above(f, m) != seq!['/'],
                forall|d: Seq<char>| #[trigger]
                    seen@.contains(d) <==> seen0.contains(d) || is_just_above(d, f, k),
                dirs.no_duplicates(),
                dirs.len() == count,
                count <= added@.len(),
                forall|d: Seq<char>| #[trigger]
                    seen0.contains(d) || !old_paths.contains(d),
                forall|d: Seq<char>| #[trigger]
                    dirs.contains(d) <==> seen@.contains(d) && !old_paths.contains(d)
                        && gi.contains_key(d) && gi[d].is_dir && subtree_changed(gi, d, changed@),
                added@ == diff.added@ + items_at(gi, dirs),
            decreases current@.len(),
        {
            let ghost before = seen@;
            let ghost dirs0 = dirs;
            let fresh = seen.insert(current.clone());
            let mut promote = false;
            if fresh {
                match index.get(current.as_str()) {
                    Some(item) => {
                        if item.is_dir && dir_subtree_fully_changed(
                            &index,
                            current.as_str(),
                            &changed,
                        ) {
                            added.push(item.clone());
                            promote = true;
                        }
                    },
                    None => {},
                }
            }
            if promote {
                let total: usize = added.len();
                proof {
                    assert(count < total);
                    dirs = dirs.push(current@);
                    assert(added@ =~= diff.added@ + items_at(gi, dirs));
                    assert(!dirs0.contains(current@));
                    assert(dirs.no_duplicates()) by {
                        assert forall|a: int, b: int|
                            0 <= a < dirs.len() && 0 <= b < dirs.len() && a != b implies dirs[a]
                            != dirs[b] by {
                            if a == dirs0.len() {
                                assert(dirs0.contains(dirs[b]));
                            } else if b == dirs0.len() {
                                assert(dirs0.contains(dirs[a]));
                            }
                        }
                    }
                }
                count += 1;
            }
            proof {
                assert forall|d: Seq<char>| #[trigger]
                    seen@.contains(d) <==> seen0.contains(d) || is_just_above(d, f, k + 1) by {
                    if is_just_above(d, f, k) {
                        let m = choose|m: nat| 1 <= m < k && #[trigger] above(f, m) == d;
                        assert(1 <= m < k + 1 && above(f, m) == d);
                    }
                    if is_just_above(d, f, k + 1) {
                        let m = choose|m: nat| 1 <= m < k + 1 && #[trigger] above(f, m) == d;
                        if m < k {
                            assert(is_just_above(d, f, k));
                        }
                    }
                    if d == current@ {
                        assert(1 <= k < k + 1 && above(f, k) == d);
                    }
                }
                assert forall|d: Seq<char>| #[trigger]
                    dirs.contains(d) <==> seen@.contains(d) && !old_paths.contains(d)
                        && gi.contains_key(d) && gi[d].is_dir && subtree_changed(
                        gi,
                        d,
                        changed@,
                    ) by {
                    assert(seen@.contains(d) == (before.contains(d) || d == current@));
                    if promote {
                        crate::collections::lemma_push_to_set(dirs0, current@);
                        assert(dirs.contains(d) == dirs.to_set().contains(d));
                        assert(dirs0.contains(d) == dirs0.to_set().contains(d));
                        if d == current@ {
                            assert(!seen0.contains(d));
                        }
                    } else {
                        assert(dirs == dirs0);
                    }
                }
            }
            let parent = parent_netdisk_dir(current.as_str());
            proof {
                if parent@ != seq!['/'] {
                    lemma_parent_shorter(current@);
                } else {
                    assert(current@.len() > 1) by {
                        lemma_canonical_not_short(above(f, (k - 1) as nat));
                    }
                }
                assert(above(f, k + 1) == parent@);
            }
            current = parent;
            proof {
                k = k + 1;
            }
        }
        proof {
            assert forall|d: Seq<char>| #[trigger]
                seen@.contains(d) <==> old_paths.contains(d) || exists|j: int|
                    0 <= j < i + 1 && is_above(d, #[trigger] tf[j]) by {
                if is_just_above(d, f, k) {
                    let m = choose|m: nat| 1 <= m < k && #[trigger] above(f, m) == d;
                    assert(is_above(d, tf[i as int]));
                }
                if is_above(d, f) {
                    let m = choose|m: nat| m >= 1 && #[trigger] above(f, m) == d;
                    if m >= k {
                        lemma_above_root(f, k, m);
                    }
                    assert(is_just_above(d, f, k));
                }
                if exists|j: int| 0 <= j < i && is_above(d, #[trigger] tf[j]) {
                    let j = choose|j: int| 0 <= j < i && is_above(d, #[trigger] tf[j]);
                    assert(0 <= j < i + 1);
                }
                if exists|j: int| 0 <= j < i + 1 && is_above(d, #[trigger] tf[j]) {
                    let j = choose|j: int| 0 <= j < i + 1 && is_above(d, #[trigger] tf[j]);
                    if j < i {
                        assert(0 <= j < i && is_above(d, tf[j]));
                    }
                }
            }
        }
        i += 1;
    }
    proof {
        assert forall|d: Seq<char>| #[trigger] dirs.contains(d) <==> is_promoted(*diff, gi, d) by {
            if exists|j: int| 0 <= j < i && is_above(d, #[trigger] tf[j]) {
                let j = choose|j: int| 0 <= j < i && is_above(d, #[trigger] tf[j]);
                assert(tf.contains(tf[j]));
                assert(changed_files(*diff).contains(tf[j]));
            }
            if exists|f: Seq<char>| #[trigger] changed_files(*diff).contains(f) && is_above(d, f) {
                let f = choose|f: Seq<char>| #[trigger]
                    changed_files(*diff).contains(f) && is_above(d, f);
                assert(tf.to_set().contains(f));
                let j = choose|j: int| 0 <= j < tf.len() && tf[j] == f;
                assert(is_above(d, tf[j]));
            }
        }
    }
    let sorted = sort_stable(&added);
    let r = ShareDiff {
        added: sorted,
        removed: copy_items(&diff.removed),
        modified: copy_modified(&diff.modified),
        unchanged_count: diff.unchanged_count,
    };
    proof {
        assert(sorting::is_stable_sort(
            r.added@,
            diff.added@ + items_at(gi, dirs),
        ));
    }
    (r, count)
}

/// A parent directory other than the root has more than one character.
proof fn lemma_canonical_not_short(p: Seq<char>)
    requires
        target_paths::netdisk_parent(p) != seq!['/'],
    ensures
        target_paths::netdisk_parent(p).len() > 1,
{
    let parts = paths::parts_of(p);
    paths::lemma_components_are_parts(paths::unified(text::trimmed(p)));
    let up = paths::parent_parts(parts);
    assert forall|k: int| 0 <= k < up.len() implies paths::is_part(#[trigger] up[k]) by {
        assert(paths::is_part(parts[k]));
    }
    paths::lemma_joined_shape(up);
}

/// What is put into the diff beyond what was in it is a directory all of whose files
/// changed: no unchanged file is copied again on its account. Nothing that was in the
/// diff is lost.
pub proof fn law_only_fully_changed_dirs_are_promoted(
    r: ShareDiff,
    count: nat,
    diff: ShareDiff,
    items: Seq<ShareSnapshotItem>,
)
    requires
        is_execution_diff(r, count, diff, snapshot::indexed(items)),
    ensures
        forall|x: ShareSnapshotItem| diff.added@.contains(x) ==> r.added@.contains(x),
        forall|x: ShareSnapshotItem|
            r.added@.contains(x) && !diff.added@.contains(x) ==> {
                &&& x.is_dir
                &&& subtree_changed(snapshot::indexed(items), x.path@, changed_files(diff))
            },
{
    let index = snapshot::indexed(items);
    let dirs = choose|dirs: Seq<Seq<char>>|
        {
            &&& dirs.no_duplicates()
            &&& dirs.len() == count
            &&& forall|d: Seq<char>| #[trigger] dirs.contains(d) <==> is_promoted(diff, index, d)
            &&& #[trigger] sorting::is_stable_sort(r.added@, diff.added@ + items_at(index, dirs))
        };
    let all = diff.added@ + items_at(index, dirs);
    sorting::lemma_stable_sort_elements(r.added@, all);
    assert forall|x: ShareSnapshotItem| diff.added@.contains(x) implies r.added@.contains(x) by {
        let k = choose|k: int| 0 <= k < diff.added@.len() && diff.added@[k] == x;
        assert(all[k] == x);
        assert(all.contains(x));
    }
    assert forall|x: ShareSnapshotItem|
        r.added@.contains(x) && !diff.added@.contains(x) implies x.is_dir && subtree_changed(
        index,
        x.path@,
        changed_files(diff),
    ) by {
        assert(all.contains(x));
        let k = choose|k: int| 0 <= k < all.len() && all[k] == x;
        if k < diff.added@.len() {
            assert(diff.added@[k] == x);
        } else {
            let d = dirs[k - diff.added@.len()];
            assert(items_at(index, dirs)[k - diff.added@.len()] == x);
            assert(dirs.contains(d));
            assert(is_promoted(diff, index, d));
            snapshot::law_index_finds_every_path(items, d);
        }
    }
}

/// Every directory that is handed over as a whole is among what is added.
pub proof fn law_every_fully_changed_dir_is_promoted(
    r: ShareDiff,
    count: nat,
    diff: ShareDiff,
    items: Seq<ShareSnapshotItem>,
    d: Seq<char>,
)
    requires
        is_execution_diff(r, count, diff, snapshot::indexed(items)),
        is_promoted(diff, snapshot::indexed(items), d),
    ensures
        r.added@.contains(snapshot::indexed(items)[d]),
{
    let index = snapshot::indexed(items);
    let dirs = choose|dirs: Seq<Seq<char>>|
        {
            &&& dirs.no_duplicates()
            &&& dirs.len() == count
            &&& forall|d: Seq<char>| #[trigger] dirs.contains(d) <==> is_promoted(diff, index, d)
            &&& #[trigger] sorting::is_stable_sort(r.added@, diff.added@ + items_at(index, dirs))
        };
    let all = diff.added@ + items_at(index, dirs);
    sorting::lemma_stable_sort_elements(r.added@, all);
    assert(dirs.contains(d));
    let k = choose|k: int| 0 <= k < dirs.len() && dirs[k] == d;
    assert(all[diff.added@.len() + k] == index[d]);
    assert(all.contains(index[d]));
}

/// The diff holds an added or modified file at `p`.
pub open spec fn changes_file(diff: ShareDiff, p: Seq<char>) -> bool {
    ||| exists|i: int|
        0 <= i < diff.added@.len() && !(#[trigger] diff.added@[i]).is_dir && diff.added@[i].path@
            == p
    ||| exists|i: int|
        0 <= i < diff.modified@.len() && !(#[trigger] diff.modified@[i]).new.is_dir
            && diff.modified@[i].new.path@ == p
}

/// The diff speaks of the entry at `p`.
pub open spec fn speaks_of(diff: ShareDiff, p: Seq<char>) -> bool {
    ||| exists|i: int| 0 <= i < diff.added@.len() && (#[trigger] diff.added@[i]).path@ == p
    ||| exists|i: int| 0 <= i < diff.modified@.len() && (#[trigger] diff.modified@[i]).new.path@ == p
    ||| exists|i: int| 0 <= i < diff.removed@.len() && (#[trigger] diff.removed@[i]).path@ == p
}

/// No later item has the path of item `j`.
pub open spec fn last_of_path(items: Seq<ShareSnapshotItem>, j: int) -> bool {
    forall|m: int| j < m < items.len() ==> (#[trigger] items[m]).path@ != items[j].path@
}

proof fn lemma_indexed_last(items: Seq<ShareSnapshotItem>, j: int)
    requires
        0 <= j < items.len(),
        last_of_path(items, j),
    ensures
        snapshot::indexed(items).contains_key(items[j].path@),
        snapshot::indexed(items)[items[j].path@] == items[j],
    decreases items.len(),
{
    if j < items.len() - 1 {
        let front = items.drop_last();
        assert(items[items.len() - 1].path@ != items[j].path@);
        assert(last_of_path(front, j)) by {
            assert forall|m: int| j < m < front.len() implies (#[trigger] front[m]).path@
                != front[j].path@ by {
                assert(items[m].path@ != items[j].path@);
            }
        }
        lemma_indexed_last(front, j);
    }
}

proof fn lemma_last_in_index(items: Seq<ShareSnapshotItem>, p: Seq<char>) -> (j: int)
    requires
        snapshot::indexed(items).contains_key(p),
    ensures
        0 <= j < items.len(),
        items[j].path@ == p,
        snapshot::indexed(items)[p] == items[j],
        last_of_path(items, j),
    decreases items.len(),
{
    if items.last().path@ == p {
        items.len() - 1
    } else {
        let front = items.drop_last();
        let j = lemma_last_in_index(front, p);
        assert forall|m: int| j < m < items.len() implies (#[trigger] items[m]).path@
            != items[j].path@ by {
            if m < front.len() {
                assert(front[m].path@ != front[j].path@);
            }
        }
        j
    }
}

/// A directory that the diff did not hold is handed over only where each file below it, at
/// whatever depth, is an added or modified file of the diff. Where several items have one path,
/// the last one counts.
pub proof fn law_no_unchanged_file_is_below_a_promoted_dir(
    r: ShareDiff,
    count: nat,
    diff: ShareDiff,
    items: Seq<ShareSnapshotItem>,
    x: ShareSnapshotItem,
    j: int,
)
    requires
        is_execution_diff(r, count, diff, snapshot::indexed(items)),
        r.added@.contains(x),
        !diff.added@.contains(x),
        0 <= j < items.len(),
        last_of_path(items, j),
        !items[j].is_dir,
        x.path@.push('/').is_prefix_of(items[j].path@),
    ensures
        changes_file(diff, items[j].path@),
{
    let index = snapshot::indexed(items);
    let p = items[j].path@;
    law_only_fully_changed_dirs_are_promoted(r, count, diff, items);
    lemma_indexed_last(items, j);
    let n = text::lemma_strip_end(x.path@, '/');
    let s = text::strip_end(x.path@, '/').push('/');
    assert(x.path@.push('/')[n as int] == '/');
    assert(s =~= x.path@.push('/').take(n as int + 1));
    assert(p.take(x.path@.len() as int + 1) =~= x.path@.push('/'));
    assert(p.take(n as int + 1) =~= s) by {
        assert(p.take(x.path@.len() as int + 1).take(n as int + 1) =~= p.take(n as int + 1));
    }
    assert(is_file_below(index, x.path@, p));
    assert(changed_files(diff).contains(p));
    lemma_changes_file(diff, p);
}

proof fn lemma_changes_file(diff: ShareDiff, p: Seq<char>)
    ensures
        changed_files(diff).contains(p) <==> changes_file(diff, p),
        touched(diff).contains(p) <==> speaks_of(diff, p),
{
    if changes_file(diff, p) {
        if exists|i: int|
            0 <= i < diff.added@.len() && !(#[trigger] diff.added@[i]).is_dir
                && diff.added@[i].path@ == p {
        } else {
            let i = choose|i: int|
                0 <= i < diff.modified@.len() && !(#[trigger] diff.modified@[i]).new.is_dir
                    && diff.modified@[i].new.path@ == p;
            assert(!diff.modified@[i].new.is_dir);
        }
    }
    if speaks_of(diff, p) {
        if exists|i: int| 0 <= i < diff.added@.len() && (#[trigger] diff.added@[i]).path@ == p {
            let i = choose|i: int|
                0 <= i < diff.added@.len() && (#[trigger] diff.added@[i]).path@ == p;
            assert(diff.added@[i].path@ == p);
        } else if exists|i: int|
            0 <= i < diff.modified@.len() && (#[trigger] diff.modified@[i]).new.path@ == p {
            let i = choose|i: int|
                0 <= i < diff.modified@.len() && (#[trigger] diff.modified@[i]).new.path@ == p;
            assert(diff.modified@[i].new.path@ == p);
        } else {
            let i = choose|i: int|
                0 <= i < diff.removed@.len() && (#[trigger] diff.removed@[i]).path@ == p;
            assert(diff.removed@[i].path@ == p);
        }
    }
    if touched(diff).contains(p) {
        if exists|i: int| 0 <= i < diff.added@.len() && #[trigger] diff.added@[i].path@ == p {
            let i = choose|i: int|
                0 <= i < diff.added@.len() && #[trigger] diff.added@[i].path@ == p;
            assert(diff.added@[i].path@ == p);
        } else if exists|i: int|
            0 <= i < diff.modified@.len() && #[trigger] diff.modified@[i].new.path@ == p {
            let i = choose|i: int|
                0 <= i < diff.modified@.len() && #[trigger] diff.modified@[i].new.path@ == p;
            assert(diff.modified@[i].new.path@ == p);
        } else {
            let i = choose|i: int|
                0 <= i < diff.removed@.len() && #[trigger] diff.removed@[i].path@ == p;
            assert(diff.removed@[i].path@ == p);
        }
    }
}

/// What stands before a slash of a plain path is above it.
proof fn lemma_beginning_is_above(p: Seq<char>, g: Seq<char>, m: nat, d: Seq<char>)
    requires
        g == above(p, m),
        paths::is_plain(g),
        d.len() > 0,
        d.push('/').is_prefix_of(g),
    ensures
        is_above(d, p),
    decreases g.len(),
{
    text::lemma_last_before(g, '/', g.len() as int);
    assert(g[0] == '/');
    let i = text::last_before(g, '/', g.len() as int)->Some_0;
    let name = g.skip(i + 1);
    let dir = g.take(i);
    let n = d.len() as int;
    assert(g.take(n + 1) =~= d.push('/'));
    assert(g.take(n + 1)[n] == '/');
    assert(g[n] == '/');
    assert(n <= i) by {
        assert(g[g.len() - 1] == g.last());
    }
    assert(!name.contains('/')) by {
        if name.contains('/') {
            let k = choose|k: int| 0 <= k < name.len() && name[k] == '/';
            assert(g[i + 1 + k] == '/');
        }
    }
    assert(dir.push('/') + name =~= g);
    paths::lemma_plain_parent(dir, name);
    assert(above(p, m + 1) == dir);
    paths::lemma_plain_beginning(g, i);
    if n == i {
        assert(d =~= dir) by {
            assert(g.take(n + 1).take(n) =~= g.take(n));
        }
        assert(d != seq!['/']);
        assert(above(p, m + 1) == d);
    } else {
        assert(dir.take(n + 1) =~= d.push('/'));
        lemma_beginning_is_above(p, dir, m + 1, d);
    }
}

/// A directory that the diff does not speak of is handed over wherever a file is below it and
/// each file below it is an added or modified one. Where several items have one path, the last
/// one counts.
pub proof fn law_dir_of_changed_files_is_promoted(
    r: ShareDiff,
    count: nat,
    diff: ShareDiff,
    items: Seq<ShareSnapshotItem>,
    d: int,
    f: int,
)
    requires
        is_execution_diff(r, count, diff, snapshot::indexed(items)),
        0 <= d < items.len(),
        last_of_path(items, d),
        items[d].is_dir,
        items[d].path@.len() > 0,
        !speaks_of(diff, items[d].path@),
        0 <= f < items.len(),
        last_of_path(items, f),
        !items[f].is_dir,
        paths::is_plain(items[f].path@),
        items[d].path@.push('/').is_prefix_of(items[f].path@),
        forall|j: int|
            0 <= j < items.len() && last_of_path(items, j) && !(#[trigger] items[j]).is_dir
                && items[d].path@.push('/').is_prefix_of(items[j].path@) ==> changes_file(
                diff,
                items[j].path@,
            ),
    ensures
        r.added@.contains(items[d]),
{
    let index = snapshot::indexed(items);
    let dp = items[d].path@;
    let fp = items[f].path@;
    lemma_indexed_last(items, d);
    lemma_indexed_last(items, f);
    lemma_changes_file(diff, dp);
    lemma_changes_file(diff, fp);
    assert(above(fp, 0) == fp);
    lemma_beginning_is_above(fp, fp, 0, dp);
    assert(fp.take(dp.len() as int + 1) =~= dp.push('/'));
    assert(fp.take(dp.len() as int + 1)[dp.len() as int] == '/');
    paths::lemma_plain_beginning(fp, dp.len() as int);
    assert(fp.take(dp.len() as int) =~= dp) by {
        assert(fp.take(dp.len() as int + 1).take(dp.len() as int) =~= fp.take(dp.len() as int));
    }
    assert(text::strip_end(dp, '/') == dp);
    assert(is_file_below(index, dp, fp));
    assert forall|p: Seq<char>| is_file_below(index, dp, p) implies changed_files(diff).contains(
        p,
    ) by {
        let j = lemma_last_in_index(items, p);
        assert(changes_file(diff, items[j].path@));
        lemma_changes_file(diff, p);
    }
    assert(is_promoted(diff, index, dp));
    law_every_fully_changed_dir_is_promoted(r, count, diff, items, dp);
}

/// Handing over whole directories adds items of the snapshot that are directories and that the
/// diff did not speak of, as many as are counted, and changes nothing else.
pub proof fn law_promotion_only_adds_dirs(
    r: ShareDiff,
    count: nat,
    diff: ShareDiff,
    items: Seq<ShareSnapshotItem>,
)
    requires
        is_execution_diff(r, count, diff, snapshot::indexed(items)),
    ensures
        r.removed@ == diff.removed@,
        r.modified@ == diff.modified@,
        r.unchanged_count == diff.unchanged_count,
        r.added@.len() == diff.added@.len() + count,
        forall|x: ShareSnapshotItem|
            diff.added@.contains(x) ==> #[trigger] r.added@.contains(x),
        forall|x: ShareSnapshotItem| #[trigger]
            r.added@.contains(x) && !diff.added@.contains(x) ==> {
                &&& x.is_dir
                &&& items.contains(x)
                &&& !speaks_of(diff, x.path@)
            },
{
    law_only_fully_changed_dirs_are_promoted(r, count, diff, items);
    let index = snapshot::indexed(items);
    let dirs = choose|dirs: Seq<Seq<char>>|
        {
            &&& dirs.no_duplicates()
            &&& dirs.len() == count
            &&& forall|d: Seq<char>| #[trigger] dirs.contains(d) <==> is_promoted(diff, index, d)
            &&& #[trigger] sorting::is_stable_sort(r.added@, diff.added@ + items_at(index, dirs))
        };
    let all = diff.added@ + items_at(index, dirs);
    sorting::lemma_stable_sort_elements(r.added@, all);
    assert forall|x: ShareSnapshotItem| #[trigger]
        r.added@.contains(x) && !diff.added@.contains(x) implies items.contains(x) && !speaks_of(
        diff,
        x.path@,
    ) by {
        assert(all.contains(x));
        let k = choose|k: int| 0 <= k < all.len() && all[k] == x;
        if k < diff.added@.len() {
            assert(diff.added@[k] == x);
        } else {
            let d = dirs[k - diff.added@.len()];
            assert(items_at(index, dirs)[k - diff.added@.len()] == x);
            assert(dirs.contains(d));
            snapshot::law_index_finds_every_path(items, d);
            lemma_changes_file(diff, d);
        }
    }
}

// ---------------------------------------------------------------------------
// Local targets
// ---------------------------------------------------------------------------
/// A local directory that a share is synchronised to.
#[derive(Debug)]
pub struct LocalTarget {
    pub local_path: String,
}

/// A directory of the disk that a share is synchronised to.
#[derive(Debug)]
pub struct NetdiskTarget {
    pub remote_path: String,
}

/// A place that a share is synchronised to.
#[derive(Debug)]
pub enum SyncTarget {
    Local(LocalTarget),
    Netdisk(NetdiskTarget),
}

/// The local directories among the targets, in their order.
pub open spec fn local_dirs(targets: Seq<SyncTarget>) -> Seq<Seq<char>>
    decreases targets.len(),
{
    if targets.len() == 0 {
        Seq::empty()
    } else {
        match targets.last() {
            SyncTarget::Local(t) => local_dirs(targets.drop_last()).push(t.local_path@),
            SyncTarget::Netdisk(_) => local_dirs(targets.drop_last()),
        }
    }
}

/// The local directories among the targets, in their order.
pub fn local_roots(targets: &Vec<SyncTarget>) -> (r: Vec<String>)
    ensures
        text::texts(r@) == local_dirs(targets@),
{
    let mut r: Vec<String> = Vec::new();
    let mut i: usize = 0;
    assert(text::texts(r@) =~= local_dirs(targets@.take(0)));
    while i < targets.len()
        invariant
            i <= targets@.len(),
            text::texts(r@) == local_dirs(targets@.take(i as int)),
        decreases targets@.len() - i,
    {
        let ghost before = text::texts(r@);
        match &targets[i] {
            SyncTarget::Local(t) => {
                r.push(t.local_path.clone());
                assert(text::texts(r@) =~= before.push(t.local_path@));
            },
            SyncTarget::Netdisk(_) => {},
        }
        i += 1;
        proof {
            assert(targets@.take(i as int).drop_last() =~= targets@.take(i - 1));
            assert(targets@.take(i as int).last() == targets@[i - 1]);
        }
    }
    assert(targets@.take(i as int) =~= targets@);
    r
}

/// Whether a file has to be fetched again: in one of the local directories it is missing,
/// is no file, or has another size. `sizes` holds the size of the file in each of them.
pub open spec fn needs_repair(sizes: Seq<Option<u64>>, size: u64) -> bool {
    exists|k: int| 0 <= k < sizes.len() && #[trigger] sizes[k] != Some(size)
}

/// The repairs found so far.
#[verifier::ext_equal]
pub struct RepairModel {
    pub modified: Seq<ShareModifiedItem>,
    /// The paths that something is done about.
    pub acted: Set<Seq<char>>,
    pub unchanged: nat,
}

/// The item that a repaired one replaces: the one at its path in the snapshot before,
/// else itself.
pub open spec fn replaced_item(
    prev: Map<Seq<char>, ShareSnapshotItem>,
    item: ShareSnapshotItem,
) -> ShareSnapshotItem {
    if prev.contains_key(item.path@) {
        prev[item.path@]
    } else {
        item
    }
}

/// The repairs among the first `n` items. A file whose path is unsafe ends the search.
pub open spec fn repairs(
    items: Seq<ShareSnapshotItem>,
    on_disk: Seq<Seq<Option<u64>>>,
    prev: Map<Seq<char>, ShareSnapshotItem>,
    start: RepairModel,
    n: int,
) -> Result<RepairModel, ErrorView>
    decreases n,
{
    if n <= 0 {
        Ok(start)
    } else {
        let item = items[n - 1];
        match repairs(items, on_disk, prev, start, n - 1) {
            Err(e) => Err(e),
            Ok(st) => if item.is_dir || st.acted.contains(item.path@) {
                Ok(st)
            } else {
                match target_paths::local_place(item.path@) {
                    Err(e) => Err(e),
                    Ok(_) => if !needs_repair(on_disk[n - 1], item.size) {
                        Ok(st)
                    } else {
                        Ok(
                            RepairModel {
                                modified: st.modified.push(
                                    ShareModifiedItem {
                                        old: replaced_item(prev, item),
                                        new: item,
                                    },
                                ),
                                acted: st.acted.insert(item.path@),
                                unchanged: if st.unchanged > 0 {
                                    (st.unchanged - 1) as nat
                                } else {
                                    0
                                },
                            },
                        )
                    },
                }
            },
        }
    }
}

/// What several lists hold.
pub open spec fn size_lists(v: Seq<Vec<Option<u64>>>) -> Seq<Seq<Option<u64>>> {
    v.map_values(|x: Vec<Option<u64>>| x@)
}

/// What the index of the snapshot before holds; nothing where there was none.
pub open spec fn previous_index(prev: Option<&ShareSnapshot>) -> Map<Seq<char>, ShareSnapshotItem> {
    match prev {
        Some(s) => snapshot::indexed(s.items@),
        None => Map::empty(),
    }
}

fn is_damaged(sizes: &Vec<Option<u64>>, size: u64) -> (r: bool)
    ensures
        r == needs_repair(sizes@, size),
{
    let mut k: usize = 0;
    while k < sizes.len()
        invariant
            k <= sizes@.len(),
            forall|j: int| 0 <= j < k ==> #[trigger] sizes@[j] == Some(size),
        decreases sizes@.len() - k,
    {
        let good = match sizes[k] {
            Some(s) => s == size,
            None => false,
        };
        if !good {
            return true;
        }
        k += 1;
    }
    false
}

/// `r` is the diff with every unchanged file put in as modified that is missing or damaged in one
/// of the local directories, or the error of the first file whose path is unsafe. Without a local
/// directory the diff stays as it is.
pub open spec fn is_augmented(
    r: Result<ShareDiff, ShareSyncError>,
    targets: Seq<SyncTarget>,
    prev: Option<&ShareSnapshot>,
    curr: ShareSnapshot,
    diff: ShareDiff,
    on_disk: Seq<Vec<Option<u64>>>,
) -> bool {
    let found = repairs(
        curr.items@,
        size_lists(on_disk),
        previous_index(prev),
        (RepairModel {
            modified: diff.modified@,
            acted: touched(diff),
            unchanged: diff.unchanged_count as nat,
        }),
        curr.items@.len() as int,
    );
    if local_dirs(targets).len() == 0 {
        r == Ok::<ShareDiff, ShareSyncError>(diff)
    } else {
        match (r, found) {
            (Ok(d), Ok(st)) => {
                &&& d.added == diff.added
                &&& d.removed == diff.removed
                &&& d.unchanged_count == st.unchanged
                &&& if st.modified.len() > diff.modified@.len() {
                    sorting::is_stable_sort(d.modified@, st.modified)
                } else {
                    d.modified@ == diff.modified@
                }
            },
            (Err(e), Err(v)) => e@ == v,
            _ => false,
        }
    }
}

/// Puts into a diff, as modified, every unchanged file that is missing or damaged in one
/// of the local directories. `on_disk` holds, for each item of the snapshot, the size of
/// its file in each local directory, none where there is no such file.
///
/// Without a local directory the diff stays as it is. A file whose path is unsafe is an
/// error.
pub fn augment_diff_with_local_target_state(
    targets: &Vec<SyncTarget>,
    prev: Option<&ShareSnapshot>,
    curr: &ShareSnapshot,
    diff: ShareDiff,
    on_disk: &Vec<Vec<Option<u64>>>,
) -> (r: Result<ShareDiff, ShareSyncError>)
    requires
        on_disk@.len() == curr.items@.len(),
    ensures
        is_augmented(r, targets@, prev, *curr, diff, on_disk@),
{
    let roots = local_roots(targets);
    proof {
        assert(text::texts(roots@).len() == roots@.len());
    }
    if roots.len() == 0 {
        return Ok(diff);
    }
    let prev_index = match prev {
        Some(s) => s.index_by_path(),
        None => {
            let none: Vec<ShareSnapshotItem> = Vec::new();
            PathIndex::of(&none)
        },
    };
    let ghost gp = previous_index(prev);
    assert(prev_index@ =~= gp);
    let mut acted = touched_paths(&diff);
    let mut modified = copy_modified(&diff.modified);
    let mut unchanged: usize = diff.unchanged_count;
    let ghost start = RepairModel {
        modified: diff.modified@,
        acted: touched(diff),
        unchanged: diff.unchanged_count as nat,
    };
    let ghost sizes = size_lists(on_disk@);
    let ghost items = curr.items@;
    let mut repaired = false;
    let mut i: usize = 0;
    while i < curr.items.len()
        invariant
            i <= curr.items@.len() == on_disk@.len(),
            items == curr.items@,
            sizes == size_lists(on_disk@),
            gp == prev_index@,
            gp == previous_index(prev),
            repaired == (modified@.len() > start.modified.len()),
            modified@.len() >= start.modified.len(),
            !repaired ==> modified@ == start.modified,
            repairs(items, sizes, gp, start, i as int) == Ok::<RepairModel, ErrorView>(
                (RepairModel {
                    modified: modified@,
                    acted: acted@,
                    unchanged: unchanged as nat,
                }),
            ),
            start == (RepairModel {
                modified: diff.modified@,
                acted: touched(diff),
                unchanged: diff.unchanged_count as nat,
            }),
            local_dirs(targets@).len() > 0,
        decreases curr.items@.len() - i,
    {
        let item = &curr.items[i];
        assert(sizes[i as int] == on_disk@[i as int]@);
        if !item.is_dir && !acted.contains(item.path.as_str()) {
            match safe_relative_download_path(item.path.as_str()) {
                Err(e) => {
                    proof {
                        lemma_repairs_error(items, sizes, gp, start, i + 1, items.len() as int);
                    }
                    return Err(e);
                },
                Ok(_) => {},
            }
            if is_damaged(&on_disk[i], item.size) {
                let old = match prev_index.get(item.path.as_str()) {
                    Some(old) => old.clone(),
                    None => item.clone(),
                };
                modified.push(ShareModifiedItem { old, new: item.clone() });
                acted.insert(item.path.clone());
                unchanged = unchanged.saturating_sub(1);
                repaired = true;
            }
        }
        i += 1;
    }
    let modified = if repaired {
        sort_stable(&modified)
    } else {
        modified
    };
    Ok(
        ShareDiff {
            added: diff.added,
            removed: diff.removed,
            modified,
            unchanged_count: unchanged,
        },
    )
}

/// What a search for repairs has found beyond what it began with.
proof fn lemma_repairs_found(
    items: Seq<ShareSnapshotItem>,
    on_disk: Seq<Seq<Option<u64>>>,
    prev: Map<Seq<char>, ShareSnapshotItem>,
    start: RepairModel,
    n: int,
)
    requires
        0 <= n <= items.len(),
        repairs(items, on_disk, prev, start, n) is Ok,
    ensures
        ({
            let st = repairs(items, on_disk, prev, start, n)->Ok_0;
            let b = start.modified.len() as int;
            &&& b <= st.modified.len()
            &&& st.modified.take(b) == start.modified
            &&& st.unchanged == if start.unchanged >= st.modified.len() - b {
                start.unchanged - (st.modified.len() - b)
            } else {
                0
            }
            &&& forall|p: Seq<char>| #[trigger]
                st.acted.contains(p) <==> start.acted.contains(p) || exists|k: int|
                    b <= k < st.modified.len() && (#[trigger] st.modified[k]).new.path@ == p
            &&& forall|k: int|
                b <= k < st.modified.len() ==> found_at(
                    items,
                    on_disk,
                    prev,
                    start.acted,
                    #[trigger] st.modified[k],
                    n,
                )
            &&& forall|i: int|
                0 <= i < n && !(#[trigger] items[i]).is_dir && lacks(on_disk[i], items[i].size)
                    ==> st.acted.contains(items[i].path@)
        }),
    decreases n,
{
    let b = start.modified.len() as int;
    if n <= 0 {
        assert(start.modified.take(b) =~= start.modified);
    } else {
        lemma_repairs_found(items, on_disk, prev, start, n - 1);
        let last = repairs(items, on_disk, prev, start, n - 1)->Ok_0;
        let st = repairs(items, on_disk, prev, start, n)->Ok_0;
        let item = items[n - 1];
        assert(needs_repair(on_disk[n - 1], item.size) <==> lacks(on_disk[n - 1], item.size));
        assert forall|k: int| b <= k < st.modified.len() implies found_at(
            items,
            on_disk,
            prev,
            start.acted,
            #[trigger] st.modified[k],
            n,
        ) by {
            if k < last.modified.len() {
                assert(found_at(items, on_disk, prev, start.acted, last.modified[k], n - 1));
                let i = choose|i: int|
                    0 <= i < n - 1 && repairs_item(
                        items,
                        on_disk,
                        prev,
                        start.acted,
                        last.modified[k],
                        i,
                    );
                assert(repairs_item(items, on_disk, prev, start.acted, st.modified[k], i));
            } else {
                assert(repairs_item(items, on_disk, prev, start.acted, st.modified[k], n - 1));
            }
        }
        if st.modified.len() > last.modified.len() {
            assert(st.modified.take(b) =~= last.modified.take(b));
            assert forall|p: Seq<char>| #[trigger]
                st.acted.contains(p) <==> start.acted.contains(p) || exists|k: int|
                    b <= k < st.modified.len() && (#[trigger] st.modified[k]).new.path@ == p by {
                if last.acted.contains(p) && !start.acted.contains(p) {
                    let k = choose|k: int|
                        b <= k < last.modified.len() && (
                        #[trigger] last.modified[k]).new.path@ == p;
                    assert(st.modified[k].new.path@ == p);
                }
                if p == item.path@ {
                    assert(st.modified[last.modified.len() as int].new.path@ == p);
                }
                if exists|k: int|
                    b <= k < st.modified.len() && (#[trigger] st.modified[k]).new.path@ == p {
                    let k = choose|k: int|
                        b <= k < st.modified.len() && (#[trigger] st.modified[k]).new.path@ == p;
                    if k < last.modified.len() {
                        assert(last.modified[k].new.path@ == p);
                    }
                }
            }
        }
    }
}

/// In one of the local directories there is no file of this size.
pub open spec fn lacks(sizes: Seq<Option<u64>>, size: u64) -> bool {
    exists|k: int|
        0 <= k < sizes.len() && match #[trigger] sizes[k] {
            Some(n) => n < size || n > size,
            None => true,
        }
}

spec fn repairs_item(
    items: Seq<ShareSnapshotItem>,
    on_disk: Seq<Seq<Option<u64>>>,
    prev: Map<Seq<char>, ShareSnapshotItem>,
    acted: Set<Seq<char>>,
    m: ShareModifiedItem,
    i: int,
) -> bool {
    &&& m.new == items[i]
    &&& !items[i].is_dir
    &&& lacks(on_disk[i], items[i].size)
    &&& !acted.contains(items[i].path@)
    &&& m.old == if prev.contains_key(items[i].path@) {
        prev[items[i].path@]
    } else {
        items[i]
    }
}

spec fn found_at(
    items: Seq<ShareSnapshotItem>,
    on_disk: Seq<Seq<Option<u64>>>,
    prev: Map<Seq<char>, ShareSnapshotItem>,
    acted: Set<Seq<char>>,
    m: ShareModifiedItem,
    n: int,
) -> bool {
    exists|i: int| 0 <= i < n && repairs_item(items, on_disk, prev, acted, m, i)
}

proof fn lemma_local_dirs(targets: Seq<SyncTarget>)
    ensures
        local_dirs(targets).len() > 0 <==> exists|t: int|
            0 <= t < targets.len() && #[trigger] targets[t] is Local,
    decreases targets.len(),
{
    if targets.len() > 0 {
        let front = targets.drop_last();
        lemma_local_dirs(front);
        if exists|t: int| 0 <= t < front.len() && #[trigger] front[t] is Local {
            let t = choose|t: int| 0 <= t < front.len() && #[trigger] front[t] is Local;
            assert(targets[t] is Local);
        }
        if exists|t: int| 0 <= t < targets.len() && #[trigger] targets[t] is Local {
            let t = choose|t: int| 0 <= t < targets.len() && #[trigger] targets[t] is Local;
            if t < front.len() {
                assert(front[t] is Local);
            }
        }
        assert(targets[targets.len() - 1] == targets.last());
    }
}

/// The local directories are those of the local targets, in their order, and no others.
pub proof fn law_local_dirs_are_those_of_local_targets(a: Seq<SyncTarget>, b: Seq<SyncTarget>)
    ensures
        local_dirs(a + b) == local_dirs(a) + local_dirs(b),
        a.len() == 1 ==> local_dirs(a) == match a[0] {
            SyncTarget::Local(t) => seq![t.local_path@],
            SyncTarget::Netdisk(_) => seq![],
        },
        local_dirs(seq![]).len() == 0,
    decreases b.len(),
{
    if b.len() > 0 {
        law_local_dirs_are_those_of_local_targets(a, b.drop_last());
        assert((a + b).drop_last() =~= a + b.drop_last());
        assert((a + b).last() == b.last());
        assert(local_dirs(a + b) =~= local_dirs(a) + local_dirs(b));
    } else {
        assert(a + b =~= a);
        assert(local_dirs(a) + local_dirs(b) =~= local_dirs(a));
    }
    if a.len() == 1 {
        assert(a.drop_last() =~= Seq::<SyncTarget>::empty());
        assert(local_dirs(a.drop_last()) =~= Seq::<Seq<char>>::empty());
        match a[0] {
            SyncTarget::Local(t) => {
                assert(local_dirs(a) =~= seq![t.local_path@]);
            },
            SyncTarget::Netdisk(_) => {},
        }
    }
}

proof fn lemma_augmented(
    d: ShareDiff,
    targets: Seq<SyncTarget>,
    prev: Option<&ShareSnapshot>,
    curr: ShareSnapshot,
    diff: ShareDiff,
    on_disk: Seq<Vec<Option<u64>>>,
) -> (st: RepairModel)
    requires
        is_augmented(Ok(d), targets, prev, curr, diff, on_disk),
        exists|t: int| 0 <= t < targets.len() && #[trigger] targets[t] is Local,
    ensures
        repairs(
            curr.items@,
            size_lists(on_disk),
            previous_index(prev),
            (RepairModel {
                modified: diff.modified@,
                acted: touched(diff),
                unchanged: diff.unchanged_count as nat,
            }),
            curr.items@.len() as int,
        ) == Ok::<RepairModel, ErrorView>(st),
        d.modified@.len() == st.modified.len(),
        forall|m: ShareModifiedItem| d.modified@.contains(m) <==> st.modified.contains(m),
        d.unchanged_count == st.unchanged,
{
    lemma_local_dirs(targets);
    let start = RepairModel {
        modified: diff.modified@,
        acted: touched(diff),
        unchanged: diff.unchanged_count as nat,
    };
    let n = curr.items@.len() as int;
    let st = repairs(
        curr.items@,
        size_lists(on_disk),
        previous_index(prev),
        start,
        n,
    )->Ok_0;
    lemma_repairs_found(curr.items@, size_lists(on_disk), previous_index(prev), start, n);
    if st.modified.len() > diff.modified@.len() {
        sorting::lemma_stable_sort_elements(d.modified@, st.modified);
    } else {
        assert(st.modified.take(diff.modified@.len() as int) =~= st.modified);
    }
    st
}

/// A file of the share that did not change, and that one of the local directories lacks or holds
/// with another size, longer or shorter, is fetched again: it is among what is modified.
pub proof fn law_damaged_file_is_fetched_again(
    d: ShareDiff,
    targets: Seq<SyncTarget>,
    prev: Option<&ShareSnapshot>,
    curr: ShareSnapshot,
    diff: ShareDiff,
    on_disk: Seq<Vec<Option<u64>>>,
    i: int,
    k: int,
)
    requires
        is_augmented(Ok(d), targets, prev, curr, diff, on_disk),
        on_disk.len() == curr.items@.len(),
        exists|t: int| 0 <= t < targets.len() && #[trigger] targets[t] is Local,
        0 <= i < curr.items@.len(),
        !curr.items@[i].is_dir,
        !speaks_of(diff, curr.items@[i].path@),
        0 <= k < on_disk[i]@.len(),
        on_disk[i]@[k] != Some(curr.items@[i].size),
    ensures
        exists|m: int|
            0 <= m < d.modified@.len() && (#[trigger] d.modified@[m]).new.path@
                == curr.items@[i].path@,
        (forall|j: int|
            0 <= j < curr.items@.len() && j != i ==> (#[trigger] curr.items@[j]).path@
                != curr.items@[i].path@) ==> exists|m: int|
            0 <= m < d.modified@.len() && (#[trigger] d.modified@[m]).new == curr.items@[i],
{
    let st = lemma_augmented(d, targets, prev, curr, diff, on_disk);
    let items = curr.items@;
    let sizes = size_lists(on_disk);
    let start = RepairModel {
        modified: diff.modified@,
        acted: touched(diff),
        unchanged: diff.unchanged_count as nat,
    };
    lemma_repairs_found(items, sizes, previous_index(prev), start, items.len() as int);
    lemma_changes_file(diff, items[i].path@);
    assert(sizes[i] == on_disk[i]@);
    assert(lacks(sizes[i], items[i].size)) by {
        assert(sizes[i][k] == on_disk[i]@[k]);
    }
    assert(st.acted.contains(items[i].path@));
    let b = diff.modified@.len() as int;
    let x = choose|x: int|
        b <= x < st.modified.len() && (#[trigger] st.modified[x]).new.path@ == items[i].path@;
    assert(found_at(items, sizes, previous_index(prev), start.acted, st.modified[x], items.len() as int));
    let y = choose|y: int|
        0 <= y < items.len() && repairs_item(
            items,
            sizes,
            previous_index(prev),
            start.acted,
            st.modified[x],
            y,
        );
    assert(items[y].path@ == items[i].path@);
    assert(st.modified.contains(st.modified[x]));
    assert(d.modified@.contains(st.modified[x]));
    let m = choose|m: int| 0 <= m < d.modified@.len() && d.modified@[m] == st.modified[x];
    assert(d.modified@[m].new.path@ == items[i].path@);
    if forall|j: int|
        0 <= j < items.len() && j != i ==> (#[trigger] items[j]).path@ != items[i].path@ {
        assert(y == i);
        assert(d.modified@[m].new == items[i]);
    }
}

/// What is fetched again beyond the diff was lacking: each file that is put in is an item of the
/// share that the diff did not speak of, and one of the local directories lacks it or holds it
/// with another size. So a file that all of them hold with its size is left alone.
pub proof fn law_intact_file_is_left_alone(
    d: ShareDiff,
    targets: Seq<SyncTarget>,
    prev: Option<&ShareSnapshot>,
    curr: ShareSnapshot,
    diff: ShareDiff,
    on_disk: Seq<Vec<Option<u64>>>,
    m: ShareModifiedItem,
)
    requires
        is_augmented(Ok(d), targets, prev, curr, diff, on_disk),
        on_disk.len() == curr.items@.len(),
        exists|t: int| 0 <= t < targets.len() && #[trigger] targets[t] is Local,
        d.modified@.contains(m),
        !diff.modified@.contains(m),
    ensures
        exists|i: int|
            {
                &&& 0 <= i < curr.items@.len()
                &&& m.new == #[trigger] curr.items@[i]
                &&& !curr.items@[i].is_dir
                &&& !speaks_of(diff, curr.items@[i].path@)
                &&& exists|k: int|
                    0 <= k < on_disk[i]@.len() && #[trigger] on_disk[i]@[k] != Some(
                        curr.items@[i].size,
                    )
            },
        match prev {
            Some(s) => s.items@.contains(m.old) && m.old.path@ == m.new.path@ || (m.old == m.new
                && forall|j: int|
                0 <= j < s.items@.len() ==> (#[trigger] s.items@[j]).path@ != m.new.path@),
            None => m.old == m.new,
        },
{
    let st = lemma_augmented(d, targets, prev, curr, diff, on_disk);
    let items = curr.items@;
    let sizes = size_lists(on_disk);
    let start = RepairModel {
        modified: diff.modified@,
        acted: touched(diff),
        unchanged: diff.unchanged_count as nat,
    };
    lemma_repairs_found(items, sizes, previous_index(prev), start, items.len() as int);
    let b = diff.modified@.len() as int;
    assert(st.modified.contains(m));
    let x = choose|x: int| 0 <= x < st.modified.len() && st.modified[x] == m;
    if x < b {
        assert(st.modified.take(b)[x] == m);
        assert(diff.modified@[x] == m);
    }
    assert(found_at(items, sizes, previous_index(prev), start.acted, st.modified[x], items.len() as int));
    let y = choose|y: int|
        0 <= y < items.len() && repairs_item(
            items,
            sizes,
            previous_index(prev),
            start.acted,
            st.modified[x],
            y,
        );
    assert(m.new == items[y]);
    lemma_changes_file(diff, items[y].path@);
    assert(sizes[y] == on_disk[y]@);
    let k = choose|k: int|
        0 <= k < sizes[y].len() && match #[trigger] sizes[y][k] {
            Some(n) => n < items[y].size || n > items[y].size,
            None => true,
        };
    assert(on_disk[y]@[k] != Some(items[y].size));
    if prev is Some {
        snapshot::law_index_finds_every_path(prev->Some_0.items@, items[y].path@);
    }
}

/// A search for repairs keeps what the diff held. Each file that it puts in was counted as
/// unchanged and is not any more. Without a local directory the diff stays as it is.
pub proof fn law_repairs_keep_the_diff(
    r: Result<ShareDiff, ShareSyncError>,
    targets: Seq<SyncTarget>,
    prev: Option<&ShareSnapshot>,
    curr: ShareSnapshot,
    diff: ShareDiff,
    on_disk: Seq<Vec<Option<u64>>>,
)
    requires
        is_augmented(r, targets, prev, curr, diff, on_disk),
    ensures
        (forall|t: int| 0 <= t < targets.len() ==> !(#[trigger] targets[t] is Local)) ==> r == Ok::<
            ShareDiff,
            ShareSyncError,
        >(diff),
        r matches Ok(d) ==> {
            &&& d.added == diff.added
            &&& d.removed == diff.removed
            &&& forall|m: ShareModifiedItem| #[trigger]
                diff.modified@.contains(m) ==> d.modified@.contains(m)
            &&& d.modified@.len() >= diff.modified@.len()
            &&& d.unchanged_count == if diff.unchanged_count >= d.modified@.len()
                - diff.modified@.len() {
                diff.unchanged_count - (d.modified@.len() - diff.modified@.len())
            } else {
                0
            }
        },
{
    lemma_local_dirs(targets);
    if r is Ok && exists|t: int| 0 <= t < targets.len() && #[trigger] targets[t] is Local {
        let d = r->Ok_0;
        let st = lemma_augmented(d, targets, prev, curr, diff, on_disk);
        let start = RepairModel {
            modified: diff.modified@,
            acted: touched(diff),
            unchanged: diff.unchanged_count as nat,
        };
        lemma_repairs_found(
            curr.items@,
            size_lists(on_disk),
            previous_index(prev),
            start,
            curr.items@.len() as int,
        );
        assert forall|m: ShareModifiedItem| #[trigger]
            diff.modified@.contains(m) implies d.modified@.contains(m) by {
            let k = choose|k: int| 0 <= k < diff.modified@.len() && diff.modified@[k] == m;
            assert(st.modified.take(diff.modified@.len() as int)[k] == m);
            assert(st.modified[k] == m);
            assert(st.modified.contains(m));
        }
    }
}

/// A file that did not change, and that every local directory holds with exactly its size, is not
/// fetched again.
pub proof fn law_file_of_the_right_size_is_not_fetched(
    d: ShareDiff,
    targets: Seq<SyncTarget>,
    prev: Option<&ShareSnapshot>,
    curr: ShareSnapshot,
    diff: ShareDiff,
    on_disk: Seq<Vec<Option<u64>>>,
    i: int,
    m: ShareModifiedItem,
)
    requires
        is_augmented(Ok(d), targets, prev, curr, diff, on_disk),
        on_disk.len() == curr.items@.len(),
        exists|t: int| 0 <= t < targets.len() && #[trigger] targets[t] is Local,
        0 <= i < curr.items@.len(),
        !speaks_of(diff, curr.items@[i].path@),
        forall|j: int|
            0 <= j < curr.items@.len() && j != i ==> (#[trigger] curr.items@[j]).path@
                != curr.items@[i].path@,
        forall|k: int|
            0 <= k < on_disk[i]@.len() ==> #[trigger] on_disk[i]@[k] == Some(curr.items@[i].size),
        d.modified@.contains(m),
    ensures
        m.new.path@ != curr.items@[i].path@,
{
    if diff.modified@.contains(m) {
        let k = choose|k: int| 0 <= k < diff.modified@.len() && diff.modified@[k] == m;
        assert(diff.modified@[k].new.path@ == m.new.path@);
    } else {
        law_intact_file_is_left_alone(d, targets, prev, curr, diff, on_disk, m);
    }
}

/// With whole directories put in, what is added stands sorted by path.
pub proof fn law_plans_are_sorted(
    r: ShareDiff,
    count: nat,
    diff: ShareDiff,
    items: Seq<ShareSnapshotItem>,
    a: int,
    b: int,
)
    requires
        is_execution_diff(r, count, diff, snapshot::indexed(items)),
        0 <= a < b < r.added@.len(),
    ensures
        !sorting::comes_before(r.added@[b].path@, r.added@[a].path@),
{
    let index = snapshot::indexed(items);
    let dirs = choose|dirs: Seq<Seq<char>>|
        {
            &&& dirs.no_duplicates()
            &&& dirs.len() == count
            &&& forall|d: Seq<char>| #[trigger] dirs.contains(d) <==> is_promoted(diff, index, d)
            &&& #[trigger] sorting::is_stable_sort(r.added@, diff.added@ + items_at(index, dirs))
        };
    sorting::lemma_stable_sort_sorted(r.added@, diff.added@ + items_at(index, dirs), a, b);
    sorting::law_text_order(r.added@[b].path@, r.added@[a].path@);
}

/// A search for repairs that has failed stays failed.
proof fn lemma_repairs_error(
    items: Seq<ShareSnapshotItem>,
    on_disk: Seq<Seq<Option<u64>>>,
    prev: Map<Seq<char>, ShareSnapshotItem>,
    start: RepairModel,
    a: int,
    b: int,
)
    requires
        0 <= a <= b,
        repairs(items, on_disk, prev, start, a) is Err,
    ensures
        repairs(items, on_disk, prev, start, b) == repairs(items, on_disk, prev, start, a),
    decreases b,
{
    if a < b {
        lemma_repairs_error(items, on_disk, prev, start, a, b - 1);
    }
}

/// After the search, every file of the snapshot that is missing or damaged locally is one
/// that something is done about.
pub proof fn law_damaged_files_are_acted_on(
    items: Seq<ShareSnapshotItem>,
    on_disk: Seq<Seq<Option<u64>>>,
    prev: Map<Seq<char>, ShareSnapshotItem>,
    start: RepairModel,
    n: int,
    i: int,
)
    requires
        0 <= i < n <= items.len(),
        repairs(items, on_disk, prev, start, n) is Ok,
        !items[i].is_dir,
        needs_repair(on_disk[i], items[i].size),
    ensures
        repairs(items, on_disk, prev, start, n)->Ok_0.acted.contains(items[i].path@),
    decreases n,
{
    if i < n - 1 {
        law_damaged_files_are_acted_on(items, on_disk, prev, start, n - 1, i);
    }
}

/// The root of a share is never promoted, and a directory only where a file below it changed.
pub proof fn law_promoted_dir_holds_a_changed_file(
    r: ShareDiff,
    count: nat,
    diff: ShareDiff,
    items: Seq<ShareSnapshotItem>,
    x: ShareSnapshotItem,
) -> (f: Seq<char>)
    requires
        is_execution_diff(r, count, diff, snapshot::indexed(items)),
        r.added@.contains(x),
        !diff.added@.contains(x),
    ensures
        x.path@ != seq!['/'],
        changes_file(diff, f),
        x.path@.len() > 0 && x.path@.last() != '/' ==> x.path@.push('/').is_prefix_of(f),
{
    let index = snapshot::indexed(items);
    law_only_fully_changed_dirs_are_promoted(r, count, diff, items);
    let dirs = choose|dirs: Seq<Seq<char>>|
        {
            &&& dirs.no_duplicates()
            &&& dirs.len() == count
            &&& forall|d: Seq<char>| #[trigger] dirs.contains(d) <==> is_promoted(diff, index, d)
            &&& #[trigger] sorting::is_stable_sort(r.added@, diff.added@ + items_at(index, dirs))
        };
    let all = diff.added@ + items_at(index, dirs);
    sorting::lemma_stable_sort_elements(r.added@, all);
    assert(all.contains(x));
    let k = choose|k: int| 0 <= k < all.len() && all[k] == x;
    if k < diff.added@.len() {
        assert(diff.added@[k] == x);
    }
    let d = dirs[k - diff.added@.len()];
    assert(items_at(index, dirs)[k - diff.added@.len()] == x);
    assert(dirs.contains(d));
    assert(is_promoted(diff, index, d));
    snapshot::law_index_finds_every_path(items, d);
    let f = choose|f: Seq<char>| is_file_below(index, x.path@, f);
    assert(changed_files(diff).contains(f));
    lemma_changes_file(diff, f);
    f
}

} // verus!
