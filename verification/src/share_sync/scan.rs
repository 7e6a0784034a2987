//! Walking the directories of a share.
//!
//! The walk is a state machine. `ShareScan::begin` takes in the top directory;
//! `ShareScan::open_next` says what to do next; a page that was listed is handed to
//! `ShareScan::page_listed`; `ShareScan::finish` makes the snapshot. Listing itself, and
//! waiting between attempts, is the caller's part.
use std::collections::VecDeque;

use vstd::prelude::*;
use vstd::string::*;

use crate::collections::{PathSet, SeenItems};
use crate::numbers;
use crate::numbers::{parse_u32, parse_u64};
use crate::share_sync::error::{ErrorView, ShareSyncError};
use crate::share_sync::paths;
use crate::share_sync::paths::{
    infer_share_root, last_segment, normalize_share_path, normalize_snapshot_path,
    remap_include_to_share_root,
};
use crate::share_sync::patterns;
use crate::share_sync::patterns::{compile_exclude_patterns, ExcludeSet};
use crate::share_sync::snapshot;
use crate::share_sync::snapshot::{
    build_include_index, dir_allowed_with, dir_needs_more_pages, filter_and_mark_pruned,
    CapturedShare, ItemView, ScanCache, ScanProgress, ShareSnapshot, ShareSnapshotItem,
};
use crate::text;
use crate::text::copy_opt;
use crate::transfer;
use crate::transfer::{copy_files, FileView, ShareFileListResult, ShareKind, SharePageInfo};
use crate::transfer::{ShareLink, SharedFileInfo};

verus! {

/// Entries on a page of a listing.
pub const PAGE_SIZE: usize = 100;

/// Pages of one directory after which a scan gives up.
pub const MAX_PAGES: u32 = 10_000;

// ---------------------------------------------------------------------------
// Taking in listed entries
// ---------------------------------------------------------------------------
/// What a scan has gathered.
#[verifier::ext_equal]
pub struct ScanModel {
    /// The entries, each path and file id once.
    pub items: Seq<ItemView>,
    /// The path and file id of each entry.
    pub seen: Set<(Seq<char>, u64)>,
    /// The raw paths of the directories that were ever queued.
    pub queued: Set<Seq<char>>,
    /// The raw paths of the directories that wait to be listed.
    pub queue: Seq<Seq<char>>,
    /// The include paths that were met as files.
    pub found: Set<Seq<char>>,
    /// The number of files among the entries.
    pub files_seen: nat,
}

/// What a scan has gathered before anything was listed.
pub open spec fn nothing_yet() -> ScanModel {
    ScanModel {
        items: Seq::empty(),
        seen: Set::empty(),
        queued: Set::empty(),
        queue: Seq::empty(),
        found: Set::empty(),
        files_seen: 0,
    }
}

/// The rules of a scan.
#[verifier::ext_equal]
pub struct ScanRules {
    pub share_root: Seq<char>,
    pub includes: Set<Seq<char>>,
    pub index: Set<Seq<char>>,
}

/// The snapshot entry of a listed file.
pub open spec fn entry_of(f: FileView, share_root: Seq<char>) -> ItemView {
    ItemView {
        path: paths::share_path(f.path, f.name, share_root),
        raw_path: f.path,
        fs_id: f.fs_id,
        size: f.size,
        name: f.name,
        is_dir: f.is_dir,
        subtree_pruned: false,
    }
}

/// Takes in one listed entry: it becomes an entry of the snapshot unless one with its
/// path and file id is there already; a directory that the rules let in is queued once;
/// a file that is an include path is noted as found.
pub open spec fn absorb_one(st: ScanModel, f: FileView, rules: ScanRules) -> ScanModel {
    let entry = entry_of(f, rules.share_root);
    let fresh = !st.seen.contains((entry.path, f.fs_id));
    let enter = f.is_dir && snapshot::dir_allowed(rules.includes, rules.index, entry.path)
        && !st.queued.contains(f.path);
    ScanModel {
        items: if fresh {
            st.items.push(entry)
        } else {
            st.items
        },
        seen: st.seen.insert((entry.path, f.fs_id)),
        queued: if enter {
            st.queued.insert(f.path)
        } else {
            st.queued
        },
        queue: if enter {
            st.queue.push(f.path)
        } else {
            st.queue
        },
        found: if !f.is_dir && rules.includes.contains(entry.path) {
            st.found.insert(entry.path)
        } else {
            st.found
        },
        files_seen: if fresh && !f.is_dir {
            st.files_seen + 1
        } else {
            st.files_seen
        },
    }
}

/// Takes in listed entries one after the other.
pub open spec fn absorb(st: ScanModel, files: Seq<FileView>, rules: ScanRules) -> ScanModel
    decreases files.len(),
{
    if files.len() == 0 {
        st
    } else {
        absorb_one(absorb(st, files.drop_last(), rules), files.last(), rules)
    }
}

/// Adds the entry unless one with its path and file id is there already; returns whether
/// it was added.
pub fn push_unique(
    out: &mut Vec<ShareSnapshotItem>,
    seen: &mut SeenItems,
    share_root: &str,
    info: SharedFileInfo,
) -> (r: bool)
    ensures
        ({
            let entry = entry_of(info@, share_root@);
            &&& r == !old(seen)@.contains((entry.path, info.fs_id))
            &&& final(seen)@ == old(seen)@.insert((entry.path, info.fs_id))
            &&& snapshot::item_views(final(out)@) == if r {
                snapshot::item_views(old(out)@).push(entry)
            } else {
                snapshot::item_views(old(out)@)
            }
        }),
        final(out)@.len() == old(out)@.len() + if r {
            1int
        } else {
            0
        },
{
    let path = normalize_share_path(info.path.as_str(), info.name.as_str(), share_root);
    if seen.insert(path.as_str(), info.fs_id) {
        let ghost before = snapshot::item_views(out@);
        let item = ShareSnapshotItem::with_raw_path(
            path.as_str(),
            info.name.as_str(),
            info.fs_id,
            info.size,
            info.is_dir,
            info.path.as_str(),
        );
        out.push(item);
        assert(snapshot::item_views(out@) =~= before.push(item@));
        true
    } else {
        false
    }
}

/// The parts of a scan's state as one model.
pub open spec fn model_of(
    all_items: Seq<ShareSnapshotItem>,
    seen: Set<(Seq<char>, u64)>,
    queued_dirs: Set<Seq<char>>,
    queue: Seq<String>,
    found: Set<Seq<char>>,
    files_seen: usize,
) -> ScanModel {
    ScanModel {
        items: snapshot::item_views(all_items),
        seen,
        queued: queued_dirs,
        queue: text::texts(queue),
        found,
        files_seen: files_seen as nat,
    }
}

/// Takes listed entries into the state of a scan. A page that was listed and a directory
/// that was cached go through here alike.
pub fn absorb_entries(
    entries: Vec<SharedFileInfo>,
    share_root: &str,
    include_paths: &PathSet,
    include_index: &PathSet,
    all_items: &mut Vec<ShareSnapshotItem>,
    seen: &mut SeenItems,
    queued_dirs: &mut PathSet,
    queue: &mut VecDeque<String>,
    found_included_files: &mut PathSet,
    files_seen: &mut usize,
)
    requires
        *old(files_seen) <= old(all_items)@.len() || *old(files_seen) + entries@.len()
            <= usize::MAX,
    ensures
        model_of(
            final(all_items)@,
            final(seen)@,
            final(queued_dirs)@,
            final(queue)@,
            final(found_included_files)@,
            *final(files_seen),
        ) == absorb(
            model_of(
                old(all_items)@,
                old(seen)@,
                old(queued_dirs)@,
                old(queue)@,
                old(found_included_files)@,
                *old(files_seen),
            ),
            transfer::file_views(entries@),
            (ScanRules { share_root: share_root@, includes: include_paths@, index: include_index@ }),
        ),
        *old(files_seen) <= old(all_items)@.len() ==> *final(files_seen) <= final(all_items)@.len(),
{
    let ghost rules = ScanRules {
        share_root: share_root@,
        includes: include_paths@,
        index: include_index@,
    };
    let ghost views = transfer::file_views(entries@);
    let ghost st0 = model_of(
        all_items@,
        seen@,
        queued_dirs@,
        queue@,
        found_included_files@,
        *files_seen,
    );
    let ghost n0 = all_items@.len();
    let ghost f0 = *files_seen;
    let mut i: usize = 0;
    while i < entries.len()
        invariant
            i <= entries@.len(),
            rules == (ScanRules {
                share_root: share_root@,
                includes: include_paths@,
                index: include_index@,
            }),
            views == transfer::file_views(entries@),
            f0 <= n0 ==> *files_seen <= all_items@.len(),
            *files_seen <= all_items@.len() || *files_seen + (entries@.len() - i) <= usize::MAX,
            model_of(
                all_items@,
                seen@,
                queued_dirs@,
                queue@,
                found_included_files@,
                *files_seen,
            ) == absorb(st0, views.take(i as int), rules),
        decreases entries@.len() - i,
    {
        let ghost st = absorb(st0, views.take(i as int), rules);
        let f = entries[i].clone();
        let is_dir = f.is_dir;
        let raw_path = f.path.clone();
        let path = normalize_share_path(f.path.as_str(), f.name.as_str(), share_root);
        if !is_dir && include_paths.contains(path.as_str()) {
            found_included_files.insert(path.clone());
        }
        let inserted = push_unique(all_items, seen, share_root, f);
        let total: usize = all_items.len();
        if inserted && !is_dir {
            assert(all_items@.len() == total);
            *files_seen += 1;
        }
        if is_dir && dir_allowed_with(include_paths, include_index, path.as_str()) {
            if queued_dirs.insert(raw_path.clone()) {
                let ghost before = text::texts(queue@);
                queue.push_back(raw_path.clone());
                assert(text::texts(queue@) =~= before.push(raw_path@));
            } else {
                assert(queued_dirs@ =~= st.queued);
            }
        }
        proof {
            assert(views[i as int] == entries@[i as int]@);
            assert(views.take(i + 1).drop_last() =~= views.take(i as int));
            assert(views.take(i + 1).last() == views[i as int]);
            let now = model_of(
                all_items@,
                seen@,
                queued_dirs@,
                queue@,
                found_included_files@,
                *files_seen,
            );
            assert(now =~= absorb_one(st, views[i as int], rules));
        }
        i += 1;
    }
    assert(views.take(i as int) =~= views);
}

/// Taking in two pages is taking in the pages put together, so a directory that comes
/// from the cache leaves a scan where listing its pages would.
pub proof fn law_absorb_pages(st: ScanModel, a: Seq<FileView>, b: Seq<FileView>, rules: ScanRules)
    ensures
        absorb(absorb(st, a, rules), b, rules) == absorb(st, a + b, rules),
    decreases b.len(),
{
    if b.len() == 0 {
        assert(a + b =~= a);
    } else {
        law_absorb_pages(st, a, b.drop_last(), rules);
        assert((a + b).drop_last() =~= a + b.drop_last());
        assert((a + b).last() == b.last());
    }
}

/// Nothing changes when `f` is taken in.
spec fn settled(st: ScanModel, f: FileView, rules: ScanRules) -> bool {
    let path = entry_of(f, rules.share_root).path;
    &&& st.seen.contains((path, f.fs_id))
    &&& (f.is_dir && snapshot::dir_allowed(rules.includes, rules.index, path))
        ==> st.queued.contains(f.path)
    &&& (!f.is_dir && rules.includes.contains(path)) ==> st.found.contains(path)
}

proof fn lemma_settled(st: ScanModel, f: FileView, rules: ScanRules)
    ensures
        settled(absorb_one(st, f, rules), f, rules),
        settled(st, f, rules) ==> absorb_one(st, f, rules) == st,
{
    if settled(st, f, rules) {
        let path = entry_of(f, rules.share_root).path;
        assert(st.seen.insert((path, f.fs_id)) =~= st.seen);
        assert(st.found.contains(path) ==> st.found.insert(path) =~= st.found);
        assert(absorb_one(st, f, rules) =~= st);
    }
}

proof fn lemma_settled_kept(st: ScanModel, f: FileView, files: Seq<FileView>, rules: ScanRules)
    requires
        settled(st, f, rules),
    ensures
        settled(absorb(st, files, rules), f, rules),
    decreases files.len(),
{
    if files.len() > 0 {
        lemma_settled_kept(st, f, files.drop_last(), rules);
    }
}

proof fn lemma_absorbed_settled(st: ScanModel, files: Seq<FileView>, rules: ScanRules, i: int)
    requires
        0 <= i < files.len(),
    ensures
        settled(absorb(st, files, rules), files[i], rules),
    decreases files.len(),
{
    let front = files.drop_last();
    if i == files.len() - 1 {
        lemma_settled(absorb(st, front, rules), files.last(), rules);
    } else {
        lemma_absorbed_settled(st, front, rules, i);
        assert(front[i] == files[i]);
        let mid = absorb(st, front, rules);
        lemma_settled_kept(mid, files[i], seq![files.last()], rules);
        assert(seq![files.last()].drop_last() =~= Seq::<FileView>::empty());
        assert(absorb(mid, Seq::<FileView>::empty(), rules) == mid);
        assert(absorb(mid, seq![files.last()], rules) == absorb_one(mid, files.last(), rules));
    }
}

proof fn lemma_absorb_settled(st: ScanModel, files: Seq<FileView>, rules: ScanRules)
    requires
        forall|i: int| 0 <= i < files.len() ==> settled(st, #[trigger] files[i], rules),
    ensures
        absorb(st, files, rules) == st,
    decreases files.len(),
{
    if files.len() > 0 {
        let front = files.drop_last();
        assert forall|i: int| 0 <= i < front.len() implies settled(
            st,
            #[trigger] front[i],
            rules,
        ) by {
            assert(settled(st, files[i], rules));
        }
        lemma_absorb_settled(st, front, rules);
        assert(settled(st, files[files.len() - 1], rules));
        lemma_settled(st, files.last(), rules);
    }
}

/// Taking in the same entries again changes nothing: no file is counted twice, no
/// directory queued twice, no entry repeated.
pub proof fn law_absorb_idempotent(st: ScanModel, files: Seq<FileView>, rules: ScanRules)
    ensures
        absorb(absorb(st, files, rules), files, rules) == absorb(st, files, rules),
{
    let once = absorb(st, files, rules);
    assert forall|i: int| 0 <= i < files.len() implies settled(once, #[trigger] files[i], rules) by {
        lemma_absorbed_settled(st, files, rules, i);
    }
    lemma_absorb_settled(once, files, rules);
}

/// Some entry that was gathered has this path and file id.
pub open spec fn has_item(st: ScanModel, path: Seq<char>, fs_id: u64) -> bool {
    exists|j: int|
        0 <= j < st.items.len() && (#[trigger] st.items[j]).path == path && st.items[j].fs_id
            == fs_id
}

proof fn lemma_seen_are_items(files: Seq<FileView>, rules: ScanRules, path: Seq<char>, fs_id: u64)
    ensures
        absorb(nothing_yet(), files, rules).seen.contains((path, fs_id)) ==> has_item(
            absorb(nothing_yet(), files, rules),
            path,
            fs_id,
        ),
    decreases files.len(),
{
    if files.len() > 0 {
        let front = absorb(nothing_yet(), files.drop_last(), rules);
        let all = absorb(nothing_yet(), files, rules);
        let f = files.last();
        let entry = entry_of(f, rules.share_root);
        lemma_seen_are_items(files.drop_last(), rules, path, fs_id);
        if front.seen.contains((path, fs_id)) {
            let j = choose|j: int|
                0 <= j < front.items.len() && (#[trigger] front.items[j]).path == path
                    && front.items[j].fs_id == fs_id;
            assert(all.items[j] == front.items[j]);
        } else if entry.path == path && f.fs_id == fs_id {
            assert(all.items[front.items.len() as int] == entry);
        }
    }
}

/// Every listed entry is gathered, on whichever page it stands.
pub proof fn law_every_entry_is_gathered(files: Seq<FileView>, rules: ScanRules, i: int)
    requires
        0 <= i < files.len(),
    ensures
        has_item(
            absorb(nothing_yet(), files, rules),
            entry_of(files[i], rules.share_root).path,
            files[i].fs_id,
        ),
{
    lemma_absorbed_settled(nothing_yet(), files, rules, i);
    lemma_seen_are_items(
        files,
        rules,
        entry_of(files[i], rules.share_root).path,
        files[i].fs_id,
    );
}

/// After entries are taken in, a directory has been queued exactly when it was before or
/// when it is among the entries and the rules let it in.
pub proof fn law_queued_dirs_are_allowed(
    st: ScanModel,
    files: Seq<FileView>,
    rules: ScanRules,
    dir: Seq<char>,
)
    ensures
        absorb(st, files, rules).queued.contains(dir) <==> {
            ||| st.queued.contains(dir)
            ||| exists|i: int|
                0 <= i < files.len() && (#[trigger] files[i]).is_dir && files[i].path == dir
                    && snapshot::dir_allowed(
                    rules.includes,
                    rules.index,
                    entry_of(files[i], rules.share_root).path,
                )
        },
    decreases files.len(),
{
    if files.len() > 0 {
        let front = files.drop_last();
        let f = files.last();
        law_queued_dirs_are_allowed(st, front, rules, dir);
        let lets_in = |x: FileView|
            x.is_dir && x.path == dir && snapshot::dir_allowed(
                rules.includes,
                rules.index,
                entry_of(x, rules.share_root).path,
            );
        if exists|i: int| 0 <= i < front.len() && lets_in(#[trigger] front[i]) {
            let i = choose|i: int| 0 <= i < front.len() && lets_in(#[trigger] front[i]);
            assert(files[i] == front[i]);
        }
        if exists|i: int| 0 <= i < files.len() && lets_in(#[trigger] files[i]) {
            let i = choose|i: int| 0 <= i < files.len() && lets_in(#[trigger] files[i]);
            if i < front.len() {
                assert(front[i] == files[i]);
            }
        }
        assert(files[files.len() - 1] == f);
    }
}

// ---------------------------------------------------------------------------
// Attempts
// ---------------------------------------------------------------------------
/// How often a listing is tried again, from the setting; three times where the setting
/// is missing or no number.
pub fn list_retry_limit(setting: Option<&str>) -> (r: u32)
    ensures
        r == match setting {
            Some(s) => match numbers::unsigned_of(s@, u32::MAX as nat) {
                Some(n) => n,
                None => 3,
            },
            None => 3,
        },
{
    match setting {
        Some(s) => match parse_u32(s) {
            Some(n) => n,
            None => 3,
        },
        None => 3,
    }
}

/// The first delay between two attempts in milliseconds, from the setting; 800 where the
/// setting is missing or no number.
pub fn list_retry_backoff_ms(setting: Option<&str>) -> (r: u64)
    ensures
        r == match setting {
            Some(s) => match numbers::unsigned_of(s@, u64::MAX as nat) {
                Some(n) => n,
                None => 800,
            },
            None => 800,
        },
{
    match setting {
        Some(s) => match parse_u64(s) {
            Some(n) => n,
            None => 800,
        },
        None => 800,
    }
}

/// Two to the given power.
pub open spec fn power_of_two(n: nat) -> nat
    decreases n,
{
    if n == 0 {
        1
    } else {
        2 * power_of_two((n - 1) as nat)
    }
}

/// The delay before the attempt after number `attempt`: the base, doubled each time, at
/// most what a `u64` holds.
pub open spec fn backoff(base_ms: u64, attempt: nat) -> nat {
    let full = base_ms as nat * power_of_two(attempt);
    if full > u64::MAX as nat {
        u64::MAX as nat
    } else {
        full
    }
}

/// The delay before the attempt after number `attempt`.
pub fn backoff_ms(base_ms: u64, attempt: u32) -> (r: u64)
    requires
        attempt < 64,
    ensures
        r as nat == backoff(base_ms, attempt as nat),
{
    let mut delay: u64 = base_ms;
    let mut capped = false;
    let mut k: u32 = 0;
    proof {
        let b = base_ms as nat;
        assert(power_of_two(0) == 1);
        assert(b * 1 == b) by (nonlinear_arith);
    }
    while k < attempt
        invariant
            k <= attempt,
            capped ==> base_ms as nat * power_of_two(k as nat) > u64::MAX as nat,
            !capped ==> base_ms as nat * power_of_two(k as nat) == delay as nat,
        decreases attempt - k,
    {
        proof {
            let b = base_ms as nat;
            let p = power_of_two(k as nat);
            assert(power_of_two((k + 1) as nat) == 2 * p);
            assert(b * (2 * p) == 2 * (b * p)) by (nonlinear_arith);
        }
        if !capped {
            if delay > u64::MAX / 2 {
                capped = true;
            } else {
                delay = delay * 2;
            }
        }
        k += 1;
    }
    if capped {
        u64::MAX
    } else {
        delay
    }
}

/// What to do after attempt number `attempt` failed: wait this many milliseconds and try
/// again, or give up. Only failures that may pass are tried again.
pub fn retry_delay(may_pass: bool, attempt: u32, max_retries: u32, base_ms: u64) -> (r: Option<u64>)
    requires
        attempt < 64,
    ensures
        match r {
            Some(ms) => may_pass && attempt < max_retries && ms as nat == backoff(
                base_ms,
                attempt as nat,
            ),
            None => !may_pass || attempt >= max_retries,
        },
{
    if may_pass && attempt < max_retries {
        Some(backoff_ms(base_ms, attempt))
    } else {
        None
    }
}

// ---------------------------------------------------------------------------
// The collector
// ---------------------------------------------------------------------------
/// What a scan needs to know of a share and of the entries that are wanted.
pub struct SnapshotCollector {
    pub short_key: String,
    pub shareid: String,
    pub uk: String,
    pub share_uk: String,
    pub bdstoken: String,
    pub password: Option<String>,
    pub randsk: Option<String>,
    pub kind: ShareKind,
    pub include_paths: PathSet,
    /// The include paths and the directories above them.
    pub include_index: PathSet,
    pub exclude_set: Option<ExcludeSet>,
}

/// The normal forms of the include paths, those without one left out.
pub open spec fn normal_paths(list: Seq<Seq<char>>) -> Set<Seq<char>> {
    Set::new(
        |p: Seq<char>|
            exists|i: int|
                0 <= i < list.len() && paths::normal_path(#[trigger] list[i]) == Some(p),
    )
}

/// The include paths relative to the root of the share.
pub open spec fn remapped(includes: Set<Seq<char>>, share_root: Seq<char>) -> Set<Seq<char>> {
    Set::new(
        |p: Seq<char>|
            exists|inc: Seq<char>| #[trigger]
                includes.contains(inc) && p == paths::include_path(inc, share_root),
    )
}

/// The password that a share is opened with: the subscription's own, else the one in the
/// link.
pub fn effective_password(own: Option<String>, link: &ShareLink) -> (r: Option<String>)
    ensures
        r == match own {
            Some(p) => Some(p),
            None => link.password,
        },
{
    match own {
        Some(p) => Some(p),
        None => copy_opt(&link.password),
    }
}

/// What comes after the page of a share was read: the password to verify, or none where
/// the share has no password or an empty one. A page without a share id is an error.
pub fn password_to_verify(page: &SharePageInfo, password: &Option<String>) -> (r: Result<
    Option<String>,
    ShareSyncError,
>)
    ensures
        match r {
            Ok(None) => page.shareid@.len() > 0 && (password matches Some(p) ==> p@.len() == 0),
            Ok(Some(p)) => page.shareid@.len() > 0 && p@.len() > 0 && *password == Some(p),
            Err(e) => page.shareid@.len() == 0 && e@ == ErrorView::ShareLinkError(
                "分享页面返回的 shareid 为空"@,
            ),
        },
{
    if page.shareid.as_str().is_empty() {
        return Err(ShareSyncError::ShareLinkError("分享页面返回的 shareid 为空".to_owned()));
    }
    match password {
        Some(p) => if p.as_str().is_empty() {
            Ok(None)
        } else {
            Ok(Some(p.clone()))
        },
        None => Ok(None),
    }
}

/// The collector for a share whose page was read and whose password was verified.
pub open spec fn is_collector(
    r: SnapshotCollector,
    link: ShareLink,
    page: SharePageInfo,
    password: Option<String>,
    randsk: Option<String>,
    include_paths: Seq<Seq<char>>,
    exclude_patterns: Seq<Seq<char>>,
) -> bool {
    &&& r.short_key == link.short_key
    &&& r.shareid == page.shareid
    &&& r.uk == page.uk
    &&& r.share_uk == page.share_uk
    &&& r.bdstoken == page.bdstoken
    &&& r.password == password
    &&& r.randsk == randsk
    &&& r.kind == link.kind
    &&& r.include_paths@ == normal_paths(include_paths)
    &&& r.include_index@ == snapshot::include_index(r.include_paths@)
    &&& r.exclude_set is Some <==> exclude_patterns.len() > 0 && patterns::regex_set_compiles(
        patterns::anchored_all(exclude_patterns),
    )
    &&& r.exclude_set matches Some(set) ==> set@ == exclude_patterns
}

impl SnapshotCollector {
    /// The collector for a share whose page was read and whose password was verified.
    pub fn from_page(
        link: ShareLink,
        page: SharePageInfo,
        password: Option<String>,
        randsk: Option<String>,
        include_paths: Vec<String>,
        exclude_patterns: Vec<String>,
    ) -> (r: SnapshotCollector)
        ensures
            is_collector(
                r,
                link,
                page,
                password,
                randsk,
                text::texts(include_paths@),
                text::texts(exclude_patterns@),
            ),
    {
        let mut includes = PathSet::new();
        let ghost list = text::texts(include_paths@);
        let mut i: usize = 0;
        assert(includes@ =~= normal_paths(list.take(0)));
        while i < include_paths.len()
            invariant
                i <= include_paths@.len(),
                list == text::texts(include_paths@),
                includes@ == normal_paths(list.take(i as int)),
            decreases include_paths@.len() - i,
        {
            let ghost before = includes@;
            match normalize_snapshot_path(include_paths[i].clone()) {
                Some(p) => {
                    includes.insert(p);
                },
                None => {},
            }
            proof {
                let prev = list.take(i as int);
                let now = list.take(i + 1);
                assert forall|p: Seq<char>| includes@.contains(p) == normal_paths(now).contains(
                    p,
                ) by {
                    if normal_paths(prev).contains(p) {
                        let k = choose|k: int|
                            0 <= k < prev.len() && paths::normal_path(#[trigger] prev[k]) == Some(
                                p,
                            );
                        assert(now[k] == prev[k]);
                    }
                    if normal_paths(now).contains(p) {
                        let k = choose|k: int|
                            0 <= k < now.len() && paths::normal_path(#[trigger] now[k]) == Some(p);
                        if k < i {
                            assert(prev[k] == now[k]);
                        }
                    }
                    assert(now[i as int] == include_paths@[i as int]@);
                }
                assert(includes@ =~= normal_paths(now));
            }
            i += 1;
        }
        assert(list.take(i as int) =~= list);
        let include_index = build_include_index(&includes);
        let exclude_set = compile_exclude_patterns(exclude_patterns.as_slice());
        SnapshotCollector {
            short_key: link.short_key,
            shareid: page.shareid,
            uk: page.uk,
            share_uk: page.share_uk,
            bdstoken: page.bdstoken,
            password,
            randsk,
            kind: link.kind,
            include_paths: includes,
            include_index,
            exclude_set,
        }
    }

    /// Whether a scan enters the directory.
    pub fn dir_allowed(&self, dir: &str) -> (r: bool)
        ensures
            r == snapshot::dir_allowed(self.include_paths@, self.include_index@, dir@),
    {
        dir_allowed_with(&self.include_paths, &self.include_index, dir)
    }
}

/// A directory that is being listed.
pub struct DirCursor {
    /// The raw path.
    pub dir: String,
    /// The path relative to the root of the share.
    pub path: String,
    /// The page that is listed next.
    pub page: u32,
    /// The entries of the pages before, where they are to be cached.
    pub collected: Vec<SharedFileInfo>,
}

/// A walk through the directories of a share.
pub struct ShareScan {
    pub collector: SnapshotCollector,
    pub share_root: String,
    pub shareid: String,
    pub uk: String,
    pub all_items: Vec<ShareSnapshotItem>,
    pub seen: SeenItems,
    pub queued_dirs: PathSet,
    pub queue: VecDeque<String>,
    pub found: PathSet,
    pub files_seen: usize,
    pub dirs_done: usize,
    pub cached_hits: usize,
    pub cache: Option<ScanCache>,
    pub current: Option<DirCursor>,
}

/// What a scan does next.
pub enum ScanStep {
    /// All directories are done.
    Finished,
    /// A directory was left out: it does not belong to the include paths.
    Skipped,
    /// A directory was taken from the cache.
    Cached(ScanProgress),
    /// This page is to be listed.
    List { dir: String, page: u32 },
}

/// What follows a listed page.
pub enum PageStep {
    /// The directory has more: this page is to be listed.
    More { page: u32 },
    /// The directory is done.
    DirDone(ScanProgress),
}

/// The directory's path relative to the root of the share.
pub open spec fn dir_path(dir: Seq<char>, share_root: Seq<char>) -> Seq<char> {
    paths::share_path(dir, paths::after_last_slash(dir), share_root)
}

/// A scan as it begins with the top directory of the share, all of its pages: the common parent
/// of its entries is the root of the share, the include paths are brought to names relative to
/// it, and the entries are taken in. Share id and user key are the listing's, where it has them.
pub open spec fn is_begun(
    r: ShareScan,
    collector: SnapshotCollector,
    root_files: Seq<SharedFileInfo>,
    root_shareid: Seq<char>,
    root_uk: Seq<char>,
    cache: Option<ScanCache>,
) -> bool {
    &&& r.current is None
    &&& r.dirs_done == 0
    &&& r.cached_hits == 0
    &&& r.cache == cache
    &&& r.share_root@ == paths::share_root_of(paths::raw_paths(root_files))
    &&& r.shareid@ == if root_shareid.len() > 0 {
        root_shareid
    } else {
        collector.shareid@
    }
    &&& r.uk@ == if root_uk.len() > 0 {
        root_uk
    } else {
        collector.uk@
    }
    &&& r.collector.include_paths@ == remapped(collector.include_paths@, r.share_root@)
    &&& r.collector.include_index@ == if collector.include_paths@ == Set::<Seq<char>>::empty() {
        collector.include_index@
    } else {
        snapshot::include_index(r.collector.include_paths@)
    }
    &&& r.collector.short_key == collector.short_key
    &&& r.collector.share_uk == collector.share_uk
    &&& r.collector.bdstoken == collector.bdstoken
    &&& r.collector.password == collector.password
    &&& r.collector.randsk == collector.randsk
    &&& r.collector.kind == collector.kind
    &&& r.collector.exclude_set == collector.exclude_set
    &&& r.model() == absorb(
        nothing_yet(),
        transfer::file_views(root_files),
        r.rules(),
    )
}

/// The scan goes on to its next directory: one outside the include paths is left out, one that
/// is cached is taken in at once, any other is to be listed from its first page.
pub open spec fn is_opening(before: ShareScan, after: ShareScan, r: ScanStep) -> bool {
    &&& after.same_share(before)
    &&& after.cache == before.cache
    &&& {
        let st = before.model();
        let dir = st.queue[0];
        let path = dir_path(dir, before.share_root@);
        let popped = ScanModel { queue: st.queue.skip(1), ..st };
        if st.queue.len() == 0 {
            &&& r is Finished
            &&& after == before
        } else if !snapshot::dir_allowed(
            before.collector.include_paths@,
            before.collector.include_index@,
            path,
        ) {
            &&& r is Skipped
            &&& after.model() == popped
            &&& after.dirs_done == before.dirs_done
            &&& after.cached_hits == before.cached_hits
            &&& after.current is None
        } else if before.cache is Some && before.cache->Some_0@.contains_key(dir) {
            &&& r matches ScanStep::Cached(p) && after.is_progress(p, path)
            &&& after.model() == absorb(
                popped,
                transfer::file_views(before.cache->Some_0@[dir]@),
                before.rules(),
            )
            &&& after.dirs_done == before.dirs_done + 1
            &&& after.cached_hits == before.cached_hits + 1
            &&& after.current is None
        } else {
            &&& r matches ScanStep::List { dir: d, page } && d@ == dir && page == 1
            &&& after.model() == popped
            &&& after.dirs_done == before.dirs_done
            &&& after.cached_hits == before.cached_hits
            &&& after.current matches Some(cursor) && cursor.dir@ == dir
                && cursor.path@ == path && cursor.page == 1 && cursor.collected@.len() == 0
        }
    }
}

/// More of the open directory is wanted, once the scan has come to `after`.
pub open spec fn wants_more(before: ShareScan, after: ShareScan) -> bool {
    snapshot::more_pages_needed(
        before.collector.include_paths@,
        before.current->Some_0.path@,
        after.found@,
    )
}

/// With this page the open directory was listed to its end: the page is empty, or it is not full
/// though more was wanted.
pub open spec fn ends_dir(
    before: ShareScan,
    batch: Vec<SharedFileInfo>,
    after: ShareScan,
) -> bool {
    batch@.len() == 0 || (wants_more(before, after) && batch@.len() < PAGE_SIZE)
}

/// The error of a directory that has too many pages.
pub open spec fn too_many_pages_text() -> Seq<char> {
    "递归层数/翻页数超过安全上限，可能存在循环引用"@
}

/// The error of a directory that has too many pages.
pub fn too_many_pages() -> (r: ShareSyncError)
    ensures
        r@ == ErrorView::Internal(too_many_pages_text()),
{
    ShareSyncError::Internal("递归层数/翻页数超过安全上限，可能存在循环引用".to_owned())
}

/// The scan takes in a listed page of the directory that is open.
pub open spec fn is_page_taken(
    before: ShareScan,
    batch: Vec<SharedFileInfo>,
    after: ShareScan,
    r: Result<PageStep, ShareSyncError>,
) -> bool {
    &&& after.same_share(before)
    &&& after.cached_hits == before.cached_hits
    &&& after.model() == absorb(
        before.model(),
        transfer::file_views(batch@),
        before.rules(),
    )
    &&& {
        let cursor = before.current->Some_0;
        let more = wants_more(before, after);
        if ends_dir(before, batch, after) || !more {
            &&& r matches Ok(PageStep::DirDone(p)) && after.is_progress(
                p,
                cursor.path@,
            )
            &&& after.dirs_done == before.dirs_done + 1
            &&& after.current is None
            &&& match before.cache {
                None => after.cache is None,
                Some(cache) => after.cache matches Some(now) && if ends_dir(before, batch, after) {
                    &&& now@.dom() == cache@.dom().insert(cursor.dir@)
                    &&& now@[cursor.dir@]@ == cursor.collected@ + batch@
                    &&& forall|d: Seq<char>|
                        d != cursor.dir@ && cache@.contains_key(d) ==> now@[d] == cache@[d]
                } else {
                    now@ == cache@
                },
            }
        } else if cursor.page == MAX_PAGES {
            &&& r matches Err(e) && e@ == ErrorView::Internal(too_many_pages_text())
            &&& after.cache == before.cache
        } else {
            &&& r matches Ok(PageStep::More { page }) && page == cursor.page + 1
            &&& after.dirs_done == before.dirs_done
            &&& after.cache == before.cache
            &&& after.current matches Some(now) && now.dir == cursor.dir && now.path
                == cursor.path && now.page == cursor.page + 1 && now.collected@ == if before.cache is Some {
                cursor.collected@ + batch@
            } else {
                cursor.collected@
            }
        }
    }
}

/// What the exclude patterns of a collector are.
pub open spec fn excludes_of(collector: SnapshotCollector) -> Option<Seq<Seq<char>>> {
    match collector.exclude_set {
        Some(set) => Some(set@),
        None => None,
    }
}

/// What was captured: the snapshot of what a scan gathered, and what later copying needs of the
/// share. The snapshot's subscription is left to the caller.
pub open spec fn is_capture(scan: ShareScan, share: CapturedShare, shot: ShareSnapshot) -> bool {
    &&& snapshot::is_filtered(
        shot.items@,
        scan.all_items@,
        scan.collector.include_paths@,
        scan.collector.include_index@,
        excludes_of(scan.collector),
    )
    &&& shot.subscription_id@.len() == 0
    &&& share.short_key == scan.collector.short_key
    &&& share.shareid == scan.shareid
    &&& share.uk == scan.uk
    &&& share.share_uk == scan.collector.share_uk
    &&& share.bdstoken == scan.collector.bdstoken
    &&& share.password == scan.collector.password
    &&& share.randsk == scan.collector.randsk
    &&& share.kind == scan.collector.kind
}

/// A full page is never the end of a directory that is wanted as a whole: where nothing is picked
/// out, or the open directory is an include path or lies below one, the next page is asked for,
/// and the directory is done only with a page that is not full.
pub proof fn law_full_page_is_not_the_end(
    before: ShareScan,
    batch: Vec<SharedFileInfo>,
    after: ShareScan,
    r: Result<PageStep, ShareSyncError>,
)
    requires
        before.current is Some,
        is_page_taken(before, batch, after, r),
        before.collector.include_paths@ == Set::<Seq<char>>::empty() || exists|inc: Seq<char>|
            #[trigger]
            before.collector.include_paths@.contains(inc) && (inc == before.current->Some_0.path@
                || inc == seq!['/'] || inc.push('/').is_prefix_of(before.current->Some_0.path@)),
    ensures
        batch@.len() >= PAGE_SIZE && before.current->Some_0.page < MAX_PAGES ==> {
            &&& r matches Ok(PageStep::More { page }) && page == before.current->Some_0.page + 1
            &&& after.current matches Some(now) && now.dir == before.current->Some_0.dir
        },
        batch@.len() >= PAGE_SIZE ==> !(r matches Ok(PageStep::DirDone(_))),
        batch@.len() < PAGE_SIZE ==> r matches Ok(PageStep::DirDone(_)),
{
    snapshot::law_included_dirs_are_listed_to_their_end(
        before.collector.include_paths@,
        before.current->Some_0.path@,
        after.found@,
    );
}

/// A full page ends a directory only where it holds nothing more that is wanted: it is neither an
/// include path nor below one, and each include path below it was found.
pub proof fn law_dir_is_left_early_only_when_all_is_found(
    before: ShareScan,
    batch: Vec<SharedFileInfo>,
    after: ShareScan,
    r: Result<PageStep, ShareSyncError>,
)
    requires
        before.current is Some,
        is_page_taken(before, batch, after, r),
        r matches Ok(PageStep::DirDone(_)),
        batch@.len() >= PAGE_SIZE,
    ensures
        before.collector.include_paths@ != Set::<Seq<char>>::empty(),
        forall|inc: Seq<char>| #[trigger]
            before.collector.include_paths@.contains(inc) ==> {
                &&& inc != before.current->Some_0.path@
                &&& inc != seq!['/']
                &&& !inc.push('/').is_prefix_of(before.current->Some_0.path@)
                &&& (before.current->Some_0.path@ == seq!['/'] || before.current->Some_0.path@.push(
                    '/',
                ).is_prefix_of(inc)) ==> after.model().found.contains(inc)
            },
{
    let incs = before.collector.include_paths@;
    let dir = before.current->Some_0.path@;
    if incs == Set::<Seq<char>>::empty() || exists|inc: Seq<char>| #[trigger]
        incs.contains(inc) && (inc == dir || inc == seq!['/'] || inc.push('/').is_prefix_of(dir)) {
        law_full_page_is_not_the_end(before, batch, after, r);
    }
    snapshot::law_dir_is_left_once_all_is_found(incs, dir, after.found@);
}

/// Only a directory that was listed to its end is kept for later: its last page was not full, and
/// what is kept are all its pages.
pub proof fn law_only_whole_listings_are_kept(
    before: ShareScan,
    batch: Vec<SharedFileInfo>,
    after: ShareScan,
    r: Result<PageStep, ShareSyncError>,
    dir: Seq<char>,
)
    requires
        before.current is Some,
        is_page_taken(before, batch, after, r),
        before.cache is Some,
        after.cache is Some,
        after.cache->Some_0@.contains_key(dir),
    ensures
        !before.cache->Some_0@.contains_key(dir) ==> {
            &&& batch@.len() < PAGE_SIZE
            &&& dir == before.current->Some_0.dir@
            &&& after.cache->Some_0@[dir]@ == before.current->Some_0.collected@ + batch@
        },
        dir != before.current->Some_0.dir@ ==> before.cache->Some_0@.contains_key(dir)
            && after.cache->Some_0@[dir] == before.cache->Some_0@[dir],
{
    let old = before.cache->Some_0@;
    let now = after.cache->Some_0@;
    if r is Ok && r->Ok_0 is DirDone && ends_dir(before, batch, after) {
        assert(now.dom().contains(dir));
        if dir != before.current->Some_0.dir@ {
            assert(old.dom().contains(dir));
        }
    }
}

/// A directory that was listed to its end while listings were kept is not listed again by a scan
/// that still has them.
pub proof fn law_kept_listings_are_used(
    before: ShareScan,
    batch: Vec<SharedFileInfo>,
    after: ShareScan,
    done: Result<PageStep, ShareSyncError>,
    later: ShareScan,
    next: ShareScan,
    step: ScanStep,
)
    requires
        before.cache is Some,
        is_page_taken(before, batch, after, done),
        ends_dir(before, batch, after),
        later.cache is Some,
        after.cache->Some_0@.dom().subset_of(later.cache->Some_0@.dom()),
        is_opening(later, next, step),
        later.model().queue.len() > 0,
        later.model().queue[0] == before.current->Some_0.dir@,
    ensures
        !(step is List),
{
    assert(after.cache->Some_0@.dom().contains(before.current->Some_0.dir@));
}

// ---------------------------------------------------------------------------
// The whole walk
// ---------------------------------------------------------------------------
/// The scan has come here by taking in the entries `listed`, one after the other, and by taking
/// the directories `opened` from its queue: it holds what these entries give, and its queue holds
/// the directories that they brought and that were not taken yet.
pub open spec fn has_walked(
    scan: ShareScan,
    listed: Seq<FileView>,
    opened: Seq<Seq<char>>,
) -> bool {
    let all = absorb(nothing_yet(), listed, scan.rules());
    &&& opened.is_prefix_of(all.queue)
    &&& scan.model() == (ScanModel { queue: all.queue.skip(opened.len() as int), ..all })
}

/// The directory that the scan takes next from its queue, as a list.
pub open spec fn next_dir(scan: ShareScan) -> Seq<Seq<char>> {
    if scan.model().queue.len() == 0 {
        Seq::empty()
    } else {
        seq![scan.model().queue[0]]
    }
}

/// The entries that the scan has at once of the directory that it takes next: those of an earlier
/// listing, where it belongs to what is wanted and one was kept.
pub open spec fn next_kept(scan: ShareScan) -> Seq<FileView> {
    let dir = scan.model().queue[0];
    if scan.model().queue.len() > 0 && snapshot::dir_allowed(
        scan.collector.include_paths@,
        scan.collector.include_index@,
        dir_path(dir, scan.share_root@),
    ) && scan.cache is Some && scan.cache->Some_0@.contains_key(dir) {
        transfer::file_views(scan.cache->Some_0@[dir]@)
    } else {
        Seq::empty()
    }
}

/// A step of a walk.
pub enum WalkStep {
    /// The next directory was taken from the queue.
    Opened { to: ShareScan, step: ScanStep },
    /// A page of the open directory was taken in.
    Listed {
        batch: Vec<SharedFileInfo>,
        to: ShareScan,
        result: Result<PageStep, ShareSyncError>,
    },
}

/// Where the steps lead to.
pub open spec fn end_of(from: ShareScan, steps: Seq<WalkStep>) -> ShareScan {
    if steps.len() == 0 {
        from
    } else {
        match steps.last() {
            WalkStep::Opened { to, .. } => to,
            WalkStep::Listed { to, .. } => to,
        }
    }
}

/// The steps are those of a scan, each from where the one before it led to.
pub open spec fn is_walk(from: ShareScan, steps: Seq<WalkStep>) -> bool
    decreases steps.len(),
{
    steps.len() > 0 ==> {
        let before = end_of(from, steps.drop_last());
        &&& is_walk(from, steps.drop_last())
        &&& match steps.last() {
            WalkStep::Opened { to, step } => before.current is None && is_opening(
                before,
                to,
                step,
            ),
            WalkStep::Listed { batch, to, result } => before.current is Some && is_page_taken(
                before,
                batch,
                to,
                result,
            ),
        }
    }
}

/// All entries that were listed: those of the top directory, then what the steps brought.
pub open spec fn listed_by(
    root: Seq<FileView>,
    from: ShareScan,
    steps: Seq<WalkStep>,
) -> Seq<FileView>
    decreases steps.len(),
{
    if steps.len() == 0 {
        root
    } else {
        let front = steps.drop_last();
        listed_by(root, from, front) + match steps.last() {
            WalkStep::Opened { .. } => next_kept(end_of(from, front)),
            WalkStep::Listed { batch, .. } => transfer::file_views(batch@),
        }
    }
}

/// The directories that the steps took from the queue.
pub open spec fn opened_by(from: ShareScan, steps: Seq<WalkStep>) -> Seq<Seq<char>>
    decreases steps.len(),
{
    if steps.len() == 0 {
        Seq::empty()
    } else {
        let front = steps.drop_last();
        opened_by(from, front) + match steps.last() {
            WalkStep::Opened { .. } => next_dir(end_of(from, front)),
            WalkStep::Listed { .. } => Seq::empty(),
        }
    }
}

/// Taking in entries does not look at the queue: it only adds to it.
proof fn lemma_absorb_behind(
    st: ScanModel,
    done: Seq<Seq<char>>,
    files: Seq<FileView>,
    rules: ScanRules,
)
    ensures
        absorb((ScanModel { queue: done + st.queue, ..st }), files, rules) == (ScanModel {
            queue: done + absorb(st, files, rules).queue,
            ..absorb(st, files, rules)
        }),
    decreases files.len(),
{
    if files.len() > 0 {
        let front = files.drop_last();
        lemma_absorb_behind(st, done, front, rules);
        let mid = absorb(st, front, rules);
        let f = files.last();
        assert((done + mid.queue).push(f.path) =~= done + mid.queue.push(f.path));
    }
}

proof fn lemma_walk_takes_in(
    st: ScanModel,
    listed: Seq<FileView>,
    opened: Seq<Seq<char>>,
    files: Seq<FileView>,
    rules: ScanRules,
)
    requires
        ({
            let all = absorb(nothing_yet(), listed, rules);
            &&& opened.is_prefix_of(all.queue)
            &&& st == (ScanModel { queue: all.queue.skip(opened.len() as int), ..all })
        }),
    ensures
        ({
            let all = absorb(nothing_yet(), listed + files, rules);
            &&& opened.is_prefix_of(all.queue)
            &&& absorb(st, files, rules) == (ScanModel {
                queue: all.queue.skip(opened.len() as int),
                ..all
            })
        }),
{
    let before = absorb(nothing_yet(), listed, rules);
    let after = absorb(st, files, rules);
    let all = absorb(nothing_yet(), listed + files, rules);
    law_absorb_pages(nothing_yet(), listed, files, rules);
    assert(opened + st.queue =~= before.queue);
    assert((ScanModel { queue: opened + st.queue, ..st }) == before);
    lemma_absorb_behind(st, opened, files, rules);
    assert(all == (ScanModel { queue: opened + after.queue, ..after }));
    assert(all.queue.skip(opened.len() as int) =~= after.queue);
    assert(opened =~= all.queue.subrange(0, opened.len() as int));
}

/// A walk begins with the entries of the top directory.
pub proof fn law_walk_begins(
    scan: ShareScan,
    collector: SnapshotCollector,
    root_files: Seq<SharedFileInfo>,
    root_shareid: Seq<char>,
    root_uk: Seq<char>,
    cache: Option<ScanCache>,
)
    requires
        is_begun(scan, collector, root_files, root_shareid, root_uk, cache),
    ensures
        has_walked(scan, transfer::file_views(root_files), Seq::empty()),
{
    let all = absorb(nothing_yet(), transfer::file_views(root_files), scan.rules());
    assert(all.queue.skip(0) =~= all.queue);
    assert(Seq::<Seq<char>>::empty() =~= all.queue.subrange(0, 0));
}

/// A walk goes on with the next directory of its queue.
pub proof fn law_walk_opens(
    before: ShareScan,
    listed: Seq<FileView>,
    opened: Seq<Seq<char>>,
    after: ShareScan,
    step: ScanStep,
)
    requires
        has_walked(before, listed, opened),
        is_opening(before, after, step),
    ensures
        has_walked(after, listed + next_kept(before), opened + next_dir(before)),
{
    let all = absorb(nothing_yet(), listed, before.rules());
    let st = before.model();
    assert(after.rules() == before.rules());
    if st.queue.len() == 0 {
        assert(listed + next_kept(before) =~= listed);
        assert(opened + next_dir(before) =~= opened);
    } else {
        let now = opened + next_dir(before);
        let popped = ScanModel { queue: st.queue.skip(1), ..st };
        assert(st.queue[0] == all.queue[opened.len() as int]);
        assert(now =~= all.queue.subrange(0, now.len() as int)) by {
            assert forall|i: int| 0 <= i < opened.len() implies opened[i] == all.queue[i] by {
                assert(opened[i] == all.queue.subrange(0, opened.len() as int)[i]);
            }
        }
        assert(st.queue.skip(1) =~= all.queue.skip(now.len() as int));
        if step is Cached {
            lemma_walk_takes_in(popped, listed, now, next_kept(before), before.rules());
        } else {
            assert(listed + next_kept(before) =~= listed);
        }
    }
}

/// A walk takes in a page of the directory that is open.
pub proof fn law_walk_takes_a_page(
    before: ShareScan,
    listed: Seq<FileView>,
    opened: Seq<Seq<char>>,
    batch: Vec<SharedFileInfo>,
    after: ShareScan,
    step: Result<PageStep, ShareSyncError>,
)
    requires
        has_walked(before, listed, opened),
        is_page_taken(before, batch, after, step),
    ensures
        has_walked(after, listed + transfer::file_views(batch@), opened),
{
    assert(after.rules() == before.rules());
    lemma_walk_takes_in(
        before.model(),
        listed,
        opened,
        transfer::file_views(batch@),
        before.rules(),
    );
}

/// Some listed entry gives this item.
pub open spec fn is_listed_item(
    item: ItemView,
    listed: Seq<FileView>,
    share_root: Seq<char>,
) -> bool {
    exists|i: int| 0 <= i < listed.len() && item == entry_of(#[trigger] listed[i], share_root)
}

/// What was gathered is exactly what was listed: every listed entry is among the items, no path
/// and file id occurs twice, every item is a listed entry, and the directories that were queued
/// are those that were listed and that the rules let in.
pub open spec fn holds_exactly(st: ScanModel, listed: Seq<FileView>, rules: ScanRules) -> bool {
    &&& forall|i: int|
        0 <= i < listed.len() ==> has_item(
            st,
            entry_of(#[trigger] listed[i], rules.share_root).path,
            listed[i].fs_id,
        )
    &&& forall|a: int, b: int|
        0 <= a < b < st.items.len() ==> (#[trigger] st.items[a]).path != (
        #[trigger] st.items[b]).path || st.items[a].fs_id != st.items[b].fs_id
    &&& forall|j: int|
        0 <= j < st.items.len() ==> is_listed_item(#[trigger] st.items[j], listed, rules.share_root)
    &&& forall|dir: Seq<char>| #[trigger]
        st.queued.contains(dir) <==> exists|i: int|
            0 <= i < listed.len() && (#[trigger] listed[i]).is_dir && listed[i].path == dir
                && snapshot::dir_allowed(
                rules.includes,
                rules.index,
                entry_of(listed[i], rules.share_root).path,
            )
}

proof fn lemma_absorbed_items(listed: Seq<FileView>, rules: ScanRules)
    ensures
        ({
            let st = absorb(nothing_yet(), listed, rules);
            &&& forall|j: int|
                0 <= j < st.items.len() ==> is_listed_item(
                    #[trigger] st.items[j],
                    listed,
                    rules.share_root,
                ) && st.seen.contains((st.items[j].path, st.items[j].fs_id))
            &&& forall|a: int, b: int|
                0 <= a < b < st.items.len() ==> (#[trigger] st.items[a]).path != (
                #[trigger] st.items[b]).path || st.items[a].fs_id != st.items[b].fs_id
            &&& st.queue.to_set() == st.queued
        }),
    decreases listed.len(),
{
    let st = absorb(nothing_yet(), listed, rules);
    if listed.len() > 0 {
        let front = listed.drop_last();
        let f = listed.last();
        let mid = absorb(nothing_yet(), front, rules);
        lemma_absorbed_items(front, rules);
        assert forall|j: int| 0 <= j < st.items.len() implies is_listed_item(
            #[trigger] st.items[j],
            listed,
            rules.share_root,
        ) && st.seen.contains((st.items[j].path, st.items[j].fs_id)) by {
            if j < mid.items.len() {
                assert(st.items[j] == mid.items[j]);
                let i = choose|i: int|
                    0 <= i < front.len() && mid.items[j] == entry_of(
                        #[trigger] front[i],
                        rules.share_root,
                    );
                assert(listed[i] == front[i]);
            } else {
                assert(listed[listed.len() - 1] == f);
                assert(st.items[j] == entry_of(f, rules.share_root));
            }
        }
        assert forall|a: int, b: int| 0 <= a < b < st.items.len() implies (#[trigger] st.items[a]).path
            != (#[trigger] st.items[b]).path || st.items[a].fs_id != st.items[b].fs_id by {
            assert(st.items[a] == mid.items[a]);
            if b < mid.items.len() {
                assert(st.items[b] == mid.items[b]);
            }
        }
        crate::collections::lemma_push_to_set(mid.queue, f.path);
        assert(st.queue.to_set() =~= st.queued);
    } else {
        assert(st.queue.to_set() =~= st.queued);
    }
}

/// A walk has gathered exactly what was listed. Where its queue is empty, every directory that
/// was listed and that the rules let in has been opened.
pub proof fn law_walk_is_complete(
    scan: ShareScan,
    listed: Seq<FileView>,
    opened: Seq<Seq<char>>,
)
    requires
        has_walked(scan, listed, opened),
    ensures
        holds_exactly(scan.model(), listed, scan.rules()),
        scan.model().queue.len() == 0 ==> opened.to_set() == scan.model().queued,
{
    let rules = scan.rules();
    let all = absorb(nothing_yet(), listed, rules);
    let st = scan.model();
    lemma_absorbed_items(listed, rules);
    assert forall|i: int| 0 <= i < listed.len() implies has_item(
        st,
        entry_of(#[trigger] listed[i], rules.share_root).path,
        listed[i].fs_id,
    ) by {
        law_every_entry_is_gathered(listed, rules, i);
        let (path, fs_id) = (entry_of(listed[i], rules.share_root).path, listed[i].fs_id);
        let j = choose|j: int|
            0 <= j < all.items.len() && (#[trigger] all.items[j]).path == path
                && all.items[j].fs_id == fs_id;
        assert(st.items[j].path == path);
    }
    assert forall|dir: Seq<char>| #[trigger] st.queued.contains(dir) <==> exists|i: int|
        0 <= i < listed.len() && (#[trigger] listed[i]).is_dir && listed[i].path == dir
            && snapshot::dir_allowed(
            rules.includes,
            rules.index,
            entry_of(listed[i], rules.share_root).path,
        ) by {
        law_queued_dirs_are_allowed(nothing_yet(), listed, rules, dir);
    }
    if st.queue.len() == 0 {
        assert(opened.len() == all.queue.len());
        assert(opened =~= all.queue);
    }
}

/// From the top directory on, whatever steps a walk has made: it has gathered exactly what was
/// listed, and where its queue is empty, every directory that was listed and that the rules let
/// in has been opened.
pub proof fn law_whole_walk_is_complete(
    begun: ShareScan,
    collector: SnapshotCollector,
    root_files: Seq<SharedFileInfo>,
    root_shareid: Seq<char>,
    root_uk: Seq<char>,
    cache: Option<ScanCache>,
    steps: Seq<WalkStep>,
)
    requires
        is_begun(begun, collector, root_files, root_shareid, root_uk, cache),
        is_walk(begun, steps),
    ensures
        has_walked(
            end_of(begun, steps),
            listed_by(transfer::file_views(root_files), begun, steps),
            opened_by(begun, steps),
        ),
        holds_exactly(
            end_of(begun, steps).model(),
            listed_by(transfer::file_views(root_files), begun, steps),
            begun.rules(),
        ),
        end_of(begun, steps).model().queue.len() == 0 ==> opened_by(begun, steps).to_set()
            == end_of(begun, steps).model().queued,
        end_of(begun, steps).same_share(begun),
    decreases steps.len(),
{
    let root = transfer::file_views(root_files);
    if steps.len() == 0 {
        law_walk_begins(begun, collector, root_files, root_shareid, root_uk, cache);
    } else {
        let front = steps.drop_last();
        law_whole_walk_is_complete(
            begun,
            collector,
            root_files,
            root_shareid,
            root_uk,
            cache,
            front,
        );
        let before = end_of(begun, front);
        let listed = listed_by(root, begun, front);
        let opened = opened_by(begun, front);
        match steps.last() {
            WalkStep::Opened { to, step } => law_walk_opens(before, listed, opened, to, step),
            WalkStep::Listed { batch, to, result } => {
                law_walk_takes_a_page(before, listed, opened, batch, to, result);
                assert(opened_by(begun, steps) =~= opened);
            },
        }
    }
    law_walk_is_complete(
        end_of(begun, steps),
        listed_by(root, begun, steps),
        opened_by(begun, steps),
    );
}

proof fn lemma_walk_begins_with_walks(from: ShareScan, steps: Seq<WalkStep>, n: int)
    requires
        is_walk(from, steps),
        0 <= n <= steps.len(),
    ensures
        is_walk(from, steps.take(n)),
    decreases steps.len(),
{
    if n < steps.len() {
        lemma_walk_begins_with_walks(from, steps.drop_last(), n);
        assert(steps.drop_last().take(n) =~= steps.take(n));
    } else {
        assert(steps.take(n) =~= steps);
    }
}

/// Over a whole walk: every directory that ended, and is wanted as a whole, was listed until a
/// page was not full. Wanted as a whole are all directories where nothing is picked out, else
/// those that are an include path or lie below one.
pub proof fn law_walk_lists_wanted_dirs_to_their_end(
    begun: ShareScan,
    steps: Seq<WalkStep>,
    i: int,
)
    requires
        is_walk(begun, steps),
        0 <= i < steps.len(),
        steps[i] is Listed,
        steps[i]->result matches Ok(PageStep::DirDone(_)),
        ({
            let at = end_of(begun, steps.take(i));
            at.collector.include_paths@ == Set::<Seq<char>>::empty() || exists|inc: Seq<char>|
                #[trigger]
                at.collector.include_paths@.contains(inc) && (inc == at.current->Some_0.path@
                    || inc == seq!['/'] || inc.push('/').is_prefix_of(at.current->Some_0.path@))
        }),
    ensures
        steps[i]->batch@.len() < PAGE_SIZE,
{
    lemma_walk_begins_with_walks(begun, steps, i + 1);
    let here = steps.take(i + 1);
    assert(here.drop_last() =~= steps.take(i));
    assert(here.last() == steps[i]);
    law_full_page_is_not_the_end(
        end_of(begun, steps.take(i)),
        steps[i]->batch,
        steps[i]->Listed_to,
        steps[i]->result,
    );
}

/// How many of the directories belong to what is wanted.
pub open spec fn count_wanted(dirs: Seq<Seq<char>>, rules: ScanRules) -> nat
    decreases dirs.len(),
{
    if dirs.len() == 0 {
        0
    } else {
        count_wanted(dirs.drop_last(), rules) + if snapshot::dir_allowed(
            rules.includes,
            rules.index,
            dir_path(dirs.last(), rules.share_root),
        ) {
            1nat
        } else {
            0
        }
    }
}

/// No step of the walk has failed.
pub open spec fn none_failed(steps: Seq<WalkStep>) -> bool {
    forall|i: int|
        0 <= i < steps.len() ==> ((#[trigger] steps[i]) matches WalkStep::Listed { result, .. }
            ==> result is Ok)
}

/// Every directory that was taken from the queue and is wanted is done, or is the one that is
/// open. So where nothing is open, all of them are done.
pub proof fn law_taken_dirs_are_done(
    begun: ShareScan,
    collector: SnapshotCollector,
    root_files: Seq<SharedFileInfo>,
    root_shareid: Seq<char>,
    root_uk: Seq<char>,
    cache: Option<ScanCache>,
    steps: Seq<WalkStep>,
)
    requires
        is_begun(begun, collector, root_files, root_shareid, root_uk, cache),
        is_walk(begun, steps),
        none_failed(steps),
    ensures
        count_wanted(opened_by(begun, steps), begun.rules()) == end_of(begun, steps).dirs_done
            + if end_of(begun, steps).current is Some {
            1int
        } else {
            0
        },
        end_of(begun, steps).same_share(begun),
    decreases steps.len(),
{
    if steps.len() > 0 {
        let front = steps.drop_last();
        assert(none_failed(front)) by {
            assert forall|i: int| 0 <= i < front.len() implies ((
            #[trigger] front[i]) matches WalkStep::Listed { result, .. } ==> result is Ok) by {
                assert(front[i] == steps[i]);
            }
        }
        law_taken_dirs_are_done(
            begun,
            collector,
            root_files,
            root_shareid,
            root_uk,
            cache,
            front,
        );
        let before = end_of(begun, front);
        let taken = opened_by(begun, front);
        assert(steps[steps.len() - 1] == steps.last());
        match steps.last() {
            WalkStep::Opened { .. } => {
                if before.model().queue.len() == 0 {
                    assert(taken + next_dir(before) =~= taken);
                } else {
                    let dir = before.model().queue[0];
                    assert(taken + next_dir(before) =~= taken.push(dir));
                    assert(taken.push(dir).drop_last() =~= taken);
                }
            },
            WalkStep::Listed { .. } => {
                assert(opened_by(begun, steps) =~= taken);
            },
        }
    }
}

/// The item at a path with a file id is in the snapshot.
pub open spec fn in_snapshot(shot: ShareSnapshot, path: Seq<char>, fs_id: u64) -> bool {
    exists|k: int|
        0 <= k < shot.items@.len() && (#[trigger] shot.items@[k]).path@ == path
            && shot.items@[k].fs_id == fs_id
}

/// The snapshot holds what was listed, as far as it is wanted, and nothing else.
pub open spec fn is_whole_share(
    shot: ShareSnapshot,
    listed: Seq<FileView>,
    scan: ShareScan,
) -> bool {
    let inc = scan.collector.include_paths@;
    let index = scan.collector.include_index@;
    let exc = excludes_of(scan.collector);
    &&& forall|i: int|
        0 <= i < listed.len() && snapshot::item_allowed(
            inc,
            index,
            exc,
            entry_of(#[trigger] listed[i], scan.share_root@).path,
        ) ==> in_snapshot(shot, entry_of(listed[i], scan.share_root@).path, listed[i].fs_id)
    &&& forall|k: int|
        0 <= k < shot.items@.len() ==> snapshot::item_allowed(
            inc,
            index,
            exc,
            (#[trigger] shot.items@[k]).path@,
        ) && is_listed_item(
            (ItemView { subtree_pruned: false, ..shot.items@[k]@ }),
            listed,
            scan.share_root@,
        )
}

/// The snapshot that a walk ends with is the whole share, as far as it is wanted: every entry that
/// was listed and belongs to the snapshot is in it, and nothing is in it that was not listed or
/// does not belong to it.
pub proof fn law_snapshot_is_the_whole_share(
    scan: ShareScan,
    listed: Seq<FileView>,
    opened: Seq<Seq<char>>,
    share: CapturedShare,
    shot: ShareSnapshot,
)
    requires
        has_walked(scan, listed, opened),
        is_capture(scan, share, shot),
    ensures
        is_whole_share(shot, listed, scan),
{
    let inc = scan.collector.include_paths@;
    let index = scan.collector.include_index@;
    let exc = excludes_of(scan.collector);
    let items = scan.all_items@;
    let st = scan.model();
    let r = shot.items@;
    law_walk_is_complete(scan, listed, opened);
    snapshot::law_filter_keeps_allowed_entries(r, items, inc, index, exc);
    assert forall|i: int|
        0 <= i < listed.len() && snapshot::item_allowed(
            inc,
            index,
            exc,
            entry_of(#[trigger] listed[i], scan.share_root@).path,
        ) implies in_snapshot(
        shot,
        entry_of(listed[i], scan.share_root@).path,
        listed[i].fs_id,
    ) by {
        let (path, fs_id) = (entry_of(listed[i], scan.share_root@).path, listed[i].fs_id);
        assert(has_item(st, path, fs_id));
        let j = choose|j: int|
            0 <= j < st.items.len() && (#[trigger] st.items[j]).path == path
                && st.items[j].fs_id == fs_id;
        assert(st.items[j] == items[j]@);
        assert(snapshot::item_allowed(inc, index, exc, items[j].path@));
        assert(snapshot::some_kept_from(snapshot::item_views(r), items, inc, index, exc, j));
        let k = choose|k: int|
            0 <= k < snapshot::item_views(r).len() && #[trigger] snapshot::kept_from(
                snapshot::item_views(r)[k],
                items,
                inc,
                index,
                exc,
                j,
            );
        assert(snapshot::item_views(r)[k] == r[k]@);
        assert(r[k].path@ == path);
    }
    assert forall|k: int| 0 <= k < r.len() implies snapshot::item_allowed(
        inc,
        index,
        exc,
        (#[trigger] r[k]).path@,
    ) && is_listed_item(
        (ItemView { subtree_pruned: false, ..r[k]@ }),
        listed,
        scan.share_root@,
    ) by {
        assert(snapshot::kept_from_some(r[k]@, items, inc, index, exc, items.len() as int));
        let i = choose|i: int|
            0 <= i < items.len() && #[trigger] snapshot::kept_from(
                r[k]@,
                items,
                inc,
                index,
                exc,
                i,
            );
        assert(st.items[i] == items[i]@);
        assert(is_listed_item(st.items[i], listed, scan.share_root@));
        let m = choose|m: int|
            0 <= m < listed.len() && st.items[i] == entry_of(
                #[trigger] listed[m],
                scan.share_root@,
            );
        assert((ItemView { subtree_pruned: false, ..r[k]@ }) == entry_of(
            listed[m],
            scan.share_root@,
        ));
    }
}

impl ShareScan {
    /// What the scan has gathered.
    pub open spec fn model(&self) -> ScanModel {
        model_of(
            self.all_items@,
            self.seen@,
            self.queued_dirs@,
            self.queue@,
            self.found@,
            self.files_seen,
        )
    }

    /// The rules of the scan.
    pub open spec fn rules(&self) -> ScanRules {
        ScanRules {
            share_root: self.share_root@,
            includes: self.collector.include_paths@,
            index: self.collector.include_index@,
        }
    }

    /// Every directory that was queued is done, left out, waiting or being listed, so the
    /// counts stay in range.
    pub open spec fn wf(&self) -> bool {
        &&& self.files_seen <= self.all_items@.len()
        &&& self.cached_hits <= self.dirs_done
        &&& self.queued_dirs@.finite()
        &&& self.dirs_done + self.queue@.len() + (if self.current is Some {
            1int
        } else {
            0
        }) <= self.queued_dirs@.len()
        &&& self.current matches Some(cursor) ==> 1 <= cursor.page <= MAX_PAGES
    }

    /// What does not change while the scan goes on.
    pub open spec fn same_share(&self, other: ShareScan) -> bool {
        &&& self.collector == other.collector
        &&& self.share_root == other.share_root
        &&& self.shareid == other.shareid
        &&& self.uk == other.uk
    }

    /// How far the scan has come.
    pub open spec fn is_progress(&self, p: ScanProgress, dir: Seq<char>) -> bool {
        &&& p.dirs_done == self.dirs_done
        &&& p.dirs_pending == self.queue@.len()
        &&& p.files_seen == self.files_seen
        &&& p.current_dir@ == dir
        &&& p.cached_hits == self.cached_hits
    }

    /// How far the scan has come, in the directory at `dir`.
    pub fn progress(&self, dir: &str) -> (r: ScanProgress)
        ensures
            self.is_progress(r, dir@),
    {
        ScanProgress {
            dirs_done: self.dirs_done,
            dirs_pending: self.queue.len(),
            files_seen: self.files_seen,
            current_dir: dir.to_owned(),
            cached_hits: self.cached_hits,
        }
    }

    /// Begins a scan with the top directory of the share, all of its pages: the common parent of
    /// its entries is the root of the share, the include paths are brought to names relative to
    /// it, and the entries are taken in. Share id and user key are the listing's, where it has
    /// them.
    pub fn begin(
        collector: SnapshotCollector,
        root: ShareFileListResult,
        cache: Option<ScanCache>,
    ) -> (r: ShareScan)
        ensures
            r.wf(),
            is_begun(r, collector, root.files@, root.shareid@, root.uk@, cache),
    {
        let share_root = infer_share_root(root.files.as_slice());
        let shareid = if root.shareid.as_str().is_empty() {
            collector.shareid.clone()
        } else {
            root.shareid
        };
        let uk = if root.uk.as_str().is_empty() {
            collector.uk.clone()
        } else {
            root.uk
        };
        let mut collector = collector;
        let ghost wanted = collector.include_paths@;
        if !collector.include_paths.is_empty() {
            let includes = remap_includes(&collector.include_paths, share_root.as_str());
            collector.include_index = build_include_index(&includes);
            collector.include_paths = includes;
        } else {
            assert(remapped(wanted, share_root@) =~= Set::<Seq<char>>::empty());
        }
        let mut scan = ShareScan {
            collector,
            share_root,
            shareid,
            uk,
            all_items: Vec::new(),
            seen: SeenItems::new(),
            queued_dirs: PathSet::new(),
            queue: VecDeque::new(),
            found: PathSet::new(),
            files_seen: 0,
            dirs_done: 0,
            cached_hits: 0,
            cache,
            current: None,
        };
        proof {
            assert(scan.model() =~= nothing_yet());
        }
        scan.take_in(root.files);
        scan
    }

    /// Takes in listed entries.
    fn take_in(&mut self, entries: Vec<SharedFileInfo>)
        requires
            old(self).wf(),
        ensures
            final(self).wf(),
            final(self).same_share(*old(self)),
            final(self).model() == absorb(
                old(self).model(),
                transfer::file_views(entries@),
                old(self).rules(),
            ),
            final(self).dirs_done == old(self).dirs_done,
            final(self).cached_hits == old(self).cached_hits,
            final(self).cache == old(self).cache,
            final(self).current == old(self).current,
            final(self).queued_dirs@.len() - final(self).queue@.len() == old(
                self,
            ).queued_dirs@.len() - old(self).queue@.len(),
    {
        let ghost files = transfer::file_views(entries@);
        proof {
            lemma_queue_and_queued(self.model(), files, self.rules());
        }
        absorb_entries(
            entries,
            self.share_root.as_str(),
            &self.collector.include_paths,
            &self.collector.include_index,
            &mut self.all_items,
            &mut self.seen,
            &mut self.queued_dirs,
            &mut self.queue,
            &mut self.found,
            &mut self.files_seen,
        );
        proof {
            assert(text::texts(self.queue@).len() == self.queue@.len());
            assert(text::texts(old(self).queue@).len() == old(self).queue@.len());
        }
    }

    /// Goes on to the next directory: one outside the include paths is left out, one that
    /// is cached is taken in at once, any other is to be listed from its first page.
    pub fn open_next(&mut self) -> (r: ScanStep)
        requires
            old(self).wf(),
            old(self).current is None,
        ensures
            final(self).wf(),
            is_opening(*old(self), *final(self), r),
    {
        if self.queue.len() == 0 {
            return ScanStep::Finished;
        }
        let bound: usize = self.queued_dirs.len();
        let dir = match self.queue.pop_front() {
            None => {
                return ScanStep::Finished;
            },
            Some(dir) => dir,
        };
        proof {
            assert(text::texts(self.queue@) =~= text::texts(old(self).queue@).skip(1));
        }
        let name = last_segment(dir.as_str());
        let path = normalize_share_path(dir.as_str(), name.as_str(), self.share_root.as_str());
        if !self.collector.dir_allowed(path.as_str()) {
            return ScanStep::Skipped;
        }
        let hit = match &self.cache {
            Some(cache) => cache.get(dir.as_str()),
            None => None,
        };
        match hit {
            Some(files) => {
                self.cached_hits += 1;
                self.dirs_done += 1;
                self.take_in(files);
                let p = self.progress(path.as_str());
                ScanStep::Cached(p)
            },
            None => {
                let cursor = DirCursor {
                    dir: dir.clone(),
                    path,
                    page: 1,
                    collected: Vec::new(),
                };
                self.current = Some(cursor);
                ScanStep::List { dir, page: 1 }
            },
        }
    }

    /// Takes in a listed page of the directory that is open.
    ///
    /// An empty page ends the directory. So does a page after which nothing that is wanted
    /// can follow, and a page that is not full. A directory is cached only when it was
    /// listed to the end. A directory of too many pages is an error.
    pub fn page_listed(&mut self, batch: Vec<SharedFileInfo>) -> (r: Result<
        PageStep,
        ShareSyncError,
    >)
        requires
            old(self).wf(),
            old(self).current is Some,
        ensures
            is_page_taken(*old(self), batch, *final(self), r),
            !(r is Err) ==> final(self).wf(),
    {
        let bound: usize = self.queued_dirs.len();
        let mut cursor = match self.current.take() {
            Some(cursor) => cursor,
            None => {
                return Err(ShareSyncError::Internal(String::new()));
            },
        };
        let batch_len: usize = batch.len();
        if self.cache.is_some() {
            let mut copy = copy_files(&batch);
            cursor.collected.append(&mut copy);
        }
        self.take_in(batch);
        let more = batch_len == 0 || dir_needs_more_pages(
            &self.collector.include_paths,
            cursor.path.as_str(),
            &self.found,
        );
        if !more || batch_len < PAGE_SIZE {
            if more {
                match self.cache.take() {
                    Some(mut cache) => {
                        let ghost before = cache@;
                        cache.put(cursor.dir.clone(), cursor.collected);
                        assert(cache@.dom() =~= before.dom().insert(cursor.dir@));
                        self.cache = Some(cache);
                    },
                    None => {},
                }
            }
            self.dirs_done += 1;
            let p = self.progress(cursor.path.as_str());
            return Ok(PageStep::DirDone(p));
        }
        if cursor.page == MAX_PAGES {
            return Err(too_many_pages());
        }
        cursor.page += 1;
        let page: u32 = cursor.page;
        self.current = Some(cursor);
        Ok(PageStep::More { page })
    }

    /// The snapshot of what was gathered, and what later copying needs of the share. The
    /// snapshot's subscription is left to the caller.
    pub fn finish(self) -> (r: (CapturedShare, ShareSnapshot))
        ensures
            is_capture(self, r.0, r.1),
    {
        proof {
            reveal_strlit("");
        }
        let filtered = filter_and_mark_pruned(
            self.all_items,
            &self.collector.include_paths,
            &self.collector.include_index,
            self.collector.exclude_set.as_ref(),
        );
        let captured = CapturedShare {
            short_key: self.collector.short_key,
            shareid: self.shareid,
            uk: self.uk,
            share_uk: self.collector.share_uk,
            bdstoken: self.collector.bdstoken,
            password: self.collector.password,
            randsk: self.collector.randsk,
            kind: self.collector.kind,
        };
        (captured, ShareSnapshot::with_items("", filtered))
    }
}

/// Taking in entries queues as many directories as it notes as queued.
proof fn lemma_queue_and_queued(st: ScanModel, files: Seq<FileView>, rules: ScanRules)
    requires
        st.queued.finite(),
    ensures
        absorb(st, files, rules).queued.finite(),
        absorb(st, files, rules).queued.len() - st.queued.len() == absorb(
            st,
            files,
            rules,
        ).queue.len() - st.queue.len(),
    decreases files.len(),
{
    if files.len() > 0 {
        lemma_queue_and_queued(st, files.drop_last(), rules);
    }
}

/// The include paths relative to the root of the share.
fn remap_includes(include_paths: &PathSet, share_root: &str) -> (r: PathSet)
    ensures
        r@ == remapped(include_paths@, share_root@),
{
    let list = include_paths.items();
    let ghost tl = text::texts(list@);
    let mut r = PathSet::new();
    let mut i: usize = 0;
    while i < list.len()
        invariant
            i <= list@.len(),
            tl == text::texts(list@),
            tl.to_set() == include_paths@,
            forall|p: Seq<char>| #[trigger]
                r@.contains(p) <==> exists|k: int|
                    0 <= k < i && p == paths::include_path(#[trigger] tl[k], share_root@),
        decreases list@.len() - i,
    {
        let ghost before = r@;
        r.insert(remap_include_to_share_root(list[i].as_str(), share_root));
        proof {
            assert forall|p: Seq<char>| #[trigger] r@.contains(p) <==> exists|k: int|
                0 <= k < i + 1 && p == paths::include_path(#[trigger] tl[k], share_root@) by {
                if before.contains(p) {
                    let k = choose|k: int|
                        0 <= k < i && p == paths::include_path(#[trigger] tl[k], share_root@);
                    assert(0 <= k < i + 1);
                }
                if p == paths::include_path(tl[i as int], share_root@) {
                    assert(0 <= i < i + 1);
                }
            }
        }
        i += 1;
    }
    proof {
        assert forall|p: Seq<char>| r@.contains(p) == remapped(
            include_paths@,
            share_root@,
        ).contains(p) by {
            if r@.contains(p) {
                let k = choose|k: int|
                    0 <= k < i && p == paths::include_path(#[trigger] tl[k], share_root@);
                assert(tl.contains(tl[k]));
                assert(include_paths@.contains(tl[k]));
            }
            if remapped(include_paths@, share_root@).contains(p) {
                let inc = choose|inc: Seq<char>| #[trigger]
                    include_paths@.contains(inc) && p == paths::include_path(inc, share_root@);
                assert(tl.to_set().contains(inc));
                let k = choose|k: int| 0 <= k < tl.len() && tl[k] == inc;
                assert(p == paths::include_path(tl[k], share_root@));
            }
        }
        assert(r@ =~= remapped(include_paths@, share_root@));
    }
    r
}

/// What is noted as found are the include paths at which a file was listed.
pub proof fn law_found_are_the_listed_files(listed: Seq<FileView>, rules: ScanRules, p: Seq<char>)
    ensures
        absorb(nothing_yet(), listed, rules).found.contains(p) <==> rules.includes.contains(p)
            && exists|i: int|
            0 <= i < listed.len() && !(#[trigger] listed[i]).is_dir && paths::share_path(
                listed[i].path,
                listed[i].name,
                rules.share_root,
            ) == p,
    decreases listed.len(),
{
    if listed.len() > 0 {
        let front = listed.drop_last();
        law_found_are_the_listed_files(front, rules, p);
        let f = listed.last();
        assert(listed[listed.len() - 1] == f);
        let at = |x: FileView|
            !x.is_dir && paths::share_path(x.path, x.name, rules.share_root) == p;
        if exists|i: int| 0 <= i < front.len() && at(#[trigger] front[i]) {
            let i = choose|i: int| 0 <= i < front.len() && at(#[trigger] front[i]);
            assert(listed[i] == front[i]);
        }
        if exists|i: int| 0 <= i < listed.len() && at(#[trigger] listed[i]) {
            let i = choose|i: int| 0 <= i < listed.len() && at(#[trigger] listed[i]);
            if i < front.len() {
                assert(front[i] == listed[i]);
            }
        }
    }
}

/// What a listed file becomes: an entry with its id, size, name and kind, with the path that the
/// service gave beside the one below the root of the share, and unmarked.
pub proof fn law_entry_keeps_the_file(f: FileView, share_root: Seq<char>)
    ensures
        entry_of(f, share_root).fs_id == f.fs_id,
        entry_of(f, share_root).size == f.size,
        entry_of(f, share_root).name == f.name,
        entry_of(f, share_root).is_dir == f.is_dir,
        entry_of(f, share_root).raw_path == f.path,
        entry_of(f, share_root).path == paths::share_path(f.path, f.name, share_root),
        !entry_of(f, share_root).subtree_pruned,
{
}

/// The first delay is the base, and each further one is twice the one before, until no more fits.
pub proof fn law_delays_double(base_ms: u64, attempt: nat)
    ensures
        backoff(base_ms, 0) == base_ms,
        backoff(base_ms, attempt + 1) == if 2 * backoff(base_ms, attempt) > u64::MAX {
            u64::MAX as nat
        } else {
            2 * backoff(base_ms, attempt)
        },
{
    let b = base_ms as nat;
    let p = power_of_two(attempt);
    assert(power_of_two(0) == 1);
    assert(b * 1 == b) by (nonlinear_arith);
    assert(power_of_two(attempt + 1) == 2 * p);
    assert(b * (2 * p) == 2 * (b * p)) by (nonlinear_arith);
}

/// A directory that is opened is listed from its first page on, as itself, in the order in which
/// the directories were queued.
pub proof fn law_dirs_are_opened_in_their_order(before: ShareScan, after: ShareScan, step: ScanStep)
    requires
        is_opening(before, after, step),
    ensures
        step is Finished <==> before.queue@.len() == 0,
        step matches ScanStep::List { dir, page } ==> {
            &&& before.queue@.len() > 0
            &&& dir@ == before.queue@[0]@
            &&& page == 1
            &&& after.current matches Some(c) && c.dir@ == dir@ && c.page == 1
                && c.collected@.len() == 0 && c.path@ == paths::share_path(
                dir@,
                paths::after_last_slash(dir@),
                before.share_root@,
            )
        },
        before.queue@.len() > 0 && !(step matches ScanStep::Cached(_)) ==> text::texts(after.queue@)
            == text::texts(before.queue@).skip(1),
        step matches ScanStep::Cached(_) ==> text::texts(before.queue@).skip(1).is_prefix_of(
            text::texts(after.queue@),
        ),
{
    if before.queue@.len() > 0 {
        let st = before.model();
        assert(st.queue[0] == before.queue@[0]@);
        assert(after.model().queue == text::texts(after.queue@));
        if step is Cached {
            let popped = ScanModel { queue: st.queue.skip(1), ..st };
            lemma_absorb_keeps_queue(
                popped,
                transfer::file_views(before.cache->Some_0@[st.queue[0]]@),
                before.rules(),
            );
        }
    }
}

proof fn lemma_absorb_keeps_queue(st: ScanModel, files: Seq<FileView>, rules: ScanRules)
    ensures
        st.queue.is_prefix_of(absorb(st, files, rules).queue),
    decreases files.len(),
{
    if files.len() > 0 {
        let front = files.drop_last();
        lemma_absorb_keeps_queue(st, front, rules);
        let mid = absorb(st, front, rules).queue;
        let now = absorb(st, files, rules).queue;
        assert(mid.take(st.queue.len() as int) =~= st.queue);
        assert(now.take(st.queue.len() as int) =~= mid.take(st.queue.len() as int));
    } else {
        assert(st.queue.take(st.queue.len() as int) =~= st.queue);
    }
}

/// What is wanted of a share is what its order says: each include path that is plainly written is
/// among the include paths, nothing else than the paths given is, and the exclude globs are those
/// of the order.
pub proof fn law_collector_wants_what_is_ordered(
    c: SnapshotCollector,
    link: ShareLink,
    page: SharePageInfo,
    password: Option<String>,
    randsk: Option<String>,
    includes: Seq<Seq<char>>,
    excludes: Seq<Seq<char>>,
    i: int,
    p: Seq<char>,
)
    requires
        is_collector(c, link, page, password, randsk, includes, excludes),
    ensures
        0 <= i < includes.len() && paths::is_plain(includes[i]) ==> c.include_paths@.contains(
            includes[i],
        ),
        includes.len() == 0 ==> c.include_paths@ == Set::<Seq<char>>::empty(),
        c.include_paths@.contains(p) ==> exists|k: int|
            0 <= k < includes.len() && paths::normal_path(#[trigger] includes[k]) == Some(p),
        c.exclude_set matches Some(set) ==> set@ == excludes,
        excludes.len() == 0 ==> c.exclude_set is None,
        c.shareid == page.shareid && c.uk == page.uk && c.share_uk == page.share_uk && c.bdstoken
            == page.bdstoken,
        c.password == password && c.randsk == randsk && c.short_key == link.short_key && c.kind
            == link.kind,
{
    if 0 <= i < includes.len() && paths::is_plain(includes[i]) {
        paths::law_normal_path_is_plainly_written(includes[i]);
        assert(paths::normal_path(includes[i]) == Some(includes[i]));
    }
    if includes.len() == 0 {
        assert(c.include_paths@ =~= Set::<Seq<char>>::empty());
    }
}

/// An include path below the root of the share is brought to its name below it; one that does not
/// lie below it stays.
pub proof fn law_include_paths_are_brought_below_the_root(
    includes: Set<Seq<char>>,
    root: Seq<char>,
    rest: Seq<char>,
    p: Seq<char>,
)
    requires
        root.len() > 0,
        rest.len() > 0,
        !text::is_space(rest[0]),
        paths::is_plain(seq!['/'] + rest),
        paths::is_plain(root.push('/') + rest),
        paths::without_sharelink(root.push('/') + rest) == root.push('/') + rest,
        paths::is_plain(p),
        !text::is_space(p[1]),
        p != root,
        !root.push('/').is_prefix_of(p),
        paths::without_sharelink(p) == p,
    ensures
        includes.contains(root.push('/') + rest) ==> remapped(includes, root).contains(
            seq!['/'] + rest,
        ),
        includes.contains(p) ==> remapped(includes, root).contains(p),
        remapped(Set::empty(), root) == Set::<Seq<char>>::empty(),
{
    let inc = root.push('/') + rest;
    paths::law_entry_is_named_below_the_root(root, rest, paths::after_last_slash(inc));
    assert(inc[root.len() as int] == '/');
    paths::lemma_plain_beginning(inc, root.len() as int);
    assert(inc.take(root.len() as int) =~= root);
    paths::law_path_beside_the_root_stays(p, root, paths::after_last_slash(p));
    assert(paths::include_path(inc, root) == seq!['/'] + rest);
    assert(paths::include_path(p, root) == p);
    assert(remapped(Set::empty(), root) =~= Set::<Seq<char>>::empty());
}

/// What was captured is handed on with the snapshot: the share's keys, its password and its token.
pub proof fn law_capture_hands_on_the_share(
    scan: ShareScan,
    share: CapturedShare,
    shot: ShareSnapshot,
)
    requires
        is_capture(scan, share, shot),
    ensures
        share.shareid == scan.shareid,
        share.uk == scan.uk,
        share.share_uk == scan.collector.share_uk,
        share.bdstoken == scan.collector.bdstoken,
        share.password == scan.collector.password,
        share.randsk == scan.collector.randsk,
        share.short_key == scan.collector.short_key,
        share.kind == scan.collector.kind,
{
}

/// Progress is told as it is: how many directories are done and how many still wait, how many
/// files were seen, and how many listings were not asked for again.
pub proof fn law_progress_is_told_as_it_is(scan: ShareScan, p: ScanProgress, dir: Seq<char>)
    requires
        scan.is_progress(p, dir),
    ensures
        p.dirs_done == scan.dirs_done,
        p.dirs_pending == scan.queue@.len(),
        p.files_seen == scan.files_seen,
        p.cached_hits == scan.cached_hits,
        p.current_dir@ == dir,
{
}

} // verus!
