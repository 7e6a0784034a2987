//! Answers about folder downloads, and the list of all downloads.
use vstd::prelude::*;

use crate::collections::{lemma_push_to_set, PathSet};
use crate::downloader::task;
use crate::downloader::task::{DownloadTask, FolderDownload, TaskStatus};
use crate::server::cloud_sync::ApiResponse;
use crate::sorting;
use crate::sorting::{order_of, Keyed};
use crate::text;
use crate::text::same;
use crate::transfer::DownloadConflictStrategy;

verus! {

/// The request is not from somebody who is logged in.
pub const UNAUTHORIZED: u16 = 401;

/// What the request names is not there.
pub const NOT_FOUND: u16 = 404;

/// The request failed.
pub const INTERNAL_SERVER_ERROR: u16 = 500;

// ---------------------------------------------------------------------------
// Single folders
// ---------------------------------------------------------------------------
/// A request for the download of a folder.
#[derive(Debug)]
pub struct CreateFolderDownloadRequest {
    pub path: String,
    pub original_name: Option<String>,
    pub conflict_strategy: Option<DownloadConflictStrategy>,
    pub uid: Option<u64>,
}

/// Whether the files of a folder download shall be deleted with it.
#[derive(Debug)]
pub struct DeleteFolderQuery {
    pub delete_files: bool,
}

/// A folder download that is to be made.
#[derive(Debug)]
pub struct FolderDownloadPlan {
    pub path: String,
    pub original_name: Option<String>,
    pub conflict_strategy: DownloadConflictStrategy,
    pub uid: u64,
}

/// The account that a folder is downloaded for: the one that is named, or else the active one.
pub fn effective_uid(explicit: Option<u64>, active: Option<u64>) -> (r: Result<u64, u16>)
    ensures
        r == match explicit {
            Some(u) => Ok::<u64, u16>(u),
            None => match active {
                Some(u) => Ok(u),
                None => Err(UNAUTHORIZED),
            },
        },
{
    match explicit {
        Some(u) => Ok(u),
        None => match active {
            Some(u) => Ok(u),
            None => Err(UNAUTHORIZED),
        },
    }
}

/// The folder download that a request asks for, where the account `uid` is known.
pub fn plan_folder_download(
    req: CreateFolderDownloadRequest,
    default_strategy: DownloadConflictStrategy,
    uid: u64,
    known: bool,
) -> (r: Result<FolderDownloadPlan, u16>)
    ensures
        r == if known {
            Ok::<FolderDownloadPlan, u16>(
                FolderDownloadPlan {
                    path: req.path,
                    original_name: req.original_name,
                    conflict_strategy: match req.conflict_strategy {
                        Some(s) => s,
                        None => default_strategy,
                    },
                    uid,
                },
            )
        } else {
            Err(NOT_FOUND)
        },
{
    if !known {
        return Err(NOT_FOUND);
    }
    let conflict_strategy = match req.conflict_strategy {
        Some(s) => s,
        None => default_strategy,
    };
    Ok(
        FolderDownloadPlan {
            path: req.path,
            original_name: req.original_name,
            conflict_strategy,
            uid,
        },
    )
}

/// The answer with what was done; a failure is answered with no more than its status.
pub fn done<T>(result: Result<T, String>) -> (r: Result<ApiResponse<T>, u16>)
    ensures
        match (result, r) {
            (Ok(data), Ok(a)) => a == (ApiResponse { success: true, data, error: None }),
            (Err(_), Err(s)) => s == INTERNAL_SERVER_ERROR,
            _ => false,
        },
{
    match result {
        Ok(data) => Ok(ApiResponse::success(data)),
        Err(_) => Err(INTERNAL_SERVER_ERROR),
    }
}

/// The answer with what was asked for, if it is there.
pub fn found<T>(result: Option<T>) -> (r: Result<ApiResponse<T>, u16>)
    ensures
        match (result, r) {
            (Some(data), Ok(a)) => a == (ApiResponse { success: true, data, error: None }),
            (None, Err(s)) => s == NOT_FOUND,
            _ => false,
        },
{
    match result {
        Some(data) => Ok(ApiResponse::success(data)),
        None => Err(NOT_FOUND),
    }
}

/// Something that can be done with a folder download.
#[derive(Debug, Clone, Copy, PartialEq, Eq, Structural)]
pub enum FolderCommand {
    Pause,
    Resume,
    Cancel,
}

/// What is said when a command was carried out.
pub open spec fn carried_out(command: FolderCommand) -> Seq<char> {
    match command {
        FolderCommand::Pause => "已暂停"@,
        FolderCommand::Resume => "已恢复"@,
        FolderCommand::Cancel => "已取消"@,
    }
}

/// The answer to a command.
pub fn command_reply(command: FolderCommand, result: Result<(), String>) -> (r: Result<
    ApiResponse<String>,
    u16,
>)
    ensures
        match (result, r) {
            (Ok(_), Ok(a)) => a.success && a.error is None && a.data@ == carried_out(command),
            (Err(_), Err(s)) => s == INTERNAL_SERVER_ERROR,
            _ => false,
        },
{
    match result {
        Ok(_) => {
            let said = match command {
                FolderCommand::Pause => "已暂停",
                FolderCommand::Resume => "已恢复",
                FolderCommand::Cancel => "已取消",
            };
            Ok(ApiResponse::success(said.to_owned()))
        },
        Err(_) => Err(INTERNAL_SERVER_ERROR),
    }
}

/// The folder download is shown: it is not one that another part of the program made.
pub open spec fn is_shown(f: FolderDownload) -> bool {
    f.backup_config_id is None
}

/// The folder downloads that are shown.
pub fn get_all_folder_downloads(folders: Vec<FolderDownload>) -> (r: Vec<FolderDownload>)
    ensures
        r@ == folders@.filter(|f: FolderDownload| is_shown(f)),
{
    assert((|f: FolderDownload| is_listed(f, None)) =~= (|f: FolderDownload| is_shown(f)));
    listed_folders(folders, None)
}

// ---------------------------------------------------------------------------
// All downloads
// ---------------------------------------------------------------------------
/// A download of a file, or of a folder.
pub enum DownloadItem {
    File { task: DownloadTask },
    Folder {
        folder: FolderDownload,
        /// The bytes per second of all files of the folder.
        speed: u64,
        /// The files that are done.
        completed_files: u64,
    },
}

impl DownloadItem {
    /// When the download was made, in seconds since the Unix epoch.
    pub open spec fn time(self) -> i64 {
        match self {
            DownloadItem::File { task } => task.created_at,
            DownloadItem::Folder { folder, .. } => folder.created_at,
        }
    }

    /// When the download was made, in seconds since the Unix epoch.
    pub fn created_at(&self) -> (r: i64)
        ensures
            r == self.time(),
    {
        match self {
            DownloadItem::File { task } => task.created_at,
            DownloadItem::Folder { folder, .. } => folder.created_at,
        }
    }
}

/// When a download was made: the latest come first.
#[derive(Debug, Clone, Copy)]
pub struct MadeAt {
    pub secs: i64,
}

impl Keyed for MadeAt {
    open spec fn key(&self) -> Seq<int> {
        seq![-(self.secs as int)]
    }

    fn before(&self, other: &Self) -> (r: bool) {
        proof {
            reveal_with_fuel(sorting::lex_lt, 3);
            assert(self.key().skip(1) =~= Seq::<int>::empty());
            assert(other.key().skip(1) =~= Seq::<int>::empty());
        }
        self.secs > other.secs
    }

    fn dup(&self) -> (r: Self) {
        MadeAt { secs: self.secs }
    }
}

/// When downloads were made.
pub open spec fn times(items: Seq<DownloadItem>) -> Seq<MadeAt> {
    items.map_values(|i: DownloadItem| MadeAt { secs: i.time() })
}

/// `r` are the items with the latest first, those of the same second in the order they had.
pub open spec fn latest_first(r: Seq<DownloadItem>, items: Seq<DownloadItem>) -> bool {
    exists|order: Seq<int>| #[trigger]
        sorting::is_order(order, times(items), 0, items.len() as int) && r == sorting::reordered(
            items,
            order,
        )
}

fn sort_latest_first(items: Vec<DownloadItem>) -> (r: Vec<DownloadItem>)
    ensures
        latest_first(r@, items@),
{
    let mut keys: Vec<MadeAt> = Vec::new();
    let mut i: usize = 0;
    let ghost given = items@;
    while i < items.len()
        invariant
            i <= items@.len(),
            keys@ == times(items@.take(i as int)),
        decreases items@.len() - i,
    {
        keys.push(MadeAt { secs: items[i].created_at() });
        i += 1;
        assert(keys@ =~= times(items@.take(i as int)));
    }
    assert(items@.take(i as int) =~= items@);
    let order = order_of(&keys, 0, keys.len());
    let ghost go = sorting::as_ints(order@);
    let mut slots: Vec<Option<DownloadItem>> = Vec::new();
    for item in it: items
        invariant
            it.seq() == given,
            slots@ == given.take(it.index() as int).map_values(|x: DownloadItem| Some(x)),
    {
        slots.push(Some(item));
        assert(slots@ =~= given.take(it.index() + 1).map_values(|x: DownloadItem| Some(x)));
    }
    assert(given.take(given.len() as int) =~= given);
    let mut r: Vec<DownloadItem> = Vec::new();
    let mut j: usize = 0;
    while j < order.len()
        invariant
            j <= order@.len(),
            go == sorting::as_ints(order@),
            sorting::is_order(go, times(given), 0, given.len() as int),
            slots@.len() == given.len(),
            r@ == sorting::reordered(given, go.take(j as int)),
            forall|b: int| j <= b < go.len() ==> slots@[#[trigger] go[b]] == Some(given[go[b]]),
        decreases order@.len() - j,
    {
        let k: usize = order[j];
        assert(go[j as int] == k);
        assert(0 <= go[j as int] < given.len());
        assert(slots@[k as int] == Some(given[k as int]));
        match slots[k].take() {
            Some(item) => {
                r.push(item);
            },
            None => {},
        }
        assert forall|b: int| j + 1 <= b < go.len() implies slots@[#[trigger] go[b]] == Some(
            given[go[b]],
        ) by {
            assert(sorting::precedes(times(given), go[j as int], go[b]));
            sorting::lemma_lex_irreflexive(times(given)[go[b]].key());
        }
        j += 1;
        assert(r@ =~= sorting::reordered(given, go.take(j as int)));
    }
    assert(go.take(j as int) =~= go);
    r
}

/// The folder download is listed for an account, or for all.
pub open spec fn is_listed(f: FolderDownload, filter_uid: Option<u64>) -> bool {
    is_shown(f) && match filter_uid {
        Some(uid) => f.owner_uid == uid,
        None => true,
    }
}

/// The folder downloads that are listed for an account, or for all.
pub fn listed_folders(folders: Vec<FolderDownload>, filter_uid: Option<u64>) -> (r: Vec<
    FolderDownload,
>)
    ensures
        r@ == folders@.filter(|f: FolderDownload| is_listed(f, filter_uid)),
{
    let ghost given = folders@;
    let ghost p = |f: FolderDownload| is_listed(f, filter_uid);
    let mut r: Vec<FolderDownload> = Vec::new();
    proof {
        reveal(Seq::filter);
        assert(r@ =~= given.take(0).filter(p));
    }
    for folder in it: folders
        invariant
            it.seq() == given,
            p == |f: FolderDownload| is_listed(f, filter_uid),
            r@ == given.take(it.index() as int).filter(p),
    {
        let ghost k = it.index() as int;
        proof {
            reveal(Seq::filter);
            assert(given.take(k + 1).drop_last() =~= given.take(k));
        }
        let hidden = folder.backup_config_id.is_some();
        let wanted = match filter_uid {
            Some(uid) => folder.owner_uid == uid,
            None => true,
        };
        if !hidden && wanted {
            r.push(folder);
        }
    }
    assert(given.take(given.len() as int) =~= given);
    r
}

/// The tasks that belong to an account.
pub fn tasks_of_account(tasks: Vec<DownloadTask>, uid: u64) -> (r: Vec<DownloadTask>)
    ensures
        r@ == tasks@.filter(|t: DownloadTask| t.owner_uid == uid),
{
    let ghost given = tasks@;
    let ghost p = |t: DownloadTask| t.owner_uid == uid;
    let mut r: Vec<DownloadTask> = Vec::new();
    proof {
        reveal(Seq::filter);
        assert(r@ =~= given.take(0).filter(p));
    }
    for t in it: tasks
        invariant
            it.seq() == given,
            p == |t: DownloadTask| t.owner_uid == uid,
            r@ == given.take(it.index() as int).filter(p),
    {
        let ghost k = it.index() as int;
        proof {
            reveal(Seq::filter);
            assert(given.take(k + 1).drop_last() =~= given.take(k));
        }
        if t.owner_uid == uid {
            r.push(t);
        }
    }
    assert(given.take(given.len() as int) =~= given);
    r
}

/// The identifiers of tasks.
pub open spec fn task_ids(tasks: Seq<DownloadTask>) -> Seq<Seq<char>> {
    tasks.map_values(|t: DownloadTask| t.id@)
}

/// The tasks without those whose identifier came before.
pub open spec fn first_of_each(tasks: Seq<DownloadTask>) -> Seq<DownloadTask>
    decreases tasks.len(),
{
    if tasks.len() == 0 {
        seq![]
    } else if task_ids(tasks.drop_last()).contains(tasks.last().id@) {
        first_of_each(tasks.drop_last())
    } else {
        first_of_each(tasks.drop_last()).push(tasks.last())
    }
}

/// The tasks of all accounts, one account after the other.
pub open spec fn all_of(accounts: Seq<Vec<DownloadTask>>) -> Seq<DownloadTask>
    decreases accounts.len(),
{
    if accounts.len() == 0 {
        seq![]
    } else {
        all_of(accounts.drop_last()) + accounts.last()@
    }
}

fn add_new(r: &mut Vec<DownloadTask>, seen: &mut PathSet, tasks: Vec<DownloadTask>, Ghost(
    before,
): Ghost<Seq<DownloadTask>>)
    requires
        old(r)@ == first_of_each(before),
        old(seen)@ == task_ids(before).to_set(),
    ensures
        final(r)@ == first_of_each(before + tasks@),
        final(seen)@ == task_ids(before + tasks@).to_set(),
{
    let ghost given = tasks@;
    assert(before + given.take(0) =~= before);
    for t in it: tasks
        invariant
            it.seq() == given,
            r@ == first_of_each(before + given.take(it.index() as int)),
            seen@ == task_ids(before + given.take(it.index() as int)).to_set(),
    {
        let ghost k = it.index() as int;
        let ghost past = before + given.take(k);
        let ghost now = before + given.take(k + 1);
        assert(now.drop_last() =~= past);
        assert(now.last() == t);
        assert(task_ids(now) =~= task_ids(past).push(t.id@));
        proof {
            lemma_push_to_set(task_ids(past), t.id@);
        }
        if seen.insert(t.id.clone()) {
            r.push(t);
        }
    }
    assert(given.take(given.len() as int) =~= given);
}

/// The tasks of all accounts. What is known to several accounts is listed once.
pub fn tasks_of_all(accounts: Vec<Vec<DownloadTask>>) -> (r: Vec<DownloadTask>)
    ensures
        r@ == first_of_each(all_of(accounts@)),
{
    let ghost given = accounts@;
    let mut r: Vec<DownloadTask> = Vec::new();
    let mut seen = PathSet::new();
    proof {
        assert(all_of(given.take(0)) =~= Seq::<DownloadTask>::empty());
        assert(r@ =~= first_of_each(all_of(given.take(0))));
        assert(task_ids(all_of(given.take(0))) =~= Seq::<Seq<char>>::empty());
        assert(seen@ =~= task_ids(all_of(given.take(0))).to_set());
    }
    for tasks in it: accounts
        invariant
            it.seq() == given,
            r@ == first_of_each(all_of(given.take(it.index() as int))),
            seen@ == task_ids(all_of(given.take(it.index() as int))).to_set(),
    {
        let ghost k = it.index() as int;
        assert(given.take(k + 1).drop_last() =~= given.take(k));
        add_new(&mut r, &mut seen, tasks, Ghost(all_of(given.take(k))));
    }
    assert(given.take(given.len() as int) =~= given);
    r
}

/// The tasks that are listed, of those that the managers of the accounts know: for one account
/// those that belong to it, since a manager may know tasks of others; for all accounts each once.
pub open spec fn listed_tasks(accounts: Seq<Vec<DownloadTask>>, filter_uid: Option<u64>) -> Seq<
    DownloadTask,
> {
    match filter_uid {
        Some(uid) => all_of(accounts).filter(|t: DownloadTask| t.owner_uid == uid),
        None => first_of_each(all_of(accounts)),
    }
}

/// The tasks of the accounts, one account after the other.
fn joined(accounts: Vec<Vec<DownloadTask>>) -> (r: Vec<DownloadTask>)
    ensures
        r@ == all_of(accounts@),
{
    let ghost given = accounts@;
    let mut r: Vec<DownloadTask> = Vec::new();
    assert(all_of(given.take(0)) =~= Seq::<DownloadTask>::empty());
    for tasks in it: accounts
        invariant
            it.seq() == given,
            r@ == all_of(given.take(it.index() as int)),
    {
        let ghost k = it.index() as int;
        assert(given.take(k + 1).drop_last() =~= given.take(k));
        let mut tasks = tasks;
        r.append(&mut tasks);
    }
    assert(given.take(given.len() as int) =~= given);
    r
}

/// The tasks that are listed, of those that the managers of the accounts know.
pub fn tasks_listed(accounts: Vec<Vec<DownloadTask>>, filter_uid: Option<u64>) -> (r: Vec<
    DownloadTask,
>)
    ensures
        r@ == listed_tasks(accounts@, filter_uid),
{
    match filter_uid {
        Some(uid) => tasks_of_account(joined(accounts), uid),
        None => tasks_of_all(accounts),
    }
}

/// The task belongs to the folder download with an identifier.
pub open spec fn in_folder(t: DownloadTask, id: Seq<char>) -> bool {
    text::opt_text(t.group_id) == Some(id)
}

fn belongs(t: &DownloadTask, id: &str) -> (r: bool)
    ensures
        r == in_folder(*t, id@),
{
    match &t.group_id {
        Some(g) => same(g.as_str(), id),
        None => false,
    }
}

/// The bytes per second of the tasks of a folder that are being downloaded.
pub open spec fn folder_speed(tasks: Seq<DownloadTask>, id: Seq<char>) -> nat
    decreases tasks.len(),
{
    if tasks.len() == 0 {
        0
    } else {
        folder_speed(tasks.drop_last(), id) + if in_folder(tasks.last(), id) && tasks.last().status
            == TaskStatus::Downloading {
            tasks.last().speed as nat
        } else {
            0
        }
    }
}

/// The tasks of a folder that are not done, with the bytes that each has.
pub open spec fn open_tasks(tasks: Seq<DownloadTask>, id: Seq<char>) -> Seq<(String, u64)>
    decreases tasks.len(),
{
    if tasks.len() == 0 {
        seq![]
    } else if in_folder(tasks.last(), id) && tasks.last().status != TaskStatus::Completed {
        open_tasks(tasks.drop_last(), id).push((tasks.last().id, tasks.last().downloaded_size))
    } else {
        open_tasks(tasks.drop_last(), id)
    }
}

/// The bytes of the tasks of a folder that are not done and not counted yet.
pub open spec fn open_bytes(folder: FolderDownload, tasks: Seq<DownloadTask>) -> nat {
    task::uncounted_bytes(folder.counted_task_ids@, open_tasks(tasks, folder.id@))
}

/// The sums over the tasks of a folder fit in 64 bits.
pub open spec fn totals_fit(folder: FolderDownload, tasks: Seq<DownloadTask>) -> bool {
    &&& folder_speed(tasks, folder.id@) <= u64::MAX
    &&& folder.completed_downloaded_size + open_bytes(folder, tasks) <= u64::MAX
}

/// The folder download as it is listed: with the speed of its tasks, and with the bytes of the
/// files that are done and of the tasks that are not. The bytes never go down.
pub open spec fn folder_item(folder: FolderDownload, tasks: Seq<DownloadTask>) -> DownloadItem {
    let computed = folder.completed_downloaded_size + open_bytes(folder, tasks);
    DownloadItem::Folder {
        folder: FolderDownload {
            downloaded_size: if folder.downloaded_size > computed {
                folder.downloaded_size
            } else {
                computed as u64
            },
            ..folder
        },
        speed: folder_speed(tasks, folder.id@) as u64,
        completed_files: folder.completed_count,
    }
}

proof fn lemma_speed_grows(tasks: Seq<DownloadTask>, id: Seq<char>, i: int)
    requires
        0 <= i <= tasks.len(),
    ensures
        folder_speed(tasks.take(i), id) <= folder_speed(tasks, id),
    decreases tasks.len() - i,
{
    if i < tasks.len() {
        lemma_speed_grows(tasks, id, i + 1);
        assert(tasks.take(i + 1).drop_last() =~= tasks.take(i));
    } else {
        assert(tasks.take(i) =~= tasks);
    }
}

fn speed_of(tasks: &Vec<DownloadTask>, id: &str) -> (r: u64)
    requires
        folder_speed(tasks@, id@) <= u64::MAX,
    ensures
        r == folder_speed(tasks@, id@),
{
    let mut sum: u64 = 0;
    let mut i: usize = 0;
    while i < tasks.len()
        invariant
            i <= tasks@.len(),
            folder_speed(tasks@, id@) <= u64::MAX,
            sum == folder_speed(tasks@.take(i as int), id@),
        decreases tasks@.len() - i,
    {
        proof {
            lemma_speed_grows(tasks@, id@, i + 1);
            assert(tasks@.take(i + 1).drop_last() =~= tasks@.take(i as int));
            assert(tasks@.take(i + 1).last() == tasks@[i as int]);
        }
        if belongs(&tasks[i], id) && tasks[i].status == TaskStatus::Downloading {
            sum += tasks[i].speed;
        }
        i += 1;
    }
    assert(tasks@.take(i as int) =~= tasks@);
    sum
}

fn open_of(tasks: &Vec<DownloadTask>, id: &str) -> (r: Vec<(String, u64)>)
    ensures
        r@ == open_tasks(tasks@, id@),
{
    let mut r: Vec<(String, u64)> = Vec::new();
    let mut i: usize = 0;
    while i < tasks.len()
        invariant
            i <= tasks@.len(),
            r@ == open_tasks(tasks@.take(i as int), id@),
        decreases tasks@.len() - i,
    {
        assert(tasks@.take(i + 1).drop_last() =~= tasks@.take(i as int));
        assert(tasks@.take(i + 1).last() == tasks@[i as int]);
        if belongs(&tasks[i], id) && tasks[i].status != TaskStatus::Completed {
            r.push((tasks[i].id.clone(), tasks[i].downloaded_size));
        }
        i += 1;
    }
    assert(tasks@.take(i as int) =~= tasks@);
    r
}

fn item_of_folder(folder: FolderDownload, tasks: &Vec<DownloadTask>) -> (r: DownloadItem)
    requires
        totals_fit(folder, tasks@),
    ensures
        r == folder_item(folder, tasks@),
{
    let speed: u64 = speed_of(tasks, folder.id.as_str());
    let completed_files: u64 = folder.completed_count;
    let active = open_of(tasks, folder.id.as_str());
    let active_downloaded: u64 = folder.active_downloaded_excluding_counted(&active);
    let mut folder = folder;
    folder.compute_downloaded_size(active_downloaded);
    DownloadItem::Folder { folder, speed, completed_files }
}

/// The files that are listed: the tasks that belong to no folder.
pub open spec fn file_items(tasks: Seq<DownloadTask>) -> Seq<DownloadItem> {
    tasks.filter(|t: DownloadTask| t.group_id is None).map_values(
        |t: DownloadTask| DownloadItem::File { task: t },
    )
}

/// The folders that are listed.
pub open spec fn folder_items(
    folders: Seq<FolderDownload>,
    tasks: Seq<DownloadTask>,
) -> Seq<DownloadItem> {
    folders.map_values(|f: FolderDownload| folder_item(f, tasks))
}

fn files_listed(tasks: &Vec<DownloadTask>) -> (r: Vec<DownloadItem>)
    ensures
        r@ == file_items(tasks@),
{
    let mut r: Vec<DownloadItem> = Vec::new();
    let mut i: usize = 0;
    proof {
        reveal(Seq::filter);
        assert(r@ =~= file_items(tasks@.take(0)));
    }
    while i < tasks.len()
        invariant
            i <= tasks@.len(),
            r@ == file_items(tasks@.take(i as int)),
        decreases tasks@.len() - i,
    {
        proof {
            reveal(Seq::filter);
            assert(tasks@.take(i + 1).drop_last() =~= tasks@.take(i as int));
        }
        if tasks[i].group_id.is_none() {
            let ghost before = r@;
            r.push(DownloadItem::File { task: tasks[i].clone() });
            assert(file_items(tasks@.take(i + 1)) =~= before.push(
                DownloadItem::File { task: tasks@[i as int] },
            ));
        } else {
            assert(file_items(tasks@.take(i + 1)) =~= r@);
        }
        i += 1;
    }
    assert(tasks@.take(i as int) =~= tasks@);
    r
}

/// What a filter keeps stood in the sequence, and passes the filter.
proof fn lemma_kept_from<A>(s: Seq<A>, p: spec_fn(A) -> bool, i: int) -> (k: int)
    requires
        0 <= i < s.filter(p).len(),
    ensures
        0 <= k < s.len(),
        s[k] == s.filter(p)[i],
        p(s[k]),
    decreases s.len(),
{
    reveal(Seq::filter);
    let init = s.drop_last();
    if i < init.filter(p).len() {
        let k = lemma_kept_from(init, p, i);
        assert(s[k] == init[k]);
        k
    } else {
        s.len() - 1
    }
}

/// The files and folders that are listed, before they are sorted.
pub open spec fn all_items(
    tasks: Seq<DownloadTask>,
    folders: Seq<FolderDownload>,
    filter_uid: Option<u64>,
) -> Seq<DownloadItem> {
    file_items(tasks) + folder_items(
        folders.filter(|f: FolderDownload| is_listed(f, filter_uid)),
        tasks,
    )
}

/// The downloads that tasks and folders make, the latest first.
fn mixed_items(
    tasks: &Vec<DownloadTask>,
    folders: Vec<FolderDownload>,
    filter_uid: Option<u64>,
) -> (r: Vec<DownloadItem>)
    requires
        forall|i: int|
            0 <= i < folders@.len() && is_listed(#[trigger] folders@[i], filter_uid)
                ==> totals_fit(folders@[i], tasks@),
    ensures
        latest_first(r@, all_items(tasks@, folders@, filter_uid)),
{
    let mut items = files_listed(tasks);
    let ghost files = items@;
    let ghost all = folders@;
    let ghost p = |f: FolderDownload| is_listed(f, filter_uid);
    let listed = listed_folders(folders, filter_uid);
    let ghost given = listed@;
    proof {
        assert forall|i: int| 0 <= i < given.len() implies totals_fit(
            #[trigger] given[i],
            tasks@,
        ) by {
            let k = lemma_kept_from(all, p, i);
            assert(p(all[k]));
            assert(is_listed(all[k], filter_uid));
        }
    }
    assert(items@ =~= files + folder_items(given.take(0), tasks@));
    for folder in it: listed
        invariant
            it.seq() == given,
            forall|i: int|
                0 <= i < given.len() ==> totals_fit(#[trigger] given[i], tasks@),
            items@ == files + folder_items(given.take(it.index() as int), tasks@),
    {
        let ghost k = it.index() as int;
        assert(given[k] == folder);
        let item = item_of_folder(folder, tasks);
        items.push(item);
        assert(items@ =~= files + folder_items(given.take(k + 1), tasks@));
    }
    assert(given.take(given.len() as int) =~= given);
    sort_latest_first(items)
}

/// All downloads of one account, or of all, the latest first: the tasks that belong to no folder,
/// and the folders. `accounts` are the tasks that the managers of the accounts know.
pub fn get_all_downloads_mixed(
    accounts: Vec<Vec<DownloadTask>>,
    folders: Vec<FolderDownload>,
    filter_uid: Option<u64>,
) -> (r: Vec<DownloadItem>)
    requires
        forall|i: int|
            0 <= i < folders@.len() && is_listed(#[trigger] folders@[i], filter_uid)
                ==> totals_fit(folders@[i], listed_tasks(accounts@, filter_uid)),
    ensures
        latest_first(
            r@,
            all_items(listed_tasks(accounts@, filter_uid), folders@, filter_uid),
        ),
{
    let tasks = tasks_listed(accounts, filter_uid);
    mixed_items(&tasks, folders, filter_uid)
}

fn speed_fits(tasks: &Vec<DownloadTask>, id: &str) -> (r: bool)
    ensures
        r == (folder_speed(tasks@, id@) <= u64::MAX),
{
    let mut sum: u64 = 0;
    let mut i: usize = 0;
    while i < tasks.len()
        invariant
            i <= tasks@.len(),
            sum == folder_speed(tasks@.take(i as int), id@),
        decreases tasks@.len() - i,
    {
        proof {
            lemma_speed_grows(tasks@, id@, i + 1);
            assert(tasks@.take(i + 1).drop_last() =~= tasks@.take(i as int));
            assert(tasks@.take(i + 1).last() == tasks@[i as int]);
        }
        if belongs(&tasks[i], id) && tasks[i].status == TaskStatus::Downloading {
            match sum.checked_add(tasks[i].speed) {
                Some(n) => sum = n,
                None => return false,
            }
        }
        i += 1;
    }
    assert(tasks@.take(i as int) =~= tasks@);
    true
}

/// Whether the sums over the tasks of a folder fit in 64 bits.
pub fn folder_totals_fit(folder: &FolderDownload, tasks: &Vec<DownloadTask>) -> (r: bool)
    ensures
        r == totals_fit(*folder, tasks@),
{
    if !speed_fits(tasks, folder.id.as_str()) {
        return false;
    }
    let active = open_of(tasks, folder.id.as_str());
    let ghost counted = folder.counted_task_ids@;
    let mut sum: u64 = folder.completed_downloaded_size;
    let mut i: usize = 0;
    while i < active.len()
        invariant
            i <= active@.len(),
            counted == folder.counted_task_ids@,
            active@ == open_tasks(tasks@, folder.id@),
            sum == folder.completed_downloaded_size + task::uncounted_bytes(
                counted,
                active@.take(i as int),
            ),
        decreases active@.len() - i,
    {
        proof {
            task::lemma_uncounted_grows(counted, active@, i + 1);
            assert(active@.take(i + 1).drop_last() =~= active@.take(i as int));
            assert(active@.take(i + 1).last() == active@[i as int]);
        }
        if !folder.counted_task_ids.contains(active[i].0.as_str()) {
            match sum.checked_add(active[i].1) {
                Some(n) => sum = n,
                None => return false,
            }
        }
        i += 1;
    }
    assert(active@.take(i as int) =~= active@);
    true
}

// ---------------------------------------------------------------------------
// Laws
// ---------------------------------------------------------------------------
/// The bytes of tasks that are done are never counted again: without these tasks the folder is
/// listed with the same bytes.
pub proof fn law_done_tasks_are_not_counted_twice(
    folder: FolderDownload,
    tasks: Seq<DownloadTask>,
)
    ensures
        open_bytes(folder, tasks.filter(|t: DownloadTask| t.status != TaskStatus::Completed))
            == open_bytes(folder, tasks),
{
    lemma_open_tasks_of_filtered(tasks, folder.id@);
}

proof fn lemma_open_tasks_of_filtered(tasks: Seq<DownloadTask>, id: Seq<char>)
    ensures
        open_tasks(tasks.filter(|t: DownloadTask| t.status != TaskStatus::Completed), id)
            == open_tasks(tasks, id),
    decreases tasks.len(),
{
    reveal(Seq::filter);
    let p = |t: DownloadTask| t.status != TaskStatus::Completed;
    if tasks.len() > 0 {
        let init = tasks.drop_last();
        lemma_open_tasks_of_filtered(init, id);
        if p(tasks.last()) {
            assert(tasks.filter(p) == init.filter(p).push(tasks.last()));
            assert(tasks.filter(p).drop_last() =~= init.filter(p));
        }
    }
}

/// The bytes of open tasks add up: with one more task that belongs to the folder, is not done and
/// not counted yet, they grow by exactly the bytes of that task; with any other task they stay as
/// they are.
pub proof fn law_open_bytes_add_up(
    folder: FolderDownload,
    tasks: Seq<DownloadTask>,
    t: DownloadTask,
)
    ensures
        open_bytes(folder, seq![]) == 0,
        (t.group_id matches Some(g) && g@ == folder.id@ && t.status != TaskStatus::Completed
            && !folder.counted_task_ids@.contains(t.id@)) ==> open_bytes(folder, tasks.push(t))
            == open_bytes(folder, tasks) + t.downloaded_size,
        !(t.group_id matches Some(g) && g@ == folder.id@ && t.status != TaskStatus::Completed
            && !folder.counted_task_ids@.contains(t.id@)) ==> open_bytes(folder, tasks.push(t))
            == open_bytes(folder, tasks),
{
    assert(tasks.push(t).drop_last() =~= tasks);
    task::law_uncounted_bytes_add_up(
        folder.counted_task_ids@,
        open_tasks(tasks, folder.id@),
        (t.id, t.downloaded_size),
        seq![],
    );
}

/// The speed of a folder is the sum over its tasks that are being downloaded: with one more of
/// them it grows by exactly the speed of that task, with any other task it stays as it is.
pub proof fn law_folder_speed_adds_up(tasks: Seq<DownloadTask>, id: Seq<char>, t: DownloadTask)
    ensures
        folder_speed(seq![], id) == 0,
        (t.group_id matches Some(g) && g@ == id && t.status == TaskStatus::Downloading)
            ==> folder_speed(tasks.push(t), id) == folder_speed(tasks, id) + t.speed,
        !(t.group_id matches Some(g) && g@ == id && t.status == TaskStatus::Downloading)
            ==> folder_speed(tasks.push(t), id) == folder_speed(tasks, id),
{
    assert(tasks.push(t).drop_last() =~= tasks);
}

/// A folder is listed as it is, with the speed of its tasks, its files that are done, and the
/// bytes of these together with the open bytes; the bytes it had before stay where they are more.
pub proof fn law_folder_is_listed_with_its_bytes(folder: FolderDownload, tasks: Seq<DownloadTask>)
    requires
        totals_fit(folder, tasks),
    ensures
        folder_item(folder, tasks) matches DownloadItem::Folder { folder: f, speed, completed_files }
            && {
            &&& speed == folder_speed(tasks, folder.id@)
            &&& completed_files == folder.completed_count
            &&& f.downloaded_size >= folder.downloaded_size
            &&& f.downloaded_size >= folder.completed_downloaded_size + open_bytes(folder, tasks)
            &&& f.downloaded_size == folder.downloaded_size || f.downloaded_size
                == folder.completed_downloaded_size + open_bytes(folder, tasks)
            &&& f.id == folder.id && f.name == folder.name && f.status == folder.status
            &&& f.total_files == folder.total_files && f.total_size == folder.total_size
            &&& f.completed_count == folder.completed_count && f.created_at == folder.created_at
            &&& f.completed_downloaded_size == folder.completed_downloaded_size
            &&& f.remote_root == folder.remote_root && f.local_root == folder.local_root
            &&& f.owner_uid == folder.owner_uid
        },
{
}

/// The bytes that a folder is listed with are never fewer than it had, and never fewer than
/// those of its files that are done.
pub proof fn law_listed_bytes_never_fall(folder: FolderDownload, tasks: Seq<DownloadTask>)
    requires
        totals_fit(folder, tasks),
    ensures
        folder_item(folder, tasks) matches DownloadItem::Folder { folder: f, .. }
            && f.downloaded_size >= folder.downloaded_size && f.downloaded_size
            >= folder.completed_downloaded_size,
{
}

/// A task that several accounts know is listed once, and none is lost.
pub proof fn law_tasks_are_listed_once(tasks: Seq<DownloadTask>)
    ensures
        task_ids(first_of_each(tasks)).no_duplicates(),
        forall|id: Seq<char>|
            task_ids(first_of_each(tasks)).contains(id) <==> task_ids(tasks).contains(id),
    decreases tasks.len(),
{
    if tasks.len() > 0 {
        let init = tasks.drop_last();
        let t = tasks.last();
        law_tasks_are_listed_once(init);
        assert(task_ids(tasks) =~= task_ids(init).push(t.id@));
        let kept = first_of_each(init);
        assert forall|id: Seq<char>|
            task_ids(tasks).contains(id) <==> (task_ids(init).contains(id) || id == t.id@) by {
            lemma_push_contains(task_ids(init), t.id@, id);
        }
        if !task_ids(init).contains(t.id@) {
            assert(task_ids(kept.push(t)) =~= task_ids(kept).push(t.id@));
            assert(!task_ids(kept).contains(t.id@));
            assert forall|id: Seq<char>|
                task_ids(kept.push(t)).contains(id) <==> (task_ids(kept).contains(id) || id
                    == t.id@) by {
                lemma_push_contains(task_ids(kept), t.id@, id);
            }
        }
    } else {
        assert(task_ids(first_of_each(tasks)) =~= task_ids(tasks));
    }
}

/// What is listed for one account belongs to it, files and folders, and no folder that is hidden
/// is listed.
pub proof fn law_listed_downloads_belong_to_the_account(
    accounts: Seq<Vec<DownloadTask>>,
    folders: Seq<FolderDownload>,
    filter_uid: Option<u64>,
    i: int,
)
    requires
        0 <= i < all_items(listed_tasks(accounts, filter_uid), folders, filter_uid).len(),
    ensures
        match all_items(listed_tasks(accounts, filter_uid), folders, filter_uid)[i] {
            DownloadItem::File { task } => task.group_id is None && (filter_uid matches Some(uid)
                ==> task.owner_uid == uid),
            DownloadItem::Folder { folder, .. } => folder.backup_config_id is None && (
            filter_uid matches Some(uid) ==> folder.owner_uid == uid),
        },
{
    let tasks = listed_tasks(accounts, filter_uid);
    let alone = |t: DownloadTask| t.group_id is None;
    let files = file_items(tasks);
    if i < files.len() {
        let k = lemma_kept_from(tasks, alone, i);
        assert(files[i] == (DownloadItem::File { task: tasks[k] }));
        if filter_uid is Some {
            let uid = filter_uid->Some_0;
            let m = lemma_kept_from(
                all_of(accounts),
                |t: DownloadTask| t.owner_uid == uid,
                k,
            );
        }
    } else {
        let k = lemma_kept_from(
            folders,
            |f: FolderDownload| is_listed(f, filter_uid),
            i - files.len(),
        );
    }
}

/// Where the downloads of all accounts are listed, no two files have the same identifier.
pub proof fn law_listed_files_are_distinct(accounts: Seq<Vec<DownloadTask>>, i: int, j: int)
    requires
        0 <= i < j < file_items(listed_tasks(accounts, None)).len(),
    ensures
        file_items(listed_tasks(accounts, None))[i]->task.id@ != file_items(
            listed_tasks(accounts, None),
        )[j]->task.id@,
{
    let tasks = listed_tasks(accounts, None);
    let alone = |t: DownloadTask| t.group_id is None;
    law_tasks_are_listed_once(all_of(accounts));
    let (a, b) = lemma_kept_in_order(tasks, alone, i, j);
    assert(task_ids(tasks)[a] == tasks[a].id@ && task_ids(tasks)[b] == tasks[b].id@);
}

/// What a filter keeps stands in the order in which it stood.
proof fn lemma_kept_in_order<A>(s: Seq<A>, p: spec_fn(A) -> bool, i: int, j: int) -> (r: (
    int,
    int,
))
    requires
        0 <= i < j < s.filter(p).len(),
    ensures
        0 <= r.0 < r.1 < s.len(),
        s[r.0] == s.filter(p)[i],
        s[r.1] == s.filter(p)[j],
    decreases s.len(),
{
    reveal(Seq::filter);
    let init = s.drop_last();
    if j < init.filter(p).len() {
        let r = lemma_kept_in_order(init, p, i, j);
        assert(s[r.0] == init[r.0] && s[r.1] == init[r.1]);
        r
    } else {
        let k = lemma_kept_from(init, p, i);
        assert(s[k] == init[k]);
        (k, s.len() - 1)
    }
}

proof fn lemma_push_contains<A>(s: Seq<A>, x: A, y: A)
    ensures
        s.push(x).contains(y) <==> (s.contains(y) || y == x),
{
    if s.contains(y) {
        let i = choose|i: int| 0 <= i < s.len() && s[i] == y;
        assert(s.push(x)[i] == y);
    }
    assert(s.push(x)[s.len() as int] == x);
}

/// No download is listed before one that was made later.
pub proof fn law_latest_come_first(r: Seq<DownloadItem>, items: Seq<DownloadItem>, i: int, j: int)
    requires
        latest_first(r, items),
        0 <= i < j < r.len(),
    ensures
        r.len() == items.len(),
        r[i].time() >= r[j].time(),
{
    reveal_with_fuel(sorting::lex_lt, 3);
    let order = choose|order: Seq<int>| #[trigger]
        sorting::is_order(order, times(items), 0, items.len() as int) && r == sorting::reordered(
            items,
            order,
        );
    let a = times(items)[order[i]];
    let b = times(items)[order[j]];
    assert(sorting::precedes(times(items), order[i], order[j]));
    assert(a.key()[0] == -(a.secs as int) && b.key()[0] == -(b.secs as int));
    assert(a.key().skip(1) =~= Seq::<int>::empty() && b.key().skip(1) =~= Seq::<int>::empty());
}

/// What passes a filter is kept.
proof fn lemma_kept<A>(s: Seq<A>, p: spec_fn(A) -> bool, i: int) -> (k: int)
    requires
        0 <= i < s.len(),
        p(s[i]),
    ensures
        0 <= k < s.filter(p).len(),
        s.filter(p)[k] == s[i],
    decreases s.len(),
{
    reveal(Seq::filter);
    let init = s.drop_last();
    if i < init.len() {
        let k = lemma_kept(init, p, i);
        assert(s.filter(p)[k] == init.filter(p)[k]);
        k
    } else {
        init.filter(p).len() as int
    }
}

proof fn lemma_all_of_holds(accounts: Seq<Vec<DownloadTask>>, a: int, i: int) -> (k: int)
    requires
        0 <= a < accounts.len(),
        0 <= i < accounts[a]@.len(),
    ensures
        0 <= k < all_of(accounts).len(),
        all_of(accounts)[k] == accounts[a]@[i],
    decreases accounts.len(),
{
    let init = accounts.drop_last();
    if a < init.len() {
        let k = lemma_all_of_holds(init, a, i);
        assert(all_of(accounts)[k] == all_of(init)[k]);
        k
    } else {
        all_of(init).len() + i
    }
}

/// The list holds the downloads that were found, each as often as it was found, and nothing else.
proof fn lemma_listed_are_found(r: Seq<DownloadItem>, items: Seq<DownloadItem>, i: int)
    requires
        latest_first(r, items),
        0 <= i < items.len(),
    ensures
        r.contains(items[i]),
{
    let order = choose|order: Seq<int>| #[trigger]
        sorting::is_order(order, times(items), 0, items.len() as int) && r == sorting::reordered(
            items,
            order,
        );
    assert(order.contains(i));
    let a = choose|a: int| 0 <= a < order.len() && order[a] == i;
    assert(r[a] == items[i]);
}

/// A task of the account that belongs to no folder is listed, whichever manager knows it.
pub proof fn law_no_task_of_the_account_is_left_out(
    accounts: Seq<Vec<DownloadTask>>,
    folders: Seq<FolderDownload>,
    uid: u64,
    r: Seq<DownloadItem>,
    a: int,
    i: int,
)
    requires
        latest_first(r, all_items(listed_tasks(accounts, Some(uid)), folders, Some(uid))),
        0 <= a < accounts.len(),
        0 <= i < accounts[a]@.len(),
        accounts[a]@[i].owner_uid == uid,
        accounts[a]@[i].group_id is None,
    ensures
        r.contains(DownloadItem::File { task: accounts[a]@[i] }),
{
    let k = lemma_all_of_holds(accounts, a, i);
    let m = lemma_kept(all_of(accounts), |t: DownloadTask| t.owner_uid == uid, k);
    let tasks = listed_tasks(accounts, Some(uid));
    assert(tasks[m] == accounts[a]@[i]);
    let n = lemma_kept(tasks, |t: DownloadTask| t.group_id is None, m);
    let items = all_items(tasks, folders, Some(uid));
    assert(file_items(tasks)[n] == (DownloadItem::File { task: tasks[m] }));
    assert(items[n] == file_items(tasks)[n]);
    lemma_listed_are_found(r, items, n);
}

/// Where all accounts are listed, each task is listed or another with its identifier stands for
/// it; one that alone has its identifier is listed if it belongs to no folder.
pub proof fn law_no_task_is_left_out(
    accounts: Seq<Vec<DownloadTask>>,
    folders: Seq<FolderDownload>,
    r: Seq<DownloadItem>,
    a: int,
    i: int,
)
    requires
        latest_first(r, all_items(listed_tasks(accounts, None), folders, None)),
        0 <= a < accounts.len(),
        0 <= i < accounts[a]@.len(),
        forall|b: int, j: int|
            0 <= b < accounts.len() && 0 <= j < accounts[b]@.len() && (#[trigger] accounts[b]@[j]).id@
                == accounts[a]@[i].id@ ==> accounts[b]@[j] == accounts[a]@[i],
        accounts[a]@[i].group_id is None,
    ensures
        r.contains(DownloadItem::File { task: accounts[a]@[i] }),
{
    let all = all_of(accounts);
    let tasks = listed_tasks(accounts, None);
    let t = accounts[a]@[i];
    let k = lemma_all_of_holds(accounts, a, i);
    law_tasks_are_listed_once(all);
    assert(task_ids(all)[k] == t.id@);
    assert(task_ids(all).contains(t.id@));
    assert(task_ids(tasks).contains(t.id@));
    let m = choose|m: int| 0 <= m < task_ids(tasks).len() && task_ids(tasks)[m] == t.id@;
    assert(tasks[m].id@ == t.id@);
    let n = lemma_first_is_one(all, m);
    let (b, j) = lemma_all_of_from(accounts, n);
    assert(accounts[b]@[j].id@ == t.id@);
    assert(tasks[m] == t);
    let q = lemma_kept(tasks, |t: DownloadTask| t.group_id is None, m);
    let items = all_items(tasks, folders, None);
    assert(file_items(tasks)[q] == (DownloadItem::File { task: tasks[m] }));
    assert(items[q] == file_items(tasks)[q]);
    lemma_listed_are_found(r, items, q);
}

proof fn lemma_first_is_one(tasks: Seq<DownloadTask>, m: int) -> (k: int)
    requires
        0 <= m < first_of_each(tasks).len(),
    ensures
        0 <= k < tasks.len(),
        tasks[k] == first_of_each(tasks)[m],
    decreases tasks.len(),
{
    let init = tasks.drop_last();
    if m < first_of_each(init).len() {
        let k = lemma_first_is_one(init, m);
        assert(tasks[k] == init[k]);
        k
    } else {
        tasks.len() - 1
    }
}

proof fn lemma_all_of_from(accounts: Seq<Vec<DownloadTask>>, k: int) -> (r: (int, int))
    requires
        0 <= k < all_of(accounts).len(),
    ensures
        0 <= r.0 < accounts.len(),
        0 <= r.1 < accounts[r.0]@.len(),
        accounts[r.0]@[r.1] == all_of(accounts)[k],
    decreases accounts.len(),
{
    let init = accounts.drop_last();
    if k < all_of(init).len() {
        let r = lemma_all_of_from(init, k);
        assert(accounts[r.0] == init[r.0]);
        r
    } else {
        (accounts.len() - 1, k - all_of(init).len())
    }
}

/// A folder that is not hidden is listed, for its account and for all, under its identifier, with
/// its status and with how many of its files are complete.
pub proof fn law_no_folder_is_left_out(
    tasks: Seq<DownloadTask>,
    folders: Seq<FolderDownload>,
    filter_uid: Option<u64>,
    r: Seq<DownloadItem>,
    i: int,
)
    requires
        latest_first(r, all_items(tasks, folders, filter_uid)),
        0 <= i < folders.len(),
        folders[i].backup_config_id is None,
        filter_uid is None || filter_uid == Some(folders[i].owner_uid),
    ensures
        exists|j: int|
            0 <= j < r.len() && (#[trigger] r[j]) is Folder && r[j]->folder.id == folders[i].id
                && r[j]->folder.status == folders[i].status && r[j]->folder.owner_uid
                == folders[i].owner_uid && r[j]->completed_files == folders[i].completed_count,
{
    let k = lemma_kept(folders, |f: FolderDownload| is_listed(f, filter_uid), i);
    let listed = folders.filter(|f: FolderDownload| is_listed(f, filter_uid));
    let items = all_items(tasks, folders, filter_uid);
    let n = file_items(tasks).len() + k;
    assert(folder_items(listed, tasks)[k] == folder_item(listed[k], tasks));
    assert(items[n] == folder_item(folders[i], tasks));
    lemma_listed_are_found(r, items, n);
    let j = choose|j: int| 0 <= j < r.len() && r[j] == items[n];
    assert(r[j] is Folder);
}

} // verus!
