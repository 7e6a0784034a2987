//! The tasks that a synchronisation has under way.
use vstd::prelude::*;
use vstd::string::*;

use crate::collections::PathSet;
use crate::downloader::task;
use crate::downloader::task::{DownloadTask, FolderDownload, FolderStatus, TaskStatus};
use crate::share_sync::paths;
use crate::share_sync::target_paths;
use crate::share_sync::target_paths::{basename_of, local_file_name};
use crate::text;
use crate::text::{concat2, copy_opt, same};
use crate::transfer;
use crate::transfer::TransferTask;

verus! {

/// How much of something is done.
#[derive(Debug, Clone, Copy, PartialEq, Eq, Structural)]
pub struct Progress {
    pub done: u64,
    pub total: u64,
}

/// Thousandths of a percent, rounded half up, at most a hundred percent; none of
/// nothing.
pub open spec fn progress_millis(p: Progress) -> nat {
    if p.total == 0 {
        0
    } else if p.done >= p.total {
        100_000
    } else {
        ((200_000 * p.done + p.total) as nat) / ((2 * p.total) as nat)
    }
}

impl Progress {
    /// Thousandths of a percent, rounded half up, at most a hundred percent.
    pub fn millis(&self) -> (r: u64)
        ensures
            r as nat == progress_millis(*self),
    {
        if self.total == 0 {
            0
        } else if self.done >= self.total {
            100_000
        } else {
            let num: u128 = 200_000 * (self.done as u128) + self.total as u128;
            let den: u128 = 2 * (self.total as u128);
            let q: u128 = num / den;
            proof {
                assert(num < 200_001 * (self.total as int));
                assert(q <= 100_001) by (nonlinear_arith)
                    requires
                        q == num / den,
                        num < 100_001 * den,
                        den > 0,
                ;
            }
            q as u64
        }
    }
}

/// One row of the tasks under way.
#[derive(Debug)]
pub struct ShareSyncSubtask {
    /// The id of the task behind the row; `folder:<id>` for a folder download.
    pub task_id: String,
    pub name: String,
    /// `transfer` or `download`.
    pub kind: String,
    pub status: String,
    /// Bytes for a download, files for a transfer.
    pub downloaded: u64,
    pub total: u64,
    pub progress: Progress,
    /// Bytes per second.
    pub speed: u64,
    pub eta_seconds: Option<u64>,
    /// The row of the folder that the row belongs to.
    pub parent_task_id: Option<String>,
    pub owner_uid: u64,
}

/// What a `ShareSyncSubtask` holds.
#[verifier::ext_equal]
pub struct SubtaskView {
    pub task_id: Seq<char>,
    pub name: Seq<char>,
    pub kind: Seq<char>,
    pub status: Seq<char>,
    pub downloaded: u64,
    pub total: u64,
    pub progress: Progress,
    pub speed: u64,
    pub eta_seconds: Option<u64>,
    pub parent_task_id: Option<Seq<char>>,
    pub owner_uid: u64,
}

impl View for ShareSyncSubtask {
    type V = SubtaskView;

    open spec fn view(&self) -> SubtaskView {
        SubtaskView {
            task_id: self.task_id@,
            name: self.name@,
            kind: self.kind@,
            status: self.status@,
            downloaded: self.downloaded,
            total: self.total,
            progress: self.progress,
            speed: self.speed,
            eta_seconds: self.eta_seconds,
            parent_task_id: text::opt_text(self.parent_task_id),
            owner_uid: self.owner_uid,
        }
    }
}

impl Clone for ShareSyncSubtask {
    fn clone(&self) -> (r: Self)
        ensures
            r == *self,
    {
        ShareSyncSubtask {
            task_id: self.task_id.clone(),
            name: self.name.clone(),
            kind: self.kind.clone(),
            status: self.status.clone(),
            downloaded: self.downloaded,
            total: self.total,
            progress: self.progress,
            speed: self.speed,
            eta_seconds: self.eta_seconds,
            parent_task_id: copy_opt(&self.parent_task_id),
            owner_uid: self.owner_uid,
        }
    }
}

/// What several rows hold.
pub open spec fn row_views(rows: Seq<ShareSyncSubtask>) -> Seq<SubtaskView> {
    rows.map_values(|s: ShareSyncSubtask| s@)
}

/// The mark that the tasks of a subscription carry.
pub open spec fn backup_config_of(subscription_id: Seq<char>) -> Seq<char> {
    "share-sync:"@ + subscription_id
}

/// The mark that the tasks of a subscription carry.
pub fn share_sync_backup_config_id(subscription_id: &str) -> (r: String)
    ensures
        r@ == backup_config_of(subscription_id@),
{
    concat2("share-sync:", subscription_id)
}

/// Subscriptions never share a mark.
pub proof fn law_backup_config_injective(a: Seq<char>, b: Seq<char>)
    requires
        backup_config_of(a) == backup_config_of(b),
    ensures
        a == b,
{
    let n = "share-sync:"@.len() as int;
    assert(backup_config_of(a).skip(n) =~= a);
    assert(backup_config_of(b).skip(n) =~= b);
}

/// The seconds that are left at the present speed; unknown where nothing moves or
/// nothing is left.
pub open spec fn eta(downloaded: u64, total: u64, speed: u64) -> Option<u64> {
    if speed == 0 || total <= downloaded {
        None
    } else {
        Some(((total - downloaded) / (speed as int)) as u64)
    }
}

/// The seconds that are left at the present speed.
pub fn compute_eta_seconds(downloaded: u64, total: u64, speed: u64) -> (r: Option<u64>)
    ensures
        r == eta(downloaded, total, speed),
{
    if speed == 0 || total <= downloaded {
        return None;
    }
    Some((total - downloaded) / speed)
}

// ---------------------------------------------------------------------------
// States
// ---------------------------------------------------------------------------
/// Whether some task waits, queued or paused, and none runs.
pub open spec fn only_waiting(statuses: Seq<TaskStatus>) -> bool {
    &&& exists|i: int|
        0 <= i < statuses.len() && (#[trigger] statuses[i] == TaskStatus::Pending || statuses[i]
            == TaskStatus::Paused)
    &&& forall|i: int|
        0 <= i < statuses.len() ==> #[trigger] statuses[i] != TaskStatus::Downloading && statuses[i]
            != TaskStatus::Decrypting
}

/// Whether some task waits, queued or paused, and none runs.
pub fn no_progress_but_queued(statuses: &[TaskStatus]) -> (r: bool)
    ensures
        r == only_waiting(statuses@),
{
    let mut any_running = false;
    let mut any_waiting = false;
    let mut i: usize = 0;
    while i < statuses.len()
        invariant
            i <= statuses@.len(),
            any_running == exists|k: int|
                0 <= k < i && (#[trigger] statuses@[k] == TaskStatus::Downloading || statuses@[k]
                    == TaskStatus::Decrypting),
            any_waiting == exists|k: int|
                0 <= k < i && (#[trigger] statuses@[k] == TaskStatus::Pending || statuses@[k]
                    == TaskStatus::Paused),
        decreases statuses@.len() - i,
    {
        let ghost r0 = any_running;
        let ghost w0 = any_waiting;
        match statuses[i] {
            TaskStatus::Downloading | TaskStatus::Decrypting => {
                any_running = true;
            },
            TaskStatus::Pending | TaskStatus::Paused => {
                any_waiting = true;
            },
            _ => {},
        }
        proof {
            assert(statuses@[i as int] == statuses@[i as int]);
            if r0 {
                let k = choose|k: int|
                    0 <= k < i && (#[trigger] statuses@[k] == TaskStatus::Downloading
                        || statuses@[k] == TaskStatus::Decrypting);
                assert(0 <= k < i + 1);
            }
            if w0 {
                let k = choose|k: int|
                    0 <= k < i && (#[trigger] statuses@[k] == TaskStatus::Pending || statuses@[k]
                        == TaskStatus::Paused);
                assert(0 <= k < i + 1);
            }
        }
        i += 1;
    }
    any_waiting && !any_running
}

/// Whether a folder has files to do and none of them is being done.
pub fn folder_has_queued_work(statuses: &[TaskStatus]) -> (r: bool)
    ensures
        r == only_waiting(statuses@),
{
    no_progress_but_queued(statuses)
}

/// Whether an item of a run is done, one way or another.
pub open spec fn is_final_item(status: Seq<char>) -> bool {
    status == "completed"@ || status == "failed"@ || status == "skipped"@
}

/// Whether an item of a run is done, one way or another.
pub fn is_terminal_run_item_status(status: &str) -> (r: bool)
    ensures
        r == is_final_item(status@),
{
    same(status, "completed") || same(status, "failed") || same(status, "skipped")
}

/// Whether a row is done, one way or another.
pub open spec fn is_final(status: Seq<char>) -> bool {
    ||| status == "completed"@
    ||| status == "success"@
    ||| status == "failed"@
    ||| status == "cancelled"@
    ||| status == "transferred"@
    ||| status == "transferfailed"@
    ||| status == "downloadfailed"@
}

/// Whether a row is done, one way or another.
pub fn is_terminal_subtask_status(status: &str) -> (r: bool)
    ensures
        r == is_final(status@),
{
    same(status, "completed") || same(status, "success") || same(status, "failed") || same(
        status,
        "cancelled",
    ) || same(status, "transferred") || same(status, "transferfailed") || same(
        status,
        "downloadfailed",
    )
}

/// The state of a folder's row: its own, but `pending` for a folder that downloads while
/// all its files wait.
pub open spec fn folder_row_status(status: FolderStatus, waiting: bool) -> Seq<char> {
    if waiting && status == FolderStatus::Downloading {
        "pending"@
    } else {
        task::folder_status_text(status)
    }
}

/// The state of a folder's row.
pub fn folder_subtask_status(folder_status: FolderStatus, waiting_for_slot: bool) -> (r: String)
    ensures
        r@ == folder_row_status(folder_status, waiting_for_slot),
{
    if waiting_for_slot && folder_status == FolderStatus::Downloading {
        return "pending".to_owned();
    }
    folder_status.as_str().to_owned()
}

/// A folder's row is done exactly when the folder is completed, failed or cancelled:
/// waiting never makes a finished folder look unfinished, nor the other way round.
pub proof fn law_folder_row_final_iff_folder_final(status: FolderStatus, waiting: bool)
    ensures
        is_final(folder_row_status(status, waiting)) <==> (status == FolderStatus::Completed
            || status == FolderStatus::Failed || status == FolderStatus::Cancelled),
{
    reveal_strlit("pending");
    reveal_strlit("scanning");
    reveal_strlit("downloading");
    reveal_strlit("paused");
    reveal_strlit("completed");
    reveal_strlit("success");
    reveal_strlit("failed");
    reveal_strlit("cancelled");
    reveal_strlit("transferred");
    reveal_strlit("transferfailed");
    reveal_strlit("downloadfailed");
    assert("pending"@[0] == 'p');
    assert("scanning"@[1] == 'c');
    assert("downloading"@[3] == 'n');
    assert("downloadfailed"@.len() == 14);
    assert("transferred"@[0] == 't');
    assert("success"@[0] == 's');
    assert("paused"@[0] == 'p');
    assert("failed"@[0] == 'f');
    assert("completed"@[0] == 'c');
    assert("cancelled"@[0] == 'c');
    assert("transferfailed"@[0] == 't');
}

/// A transfer's row is done exactly when the transfer is completed, copied or failed.
pub proof fn law_transfer_row_final(status: transfer::TransferStatus)
    ensures
        is_final(transfer::transfer_status_text(status)) <==> (status
            == transfer::TransferStatus::Completed || status
            == transfer::TransferStatus::Transferred || status
            == transfer::TransferStatus::TransferFailed || status
            == transfer::TransferStatus::DownloadFailed),
{
    reveal_strlit("queued");
    reveal_strlit("checkingshare");
    reveal_strlit("transferring");
    reveal_strlit("downloading");
    reveal_strlit("completed");
    reveal_strlit("success");
    reveal_strlit("failed");
    reveal_strlit("cancelled");
    reveal_strlit("transferred");
    reveal_strlit("transferfailed");
    reveal_strlit("downloadfailed");
    let t = transfer::transfer_status_text(status);
    assert("queued"@[0] == 'q' && "queued"@.len() == 6);
    assert("checkingshare"@.len() == 13);
    assert("transferring"@.len() == 12);
    assert("downloading"@[0] == 'd' && "downloading"@.len() == 11);
    assert("completed"@.len() == 9);
    assert("success"@.len() == 7);
    assert("failed"@[0] == 'f' && "failed"@.len() == 6);
    assert("cancelled"@.len() == 9);
    assert("transferred"@[0] == 't' && "transferred"@.len() == 11);
    assert("transferfailed"@.len() == 14);
    assert("downloadfailed"@.len() == 14);
    assert(status == transfer::TransferStatus::Queued ==> t[0] == 'q');
    assert(status == transfer::TransferStatus::Downloading ==> t[0] == 'd');
}

// ---------------------------------------------------------------------------
// Rows
// ---------------------------------------------------------------------------
/// The row of a download that belongs to no folder.
pub open spec fn download_row(t: DownloadTask, owner_uid: u64) -> SubtaskView {
    SubtaskView {
        task_id: t.id@,
        name: match target_paths::file_name_of(t.local_path@) {
            Some(n) => n,
            None => paths::after_last_slash(text::strip_end(t.remote_path@, '/')),
        },
        kind: "download"@,
        status: task::task_status_text(t.status),
        downloaded: t.downloaded_size,
        total: t.total_size,
        progress: Progress { done: t.downloaded_size, total: t.total_size },
        speed: t.speed,
        eta_seconds: eta(t.downloaded_size, t.total_size, t.speed),
        parent_task_id: None,
        owner_uid,
    }
}

/// The row of a download that belongs to a folder: named by its path below the folder,
/// for files of one name are common there.
pub open spec fn child_row(t: DownloadTask, parent: Seq<char>, owner_uid: u64) -> SubtaskView {
    let own = download_row(t, owner_uid);
    SubtaskView {
        name: match t.relative_path {
            Some(p) => if p@.len() > 0 {
                p@
            } else {
                own.name
            },
            None => own.name,
        },
        parent_task_id: Some(parent),
        ..own
    }
}

/// The row of a transfer, counted in files.
pub open spec fn transfer_row(t: TransferTask, owner_uid: u64) -> SubtaskView {
    SubtaskView {
        task_id: t.id@,
        name: match t.file_name {
            Some(n) => n@,
            None => paths::after_last_slash(text::strip_end(t.save_path@, '/')),
        },
        kind: "transfer"@,
        status: transfer::transfer_status_text(t.status),
        downloaded: t.transferred_count as u64,
        total: t.total_count as u64,
        progress: Progress { done: t.transferred_count as u64, total: t.total_count as u64 },
        speed: 0,
        eta_seconds: None,
        parent_task_id: None,
        owner_uid,
    }
}

/// A folder download with the tasks of its files.
pub struct FolderState {
    pub folder: FolderDownload,
    /// How much of the folder is done.
    pub progress: Progress,
    pub children: Vec<DownloadTask>,
}

/// The states of several tasks.
pub open spec fn statuses_of(tasks: Seq<DownloadTask>) -> Seq<TaskStatus> {
    tasks.map_values(|t: DownloadTask| t.status)
}

/// The speed of the tasks that run. A task that waits keeps its last speed, which does
/// not count.
pub open spec fn running_speed(tasks: Seq<DownloadTask>) -> nat
    decreases tasks.len(),
{
    if tasks.len() == 0 {
        0
    } else {
        running_speed(tasks.drop_last()) + if tasks.last().status == TaskStatus::Downloading {
            tasks.last().speed as nat
        } else {
            0
        }
    }
}

/// The row of a folder download.
pub open spec fn folder_row(f: FolderState, owner_uid: u64) -> SubtaskView {
    let speed = running_speed(f.children@) as u64;
    SubtaskView {
        task_id: "folder:"@ + f.folder.id@,
        name: f.folder.name@,
        kind: "download"@,
        status: folder_row_status(f.folder.status, only_waiting(statuses_of(f.children@))),
        downloaded: f.folder.downloaded_size,
        total: f.folder.total_size,
        progress: f.progress,
        speed,
        eta_seconds: eta(f.folder.downloaded_size, f.folder.total_size, speed),
        parent_task_id: None,
        owner_uid,
    }
}

/// The rows of the files of a folder.
pub open spec fn child_rows(f: FolderState, owner_uid: u64) -> Seq<SubtaskView> {
    f.children@.map_values(|t: DownloadTask| child_row(t, "folder:"@ + f.folder.id@, owner_uid))
}

/// The rows of a folder: its own, then those of its files, where they are wanted and the
/// folder is not done.
pub open spec fn rows_of_folder(f: FolderState, owner_uid: u64, children: bool) -> Seq<
    SubtaskView,
> {
    let own = folder_row(f, owner_uid);
    if children && !is_final(own.status) {
        seq![own] + child_rows(f, owner_uid)
    } else {
        seq![own]
    }
}

/// The rows of several downloads.
pub open spec fn download_rows(downloads: Seq<DownloadTask>, owner_uid: u64) -> Seq<SubtaskView> {
    downloads.map_values(|t: DownloadTask| download_row(t, owner_uid))
}

/// The rows of the internal transfers that carry the mark `cfg`.
pub open spec fn transfer_rows(
    transfers: Seq<TransferTask>,
    cfg: Seq<char>,
    owner_uid: u64,
) -> Seq<SubtaskView>
    decreases transfers.len(),
{
    if transfers.len() == 0 {
        Seq::empty()
    } else {
        let front = transfer_rows(transfers.drop_last(), cfg, owner_uid);
        let t = transfers.last();
        if t.is_internal && text::opt_text(t.backup_config_id) == Some(cfg) {
            front.push(transfer_row(t, owner_uid))
        } else {
            front
        }
    }
}

/// The rows of several folders.
pub open spec fn folder_rows(folders: Seq<FolderState>, owner_uid: u64, children: bool) -> Seq<
    SubtaskView,
>
    decreases folders.len(),
{
    if folders.len() == 0 {
        Seq::empty()
    } else {
        folder_rows(folders.drop_last(), owner_uid, children) + rows_of_folder(
            folders.last(),
            owner_uid,
            children,
        )
    }
}

/// All rows of a subscription: its downloads, its transfers, its folders.
pub open spec fn all_rows(
    subscription_id: Seq<char>,
    downloads: Seq<DownloadTask>,
    transfers: Seq<TransferTask>,
    folders: Seq<FolderState>,
    owner_uid: u64,
    children: bool,
) -> Seq<SubtaskView> {
    download_rows(downloads, owner_uid) + transfer_rows(
        transfers,
        backup_config_of(subscription_id),
        owner_uid,
    ) + folder_rows(folders, owner_uid, children)
}

/// The speeds of the files of each folder add up to a number that can be held.
pub open spec fn speeds_fit(folders: Seq<FolderState>) -> bool {
    forall|i: int|
        0 <= i < folders.len() ==> running_speed((#[trigger] folders[i]).children@) <= u64::MAX
}

/// The name of a download: that of its local file, else that of its remote one.
fn download_name(t: &DownloadTask) -> (r: String)
    ensures
        r@ == download_row(*t, 0).name,
{
    match local_file_name(t.local_path.as_str()) {
        Some(n) => n,
        None => basename_of(t.remote_path.as_str()),
    }
}

fn download_subtask(t: &DownloadTask, owner_uid: u64) -> (r: ShareSyncSubtask)
    ensures
        r@ == download_row(*t, owner_uid),
{
    ShareSyncSubtask {
        task_id: t.id.clone(),
        name: download_name(t),
        kind: "download".to_owned(),
        status: t.status.as_str().to_owned(),
        downloaded: t.downloaded_size,
        total: t.total_size,
        progress: Progress { done: t.downloaded_size, total: t.total_size },
        speed: t.speed,
        eta_seconds: compute_eta_seconds(t.downloaded_size, t.total_size, t.speed),
        parent_task_id: None,
        owner_uid,
    }
}

/// The row of a download that belongs to a folder.
pub fn folder_child_subtask(t: DownloadTask, parent_task_id: &str, owner_uid: u64) -> (r:
    ShareSyncSubtask)
    ensures
        r@ == child_row(t, parent_task_id@, owner_uid),
{
    let mut row = download_subtask(&t, owner_uid);
    match &t.relative_path {
        Some(p) => {
            if !p.as_str().is_empty() {
                row.name = p.clone();
            }
        },
        None => {},
    }
    row.parent_task_id = Some(parent_task_id.to_owned());
    row
}

fn transfer_subtask(t: &TransferTask, owner_uid: u64) -> (r: ShareSyncSubtask)
    ensures
        r@ == transfer_row(*t, owner_uid),
{
    let name = match &t.file_name {
        Some(n) => n.clone(),
        None => basename_of(t.save_path.as_str()),
    };
    let done: u64 = t.transferred_count as u64;
    let total: u64 = t.total_count as u64;
    ShareSyncSubtask {
        task_id: t.id.clone(),
        name,
        kind: "transfer".to_owned(),
        status: t.status.as_str().to_owned(),
        downloaded: done,
        total,
        progress: Progress { done, total },
        speed: 0,
        eta_seconds: None,
        parent_task_id: None,
        owner_uid,
    }
}

proof fn lemma_running_speed_grows(tasks: Seq<DownloadTask>, i: int)
    requires
        0 <= i <= tasks.len(),
    ensures
        running_speed(tasks.take(i)) <= running_speed(tasks),
    decreases tasks.len() - i,
{
    if i < tasks.len() {
        lemma_running_speed_grows(tasks, i + 1);
        assert(tasks.take(i + 1).drop_last() =~= tasks.take(i));
    } else {
        assert(tasks.take(i) =~= tasks);
    }
}

/// The speed of the tasks that run.
pub fn sum_running_speed(tasks: &Vec<DownloadTask>) -> (r: u64)
    requires
        running_speed(tasks@) <= u64::MAX,
    ensures
        r == running_speed(tasks@),
{
    let mut sum: u64 = 0;
    let mut i: usize = 0;
    while i < tasks.len()
        invariant
            i <= tasks@.len(),
            running_speed(tasks@) <= u64::MAX,
            sum == running_speed(tasks@.take(i as int)),
        decreases tasks@.len() - i,
    {
        proof {
            assert(tasks@.take(i + 1).drop_last() =~= tasks@.take(i as int));
            assert(tasks@.take(i + 1).last() == tasks@[i as int]);
            lemma_running_speed_grows(tasks@, i + 1);
        }
        if tasks[i].status == TaskStatus::Downloading {
            sum += tasks[i].speed;
        }
        i += 1;
    }
    assert(tasks@.take(i as int) =~= tasks@);
    sum
}

/// The states of several tasks.
pub fn task_statuses(tasks: &Vec<DownloadTask>) -> (r: Vec<TaskStatus>)
    ensures
        r@ == statuses_of(tasks@),
{
    let mut r: Vec<TaskStatus> = Vec::new();
    let mut i: usize = 0;
    while i < tasks.len()
        invariant
            i <= tasks@.len(),
            r@ == statuses_of(tasks@.take(i as int)),
        decreases tasks@.len() - i,
    {
        r.push(tasks[i].status);
        i += 1;
        assert(r@ =~= statuses_of(tasks@.take(i as int)));
    }
    assert(tasks@.take(i as int) =~= tasks@);
    r
}

fn folder_subtask(f: &FolderState, owner_uid: u64) -> (r: ShareSyncSubtask)
    requires
        running_speed(f.children@) <= u64::MAX,
    ensures
        r@ == folder_row(*f, owner_uid),
{
    let speed: u64 = sum_running_speed(&f.children);
    let statuses = task_statuses(&f.children);
    let waiting = folder_has_queued_work(statuses.as_slice());
    ShareSyncSubtask {
        task_id: concat2("folder:", f.folder.id.as_str()),
        name: f.folder.name.clone(),
        kind: "download".to_owned(),
        status: folder_subtask_status(f.folder.status, waiting),
        downloaded: f.folder.downloaded_size,
        total: f.folder.total_size,
        progress: f.progress,
        speed,
        eta_seconds: compute_eta_seconds(f.folder.downloaded_size, f.folder.total_size, speed),
        parent_task_id: None,
        owner_uid,
    }
}

/// All rows of a subscription. `downloads` are its downloads outside folders, `transfers`
/// all transfers, `folders` its folder downloads with the tasks of their files.
fn collect_subtasks_impl(
    subscription_id: &str,
    downloads: &Vec<DownloadTask>,
    transfers: &Vec<TransferTask>,
    folders: &Vec<FolderState>,
    owner_uid: u64,
    include_folder_children: bool,
) -> (r: Vec<ShareSyncSubtask>)
    requires
        speeds_fit(folders@),
    ensures
        row_views(r@) == all_rows(
            subscription_id@,
            downloads@,
            transfers@,
            folders@,
            owner_uid,
            include_folder_children,
        ),
{
    let cfg = share_sync_backup_config_id(subscription_id);
    let mut out: Vec<ShareSyncSubtask> = Vec::new();
    let mut i: usize = 0;
    assert(row_views(out@) =~= download_rows(downloads@.take(0), owner_uid));
    while i < downloads.len()
        invariant
            i <= downloads@.len(),
            row_views(out@) == download_rows(downloads@.take(i as int), owner_uid),
        decreases downloads@.len() - i,
    {
        let ghost before = row_views(out@);
        let row = download_subtask(&downloads[i], owner_uid);
        out.push(row);
        i += 1;
        proof {
            assert(row_views(out@) =~= before.push(row@));
            assert(download_rows(downloads@.take(i as int), owner_uid) =~= before.push(row@));
        }
    }
    assert(downloads@.take(i as int) =~= downloads@);
    let ghost first = row_views(out@);
    let mut j: usize = 0;
    assert(first + transfer_rows(transfers@.take(0), cfg@, owner_uid) =~= first);
    while j < transfers.len()
        invariant
            j <= transfers@.len(),
            row_views(out@) == first + transfer_rows(transfers@.take(j as int), cfg@, owner_uid),
        decreases transfers@.len() - j,
    {
        let t = &transfers[j];
        let ghost before = row_views(out@);
        let ours = match &t.backup_config_id {
            Some(c) => same(c.as_str(), cfg.as_str()),
            None => false,
        };
        proof {
            assert(transfers@.take(j + 1).drop_last() =~= transfers@.take(j as int));
            assert(transfers@.take(j + 1).last() == transfers@[j as int]);
        }
        if t.is_internal && ours {
            let row = transfer_subtask(t, owner_uid);
            out.push(row);
            proof {
                assert(row_views(out@) =~= before.push(row@));
                assert(before.push(row@) =~= first + transfer_rows(
                    transfers@.take(j as int),
                    cfg@,
                    owner_uid,
                ).push(row@));
            }
        }
        j += 1;
    }
    assert(transfers@.take(j as int) =~= transfers@);
    let ghost second = row_views(out@);
    let mut k: usize = 0;
    assert(second + folder_rows(folders@.take(0), owner_uid, include_folder_children) =~= second);
    while k < folders.len()
        invariant
            k <= folders@.len(),
            speeds_fit(folders@),
            row_views(out@) == second + folder_rows(
                folders@.take(k as int),
                owner_uid,
                include_folder_children,
            ),
        decreases folders@.len() - k,
    {
        let f = &folders[k];
        let ghost gf = folders@[k as int];
        let ghost done = folder_rows(folders@.take(k as int), owner_uid, include_folder_children);
        proof {
            assert(folders@.take(k + 1).drop_last() =~= folders@.take(k as int));
            assert(folders@.take(k + 1).last() == gf);
        }
        let row = folder_subtask(f, owner_uid);
        let parent = row.task_id.clone();
        let is_done = is_terminal_subtask_status(row.status.as_str());
        let ghost own = row@;
        let ghost before = row_views(out@);
        out.push(row);
        proof {
            assert(row_views(out@) =~= before.push(own));
            assert(before.push(own) =~= second + (done + seq![own]));
        }
        if include_folder_children && !is_done {
            let ghost kids = child_rows(gf, owner_uid);
            let mut m: usize = 0;
            assert(done + seq![own] + kids.take(0) =~= done + seq![own]);
            while m < f.children.len()
                invariant
                    m <= f.children@.len(),
                    *f == gf,
                    parent@ == "folder:"@ + gf.folder.id@,
                    kids == child_rows(gf, owner_uid),
                    row_views(out@) == second + (done + seq![own] + kids.take(m as int)),
                decreases f.children@.len() - m,
            {
                let ghost before = row_views(out@);
                let child = folder_child_subtask(
                    f.children[m].clone(),
                    parent.as_str(),
                    owner_uid,
                );
                out.push(child);
                m += 1;
                proof {
                    assert(row_views(out@) =~= before.push(child@));
                    assert(kids[m - 1] == child@);
                    assert(before.push(child@) =~= second + (done + seq![own] + kids.take(
                        m as int,
                    )));
                }
            }
            assert(kids.take(m as int) =~= kids);
            assert(done + seq![own] + kids =~= done + (seq![own] + kids));
        }
        k += 1;
    }
    assert(folders@.take(k as int) =~= folders@);
    out
}

/// The rows of a subscription, one for each thing that can be paused and resumed: a
/// folder has one row.
pub fn collect_share_sync_subtasks(
    subscription_id: &str,
    downloads: &Vec<DownloadTask>,
    transfers: &Vec<TransferTask>,
    folders: &Vec<FolderState>,
    owner_uid: u64,
) -> (r: Vec<ShareSyncSubtask>)
    requires
        speeds_fit(folders@),
    ensures
        row_views(r@) == all_rows(
            subscription_id@,
            downloads@,
            transfers@,
            folders@,
            owner_uid,
            false,
        ),
{
    collect_subtasks_impl(subscription_id, downloads, transfers, folders, owner_uid, false)
}

/// The rows of a subscription for display: a folder's row is followed by those of its
/// files.
pub fn collect_share_sync_subtasks_with_children(
    subscription_id: &str,
    downloads: &Vec<DownloadTask>,
    transfers: &Vec<TransferTask>,
    folders: &Vec<FolderState>,
    owner_uid: u64,
) -> (r: Vec<ShareSyncSubtask>)
    requires
        speeds_fit(folders@),
    ensures
        row_views(r@) == all_rows(
            subscription_id@,
            downloads@,
            transfers@,
            folders@,
            owner_uid,
            true,
        ),
{
    collect_subtasks_impl(subscription_id, downloads, transfers, folders, owner_uid, true)
}

// ---------------------------------------------------------------------------
// Choosing rows
// ---------------------------------------------------------------------------
/// The rows that are not done.
pub open spec fn unfinished(rows: Seq<SubtaskView>) -> Seq<SubtaskView> {
    rows.filter(|r: SubtaskView| !is_final(r.status))
}

/// The rows that are not done.
pub fn unfinished_subtasks(rows: &Vec<ShareSyncSubtask>) -> (r: Vec<ShareSyncSubtask>)
    ensures
        row_views(r@) == unfinished(row_views(rows@)),
{
    let ghost all = row_views(rows@);
    let mut r: Vec<ShareSyncSubtask> = Vec::new();
    let mut i: usize = 0;
    proof {
        reveal(Seq::filter);
        assert(row_views(r@) =~= unfinished(all.take(0)));
    }
    while i < rows.len()
        invariant
            i <= rows@.len(),
            all == row_views(rows@),
            row_views(r@) == unfinished(all.take(i as int)),
        decreases rows@.len() - i,
    {
        let ghost before = row_views(r@);
        proof {
            reveal(Seq::filter);
            assert(all.take(i + 1).drop_last() =~= all.take(i as int));
            assert(all.take(i + 1).last() == rows@[i as int]@);
        }
        if !is_terminal_subtask_status(rows[i].status.as_str()) {
            r.push(rows[i].clone());
            assert(row_views(r@) =~= before.push(rows@[i as int]@));
        }
        i += 1;
    }
    assert(all.take(i as int) =~= all);
    r
}

/// The rows of downloads and transfers that the user has paused, or that were pushed
/// aside.
pub open spec fn paused(rows: Seq<SubtaskView>) -> Seq<SubtaskView> {
    rows.filter(|r: SubtaskView| r.status == "paused"@)
}

/// The rows that are paused.
pub fn paused_subtasks(rows: &Vec<ShareSyncSubtask>) -> (r: Vec<ShareSyncSubtask>)
    ensures
        row_views(r@) == paused(row_views(rows@)),
{
    let ghost all = row_views(rows@);
    let mut r: Vec<ShareSyncSubtask> = Vec::new();
    let mut i: usize = 0;
    proof {
        reveal(Seq::filter);
        assert(row_views(r@) =~= paused(all.take(0)));
    }
    while i < rows.len()
        invariant
            i <= rows@.len(),
            all == row_views(rows@),
            row_views(r@) == paused(all.take(i as int)),
        decreases rows@.len() - i,
    {
        let ghost before = row_views(r@);
        proof {
            reveal(Seq::filter);
            assert(all.take(i + 1).drop_last() =~= all.take(i as int));
            assert(all.take(i + 1).last() == rows@[i as int]@);
        }
        if same(rows[i].status.as_str(), "paused") {
            r.push(rows[i].clone());
            assert(row_views(r@) =~= before.push(rows@[i as int]@));
        }
        i += 1;
    }
    assert(all.take(i as int) =~= all);
    r
}

/// The downloads that are not done.
pub open spec fn open_downloads(rows: Seq<SubtaskView>) -> Seq<SubtaskView> {
    rows.filter(|r: SubtaskView| r.kind == "download"@ && !is_final(r.status))
}

/// How many downloads are not done.
pub fn unfinished_downloads(rows: &Vec<ShareSyncSubtask>) -> (r: usize)
    ensures
        r == open_downloads(row_views(rows@)).len(),
{
    let ghost all = row_views(rows@);
    let mut n: usize = 0;
    let mut i: usize = 0;
    proof {
        reveal(Seq::filter);
    }
    while i < rows.len()
        invariant
            n <= i <= rows@.len(),
            all == row_views(rows@),
            n == open_downloads(all.take(i as int)).len(),
        decreases rows@.len() - i,
    {
        proof {
            reveal(Seq::filter);
            assert(all.take(i + 1).drop_last() =~= all.take(i as int));
            assert(all.take(i + 1).last() == rows@[i as int]@);
        }
        if same(rows[i].kind.as_str(), "download") && !is_terminal_subtask_status(
            rows[i].status.as_str(),
        ) {
            n += 1;
        }
        i += 1;
    }
    assert(all.take(i as int) =~= all);
    n
}

/// Whether a download has failed or was given up.
pub open spec fn has_failed_download(rows: Seq<SubtaskView>) -> bool {
    exists|i: int|
        0 <= i < rows.len() && (#[trigger] rows[i]).kind == "download"@ && (rows[i].status
            == "failed"@ || rows[i].status == "cancelled"@ || rows[i].status == "downloadfailed"@)
}

/// Whether a download has failed or was given up.
pub fn any_download_failed(rows: &Vec<ShareSyncSubtask>) -> (r: bool)
    ensures
        r == has_failed_download(row_views(rows@)),
{
    let ghost all = row_views(rows@);
    let mut i: usize = 0;
    while i < rows.len()
        invariant
            i <= rows@.len(),
            all == row_views(rows@),
            !has_failed_download(all.take(i as int)),
        decreases rows@.len() - i,
    {
        let row = &rows[i];
        assert(all[i as int] == rows@[i as int]@);
        if same(row.kind.as_str(), "download") && (same(row.status.as_str(), "failed") || same(
            row.status.as_str(),
            "cancelled",
        ) || same(row.status.as_str(), "downloadfailed")) {
            return true;
        }
        i += 1;
        proof {
            assert(!has_failed_download(all.take(i as int))) by {
                if has_failed_download(all.take(i as int)) {
                    let t = all.take(i as int);
                    let k = choose|k: int|
                        0 <= k < t.len() && (#[trigger] t[k]).kind == "download"@ && (t[k].status
                            == "failed"@ || t[k].status == "cancelled"@ || t[k].status
                            == "downloadfailed"@);
                    if k < i - 1 {
                        assert(all.take(i - 1)[k] == t[k]);
                    }
                }
            }
        }
    }
    assert(all.take(i as int) =~= all);
    false
}

/// What is left of an earlier run, for the record: kind, name and state of each row that
/// is not done.
pub open spec fn residue(rows: Seq<SubtaskView>) -> Seq<Seq<char>> {
    unfinished(rows).map_values(
        |r: SubtaskView| r.kind + ":"@ + r.name + ("("@ + r.status + ")"@),
    )
}

/// What is left of an earlier run. A run that starts clears it where there is any.
pub fn residual_subtasks(rows: &Vec<ShareSyncSubtask>) -> (r: Vec<String>)
    ensures
        text::texts(r@) == residue(row_views(rows@)),
{
    let left = unfinished_subtasks(rows);
    let ghost views = row_views(left@);
    let mut r: Vec<String> = Vec::new();
    let mut i: usize = 0;
    while i < left.len()
        invariant
            i <= left@.len(),
            views == row_views(left@),
            views == unfinished(row_views(rows@)),
            text::texts(r@) == residue(row_views(rows@)).take(i as int),
        decreases left@.len() - i,
    {
        let ghost before = text::texts(r@);
        let row = &left[i];
        let head = text::concat3(row.kind.as_str(), ":", row.name.as_str());
        let tail = text::concat3("(", row.status.as_str(), ")");
        let line = concat2(head.as_str(), tail.as_str());
        proof {
            assert(views[i as int] == row@);
            assert(residue(row_views(rows@))[i as int] == line@);
        }
        r.push(line);
        i += 1;
        assert(text::texts(r@) =~= before.push(line@));
        assert(text::texts(r@) =~= residue(row_views(rows@)).take(i as int));
    }
    assert(residue(row_views(rows@)).take(i as int) =~= residue(row_views(rows@)));
    r
}

/// Whether `id` is the id of a row that belongs to no folder.
pub open spec fn is_top_row(rows: Seq<SubtaskView>, id: Seq<char>) -> bool {
    exists|i: int|
        0 <= i < rows.len() && (#[trigger] rows[i]).parent_task_id is None && rows[i].task_id == id
}

/// Whether the row's folder has a row in `all`, or it belongs to none.
pub open spec fn has_parent(all: Seq<SubtaskView>, row: SubtaskView) -> bool {
    match row.parent_task_id {
        Some(p) => is_top_row(all, p),
        None => true,
    }
}

/// The rows without those whose folder's row is missing.
pub open spec fn without_orphans(rows: Seq<SubtaskView>) -> Seq<SubtaskView> {
    rows.filter(|r: SubtaskView| has_parent(rows, r))
}

/// The ids of the rows that belong to no folder.
fn top_rows(rows: &Vec<ShareSyncSubtask>) -> (r: PathSet)
    ensures
        forall|id: Seq<char>| r@.contains(id) <==> is_top_row(row_views(rows@), id),
{
    let ghost all = row_views(rows@);
    let mut r = PathSet::new();
    let mut i: usize = 0;
    while i < rows.len()
        invariant
            i <= rows@.len(),
            all == row_views(rows@),
            forall|id: Seq<char>| r@.contains(id) <==> is_top_row(all.take(i as int), id),
        decreases rows@.len() - i,
    {
        let ghost before = all.take(i as int);
        let ghost after = all.take(i + 1);
        assert(all[i as int] == rows@[i as int]@);
        if rows[i].parent_task_id.is_none() {
            let ghost old_set = r@;
            r.insert(rows[i].task_id.clone());
            proof {
                assert forall|id: Seq<char>| r@.contains(id) <==> is_top_row(after, id) by {
                    if is_top_row(before, id) {
                        let k = choose|k: int|
                            0 <= k < before.len() && (#[trigger] before[k]).parent_task_id is None
                                && before[k].task_id == id;
                        assert(after[k] == before[k]);
                    }
                    if id == rows@[i as int].task_id@ {
                        assert(after[i as int].task_id == id);
                    }
                    if is_top_row(after, id) {
                        let k = choose|k: int|
                            0 <= k < after.len() && (#[trigger] after[k]).parent_task_id is None
                                && after[k].task_id == id;
                        if k < i {
                            assert(before[k] == after[k]);
                        }
                    }
                }
            }
        } else {
            proof {
                assert forall|id: Seq<char>| r@.contains(id) <==> is_top_row(after, id) by {
                    if is_top_row(before, id) {
                        let k = choose|k: int|
                            0 <= k < before.len() && (#[trigger] before[k]).parent_task_id is None
                                && before[k].task_id == id;
                        assert(after[k] == before[k]);
                    }
                    if is_top_row(after, id) {
                        let k = choose|k: int|
                            0 <= k < after.len() && (#[trigger] after[k]).parent_task_id is None
                                && after[k].task_id == id;
                        assert(k < i);
                        assert(before[k] == after[k]);
                    }
                }
            }
        }
        i += 1;
    }
    assert(all.take(i as int) =~= all);
    r
}

/// The rows without those whose folder's row is missing: grouped by folder they would
/// hang from nothing.
pub fn drop_orphan_children(subs: Vec<ShareSyncSubtask>) -> (r: Vec<ShareSyncSubtask>)
    ensures
        row_views(r@) == without_orphans(row_views(subs@)),
{
    let ghost all = row_views(subs@);
    let ghost pred = |r: SubtaskView| has_parent(all, r);
    let parents = top_rows(&subs);
    let mut r: Vec<ShareSyncSubtask> = Vec::new();
    let mut i: usize = 0;
    proof {
        reveal(Seq::filter);
        assert(row_views(r@) =~= all.take(0).filter(pred));
    }
    while i < subs.len()
        invariant
            i <= subs@.len(),
            all == row_views(subs@),
            pred == |r: SubtaskView| has_parent(all, r),
            forall|id: Seq<char>| parents@.contains(id) <==> is_top_row(all, id),
            row_views(r@) == all.take(i as int).filter(pred),
        decreases subs@.len() - i,
    {
        let ghost before = row_views(r@);
        let keep = match &subs[i].parent_task_id {
            Some(p) => parents.contains(p.as_str()),
            None => true,
        };
        proof {
            reveal(Seq::filter);
            assert(all.take(i + 1).drop_last() =~= all.take(i as int));
            assert(all.take(i + 1).last() == subs@[i as int]@);
            assert(keep == pred(subs@[i as int]@));
        }
        if keep {
            r.push(subs[i].clone());
            assert(row_views(r@) =~= before.push(subs@[i as int]@));
        }
        i += 1;
    }
    assert(all.take(i as int) =~= all);
    r
}

proof fn lemma_filter_member(rows: Seq<SubtaskView>, pred: spec_fn(SubtaskView) -> bool)
    ensures
        forall|i: int|
            0 <= i < rows.filter(pred).len() ==> pred(#[trigger] rows.filter(pred)[i])
                && rows.contains(rows.filter(pred)[i]),
        forall|i: int|
            0 <= i < rows.len() && pred(#[trigger] rows[i]) ==> rows.filter(pred).contains(rows[i]),
    decreases rows.len(),
{
    reveal(Seq::filter);
    if rows.len() > 0 {
        let front = rows.drop_last();
        lemma_filter_member(front, pred);
        let f = rows.filter(pred);
        let g = front.filter(pred);
        assert forall|i: int| 0 <= i < f.len() implies pred(#[trigger] f[i]) && rows.contains(
            f[i],
        ) by {
            if i < g.len() {
                assert(f[i] == g[i]);
                assert(front.contains(g[i]));
                let k = choose|k: int| 0 <= k < front.len() && front[k] == g[i];
                assert(rows[k] == g[i]);
            } else {
                assert(f[i] == rows[rows.len() - 1]);
            }
        }
        assert forall|i: int| 0 <= i < rows.len() && pred(#[trigger] rows[i]) implies f.contains(
            rows[i],
        ) by {
            if i < front.len() {
                assert(front[i] == rows[i]);
                assert(g.contains(rows[i]));
                let k = choose|k: int| 0 <= k < g.len() && g[k] == rows[i];
                assert(f[k] == rows[i]);
            } else {
                assert(f[f.len() - 1] == rows[i]);
            }
        }
    }
}

/// A row that stands by itself: it belongs to no folder row.
pub open spec fn stands_alone(r: SubtaskView) -> bool {
    r.parent_task_id is None
}

/// A row of a folder that is not done, under which the row `child` stands.
pub open spec fn is_open_parent(parent: SubtaskView, child: SubtaskView) -> bool {
    &&& child.parent_task_id == Some(parent.task_id)
    &&& "folder:"@.is_prefix_of(parent.task_id)
    &&& parent.parent_task_id is None
    &&& !is_final(parent.status)
}

/// Every row that belongs to a folder is a download whose folder has a row among these that is
/// not done.
pub open spec fn children_have_open_parents(rows: Seq<SubtaskView>) -> bool {
    forall|i: int|
        0 <= i < rows.len() && !stands_alone(#[trigger] rows[i]) ==> rows[i].kind == "download"@
            && exists|j: int| 0 <= j < rows.len() && is_open_parent(#[trigger] rows[j], rows[i])
}

proof fn lemma_all_alone(rows: Seq<SubtaskView>)
    requires
        forall|i: int| 0 <= i < rows.len() ==> stands_alone(#[trigger] rows[i]),
    ensures
        rows.filter(|r: SubtaskView| stands_alone(r)) == rows,
    decreases rows.len(),
{
    reveal(Seq::filter);
    if rows.len() > 0 {
        lemma_all_alone(rows.drop_last());
        assert(stands_alone(rows.last()));
        assert(rows.drop_last().push(rows.last()) =~= rows);
    }
}

proof fn lemma_none_alone(rows: Seq<SubtaskView>)
    requires
        forall|i: int| 0 <= i < rows.len() ==> !stands_alone(#[trigger] rows[i]),
    ensures
        rows.filter(|r: SubtaskView| stands_alone(r)) == Seq::<SubtaskView>::empty(),
    decreases rows.len(),
{
    reveal(Seq::filter);
    if rows.len() > 0 {
        lemma_none_alone(rows.drop_last());
        assert(!stands_alone(rows.last()));
    }
}

proof fn lemma_parents_of_both(a: Seq<SubtaskView>, b: Seq<SubtaskView>)
    requires
        children_have_open_parents(a),
        children_have_open_parents(b),
    ensures
        children_have_open_parents(a + b),
{
    let all = a + b;
    assert forall|i: int| 0 <= i < all.len() && !stands_alone(#[trigger] all[i]) implies all[i].kind
        == "download"@ && exists|j: int|
        0 <= j < all.len() && is_open_parent(#[trigger] all[j], all[i]) by {
        if i < a.len() {
            assert(all[i] == a[i]);
            let j = choose|j: int| 0 <= j < a.len() && is_open_parent(#[trigger] a[j], a[i]);
            assert(all[j] == a[j]);
        } else {
            let k = i - a.len();
            assert(all[i] == b[k]);
            let j = choose|j: int| 0 <= j < b.len() && is_open_parent(#[trigger] b[j], b[k]);
            assert(all[a.len() + j] == b[j]);
        }
    }
}

proof fn lemma_rows_of_folder(f: FolderState, owner_uid: u64)
    ensures
        children_have_open_parents(rows_of_folder(f, owner_uid, true)),
        rows_of_folder(f, owner_uid, true).filter(|r: SubtaskView| stands_alone(r))
            == rows_of_folder(f, owner_uid, false),
{
    let alone = |r: SubtaskView| stands_alone(r);
    let own = folder_row(f, owner_uid);
    let kids = child_rows(f, owner_uid);
    let rows = rows_of_folder(f, owner_uid, true);
    assert(rows[0] == own);
    assert("folder:"@ =~= own.task_id.take("folder:"@.len() as int));
    lemma_all_alone(seq![own]);
    if !is_final(own.status) {
        assert forall|i: int| 0 <= i < kids.len() implies !stands_alone(#[trigger] kids[i]) by {}
        lemma_none_alone(kids);
        Seq::filter_distributes_over_add(seq![own], kids, alone);
        assert(seq![own] + Seq::<SubtaskView>::empty() =~= seq![own]);
        assert forall|i: int|
            0 <= i < rows.len() && !stands_alone(#[trigger] rows[i]) implies rows[i].kind
            == "download"@ && exists|j: int|
            0 <= j < rows.len() && is_open_parent(#[trigger] rows[j], rows[i]) by {
            assert(rows[i] == kids[i - 1]);
            assert(is_open_parent(rows[0], rows[i]));
        }
    }
}

proof fn lemma_folder_rows(folders: Seq<FolderState>, owner_uid: u64)
    ensures
        children_have_open_parents(folder_rows(folders, owner_uid, true)),
        folder_rows(folders, owner_uid, true).filter(|r: SubtaskView| stands_alone(r))
            == folder_rows(folders, owner_uid, false),
        forall|i: int|
            0 <= i < folder_rows(folders, owner_uid, false).len() ==> stands_alone(
                #[trigger] folder_rows(folders, owner_uid, false)[i],
            ),
    decreases folders.len(),
{
    reveal(Seq::filter);
    if folders.len() > 0 {
        let alone = |r: SubtaskView| stands_alone(r);
        let front = folders.drop_last();
        let f = folders.last();
        lemma_folder_rows(front, owner_uid);
        lemma_rows_of_folder(f, owner_uid);
        let (a, b) = (folder_rows(front, owner_uid, true), rows_of_folder(f, owner_uid, true));
        lemma_parents_of_both(a, b);
        Seq::filter_distributes_over_add(a, b, alone);
        let plain = folder_rows(folders, owner_uid, false);
        let before = folder_rows(front, owner_uid, false);
        assert forall|i: int| 0 <= i < plain.len() implies stands_alone(#[trigger] plain[i]) by {
            if i < before.len() {
                assert(plain[i] == before[i]);
            } else {
                assert(plain[i] == folder_row(f, owner_uid));
            }
        }
    }
}

proof fn lemma_transfer_rows_alone(
    transfers: Seq<TransferTask>,
    cfg: Seq<char>,
    owner_uid: u64,
)
    ensures
        forall|i: int|
            0 <= i < transfer_rows(transfers, cfg, owner_uid).len() ==> stands_alone(
                #[trigger] transfer_rows(transfers, cfg, owner_uid)[i],
            ),
    decreases transfers.len(),
{
    if transfers.len() > 0 {
        lemma_transfer_rows_alone(transfers.drop_last(), cfg, owner_uid);
        let front = transfer_rows(transfers.drop_last(), cfg, owner_uid);
        let all = transfer_rows(transfers, cfg, owner_uid);
        assert forall|i: int| 0 <= i < all.len() implies stands_alone(#[trigger] all[i]) by {
            if i < front.len() {
                assert(all[i] == front[i]);
            }
        }
    }
}

/// The rows for display are the plain rows, in their order, with the rows of files added. A plain
/// row stands by itself; every added row is a download that belongs to a folder whose row is
/// listed too and is not done.
pub proof fn law_children_are_added_to_open_folders(
    subscription_id: Seq<char>,
    downloads: Seq<DownloadTask>,
    transfers: Seq<TransferTask>,
    folders: Seq<FolderState>,
    owner_uid: u64,
)
    ensures
        forall|i: int|
            0 <= i < all_rows(
                subscription_id,
                downloads,
                transfers,
                folders,
                owner_uid,
                false,
            ).len() ==> stands_alone(
                #[trigger] all_rows(
                    subscription_id,
                    downloads,
                    transfers,
                    folders,
                    owner_uid,
                    false,
                )[i],
            ),
        all_rows(subscription_id, downloads, transfers, folders, owner_uid, true).filter(
            |r: SubtaskView| stands_alone(r),
        ) == all_rows(subscription_id, downloads, transfers, folders, owner_uid, false),
        children_have_open_parents(
            all_rows(subscription_id, downloads, transfers, folders, owner_uid, true),
        ),
{
    let alone = |r: SubtaskView| stands_alone(r);
    let cfg = backup_config_of(subscription_id);
    let first = download_rows(downloads, owner_uid);
    let second = transfer_rows(transfers, cfg, owner_uid);
    let head = first + second;
    let plain = folder_rows(folders, owner_uid, false);
    let full = folder_rows(folders, owner_uid, true);
    lemma_transfer_rows_alone(transfers, cfg, owner_uid);
    lemma_folder_rows(folders, owner_uid);
    assert forall|i: int| 0 <= i < head.len() implies stands_alone(#[trigger] head[i]) by {
        if i >= first.len() {
            assert(head[i] == second[i - first.len()]);
        }
    }
    lemma_all_alone(head);
    Seq::filter_distributes_over_add(head, full, alone);
    lemma_parents_of_both(head, full);
    let rows = head + plain;
    assert forall|i: int| 0 <= i < rows.len() implies stands_alone(#[trigger] rows[i]) by {
        if i < head.len() {
            assert(rows[i] == head[i]);
        } else {
            assert(rows[i] == plain[i - head.len()]);
        }
    }
}

/// What is left has no orphan: each row that belongs to a folder comes with the folder's
/// row. And no other row is lost: one that belongs to no folder, or whose folder has a
/// row, stays.
pub proof fn law_no_orphans_left(rows: Seq<SubtaskView>)
    ensures
        forall|i: int|
            0 <= i < without_orphans(rows).len() ==> has_parent(
                without_orphans(rows),
                #[trigger] without_orphans(rows)[i],
            ),
        forall|i: int|
            0 <= i < rows.len() && has_parent(rows, #[trigger] rows[i]) ==> without_orphans(
                rows,
            ).contains(rows[i]),
{
    let kept = without_orphans(rows);
    let pred = |r: SubtaskView| has_parent(rows, r);
    lemma_filter_member(rows, pred);
    assert forall|i: int| 0 <= i < kept.len() implies has_parent(kept, #[trigger] kept[i]) by {
        assert(pred(kept[i]));
        if kept[i].parent_task_id is Some {
            let p = kept[i].parent_task_id->0;
            let k = choose|k: int|
                0 <= k < rows.len() && (#[trigger] rows[k]).parent_task_id is None
                    && rows[k].task_id == p;
            assert(pred(rows[k]));
            assert(kept.contains(rows[k]));
            let m = choose|m: int| 0 <= m < kept.len() && kept[m] == rows[k];
            assert(kept[m].task_id == p);
        }
    }
    assert forall|i: int| 0 <= i < rows.len() && has_parent(rows, #[trigger] rows[i]) implies kept.contains(
        rows[i],
    ) by {
        assert(pred(rows[i]));
    }
}

/// The rows shown for a subscription: those that are not done, without orphans.
pub fn visible_subtasks(rows: &Vec<ShareSyncSubtask>) -> (r: Vec<ShareSyncSubtask>)
    ensures
        row_views(r@) == without_orphans(unfinished(row_views(rows@))),
{
    drop_orphan_children(unfinished_subtasks(rows))
}

// ---------------------------------------------------------------------------
// Reporting
// ---------------------------------------------------------------------------
/// The rows to report, and the ids of those reported as done: a row that is done is
/// reported once, one that is not each time.
pub open spec fn reports(rows: Seq<SubtaskView>, reported: Set<Seq<char>>) -> (
    Seq<SubtaskView>,
    Set<Seq<char>>,
)
    decreases rows.len(),
{
    if rows.len() == 0 {
        (Seq::empty(), reported)
    } else {
        let (out, seen) = reports(rows.drop_last(), reported);
        let r = rows.last();
        if !is_final(r.status) {
            (out.push(r), seen)
        } else if seen.contains(r.task_id) {
            (out, seen)
        } else {
            (out.push(r), seen.insert(r.task_id))
        }
    }
}

/// The rows to report; notes those that are done.
pub fn rows_to_report(rows: &Vec<ShareSyncSubtask>, reported_terminal: &mut PathSet) -> (r: Vec<
    ShareSyncSubtask,
>)
    ensures
        row_views(r@) == reports(row_views(rows@), old(reported_terminal)@).0,
        final(reported_terminal)@ == reports(row_views(rows@), old(reported_terminal)@).1,
{
    let ghost all = row_views(rows@);
    let ghost before_all = reported_terminal@;
    let mut r: Vec<ShareSyncSubtask> = Vec::new();
    let mut i: usize = 0;
    assert(row_views(r@) =~= reports(all.take(0), before_all).0);
    while i < rows.len()
        invariant
            i <= rows@.len(),
            all == row_views(rows@),
            row_views(r@) == reports(all.take(i as int), before_all).0,
            reported_terminal@ == reports(all.take(i as int), before_all).1,
        decreases rows@.len() - i,
    {
        let ghost before = row_views(r@);
        let row = &rows[i];
        proof {
            assert(all.take(i + 1).drop_last() =~= all.take(i as int));
            assert(all.take(i + 1).last() == row@);
        }
        let silent = is_terminal_subtask_status(row.status.as_str())
            && !reported_terminal.insert(row.task_id.clone());
        if !silent {
            r.push(row.clone());
            assert(row_views(r@) =~= before.push(row@));
        } else {
            assert(reported_terminal@ =~= reports(all.take(i as int), before_all).1);
        }
        i += 1;
    }
    assert(all.take(i as int) =~= all);
    r
}

/// Every row that is not done is reported. A row that is done and was reported before is
/// not; and after the call each row that is done counts as reported.
pub proof fn law_done_rows_are_reported_once(rows: Seq<SubtaskView>, reported: Set<Seq<char>>)
    ensures
        reported.subset_of(reports(rows, reported).1),
        forall|i: int|
            0 <= i < rows.len() && !is_final((#[trigger] rows[i]).status) ==> reports(
                rows,
                reported,
            ).0.contains(rows[i]),
        forall|i: int|
            0 <= i < rows.len() && is_final((#[trigger] rows[i]).status) ==> reports(
                rows,
                reported,
            ).1.contains(rows[i].task_id),
        forall|i: int|
            0 <= i < reports(rows, reported).0.len() && is_final(
                (#[trigger] reports(rows, reported).0[i]).status,
            ) ==> !reported.contains(reports(rows, reported).0[i].task_id) && reports(
                rows,
                reported,
            ).1.contains(reports(rows, reported).0[i].task_id),
        forall|i: int, j: int|
            0 <= i < j < reports(rows, reported).0.len() && is_final(
                (#[trigger] reports(rows, reported).0[i]).status,
            ) && is_final((#[trigger] reports(rows, reported).0[j]).status) ==> reports(
                rows,
                reported,
            ).0[i].task_id != reports(rows, reported).0[j].task_id,
    decreases rows.len(),
{
    if rows.len() > 0 {
        law_done_rows_are_reported_once(rows.drop_last(), reported);
        let front = rows.drop_last();
        let (out, seen) = reports(front, reported);
        let (now, all) = reports(rows, reported);
        let r = rows.last();
        assert forall|i: int| 0 <= i < rows.len() && !is_final(
            (#[trigger] rows[i]).status,
        ) implies now.contains(rows[i]) by {
            if i < front.len() {
                assert(front[i] == rows[i]);
                let k = choose|k: int| 0 <= k < out.len() && out[k] == rows[i];
                assert(now[k] == rows[i]);
            } else {
                assert(now[now.len() - 1] == r);
            }
        }
        assert forall|i: int| 0 <= i < rows.len() && is_final(
            (#[trigger] rows[i]).status,
        ) implies all.contains(rows[i].task_id) by {
            if i < front.len() {
                assert(front[i] == rows[i]);
            }
        }
        assert forall|i: int| 0 <= i < now.len() && is_final(
            (#[trigger] now[i]).status,
        ) implies !reported.contains(now[i].task_id) && all.contains(now[i].task_id) by {
            if i < out.len() {
                assert(now[i] == out[i]);
            }
        }
        assert forall|i: int, j: int|
            0 <= i < j < now.len() && is_final((#[trigger] now[i]).status) && is_final(
                (#[trigger] now[j]).status,
            ) implies now[i].task_id != now[j].task_id by {
            assert(now[i] == out[i]);
            if j < out.len() {
                assert(now[j] == out[j]);
            }
        }
    }
}

/// How much is done is told in thousandths of a percent, rounded: never more than all, all exactly
/// where nothing is left, and otherwise less than one half away from the exact share.
pub proof fn law_progress_is_rounded(p: Progress)
    ensures
        progress_millis(p) <= 100_000,
        p.total > 0 && p.done >= p.total ==> progress_millis(p) == 100_000,
        p.done == 0 || p.total == 0 ==> progress_millis(p) == 0,
        0 < p.total && p.done <= p.total ==> {
            &&& 2 * (progress_millis(p) * p.total) <= 200_000 * p.done + p.total
            &&& 200_000 * p.done < 2 * (progress_millis(p) * p.total) + p.total
        },
{
    if p.total > 0 && p.done < p.total {
        let a = (200_000 * p.done + p.total) as nat;
        let b = (2 * p.total) as nat;
        let m = progress_millis(p);
        assert(m == a / b);
        vstd::arithmetic::div_mod::lemma_fundamental_div_mod(a as int, b as int);
        vstd::arithmetic::div_mod::lemma_mod_bound(a as int, b as int);
        assert(b * m == 2 * (m * p.total)) by (nonlinear_arith)
            requires
                b == 2 * p.total,
        ;
        if m > 100_000 {
            assert(m * p.total >= 100_001 * p.total) by (nonlinear_arith)
                requires
                    m >= 100_001,
            ;
        }
        if p.done == 0 {
            assert(a < b);
            vstd::arithmetic::div_mod::lemma_basic_div(a as int, b as int);
        }
    }
    if p.total > 0 && p.done == p.total {
        assert(progress_millis(p) * p.total == 100_000 * p.total);
    }
}

/// The time that is left is the rest divided by the speed, whole seconds of it; there is none
/// where nothing moves or nothing is left.
pub proof fn law_time_left_is_the_rest_by_the_speed(downloaded: u64, total: u64, speed: u64)
    ensures
        eta(downloaded, total, speed) is None <==> speed == 0 || downloaded >= total,
        eta(downloaded, total, speed) matches Some(s) ==> s * speed <= total - downloaded < (s + 1)
            * speed,
{
    if speed > 0 && downloaded < total {
        let rest = total - downloaded;
        let s = rest / (speed as int);
        vstd::arithmetic::div_mod::lemma_fundamental_div_mod(rest, speed as int);
        vstd::arithmetic::div_mod::lemma_mod_bound(rest, speed as int);
        assert(s * speed <= rest < (s + 1) * speed) by (nonlinear_arith)
            requires
                rest == speed * s + rest % (speed as int),
                0 <= rest % (speed as int) < speed,
        ;
        assert(0 <= s <= rest) by (nonlinear_arith)
            requires
                rest == speed * s + rest % (speed as int),
                0 <= rest % (speed as int) < speed,
                speed > 0,
                rest > 0,
        ;
    }
}

/// The speed of a folder is the sum over its files that are being downloaded.
pub proof fn law_running_speed_adds_up(tasks: Seq<DownloadTask>, t: DownloadTask)
    ensures
        running_speed(seq![]) == 0,
        t.status == TaskStatus::Downloading ==> running_speed(tasks.push(t)) == running_speed(tasks)
            + t.speed,
        t.status != TaskStatus::Downloading ==> running_speed(tasks.push(t)) == running_speed(tasks),
{
    assert(tasks.push(t).drop_last() =~= tasks);
}

/// The row of a download says what its task says; it is final exactly where the task is done or
/// has failed.
pub proof fn law_download_row_says_what_the_task_says(t: DownloadTask, owner_uid: u64)
    ensures
        download_row(t, owner_uid).task_id == t.id@,
        download_row(t, owner_uid).kind == "download"@,
        download_row(t, owner_uid).downloaded == t.downloaded_size,
        download_row(t, owner_uid).total == t.total_size,
        download_row(t, owner_uid).progress == (Progress {
            done: t.downloaded_size,
            total: t.total_size,
        }),
        download_row(t, owner_uid).speed == t.speed,
        download_row(t, owner_uid).owner_uid == owner_uid,
        download_row(t, owner_uid).parent_task_id is None,
        is_final(download_row(t, owner_uid).status) <==> (t.status == TaskStatus::Completed
            || t.status == TaskStatus::Failed),
{
    reveal_strlit("pending");
    reveal_strlit("downloading");
    reveal_strlit("decrypting");
    reveal_strlit("paused");
    reveal_strlit("completed");
    reveal_strlit("success");
    reveal_strlit("failed");
    reveal_strlit("cancelled");
    reveal_strlit("transferred");
    reveal_strlit("transferfailed");
    reveal_strlit("downloadfailed");
    assert("pending"@[0] == 'p' && "pending"@.len() == 7);
    assert("downloading"@[0] == 'd' && "downloading"@.len() == 11);
    assert("decrypting"@[0] == 'd' && "decrypting"@.len() == 10);
    assert("paused"@[0] == 'p' && "paused"@.len() == 6);
    assert("completed"@.len() == 9);
    assert("success"@[0] == 's' && "success"@.len() == 7);
    assert("failed"@[0] == 'f' && "failed"@.len() == 6);
    assert("cancelled"@.len() == 9 && "cancelled"@[1] == 'a');
    assert("transferred"@[0] == 't' && "transferred"@.len() == 11);
    assert("transferfailed"@.len() == 14);
    assert("downloadfailed"@.len() == 14);
}

/// The row of a folder stands for the folder: with its bytes and the speed of its files.
pub proof fn law_folder_row_says_what_the_folder_says(f: FolderState, owner_uid: u64)
    requires
        running_speed(f.children@) <= u64::MAX,
    ensures
        folder_row(f, owner_uid).task_id == "folder:"@ + f.folder.id@,
        folder_row(f, owner_uid).kind == "download"@,
        folder_row(f, owner_uid).name == f.folder.name@,
        folder_row(f, owner_uid).downloaded == f.folder.downloaded_size,
        folder_row(f, owner_uid).total == f.folder.total_size,
        folder_row(f, owner_uid).speed == running_speed(f.children@),
        folder_row(f, owner_uid).progress == f.progress,
        folder_row(f, owner_uid).owner_uid == owner_uid,
        folder_row(f, owner_uid).parent_task_id is None,
{
}

/// The row of a transfer counts its files.
pub proof fn law_transfer_row_says_what_the_task_says(t: TransferTask, owner_uid: u64)
    requires
        t.transferred_count <= u64::MAX,
        t.total_count <= u64::MAX,
    ensures
        transfer_row(t, owner_uid).task_id == t.id@,
        transfer_row(t, owner_uid).kind == "transfer"@,
        transfer_row(t, owner_uid).downloaded == t.transferred_count,
        transfer_row(t, owner_uid).total == t.total_count,
        transfer_row(t, owner_uid).progress == (Progress {
            done: t.transferred_count as u64,
            total: t.total_count as u64,
        }),
        transfer_row(t, owner_uid).speed == 0,
        transfer_row(t, owner_uid).owner_uid == owner_uid,
        transfer_row(t, owner_uid).parent_task_id is None,
        transfer_row(t, owner_uid).eta_seconds is None,
{
}

/// One more task brings one more row: each download its own; a transfer exactly where it was made
/// for the subscription; a folder one, and one for each of its files where these are wanted and
/// the folder is not done.
pub proof fn law_each_task_has_its_row(
    downloads: Seq<DownloadTask>,
    d: DownloadTask,
    transfers: Seq<TransferTask>,
    t: TransferTask,
    folders: Seq<FolderState>,
    f: FolderState,
    cfg: Seq<char>,
    owner_uid: u64,
    children: bool,
)
    ensures
        download_rows(downloads.push(d), owner_uid) == download_rows(downloads, owner_uid).push(
            download_row(d, owner_uid),
        ),
        (t.is_internal && (t.backup_config_id matches Some(c) && c@ == cfg)) ==> transfer_rows(
            transfers.push(t),
            cfg,
            owner_uid,
        ) == transfer_rows(transfers, cfg, owner_uid).push(transfer_row(t, owner_uid)),
        !(t.is_internal && (t.backup_config_id matches Some(c) && c@ == cfg)) ==> transfer_rows(
            transfers.push(t),
            cfg,
            owner_uid,
        ) == transfer_rows(transfers, cfg, owner_uid),
        folder_rows(folders.push(f), owner_uid, children).len() == folder_rows(
            folders,
            owner_uid,
            children,
        ).len() + 1 + if children && f.folder.status != FolderStatus::Completed && f.folder.status
            != FolderStatus::Failed && f.folder.status != FolderStatus::Cancelled {
            f.children@.len()
        } else {
            0
        },
        folder_rows(folders, owner_uid, children).is_prefix_of(
            folder_rows(folders.push(f), owner_uid, children),
        ),
        folder_rows(folders.push(f), owner_uid, children)[folder_rows(
            folders,
            owner_uid,
            children,
        ).len() as int] == folder_row(f, owner_uid),
{
    assert(download_rows(downloads.push(d), owner_uid) =~= download_rows(downloads, owner_uid).push(
        download_row(d, owner_uid),
    ));
    assert(transfers.push(t).drop_last() =~= transfers);
    assert(folders.push(f).drop_last() =~= folders);
    let front = folder_rows(folders, owner_uid, children);
    let all = folder_rows(folders.push(f), owner_uid, children);
    law_folder_row_final_iff_folder_final(
        f.folder.status,
        only_waiting(statuses_of(f.children@)),
    );
    assert(all == front + rows_of_folder(f, owner_uid, children));
    assert(all.take(front.len() as int) =~= front);
}

/// A row that is left to be done is one whose state is none of those that end a task.
pub proof fn law_which_states_are_final(status: Seq<char>)
    ensures
        is_final(status) <==> (status == "completed"@ || status == "success"@ || status == "failed"@
            || status == "cancelled"@ || status == "transferred"@ || status == "transferfailed"@
            || status == "downloadfailed"@),
        is_final_item(status) <==> (status == "completed"@ || status == "failed"@ || status
            == "skipped"@),
{
}

/// A download has failed where a row of a download says so, or that it was cancelled.
pub proof fn law_when_a_download_has_failed(rows: Seq<SubtaskView>, row: SubtaskView)
    ensures
        !has_failed_download(seq![]),
        has_failed_download(rows.push(row)) <==> has_failed_download(rows) || (row.kind
            == "download"@ && (row.status == "failed"@ || row.status == "cancelled"@ || row.status
            == "downloadfailed"@)),
{
    let all = rows.push(row);
    assert(all[rows.len() as int] == row);
    if has_failed_download(rows) {
        let i = choose|i: int|
            0 <= i < rows.len() && (#[trigger] rows[i]).kind == "download"@ && (rows[i].status
                == "failed"@ || rows[i].status == "cancelled"@ || rows[i].status
                == "downloadfailed"@);
        assert(all[i] == rows[i]);
    }
    if has_failed_download(all) {
        let i = choose|i: int|
            0 <= i < all.len() && (#[trigger] all[i]).kind == "download"@ && (all[i].status
                == "failed"@ || all[i].status == "cancelled"@ || all[i].status
                == "downloadfailed"@);
        if i < rows.len() {
            assert(rows[i] == all[i]);
        }
    }
}

/// A folder waits for its turn where none of its files moves and one of them is pending or paused.
pub proof fn law_when_a_folder_waits(statuses: Seq<TaskStatus>)
    ensures
        only_waiting(statuses) ==> !statuses.contains(TaskStatus::Downloading)
            && !statuses.contains(TaskStatus::Decrypting),
        !statuses.contains(TaskStatus::Downloading) && !statuses.contains(TaskStatus::Decrypting)
            && (statuses.contains(TaskStatus::Pending) || statuses.contains(TaskStatus::Paused))
            ==> only_waiting(statuses),
        only_waiting(statuses) ==> statuses.contains(TaskStatus::Pending) || statuses.contains(
            TaskStatus::Paused,
        ),
{
}

/// A row that is not final is left over, and told by its kind, its name and its status; a final
/// one is not. Rows that download and are not final are counted.
pub proof fn law_what_is_left_over(rows: Seq<SubtaskView>, r: SubtaskView)
    ensures
        unfinished(seq![]).len() == 0,
        residue(seq![]).len() == 0,
        open_downloads(seq![]).len() == 0,
        r.status == "completed"@ || r.status == "success"@ || r.status == "failed"@ || r.status
            == "cancelled"@ || r.status == "transferred"@ || r.status == "transferfailed"@
            || r.status == "downloadfailed"@ ==> unfinished(rows.push(r)) == unfinished(rows)
            && residue(rows.push(r)) == residue(rows) && open_downloads(rows.push(r))
            == open_downloads(rows),
        !(r.status == "completed"@ || r.status == "success"@ || r.status == "failed"@ || r.status
            == "cancelled"@ || r.status == "transferred"@ || r.status == "transferfailed"@
            || r.status == "downloadfailed"@) ==> {
            &&& unfinished(rows.push(r)) == unfinished(rows).push(r)
            &&& residue(rows.push(r)) == residue(rows).push(
                r.kind + ":"@ + r.name + "("@ + r.status + ")"@,
            )
            &&& open_downloads(rows.push(r)).len() == open_downloads(rows).len() + if r.kind
                == "download"@ {
                1nat
            } else {
                0nat
            }
        },
{
    reveal(Seq::filter);
    assert(rows.push(r).drop_last() =~= rows);
    assert(residue(rows.push(r)) =~= if is_final(r.status) {
        residue(rows)
    } else {
        residue(rows).push(r.kind + ":"@ + r.name + ("("@ + r.status + ")"@))
    });
    assert(r.kind + ":"@ + r.name + ("("@ + r.status + ")"@) =~= r.kind + ":"@ + r.name + "("@
        + r.status + ")"@);
}

/// A file of a folder is named by its place in the folder, where that is known, and is listed
/// under the folder; all else of it is said as of a download of its own.
pub proof fn law_file_of_a_folder_says_what_the_task_says(
    t: DownloadTask,
    parent: Seq<char>,
    owner_uid: u64,
)
    ensures
        child_row(t, parent, owner_uid).parent_task_id == Some(parent),
        t.relative_path matches Some(p) && p@.len() > 0 ==> child_row(t, parent, owner_uid).name
            == t.relative_path->Some_0@,
        child_row(t, parent, owner_uid).task_id == download_row(t, owner_uid).task_id,
        child_row(t, parent, owner_uid).status == download_row(t, owner_uid).status,
        child_row(t, parent, owner_uid).kind == download_row(t, owner_uid).kind,
        child_row(t, parent, owner_uid).downloaded == download_row(t, owner_uid).downloaded,
        child_row(t, parent, owner_uid).total == download_row(t, owner_uid).total,
{
}

} // verus!
