//! Download tasks and folder downloads.
use vstd::prelude::*;

use crate::collections::PathSet;
use crate::ids::{fresh_id, now_utc};
use crate::text;
use crate::text::copy_opt;

verus! {

/// The state of a download task.
#[derive(Debug, Clone, Copy, PartialEq, Eq, Structural)]
pub enum TaskStatus {
    Pending,
    Downloading,
    Decrypting,
    Paused,
    Completed,
    Failed,
}

/// The state of a folder download.
#[derive(Debug, Clone, Copy, PartialEq, Eq, Structural)]
pub enum FolderStatus {
    Scanning,
    Downloading,
    Paused,
    Completed,
    Failed,
    Cancelled,
}

/// The name of a task's state in lower case.
pub open spec fn task_status_text(s: TaskStatus) -> Seq<char> {
    match s {
        TaskStatus::Pending => "pending"@,
        TaskStatus::Downloading => "downloading"@,
        TaskStatus::Decrypting => "decrypting"@,
        TaskStatus::Paused => "paused"@,
        TaskStatus::Completed => "completed"@,
        TaskStatus::Failed => "failed"@,
    }
}

/// The name of a folder's state in lower case.
pub open spec fn folder_status_text(s: FolderStatus) -> Seq<char> {
    match s {
        FolderStatus::Scanning => "scanning"@,
        FolderStatus::Downloading => "downloading"@,
        FolderStatus::Paused => "paused"@,
        FolderStatus::Completed => "completed"@,
        FolderStatus::Failed => "failed"@,
        FolderStatus::Cancelled => "cancelled"@,
    }
}

impl TaskStatus {
    /// The name of the state in lower case.
    pub fn as_str(&self) -> (r: &'static str)
        ensures
            r@ == task_status_text(*self),
    {
        match self {
            TaskStatus::Pending => "pending",
            TaskStatus::Downloading => "downloading",
            TaskStatus::Decrypting => "decrypting",
            TaskStatus::Paused => "paused",
            TaskStatus::Completed => "completed",
            TaskStatus::Failed => "failed",
        }
    }
}

impl FolderStatus {
    /// The name of the state in lower case.
    pub fn as_str(&self) -> (r: &'static str)
        ensures
            r@ == folder_status_text(*self),
    {
        match self {
            FolderStatus::Scanning => "scanning",
            FolderStatus::Downloading => "downloading",
            FolderStatus::Paused => "paused",
            FolderStatus::Completed => "completed",
            FolderStatus::Failed => "failed",
            FolderStatus::Cancelled => "cancelled",
        }
    }
}

/// The download of one file.
#[derive(Debug)]
pub struct DownloadTask {
    pub id: String,
    pub fs_id: u64,
    pub remote_path: String,
    pub local_path: String,
    pub total_size: u64,
    pub downloaded_size: u64,
    /// Bytes per second.
    pub speed: u64,
    pub status: TaskStatus,
    /// The folder download that the task belongs to.
    pub group_id: Option<String>,
    /// The path below the folder, where the task belongs to one.
    pub relative_path: Option<String>,
    pub backup_config_id: Option<String>,
    pub owner_uid: u64,
    /// Seconds since the Unix epoch.
    pub created_at: i64,
}

impl Clone for DownloadTask {
    fn clone(&self) -> (r: Self)
        ensures
            r == *self,
    {
        DownloadTask {
            id: self.id.clone(),
            fs_id: self.fs_id,
            remote_path: self.remote_path.clone(),
            local_path: self.local_path.clone(),
            total_size: self.total_size,
            downloaded_size: self.downloaded_size,
            speed: self.speed,
            status: self.status,
            group_id: copy_opt(&self.group_id),
            relative_path: copy_opt(&self.relative_path),
            backup_config_id: copy_opt(&self.backup_config_id),
            owner_uid: self.owner_uid,
            created_at: self.created_at,
        }
    }
}

impl DownloadTask {
    /// A task that waits to be started.
    pub fn new(
        fs_id: u64,
        remote_path: String,
        local_path: String,
        total_size: u64,
        owner_uid: u64,
    ) -> (r: DownloadTask)
        ensures
            r.fs_id == fs_id,
            r.remote_path == remote_path,
            r.local_path == local_path,
            r.total_size == total_size,
            r.owner_uid == owner_uid,
            r.downloaded_size == 0,
            r.speed == 0,
            r.status == TaskStatus::Pending,
            r.group_id is None,
            r.relative_path is None,
            r.backup_config_id is None,
            r.id@.len() == 36,
    {
        DownloadTask {
            id: fresh_id(),
            fs_id,
            remote_path,
            local_path,
            total_size,
            downloaded_size: 0,
            speed: 0,
            status: TaskStatus::Pending,
            group_id: None,
            relative_path: None,
            backup_config_id: None,
            owner_uid,
            created_at: now_utc().secs,
        }
    }
}

/// The download of a whole folder.
pub struct FolderDownload {
    pub id: String,
    pub name: String,
    pub remote_root: String,
    pub local_root: String,
    pub status: FolderStatus,
    pub total_files: u64,
    pub total_size: u64,
    /// The files that are done.
    pub completed_count: u64,
    /// The bytes of the files that are done.
    pub completed_downloaded_size: u64,
    pub downloaded_size: u64,
    /// The tasks whose bytes `completed_downloaded_size` holds already.
    pub counted_task_ids: PathSet,
    pub backup_config_id: Option<String>,
    pub owner_uid: u64,
    /// Seconds since the Unix epoch.
    pub created_at: i64,
}

/// The bytes of the tasks that are not counted yet.
pub open spec fn uncounted_bytes(counted: Set<Seq<char>>, tasks: Seq<(String, u64)>) -> nat
    decreases tasks.len(),
{
    if tasks.len() == 0 {
        0
    } else {
        uncounted_bytes(counted, tasks.drop_last()) + if counted.contains(tasks.last().0@) {
            0
        } else {
            tasks.last().1 as nat
        }
    }
}

pub proof fn lemma_uncounted_grows(counted: Set<Seq<char>>, tasks: Seq<(String, u64)>, i: int)
    requires
        0 <= i <= tasks.len(),
    ensures
        uncounted_bytes(counted, tasks.take(i)) <= uncounted_bytes(counted, tasks),
    decreases tasks.len() - i,
{
    if i < tasks.len() {
        lemma_uncounted_grows(counted, tasks, i + 1);
        assert(tasks.take(i + 1).drop_last() =~= tasks.take(i));
    } else {
        assert(tasks.take(i) =~= tasks);
    }
}

/// The bytes that are not counted yet add up: each task that is not counted brings its own, in
/// whatever place it stands, and a task that is counted brings none.
pub proof fn law_uncounted_bytes_add_up(
    counted: Set<Seq<char>>,
    a: Seq<(String, u64)>,
    t: (String, u64),
    b: Seq<(String, u64)>,
)
    ensures
        uncounted_bytes(counted, seq![]) == 0,
        uncounted_bytes(counted, a + b) == uncounted_bytes(counted, a) + uncounted_bytes(counted, b),
        !counted.contains(t.0@) ==> uncounted_bytes(counted, a.push(t)) == uncounted_bytes(
            counted,
            a,
        ) + t.1,
        counted.contains(t.0@) ==> uncounted_bytes(counted, a.push(t)) == uncounted_bytes(
            counted,
            a,
        ),
    decreases b.len(),
{
    assert(a.push(t).drop_last() =~= a);
    if b.len() == 0 {
        assert(a + b =~= a);
    } else {
        law_uncounted_bytes_add_up(counted, a, t, b.drop_last());
        assert((a + b).drop_last() =~= a + b.drop_last());
        assert((a + b).last() == b.last());
    }
}

impl FolderDownload {
    /// A folder download that is to be scanned.
    pub fn new(remote_root: String, local_root: String) -> (r: FolderDownload)
        ensures
            r.remote_root == remote_root,
            r.local_root == local_root,
            r.name@ == crate::share_sync::paths::after_last_slash(
                text::strip_end(remote_root@, '/'),
            ),
            r.status == FolderStatus::Scanning,
            r.total_files == 0,
            r.total_size == 0,
            r.completed_count == 0,
            r.completed_downloaded_size == 0,
            r.downloaded_size == 0,
            r.counted_task_ids@ == Set::<Seq<char>>::empty(),
            r.backup_config_id is None,
            r.owner_uid == 0,
            r.id@.len() == 36,
    {
        let name = crate::share_sync::target_paths::basename_of(remote_root.as_str());
        FolderDownload {
            id: fresh_id(),
            name,
            remote_root,
            local_root,
            status: FolderStatus::Scanning,
            total_files: 0,
            total_size: 0,
            completed_count: 0,
            completed_downloaded_size: 0,
            downloaded_size: 0,
            counted_task_ids: PathSet::new(),
            backup_config_id: None,
            owner_uid: 0,
            created_at: now_utc().secs,
        }
    }

    /// The bytes of the given tasks, without those of tasks that are counted already.
    pub fn active_downloaded_excluding_counted(&self, tasks: &Vec<(String, u64)>) -> (r: u64)
        requires
            uncounted_bytes(self.counted_task_ids@, tasks@) <= u64::MAX,
        ensures
            r == uncounted_bytes(self.counted_task_ids@, tasks@),
    {
        let mut sum: u64 = 0;
        let mut i: usize = 0;
        while i < tasks.len()
            invariant
                i <= tasks@.len(),
                uncounted_bytes(self.counted_task_ids@, tasks@) <= u64::MAX,
                sum == uncounted_bytes(self.counted_task_ids@, tasks@.take(i as int)),
            decreases tasks@.len() - i,
        {
            proof {
                assert(tasks@.take(i + 1).drop_last() =~= tasks@.take(i as int));
                assert(tasks@.take(i + 1).last() == tasks@[i as int]);
                lemma_uncounted_grows(self.counted_task_ids@, tasks@, i + 1);
            }
            if !self.counted_task_ids.contains(tasks[i].0.as_str()) {
                sum += tasks[i].1;
            }
            i += 1;
        }
        assert(tasks@.take(i as int) =~= tasks@);
        sum
    }

    /// Brings the downloaded bytes up to date: the bytes of the files that are done and of
    /// those that are active. The number never goes down.
    pub fn compute_downloaded_size(&mut self, active: u64) -> (r: u64)
        requires
            old(self).completed_downloaded_size + active <= u64::MAX,
        ensures
            r as int == if old(self).downloaded_size > old(self).completed_downloaded_size + active {
                old(self).downloaded_size as int
            } else {
                old(self).completed_downloaded_size + active
            },
            *final(self) == (FolderDownload { downloaded_size: r, ..*old(self) }),
    {
        let computed: u64 = self.completed_downloaded_size + active;
        if computed > self.downloaded_size {
            self.downloaded_size = computed;
        }
        self.downloaded_size
    }
}

} // verus!
