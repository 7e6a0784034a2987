//! Shares and their entries as the disk's service describes them.
use vstd::prelude::*;

use crate::text;

verus! {

/// The two share systems of the service.
#[derive(Debug, Clone, Copy, PartialEq, Eq, Structural)]
pub enum ShareKind {
    /// Links of the form `/s/1...`.
    Personal,
    /// Links of the form `/apaas/share?surl=...`.
    Apaas,
}

/// One entry of a shared directory.
#[derive(Debug)]
pub struct SharedFileInfo {
    pub fs_id: u64,
    pub is_dir: bool,
    pub path: String,
    pub size: u64,
    pub name: String,
}

/// What a `SharedFileInfo` holds.
#[verifier::ext_equal]
pub struct FileView {
    pub fs_id: u64,
    pub is_dir: bool,
    pub path: Seq<char>,
    pub size: u64,
    pub name: Seq<char>,
}

impl View for SharedFileInfo {
    type V = FileView;

    open spec fn view(&self) -> FileView {
        FileView {
            fs_id: self.fs_id,
            is_dir: self.is_dir,
            path: self.path@,
            size: self.size,
            name: self.name@,
        }
    }
}

impl Clone for SharedFileInfo {
    fn clone(&self) -> (r: Self)
        ensures
            r == *self,
    {
        SharedFileInfo {
            fs_id: self.fs_id,
            is_dir: self.is_dir,
            path: self.path.clone(),
            size: self.size,
            name: self.name.clone(),
        }
    }
}

/// What several entries hold.
pub open spec fn file_views(files: Seq<SharedFileInfo>) -> Seq<FileView> {
    files.map_values(|f: SharedFileInfo| f@)
}

/// An equal list of entries.
pub fn copy_files(files: &Vec<SharedFileInfo>) -> (r: Vec<SharedFileInfo>)
    ensures
        r@ == files@,
{
    let mut r: Vec<SharedFileInfo> = Vec::new();
    let mut i: usize = 0;
    while i < files.len()
        invariant
            i <= files@.len(),
            r@ == files@.take(i as int),
        decreases files@.len() - i,
    {
        r.push(files[i].clone());
        i += 1;
        assert(files@.take(i as int) =~= files@.take(i - 1).push(files@[i - 1]));
    }
    assert(files@.take(i as int) =~= files@);
    r
}

/// A link to a share.
#[derive(Debug)]
pub struct ShareLink {
    pub short_key: String,
    pub raw_url: String,
    pub password: Option<String>,
    pub kind: ShareKind,
}

/// What the page of a share tells about it.
#[derive(Debug)]
pub struct SharePageInfo {
    pub shareid: String,
    pub uk: String,
    pub share_uk: String,
    pub bdstoken: String,
    pub kind: ShareKind,
    pub short_key: String,
}

/// The top directory of a share.
#[derive(Debug)]
pub struct ShareFileListResult {
    pub files: Vec<SharedFileInfo>,
    pub uk: String,
    pub shareid: String,
    pub share_root_path: Option<String>,
}

impl ShareFileListResult {
    /// Whether there is no entry.
    pub fn is_empty(&self) -> (r: bool)
        ensures
            r == (self.files@.len() == 0),
    {
        self.files.len() == 0
    }

    /// The number of entries.
    pub fn len(&self) -> (r: usize)
        ensures
            r == self.files@.len(),
    {
        self.files.len()
    }
}

/// The outcome of copying entries of a share to one's own disk.
#[derive(Debug)]
pub struct TransferResult {
    pub success: bool,
    pub transferred_paths: Vec<String>,
    pub from_paths: Vec<String>,
    pub error: Option<String>,
    pub transferred_fs_ids: Vec<u64>,
}

/// The state of a transfer task.
#[derive(Debug, Clone, Copy, PartialEq, Eq, Structural)]
pub enum TransferStatus {
    Queued,
    CheckingShare,
    Transferring,
    /// Copied to the disk; nothing is downloaded.
    Transferred,
    TransferFailed,
    Downloading,
    DownloadFailed,
    Completed,
}

/// The name of a transfer's state.
pub open spec fn transfer_status_name(s: TransferStatus) -> Seq<char> {
    match s {
        TransferStatus::Queued => "Queued"@,
        TransferStatus::CheckingShare => "CheckingShare"@,
        TransferStatus::Transferring => "Transferring"@,
        TransferStatus::Transferred => "Transferred"@,
        TransferStatus::TransferFailed => "TransferFailed"@,
        TransferStatus::Downloading => "Downloading"@,
        TransferStatus::DownloadFailed => "DownloadFailed"@,
        TransferStatus::Completed => "Completed"@,
    }
}

/// The name of a transfer's state in lower case.
pub open spec fn transfer_status_text(s: TransferStatus) -> Seq<char> {
    match s {
        TransferStatus::Queued => "queued"@,
        TransferStatus::CheckingShare => "checkingshare"@,
        TransferStatus::Transferring => "transferring"@,
        TransferStatus::Transferred => "transferred"@,
        TransferStatus::TransferFailed => "transferfailed"@,
        TransferStatus::Downloading => "downloading"@,
        TransferStatus::DownloadFailed => "downloadfailed"@,
        TransferStatus::Completed => "completed"@,
    }
}

impl TransferStatus {
    /// The name of the state.
    pub fn name(&self) -> (r: &'static str)
        ensures
            r@ == transfer_status_name(*self),
    {
        match self {
            TransferStatus::Queued => "Queued",
            TransferStatus::CheckingShare => "CheckingShare",
            TransferStatus::Transferring => "Transferring",
            TransferStatus::Transferred => "Transferred",
            TransferStatus::TransferFailed => "TransferFailed",
            TransferStatus::Downloading => "Downloading",
            TransferStatus::DownloadFailed => "DownloadFailed",
            TransferStatus::Completed => "Completed",
        }
    }

    /// The name of the state in lower case.
    pub fn as_str(&self) -> (r: &'static str)
        ensures
            r@ == transfer_status_text(*self),
    {
        match self {
            TransferStatus::Queued => "queued",
            TransferStatus::CheckingShare => "checkingshare",
            TransferStatus::Transferring => "transferring",
            TransferStatus::Transferred => "transferred",
            TransferStatus::TransferFailed => "transferfailed",
            TransferStatus::Downloading => "downloading",
            TransferStatus::DownloadFailed => "downloadfailed",
            TransferStatus::Completed => "completed",
        }
    }
}

/// A task that copies entries of a share to one's own disk, and downloads them where it
/// is asked to.
#[derive(Debug)]
pub struct TransferTask {
    pub id: String,
    pub file_name: Option<String>,
    pub save_path: String,
    pub status: TransferStatus,
    pub transferred_count: usize,
    pub total_count: usize,
    pub error: Option<String>,
    pub download_task_ids: Vec<String>,
    pub completed_download_ids: Vec<String>,
    pub failed_download_ids: Vec<String>,
    pub is_internal: bool,
    pub backup_config_id: Option<String>,
    /// Seconds since the Unix epoch.
    pub updated_at: i64,
}

/// What to do with a local file that is already there.
#[derive(Debug, Clone, Copy, PartialEq, Eq, Structural)]
pub enum DownloadConflictStrategy {
    Overwrite,
    Skip,
}

/// What is asked of the transfer manager.
#[derive(Debug)]
pub struct CreateTransferRequest {
    pub share_url: String,
    pub password: Option<String>,
    pub randsk: Option<String>,
    /// What is known of the share, so that its page need not be read again.
    pub prefetched_share: Option<SharePageInfo>,
    pub save_path: String,
    pub save_fs_id: u64,
    pub auto_download: Option<bool>,
    pub local_download_path: Option<String>,
    /// Whether the entries are only downloaded, and not kept on the disk.
    pub is_share_direct_download: bool,
    pub download_conflict_strategy: Option<DownloadConflictStrategy>,
    pub selected_fs_ids: Option<Vec<u64>>,
    pub selected_files: Option<Vec<SharedFileInfo>>,
    pub owner_uid_override: Option<u64>,
    pub is_internal: bool,
    pub backup_config_id: Option<String>,
}

/// What the transfer manager answers.
#[derive(Debug)]
pub struct CreateTransferResponse {
    pub task_id: Option<String>,
    pub need_password: bool,
    pub error: Option<String>,
}

/// What a `SharePageInfo` holds.
#[verifier::ext_equal]
pub struct PageInfoView {
    pub shareid: Seq<char>,
    pub uk: Seq<char>,
    pub share_uk: Seq<char>,
    pub bdstoken: Seq<char>,
    pub kind: ShareKind,
    pub short_key: Seq<char>,
}

impl View for SharePageInfo {
    type V = PageInfoView;

    open spec fn view(&self) -> PageInfoView {
        PageInfoView {
            shareid: self.shareid@,
            uk: self.uk@,
            share_uk: self.share_uk@,
            bdstoken: self.bdstoken@,
            kind: self.kind,
            short_key: self.short_key@,
        }
    }
}

/// What a `CreateTransferRequest` holds.
#[verifier::ext_equal]
pub struct RequestView {
    pub share_url: Seq<char>,
    pub password: Option<Seq<char>>,
    pub randsk: Option<Seq<char>>,
    pub prefetched_share: Option<PageInfoView>,
    pub save_path: Seq<char>,
    pub save_fs_id: u64,
    pub auto_download: Option<bool>,
    pub local_download_path: Option<Seq<char>>,
    pub is_share_direct_download: bool,
    pub download_conflict_strategy: Option<DownloadConflictStrategy>,
    pub selected_fs_ids: Option<Seq<u64>>,
    pub selected_files: Option<Seq<FileView>>,
    pub owner_uid_override: Option<u64>,
    pub is_internal: bool,
    pub backup_config_id: Option<Seq<char>>,
}

impl View for CreateTransferRequest {
    type V = RequestView;

    open spec fn view(&self) -> RequestView {
        RequestView {
            share_url: self.share_url@,
            password: text::opt_text(self.password),
            randsk: text::opt_text(self.randsk),
            prefetched_share: match self.prefetched_share {
                Some(p) => Some(p@),
                None => None,
            },
            save_path: self.save_path@,
            save_fs_id: self.save_fs_id,
            auto_download: self.auto_download,
            local_download_path: text::opt_text(self.local_download_path),
            is_share_direct_download: self.is_share_direct_download,
            download_conflict_strategy: self.download_conflict_strategy,
            selected_fs_ids: match self.selected_fs_ids {
                Some(v) => Some(v@),
                None => None,
            },
            selected_files: match self.selected_files {
                Some(v) => Some(file_views(v@)),
                None => None,
            },
            owner_uid_override: self.owner_uid_override,
            is_internal: self.is_internal,
            backup_config_id: text::opt_text(self.backup_config_id),
        }
    }
}

} // verus!
