//! Handing work to the transfer manager and the disk.
use vstd::prelude::*;
use vstd::string::*;

use crate::netdisk::share::links;
use crate::share_sync::error;
use crate::share_sync::error::ShareSyncError;
use crate::share_sync::paths;
use crate::share_sync::snapshot;
use crate::share_sync::snapshot::{CapturedShare, ShareSnapshotItem};
use crate::share_sync::subtasks;
use crate::share_sync::target_paths;
use crate::share_sync::target_paths::{
    basename_netdisk_path, is_netdisk_not_found_error, join_netdisk_path, normalize_netdisk_path,
    parent_netdisk_dir, share_direct_download_root,
};
use crate::text;
use crate::text::{chars_of, concat2, contains, copy_opt, run_start, same, string_between, trim};
use crate::transfer;
use crate::transfer::{
    CreateTransferRequest, CreateTransferResponse, DownloadConflictStrategy, ShareKind,
    SharePageInfo, SharedFileInfo,
};

verus! {

/// What a subscription does with a file that is already at the target.
#[derive(Debug, Clone, Copy, PartialEq, Eq, Structural)]
pub enum ConflictStrategy {
    Overwrite,
    /// Keep the old file under another name.
    Versioned,
    Skip,
}

/// The download's strategy. The old version is set aside before a download begins, so
/// that keeping versions means to overwrite.
pub open spec fn download_strategy(s: ConflictStrategy) -> DownloadConflictStrategy {
    match s {
        ConflictStrategy::Overwrite => DownloadConflictStrategy::Overwrite,
        ConflictStrategy::Versioned => DownloadConflictStrategy::Overwrite,
        ConflictStrategy::Skip => DownloadConflictStrategy::Skip,
    }
}

/// The download's strategy.
pub fn download_conflict_strategy_for_share_sync(strategy: ConflictStrategy) -> (r:
    DownloadConflictStrategy)
    ensures
        r == download_strategy(strategy),
{
    match strategy {
        ConflictStrategy::Overwrite => DownloadConflictStrategy::Overwrite,
        ConflictStrategy::Versioned => DownloadConflictStrategy::Overwrite,
        ConflictStrategy::Skip => DownloadConflictStrategy::Skip,
    }
}

// ---------------------------------------------------------------------------
// The share
// ---------------------------------------------------------------------------
/// The link of a share without its password.
pub open spec fn base_url(c: CapturedShare) -> Seq<char> {
    match c.kind {
        ShareKind::Apaas => "https://pan.baidu.com/apaas/share?surl="@ + c.short_key@,
        ShareKind::Personal => "https://pan.baidu.com/s/"@ + c.short_key@,
    }
}

/// The link of a share, with its password as a further query parameter where it has one.
pub open spec fn share_url(c: CapturedShare) -> Seq<char> {
    let base = base_url(c);
    match c.password {
        Some(p) => if p@.len() > 0 {
            base + (if text::occurs(base, "?"@) {
                "&"@
            } else {
                "?"@
            }) + "pwd="@ + p@
        } else {
            base
        },
        None => base,
    }
}

/// The link of a share. The two systems have links of different shapes.
pub fn share_url_for_captured(captured: &CapturedShare) -> (r: String)
    ensures
        r@ == share_url(*captured),
{
    let base = match captured.kind {
        ShareKind::Apaas => concat2(
            "https://pan.baidu.com/apaas/share?surl=",
            captured.short_key.as_str(),
        ),
        ShareKind::Personal => concat2("https://pan.baidu.com/s/", captured.short_key.as_str()),
    };
    match &captured.password {
        Some(p) => {
            if p.as_str().is_empty() {
                return base;
            }
            let sep = if contains(base.as_str(), "?") {
                "&"
            } else {
                "?"
            };
            let mut r = base;
            r.append(sep);
            r.append("pwd=");
            r.append(p.as_str());
            r
        },
        None => base,
    }
}

/// What is known of a share.
pub open spec fn page_info(c: CapturedShare) -> transfer::PageInfoView {
    transfer::PageInfoView {
        shareid: c.shareid@,
        uk: c.uk@,
        share_uk: c.share_uk@,
        bdstoken: c.bdstoken@,
        kind: c.kind,
        short_key: c.short_key@,
    }
}

/// What is known of a share, so that its page need not be read again for each batch.
pub fn prefetched_share_for_captured(captured: &CapturedShare) -> (r: SharePageInfo)
    ensures
        r@ == page_info(*captured),
{
    SharePageInfo {
        shareid: captured.shareid.clone(),
        uk: captured.uk.clone(),
        share_uk: captured.share_uk.clone(),
        bdstoken: captured.bdstoken.clone(),
        kind: captured.kind,
        short_key: captured.short_key.clone(),
    }
}

/// The password of a share, where it has one.
pub open spec fn known_password(c: CapturedShare) -> Option<Seq<char>> {
    match c.password {
        Some(p) => if p@.len() > 0 {
            Some(p@)
        } else {
            None
        },
        None => None,
    }
}

/// The link that is made of a share is read back as that share.
pub proof fn law_share_url_reads_back(c: CapturedShare)
    requires
        links::is_key(c.short_key@),
        known_password(c) matches Some(p) ==> links::is_password(p),
    ensures
        links::share_link(share_url(c)) == Ok::<links::LinkView, Seq<char>>(
            links::LinkView {
                short_key: c.short_key@,
                raw_url: share_url(c),
                password: known_password(c),
                kind: c.kind,
            },
        ),
{
    let base = base_url(c);
    let key = c.short_key@;
    let password = known_password(c);
    reveal_strlit("?");
    reveal_strlit("&");
    assert("?"@ =~= seq!['?']);
    assert("&"@ =~= seq!['&']);
    match c.kind {
        ShareKind::Apaas => {
            reveal_strlit("https://pan.baidu.com/apaas/share?surl=");
            let lit = "https://pan.baidu.com/apaas/share?surl="@;
            assert(lit[33] == '?');
            assert(base[33] == '?');
            assert(base.subrange(33, 34) =~= "?"@);
            assert(text::stands_at(base, "?"@, 33));
            links::law_apaas_link_reads_back(key, password);
            assert(share_url(c) =~= lit + key + links::password_query('&', password));
        },
        ShareKind::Personal => {
            reveal_strlit("https://pan.baidu.com/s/");
            let lit = "https://pan.baidu.com/s/"@;
            assert(lit[0] == 'h' && lit[1] == 't' && lit[2] == 't' && lit[3] == 'p');
            assert(lit[4] == 's' && lit[5] == ':' && lit[6] == '/' && lit[7] == '/');
            assert(lit[8] == 'p' && lit[9] == 'a' && lit[10] == 'n' && lit[11] == '.');
            assert(lit[12] == 'b' && lit[13] == 'a' && lit[14] == 'i' && lit[15] == 'd');
            assert(lit[16] == 'u' && lit[17] == '.' && lit[18] == 'c' && lit[19] == 'o');
            assert(lit[20] == 'm' && lit[21] == '/' && lit[22] == 's' && lit[23] == '/');
            assert forall|i: int| !text::stands_at(base, "?"@, i) by {
                if text::stands_at(base, "?"@, i) {
                    assert(base.subrange(i, i + 1)[0] == base[i]);
                    if i < 24 {
                        assert(base[i] == lit[i]);
                        assert(i == 0 || i == 1 || i == 2 || i == 3 || i == 4 || i == 5 || i == 6 || i == 7 || i == 8 || i == 9
                        || i == 10 || i == 11 || i == 12 || i == 13 || i == 14 || i == 15 || i == 16 || i == 17 || i == 18 || i == 19
                        || i == 20 || i == 21 || i == 22 || i == 23);
                    } else {
                        assert(base[i] == key[i - 24]);
                        assert(links::is_key_char(key[i - 24]));
                    }
                }
            }
            links::law_personal_link_reads_back(key, password);
            assert(share_url(c) =~= lit + key + links::password_query('?', password));
        },
    }
}

// ---------------------------------------------------------------------------
// Requests
// ---------------------------------------------------------------------------
/// The entry of a share that an item stands for when it is copied: under its path in the
/// share.
pub open spec fn entry_to_copy(item: snapshot::ItemView) -> transfer::FileView {
    transfer::FileView {
        fs_id: item.fs_id,
        is_dir: item.is_dir,
        path: item.path,
        size: item.size,
        name: item.name,
    }
}

/// The path as the service gave it, or the path in the share where it gave none.
pub open spec fn given_path(item: snapshot::ItemView) -> Seq<char> {
    if text::trimmed(item.raw_path).len() == 0 {
        item.path
    } else {
        item.raw_path
    }
}

/// The entry of a share that an item stands for when it is downloaded: under the path
/// that the service gave.
pub open spec fn entry_to_download(item: snapshot::ItemView, is_dir: bool) -> transfer::FileView {
    transfer::FileView {
        fs_id: item.fs_id,
        is_dir,
        path: given_path(item),
        size: item.size,
        name: item.name,
    }
}

/// The ids of the items.
pub open spec fn ids_of(items: Seq<ShareSnapshotItem>) -> Seq<u64> {
    items.map_values(|i: ShareSnapshotItem| i.fs_id)
}

/// The entries to copy.
pub open spec fn entries_to_copy(items: Seq<ShareSnapshotItem>) -> Seq<transfer::FileView> {
    items.map_values(|i: ShareSnapshotItem| entry_to_copy(i@))
}

/// The entries to download.
pub open spec fn entries_to_download(items: Seq<ShareSnapshotItem>) -> Seq<transfer::FileView> {
    items.map_values(|i: ShareSnapshotItem| entry_to_download(i@, i@.is_dir))
}

/// The request that copies entries to the disk and downloads nothing.
pub open spec fn copy_request(
    c: CapturedShare,
    target_dir: Seq<char>,
    ids: Seq<u64>,
    files: Seq<transfer::FileView>,
    owner_uid: u64,
    subscription_id: Seq<char>,
) -> transfer::RequestView {
    transfer::RequestView {
        share_url: share_url(c),
        password: text::opt_text(c.password),
        randsk: text::opt_text(c.randsk),
        prefetched_share: Some(page_info(c)),
        save_path: target_dir,
        save_fs_id: 0,
        auto_download: Some(false),
        local_download_path: None,
        is_share_direct_download: false,
        download_conflict_strategy: None,
        selected_fs_ids: Some(ids),
        selected_files: Some(files),
        owner_uid_override: Some(owner_uid),
        is_internal: true,
        backup_config_id: Some(subtasks::backup_config_of(subscription_id)),
    }
}

/// The request that downloads entries: by way of a directory of the disk where they are
/// to stay there too, else directly.
pub open spec fn download_request(
    c: CapturedShare,
    netdisk_dir: Option<Seq<char>>,
    local_dir: Seq<char>,
    strategy: ConflictStrategy,
    ids: Seq<u64>,
    files: Seq<transfer::FileView>,
    owner_uid: u64,
    subscription_id: Seq<char>,
) -> transfer::RequestView {
    transfer::RequestView {
        save_path: match netdisk_dir {
            Some(d) => d,
            None => Seq::empty(),
        },
        auto_download: Some(true),
        local_download_path: Some(local_dir),
        is_share_direct_download: netdisk_dir is None,
        download_conflict_strategy: Some(download_strategy(strategy)),
        ..copy_request(c, Seq::empty(), ids, files, owner_uid, subscription_id)
    }
}

/// The view of an optional text.
pub open spec fn opt_str(s: Option<&str>) -> Option<Seq<char>> {
    match s {
        Some(t) => Some(t@),
        None => None,
    }
}

/// What a run of a subscription works with.
#[derive(Debug)]
pub struct ProductionHooks {
    pub captured: CapturedShare,
    pub owner_uid: u64,
    pub subscription_id: String,
}

fn gather_ids(items: &Vec<ShareSnapshotItem>) -> (r: Vec<u64>)
    ensures
        r@ == ids_of(items@),
{
    let mut r: Vec<u64> = Vec::new();
    let mut i: usize = 0;
    while i < items.len()
        invariant
            i <= items@.len(),
            r@ == ids_of(items@.take(i as int)),
        decreases items@.len() - i,
    {
        r.push(items[i].fs_id);
        i += 1;
        assert(r@ =~= ids_of(items@.take(i as int)));
    }
    assert(items@.take(i as int) =~= items@);
    r
}

fn copy_entry(item: &ShareSnapshotItem) -> (r: SharedFileInfo)
    ensures
        r@ == entry_to_copy(item@),
{
    SharedFileInfo {
        fs_id: item.fs_id,
        is_dir: item.is_dir,
        path: item.path.clone(),
        size: item.size,
        name: item.name.clone(),
    }
}

fn download_entry(item: &ShareSnapshotItem, is_dir: bool) -> (r: SharedFileInfo)
    ensures
        r@ == entry_to_download(item@, is_dir),
{
    let shown = trim(item.raw_path.as_str());
    let path = if shown.as_str().is_empty() {
        item.path.clone()
    } else {
        item.raw_path.clone()
    };
    SharedFileInfo { fs_id: item.fs_id, is_dir, path, size: item.size, name: item.name.clone() }
}

impl ProductionHooks {
    /// The mark that the subscription's tasks carry.
    pub fn share_sync_backup_config_id(&self) -> (r: String)
        ensures
            r@ == subtasks::backup_config_of(self.subscription_id@),
    {
        subtasks::share_sync_backup_config_id(self.subscription_id.as_str())
    }

    fn copy_request(
        &self,
        captured: &CapturedShare,
        target_dir: &str,
        ids: Vec<u64>,
        files: Vec<SharedFileInfo>,
    ) -> (r: CreateTransferRequest)
        ensures
            r@ == copy_request(
                *captured,
                target_dir@,
                ids@,
                transfer::file_views(files@),
                self.owner_uid,
                self.subscription_id@,
            ),
    {
        CreateTransferRequest {
            share_url: share_url_for_captured(captured),
            password: copy_opt(&captured.password),
            randsk: copy_opt(&captured.randsk),
            prefetched_share: Some(prefetched_share_for_captured(captured)),
            save_path: target_dir.to_owned(),
            save_fs_id: 0,
            auto_download: Some(false),
            local_download_path: None,
            is_share_direct_download: false,
            download_conflict_strategy: None,
            selected_fs_ids: Some(ids),
            selected_files: Some(files),
            owner_uid_override: Some(self.owner_uid),
            is_internal: true,
            backup_config_id: Some(self.share_sync_backup_config_id()),
        }
    }

    fn download_request(
        &self,
        local_dir: &str,
        strategy: ConflictStrategy,
        netdisk_dir: Option<&str>,
        ids: Vec<u64>,
        files: Vec<SharedFileInfo>,
    ) -> (r: CreateTransferRequest)
        ensures
            r@ == download_request(
                self.captured,
                opt_str(netdisk_dir),
                local_dir@,
                strategy,
                ids@,
                transfer::file_views(files@),
                self.owner_uid,
                self.subscription_id@,
            ),
    {
        let mut r = self.copy_request(&self.captured, "", ids, files);
        match netdisk_dir {
            Some(d) => {
                r.save_path = d.to_owned();
            },
            None => {
                r.save_path = String::new();
            },
        }
        r.auto_download = Some(true);
        r.local_download_path = Some(local_dir.to_owned());
        r.is_share_direct_download = netdisk_dir.is_none();
        r.download_conflict_strategy = Some(download_conflict_strategy_for_share_sync(strategy));
        r
    }

    /// The request that copies one item to a directory of the disk.
    pub fn submit_transfer(
        &self,
        captured: &CapturedShare,
        target_dir: &str,
        item: &ShareSnapshotItem,
    ) -> (r: CreateTransferRequest)
        ensures
            r@ == copy_request(
                *captured,
                target_dir@,
                seq![item.fs_id],
                seq![entry_to_copy(item@)],
                self.owner_uid,
                self.subscription_id@,
            ),
    {
        let mut ids: Vec<u64> = Vec::new();
        ids.push(item.fs_id);
        let mut files: Vec<SharedFileInfo> = Vec::new();
        files.push(copy_entry(item));
        assert(ids@ =~= seq![item.fs_id]);
        assert(transfer::file_views(files@) =~= seq![entry_to_copy(item@)]);
        self.copy_request(captured, target_dir, ids, files)
    }

    /// The request that copies several items to a directory of the disk at once.
    pub fn submit_transfer_batch(
        &self,
        captured: &CapturedShare,
        target_dir: &str,
        items: &Vec<ShareSnapshotItem>,
    ) -> (r: Result<CreateTransferRequest, ShareSyncError>)
        ensures
            match r {
                Ok(req) => items@.len() > 0 && req@ == copy_request(
                    *captured,
                    target_dir@,
                    ids_of(items@),
                    entries_to_copy(items@),
                    self.owner_uid,
                    self.subscription_id@,
                ),
                Err(e) => items@.len() == 0 && e@ == error::ErrorView::Internal(
                    "submit_transfer_batch 被传入空 items 列表"@,
                ),
            },
    {
        if items.len() == 0 {
            return Err(
                ShareSyncError::Internal(
                    "submit_transfer_batch 被传入空 items 列表".to_owned(),
                ),
            );
        }
        let mut files: Vec<SharedFileInfo> = Vec::new();
        let mut i: usize = 0;
        assert(transfer::file_views(files@) =~= entries_to_copy(items@.take(0)));
        while i < items.len()
            invariant
                i <= items@.len(),
                transfer::file_views(files@) == entries_to_copy(items@.take(i as int)),
            decreases items@.len() - i,
        {
            let ghost before = transfer::file_views(files@);
            let one = copy_entry(&items[i]);
            let ghost gone = one@;
            files.push(one);
            i += 1;
            assert(transfer::file_views(files@) =~= before.push(gone));
            assert(entries_to_copy(items@.take(i as int)) =~= before.push(gone));
        }
        assert(items@.take(i as int) =~= items@);
        Ok(self.copy_request(captured, target_dir, gather_ids(items), files))
    }

    /// The request that downloads one item. A path that would lead out of the local
    /// directory is refused where the item is downloaded directly.
    pub fn submit_download(
        &self,
        item: &ShareSnapshotItem,
        local_dir: &str,
        strategy: ConflictStrategy,
        transfer_netdisk_dir: Option<&str>,
    ) -> (r: Result<CreateTransferRequest, ShareSyncError>)
        ensures
            match r {
                Ok(req) => (transfer_netdisk_dir is Some || target_paths::local_place(
                    item.path@,
                ) is Ok) && req@ == download_request(
                    self.captured,
                    opt_str(transfer_netdisk_dir),
                    local_dir@,
                    strategy,
                    seq![item.fs_id],
                    seq![entry_to_download(item@, false)],
                    self.owner_uid,
                    self.subscription_id@,
                ),
                Err(e) => transfer_netdisk_dir is None && target_paths::local_place(item.path@)
                    == Err::<Seq<char>, error::ErrorView>(e@),
            },
    {
        if transfer_netdisk_dir.is_none() {
            match share_direct_download_root(local_dir, item) {
                Ok(_) => {},
                Err(e) => {
                    return Err(e);
                },
            }
        }
        let mut ids: Vec<u64> = Vec::new();
        ids.push(item.fs_id);
        let mut files: Vec<SharedFileInfo> = Vec::new();
        files.push(download_entry(item, false));
        assert(ids@ =~= seq![item.fs_id]);
        assert(transfer::file_views(files@) =~= seq![entry_to_download(item@, false)]);
        Ok(self.download_request(local_dir, strategy, transfer_netdisk_dir, ids, files))
    }

    /// The request that downloads several items at once.
    pub fn submit_download_batch(
        &self,
        items: &Vec<ShareSnapshotItem>,
        local_dir: &str,
        strategy: ConflictStrategy,
        transfer_netdisk_dir: Option<&str>,
    ) -> (r: Result<CreateTransferRequest, ShareSyncError>)
        ensures
            match r {
                Ok(req) => items@.len() > 0 && req@ == download_request(
                    self.captured,
                    opt_str(transfer_netdisk_dir),
                    local_dir@,
                    strategy,
                    ids_of(items@),
                    entries_to_download(items@),
                    self.owner_uid,
                    self.subscription_id@,
                ),
                Err(e) => items@.len() == 0 && e@ == error::ErrorView::Internal(
                    "submit_download_batch 被传入空 items 列表"@,
                ),
            },
    {
        if items.len() == 0 {
            return Err(
                ShareSyncError::Internal(
                    "submit_download_batch 被传入空 items 列表".to_owned(),
                ),
            );
        }
        let mut files: Vec<SharedFileInfo> = Vec::new();
        let mut i: usize = 0;
        assert(transfer::file_views(files@) =~= entries_to_download(items@.take(0)));
        while i < items.len()
            invariant
                i <= items@.len(),
                transfer::file_views(files@) == entries_to_download(items@.take(i as int)),
            decreases items@.len() - i,
        {
            let ghost before = transfer::file_views(files@);
            let one = download_entry(&items[i], items[i].is_dir);
            let ghost gone = one@;
            files.push(one);
            i += 1;
            assert(transfer::file_views(files@) =~= before.push(gone));
            assert(entries_to_download(items@.take(i as int)) =~= before.push(gone));
        }
        assert(items@.take(i as int) =~= items@);
        Ok(
            self.download_request(
                local_dir,
                strategy,
                transfer_netdisk_dir,
                gather_ids(items),
                files,
            ),
        )
    }
}

/// The error of a task that could not be made: of a download, or of a copy.
pub open spec fn submit_error(download: bool, msg: Seq<char>) -> error::ErrorView {
    if download {
        error::ErrorView::DownloadError(msg)
    } else {
        error::ErrorView::TransferError(msg)
    }
}

/// What the answer of the transfer manager comes to: the id of the task, or why there is
/// none.
pub open spec fn submitted(
    reply: Result<CreateTransferResponse, String>,
    download: bool,
) -> Result<Seq<char>, error::ErrorView> {
    match reply {
        Err(msg) => Err(submit_error(download, msg@)),
        Ok(resp) => if resp.need_password {
            Err(error::ErrorView::ShareLinkError("需要提取码"@))
        } else {
            match resp.error {
                Some(msg) => Err(submit_error(download, msg@)),
                None => match resp.task_id {
                    Some(id) => Ok(id@),
                    None => Err(
                        submit_error(download, "TransferManager 未返回任务 ID"@),
                    ),
                },
            }
        },
    }
}

fn submit_failure(download: bool, msg: String) -> (r: ShareSyncError)
    ensures
        r@ == submit_error(download, msg@),
{
    if download {
        ShareSyncError::DownloadError(msg)
    } else {
        ShareSyncError::TransferError(msg)
    }
}

/// What the answer of the transfer manager comes to.
pub fn submitted_task(reply: Result<CreateTransferResponse, String>, download: bool) -> (r: Result<
    String,
    ShareSyncError,
>)
    ensures
        match r {
            Ok(id) => submitted(reply, download) == Ok::<Seq<char>, error::ErrorView>(id@),
            Err(e) => submitted(reply, download) == Err::<Seq<char>, error::ErrorView>(e@),
        },
{
    match reply {
        Err(msg) => Err(submit_failure(download, msg)),
        Ok(resp) => {
            if resp.need_password {
                return Err(ShareSyncError::ShareLinkError("需要提取码".to_owned()));
            }
            match resp.error {
                Some(msg) => Err(submit_failure(download, msg)),
                None => match resp.task_id {
                    Some(id) => Ok(id),
                    None => Err(
                        submit_failure(
                            download,
                            "TransferManager 未返回任务 ID".to_owned(),
                        ),
                    ),
                },
            }
        },
    }
}

// ---------------------------------------------------------------------------
// The disk
// ---------------------------------------------------------------------------
/// One entry of a directory of the disk.
#[derive(Debug)]
pub struct NetdiskFile {
    pub path: String,
    pub server_filename: String,
    pub fs_id: u64,
    pub isdir: i32,
}

/// What was found at a path of the disk.
#[derive(Debug)]
pub struct NetdiskTargetEntry {
    pub path: String,
    pub name: String,
    pub fs_id: u64,
    pub is_dir: bool,
}

/// What a `NetdiskTargetEntry` holds.
#[verifier::ext_equal]
pub struct TargetEntryView {
    pub path: Seq<char>,
    pub name: Seq<char>,
    pub fs_id: u64,
    pub is_dir: bool,
}

impl View for NetdiskTargetEntry {
    type V = TargetEntryView;

    open spec fn view(&self) -> TargetEntryView {
        TargetEntryView {
            path: self.path@,
            name: self.name@,
            fs_id: self.fs_id,
            is_dir: self.is_dir,
        }
    }
}

/// The entries of a page of a directory of the disk.
pub const NETDISK_PAGE_SIZE: usize = 1000;

/// The last page that is asked for.
pub const NETDISK_LAST_PAGE: u32 = 10_000;

/// What is found of a file of the disk.
pub open spec fn found_entry(f: NetdiskFile) -> TargetEntryView {
    TargetEntryView {
        path: target_paths::netdisk_path(f.path@),
        name: f.server_filename@,
        fs_id: f.fs_id,
        is_dir: f.isdir == 1,
    }
}

/// Whether the file is the one looked for, by its path or its name.
pub open spec fn is_target(f: NetdiskFile, path: Seq<char>, name: Seq<char>) -> bool {
    target_paths::netdisk_path(f.path@) == path || f.server_filename@ == name
}

/// Whether some of the files is the one looked for.
pub open spec fn any_target(list: Seq<NetdiskFile>, path: Seq<char>, name: Seq<char>) -> bool {
    exists|i: int| 0 <= i < list.len() && is_target(#[trigger] list[i], path, name)
}

/// Whether file `i` is the first that is the one looked for.
pub open spec fn is_first_target(
    list: Seq<NetdiskFile>,
    path: Seq<char>,
    name: Seq<char>,
    i: int,
) -> bool {
    &&& 0 <= i < list.len()
    &&& is_target(list[i], path, name)
    &&& forall|j: int| 0 <= j < i ==> !is_target(#[trigger] list[j], path, name)
}

/// The last part of a path of the disk; empty for the root.
pub open spec fn netdisk_name(path: Seq<char>) -> Seq<char> {
    if paths::parts_of(path).len() == 0 {
        Seq::empty()
    } else {
        paths::parts_of(path).last()
    }
}

/// Looking for a file of the disk, page by page.
#[derive(Debug)]
pub struct NetdiskLookup {
    /// The path looked for.
    pub target: String,
    /// The directory that it is looked for in.
    pub parent: String,
    pub name: String,
    /// The page to list next.
    pub page: u32,
}

/// How a lookup goes on.
#[derive(Debug)]
pub enum LookupStep {
    Found(NetdiskTargetEntry),
    /// There is no such file.
    Missing,
    Failed(ShareSyncError),
    /// List the next page.
    NextPage,
}

impl NetdiskLookup {
    /// The first page of the directory that holds the path.
    pub fn begin(target_path: &str) -> (r: NetdiskLookup)
        ensures
            r.target@ == target_paths::netdisk_path(target_path@),
            r.parent@ == target_paths::netdisk_parent(r.target@),
            r.name@ == netdisk_name(r.target@),
            r.page == 1,
    {
        let target = normalize_netdisk_path(target_path);
        let parent = parent_netdisk_dir(target.as_str());
        let name = basename_netdisk_path(target.as_str());
        NetdiskLookup { target, parent, name, page: 1 }
    }

    /// Goes on with the entries of a page, or with what the disk says instead.
    pub fn listed(&mut self, reply: Result<Vec<NetdiskFile>, String>) -> (r: LookupStep)
        requires
            1 <= old(self).page <= NETDISK_LAST_PAGE,
        ensures
            final(self).target == old(self).target,
            final(self).parent == old(self).parent,
            final(self).name == old(self).name,
            match reply {
                Err(msg) => final(self).page == old(self).page
                    && if target_paths::says_not_found(msg@) {
                    r is Missing
                } else {
                    r matches LookupStep::Failed(e) && e@ == error::ErrorView::TransferError(
                        "查询网盘目标失败: path="@ + old(self).target@ + ", error="@ + msg@,
                    )
                },
                Ok(list) => if any_target(list@, old(self).target@, old(self).name@) {
                    &&& final(self).page == old(self).page
                    &&& r matches LookupStep::Found(e)
                    &&& exists|i: int|
                        #[trigger] is_first_target(
                            list@,
                            old(self).target@,
                            old(self).name@,
                            i,
                        ) && e@ == found_entry(list@[i])
                } else if list@.len() < NETDISK_PAGE_SIZE {
                    r is Missing && final(self).page == old(self).page
                } else {
                    &&& final(self).page == old(self).page + 1
                    &&& if old(self).page < NETDISK_LAST_PAGE {
                        r is NextPage
                    } else {
                        r matches LookupStep::Failed(e) && e@ == error::ErrorView::TransferError(
                            "查询网盘目标分页超过安全上限: parent="@ + old(self).parent@,
                        )
                    }
                },
            },
    {
        match reply {
            Err(msg) => {
                if is_netdisk_not_found_error(msg.as_str()) {
                    return LookupStep::Missing;
                }
                let mut text = concat2("查询网盘目标失败: path=", self.target.as_str());
                text.append(", error=");
                text.append(msg.as_str());
                LookupStep::Failed(ShareSyncError::TransferError(text))
            },
            Ok(list) => {
                let mut i: usize = 0;
                while i < list.len()
                    invariant
                        i <= list@.len(),
                        reply == Ok::<Vec<NetdiskFile>, String>(list),
                        *self == *old(self),
                        forall|j: int|
                            0 <= j < i ==> !is_target(
                                #[trigger] list@[j],
                                old(self).target@,
                                old(self).name@,
                            ),
                    decreases list@.len() - i,
                {
                    let f = &list[i];
                    let path = normalize_netdisk_path(f.path.as_str());
                    if same(path.as_str(), self.target.as_str()) || same(
                        f.server_filename.as_str(),
                        self.name.as_str(),
                    ) {
                        assert(is_target(list@[i as int], old(self).target@, old(self).name@));
                        assert(is_first_target(
                            list@,
                            old(self).target@,
                            old(self).name@,
                            i as int,
                        ));
                        return LookupStep::Found(
                            NetdiskTargetEntry {
                                path,
                                name: f.server_filename.clone(),
                                fs_id: f.fs_id,
                                is_dir: f.isdir == 1,
                            },
                        );
                    }
                    assert(!is_target(list@[i as int], old(self).target@, old(self).name@));
                    i += 1;
                }
                if list.len() < NETDISK_PAGE_SIZE {
                    return LookupStep::Missing;
                }
                self.page = self.page + 1;
                if self.page > NETDISK_LAST_PAGE {
                    return LookupStep::Failed(
                        ShareSyncError::TransferError(
                            concat2(
                                "查询网盘目标分页超过安全上限: parent=",
                                self.parent.as_str(),
                            ),
                        ),
                    );
                }
                LookupStep::NextPage
            },
        }
    }
}

/// What the disk answers to a renaming.
#[derive(Debug)]
pub enum RenameReply {
    Done,
    /// The disk refused; why.
    Refused(String),
    /// The call failed; why.
    Failed(String),
}

/// The path that a renaming is asked for.
pub fn rename_target(path: &str) -> (r: String)
    ensures
        r@ == target_paths::netdisk_path(path@),
{
    normalize_netdisk_path(path)
}

/// The new path after a renaming, or why there is none.
pub fn renamed(path: &str, new_name: &str, reply: RenameReply) -> (r: Result<
    String,
    ShareSyncError,
>)
    ensures
        match reply {
            RenameReply::Done => r matches Ok(p) && p@ == target_paths::netdisk_join(
                target_paths::netdisk_parent(target_paths::netdisk_path(path@)),
                new_name@,
            ),
            RenameReply::Refused(msg) => r matches Err(e) && e@
                == error::ErrorView::TransferError("网盘重命名失败: "@ + msg@),
            RenameReply::Failed(msg) => r matches Err(e) && e@
                == error::ErrorView::TransferError("网盘重命名失败: "@ + msg@),
        },
{
    match reply {
        RenameReply::Done => {
            let path = normalize_netdisk_path(path);
            let parent = parent_netdisk_dir(path.as_str());
            Ok(join_netdisk_path(parent.as_str(), new_name))
        },
        RenameReply::Refused(msg) => Err(
            ShareSyncError::TransferError(concat2("网盘重命名失败: ", msg.as_str())),
        ),
        RenameReply::Failed(msg) => Err(
            ShareSyncError::TransferError(concat2("网盘重命名失败: ", msg.as_str())),
        ),
    }
}

/// The paths of the disk that are to be deleted.
pub fn delete_targets(relative_paths: &Vec<String>) -> (r: Vec<String>)
    ensures
        text::texts(r@) == text::texts(relative_paths@).map_values(
            |p: Seq<char>| target_paths::netdisk_path(p),
        ),
{
    let ghost all = text::texts(relative_paths@).map_values(
        |p: Seq<char>| target_paths::netdisk_path(p),
    );
    let mut r: Vec<String> = Vec::new();
    let mut i: usize = 0;
    while i < relative_paths.len()
        invariant
            i <= relative_paths@.len(),
            all == text::texts(relative_paths@).map_values(
                |p: Seq<char>| target_paths::netdisk_path(p),
            ),
            text::texts(r@) == all.take(i as int),
        decreases relative_paths@.len() - i,
    {
        let ghost before = text::texts(r@);
        let p = normalize_netdisk_path(relative_paths[i].as_str());
        let ghost gp = p@;
        r.push(p);
        i += 1;
        proof {
            assert(text::texts(r@) =~= before.push(gp));
            assert(text::texts(relative_paths@)[i - 1] == relative_paths@[i - 1]@);
            assert(all[i - 1] == gp);
            assert(all.take(i as int) =~= all.take(i - 1).push(gp));
        }
    }
    assert(all.take(i as int) =~= all);
    r
}

/// How a list of texts is shown: the name for the result of `listed_for_debug`.
pub uninterp spec fn shown_list(items: Seq<Seq<char>>) -> Seq<char>;

/// The list as the standard library's `{:?}` shows it. The result depends on the texts
/// alone; which characters are escaped, and how, is not stated.
#[verifier::external_body]
fn listed_for_debug(items: &Vec<String>) -> (r: String)
    ensures
        r@ == shown_list(text::texts(items@)),
{
    format!("{:?}", items)
}

/// What the disk answers to a deletion.
#[derive(Debug)]
pub struct DeleteReply {
    pub success: bool,
    pub error: Option<String>,
    pub failed_paths: Vec<String>,
}

/// Why a deletion failed, if it did.
pub open spec fn delete_outcome(reply: Result<DeleteReply, String>, shown: Seq<char>) -> Result<
    (),
    error::ErrorView,
> {
    match reply {
        Err(msg) => Err(error::ErrorView::TransferError("网盘删除失败: "@ + msg@)),
        Ok(d) => if d.success {
            Ok(())
        } else {
            Err(
                error::ErrorView::TransferError(
                    "网盘删除失败: "@ + (match d.error {
                        Some(e) => e@,
                        None => "未知错误"@,
                    }) + "; failed_paths="@ + shown,
                ),
            )
        },
    }
}

/// Whether a deletion succeeded; `shown` is the list of the paths that could not be
/// deleted, as it is shown.
pub fn deleted_with(reply: Result<DeleteReply, String>, shown: &str) -> (r: Result<
    (),
    ShareSyncError,
>)
    ensures
        match r {
            Ok(_) => delete_outcome(reply, shown@) is Ok,
            Err(e) => delete_outcome(reply, shown@) == Err::<(), error::ErrorView>(e@),
        },
{
    match reply {
        Err(msg) => Err(
            ShareSyncError::TransferError(concat2("网盘删除失败: ", msg.as_str())),
        ),
        Ok(d) => {
            if d.success {
                return Ok(());
            }
            let why = match d.error {
                Some(e) => e,
                None => "未知错误".to_owned(),
            };
            let mut text = concat2("网盘删除失败: ", why.as_str());
            text.append("; failed_paths=");
            text.append(shown);
            Err(ShareSyncError::TransferError(text))
        },
    }
}

/// Whether a deletion succeeded.
pub fn deleted(reply: Result<DeleteReply, String>) -> (r: Result<(), ShareSyncError>)
    ensures
        ({
            let shown = match reply {
                Ok(d) => shown_list(text::texts(d.failed_paths@)),
                Err(_) => Seq::empty(),
            };
            match r {
                Ok(_) => delete_outcome(reply, shown) is Ok,
                Err(e) => delete_outcome(reply, shown) == Err::<(), error::ErrorView>(e@),
            }
        }),
{
    let shown = match &reply {
        Ok(d) => listed_for_debug(&d.failed_paths),
        Err(_) => String::new(),
    };
    deleted_with(reply, shown.as_str())
}

/// The path below the local directory of a file that is to be deleted.
pub fn local_delete_target(relative_path: &str) -> (r: String)
    ensures
        r@ == text::strip_start(relative_path@, '/'),
{
    let cs = chars_of(relative_path);
    let lead: usize = run_start(&cs, '/');
    let r = string_between(&cs, lead, cs.len());
    assert(r@ =~= cs@.skip(lead as int));
    r
}

/// What became of a local file that was to be deleted.
#[derive(Debug)]
pub enum LocalDelete {
    Removed,
    /// It was not there.
    NotThere,
    Failed(String),
}

/// Whether a local file is gone. One that was not there is.
pub fn deleted_locally(reply: LocalDelete) -> (r: Result<(), ShareSyncError>)
    ensures
        match reply {
            LocalDelete::Failed(msg) => r matches Err(e) && e@
                == error::ErrorView::FileSystemError(msg@),
            _ => r is Ok,
        },
{
    match reply {
        LocalDelete::Removed => Ok(()),
        LocalDelete::NotThere => Ok(()),
        LocalDelete::Failed(msg) => Err(ShareSyncError::FileSystemError(msg)),
    }
}

/// What is handed over names each item once, in the order they have: its id, its size, its name,
/// and whether it is a directory. A copy names it by its path in the share, a download by the
/// path that the service gave, where that is not blank.
pub proof fn law_each_item_is_handed_over(items: Seq<ShareSnapshotItem>, i: int)
    requires
        0 <= i < items.len(),
    ensures
        ids_of(items).len() == items.len(),
        entries_to_copy(items).len() == items.len(),
        entries_to_download(items).len() == items.len(),
        ids_of(items)[i] == items[i].fs_id,
        entries_to_copy(items)[i].fs_id == items[i].fs_id,
        entries_to_copy(items)[i].path == items[i].path@,
        entries_to_copy(items)[i].name == items[i].name@,
        entries_to_copy(items)[i].size == items[i].size,
        entries_to_copy(items)[i].is_dir == items[i].is_dir,
        entries_to_download(items)[i].fs_id == items[i].fs_id,
        entries_to_download(items)[i].name == items[i].name@,
        entries_to_download(items)[i].size == items[i].size,
        entries_to_download(items)[i].is_dir == items[i].is_dir,
        text::trimmed(items[i].raw_path@).len() > 0 ==> entries_to_download(items)[i].path
            == items[i].raw_path@,
        text::trimmed(items[i].raw_path@).len() == 0 ==> entries_to_download(items)[i].path
            == items[i].path@,
{
}

/// A request to copy saves what is selected to the directory and downloads nothing; a request to
/// download brings it to the local directory, straight from the share where no directory of the
/// disk is given. Both are made for the account, marked as the subscription's, with the password
/// and page of the share that was captured.
pub proof fn law_what_a_request_asks_for(
    c: CapturedShare,
    dir: Seq<char>,
    netdisk_dir: Option<Seq<char>>,
    strategy: ConflictStrategy,
    ids: Seq<u64>,
    files: Seq<transfer::FileView>,
    owner_uid: u64,
    subscription_id: Seq<char>,
)
    ensures
        ({
            let q = copy_request(c, dir, ids, files, owner_uid, subscription_id);
            &&& q.save_path == dir
            &&& q.auto_download == Some(false)
            &&& q.local_download_path is None
            &&& !q.is_share_direct_download
        }),
        ({
            let q = download_request(
                c,
                netdisk_dir,
                dir,
                strategy,
                ids,
                files,
                owner_uid,
                subscription_id,
            );
            &&& q.auto_download == Some(true)
            &&& q.local_download_path == Some(dir)
            &&& q.is_share_direct_download == (netdisk_dir is None)
            &&& netdisk_dir matches Some(d) ==> q.save_path == d
            &&& netdisk_dir is None ==> q.save_path.len() == 0
            &&& q.download_conflict_strategy == Some(
                match strategy {
                    ConflictStrategy::Skip => DownloadConflictStrategy::Skip,
                    _ => DownloadConflictStrategy::Overwrite,
                },
            )
        }),
        forall|q: transfer::RequestView|
            (q == copy_request(c, dir, ids, files, owner_uid, subscription_id) || q
                == download_request(
                c,
                netdisk_dir,
                dir,
                strategy,
                ids,
                files,
                owner_uid,
                subscription_id,
            )) ==> {
                &&& #[trigger] q.selected_fs_ids == Some(ids)
                &&& q.selected_files == Some(files)
                &&& q.owner_uid_override == Some(owner_uid)
                &&& q.is_internal
                &&& q.backup_config_id == Some("share-sync:"@ + subscription_id)
                &&& q.password == text::opt_text(c.password)
                &&& q.randsk == text::opt_text(c.randsk)
                &&& q.prefetched_share matches Some(p) && p.shareid == c.shareid@ && p.uk == c.uk@
                    && p.share_uk == c.share_uk@ && p.bdstoken == c.bdstoken@ && p.short_key
                    == c.short_key@ && p.kind == c.kind
            },
{
}

/// A request was taken exactly where the answer names a task, asks for no password and holds no
/// error.
pub proof fn law_when_a_request_was_taken(
    reply: Result<CreateTransferResponse, String>,
    download: bool,
)
    ensures
        submitted(reply, download) is Ok <==> (reply matches Ok(a) && !a.need_password
            && a.error is None && a.task_id is Some),
        submitted(reply, download) matches Ok(id) ==> (reply matches Ok(a) && (
        a.task_id matches Some(t) && t@ == id)),
        reply matches Err(msg) ==> submitted(reply, download) == Err::<Seq<char>, error::ErrorView>(
            if download {
                error::ErrorView::DownloadError(msg@)
            } else {
                error::ErrorView::TransferError(msg@)
            },
        ),
{
}

/// What was asked for is found by its whole path or by its name, and taken as the disk says.
pub proof fn law_what_is_found_on_the_disk(f: NetdiskFile, path: Seq<char>, name: Seq<char>)
    ensures
        f.server_filename@ == name ==> is_target(f, path, name),
        paths::is_plain(path) && f.path@ == path ==> is_target(f, path, name),
        paths::is_plain(f.path@) && f.path@ != path && f.server_filename@ != name ==> !is_target(
            f,
            path,
            name,
        ),
        found_entry(f).fs_id == f.fs_id,
        found_entry(f).name == f.server_filename@,
        found_entry(f).is_dir == (f.isdir == 1),
        paths::is_plain(f.path@) ==> found_entry(f).path == f.path@,
{
    if paths::is_plain(f.path@) {
        paths::law_normal_path_is_plainly_written(f.path@);
    }
}

/// A deletion succeeded exactly where the disk says so.
pub proof fn law_when_a_deletion_succeeded(reply: Result<DeleteReply, String>, shown: Seq<char>)
    ensures
        delete_outcome(reply, shown) is Ok <==> (reply matches Ok(d) && d.success),
{
}

/// A file that is looked for is found in a list exactly where one of the list has its path or its
/// name, and it is the first such one.
pub proof fn law_first_of_its_path_or_name_is_found(
    before: Seq<NetdiskFile>,
    f: NetdiskFile,
    after: Seq<NetdiskFile>,
    path: Seq<char>,
    name: Seq<char>,
    i: int,
)
    ensures
        !any_target(seq![], path, name),
        f.server_filename@ == name || target_paths::netdisk_path(f.path@) == path ==> any_target(
            before + seq![f] + after,
            path,
            name,
        ),
        f.server_filename@ != name && target_paths::netdisk_path(f.path@) != path ==> (any_target(
            before + seq![f] + after,
            path,
            name,
        ) <==> any_target(before + after, path, name)),
        (f.server_filename@ == name || target_paths::netdisk_path(f.path@) == path) && !any_target(
            before,
            path,
            name,
        ) ==> (is_first_target(before + seq![f] + after, path, name, i) <==> i == before.len()),
{
    let all = before + seq![f] + after;
    let n = before.len() as int;
    assert(all[n] == f);
    assert forall|k: int| 0 <= k < n implies all[k] == #[trigger] before[k] by {}
    assert forall|k: int| 0 <= k < after.len() implies all[n + 1 + k] == #[trigger] after[k] by {}
    if f.server_filename@ != name && target_paths::netdisk_path(f.path@) != path {
        assert(!is_target(f, path, name));
        if any_target(all, path, name) {
            let k = choose|k: int| 0 <= k < all.len() && is_target(#[trigger] all[k], path, name);
            if k < n {
                assert((before + after)[k] == all[k]);
            } else {
                assert((before + after)[k - 1] == all[k]);
            }
        }
        if any_target(before + after, path, name) {
            let k = choose|k: int|
                0 <= k < (before + after).len() && is_target(
                    #[trigger] (before + after)[k],
                    path,
                    name,
                );
            if k < n {
                assert((before + after)[k] == all[k]);
            } else {
                assert((before + after)[k] == all[k + 1]);
            }
        }
    } else {
        assert(is_target(all[n], path, name));
        if !any_target(before, path, name) {
            assert forall|j: int| 0 <= j < n implies !is_target(#[trigger] all[j], path, name) by {
                assert(all[j] == before[j]);
            }
        }
    }
}

/// What is looked for on the disk is looked for by its last name.
pub proof fn law_target_is_named_by_its_last_part(dir: Seq<char>, name: Seq<char>)
    requires
        paths::is_plain(dir.push('/') + name),
        !name.contains('/'),
    ensures
        netdisk_name(dir.push('/') + name) == name,
{
    let p = dir.push('/') + name;
    paths::lemma_plain_parts(p);
    assert(p.last() != '/');
    if name.len() == 0 {
        assert(p.last() == '/');
    }
    paths::law_parts_stand_between_slashes(dir, name, name);
    assert((paths::components(dir) + seq![name]).last() == name);
}

} // verus!
