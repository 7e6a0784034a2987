//! The capture of a share, from its link to a snapshot of its entries.
//!
//! The page of the share is opened, its password verified where it has one, its top directory
//! listed page by page to its end and then, one after the other, the directories below. A listing
//! that fails in passing is tried again after a delay. The requests themselves, and the waiting,
//! are the caller's part.
use vstd::prelude::*;
use vstd::string::*;

use crate::netdisk::share::links;
use crate::netdisk::share::links::parse_share_link;
use crate::netdisk::share::personal::share_referer;
use crate::share_sync::error::{ErrorView, ShareSyncError};
use crate::share_sync::run::CaptureStage;
use crate::share_sync::scan;
use crate::share_sync::scan::{
    effective_password, password_to_verify, retry_delay, too_many_pages, PageStep, ScanStep,
    ShareScan, SnapshotCollector, MAX_PAGES, PAGE_SIZE,
};
use crate::share_sync::snapshot;
use crate::share_sync::snapshot::{CapturedShare, ScanCache, ScanProgress, ShareSnapshot};
use crate::text;
use crate::text::{concat2, copy_texts};
use crate::transfer;
use crate::transfer::{ShareFileListResult, ShareLink, SharePageInfo, SharedFileInfo};

verus! {

/// What is asked of a capture.
#[derive(Debug)]
pub struct CaptureOrder {
    pub share_url: String,
    /// The password of the subscription, where it has one of its own.
    pub password: Option<String>,
    pub include_paths: Vec<String>,
    pub exclude_patterns: Vec<String>,
    /// How often a listing is tried again.
    pub max_retries: u32,
    /// The first delay between two attempts in milliseconds.
    pub base_ms: u64,
}

/// What a capture waits for.
pub enum CapturePhase {
    /// The page of the share.
    Opening { link: ShareLink, password: Option<String> },
    /// Whether the password is right.
    Verifying { link: ShareLink, page: SharePageInfo, password: Option<String> },
    /// The page `number` of the top directory, which has failed so often; `root` holds the pages
    /// before it.
    ListingRoot {
        collector: SnapshotCollector,
        root: ShareFileListResult,
        number: u32,
        attempt: u32,
    },
    /// Nothing: the next directory can be opened.
    Walking { scan: ShareScan },
    /// A page of the open directory; it has failed so often.
    ListingDir { scan: ShareScan, attempt: u32 },
    Over,
}

/// The capture of a share.
pub struct Capture {
    pub include_paths: Vec<String>,
    pub exclude_patterns: Vec<String>,
    pub max_retries: u32,
    pub base_ms: u64,
    /// What earlier captures have listed, where that is kept.
    pub cache: Option<ScanCache>,
    pub phase: CapturePhase,
}

/// What shall be done next for a capture.
pub enum CaptureAsk {
    /// Open the page of the share.
    OpenPage,
    /// Verify the password, as a request that comes from the page `referer`.
    Verify { password: String, referer: String },
    /// Wait so many milliseconds, then list a page of the top directory.
    ListRoot { page: u32, after_ms: u64 },
    /// Wait so many milliseconds, then list a page of a directory.
    ListDir { dir: String, page: u32, after_ms: u64 },
    /// Nothing: the capture can go on.
    GoOn,
    /// The capture is over.
    Done { result: Result<(CapturedShare, ShareSnapshot), ShareSyncError>, stage: CaptureStage },
}

/// A listing that failed.
#[derive(Debug)]
pub struct ListFailure {
    /// The error as it is shown.
    pub text: String,
    /// Whether another attempt may succeed.
    pub may_pass: bool,
}

// ---------------------------------------------------------------------------
// Steps
// ---------------------------------------------------------------------------
/// The capture has failed at a stage.
pub open spec fn fails(c: Capture, ask: CaptureAsk, at: CaptureStage, e: ErrorView) -> bool {
    &&& c.phase is Over
    &&& ask matches CaptureAsk::Done { result, stage } && stage == at && (result matches Err(x)
        && x@ == e)
}

/// What does not change while the capture goes on.
pub open spec fn same_order(c: Capture, before: Capture) -> bool {
    &&& c.include_paths == before.include_paths
    &&& c.exclude_patterns == before.exclude_patterns
    &&& c.max_retries == before.max_retries
    &&& c.base_ms == before.base_ms
}

/// What the capture has kept of listings that it or an earlier one has made.
pub open spec fn kept(c: Capture) -> Option<ScanCache> {
    match c.phase {
        CapturePhase::Walking { scan } => scan.cache,
        CapturePhase::ListingDir { scan, .. } => scan.cache,
        _ => c.cache,
    }
}

/// The capture begins to list the top directory.
pub open spec fn lists_root(
    c: Capture,
    ask: CaptureAsk,
    before: Capture,
    link: ShareLink,
    page: SharePageInfo,
    password: Option<String>,
    randsk: Option<Seq<char>>,
) -> bool {
    &&& same_order(c, before)
    &&& c.cache == before.cache
    &&& ask == (CaptureAsk::ListRoot { page: 1, after_ms: 0 })
    &&& c.phase matches CapturePhase::ListingRoot { collector, root, number, attempt } && number == 1
        && attempt == 0 && root.files@.len() == 0 && root.shareid@.len() == 0 && root.uk@.len()
        == 0 && text::opt_text(collector.randsk) == randsk && scan::is_collector(
        collector,
        link,
        page,
        password,
        collector.randsk,
        text::texts(before.include_paths@),
        text::texts(before.exclude_patterns@),
    )
}

/// The capture once the page of the share was opened, or was not.
pub open spec fn page_step(
    before: Capture,
    link: ShareLink,
    password: Option<String>,
    reply: Result<SharePageInfo, String>,
    c: Capture,
    ask: CaptureAsk,
) -> bool {
    match reply {
        Err(e) => {
            &&& c.cache == before.cache
            &&& fails(c, ask, CaptureStage::Opening, ErrorView::ShareLinkError(e@))
        },
        Ok(page) => if page.shareid@.len() == 0 {
            &&& c.cache == before.cache
            &&& fails(
                c,
                ask,
                CaptureStage::Opening,
                ErrorView::ShareLinkError("分享页面返回的 shareid 为空"@),
            )
        } else if password matches Some(p) && p@.len() > 0 {
            &&& same_order(c, before)
            &&& c.cache == before.cache
            &&& c.phase == (CapturePhase::Verifying { link, page, password })
            &&& ask matches CaptureAsk::Verify { password: p, referer } && Some(p) == password
                && referer@ == "https://pan.baidu.com/s/"@ + link.short_key@
        } else {
            lists_root(c, ask, before, link, page, password, None)
        },
    }
}

/// The capture once the password was verified, or was not.
pub open spec fn verify_step(
    before: Capture,
    link: ShareLink,
    page: SharePageInfo,
    password: Option<String>,
    reply: Result<String, String>,
    c: Capture,
    ask: CaptureAsk,
) -> bool {
    match reply {
        Err(e) => {
            &&& c.cache == before.cache
            &&& fails(
                c,
                ask,
                CaptureStage::Opening,
                ErrorView::ShareLinkError("验证提取码失败: "@ + e@),
            )
        },
        Ok(key) => lists_root(c, ask, before, link, page, password, Some(key@)),
    }
}

/// The first of two texts, or the second where the first is empty.
pub open spec fn first_told(a: Seq<char>, b: Seq<char>) -> Seq<char> {
    if a.len() > 0 {
        a
    } else {
        b
    }
}

/// The capture once a page of the top directory was listed: after a full page the next one is
/// asked for, and with any other the top directory was listed to its end. Share id and user key
/// are those of the first page that has them.
pub open spec fn root_page_step(
    before: Capture,
    collector: SnapshotCollector,
    root: ShareFileListResult,
    page: u32,
    list: ShareFileListResult,
    c: Capture,
    progress: Option<ScanProgress>,
    ask: CaptureAsk,
) -> bool {
    let files = root.files@ + list.files@;
    let shareid = first_told(root.shareid@, list.shareid@);
    let uk = first_told(root.uk@, list.uk@);
    if list.files@.len() < PAGE_SIZE {
        &&& same_order(c, before)
        &&& ask == CaptureAsk::GoOn
        &&& c.phase matches CapturePhase::Walking { scan } && scan::is_begun(
            scan,
            collector,
            files,
            shareid,
            uk,
            before.cache,
        ) && (progress matches Some(p) && scan.is_progress(p, scan.share_root@))
    } else if page == MAX_PAGES {
        &&& progress is None
        &&& c.cache == before.cache
        &&& fails(
            c,
            ask,
            CaptureStage::Listing,
            ErrorView::Internal(scan::too_many_pages_text()),
        )
    } else {
        &&& progress is None
        &&& same_order(c, before)
        &&& c.cache == before.cache
        &&& ask == (CaptureAsk::ListRoot { page: (page + 1) as u32, after_ms: 0 })
        &&& c.phase matches CapturePhase::ListingRoot {
            collector: same,
            root: now,
            number,
            attempt,
        } && same == collector && number == page + 1 && attempt == 0 && now.files@ == files
            && now.shareid@ == shareid && now.uk@ == uk
    }
}

/// The capture once a page of the top directory was listed, or was not.
pub open spec fn root_step(
    before: Capture,
    collector: SnapshotCollector,
    root: ShareFileListResult,
    page: u32,
    attempt: u32,
    reply: Result<ShareFileListResult, ListFailure>,
    c: Capture,
    progress: Option<ScanProgress>,
    ask: CaptureAsk,
) -> bool {
    match reply {
        Ok(list) => root_page_step(before, collector, root, page, list, c, progress, ask),
        Err(f) => {
            &&& progress is None
            &&& c.cache == before.cache
            &&& if f.may_pass && attempt < before.max_retries {
                &&& same_order(c, before)
                &&& c.phase == (CapturePhase::ListingRoot {
                    collector,
                    root,
                    number: page,
                    attempt: (attempt + 1) as u32,
                })
                &&& ask matches CaptureAsk::ListRoot { page: n, after_ms } && n == page
                    && after_ms as nat == scan::backoff(before.base_ms, attempt as nat)
            } else {
                fails(c, ask, CaptureStage::Listing, ErrorView::ShareLinkError(f.text@))
            }
        },
    }
}

/// The capture goes on to its next directory.
pub open spec fn walk_step(
    before: Capture,
    from: ShareScan,
    c: Capture,
    progress: Option<ScanProgress>,
    ask: CaptureAsk,
) -> bool {
    exists|to: ShareScan, step: ScanStep| #[trigger]
        scan::is_opening(from, to, step) && match step {
            ScanStep::Finished => {
                &&& c.phase is Over
                &&& progress is None
                &&& ask matches CaptureAsk::Done { result, stage } && stage
                    == CaptureStage::Listing && (result matches Ok(t) && scan::is_capture(
                    to,
                    t.0,
                    t.1,
                ))
                &&& c.cache == to.cache
            },
            ScanStep::Skipped => {
                &&& same_order(c, before)
                &&& c.phase == (CapturePhase::Walking { scan: to })
                &&& progress is None
                &&& ask == CaptureAsk::GoOn
            },
            ScanStep::Cached(p) => {
                &&& same_order(c, before)
                &&& c.phase == (CapturePhase::Walking { scan: to })
                &&& progress == Some(p)
                &&& ask == CaptureAsk::GoOn
            },
            ScanStep::List { dir, page } => {
                &&& same_order(c, before)
                &&& c.phase == (CapturePhase::ListingDir { scan: to, attempt: 0 })
                &&& progress is None
                &&& ask == (CaptureAsk::ListDir { dir, page, after_ms: 0 })
            },
        }
}

/// The capture once a page of a directory was listed.
pub open spec fn dir_step(
    before: Capture,
    from: ShareScan,
    batch: Vec<SharedFileInfo>,
    c: Capture,
    progress: Option<ScanProgress>,
    ask: CaptureAsk,
) -> bool {
    exists|to: ShareScan, step: Result<PageStep, ShareSyncError>| #[trigger]
        scan::is_page_taken(from, batch, to, step) && match step {
            Ok(PageStep::More { page }) => {
                &&& same_order(c, before)
                &&& c.phase == (CapturePhase::ListingDir { scan: to, attempt: 0 })
                &&& progress is None
                &&& ask matches CaptureAsk::ListDir { dir, page: n, after_ms } && n == page
                    && after_ms == 0 && dir@ == from.current->Some_0.dir@
            },
            Ok(PageStep::DirDone(p)) => {
                &&& same_order(c, before)
                &&& c.phase == (CapturePhase::Walking { scan: to })
                &&& progress == Some(p)
                &&& ask == CaptureAsk::GoOn
            },
            Err(e) => {
                &&& progress is None
                &&& fails(c, ask, CaptureStage::Listing, e@)
                &&& c.cache == to.cache
            },
        }
}

/// The capture once a page of a directory could not be listed. What was listed before is kept.
pub open spec fn dir_retry_step(
    before: Capture,
    from: ShareScan,
    attempt: u32,
    f: ListFailure,
    c: Capture,
    progress: Option<ScanProgress>,
    ask: CaptureAsk,
) -> bool {
    &&& progress is None
    &&& if f.may_pass && attempt < before.max_retries {
        &&& same_order(c, before)
        &&& c.phase == (CapturePhase::ListingDir { scan: from, attempt: (attempt + 1) as u32 })
        &&& ask matches CaptureAsk::ListDir { dir, page, after_ms } && dir@
            == from.current->Some_0.dir@ && page == from.current->Some_0.page && after_ms as nat
            == scan::backoff(before.base_ms, attempt as nat)
    } else {
        &&& fails(c, ask, CaptureStage::Listing, ErrorView::ShareLinkError(f.text@))
        &&& c.cache == from.cache
    }
}

// ---------------------------------------------------------------------------
// The capture
// ---------------------------------------------------------------------------
fn give_up(e: ShareSyncError, stage: CaptureStage) -> (r: CaptureAsk)
    ensures
        r matches CaptureAsk::Done { result, stage: at } && at == stage && (result matches Err(x)
            && x@ == e@),
{
    CaptureAsk::Done { result: Err(e), stage }
}

/// The pages of the top directory with one more.
fn joined(root: ShareFileListResult, list: ShareFileListResult) -> (r: ShareFileListResult)
    ensures
        r.files@ == root.files@ + list.files@,
        r.shareid@ == first_told(root.shareid@, list.shareid@),
        r.uk@ == first_told(root.uk@, list.uk@),
{
    let mut root = root;
    let mut list = list;
    root.files.append(&mut list.files);
    if root.shareid.as_str().is_empty() {
        root.shareid = list.shareid;
    }
    if root.uk.as_str().is_empty() {
        root.uk = list.uk;
    }
    root
}

impl Capture {
    /// The capture has what its phase needs.
    pub open spec fn wf(self) -> bool {
        match self.phase {
            CapturePhase::ListingRoot { number, .. } => 1 <= number <= MAX_PAGES,
            CapturePhase::Walking { scan } => scan.wf() && scan.current is None,
            CapturePhase::ListingDir { scan, .. } => scan.wf() && scan.current is Some,
            _ => true,
        }
    }

    /// Begins to capture a share. `cache` holds what earlier captures have listed, where that is
    /// kept.
    pub fn begin(order: CaptureOrder, cache: Option<ScanCache>) -> (r: (Capture, CaptureAsk))
        ensures
            r.0.wf(),
            r.0.include_paths == order.include_paths,
            r.0.exclude_patterns == order.exclude_patterns,
            r.0.max_retries == order.max_retries,
            r.0.base_ms == order.base_ms,
            r.0.cache == cache,
            match links::share_link(order.share_url@) {
                Ok(l) => {
                    &&& r.1 == CaptureAsk::OpenPage
                    &&& r.0.phase matches CapturePhase::Opening { link, password } && link@ == l
                        && password == match order.password {
                        Some(p) => Some(p),
                        None => link.password,
                    }
                },
                Err(e) => fails(r.0, r.1, CaptureStage::Opening, ErrorView::ShareLinkError(e)),
            },
    {
        let mut c = Capture {
            include_paths: order.include_paths,
            exclude_patterns: order.exclude_patterns,
            max_retries: order.max_retries,
            base_ms: order.base_ms,
            cache,
            phase: CapturePhase::Over,
        };
        match parse_share_link(order.share_url.as_str()) {
            Ok(link) => {
                let password = effective_password(order.password, &link);
                c.phase = CapturePhase::Opening { link, password };
                (c, CaptureAsk::OpenPage)
            },
            Err(e) => (c, give_up(ShareSyncError::ShareLinkError(e), CaptureStage::Opening)),
        }
    }

    fn list_root(
        self,
        link: ShareLink,
        page: SharePageInfo,
        password: Option<String>,
        randsk: Option<String>,
    ) -> (r: (Capture, CaptureAsk))
        ensures
            r.0.wf(),
            lists_root(r.0, r.1, self, link, page, password, text::opt_text(randsk)),
    {
        let mut c = self;
        let includes = copy_texts(&c.include_paths);
        let excludes = copy_texts(&c.exclude_patterns);
        let collector = SnapshotCollector::from_page(
            link,
            page,
            password,
            randsk,
            includes,
            excludes,
        );
        let root = ShareFileListResult {
            files: Vec::new(),
            uk: String::new(),
            shareid: String::new(),
            share_root_path: None,
        };
        c.phase = CapturePhase::ListingRoot { collector, root, number: 1, attempt: 0 };
        (c, CaptureAsk::ListRoot { page: 1, after_ms: 0 })
    }

    /// Goes on once the page of the share was opened, or was not.
    pub fn page_opened(self, reply: Result<SharePageInfo, String>) -> (r: (Capture, CaptureAsk))
        requires
            self.phase is Opening,
        ensures
            r.0.wf(),
            page_step(
                self,
                self.phase->Opening_link,
                self.phase->Opening_password,
                reply,
                r.0,
                r.1,
            ),
    {
        let mut c = self;
        let mut phase = CapturePhase::Over;
        std::mem::swap(&mut c.phase, &mut phase);
        match (phase, reply) {
            (CapturePhase::Opening { link, password }, Ok(page)) => match password_to_verify(
                &page,
                &password,
            ) {
                Ok(Some(given)) => {
                    let referer = share_referer(link.short_key.as_str());
                    c.phase = CapturePhase::Verifying { link, page, password };
                    (c, CaptureAsk::Verify { password: given, referer })
                },
                Ok(None) => c.list_root(link, page, password, None),
                Err(e) => (c, give_up(e, CaptureStage::Opening)),
            },
            (_, Err(e)) => (
                c,
                give_up(ShareSyncError::ShareLinkError(e), CaptureStage::Opening),
            ),
            _ => (c, CaptureAsk::GoOn),
        }
    }

    /// Goes on once the password was verified, or was not. What comes of a right password is the
    /// key that later requests carry.
    pub fn verified(self, reply: Result<String, String>) -> (r: (Capture, CaptureAsk))
        requires
            self.phase is Verifying,
        ensures
            r.0.wf(),
            verify_step(
                self,
                self.phase->Verifying_link,
                self.phase->Verifying_page,
                self.phase->Verifying_password,
                reply,
                r.0,
                r.1,
            ),
    {
        let mut c = self;
        let mut phase = CapturePhase::Over;
        std::mem::swap(&mut c.phase, &mut phase);
        match (phase, reply) {
            (CapturePhase::Verifying { link, page, password }, Ok(key)) => c.list_root(
                link,
                page,
                password,
                Some(key),
            ),
            (_, Err(e)) => (
                c,
                give_up(
                    ShareSyncError::ShareLinkError(concat2("验证提取码失败: ", e.as_str())),
                    CaptureStage::Opening,
                ),
            ),
            _ => (c, CaptureAsk::GoOn),
        }
    }

    /// Goes on once a page of the top directory was listed, or was not. The first progress tells
    /// of the root of the share.
    pub fn root_listed(self, reply: Result<ShareFileListResult, ListFailure>) -> (r: (
        Capture,
        Option<ScanProgress>,
        CaptureAsk,
    ))
        requires
            self.wf(),
            self.phase is ListingRoot,
            self.phase->ListingRoot_attempt < 64,
        ensures
            r.0.wf(),
            root_step(
                self,
                self.phase->collector,
                self.phase->root,
                self.phase->number,
                self.phase->ListingRoot_attempt,
                reply,
                r.0,
                r.1,
                r.2,
            ),
    {
        let mut c = self;
        let mut phase = CapturePhase::Over;
        std::mem::swap(&mut c.phase, &mut phase);
        match (phase, reply) {
            (CapturePhase::ListingRoot { collector, root, number: page, attempt }, Ok(list)) => {
                let full = list.files.len() >= PAGE_SIZE;
                let root = joined(root, list);
                if !full {
                    let cache = c.cache.take();
                    let scan = ShareScan::begin(collector, root, cache);
                    let p = scan.progress(scan.share_root.as_str());
                    c.phase = CapturePhase::Walking { scan };
                    return (c, Some(p), CaptureAsk::GoOn);
                }
                if page == MAX_PAGES {
                    return (c, None, give_up(too_many_pages(), CaptureStage::Listing));
                }
                let next: u32 = page + 1;
                c.phase = CapturePhase::ListingRoot { collector, root, number: next, attempt: 0 };
                (c, None, CaptureAsk::ListRoot { page: next, after_ms: 0 })
            },
            (CapturePhase::ListingRoot { collector, root, number: page, attempt }, Err(f)) => {
                match retry_delay(f.may_pass, attempt, c.max_retries, c.base_ms) {
                    Some(after_ms) => {
                        c.phase = CapturePhase::ListingRoot {
                            collector,
                            root,
                            number: page,
                            attempt: attempt + 1,
                        };
                        (c, None, CaptureAsk::ListRoot { page, after_ms })
                    },
                    None => (
                        c,
                        None,
                        give_up(ShareSyncError::ShareLinkError(f.text), CaptureStage::Listing),
                    ),
                }
            },
            _ => (c, None, CaptureAsk::GoOn),
        }
    }

    /// Goes on to the next directory.
    pub fn go_on(self) -> (r: (Capture, Option<ScanProgress>, CaptureAsk))
        requires
            self.wf(),
            self.phase is Walking,
        ensures
            r.0.wf(),
            walk_step(self, self.phase->Walking_scan, r.0, r.1, r.2),
    {
        let ghost from = self.phase->Walking_scan;
        let mut c = self;
        let mut phase = CapturePhase::Over;
        std::mem::swap(&mut c.phase, &mut phase);
        match phase {
            CapturePhase::Walking { mut scan } => {
                let step = scan.open_next();
                assert(scan::is_opening(from, scan, step));
                match step {
                    ScanStep::Finished => {
                        let ghost to = scan;
                        let cache = scan.cache.take();
                        let t = scan.finish();
                        assert(scan::is_capture(to, t.0, t.1));
                        c.cache = cache;
                        (
                            c,
                            None,
                            CaptureAsk::Done { result: Ok(t), stage: CaptureStage::Listing },
                        )
                    },
                    ScanStep::Skipped => {
                        c.phase = CapturePhase::Walking { scan };
                        (c, None, CaptureAsk::GoOn)
                    },
                    ScanStep::Cached(p) => {
                        c.phase = CapturePhase::Walking { scan };
                        (c, Some(p), CaptureAsk::GoOn)
                    },
                    ScanStep::List { dir, page } => {
                        c.phase = CapturePhase::ListingDir { scan, attempt: 0 };
                        (c, None, CaptureAsk::ListDir { dir, page, after_ms: 0 })
                    },
                }
            },
            _ => (c, None, CaptureAsk::GoOn),
        }
    }

    /// Goes on once a page of the open directory was listed, or was not.
    pub fn dir_listed(self, reply: Result<Vec<SharedFileInfo>, ListFailure>) -> (r: (
        Capture,
        Option<ScanProgress>,
        CaptureAsk,
    ))
        requires
            self.wf(),
            self.phase is ListingDir,
            self.phase->ListingDir_attempt < 64,
        ensures
            r.0.wf(),
            match reply {
                Ok(batch) => dir_step(
                    self,
                    self.phase->ListingDir_scan,
                    batch,
                    r.0,
                    r.1,
                    r.2,
                ),
                Err(f) => dir_retry_step(
                    self,
                    self.phase->ListingDir_scan,
                    self.phase->ListingDir_attempt,
                    f,
                    r.0,
                    r.1,
                    r.2,
                ),
            },
    {
        let ghost from = self.phase->ListingDir_scan;
        let mut c = self;
        let mut phase = CapturePhase::Over;
        std::mem::swap(&mut c.phase, &mut phase);
        match phase {
            CapturePhase::ListingDir { mut scan, attempt } => {
                let dir = match &scan.current {
                    Some(cursor) => cursor.dir.clone(),
                    None => String::new(),
                };
                let page: u32 = match &scan.current {
                    Some(cursor) => cursor.page,
                    None => 0,
                };
                match reply {
                    Ok(batch) => {
                        let step = scan.page_listed(batch);
                        assert(scan::is_page_taken(from, batch, scan, step));
                        match step {
                            Ok(PageStep::More { page: next }) => {
                                c.phase = CapturePhase::ListingDir { scan, attempt: 0 };
                                (c, None, CaptureAsk::ListDir { dir, page: next, after_ms: 0 })
                            },
                            Ok(PageStep::DirDone(p)) => {
                                c.phase = CapturePhase::Walking { scan };
                                (c, Some(p), CaptureAsk::GoOn)
                            },
                            Err(e) => {
                                c.cache = scan.cache.take();
                                (c, None, give_up(e, CaptureStage::Listing))
                            },
                        }
                    },
                    Err(f) => match retry_delay(f.may_pass, attempt, c.max_retries, c.base_ms) {
                        Some(after_ms) => {
                            c.phase = CapturePhase::ListingDir { scan, attempt: attempt + 1 };
                            (c, None, CaptureAsk::ListDir { dir, page, after_ms })
                        },
                        None => {
                            c.cache = scan.cache.take();
                            (
                                c,
                                None,
                                give_up(
                                    ShareSyncError::ShareLinkError(f.text),
                                    CaptureStage::Listing,
                                ),
                            )
                        },
                    },
                }
            },
            _ => (c, None, CaptureAsk::GoOn),
        }
    }
}

// ---------------------------------------------------------------------------
// Laws
// ---------------------------------------------------------------------------
/// A capture lists only directories that belong to what was asked for.
pub proof fn law_only_wanted_dirs_are_listed(
    before: Capture,
    from: ShareScan,
    c: Capture,
    progress: Option<ScanProgress>,
    ask: CaptureAsk,
)
    requires
        walk_step(before, from, c, progress, ask),
        ask is ListDir,
    ensures
        snapshot::dir_allowed(
            from.collector.include_paths@,
            from.collector.include_index@,
            scan::dir_path(ask->dir@, from.share_root@),
        ),
{
}

/// The top directory is listed to its end: the walk below it begins only after a page that is
/// not full, and with the entries of every page; after a full page the next one is asked for.
pub proof fn law_root_is_listed_to_its_end(
    before: Capture,
    collector: SnapshotCollector,
    root: ShareFileListResult,
    page: u32,
    list: ShareFileListResult,
    c: Capture,
    progress: Option<ScanProgress>,
    ask: CaptureAsk,
)
    requires
        page < MAX_PAGES,
        root_page_step(before, collector, root, page, list, c, progress, ask),
    ensures
        list.files@.len() >= PAGE_SIZE ==> (ask matches CaptureAsk::ListRoot { page: n, .. } && n
            == page + 1),
        c.phase matches CapturePhase::Walking { scan } ==> {
            &&& list.files@.len() < PAGE_SIZE
            &&& forall|i: int|
                0 <= i < (root.files@ + list.files@).len() ==> scan::has_item(
                    scan.model(),
                    scan::entry_of(
                        (#[trigger] (root.files@ + list.files@)[i])@,
                        scan.share_root@,
                    ).path,
                    (root.files@ + list.files@)[i].fs_id,
                )
        },
{
    if c.phase is Walking {
        let scan = c.phase->Walking_scan;
        let files = root.files@ + list.files@;
        let views = transfer::file_views(files);
        assert forall|i: int| 0 <= i < files.len() implies scan::has_item(
            scan.model(),
            scan::entry_of((#[trigger] files[i])@, scan.share_root@).path,
            files[i].fs_id,
        ) by {
            assert(views[i] == files[i]@);
            scan::law_every_entry_is_gathered(views, scan.rules(), i);
        }
    }
}

/// A step of a capture.
pub open spec fn steps_to(
    before: Capture,
    c: Capture,
    progress: Option<ScanProgress>,
    ask: CaptureAsk,
) -> bool {
    match before.phase {
        CapturePhase::Opening { link, password } => exists|reply: Result<SharePageInfo, String>|
            page_step(before, link, password, reply, c, ask),
        CapturePhase::Verifying { link, page, password } => exists|reply: Result<String, String>|
            verify_step(before, link, page, password, reply, c, ask),
        CapturePhase::ListingRoot { collector, root, number, attempt } => exists|
            reply: Result<ShareFileListResult, ListFailure>,
        |
            root_step(before, collector, root, number, attempt, reply, c, progress, ask),
        CapturePhase::Walking { scan } => walk_step(before, scan, c, progress, ask),
        CapturePhase::ListingDir { scan, attempt } => {
            ||| exists|batch: Vec<SharedFileInfo>|
                dir_step(before, scan, batch, c, progress, ask)
            ||| exists|f: ListFailure|
                dir_retry_step(before, scan, attempt, f, c, progress, ask)
        },
        CapturePhase::Over => false,
    }
}

/// What a capture has kept of listings, and what was handed to it, it still has after each of its
/// steps, also after the one with which it fails. So the next attempt can go on where this one
/// stopped.
pub proof fn law_listings_are_kept(
    before: Capture,
    c: Capture,
    progress: Option<ScanProgress>,
    ask: CaptureAsk,
)
    requires
        steps_to(before, c, progress, ask),
        kept(before) is Some,
    ensures
        kept(c) is Some,
        kept(before)->Some_0@.dom().subset_of(kept(c)->Some_0@.dom()),
{
}

/// The capture has come below the top directory, and its scan by these entries and directories.
pub open spec fn has_captured(
    c: Capture,
    listed: Seq<transfer::FileView>,
    opened: Seq<Seq<char>>,
) -> bool {
    match c.phase {
        CapturePhase::Walking { scan } => scan::has_walked(scan, listed, opened),
        CapturePhase::ListingDir { scan, .. } => scan::has_walked(scan, listed, opened),
        _ => false,
    }
}

/// A capture that goes below the top directory has taken in all entries of it.
pub proof fn law_capture_takes_in_the_root(
    before: Capture,
    collector: SnapshotCollector,
    root: ShareFileListResult,
    page: u32,
    list: ShareFileListResult,
    c: Capture,
    progress: Option<ScanProgress>,
    ask: CaptureAsk,
)
    requires
        page < MAX_PAGES,
        root_page_step(before, collector, root, page, list, c, progress, ask),
        c.phase is Walking,
    ensures
        has_captured(c, transfer::file_views(root.files@ + list.files@), Seq::empty()),
{
    let scan = c.phase->Walking_scan;
    let all = scan::absorb(
        scan::nothing_yet(),
        transfer::file_views(root.files@ + list.files@),
        scan.rules(),
    );
    assert(all.queue.skip(0) =~= all.queue);
    assert(Seq::<Seq<char>>::empty() =~= all.queue.subrange(0, 0));
}

/// A capture takes in what it lists, page by page, and goes through the directories that this
/// brings. It is done with none of them left, and its snapshot then holds what was listed, as far
/// as it is wanted, and nothing else.
pub proof fn law_capture_is_complete(
    before: Capture,
    from: ShareScan,
    listed: Seq<transfer::FileView>,
    opened: Seq<Seq<char>>,
    c: Capture,
    progress: Option<ScanProgress>,
    ask: CaptureAsk,
)
    requires
        before.phase == (CapturePhase::Walking { scan: from }),
        has_captured(before, listed, opened),
        walk_step(before, from, c, progress, ask),
    ensures
        !(c.phase is Over) ==> has_captured(
            c,
            listed + scan::next_kept(from),
            opened + scan::next_dir(from),
        ),
        c.phase is Over ==> {
            &&& scan::holds_exactly(from.model(), listed, from.rules())
            &&& opened.to_set() == from.model().queued
            &&& ask matches CaptureAsk::Done { result, .. } && (result matches Ok(t)
                && scan::is_whole_share(t.1, listed, from))
        },
{
    scan::law_walk_is_complete(from, listed, opened);
    assert forall|to: ShareScan, step: ScanStep| #[trigger]
        scan::is_opening(from, to, step) implies scan::has_walked(
        to,
        listed + scan::next_kept(from),
        opened + scan::next_dir(from),
    ) by {
        scan::law_walk_opens(from, listed, opened, to, step);
    }
    assert forall|share: CapturedShare, shot: ShareSnapshot| #[trigger]
        scan::is_capture(from, share, shot) implies scan::is_whole_share(shot, listed, from) by {
        scan::law_snapshot_is_the_whole_share(from, listed, opened, share, shot);
    }
}

/// A page that was listed is taken in, and a listing that is tried again loses nothing.
pub proof fn law_capture_takes_in_pages(
    before: Capture,
    from: ShareScan,
    attempt: u32,
    listed: Seq<transfer::FileView>,
    opened: Seq<Seq<char>>,
    c: Capture,
    progress: Option<ScanProgress>,
    ask: CaptureAsk,
)
    requires
        before.phase == (CapturePhase::ListingDir { scan: from, attempt }),
        has_captured(before, listed, opened),
    ensures
        forall|batch: Vec<SharedFileInfo>| #[trigger]
            dir_step(before, from, batch, c, progress, ask) && !(c.phase is Over) ==> has_captured(
                c,
                listed + transfer::file_views(batch@),
                opened,
            ),
        forall|f: ListFailure| #[trigger]
            dir_retry_step(before, from, attempt, f, c, progress, ask) && !(c.phase is Over)
                ==> has_captured(c, listed, opened),
{
    assert forall|batch: Vec<SharedFileInfo>| #[trigger]
        dir_step(before, from, batch, c, progress, ask) && !(c.phase is Over) implies has_captured(
        c,
        listed + transfer::file_views(batch@),
        opened,
    ) by {
        assert forall|to: ShareScan, step: Result<PageStep, ShareSyncError>| #[trigger]
            scan::is_page_taken(from, batch, to, step) implies scan::has_walked(
            to,
            listed + transfer::file_views(batch@),
            opened,
        ) by {
            scan::law_walk_takes_a_page(from, listed, opened, batch, to, step);
        }
    }
}

/// A listing is tried again no more often than asked: a capture whose listing has failed that
/// often gives up, whatever the failure.
pub proof fn law_attempts_are_bounded(
    before: Capture,
    from: ShareScan,
    attempt: u32,
    f: ListFailure,
    c: Capture,
    progress: Option<ScanProgress>,
    ask: CaptureAsk,
)
    requires
        attempt >= before.max_retries,
        dir_retry_step(before, from, attempt, f, c, progress, ask),
    ensures
        c.phase is Over,
        ask is Done,
{
}

/// A capture lists each directory that is wanted as a whole to its end: after a full page it asks
/// for the next one of the same directory, and goes on to another only after one that is not full.
pub proof fn law_capture_lists_wanted_dirs_to_their_end(
    before: Capture,
    from: ShareScan,
    batch: Vec<SharedFileInfo>,
    c: Capture,
    progress: Option<ScanProgress>,
    ask: CaptureAsk,
)
    requires
        dir_step(before, from, batch, c, progress, ask),
        from.current is Some,
        from.current->Some_0.page < MAX_PAGES,
        from.collector.include_paths@ == Set::<Seq<char>>::empty() || exists|inc: Seq<char>|
            #[trigger]
            from.collector.include_paths@.contains(inc) && (inc == from.current->Some_0.path@ || inc
                == seq!['/'] || inc.push('/').is_prefix_of(from.current->Some_0.path@)),
    ensures
        batch@.len() >= PAGE_SIZE ==> (ask matches CaptureAsk::ListDir { dir, page, .. } && dir@
            == from.current->Some_0.dir@ && page == from.current->Some_0.page + 1),
        batch@.len() < PAGE_SIZE ==> c.phase is Walking && ask is GoOn,
{
    assert forall|to: ShareScan, step: Result<PageStep, ShareSyncError>| #[trigger]
        scan::is_page_taken(from, batch, to, step) implies (batch@.len() >= PAGE_SIZE ==> (
    step matches Ok(PageStep::More { page }) && page == from.current->Some_0.page + 1)) && (
    batch@.len() < PAGE_SIZE ==> step matches Ok(PageStep::DirDone(_))) by {
        scan::law_full_page_is_not_the_end(from, batch, to, step);
    }
}

/// A listing that failed is tried again exactly where the failure may pass and it was not tried
/// too often: the same page of the same directory, after a delay that doubles. Else the capture
/// fails with what was said.
pub proof fn law_failed_listing_is_tried_again(
    before: Capture,
    from: ShareScan,
    attempt: u32,
    f: ListFailure,
    c: Capture,
    progress: Option<ScanProgress>,
    ask: CaptureAsk,
)
    requires
        dir_retry_step(before, from, attempt, f, c, progress, ask),
        attempt < u32::MAX,
    ensures
        f.may_pass && attempt < before.max_retries ==> (ask matches CaptureAsk::ListDir {
            dir,
            page,
            after_ms,
        } && dir@ == from.current->Some_0.dir@ && page == from.current->Some_0.page && after_ms
            == scan::backoff(before.base_ms, attempt as nat)) && c.phase == (
        CapturePhase::ListingDir { scan: from, attempt: (attempt + 1) as u32 }),
        !(f.may_pass && attempt < before.max_retries) ==> c.phase is Over && (
        ask matches CaptureAsk::Done { result, .. } && (result matches Err(e) && e@
            == ErrorView::ShareLinkError(f.text@))),
{
}

/// A share is opened with its page; where it has a password this is verified before anything is
/// listed. A page without an id, or none at all, ends the capture.
pub proof fn law_how_a_share_is_opened(
    before: Capture,
    link: ShareLink,
    password: Option<String>,
    reply: Result<SharePageInfo, String>,
    c: Capture,
    ask: CaptureAsk,
)
    requires
        page_step(before, link, password, reply, c, ask),
    ensures
        reply is Err ==> c.phase is Over && ask is Done,
        reply matches Ok(page) ==> {
            &&& page.shareid@.len() == 0 ==> c.phase is Over && ask is Done
            &&& page.shareid@.len() > 0 && (password matches Some(p) && p@.len() > 0) ==> (
            ask matches CaptureAsk::Verify { password: p, referer } && Some(p) == password && referer@
                == "https://pan.baidu.com/s/"@ + link.short_key@)
            &&& page.shareid@.len() > 0 && !(password matches Some(p) && p@.len() > 0)
                ==> ask == (CaptureAsk::ListRoot { page: 1, after_ms: 0 })
        },
{
}

/// A password that was refused ends the capture; one that was taken begins the listing of the root
/// with the key that it gave.
pub proof fn law_how_a_password_is_answered(
    before: Capture,
    link: ShareLink,
    page: SharePageInfo,
    password: Option<String>,
    reply: Result<String, String>,
    c: Capture,
    ask: CaptureAsk,
)
    requires
        verify_step(before, link, page, password, reply, c, ask),
    ensures
        reply is Err ==> c.phase is Over && (ask matches CaptureAsk::Done { result, .. } && result
            is Err),
        reply matches Ok(key) ==> ask == (CaptureAsk::ListRoot { page: 1, after_ms: 0 }) && (
        c.phase matches CapturePhase::ListingRoot { collector, root, .. } && (
        collector.randsk matches Some(k) && k@ == key@) && root.files@.len() == 0
            && collector.shareid == page.shareid && collector.password == password),
{
}

/// A page of the root that could not be listed is asked for again, exactly where the failure may
/// pass and it was not tried too often, and what was listed before is kept. Else the capture fails
/// with what was said.
pub proof fn law_failed_root_listing_is_tried_again(
    before: Capture,
    collector: SnapshotCollector,
    root: ShareFileListResult,
    page: u32,
    attempt: u32,
    f: ListFailure,
    c: Capture,
    progress: Option<ScanProgress>,
    ask: CaptureAsk,
)
    requires
        root_step(before, collector, root, page, attempt, Err(f), c, progress, ask),
        attempt < u32::MAX,
    ensures
        f.may_pass && attempt < before.max_retries ==> (ask matches CaptureAsk::ListRoot {
            page: n,
            after_ms,
        } && n == page && after_ms == scan::backoff(before.base_ms, attempt as nat)) && (
        c.phase matches CapturePhase::ListingRoot { root: now, number, attempt: tries, .. } && now
            == root && number == page && tries == attempt + 1),
        !(f.may_pass && attempt < before.max_retries) ==> c.phase is Over && (
        ask matches CaptureAsk::Done { result, .. } && (result matches Err(e) && e@
            == ErrorView::ShareLinkError(f.text@))),
{
}

/// What a capture was ordered to hold stays the same while it goes on: its include paths, its
/// exclude globs, and how often and after how long a listing is tried again.
pub proof fn law_order_of_a_capture_is_kept(
    before: Capture,
    from: ShareScan,
    batch: Vec<SharedFileInfo>,
    attempt: u32,
    f: ListFailure,
    c: Capture,
    progress: Option<ScanProgress>,
    ask: CaptureAsk,
)
    requires
        dir_step(before, from, batch, c, progress, ask) || dir_retry_step(
            before,
            from,
            attempt,
            f,
            c,
            progress,
            ask,
        ) || walk_step(before, from, c, progress, ask),
        !(c.phase is Over),
    ensures
        c.include_paths == before.include_paths,
        c.exclude_patterns == before.exclude_patterns,
        c.max_retries == before.max_retries,
        c.base_ms == before.base_ms,
{
}

} // verus!
