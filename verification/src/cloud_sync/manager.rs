//! Connections and transfer jobs, and what is decided about them.
use vstd::hash_map::StringHashMap;
use vstd::prelude::*;

use crate::cloud_sync::error::{CloudErrorView, CloudSyncError};
use crate::cloud_sync::events::CloudSyncEvent;
use crate::cloud_sync::types::{
    BaiduConfig, Connection, ConnectionConfig, CreateConnectionRequest, CreateJobRequest,
    JobStatus, JobSummary, OssConfig, S3Config, StorageKind, SyncDirection, TransferJob,
    UpdateConnectionRequest,
};
use crate::ids::{fresh_id, now_utc, Timestamp};
use crate::numbers;
use crate::numbers::decimal;
use crate::registry;
use crate::text::{chars_of, concat2, concat3, copy_opt};

verus! {

// ---------------------------------------------------------------------------
// Rules
// ---------------------------------------------------------------------------
/// The direction of a transfer: it is a download only where it leaves the network disk for
/// another service.
pub open spec fn direction_between(src: StorageKind, dst: StorageKind) -> SyncDirection {
    if src == StorageKind::Baidu && dst != StorageKind::Baidu {
        SyncDirection::Download
    } else {
        SyncDirection::Upload
    }
}

/// The direction of a transfer.
pub fn infer_direction(src: StorageKind, dst: StorageKind) -> (r: SyncDirection)
    ensures
        r == direction_between(src, dst),
{
    match (src, dst) {
        (_, StorageKind::Baidu) => SyncDirection::Upload,
        (StorageKind::Baidu, _) => SyncDirection::Download,
        _ => SyncDirection::Upload,
    }
}

/// The account that a transfer belongs to: that of the source, or else that of the target.
pub open spec fn account_between(src: ConnectionConfig, dst: ConnectionConfig) -> Option<u64> {
    match (src, dst) {
        (ConnectionConfig::Baidu(c), _) => Some(c.owner_uid),
        (_, ConnectionConfig::Baidu(c)) => Some(c.owner_uid),
        _ => None,
    }
}

/// The account that a transfer belongs to.
pub fn extract_baidu_uid(src: &Connection, dst: &Connection) -> (r: Option<u64>)
    ensures
        r == account_between(src.config, dst.config),
{
    match (&src.config, &dst.config) {
        (ConnectionConfig::Baidu(c), _) => Some(c.owner_uid),
        (_, ConnectionConfig::Baidu(c)) => Some(c.owner_uid),
        _ => None,
    }
}

/// The new value, or the one that was there.
pub open spec fn or_else<T>(new: Option<T>, old: T) -> T {
    match new {
        Some(v) => v,
        None => old,
    }
}

/// The new value, or the one that was there, if any.
pub open spec fn or_kept<T>(new: Option<T>, old: Option<T>) -> Option<T> {
    match new {
        Some(v) => Some(v),
        None => old,
    }
}

/// The configuration after an update: what the request names, and that the kind of service has,
/// is replaced.
pub open spec fn updated_config(
    cfg: ConnectionConfig,
    req: UpdateConnectionRequest,
) -> ConnectionConfig {
    match cfg {
        ConnectionConfig::S3(c) => ConnectionConfig::S3(
            S3Config {
                name: or_else(req.name, c.name),
                access_key: or_else(req.access_key, c.access_key),
                secret_key: or_else(req.secret_key, c.secret_key),
                region: or_else(req.region, c.region),
                bucket: or_else(req.bucket, c.bucket),
                endpoint: or_kept(req.endpoint, c.endpoint),
                path_style: or_kept(req.path_style, c.path_style),
            },
        ),
        ConnectionConfig::Oss(c) => ConnectionConfig::Oss(
            OssConfig {
                name: or_else(req.name, c.name),
                access_key: or_else(req.access_key, c.access_key),
                secret_key: or_else(req.secret_key, c.secret_key),
                region: or_else(req.region, c.region),
                bucket: or_else(req.bucket, c.bucket),
                endpoint: or_kept(req.endpoint, c.endpoint),
                internal_endpoint: or_kept(req.internal_endpoint, c.internal_endpoint),
                path_style: or_kept(req.path_style, c.path_style),
            },
        ),
        ConnectionConfig::Baidu(c) => ConnectionConfig::Baidu(
            BaiduConfig {
                name: or_else(req.name, c.name),
                owner_uid: or_else(req.owner_uid, c.owner_uid),
            },
        ),
    }
}

fn replace(old: String, new: &Option<String>) -> (r: String)
    ensures
        r == or_else(*new, old),
{
    match new {
        Some(v) => v.clone(),
        None => old,
    }
}

fn replace_opt(old: Option<String>, new: &Option<String>) -> (r: Option<String>)
    ensures
        r == or_kept(*new, old),
{
    match new {
        Some(v) => Some(v.clone()),
        None => old,
    }
}

fn replace_flag(old: Option<bool>, new: Option<bool>) -> (r: Option<bool>)
    ensures
        r == or_kept(new, old),
{
    match new {
        Some(v) => Some(v),
        None => old,
    }
}

/// The configuration after an update.
pub fn apply_update(cfg: ConnectionConfig, req: &UpdateConnectionRequest) -> (r: ConnectionConfig)
    ensures
        r == updated_config(cfg, *req),
{
    match cfg {
        ConnectionConfig::S3(c) => ConnectionConfig::S3(
            S3Config {
                name: replace(c.name, &req.name),
                access_key: replace(c.access_key, &req.access_key),
                secret_key: replace(c.secret_key, &req.secret_key),
                region: replace(c.region, &req.region),
                bucket: replace(c.bucket, &req.bucket),
                endpoint: replace_opt(c.endpoint, &req.endpoint),
                path_style: replace_flag(c.path_style, req.path_style),
            },
        ),
        ConnectionConfig::Oss(c) => ConnectionConfig::Oss(
            OssConfig {
                name: replace(c.name, &req.name),
                access_key: replace(c.access_key, &req.access_key),
                secret_key: replace(c.secret_key, &req.secret_key),
                region: replace(c.region, &req.region),
                bucket: replace(c.bucket, &req.bucket),
                endpoint: replace_opt(c.endpoint, &req.endpoint),
                internal_endpoint: replace_opt(c.internal_endpoint, &req.internal_endpoint),
                path_style: replace_flag(c.path_style, req.path_style),
            },
        ),
        ConnectionConfig::Baidu(c) => ConnectionConfig::Baidu(
            BaiduConfig {
                name: replace(c.name, &req.name),
                owner_uid: match req.owner_uid {
                    Some(u) => u,
                    None => c.owner_uid,
                },
            },
        ),
    }
}

/// The character may stand in a file name as it is.
pub open spec fn is_plain(c: char) -> bool {
    ||| 'a' <= c <= 'z'
    ||| 'A' <= c <= 'Z'
    ||| '0' <= c <= '9'
    ||| c == '.'
    ||| c == '-'
}

/// The character, or an underscore in its place.
pub open spec fn plain(c: char) -> char {
    if is_plain(c) {
        c
    } else {
        '_'
    }
}

/// The text with an underscore for each character that may not stand in a file name.
pub fn sanitize(s: &str) -> (r: String)
    ensures
        r@ == s@.map_values(|c: char| plain(c)),
{
    let cs = chars_of(s);
    let ghost f = |c: char| plain(c);
    let mut r = String::new();
    let mut i: usize = 0;
    assert(r@ =~= cs@.take(0).map_values(f));
    while i < cs.len()
        invariant
            i <= cs@.len(),
            f == |c: char| plain(c),
            r@ == cs@.take(i as int).map_values(f),
        decreases cs@.len() - i,
    {
        let c: char = cs[i];
        let ghost before = r@;
        if ('a' <= c && c <= 'z') || ('A' <= c && c <= 'Z') || ('0' <= c && c <= '9') || c == '.'
            || c == '-' {
            r.push(c);
        } else {
            r.push('_');
        }
        i += 1;
        assert(r@ =~= before.push(plain(c)));
        assert(cs@.take(i as int).map_values(f) =~= cs@.take(i - 1).map_values(f).push(plain(c)));
    }
    assert(cs@.take(i as int) =~= cs@);
    r
}

// ---------------------------------------------------------------------------
// Jobs
// ---------------------------------------------------------------------------
/// The announcement of a new job.
pub open spec fn announces_new(e: CloudSyncEvent, job: TransferJob) -> bool {
    e == (CloudSyncEvent::Created {
        job_id: job.id,
        direction: job.direction,
        source_connection_id: job.source_connection_id,
        dest_connection_id: job.dest_connection_id,
        source_path: job.source_path,
        dest_path: job.dest_path,
    })
}

/// The announcement of a new job.
pub fn created_event(job: &TransferJob) -> (r: CloudSyncEvent)
    ensures
        announces_new(r, *job),
{
    CloudSyncEvent::Created {
        job_id: job.id.clone(),
        direction: job.direction,
        source_connection_id: job.source_connection_id.clone(),
        dest_connection_id: job.dest_connection_id.clone(),
        source_path: job.source_path.clone(),
        dest_path: job.dest_path.clone(),
    }
}

/// The announcement of how far a job is, with an error if there is one.
pub open spec fn announces_status(
    e: CloudSyncEvent,
    job: TransferJob,
    error: Option<String>,
) -> bool {
    e == (CloudSyncEvent::StatusChanged {
        job_id: job.id,
        status: job.status,
        transferred_bytes: job.transferred_bytes,
        total_bytes: job.total_bytes,
        error,
    })
}

/// The announcement of how far a job is.
pub fn status_event(job: &TransferJob) -> (r: CloudSyncEvent)
    ensures
        announces_status(r, *job, None),
{
    CloudSyncEvent::StatusChanged {
        job_id: job.id.clone(),
        status: job.status,
        transferred_bytes: job.transferred_bytes,
        total_bytes: job.total_bytes,
        error: None,
    }
}

/// The announcement of a deleted job.
pub fn deleted_event(id: &str) -> (r: CloudSyncEvent)
    ensures
        r matches CloudSyncEvent::Deleted { job_id } && job_id@ == id@,
{
    CloudSyncEvent::Deleted { job_id: id.to_owned() }
}

/// The job, cancelled.
pub open spec fn cancelled_job(
    job: TransferJob,
    updated_at: Timestamp,
    finished_at: Timestamp,
) -> TransferJob {
    TransferJob {
        status: JobStatus::Cancelled,
        updated_at,
        finished_at: Some(finished_at),
        ..job
    }
}

/// The job, running.
pub open spec fn running_job(job: TransferJob, updated_at: Timestamp) -> TransferJob {
    TransferJob { status: JobStatus::Running, updated_at, ..job }
}

/// The job, completed.
pub open spec fn completed_job(
    job: TransferJob,
    updated_at: Timestamp,
    finished_at: Timestamp,
) -> TransferJob {
    TransferJob {
        status: JobStatus::Completed,
        transferred_bytes: job.total_bytes,
        updated_at,
        finished_at: Some(finished_at),
        ..job
    }
}

/// The job, failed with an error.
pub open spec fn is_failed_job(
    r: TransferJob,
    job: TransferJob,
    e: CloudErrorView,
    updated_at: Timestamp,
    finished_at: Timestamp,
) -> bool {
    &&& r == (TransferJob {
        status: JobStatus::Failed,
        error: r.error,
        updated_at,
        finished_at: Some(finished_at),
        ..job
    })
    &&& r.error matches Some(m) && m@ == e.shown()
}

/// The job as it is stored when its run failed: the one it was before the run, with the error.
pub fn failed_job_at(
    job: TransferJob,
    e: &CloudSyncError,
    updated_at: Timestamp,
    finished_at: Timestamp,
) -> (r: TransferJob)
    ensures
        is_failed_job(r, job, e@, updated_at, finished_at),
{
    let mut job = job;
    job.status = JobStatus::Failed;
    job.error = Some(e.to_string());
    job.updated_at = updated_at;
    job.finished_at = Some(finished_at);
    job
}

/// The job as it is stored when its run failed, and its announcement.
pub fn failed_job(job: TransferJob, e: &CloudSyncError) -> (r: (TransferJob, CloudSyncEvent))
    ensures
        exists|u: Timestamp, f: Timestamp| #[trigger] is_failed_job(r.0, job, e@, u, f),
        announces_status(r.1, r.0, r.0.error),
{
    let updated_at = now_utc();
    let finished_at = now_utc();
    let failed = failed_job_at(job, e, updated_at, finished_at);
    assert(is_failed_job(failed, job, e@, updated_at, finished_at));
    let event = CloudSyncEvent::StatusChanged {
        job_id: failed.id.clone(),
        status: failed.status,
        transferred_bytes: failed.transferred_bytes,
        total_bytes: failed.total_bytes,
        error: copy_opt(&failed.error),
    };
    (failed, event)
}

/// The name of a connection in a listing of jobs.
pub open spec fn listed_name(c: Option<Connection>) -> Seq<char> {
    match c {
        Some(c) => c.config.given_name(),
        None => "(已删除)"@,
    }
}

fn name_listed(c: &Option<Connection>) -> (r: String)
    ensures
        r@ == listed_name(*c),
{
    match c {
        Some(c) => c.name().to_owned(),
        None => "(已删除)".to_owned(),
    }
}

/// The summary is the job's, with the names of its connections.
pub open spec fn is_summary(
    s: JobSummary,
    job: TransferJob,
    src: Option<Connection>,
    dst: Option<Connection>,
) -> bool {
    &&& s == (JobSummary {
        id: job.id,
        name: job.name,
        direction: job.direction,
        source_connection_id: job.source_connection_id,
        source_connection_name: s.source_connection_name,
        dest_connection_id: job.dest_connection_id,
        dest_connection_name: s.dest_connection_name,
        source_path: job.source_path,
        dest_path: job.dest_path,
        status: job.status,
        transferred_bytes: job.transferred_bytes,
        total_bytes: job.total_bytes,
        error: job.error,
        created_at: job.created_at,
        updated_at: job.updated_at,
        finished_at: job.finished_at,
    })
    &&& s.source_connection_name@ == listed_name(src)
    &&& s.dest_connection_name@ == listed_name(dst)
}

/// The job as it is listed; `src` and `dst` are its connections, as far as they are left.
pub fn to_summary(job: TransferJob, src: &Option<Connection>, dst: &Option<Connection>) -> (r:
    JobSummary)
    ensures
        is_summary(r, job, *src, *dst),
{
    JobSummary {
        id: job.id,
        name: job.name,
        direction: job.direction,
        source_connection_id: job.source_connection_id,
        source_connection_name: name_listed(src),
        dest_connection_id: job.dest_connection_id,
        dest_connection_name: name_listed(dst),
        source_path: job.source_path,
        dest_path: job.dest_path,
        status: job.status,
        transferred_bytes: job.transferred_bytes,
        total_bytes: job.total_bytes,
        error: job.error,
        created_at: job.created_at,
        updated_at: job.updated_at,
        finished_at: job.finished_at,
    }
}

/// How many jobs are listed.
pub const LISTED_JOBS: i64 = 500;


// ---------------------------------------------------------------------------
// The manager
// ---------------------------------------------------------------------------
/// Keeps the connections that were looked up, and which running jobs were asked to stop.
pub struct CloudSyncManager {
    cancel_flags: dashmap::DashMap<String, u64>,
    connection_cache: StringHashMap<Connection>,
}

/// What a `CloudSyncManager` knows.
pub struct CloudManagerView {
    /// The connections that are known, by identifier.
    pub connections: Map<Seq<char>, Connection>,
    /// The running jobs: 1 for those that were asked to stop, 0 for the others.
    pub jobs: Map<Seq<char>, u64>,
}

impl View for CloudSyncManager {
    type V = CloudManagerView;

    closed spec fn view(&self) -> CloudManagerView {
        CloudManagerView {
            connections: self.connection_cache@,
            jobs: registry::marks_in(self.cancel_flags),
        }
    }
}

impl CloudManagerView {
    /// The connection with an identifier: the known one, or else the stored one.
    pub open spec fn found(self, id: Seq<char>, stored: Option<Connection>) -> Option<Connection> {
        if self.connections.contains_key(id) {
            Some(self.connections[id])
        } else {
            stored
        }
    }

    /// The job runs and was asked to stop.
    pub open spec fn is_stopping(self, id: Seq<char>) -> bool {
        self.jobs.contains_key(id) && self.jobs[id] == 1
    }

    /// The manager, once a job was asked to stop: one that does not run is left alone.
    pub open spec fn with_stop(self, id: Seq<char>) -> CloudManagerView {
        if self.jobs.contains_key(id) {
            CloudManagerView { jobs: self.jobs.insert(id, 1), ..self }
        } else {
            self
        }
    }
}

/// The configuration that a request asks for.
pub open spec fn requested_config(req: CreateConnectionRequest) -> ConnectionConfig {
    match req {
        CreateConnectionRequest::S3(c) => ConnectionConfig::S3(c),
        CreateConnectionRequest::Oss(c) => ConnectionConfig::Oss(c),
        CreateConnectionRequest::Baidu(c) => ConnectionConfig::Baidu(c),
    }
}

/// The job is the one that was asked for, between two connections, as it begins.
pub open spec fn is_new_job(
    job: TransferJob,
    req: CreateJobRequest,
    src: Connection,
    dst: Connection,
) -> bool {
    job == (TransferJob {
        id: job.id,
        name: req.name,
        source_connection_id: req.source_connection_id,
        dest_connection_id: req.dest_connection_id,
        source_path: req.source_path,
        dest_path: req.dest_path,
        direction: direction_between(src.config.service(), dst.config.service()),
        status: JobStatus::Pending,
        transferred_bytes: 0,
        total_bytes: 0,
        error: None,
        created_at: job.created_at,
        updated_at: job.created_at,
        finished_at: None,
        local_cache_path: None,
        owner_uid: or_kept(req.owner_uid, account_between(src.config, dst.config)),
    })
}

impl CloudSyncManager {
    /// A manager that knows of nothing.
    pub fn new() -> (r: Self)
        ensures
            r@.connections == Map::<Seq<char>, Connection>::empty(),
            r@.jobs == Map::<Seq<char>, u64>::empty(),
    {
        let r = CloudSyncManager {
            cancel_flags: registry::new_marks(),
            connection_cache: StringHashMap::new(),
        };
        assert(r@.jobs =~= Map::<Seq<char>, u64>::empty());
        r
    }

    /// The connection with an identifier, if it is known.
    pub fn known_connection(&self, id: &str) -> (r: Option<Connection>)
        ensures
            r == self@.found(id@, None),
    {
        match self.connection_cache.get(id) {
            Some(c) => Some(c.clone()),
            None => None,
        }
    }

    /// The connection with an identifier; `stored` is what the store holds. What is found there
    /// is known from now on.
    pub fn get_connection(&mut self, id: &str, stored: Option<Connection>) -> (r: Option<
        Connection,
    >)
        ensures
            r == old(self)@.found(id@, stored),
            final(self)@.jobs == old(self)@.jobs,
            final(self)@.connections == match r {
                Some(c) => old(self)@.connections.insert(id@, c),
                None => old(self)@.connections,
            },
    {
        match self.connection_cache.get(id) {
            Some(c) => {
                let r = c.clone();
                assert(self@.connections.insert(id@, r) =~= self@.connections);
                return Some(r);
            },
            None => {},
        }
        match stored {
            Some(c) => {
                self.connection_cache.insert(id.to_owned(), c.clone());
                Some(c)
            },
            None => None,
        }
    }

    /// The connection that a request asks for; `logged_in` says whether the account that it
    /// names is.
    pub fn create_connection(&self, req: CreateConnectionRequest, logged_in: bool) -> (r: Result<
        Connection,
        CloudSyncError,
    >)
        ensures
            match r {
                Ok(c) => {
                    &&& req is Baidu ==> logged_in
                    &&& c.config == requested_config(req)
                    &&& c.updated_at == c.created_at
                    &&& c.id@.len() == 36
                },
                Err(e) => !logged_in && (req matches CreateConnectionRequest::Baidu(c) && e@
                    == CloudErrorView::Auth(
                    "百度账号 "@ + numbers::decimal_of(c.owner_uid as nat) + " 未登录"@,
                )),
            },
    {
        let config = match req {
            CreateConnectionRequest::S3(c) => ConnectionConfig::S3(c),
            CreateConnectionRequest::Oss(c) => ConnectionConfig::Oss(c),
            CreateConnectionRequest::Baidu(c) => {
                if !logged_in {
                    let uid = decimal(c.owner_uid);
                    return Err(
                        CloudSyncError::Auth(concat3("百度账号 ", uid.as_str(), " 未登录")),
                    );
                }
                ConnectionConfig::Baidu(c)
            },
        };
        let now = now_utc();
        Ok(Connection { id: fresh_id(), config, created_at: now, updated_at: now })
    }

    /// A connection was stored.
    pub fn connection_stored(&mut self, id: &str, c: Connection)
        ensures
            final(self)@.jobs == old(self)@.jobs,
            final(self)@.connections == old(self)@.connections.insert(id@, c),
    {
        self.connection_cache.insert(id.to_owned(), c);
    }

    /// The connection after an update; `stored` is what the store holds.
    pub fn update_connection(
        &self,
        stored: Option<Connection>,
        req: &UpdateConnectionRequest,
    ) -> (r: Result<Connection, CloudSyncError>)
        ensures
            match (stored, r) {
                (Some(before), Ok(c)) => c == (Connection {
                    config: updated_config(before.config, *req),
                    updated_at: c.updated_at,
                    ..before
                }),
                (None, Err(e)) => e@ == CloudErrorView::NotFound("连接不存在"@),
                _ => false,
            },
    {
        match stored {
            Some(before) => Ok(
                Connection {
                    id: before.id,
                    config: apply_update(before.config, req),
                    created_at: before.created_at,
                    updated_at: now_utc(),
                },
            ),
            None => Err(CloudSyncError::not_found("连接不存在")),
        }
    }

    /// A connection was deleted from the store.
    pub fn delete_connection(&mut self, id: &str)
        ensures
            final(self)@.jobs == old(self)@.jobs,
            final(self)@.connections == old(self)@.connections.remove(id@),
    {
        self.connection_cache.remove(id);
    }

    /// The job that is asked for; `stored` is what the store holds.
    pub fn get_job(&self, stored: Option<TransferJob>) -> (r: Result<TransferJob, CloudSyncError>)
        ensures
            match (stored, r) {
                (Some(job), Ok(j)) => j == job,
                (None, Err(e)) => e@ == CloudErrorView::NotFound("任务不存在"@),
                _ => false,
            },
    {
        match stored {
            Some(job) => Ok(job),
            None => Err(CloudSyncError::not_found("任务不存在")),
        }
    }

    /// The job that a request asks for; `src` and `dst` are the connections it names.
    pub fn create_job(
        &self,
        req: CreateJobRequest,
        src: Option<Connection>,
        dst: Option<Connection>,
    ) -> (r: Result<TransferJob, CloudSyncError>)
        ensures
            match (src, dst, r) {
                (Some(s), Some(d), Ok(job)) => is_new_job(job, req, s, d) && job.id@.len() == 36,
                (None, _, Err(e)) => e@ == CloudErrorView::NotFound(
                    "源连接不存在: "@ + req.source_connection_id@,
                ),
                (Some(_), None, Err(e)) => e@ == CloudErrorView::NotFound(
                    "目标连接不存在: "@ + req.dest_connection_id@,
                ),
                _ => false,
            },
    {
        let s = match src {
            Some(c) => c,
            None => return Err(
                CloudSyncError::NotFound(
                    concat2("源连接不存在: ", req.source_connection_id.as_str()),
                ),
            ),
        };
        let d = match dst {
            Some(c) => c,
            None => return Err(
                CloudSyncError::NotFound(
                    concat2("目标连接不存在: ", req.dest_connection_id.as_str()),
                ),
            ),
        };
        let direction = infer_direction(s.kind(), d.kind());
        let now = now_utc();
        let owner_uid = match req.owner_uid {
            Some(u) => Some(u),
            None => extract_baidu_uid(&s, &d),
        };
        Ok(
            TransferJob {
                id: fresh_id(),
                name: req.name,
                source_connection_id: req.source_connection_id,
                dest_connection_id: req.dest_connection_id,
                source_path: req.source_path,
                dest_path: req.dest_path,
                direction,
                status: JobStatus::Pending,
                transferred_bytes: 0,
                total_bytes: 0,
                error: None,
                created_at: now,
                updated_at: now,
                finished_at: None,
                local_cache_path: None,
                owner_uid,
            },
        )
    }

    fn stop(&mut self, id: &str) -> (r: bool)
        ensures
            r == old(self)@.jobs.contains_key(id@),
            final(self)@ == old(self)@.with_stop(id@),
    {
        if registry::has_mark(&self.cancel_flags, id) {
            registry::put_mark(&mut self.cancel_flags, id.to_owned(), 1);
            true
        } else {
            false
        }
    }

    /// A job shall be deleted: it is asked to stop, if it runs.
    pub fn delete_job(&mut self, id: &str)
        ensures
            final(self)@ == old(self)@.with_stop(id@),
    {
        self.stop(id);
    }

    /// A job shall be cancelled, at a given time. One that runs is asked to stop; of another,
    /// `stored` is what the store holds. What is given back is to be stored.
    pub fn cancel_job_at(
        &mut self,
        id: &str,
        stored: Option<TransferJob>,
        updated_at: Timestamp,
        finished_at: Timestamp,
    ) -> (r: Option<TransferJob>)
        ensures
            final(self)@ == old(self)@.with_stop(id@),
            r == match stored {
                Some(job) => if old(self)@.jobs.contains_key(id@) || job.status.terminal() {
                    None
                } else {
                    Some(cancelled_job(job, updated_at, finished_at))
                },
                None => None,
            },
    {
        if self.stop(id) {
            return None;
        }
        match stored {
            Some(job) => {
                if job.status.is_terminal() {
                    None
                } else {
                    let mut job = job;
                    job.status = JobStatus::Cancelled;
                    job.updated_at = updated_at;
                    job.finished_at = Some(finished_at);
                    Some(job)
                }
            },
            None => None,
        }
    }

    /// A job shall be cancelled now.
    pub fn cancel_job(&mut self, id: &str, stored: Option<TransferJob>) -> (r: Option<
        TransferJob,
    >)
        ensures
            final(self)@ == old(self)@.with_stop(id@),
            match (stored, r) {
                (Some(job), Some(j)) => {
                    &&& !old(self)@.jobs.contains_key(id@)
                    &&& !job.status.terminal()
                    &&& j.finished_at is Some
                    &&& j == cancelled_job(job, j.updated_at, j.finished_at->0)
                },
                (Some(job), None) => old(self)@.jobs.contains_key(id@) || job.status.terminal(),
                (None, None) => true,
                _ => false,
            },
    {
        let updated_at = now_utc();
        let finished_at = now_utc();
        self.cancel_job_at(id, stored, updated_at, finished_at)
    }

    /// A job begins to run.
    pub fn job_started(&mut self, id: &str)
        ensures
            final(self)@.connections == old(self)@.connections,
            final(self)@.jobs == old(self)@.jobs.insert(id@, 0),
    {
        registry::put_mark(&mut self.cancel_flags, id.to_owned(), 0);
    }

    /// Whether a running job was asked to stop.
    pub fn is_cancelled(&self, id: &str) -> (r: bool)
        ensures
            r == self@.is_stopping(id@),
    {
        match registry::mark_of(&self.cancel_flags, id) {
            Some(flag) => flag == 1,
            None => false,
        }
    }

    /// A job runs no more.
    pub fn job_ended(&mut self, id: &str)
        ensures
            final(self)@.connections == old(self)@.connections,
            final(self)@.jobs == old(self)@.jobs.remove(id@),
    {
        registry::take_mark(&mut self.cancel_flags, id);
    }
}

// ---------------------------------------------------------------------------
// Laws
// ---------------------------------------------------------------------------
/// An update keeps the kind of service, and gives the connection the name that it names.
pub proof fn law_update_keeps_the_kind(cfg: ConnectionConfig, req: UpdateConnectionRequest)
    ensures
        updated_config(cfg, req).service() == cfg.service(),
        updated_config(cfg, req).given_name() == match req.name {
            Some(n) => n@,
            None => cfg.given_name(),
        },
{
}

/// An update twice over is the update once.
pub proof fn law_update_is_idempotent(cfg: ConnectionConfig, req: UpdateConnectionRequest)
    ensures
        updated_config(updated_config(cfg, req), req) == updated_config(cfg, req),
{
}

/// An update that names nothing changes nothing.
pub proof fn law_empty_update_changes_nothing(
    cfg: ConnectionConfig,
    req: UpdateConnectionRequest,
)
    requires
        req.name is None && req.access_key is None && req.secret_key is None && req.region is None,
        req.bucket is None && req.endpoint is None && req.internal_endpoint is None,
        req.path_style is None && req.owner_uid is None,
    ensures
        updated_config(cfg, req) == cfg,
{
}

/// A job that runs stops when it is asked to, and the others go on.
pub proof fn law_asking_stops_one_job(m: CloudManagerView, id: Seq<char>, other: Seq<char>)
    ensures
        m.with_stop(id).is_stopping(id) == m.jobs.contains_key(id),
        other != id ==> m.with_stop(id).is_stopping(other) == m.is_stopping(other),
        m.with_stop(id).connections == m.connections,
        m.with_stop(id).jobs.dom() == m.jobs.dom(),
{
    assert(m.with_stop(id).jobs.dom() =~= m.jobs.dom());
}

/// A sanitized text holds only what may stand in a file name, and stays as it is when it is
/// sanitized again.
pub proof fn law_sanitized_is_plain(s: Seq<char>)
    ensures
        ({
            let t = s.map_values(|c: char| plain(c));
            &&& t.len() == s.len()
            &&& forall|i: int| 0 <= i < t.len() ==> is_plain(#[trigger] t[i]) || t[i] == '_'
            &&& t.map_values(|c: char| plain(c)) == t
        }),
{
    let t = s.map_values(|c: char| plain(c));
    assert(t.map_values(|c: char| plain(c)) =~= t);
}

/// A job from the disk to another store downloads; every other job uploads.
pub proof fn law_which_way_a_job_goes(src: StorageKind, dst: StorageKind)
    ensures
        direction_between(src, dst) == SyncDirection::Download <==> (src == StorageKind::Baidu && dst
            != StorageKind::Baidu),
        direction_between(src, dst) == SyncDirection::Upload <==> !(src == StorageKind::Baidu && dst
            != StorageKind::Baidu),
{
}

/// A job belongs to the account of its source on the disk, else to that of its destination there,
/// else to none; unless the request names one.
pub proof fn law_whose_job_it_is(
    src: Connection,
    dst: Connection,
    req: CreateJobRequest,
    job: TransferJob,
)
    requires
        is_new_job(job, req, src, dst),
    ensures
        req.owner_uid is Some ==> job.owner_uid == req.owner_uid,
        req.owner_uid is None ==> match src.config {
            ConnectionConfig::Baidu(c) => job.owner_uid == Some(c.owner_uid),
            _ => match dst.config {
                ConnectionConfig::Baidu(c) => job.owner_uid == Some(c.owner_uid),
                _ => job.owner_uid is None,
            },
        },
        job.status == JobStatus::Pending,
        job.transferred_bytes == 0 && job.total_bytes == 0,
        job.error is None && job.finished_at is None,
        job.source_connection_id == req.source_connection_id,
        job.dest_connection_id == req.dest_connection_id,
        job.source_path == req.source_path,
        job.dest_path == req.dest_path,
        job.name == req.name,
{
}

/// An update of a connection replaces what it names and keeps the rest.
pub proof fn law_update_replaces_what_it_names(
    s3: S3Config,
    oss: OssConfig,
    baidu: BaiduConfig,
    req: UpdateConnectionRequest,
)
    ensures
        updated_config(ConnectionConfig::S3(s3), req) matches ConnectionConfig::S3(c) && {
            &&& (req.name matches Some(v) ==> c.name == v) && (req.name is None ==> c.name
                == s3.name)
            &&& (req.access_key matches Some(v) ==> c.access_key == v) && (req.access_key is None
                ==> c.access_key == s3.access_key)
            &&& (req.secret_key matches Some(v) ==> c.secret_key == v) && (req.secret_key is None
                ==> c.secret_key == s3.secret_key)
            &&& (req.region matches Some(v) ==> c.region == v) && (req.region is None ==> c.region
                == s3.region)
            &&& (req.bucket matches Some(v) ==> c.bucket == v) && (req.bucket is None ==> c.bucket
                == s3.bucket)
            &&& (req.endpoint is Some ==> c.endpoint == req.endpoint) && (req.endpoint is None
                ==> c.endpoint == s3.endpoint)
            &&& (req.path_style is Some ==> c.path_style == req.path_style) && (req.path_style is None
                ==> c.path_style == s3.path_style)
        },
        updated_config(ConnectionConfig::Oss(oss), req) matches ConnectionConfig::Oss(c) && {
            &&& (req.name matches Some(v) ==> c.name == v) && (req.name is None ==> c.name
                == oss.name)
            &&& (req.access_key matches Some(v) ==> c.access_key == v) && (req.access_key is None
                ==> c.access_key == oss.access_key)
            &&& (req.secret_key matches Some(v) ==> c.secret_key == v) && (req.secret_key is None
                ==> c.secret_key == oss.secret_key)
            &&& (req.region matches Some(v) ==> c.region == v) && (req.region is None ==> c.region
                == oss.region)
            &&& (req.bucket matches Some(v) ==> c.bucket == v) && (req.bucket is None ==> c.bucket
                == oss.bucket)
            &&& (req.endpoint is Some ==> c.endpoint == req.endpoint) && (req.endpoint is None
                ==> c.endpoint == oss.endpoint)
            &&& (req.internal_endpoint is Some ==> c.internal_endpoint == req.internal_endpoint) && (
            req.internal_endpoint is None ==> c.internal_endpoint == oss.internal_endpoint)
            &&& (req.path_style is Some ==> c.path_style == req.path_style) && (req.path_style is None
                ==> c.path_style == oss.path_style)
        },
        updated_config(ConnectionConfig::Baidu(baidu), req) matches ConnectionConfig::Baidu(c) && {
            &&& (req.name matches Some(v) ==> c.name == v) && (req.name is None ==> c.name
                == baidu.name)
            &&& (req.owner_uid matches Some(v) ==> c.owner_uid == v) && (req.owner_uid is None
                ==> c.owner_uid == baidu.owner_uid)
        },
{
}

/// A job that ends says how: cancelled, completed with all its bytes, or failed with the error,
/// and when. Nothing else of it changes.
pub proof fn law_how_a_job_ends(
    job: TransferJob,
    updated_at: Timestamp,
    finished_at: Timestamp,
    failed: TransferJob,
    e: CloudErrorView,
)
    ensures
        ({
            let c = cancelled_job(job, updated_at, finished_at);
            &&& c.status == JobStatus::Cancelled && c.finished_at == Some(finished_at)
            &&& c.updated_at == updated_at && c.transferred_bytes == job.transferred_bytes
            &&& c.id == job.id && c.error == job.error && c.total_bytes == job.total_bytes
        }),
        ({
            let c = completed_job(job, updated_at, finished_at);
            &&& c.status == JobStatus::Completed && c.finished_at == Some(finished_at)
            &&& c.transferred_bytes == job.total_bytes && c.total_bytes == job.total_bytes
            &&& c.id == job.id && c.updated_at == updated_at
        }),
        ({
            let c = running_job(job, updated_at);
            &&& c.status == JobStatus::Running && c.id == job.id && c.finished_at
                == job.finished_at
        }),
        is_failed_job(failed, job, e, updated_at, finished_at) ==> failed.status
            == JobStatus::Failed && failed.finished_at == Some(finished_at) && (
        failed.error matches Some(m) && m@ == e.shown()) && failed.id == job.id
            && failed.transferred_bytes == job.transferred_bytes,
{
}

/// A connection that the manager knows is used as it knows it, another as it is stored; a job is
/// stopping once it was asked to, and only where it runs.
pub proof fn law_what_the_manager_knows(
    m: CloudManagerView,
    id: Seq<char>,
    stored: Option<Connection>,
)
    ensures
        m.connections.contains_key(id) ==> m.found(id, stored) == Some(m.connections[id]),
        !m.connections.contains_key(id) ==> m.found(id, stored) == stored,
        m.with_stop(id).is_stopping(id) <==> m.jobs.contains_key(id),
        m.with_stop(id).connections == m.connections,
        m.with_stop(id).jobs.dom() == m.jobs.dom(),
{
    assert(m.with_stop(id).jobs.dom() =~= m.jobs.dom());
}

/// A job is done with where it is completed, failed or cancelled.
pub proof fn law_when_a_job_is_done(s: JobStatus)
    ensures
        s.terminal() <==> (s != JobStatus::Pending && s != JobStatus::Running),
{
}

/// A job is summed up with all that is known of it, and each of its connections by the name that
/// was given to it; one that is gone is told as such.
pub proof fn law_summary_says_what_the_job_says(
    s: JobSummary,
    job: TransferJob,
    src: Option<Connection>,
    dst: Option<Connection>,
)
    requires
        is_summary(s, job, src, dst),
    ensures
        s.id == job.id && s.name == job.name && s.direction == job.direction,
        s.source_connection_id == job.source_connection_id,
        s.dest_connection_id == job.dest_connection_id,
        s.source_path == job.source_path && s.dest_path == job.dest_path,
        s.status == job.status && s.error == job.error,
        s.transferred_bytes == job.transferred_bytes && s.total_bytes == job.total_bytes,
        s.created_at == job.created_at && s.updated_at == job.updated_at && s.finished_at
            == job.finished_at,
        src matches Some(c) ==> s.source_connection_name@ == c.config.given_name(),
        dst matches Some(c) ==> s.dest_connection_name@ == c.config.given_name(),
        src is None ==> s.source_connection_name@ == "(已删除)"@,
        dst is None ==> s.dest_connection_name@ == "(已删除)"@,
{
}

/// Letters, digits, points and hyphens stand in a file name as they are; an underscore stands for
/// any other character.
pub proof fn law_what_stands_in_a_file_name(s: Seq<char>, c: char)
    ensures
        s.push(c).map_values(|c: char| plain(c)) == s.map_values(|c: char| plain(c)).push(
            if 'a' <= c <= 'z' || 'A' <= c <= 'Z' || '0' <= c <= '9' || c == '.' || c == '-' {
                c
            } else {
                '_'
            },
        ),
{
    assert(s.push(c).map_values(|c: char| plain(c)) =~= s.map_values(|c: char| plain(c)).push(
        plain(c),
    ));
}

/// What is announced of a job is what the job says.
pub proof fn law_announcements_say_what_the_job_says(
    e: CloudSyncEvent,
    job: TransferJob,
    error: Option<String>,
)
    ensures
        announces_new(e, job) ==> (e matches CloudSyncEvent::Created {
            job_id,
            direction,
            source_connection_id,
            dest_connection_id,
            source_path,
            dest_path,
        } && job_id == job.id && direction == job.direction && source_connection_id
            == job.source_connection_id && dest_connection_id == job.dest_connection_id
            && source_path == job.source_path && dest_path == job.dest_path),
        announces_status(e, job, error) ==> (e matches CloudSyncEvent::StatusChanged {
            job_id,
            status,
            transferred_bytes,
            total_bytes,
            error: told,
        } && job_id == job.id && status == job.status && transferred_bytes == job.transferred_bytes
            && total_bytes == job.total_bytes && told == error),
{
}

} // verus!
