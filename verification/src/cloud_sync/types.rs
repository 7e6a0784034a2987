//! Connections to storage services, transfer jobs and listings.
use vstd::prelude::*;

use crate::ids::Timestamp;
use crate::text::copy_opt;

verus! {

/// A kind of storage service.
#[derive(Debug, Clone, Copy, PartialEq, Eq, Structural)]
pub enum StorageKind {
    S3,
    Oss,
    Baidu,
}

impl StorageKind {
    /// The name of the kind.
    pub open spec fn name(self) -> Seq<char> {
        match self {
            StorageKind::S3 => "s3"@,
            StorageKind::Oss => "oss"@,
            StorageKind::Baidu => "baidu"@,
        }
    }

    /// The name of the kind.
    pub fn as_str(&self) -> (r: &'static str)
        ensures
            r@ == self.name(),
    {
        match self {
            StorageKind::S3 => "s3",
            StorageKind::Oss => "oss",
            StorageKind::Baidu => "baidu",
        }
    }
}

/// How an S3 bucket is reached.
#[derive(Debug)]
pub struct S3Config {
    pub name: String,
    pub region: String,
    pub bucket: String,
    pub access_key: String,
    pub secret_key: String,
    pub endpoint: Option<String>,
    pub path_style: Option<bool>,
}

impl Clone for S3Config {
    fn clone(&self) -> (r: Self)
        ensures
            r == *self,
    {
        S3Config {
            name: self.name.clone(),
            region: self.region.clone(),
            bucket: self.bucket.clone(),
            access_key: self.access_key.clone(),
            secret_key: self.secret_key.clone(),
            endpoint: copy_opt(&self.endpoint),
            path_style: self.path_style,
        }
    }
}

/// How an OSS bucket is reached.
#[derive(Debug)]
pub struct OssConfig {
    pub name: String,
    pub region: String,
    pub bucket: String,
    pub access_key: String,
    pub secret_key: String,
    pub endpoint: Option<String>,
    pub internal_endpoint: Option<String>,
    pub path_style: Option<bool>,
}

impl Clone for OssConfig {
    fn clone(&self) -> (r: Self)
        ensures
            r == *self,
    {
        OssConfig {
            name: self.name.clone(),
            region: self.region.clone(),
            bucket: self.bucket.clone(),
            access_key: self.access_key.clone(),
            secret_key: self.secret_key.clone(),
            endpoint: copy_opt(&self.endpoint),
            internal_endpoint: copy_opt(&self.internal_endpoint),
            path_style: self.path_style,
        }
    }
}

/// Which account of the network disk is used.
#[derive(Debug)]
pub struct BaiduConfig {
    pub name: String,
    pub owner_uid: u64,
}

impl Clone for BaiduConfig {
    fn clone(&self) -> (r: Self)
        ensures
            r == *self,
    {
        BaiduConfig { name: self.name.clone(), owner_uid: self.owner_uid }
    }
}

/// How a storage service is reached.
#[derive(Debug)]
pub enum ConnectionConfig {
    S3(S3Config),
    Oss(OssConfig),
    Baidu(BaiduConfig),
}

impl Clone for ConnectionConfig {
    fn clone(&self) -> (r: Self)
        ensures
            r == *self,
    {
        match self {
            ConnectionConfig::S3(c) => ConnectionConfig::S3(c.clone()),
            ConnectionConfig::Oss(c) => ConnectionConfig::Oss(c.clone()),
            ConnectionConfig::Baidu(c) => ConnectionConfig::Baidu(c.clone()),
        }
    }
}

/// A named connection to a storage service.
#[derive(Debug)]
pub struct Connection {
    pub id: String,
    pub config: ConnectionConfig,
    pub created_at: Timestamp,
    pub updated_at: Timestamp,
}

impl Clone for Connection {
    fn clone(&self) -> (r: Self)
        ensures
            r == *self,
    {
        Connection {
            id: self.id.clone(),
            config: self.config.clone(),
            created_at: self.created_at,
            updated_at: self.updated_at,
        }
    }
}

impl ConnectionConfig {
    /// The kind of service.
    pub open spec fn service(self) -> StorageKind {
        match self {
            ConnectionConfig::S3(_) => StorageKind::S3,
            ConnectionConfig::Oss(_) => StorageKind::Oss,
            ConnectionConfig::Baidu(_) => StorageKind::Baidu,
        }
    }

    /// The name that was given.
    pub open spec fn given_name(self) -> Seq<char> {
        match self {
            ConnectionConfig::S3(c) => c.name@,
            ConnectionConfig::Oss(c) => c.name@,
            ConnectionConfig::Baidu(c) => c.name@,
        }
    }
}

impl Connection {
    /// The kind of service.
    pub fn kind(&self) -> (r: StorageKind)
        ensures
            r == self.config.service(),
    {
        match &self.config {
            ConnectionConfig::S3(_) => StorageKind::S3,
            ConnectionConfig::Oss(_) => StorageKind::Oss,
            ConnectionConfig::Baidu(_) => StorageKind::Baidu,
        }
    }

    /// The name that was given.
    pub fn name(&self) -> (r: &str)
        ensures
            r@ == self.config.given_name(),
    {
        match &self.config {
            ConnectionConfig::S3(c) => c.name.as_str(),
            ConnectionConfig::Oss(c) => c.name.as_str(),
            ConnectionConfig::Baidu(c) => c.name.as_str(),
        }
    }
}

/// Which way a job moves data, seen from the network disk.
#[derive(Debug, Clone, Copy, PartialEq, Eq, Structural)]
pub enum SyncDirection {
    Upload,
    Download,
}

impl SyncDirection {
    /// The name of the direction.
    pub open spec fn name(self) -> Seq<char> {
        match self {
            SyncDirection::Upload => "upload"@,
            SyncDirection::Download => "download"@,
        }
    }

    /// The name of the direction.
    pub fn as_str(&self) -> (r: &'static str)
        ensures
            r@ == self.name(),
    {
        match self {
            SyncDirection::Upload => "upload",
            SyncDirection::Download => "download",
        }
    }
}

/// A request for a new connection.
#[derive(Debug)]
pub enum CreateConnectionRequest {
    S3(S3Config),
    Oss(OssConfig),
    Baidu(BaiduConfig),
}

/// What shall change of a connection; what is absent stays.
#[derive(Debug)]
pub struct UpdateConnectionRequest {
    pub name: Option<String>,
    pub access_key: Option<String>,
    pub secret_key: Option<String>,
    pub region: Option<String>,
    pub bucket: Option<String>,
    pub endpoint: Option<String>,
    pub internal_endpoint: Option<String>,
    pub path_style: Option<bool>,
    pub owner_uid: Option<u64>,
}

impl Default for UpdateConnectionRequest {
    /// A request that changes nothing.
    fn default() -> (r: Self)
        ensures
            r.name is None && r.access_key is None && r.secret_key is None && r.region is None,
            r.bucket is None && r.endpoint is None && r.internal_endpoint is None,
            r.path_style is None && r.owner_uid is None,
    {
        UpdateConnectionRequest {
            name: None,
            access_key: None,
            secret_key: None,
            region: None,
            bucket: None,
            endpoint: None,
            internal_endpoint: None,
            path_style: None,
            owner_uid: None,
        }
    }
}

/// How far a job is.
#[derive(Debug, Clone, Copy, PartialEq, Eq, Structural)]
pub enum JobStatus {
    Pending,
    Running,
    Completed,
    Failed,
    Cancelled,
}

impl JobStatus {
    /// The name of the status.
    pub open spec fn name(self) -> Seq<char> {
        match self {
            JobStatus::Pending => "pending"@,
            JobStatus::Running => "running"@,
            JobStatus::Completed => "completed"@,
            JobStatus::Failed => "failed"@,
            JobStatus::Cancelled => "cancelled"@,
        }
    }

    /// No job leaves this status.
    pub open spec fn terminal(self) -> bool {
        self == JobStatus::Completed || self == JobStatus::Failed || self == JobStatus::Cancelled
    }

    /// The name of the status.
    pub fn as_str(&self) -> (r: &'static str)
        ensures
            r@ == self.name(),
    {
        match self {
            JobStatus::Pending => "pending",
            JobStatus::Running => "running",
            JobStatus::Completed => "completed",
            JobStatus::Failed => "failed",
            JobStatus::Cancelled => "cancelled",
        }
    }

    /// Whether the job is over.
    pub fn is_terminal(&self) -> (r: bool)
        ensures
            r == self.terminal(),
    {
        matches!(self, JobStatus::Completed | JobStatus::Failed | JobStatus::Cancelled)
    }
}

/// A job that moves one file from one connection to another.
#[derive(Debug)]
pub struct TransferJob {
    pub id: String,
    pub name: String,
    pub source_connection_id: String,
    pub dest_connection_id: String,
    pub source_path: String,
    pub dest_path: String,
    pub direction: SyncDirection,
    pub status: JobStatus,
    pub transferred_bytes: u64,
    pub total_bytes: u64,
    pub error: Option<String>,
    pub created_at: Timestamp,
    pub updated_at: Timestamp,
    pub finished_at: Option<Timestamp>,
    pub local_cache_path: Option<String>,
    pub owner_uid: Option<u64>,
}

impl Clone for TransferJob {
    fn clone(&self) -> (r: Self)
        ensures
            r == *self,
    {
        TransferJob {
            id: self.id.clone(),
            name: self.name.clone(),
            source_connection_id: self.source_connection_id.clone(),
            dest_connection_id: self.dest_connection_id.clone(),
            source_path: self.source_path.clone(),
            dest_path: self.dest_path.clone(),
            direction: self.direction,
            status: self.status,
            transferred_bytes: self.transferred_bytes,
            total_bytes: self.total_bytes,
            error: copy_opt(&self.error),
            created_at: self.created_at,
            updated_at: self.updated_at,
            finished_at: self.finished_at,
            local_cache_path: copy_opt(&self.local_cache_path),
            owner_uid: self.owner_uid,
        }
    }
}

/// A request for a new job.
#[derive(Debug)]
pub struct CreateJobRequest {
    pub name: String,
    pub source_connection_id: String,
    pub dest_connection_id: String,
    pub source_path: String,
    pub dest_path: String,
    pub owner_uid: Option<u64>,
}

/// A job as it is listed: with the names of its connections.
#[derive(Debug)]
pub struct JobSummary {
    pub id: String,
    pub name: String,
    pub direction: SyncDirection,
    pub source_connection_id: String,
    pub source_connection_name: String,
    pub dest_connection_id: String,
    pub dest_connection_name: String,
    pub source_path: String,
    pub dest_path: String,
    pub status: JobStatus,
    pub transferred_bytes: u64,
    pub total_bytes: u64,
    pub error: Option<String>,
    pub created_at: Timestamp,
    pub updated_at: Timestamp,
    pub finished_at: Option<Timestamp>,
}

/// What the test of a connection showed.
#[derive(Debug)]
pub struct TestConnectionResult {
    pub ok: bool,
    pub latency_ms: u64,
    pub error: Option<String>,
    pub sample_objects: Vec<String>,
}

/// A stored object.
#[derive(Debug)]
pub struct ObjectInfo {
    pub key: String,
    pub size: u64,
    pub last_modified: Option<Timestamp>,
    pub etag: Option<String>,
}

/// What a `ObjectInfo` holds.
pub struct ObjectView {
    pub key: Seq<char>,
    pub size: u64,
    pub last_modified: Option<Timestamp>,
    pub etag: Option<Seq<char>>,
}

impl View for ObjectInfo {
    type V = ObjectView;

    open spec fn view(&self) -> ObjectView {
        ObjectView {
            key: self.key@,
            size: self.size,
            last_modified: self.last_modified,
            etag: crate::text::opt_text(self.etag),
        }
    }
}

/// What several objects hold.
pub open spec fn object_views(v: Seq<ObjectInfo>) -> Seq<ObjectView> {
    v.map_values(|o: ObjectInfo| o@)
}

/// The objects and the common prefixes below a prefix.
#[derive(Debug)]
pub struct ListObjectsResult {
    pub objects: Vec<ObjectInfo>,
    pub prefixes: Vec<String>,
    pub truncated: bool,
}

} // verus!
