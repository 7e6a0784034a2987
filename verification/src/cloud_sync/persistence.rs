//! Connections and jobs as rows of a database.
use vstd::prelude::*;

use crate::cloud_sync::error::{CloudErrorView, CloudSyncError};
use crate::cloud_sync::types::{
    Connection, ConnectionConfig, JobStatus, SyncDirection, TransferJob,
};
use crate::ids;
use crate::ids::{from_seconds, Timestamp};
use crate::text::{concat2, copy_opt, same};

verus! {

/// A connection as a row, but for its configuration, which is stored as JSON.
#[derive(Debug)]
pub struct ConnectionRow {
    pub id: String,
    pub kind: String,
    pub name: String,
    pub created_at: i64,
    pub updated_at: i64,
}

/// A job as a row.
#[derive(Debug)]
pub struct JobRow {
    pub id: String,
    pub name: String,
    pub source_connection_id: String,
    pub dest_connection_id: String,
    pub source_path: String,
    pub dest_path: String,
    pub direction: String,
    pub status: String,
    pub transferred_bytes: i64,
    pub total_bytes: i64,
    pub error: Option<String>,
    pub owner_uid: Option<i64>,
    pub local_cache_path: Option<String>,
    pub created_at: i64,
    pub updated_at: i64,
    pub finished_at: Option<i64>,
}

/// A column of a row holds what cannot be read.
#[derive(Debug)]
pub struct InvalidColumn {
    pub index: usize,
    pub message: String,
}

fn invalid(index: usize, message: &str) -> (r: InvalidColumn)
    ensures
        r.index == index,
        r.message@ == message@,
{
    InvalidColumn { index, message: message.to_owned() }
}

// ---------------------------------------------------------------------------
// Connections
// ---------------------------------------------------------------------------
/// The row is the connection's.
pub open spec fn is_connection_row(row: ConnectionRow, c: Connection) -> bool {
    &&& row.id == c.id
    &&& row.kind@ == c.config.service().name()
    &&& row.name@ == c.config.given_name()
    &&& row.created_at == c.created_at.secs
    &&& row.updated_at == c.updated_at.secs
}

/// The row of a connection.
pub fn connection_row(c: &Connection) -> (r: ConnectionRow)
    ensures
        is_connection_row(r, *c),
{
    ConnectionRow {
        id: c.id.clone(),
        kind: c.kind().as_str().to_owned(),
        name: c.name().to_owned(),
        created_at: c.created_at.secs,
        updated_at: c.updated_at.secs,
    }
}

/// The row of a connection after an update: its kind and the time of its creation stay.
pub open spec fn is_updated_connection_row(
    row: ConnectionRow,
    before: ConnectionRow,
    c: Connection,
) -> bool {
    &&& row.id == before.id
    &&& row.kind == before.kind
    &&& row.name@ == c.config.given_name()
    &&& row.created_at == before.created_at
    &&& row.updated_at == c.updated_at.secs
}

/// The row of a connection after an update.
pub fn updated_connection_row(before: ConnectionRow, c: &Connection) -> (r: ConnectionRow)
    ensures
        is_updated_connection_row(r, before, *c),
{
    ConnectionRow {
        id: before.id,
        kind: before.kind,
        name: c.name().to_owned(),
        created_at: before.created_at,
        updated_at: c.updated_at.secs,
    }
}

/// What is read from the row of a connection whose configuration was read as `config`.
pub open spec fn is_connection_read(
    r: Result<Connection, InvalidColumn>,
    row: ConnectionRow,
    config: ConnectionConfig,
) -> bool {
    match (ids::moment(row.created_at), ids::moment(row.updated_at), r) {
        (Some(created_at), Some(updated_at), Ok(c)) => c == (Connection {
            id: row.id,
            config,
            created_at,
            updated_at,
        }),
        (None, _, Err(e)) => e.index == 4 && e.message@ == "invalid created_at"@,
        (Some(_), None, Err(e)) => e.index == 5 && e.message@ == "invalid updated_at"@,
        _ => false,
    }
}

/// The connection of a row; `config` is the configuration that was read from it.
pub fn row_to_connection(row: ConnectionRow, config: ConnectionConfig) -> (r: Result<
    Connection,
    InvalidColumn,
>)
    ensures
        is_connection_read(r, row, config),
{
    let created_at = match from_seconds(row.created_at) {
        Some(t) => t,
        None => return Err(invalid(4, "invalid created_at")),
    };
    let updated_at = match from_seconds(row.updated_at) {
        Some(t) => t,
        None => return Err(invalid(5, "invalid updated_at")),
    };
    Ok(Connection { id: row.id, config, created_at, updated_at })
}

// ---------------------------------------------------------------------------
// Jobs
// ---------------------------------------------------------------------------
/// The seconds of a moment, if there is one.
pub open spec fn seconds(t: Option<Timestamp>) -> Option<i64> {
    match t {
        Some(x) => Some(x.secs),
        None => None,
    }
}

/// An account number as a column holds it.
pub open spec fn stored_uid(uid: Option<u64>) -> Option<i64> {
    match uid {
        Some(u) => Some(u as i64),
        None => None,
    }
}

/// An account number as it is read from a column.
pub open spec fn read_uid(uid: Option<i64>) -> Option<u64> {
    match uid {
        Some(u) => Some(u as u64),
        None => None,
    }
}

/// The row is the job's.
pub open spec fn is_job_row(row: JobRow, job: TransferJob) -> bool {
    &&& row.id == job.id
    &&& row.name == job.name
    &&& row.source_connection_id == job.source_connection_id
    &&& row.dest_connection_id == job.dest_connection_id
    &&& row.source_path == job.source_path
    &&& row.dest_path == job.dest_path
    &&& row.direction@ == job.direction.name()
    &&& row.status@ == job.status.name()
    &&& row.transferred_bytes == job.transferred_bytes as i64
    &&& row.total_bytes == job.total_bytes as i64
    &&& row.error == job.error
    &&& row.owner_uid == stored_uid(job.owner_uid)
    &&& row.local_cache_path == job.local_cache_path
    &&& row.created_at == job.created_at.secs
    &&& row.updated_at == job.updated_at.secs
    &&& row.finished_at == seconds(job.finished_at)
}

fn seconds_of(t: &Option<Timestamp>) -> (r: Option<i64>)
    ensures
        r == seconds(*t),
{
    match t {
        Some(x) => Some(x.secs),
        None => None,
    }
}

fn as_stored(n: u64) -> (r: i64)
    ensures
        r == n as i64,
{
    #[verifier::truncate]
    (n as i64)
}

/// The row of a job.
pub fn job_row(job: &TransferJob) -> (r: JobRow)
    ensures
        is_job_row(r, *job),
{
    JobRow {
        id: job.id.clone(),
        name: job.name.clone(),
        source_connection_id: job.source_connection_id.clone(),
        dest_connection_id: job.dest_connection_id.clone(),
        source_path: job.source_path.clone(),
        dest_path: job.dest_path.clone(),
        direction: job.direction.as_str().to_owned(),
        status: job.status.as_str().to_owned(),
        transferred_bytes: as_stored(job.transferred_bytes),
        total_bytes: as_stored(job.total_bytes),
        error: copy_opt(&job.error),
        owner_uid: match job.owner_uid {
            Some(u) => Some(as_stored(u)),
            None => None,
        },
        local_cache_path: copy_opt(&job.local_cache_path),
        created_at: job.created_at.secs,
        updated_at: job.updated_at.secs,
        finished_at: seconds_of(&job.finished_at),
    }
}

/// The row of a job after an update: the name, the paths, the status, the counts, the error and
/// the times of its end and of the update are the job's, the rest stays.
pub open spec fn is_updated_job_row(row: JobRow, before: JobRow, job: TransferJob) -> bool {
    &&& row.id == before.id
    &&& row.name == job.name
    &&& row.source_connection_id == before.source_connection_id
    &&& row.dest_connection_id == before.dest_connection_id
    &&& row.source_path == job.source_path
    &&& row.dest_path == job.dest_path
    &&& row.direction == before.direction
    &&& row.status@ == job.status.name()
    &&& row.transferred_bytes == job.transferred_bytes as i64
    &&& row.total_bytes == job.total_bytes as i64
    &&& row.error == job.error
    &&& row.owner_uid == before.owner_uid
    &&& row.local_cache_path == before.local_cache_path
    &&& row.created_at == before.created_at
    &&& row.updated_at == job.updated_at.secs
    &&& row.finished_at == seconds(job.finished_at)
}

/// The row of a job after an update.
pub fn updated_job_row(before: JobRow, job: &TransferJob) -> (r: JobRow)
    ensures
        is_updated_job_row(r, before, *job),
{
    JobRow {
        id: before.id,
        name: job.name.clone(),
        source_connection_id: before.source_connection_id,
        dest_connection_id: before.dest_connection_id,
        source_path: job.source_path.clone(),
        dest_path: job.dest_path.clone(),
        direction: before.direction,
        status: job.status.as_str().to_owned(),
        transferred_bytes: as_stored(job.transferred_bytes),
        total_bytes: as_stored(job.total_bytes),
        error: copy_opt(&job.error),
        owner_uid: before.owner_uid,
        local_cache_path: before.local_cache_path,
        created_at: before.created_at,
        updated_at: job.updated_at.secs,
        finished_at: seconds_of(&job.finished_at),
    }
}

/// The direction that a text names.
pub open spec fn direction_named(s: Seq<char>) -> SyncDirection {
    if s == "upload"@ {
        SyncDirection::Upload
    } else {
        SyncDirection::Download
    }
}

/// The status that a text names; an unknown one counts as failed.
pub open spec fn status_named(s: Seq<char>) -> JobStatus {
    if s == "pending"@ {
        JobStatus::Pending
    } else if s == "running"@ {
        JobStatus::Running
    } else if s == "completed"@ {
        JobStatus::Completed
    } else if s == "cancelled"@ {
        JobStatus::Cancelled
    } else {
        JobStatus::Failed
    }
}

/// A count as it is read from a column.
pub open spec fn count_read(n: i64) -> u64 {
    if n < 0 {
        0
    } else {
        n as u64
    }
}

/// The moment that a column holds, if it holds one that has a calendar date.
pub open spec fn moment_read(secs: Option<i64>) -> Option<Timestamp> {
    match secs {
        Some(s) => ids::moment(s),
        None => None,
    }
}

/// What is read from the row of a job.
pub open spec fn is_job_read(r: Result<TransferJob, InvalidColumn>, row: JobRow) -> bool {
    match (ids::moment(row.created_at), ids::moment(row.updated_at), r) {
        (Some(created_at), Some(updated_at), Ok(job)) => job == (TransferJob {
            id: row.id,
            name: row.name,
            source_connection_id: row.source_connection_id,
            dest_connection_id: row.dest_connection_id,
            source_path: row.source_path,
            dest_path: row.dest_path,
            direction: direction_named(row.direction@),
            status: status_named(row.status@),
            transferred_bytes: count_read(row.transferred_bytes),
            total_bytes: count_read(row.total_bytes),
            error: row.error,
            created_at,
            updated_at,
            finished_at: moment_read(row.finished_at),
            local_cache_path: row.local_cache_path,
            owner_uid: read_uid(row.owner_uid),
        }),
        (None, _, Err(e)) => e.index == 13 && e.message@ == "invalid created_at"@,
        (Some(_), None, Err(e)) => e.index == 14 && e.message@ == "invalid updated_at"@,
        _ => false,
    }
}

fn status_from(s: &str) -> (r: JobStatus)
    ensures
        r == status_named(s@),
{
    if same(s, "pending") {
        JobStatus::Pending
    } else if same(s, "running") {
        JobStatus::Running
    } else if same(s, "completed") {
        JobStatus::Completed
    } else if same(s, "cancelled") {
        JobStatus::Cancelled
    } else {
        JobStatus::Failed
    }
}

fn count_from(n: i64) -> (r: u64)
    ensures
        r == count_read(n),
{
    if n < 0 {
        0
    } else {
        n as u64
    }
}

/// The job of a row.
pub fn row_to_job(row: JobRow) -> (r: Result<TransferJob, InvalidColumn>)
    ensures
        is_job_read(r, row),
{
    let direction = if same(row.direction.as_str(), "upload") {
        SyncDirection::Upload
    } else {
        SyncDirection::Download
    };
    let status = status_from(row.status.as_str());
    let created_at = match from_seconds(row.created_at) {
        Some(t) => t,
        None => return Err(invalid(13, "invalid created_at")),
    };
    let updated_at = match from_seconds(row.updated_at) {
        Some(t) => t,
        None => return Err(invalid(14, "invalid updated_at")),
    };
    let finished_at = match row.finished_at {
        Some(t) => from_seconds(t),
        None => None,
    };
    let owner_uid = match row.owner_uid {
        Some(u) => Some(
            #[verifier::truncate]
            (u as u64),
        ),
        None => None,
    };
    Ok(
        TransferJob {
            id: row.id,
            name: row.name,
            source_connection_id: row.source_connection_id,
            dest_connection_id: row.dest_connection_id,
            source_path: row.source_path,
            dest_path: row.dest_path,
            direction,
            status,
            transferred_bytes: count_from(row.transferred_bytes),
            total_bytes: count_from(row.total_bytes),
            error: row.error,
            created_at,
            updated_at,
            finished_at,
            local_cache_path: row.local_cache_path,
            owner_uid,
        },
    )
}

/// Whether a connection was deleted, from the number of rows that went.
pub fn connection_deleted(rows: usize, id: &str) -> (r: Result<(), CloudSyncError>)
    ensures
        match r {
            Ok(_) => rows > 0,
            Err(e) => rows == 0 && e@ == CloudErrorView::NotFound("连接不存在: "@ + id@),
        },
{
    if rows == 0 {
        Err(CloudSyncError::NotFound(concat2("连接不存在: ", id)))
    } else {
        Ok(())
    }
}

/// Whether a job was deleted, from the number of rows that went.
pub fn job_deleted(rows: usize, id: &str) -> (r: Result<(), CloudSyncError>)
    ensures
        match r {
            Ok(_) => rows > 0,
            Err(e) => rows == 0 && e@ == CloudErrorView::NotFound("任务不存在: "@ + id@),
        },
{
    if rows == 0 {
        Err(CloudSyncError::NotFound(concat2("任务不存在: ", id)))
    } else {
        Ok(())
    }
}

// ---------------------------------------------------------------------------
// Laws
// ---------------------------------------------------------------------------
/// A status reads back from its name.
pub proof fn law_status_reads_back(status: JobStatus)
    ensures
        status_named(status.name()) == status,
{
    reveal_strlit("pending");
    reveal_strlit("running");
    reveal_strlit("completed");
    reveal_strlit("cancelled");
    reveal_strlit("failed");
    assert("pending"@[0] == 'p' && "running"@[0] == 'r');
    assert("completed"@[1] == 'o' && "cancelled"@[1] == 'a');
    assert("pending"@.len() == 7 && "running"@.len() == 7);
    assert("completed"@.len() == 9 && "cancelled"@.len() == 9 && "failed"@.len() == 6);
}

/// A direction reads back from its name.
pub proof fn law_direction_reads_back(direction: SyncDirection)
    ensures
        direction_named(direction.name()) == direction,
{
    reveal_strlit("upload");
    reveal_strlit("download");
    assert("upload"@.len() == 6 && "download"@.len() == 8);
}

/// An account number reads back from its column.
pub proof fn law_uid_reads_back(uid: Option<u64>)
    ensures
        read_uid(stored_uid(uid)) == uid,
{
    if let Some(u) = uid {
        assert((u as i64) as u64 == u) by (bit_vector);
    }
}

/// The moment at the start of the second.
pub open spec fn whole_second(t: Timestamp) -> Timestamp {
    Timestamp { secs: t.secs, nanos: 0 }
}

/// The job with its times cut to whole seconds.
pub open spec fn in_whole_seconds(job: TransferJob) -> TransferJob {
    TransferJob {
        created_at: whole_second(job.created_at),
        updated_at: whole_second(job.updated_at),
        finished_at: match job.finished_at {
            Some(t) => Some(whole_second(t)),
            None => None,
        },
        ..job
    }
}

/// The times of the job have calendar dates.
pub open spec fn is_dated(job: TransferJob) -> bool {
    &&& ids::moment(job.created_at.secs) is Some
    &&& ids::moment(job.updated_at.secs) is Some
    &&& job.finished_at matches Some(t) ==> ids::moment(t.secs) is Some
}

/// The counts of the job fit in a column.
pub open spec fn is_countable(job: TransferJob) -> bool {
    job.transferred_bytes <= i64::MAX && job.total_bytes <= i64::MAX
}

/// A job that was stored reads back, its times cut to whole seconds.
pub proof fn law_job_reads_back(job: TransferJob, row: JobRow, r: Result<
    TransferJob,
    InvalidColumn,
>)
    requires
        is_dated(job),
        is_countable(job),
        is_job_row(row, job),
        is_job_read(r, row),
    ensures
        r == Ok::<TransferJob, InvalidColumn>(in_whole_seconds(job)),
{
    law_status_reads_back(job.status);
    law_direction_reads_back(job.direction);
    law_uid_reads_back(job.owner_uid);
}

/// A job that was stored and updated reads back as the updated one, where the update leaves
/// alone what no update changes.
pub proof fn law_updated_job_reads_back(
    job: TransferJob,
    row: JobRow,
    changed: TransferJob,
    after: JobRow,
    r: Result<TransferJob, InvalidColumn>,
)
    requires
        is_dated(changed),
        is_countable(changed),
        changed.id == job.id,
        changed.source_connection_id == job.source_connection_id,
        changed.dest_connection_id == job.dest_connection_id,
        changed.direction == job.direction,
        changed.owner_uid == job.owner_uid,
        changed.local_cache_path == job.local_cache_path,
        changed.created_at == job.created_at,
        is_job_row(row, job),
        is_updated_job_row(after, row, changed),
        is_job_read(r, after),
    ensures
        r == Ok::<TransferJob, InvalidColumn>(in_whole_seconds(changed)),
{
    law_status_reads_back(changed.status);
    law_direction_reads_back(changed.direction);
    law_uid_reads_back(changed.owner_uid);
}

/// A connection that was stored reads back, its times cut to whole seconds.
pub proof fn law_connection_reads_back(c: Connection, row: ConnectionRow, r: Result<
    Connection,
    InvalidColumn,
>)
    requires
        ids::moment(c.created_at.secs) is Some,
        ids::moment(c.updated_at.secs) is Some,
        is_connection_row(row, c),
        is_connection_read(r, row, c.config),
    ensures
        r == Ok::<Connection, InvalidColumn>(
            Connection {
                created_at: whole_second(c.created_at),
                updated_at: whole_second(c.updated_at),
                ..c
            },
        ),
{
}

/// A connection that is changed keeps its identifier, its kind and when it was made.
pub proof fn law_changed_connection_keeps_what_it_is(
    row: ConnectionRow,
    before: ConnectionRow,
    c: Connection,
)
    requires
        is_updated_connection_row(row, before, c),
    ensures
        row.id == before.id,
        row.kind == before.kind,
        row.created_at == before.created_at,
        row.updated_at == c.updated_at.secs,
        row.name@ == c.config.given_name(),
{
}

} // verus!
