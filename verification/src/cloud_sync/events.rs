//! What is announced of transfer jobs.
use vstd::prelude::*;

use crate::cloud_sync::types::{JobStatus, SyncDirection};

verus! {

/// An announcement about a job.
#[derive(Debug)]
pub enum CloudSyncEvent {
    StatusChanged {
        job_id: String,
        status: JobStatus,
        transferred_bytes: u64,
        total_bytes: u64,
        error: Option<String>,
    },
    Created {
        job_id: String,
        direction: SyncDirection,
        source_connection_id: String,
        dest_connection_id: String,
        source_path: String,
        dest_path: String,
    },
    Deleted { job_id: String },
}

impl CloudSyncEvent {
    /// The name of the kind of announcement.
    pub open spec fn kind_name(self) -> Seq<char> {
        match self {
            CloudSyncEvent::StatusChanged { .. } => "status_changed"@,
            CloudSyncEvent::Created { .. } => "created"@,
            CloudSyncEvent::Deleted { .. } => "deleted"@,
        }
    }

    /// The name of the kind of announcement.
    pub fn event_type_name(&self) -> (r: &'static str)
        ensures
            r@ == self.kind_name(),
    {
        match self {
            CloudSyncEvent::StatusChanged { .. } => "status_changed",
            CloudSyncEvent::Created { .. } => "created",
            CloudSyncEvent::Deleted { .. } => "deleted",
        }
    }
}

} // verus!
