//! The run of a transfer job: what is done next, and what comes of it.
use vstd::prelude::*;

use crate::cloud_sync::error::{CloudErrorView, CloudSyncError};
use crate::cloud_sync::events::CloudSyncEvent;
use crate::cloud_sync::manager;
use crate::cloud_sync::manager::{sanitize, status_event};
use crate::cloud_sync::types::{Connection, JobStatus, TransferJob};
use crate::ids::{now_utc, Timestamp};
use crate::text::concat3;

verus! {

/// What a run waits for.
#[derive(Debug, Clone, Copy, PartialEq, Eq, Structural)]
pub enum JobPhase {
    Starting,
    FindingSource,
    FindingDest,
    Building,
    Sizing,
    SavingSize,
    Fetching,
    Pushing,
    Finishing,
    Over,
}

/// The run of a job.
pub struct JobRun {
    pub job: TransferJob,
    pub phase: JobPhase,
    pub source: Option<Connection>,
}

/// What shall be done next for a run.
pub enum JobAction {
    /// Store the job.
    Save,
    /// Announce, and look up the connection of the source.
    FindSource { announce: CloudSyncEvent },
    /// Look up the connection of the target.
    FindDest,
    /// Open the storages of the two connections.
    Build { source: Connection, dest: Connection },
    /// Ask for the size of the source.
    Measure,
    /// Download the source to a file of this name.
    Fetch { cache_name: String },
    /// Upload the file of this name to the target.
    Push { cache_name: String },
    /// Delete the file of this name, and store the job.
    DiscardAndSave { cache_name: String },
    /// Delete the file, if one is named; the run has failed.
    Fail { error: CloudSyncError, discard: Option<String> },
    /// Announce; the run is over.
    Finish { announce: CloudSyncEvent },
}

/// What came of what was done for a run.
pub enum JobReport {
    Saved(Result<(), CloudSyncError>),
    Found(Result<Option<Connection>, CloudSyncError>),
    Built(Result<(), CloudSyncError>),
    Measured(Option<u64>),
    Fetched(Result<(), CloudSyncError>),
    Pushed(Result<(), CloudSyncError>),
}

/// The report is one that the run waits for.
pub open spec fn awaited(phase: JobPhase, report: JobReport) -> bool {
    match phase {
        JobPhase::Starting | JobPhase::SavingSize | JobPhase::Finishing => report is Saved,
        JobPhase::FindingSource | JobPhase::FindingDest => report is Found,
        JobPhase::Building => report is Built,
        JobPhase::Sizing => report is Measured,
        JobPhase::Fetching => report is Fetched,
        JobPhase::Pushing => report is Pushed,
        JobPhase::Over => false,
    }
}

/// The report says that something failed.
pub open spec fn failure(report: JobReport) -> Option<CloudSyncError> {
    match report {
        JobReport::Saved(Err(e)) => Some(e),
        JobReport::Found(Err(e)) => Some(e),
        JobReport::Built(Err(e)) => Some(e),
        JobReport::Fetched(Err(e)) => Some(e),
        JobReport::Pushed(Err(e)) => Some(e),
        _ => None,
    }
}

/// The name of the file that the source is kept in on the way.
pub open spec fn cache_name_of(job: TransferJob) -> Seq<char> {
    "csync-"@ + job.id@ + "-"@ + job.source_path@.map_values(|c: char| manager::plain(c))
}

/// The run stops with an error, and deletes no file.
pub open spec fn fails_with(action: JobAction, e: CloudErrorView) -> bool {
    action matches JobAction::Fail { error, discard } && error@ == e && discard is None
}

/// The step that a run takes: from the run before, on a report, to the run after and what shall
/// be done. `cancelled` says whether the job was asked to stop.
pub open spec fn is_step(
    before: JobRun,
    report: JobReport,
    cancelled: bool,
    updated_at: Timestamp,
    finished_at: Timestamp,
    after: JobRun,
    action: JobAction,
) -> bool {
    if let Some(e) = failure(report) {
        after == (JobRun { phase: JobPhase::Over, ..before }) && fails_with(action, e@)
    } else {
        match (before.phase, report) {
            (JobPhase::Starting, _) => {
                &&& after == (JobRun { phase: JobPhase::FindingSource, ..before })
                &&& action matches JobAction::FindSource { announce }
                    && manager::announces_status(announce, before.job, None)
            },
            (JobPhase::FindingSource, JobReport::Found(Ok(None))) => {
                &&& after == (JobRun { phase: JobPhase::Over, ..before })
                &&& fails_with(action, CloudErrorView::NotFound("源连接已不存在"@))
            },
            (JobPhase::FindingSource, JobReport::Found(Ok(Some(c)))) => {
                &&& after == (JobRun {
                    phase: JobPhase::FindingDest,
                    source: Some(c),
                    ..before
                })
                &&& action == JobAction::FindDest
            },
            (JobPhase::FindingDest, JobReport::Found(Ok(None))) => {
                &&& after == (JobRun { phase: JobPhase::Over, ..before })
                &&& fails_with(action, CloudErrorView::NotFound("目标连接已不存在"@))
            },
            (JobPhase::FindingDest, JobReport::Found(Ok(Some(c)))) => {
                &&& after == (JobRun { phase: JobPhase::Building, source: None, ..before })
                &&& before.source matches Some(s) && action == (JobAction::Build {
                    source: s,
                    dest: c,
                })
            },
            (JobPhase::Building, _) => {
                &&& after == (JobRun { phase: JobPhase::Sizing, ..before })
                &&& action == JobAction::Measure
            },
            (JobPhase::Sizing, JobReport::Measured(size)) => {
                &&& after == (JobRun {
                    phase: JobPhase::SavingSize,
                    job: TransferJob { total_bytes: manager::or_else(size, 0), ..before.job },
                    ..before
                })
                &&& action == JobAction::Save
            },
            (JobPhase::SavingSize, _) => if cancelled {
                &&& after == (JobRun { phase: JobPhase::Over, ..before })
                &&& fails_with(action, CloudErrorView::Cancelled)
            } else {
                &&& after == (JobRun { phase: JobPhase::Fetching, ..before })
                &&& action matches JobAction::Fetch { cache_name } && cache_name@
                    == cache_name_of(before.job)
            },
            (JobPhase::Fetching, _) => if cancelled {
                &&& after == (JobRun { phase: JobPhase::Over, ..before })
                &&& action matches JobAction::Fail { error, discard: Some(n) } && error@
                    == CloudErrorView::Cancelled && n@ == cache_name_of(before.job)
            } else {
                &&& after == (JobRun { phase: JobPhase::Pushing, ..before })
                &&& action matches JobAction::Push { cache_name } && cache_name@ == cache_name_of(
                    before.job,
                )
            },
            (JobPhase::Pushing, _) => {
                &&& after == (JobRun {
                    phase: JobPhase::Finishing,
                    job: manager::completed_job(before.job, updated_at, finished_at),
                    ..before
                })
                &&& action matches JobAction::DiscardAndSave { cache_name } && cache_name@
                    == cache_name_of(before.job)
            },
            (JobPhase::Finishing, _) => {
                &&& after == (JobRun { phase: JobPhase::Over, ..before })
                &&& action matches JobAction::Finish { announce } && manager::announces_status(
                    announce,
                    before.job,
                    None,
                )
            },
            _ => false,
        }
    }
}

impl JobRun {
    /// The run is one that `begin` and its steps lead to.
    pub open spec fn wf(self) -> bool {
        self.phase == JobPhase::FindingDest ==> self.source is Some
    }

    /// The run of a job as it begins, at a given time: the job is to be stored as running.
    pub fn begin_at(job: TransferJob, updated_at: Timestamp) -> (r: (JobRun, JobAction))
        ensures
            r.0 == (JobRun {
                job: manager::running_job(job, updated_at),
                phase: JobPhase::Starting,
                source: None,
            }),
            r.0.wf(),
            r.1 == JobAction::Save,
    {
        let mut job = job;
        job.status = JobStatus::Running;
        job.updated_at = updated_at;
        (JobRun { job, phase: JobPhase::Starting, source: None }, JobAction::Save)
    }

    /// The run of a job as it begins now.
    pub fn begin(job: TransferJob) -> (r: (JobRun, JobAction))
        ensures
            r.0 == (JobRun {
                job: manager::running_job(job, r.0.job.updated_at),
                phase: JobPhase::Starting,
                source: None,
            }),
            r.0.wf(),
            r.1 == JobAction::Save,
    {
        let updated_at = now_utc();
        JobRun::begin_at(job, updated_at)
    }

    fn cache_name(&self) -> (r: String)
        ensures
            r@ == cache_name_of(self.job),
    {
        let path = sanitize(self.job.source_path.as_str());
        let mut r = concat3("csync-", self.job.id.as_str(), "-");
        r.append(path.as_str());
        r
    }

    fn fail(&mut self, error: CloudSyncError) -> (r: JobAction)
        ensures
            *final(self) == (JobRun { phase: JobPhase::Over, ..*old(self) }),
            fails_with(r, error@),
    {
        self.phase = JobPhase::Over;
        JobAction::Fail { error, discard: None }
    }

    /// The next step of the run, at a given time.
    pub fn next_at(
        &mut self,
        report: JobReport,
        cancelled: bool,
        updated_at: Timestamp,
        finished_at: Timestamp,
    ) -> (r: JobAction)
        requires
            old(self).wf(),
            awaited(old(self).phase, report),
        ensures
            final(self).wf(),
            is_step(*old(self), report, cancelled, updated_at, finished_at, *final(self), r),
    {
        match report {
            JobReport::Saved(Err(e)) => self.fail(e),
            JobReport::Found(Err(e)) => self.fail(e),
            JobReport::Built(Err(e)) => self.fail(e),
            JobReport::Fetched(Err(e)) => self.fail(e),
            JobReport::Pushed(Err(e)) => self.fail(e),
            JobReport::Saved(Ok(_)) => match self.phase {
                JobPhase::Starting => {
                    self.phase = JobPhase::FindingSource;
                    JobAction::FindSource { announce: status_event(&self.job) }
                },
                JobPhase::SavingSize => {
                    if cancelled {
                        self.fail(CloudSyncError::Cancelled)
                    } else {
                        self.phase = JobPhase::Fetching;
                        JobAction::Fetch { cache_name: self.cache_name() }
                    }
                },
                _ => {
                    self.phase = JobPhase::Over;
                    JobAction::Finish { announce: status_event(&self.job) }
                },
            },
            JobReport::Found(Ok(None)) => {
                if self.phase == JobPhase::FindingSource {
                    self.fail(CloudSyncError::not_found("源连接已不存在"))
                } else {
                    self.fail(CloudSyncError::not_found("目标连接已不存在"))
                }
            },
            JobReport::Found(Ok(Some(c))) => {
                if self.phase == JobPhase::FindingSource {
                    self.phase = JobPhase::FindingDest;
                    self.source = Some(c);
                    JobAction::FindDest
                } else {
                    self.phase = JobPhase::Building;
                    match self.source.take() {
                        Some(source) => JobAction::Build { source, dest: c },
                        None => JobAction::Measure,
                    }
                }
            },
            JobReport::Built(Ok(_)) => {
                self.phase = JobPhase::Sizing;
                JobAction::Measure
            },
            JobReport::Measured(size) => {
                self.job.total_bytes = match size {
                    Some(n) => n,
                    None => 0,
                };
                self.phase = JobPhase::SavingSize;
                JobAction::Save
            },
            JobReport::Fetched(Ok(_)) => {
                let cache_name = self.cache_name();
                if cancelled {
                    self.phase = JobPhase::Over;
                    JobAction::Fail { error: CloudSyncError::Cancelled, discard: Some(cache_name) }
                } else {
                    self.phase = JobPhase::Pushing;
                    JobAction::Push { cache_name }
                }
            },
            JobReport::Pushed(Ok(_)) => {
                let cache_name = self.cache_name();
                self.job.status = JobStatus::Completed;
                self.job.transferred_bytes = self.job.total_bytes;
                self.job.updated_at = updated_at;
                self.job.finished_at = Some(finished_at);
                self.phase = JobPhase::Finishing;
                JobAction::DiscardAndSave { cache_name }
            },
        }
    }

    /// The next step of the run, now.
    pub fn next(&mut self, report: JobReport, cancelled: bool) -> (r: JobAction)
        requires
            old(self).wf(),
            awaited(old(self).phase, report),
        ensures
            final(self).wf(),
            exists|u: Timestamp, f: Timestamp| #[trigger]
                is_step(*old(self), report, cancelled, u, f, *final(self), r),
    {
        let updated_at = now_utc();
        let finished_at = now_utc();
        let ghost before = *self;
        let r = self.next_at(report, cancelled, updated_at, finished_at);
        assert(is_step(before, report, cancelled, updated_at, finished_at, *self, r));
        r
    }
}

// ---------------------------------------------------------------------------
// Laws
// ---------------------------------------------------------------------------
/// How far a phase is from the beginning.
pub open spec fn rank(phase: JobPhase) -> nat {
    match phase {
        JobPhase::Starting => 0,
        JobPhase::FindingSource => 1,
        JobPhase::FindingDest => 2,
        JobPhase::Building => 3,
        JobPhase::Sizing => 4,
        JobPhase::SavingSize => 5,
        JobPhase::Fetching => 6,
        JobPhase::Pushing => 7,
        JobPhase::Finishing => 8,
        JobPhase::Over => 9,
    }
}

/// Every step of a run leads on, so that a run is over after nine steps at most.
pub proof fn law_run_moves_on(
    before: JobRun,
    report: JobReport,
    cancelled: bool,
    updated_at: Timestamp,
    finished_at: Timestamp,
    after: JobRun,
    action: JobAction,
)
    requires
        before.wf(),
        awaited(before.phase, report),
        is_step(before, report, cancelled, updated_at, finished_at, after, action),
    ensures
        rank(before.phase) < rank(after.phase) <= 9,
        after.phase == JobPhase::Over <==> action is Fail || action is Finish,
{
}

/// A job is completed by the upload of its file and by nothing else, and all of it counts as
/// transferred.
pub proof fn law_only_an_upload_completes(
    before: JobRun,
    report: JobReport,
    cancelled: bool,
    updated_at: Timestamp,
    finished_at: Timestamp,
    after: JobRun,
    action: JobAction,
)
    requires
        before.wf(),
        awaited(before.phase, report),
        before.job.status != JobStatus::Completed,
        is_step(before, report, cancelled, updated_at, finished_at, after, action),
    ensures
        after.job.status == JobStatus::Completed <==> (report matches JobReport::Pushed(
            Ok(_),
        )),
        after.job.status == JobStatus::Completed ==> after.job.transferred_bytes
            == after.job.total_bytes && after.job.finished_at == Some(finished_at),
{
}

/// A job that was asked to stop is neither downloaded nor uploaded from then on.
pub proof fn law_stopped_job_moves_nothing(
    before: JobRun,
    report: JobReport,
    updated_at: Timestamp,
    finished_at: Timestamp,
    after: JobRun,
    action: JobAction,
)
    requires
        before.wf(),
        awaited(before.phase, report),
        is_step(before, report, true, updated_at, finished_at, after, action),
    ensures
        !(action is Fetch),
        !(action is Push),
{
}

/// A run changes of its job only the status, the counts and the times of the update and the end.
pub proof fn law_run_keeps_the_job(
    before: JobRun,
    report: JobReport,
    cancelled: bool,
    updated_at: Timestamp,
    finished_at: Timestamp,
    after: JobRun,
    action: JobAction,
)
    requires
        before.wf(),
        awaited(before.phase, report),
        is_step(before, report, cancelled, updated_at, finished_at, after, action),
    ensures
        after.job == (TransferJob {
            status: after.job.status,
            transferred_bytes: after.job.transferred_bytes,
            total_bytes: after.job.total_bytes,
            updated_at: after.job.updated_at,
            finished_at: after.job.finished_at,
            ..before.job
        }),
{
}

/// A job goes through its stages in their order, each only after the one before has succeeded: it
/// is stored, its two connections are looked up, it is measured and stored again, fetched, pushed,
/// and stored as completed with all its bytes.
pub proof fn law_job_goes_through_its_stages(
    before: JobRun,
    report: JobReport,
    cancelled: bool,
    updated_at: Timestamp,
    finished_at: Timestamp,
    after: JobRun,
    action: JobAction,
)
    requires
        is_step(before, report, cancelled, updated_at, finished_at, after, action),
        awaited(before.phase, report),
    ensures
        (report matches JobReport::Saved(Err(_))) || (report matches JobReport::Found(Err(_))) || (
        report matches JobReport::Built(Err(_))) || (report matches JobReport::Fetched(Err(_))) || (
        report matches JobReport::Pushed(Err(_))) ==> after.phase == JobPhase::Over
            && action is Fail,
        action is Fetch ==> before.phase == JobPhase::SavingSize && after.phase
            == JobPhase::Fetching && !cancelled,
        action is Push ==> before.phase == JobPhase::Fetching && after.phase == JobPhase::Pushing
            && !cancelled && (report matches JobReport::Fetched(Ok(_))),
        action is DiscardAndSave ==> before.phase == JobPhase::Pushing && (
        report matches JobReport::Pushed(Ok(_))) && after.phase == JobPhase::Finishing
            && after.job.status == JobStatus::Completed && after.job.transferred_bytes
            == before.job.total_bytes && after.job.total_bytes == before.job.total_bytes,
        action is Finish ==> before.phase == JobPhase::Finishing && after.phase == JobPhase::Over,
        before.phase == JobPhase::Sizing ==> (report matches JobReport::Measured(size)
            && after.job.total_bytes == match size {
            Some(n) => n,
            None => 0,
        } && action is Save),
        before.phase == JobPhase::FindingDest && action is Build ==> (
        report matches JobReport::Found(Ok(Some(c))) && (action matches JobAction::Build {
            source,
            dest,
        } && dest == c && before.source == Some(source))),
        before.phase != JobPhase::Sizing && before.phase != JobPhase::Pushing ==> after.job
            == before.job,
{
}

} // verus!
