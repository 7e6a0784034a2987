use netdisk_sync::cloud_sync::error::{CloudSyncError, ErrorCategory, FileErrorKind};
use netdisk_sync::cloud_sync::events::CloudSyncEvent;
use netdisk_sync::cloud_sync::job_run::{JobAction, JobPhase, JobReport, JobRun};
use netdisk_sync::cloud_sync::manager::{
    apply_update, created_event, deleted_event, extract_baidu_uid, failed_job, infer_direction,
    sanitize, status_event, to_summary, CloudSyncManager,
};
use netdisk_sync::cloud_sync::persistence::{
    connection_deleted, connection_row, job_deleted, job_row, row_to_connection, row_to_job,
    updated_connection_row, updated_job_row,
};
use netdisk_sync::cloud_sync::types::{
    BaiduConfig, Connection, ConnectionConfig, CreateConnectionRequest, CreateJobRequest,
    JobStatus, OssConfig, S3Config, StorageKind, SyncDirection, TransferJob,
    UpdateConnectionRequest,
};
use netdisk_sync::ids::Timestamp;
use netdisk_sync::server::cloud_sync::{
    found_connection, get_manager, map_err, reply, ApiError, ListObjectsQuery,
};

fn s3(name: &str) -> S3Config {
    S3Config {
        name: name.into(),
        region: "r".into(),
        bucket: "b".into(),
        access_key: "ak".into(),
        secret_key: "sk".into(),
        endpoint: None,
        path_style: None,
    }
}

fn at(secs: i64) -> Timestamp {
    Timestamp { secs, nanos: 5 }
}

fn connection(id: &str, config: ConnectionConfig) -> Connection {
    Connection { id: id.into(), config, created_at: at(10), updated_at: at(20) }
}

fn baidu(uid: u64) -> ConnectionConfig {
    ConnectionConfig::Baidu(BaiduConfig { name: "disk".into(), owner_uid: uid })
}

fn job() -> TransferJob {
    TransferJob {
        id: "j".into(),
        name: "n".into(),
        source_connection_id: "a".into(),
        dest_connection_id: "b".into(),
        source_path: "/x y/z.bin".into(),
        dest_path: "/d".into(),
        direction: SyncDirection::Download,
        status: JobStatus::Pending,
        transferred_bytes: 0,
        total_bytes: 0,
        error: None,
        created_at: at(10),
        updated_at: at(10),
        finished_at: None,
        local_cache_path: None,
        owner_uid: Some(u64::MAX),
    }
}

#[test]
fn errors_have_a_category_and_a_text() {
    let cases = vec![
        (CloudSyncError::config("m"), ErrorCategory::Config, "配置错误: m"),
        (CloudSyncError::network("m"), ErrorCategory::Network, "网络错误: m"),
        (CloudSyncError::auth("m"), ErrorCategory::Auth, "鉴权失败: m"),
        (CloudSyncError::not_found("m"), ErrorCategory::NotFound, "资源不存在: m"),
        (CloudSyncError::forbidden("m"), ErrorCategory::Forbidden, "权限拒绝: m"),
        (CloudSyncError::rate_limited("m"), ErrorCategory::RateLimited, "触发限流: m"),
        (CloudSyncError::internal("m"), ErrorCategory::Internal, "内部错误: m"),
        (CloudSyncError::Cancelled, ErrorCategory::Cancelled, "用户取消"),
        (CloudSyncError::Other("m".into()), ErrorCategory::Internal, "未知错误: m"),
        (
            CloudSyncError::of_file_error(FileErrorKind::NotFound, "m"),
            ErrorCategory::NotFound,
            "资源不存在: m",
        ),
        (
            CloudSyncError::of_file_error(FileErrorKind::PermissionDenied, "m"),
            ErrorCategory::Forbidden,
            "权限拒绝: m",
        ),
        (
            CloudSyncError::of_file_error(FileErrorKind::Other, "m"),
            ErrorCategory::Internal,
            "内部错误: m",
        ),
        (
            CloudSyncError::of_database_error(true, "m"),
            ErrorCategory::NotFound,
            "资源不存在: 记录不存在",
        ),
        (
            CloudSyncError::of_database_error(false, "m"),
            ErrorCategory::Internal,
            "内部错误: 数据库错误: m",
        ),
        (CloudSyncError::of_json_error("m"), ErrorCategory::Internal, "内部错误: 序列化错误: m"),
    ];
    for (e, category, text) in cases {
        assert_eq!(e.category(), category);
        assert_eq!(e.to_string(), text);
    }
}

#[test]
fn errors_are_answered_by_category() {
    assert!(matches!(map_err(CloudSyncError::auth("m")), ApiError::BadRequest(t) if t == "鉴权失败: m"));
    assert!(matches!(map_err(CloudSyncError::Cancelled), ApiError::BadRequest(_)));
    assert!(matches!(map_err(CloudSyncError::not_found("m")), ApiError::NotFound(_)));
    assert!(matches!(map_err(CloudSyncError::network("m")), ApiError::Internal(_)));
    assert!(matches!(get_manager::<u8>(None), Err(ApiError::BadRequest(t)) if t == "云同步管理器未初始化"));
    assert_eq!(get_manager(Some(4)).unwrap(), 4);
    assert!(reply(Ok(3)).unwrap().success);
    assert!(reply::<u8>(Err(CloudSyncError::Cancelled)).is_err());
    assert!(matches!(found_connection(Ok(None)), Err(ApiError::NotFound(t)) if t == "连接不存在"));
    assert_eq!(ListObjectsQuery { prefix: None }.prefix_or_empty(), "");
    assert_eq!(ListObjectsQuery { prefix: Some("p".into()) }.prefix_or_empty(), "p");
}

#[test]
fn directions_are_seen_from_the_network_disk() {
    let (s3_kind, oss_kind, disk) = (StorageKind::S3, StorageKind::Oss, StorageKind::Baidu);
    assert_eq!(infer_direction(s3_kind, disk), SyncDirection::Upload);
    assert_eq!(infer_direction(disk, disk), SyncDirection::Upload);
    assert_eq!(infer_direction(disk, oss_kind), SyncDirection::Download);
    assert_eq!(infer_direction(s3_kind, oss_kind), SyncDirection::Upload);
    let a = connection("a", baidu(4));
    let b = connection("b", baidu(5));
    let c = connection("c", ConnectionConfig::S3(s3("s")));
    assert_eq!(extract_baidu_uid(&a, &b), Some(4));
    assert_eq!(extract_baidu_uid(&c, &b), Some(5));
    assert_eq!(extract_baidu_uid(&c, &c), None);
    assert_eq!(a.name(), "disk");
    assert_eq!(a.kind().as_str(), "baidu");
}

#[test]
fn updates_replace_what_they_name() {
    let req = UpdateConnectionRequest {
        name: Some("new".into()),
        endpoint: Some("e".into()),
        internal_endpoint: Some("ie".into()),
        path_style: Some(true),
        owner_uid: Some(9),
        ..UpdateConnectionRequest::default()
    };
    match apply_update(ConnectionConfig::S3(s3("s")), &req) {
        ConnectionConfig::S3(c) => {
            assert_eq!(c.name, "new");
            assert_eq!(c.endpoint.as_deref(), Some("e"));
            assert_eq!(c.path_style, Some(true));
            assert_eq!(c.region, "r");
        }
        _ => panic!("the kind stays"),
    }
    let oss = OssConfig {
        name: "o".into(),
        region: "r".into(),
        bucket: "b".into(),
        access_key: "ak".into(),
        secret_key: "sk".into(),
        endpoint: None,
        internal_endpoint: None,
        path_style: None,
    };
    match apply_update(ConnectionConfig::Oss(oss), &req) {
        ConnectionConfig::Oss(c) => assert_eq!(c.internal_endpoint.as_deref(), Some("ie")),
        _ => panic!("the kind stays"),
    }
    match apply_update(baidu(1), &req) {
        ConnectionConfig::Baidu(c) => assert_eq!((c.name.as_str(), c.owner_uid), ("new", 9)),
        _ => panic!("the kind stays"),
    }
    match apply_update(baidu(1), &UpdateConnectionRequest::default()) {
        ConnectionConfig::Baidu(c) => assert_eq!((c.name.as_str(), c.owner_uid), ("disk", 1)),
        _ => panic!("the kind stays"),
    }
}

#[test]
fn sanitized_names_hold_no_separators() {
    assert_eq!(sanitize("/a b/é.tar-gz"), "_a_b__.tar-gz");
    assert_eq!(sanitize(&sanitize("/a")), sanitize("/a"));
}

#[test]
fn connections_are_made_changed_and_forgotten() {
    let mut m = CloudSyncManager::new();
    let c = m.create_connection(CreateConnectionRequest::S3(s3("s")), false).unwrap();
    assert_eq!(c.id.len(), 36);
    assert_eq!(c.created_at, c.updated_at);
    let request = || CreateConnectionRequest::Baidu(BaiduConfig { name: "d".into(), owner_uid: 7 });
    match m.create_connection(request(), false) {
        Err(e) => assert_eq!(e.to_string(), "鉴权失败: 百度账号 7 未登录"),
        Ok(_) => panic!("the account is not logged in"),
    }
    assert!(m.create_connection(request(), true).is_ok());

    assert!(m.known_connection("x").is_none());
    assert!(m.get_connection("x", None).is_none());
    m.connection_stored("x", connection("x", baidu(1)));
    assert!(m.known_connection("x").is_some());
    let again = m.get_connection("x", Some(connection("x", baidu(2)))).unwrap();
    assert_eq!(extract_baidu_uid(&again, &again), Some(1));
    m.delete_connection("x");
    let fresh = m.get_connection("x", Some(connection("x", baidu(2)))).unwrap();
    assert_eq!(extract_baidu_uid(&fresh, &fresh), Some(2));
    assert!(m.known_connection("x").is_some());

    let req = UpdateConnectionRequest { owner_uid: Some(3), ..UpdateConnectionRequest::default() };
    let changed = m.update_connection(Some(fresh), &req).unwrap();
    assert_eq!(extract_baidu_uid(&changed, &changed), Some(3));
    assert_eq!(changed.created_at, at(10));
    assert_eq!(
        m.update_connection(None, &req).unwrap_err().to_string(),
        "资源不存在: 连接不存在"
    );
}

fn job_request(owner_uid: Option<u64>) -> CreateJobRequest {
    CreateJobRequest {
        name: "n".into(),
        source_connection_id: "a".into(),
        dest_connection_id: "b".into(),
        source_path: "/s".into(),
        dest_path: "/d".into(),
        owner_uid,
    }
}

#[test]
fn jobs_are_made_from_requests() {
    let m = CloudSyncManager::new();
    let a = || Some(connection("a", baidu(4)));
    let b = || Some(connection("b", ConnectionConfig::S3(s3("s"))));
    let job = m.create_job(job_request(None), a(), b()).unwrap();
    assert_eq!(job.direction, SyncDirection::Download);
    assert_eq!(job.status, JobStatus::Pending);
    assert_eq!(job.owner_uid, Some(4));
    assert_eq!(m.create_job(job_request(Some(6)), a(), b()).unwrap().owner_uid, Some(6));
    assert_eq!(
        m.create_job(job_request(None), None, None).unwrap_err().to_string(),
        "资源不存在: 源连接不存在: a"
    );
    assert_eq!(
        m.create_job(job_request(None), a(), None).unwrap_err().to_string(),
        "资源不存在: 目标连接不存在: b"
    );
    assert_eq!(created_event(&job).event_type_name(), "created");
    assert_eq!(status_event(&job).event_type_name(), "status_changed");
    assert_eq!(deleted_event("j").event_type_name(), "deleted");
    assert!(m.get_job(None).is_err());
    let summary = to_summary(job, &a(), &None);
    assert_eq!(summary.source_connection_name, "disk");
    assert_eq!(summary.dest_connection_name, "(已删除)");
}

#[test]
fn cancelling_reaches_running_and_waiting_jobs() {
    let mut m = CloudSyncManager::new();
    let cancelled = m.cancel_job("j", Some(job())).unwrap();
    assert_eq!(cancelled.status, JobStatus::Cancelled);
    assert!(cancelled.finished_at.is_some());
    let over = TransferJob { status: JobStatus::Completed, ..job() };
    assert!(m.cancel_job("j", Some(over)).is_none());
    m.job_started("j");
    assert!(!m.is_cancelled("j"));
    assert!(m.cancel_job("j", Some(job())).is_none());
    assert!(m.is_cancelled("j"));
    m.job_ended("j");
    assert!(!m.is_cancelled("j"));
    m.job_started("k");
    m.delete_job("k");
    assert!(m.is_cancelled("k"));
}

#[test]
fn failed_jobs_carry_their_error() {
    let (failed, event) = failed_job(job(), &CloudSyncError::Cancelled);
    assert_eq!(failed.status, JobStatus::Failed);
    assert_eq!(failed.error.as_deref(), Some("用户取消"));
    match event {
        CloudSyncEvent::StatusChanged { status, error, .. } => {
            assert_eq!(status, JobStatus::Failed);
            assert_eq!(error.as_deref(), Some("用户取消"));
        }
        _ => panic!("the status changed"),
    }
}

fn drive(run: &mut JobRun, report: JobReport) -> JobAction {
    run.next(report, false)
}

#[test]
fn a_run_downloads_and_uploads() {
    let (mut run, first) = JobRun::begin(job());
    assert!(matches!(first, JobAction::Save));
    assert_eq!(run.job.status, JobStatus::Running);
    assert!(matches!(drive(&mut run, JobReport::Saved(Ok(()))), JobAction::FindSource { .. }));
    let found = || JobReport::Found(Ok(Some(connection("a", baidu(4)))));
    assert!(matches!(drive(&mut run, found()), JobAction::FindDest));
    assert!(matches!(drive(&mut run, found()), JobAction::Build { .. }));
    assert!(matches!(drive(&mut run, JobReport::Built(Ok(()))), JobAction::Measure));
    assert!(matches!(drive(&mut run, JobReport::Measured(Some(8))), JobAction::Save));
    match drive(&mut run, JobReport::Saved(Ok(()))) {
        JobAction::Fetch { cache_name } => assert_eq!(cache_name, "csync-j-_x_y_z.bin"),
        _ => panic!("the source comes next"),
    }
    assert!(matches!(drive(&mut run, JobReport::Fetched(Ok(()))), JobAction::Push { .. }));
    assert!(matches!(
        drive(&mut run, JobReport::Pushed(Ok(()))),
        JobAction::DiscardAndSave { .. }
    ));
    assert_eq!(run.job.status, JobStatus::Completed);
    assert_eq!(run.job.transferred_bytes, 8);
    assert!(matches!(drive(&mut run, JobReport::Saved(Ok(()))), JobAction::Finish { .. }));
    assert_eq!(run.phase, JobPhase::Over);
}

#[test]
fn a_run_stops_when_it_is_asked_to() {
    let fresh = |phase: JobPhase| JobRun { job: job(), phase, source: None };
    let mut run = fresh(JobPhase::SavingSize);
    match run.next(JobReport::Saved(Ok(())), true) {
        JobAction::Fail { error, discard } => {
            assert_eq!(error.to_string(), "用户取消");
            assert!(discard.is_none());
        }
        _ => panic!("it was asked to stop"),
    }
    let mut run = fresh(JobPhase::Fetching);
    match run.next(JobReport::Fetched(Ok(())), true) {
        JobAction::Fail { discard, .. } => assert_eq!(discard.as_deref(), Some("csync-j-_x_y_z.bin")),
        _ => panic!("it was asked to stop"),
    }
    let mut run = fresh(JobPhase::FindingSource);
    match run.next(JobReport::Found(Ok(None)), false) {
        JobAction::Fail { error, .. } => assert_eq!(error.to_string(), "资源不存在: 源连接已不存在"),
        _ => panic!("there is no source"),
    }
    let mut run = JobRun { source: Some(connection("a", baidu(1))), ..fresh(JobPhase::FindingDest) };
    match run.next(JobReport::Found(Ok(None)), false) {
        JobAction::Fail { error, .. } => assert_eq!(error.to_string(), "资源不存在: 目标连接已不存在"),
        _ => panic!("there is no target"),
    }
    let mut run = fresh(JobPhase::Pushing);
    assert!(matches!(
        run.next(JobReport::Pushed(Err(CloudSyncError::network("x"))), false),
        JobAction::Fail { .. }
    ));
    assert_eq!(run.phase, JobPhase::Over);
}

#[test]
fn jobs_read_back_from_their_rows() {
    let stored = TransferJob {
        status: JobStatus::Cancelled,
        transferred_bytes: 3,
        total_bytes: 4,
        error: Some("e".into()),
        finished_at: Some(at(30)),
        local_cache_path: Some("/tmp/x".into()),
        ..job()
    };
    let back = row_to_job(job_row(&stored)).unwrap();
    assert_eq!(back.id, "j");
    assert_eq!(back.status, JobStatus::Cancelled);
    assert_eq!(back.direction, SyncDirection::Download);
    assert_eq!(back.owner_uid, Some(u64::MAX));
    assert_eq!(back.created_at, Timestamp { secs: 10, nanos: 0 });
    assert_eq!(back.finished_at, Some(Timestamp { secs: 30, nanos: 0 }));
    assert_eq!((back.transferred_bytes, back.total_bytes), (3, 4));
    assert_eq!(back.local_cache_path.as_deref(), Some("/tmp/x"));

    let mut odd = job_row(&stored);
    odd.status = "??".into();
    odd.direction = "??".into();
    odd.total_bytes = -4;
    odd.finished_at = Some(i64::MAX);
    let back = row_to_job(odd).unwrap();
    assert_eq!(back.status, JobStatus::Failed);
    assert_eq!(back.direction, SyncDirection::Download);
    assert_eq!(back.total_bytes, 0);
    assert!(back.finished_at.is_none());

    let mut bad = job_row(&stored);
    bad.created_at = 8210266876800;
    assert_eq!(row_to_job(bad).unwrap_err().index, 13);
    let mut last = job_row(&stored);
    last.created_at = 8210266876799;
    last.updated_at = -8334601228800;
    assert!(row_to_job(last).is_ok());
    let mut bad = job_row(&stored);
    bad.updated_at = -8334601228801;
    assert_eq!(row_to_job(bad).unwrap_err().message, "invalid updated_at");
}

#[test]
fn updates_of_rows_keep_what_is_fixed() {
    let row = job_row(&job());
    let changed = TransferJob {
        status: JobStatus::Running,
        total_bytes: 7,
        direction: SyncDirection::Upload,
        owner_uid: None,
        ..job()
    };
    let back = row_to_job(updated_job_row(row, &changed)).unwrap();
    assert_eq!(back.status, JobStatus::Running);
    assert_eq!(back.total_bytes, 7);
    assert_eq!(back.direction, SyncDirection::Download);
    assert_eq!(back.owner_uid, Some(u64::MAX));
}

#[test]
fn connections_read_back_from_their_rows() {
    let c = connection("c", baidu(4));
    let row = connection_row(&c);
    assert_eq!(row.kind, "baidu");
    assert_eq!(row.name, "disk");
    let back = row_to_connection(connection_row(&c), baidu(4)).unwrap();
    assert_eq!(back.updated_at, Timestamp { secs: 20, nanos: 0 });
    let renamed = connection("c", ConnectionConfig::S3(s3("other")));
    let after = updated_connection_row(row, &renamed);
    assert_eq!(after.name, "other");
    assert_eq!(after.kind, "baidu");
    let mut bad = connection_row(&c);
    bad.created_at = i64::MIN;
    assert_eq!(row_to_connection(bad, baidu(4)).unwrap_err().index, 4);
    assert!(connection_deleted(1, "c").is_ok());
    assert_eq!(connection_deleted(0, "c").unwrap_err().to_string(), "资源不存在: 连接不存在: c");
    assert_eq!(job_deleted(0, "j").unwrap_err().to_string(), "资源不存在: 任务不存在: j");
}
