use clearclip::runninghub::NodeInfo;
use clearclip::settings::ModelOverride;
use clearclip::task::{
    cache_key, check_video_extension, configure_node_info, poll_progress, query_succeeded,
    recovery_plan, select_target_node, validate_video_extension, validate_video_file,
    RecoveryStep, Submission, TaskBook, TaskDesk, TaskRecord, TaskStatus, MAX_CONCURRENT_TASKS,
    MAX_POLL_ATTEMPTS, PROGRESS_FULL,
};
use std::path::Path;

fn sample_record(task_id: &str, created_at: &str) -> TaskRecord {
    TaskRecord {
        task_id: task_id.into(),
        remote_task_id: None,
        app_id: "app".into(),
        app_name: "model".into(),
        file_name: "a.mp4".into(),
        file_path: "C:/a.mp4".into(),
        params: "null".into(),
        status: TaskStatus::Pending,
        progress: 0,
        save_path: None,
        save_paths: Vec::new(),
        error: None,
        created_at: created_at.into(),
        updated_at: created_at.into(),
    }
}

fn node(id: &str, field: &str) -> NodeInfo {
    NodeInfo {
        node_id: id.into(),
        node_name: None,
        field_name: field.into(),
        field_value: String::new(),
        field_data: None,
        description: None,
        description_en: None,
    }
}

#[test]
fn rejects_unsupported_extension() {
    let path = Path::new("C:/clips/input.txt");
    let error = validate_video_extension(path).unwrap_err();
    assert!(error.contains("仅支持"));
}

#[test]
fn accepts_supported_extension_case_insensitive() {
    validate_video_extension(Path::new("C:/clips/input.MP4")).expect("extension");
}

#[test]
fn persists_and_sorts_records() {
    let records = vec![sample_record("task-a", "1"), sample_record("task-b", "2")];
    let book = TaskBook::from_records(records);
    let sorted = book.list();
    assert_eq!(sorted.len(), 2);
    assert_eq!(sorted[0].task_id, "task-b");
}

#[test]
fn cancel_marks_record_and_persists() {
    let mut book = TaskBook::new();
    book.insert(sample_record("task-cancel", "1"));
    let canceled = book.cancel("task-cancel", "5".into()).expect("cancel");
    assert_eq!(canceled.status, TaskStatus::Canceled);
    assert!(canceled.error.unwrap_or_default().contains("本机跟踪"));
    assert_eq!(book.get("task-cancel").map(|record| record.status), Some(TaskStatus::Canceled));
}

#[test]
fn clear_history_keeps_active_records() {
    let mut book = TaskBook::new();
    let mut failed = sample_record("task-failed", "1");
    failed.status = TaskStatus::Failed;
    let active = sample_record("task-active", "2");
    book.insert(failed);
    book.insert(active);

    let remaining = book.clear_history();
    assert_eq!(remaining.len(), 1);
    assert_eq!(remaining[0].task_id, "task-active");
    assert!(book.get("task-active").is_some());
    assert!(book.get("task-failed").is_none());
}

#[test]
fn statuses_are_active_or_ended() {
    let all = [
        TaskStatus::Uploading,
        TaskStatus::Configuring,
        TaskStatus::Pending,
        TaskStatus::Running,
        TaskStatus::Downloading,
        TaskStatus::Success,
        TaskStatus::Failed,
        TaskStatus::Canceled,
    ];
    for s in all {
        assert_ne!(s.is_active(), s.is_terminal());
    }
    assert!(TaskStatus::Downloading.is_active());
    assert!(TaskStatus::Canceled.is_terminal());
}

#[test]
fn cancel_keeps_ended_tasks() {
    let mut book = TaskBook::new();
    let mut done = sample_record("t", "1");
    done.status = TaskStatus::Success;
    done.progress = PROGRESS_FULL;
    book.insert(done);
    let after = book.cancel("t", "9".into()).expect("record");
    assert_eq!(after.status, TaskStatus::Success);
    assert_eq!(after.error, None);
    assert_eq!(after.updated_at, "9");
    assert!(book.cancel("missing", "9".into()).is_none());
}

#[test]
fn task_steps_update_records() {
    let mut book = TaskBook::new();
    book.insert(sample_record("t", "1"));
    let r = book.set_progress("t", TaskStatus::Uploading, 1000, "2".into()).unwrap();
    assert_eq!((r.status, r.progress, r.updated_at.as_str()), (TaskStatus::Uploading, 1000, "2"));
    let r = book.set_progress("t", TaskStatus::Running, 20000, "3".into()).unwrap();
    assert_eq!(r.progress, PROGRESS_FULL);
    let r = book.set_remote_task_id("t", "remote-1".into(), "4".into()).unwrap();
    assert_eq!(r.remote_task_id.as_deref(), Some("remote-1"));
    let r = book.fail("t", "boom".into(), "5".into()).unwrap();
    assert_eq!((r.status, r.progress), (TaskStatus::Failed, PROGRESS_FULL));
    assert_eq!(r.error.as_deref(), Some("boom"));
    let r = book.set_progress("t", TaskStatus::Failed, 10, "6".into()).unwrap();
    assert_eq!(r.error.as_deref(), Some("boom"));
    let r = book.set_progress("t", TaskStatus::Running, 10, "7".into()).unwrap();
    assert_eq!(r.error, None);
    let r = book.complete("t", vec!["a.mp4".into(), "b.mp4".into()], "8".into()).unwrap();
    assert_eq!(r.status, TaskStatus::Success);
    assert_eq!(r.save_path.as_deref(), Some("a.mp4"));
    assert_eq!(r.save_paths.len(), 2);
    assert!(book.fail("nope", "x".into(), "9".into()).is_none());
}

#[test]
fn errors_end_tasks_as_canceled_or_failed() {
    let mut book = TaskBook::new();
    book.insert(sample_record("a", "1"));
    book.insert(sample_record("b", "1"));
    let a = book.finish_with_error("a", "CANCELED".into(), "", "2".into()).unwrap();
    assert_eq!(a.status, TaskStatus::Canceled);
    let b = book.finish_with_error("b", "网络请求失败：x".into(), "", "2".into()).unwrap();
    assert_eq!(b.status, TaskStatus::Failed);
    assert_eq!(b.error.as_deref(), Some("网络请求失败：x"));
}

#[test]
fn lists_newest_first() {
    let book = TaskBook::from_records(vec![
        sample_record("a", "100"),
        sample_record("b", "99"),
        sample_record("c", "200"),
        sample_record("a", "150"),
    ]);
    let ids: Vec<String> = book.list().into_iter().map(|r| r.task_id).collect();
    assert_eq!(ids, vec!["b", "c", "a"]);
}

#[test]
fn restart_plan() {
    let mut resumed = sample_record("r", "1");
    resumed.status = TaskStatus::Running;
    resumed.remote_task_id = Some("remote".into());
    let pending = sample_record("p", "2");
    let mut ended = sample_record("e", "3");
    ended.status = TaskStatus::Success;
    let plan = recovery_plan(&[resumed, pending, ended]);
    assert_eq!(
        plan,
        vec![
            RecoveryStep::Resume { task_id: "r".into(), remote_task_id: "remote".into() },
            RecoveryStep::Abandon { task_id: "p".into() },
        ]
    );
    let mut book = TaskBook::new();
    book.insert(sample_record("p", "2"));
    let r = book.abandon("p", "3".into()).unwrap();
    assert_eq!(r.status, TaskStatus::Failed);
    assert_eq!(r.error.as_deref(), Some("应用重启前任务尚未提交到 RunningHub，已停止以避免重复扣费。"));
}

#[test]
fn resubmission_returns_running_task() {
    let mut desk = TaskDesk::new();
    let key = cache_key("app", "C:/a.mp4", "{}");
    assert_eq!(key, "app:C:/a.mp4:{}");
    assert_eq!(desk.submit(key.clone(), sample_record("t1", "1")), Submission::Started("t1".into()));
    assert_eq!(desk.submit(key.clone(), sample_record("t2", "1")), Submission::Existing("t1".into()));
    assert!(desk.book.get("t2").is_none());
    desk.release(&key);
    assert_eq!(desk.submit(key, sample_record("t3", "1")), Submission::Started("t3".into()));
}

#[test]
fn video_file_checks() {
    assert_eq!(check_video_extension(Some("WebM".into())), Ok(()));
    assert_eq!(check_video_extension(Some("m4v".into())), Ok(()));
    assert_eq!(
        check_video_extension(None),
        Err("仅支持 mp4、mov、avi、mkv、webm、m4v 视频文件。".to_string())
    );
    let p = Path::new("/clips/a.mkv");
    assert_eq!(validate_video_file(p, false, false), Err("视频文件不存在，请重新选择。".to_string()));
    assert_eq!(validate_video_file(p, true, false), Err("请选择一个视频文件，而不是文件夹。".to_string()));
    assert_eq!(validate_video_file(p, true, true), Ok(()));
    assert!(validate_video_extension(Path::new("/clips/noext")).is_err());
}

#[test]
fn target_node_selection() {
    let nodes = vec![node("1", "prompt"), node("7", "Video"), node("7", "image")];
    let o = Some(ModelOverride { node_id: "7".into(), field_name: "VIDEO".into() });
    assert_eq!(select_target_node(&nodes, &o), Ok(1));
    assert_eq!(select_target_node(&nodes, &None), Ok(1));
    let missing = Some(ModelOverride { node_id: "8".into(), field_name: "video".into() });
    assert_eq!(
        select_target_node(&nodes, &missing),
        Err("高级节点配置未在 RunningHub 示例中找到：nodeId=8，fieldName=video。".to_string())
    );
    assert_eq!(
        select_target_node(&[node("1", "prompt")], &None),
        Err("无法自动识别视频输入节点，请在设置中检测该工作流节点。".to_string())
    );
}

#[test]
fn configured_nodes_carry_the_upload() {
    let nodes = vec![node("1", "prompt"), node("2", "video")];
    let list = configure_node_info(nodes.clone(), None, "openapi/x.mp4".into()).expect("nodes");
    assert_eq!(list.len(), 2);
    assert_eq!(list[0], nodes[0]);
    assert_eq!(list[1].field_value, "openapi/x.mp4");
    assert_eq!(list[1].node_id, "2");
}

#[test]
fn polling_progress() {
    assert_eq!(poll_progress(0), 4200);
    assert_eq!(poll_progress(10), 4600);
    assert_eq!(poll_progress(130), 9400);
    assert_eq!(poll_progress(131), 9400);
    assert_eq!(poll_progress(MAX_POLL_ATTEMPTS), 9400);
    assert!(query_succeeded("success"));
    assert!(!query_succeeded("RUNNING"));
    assert_eq!(MAX_CONCURRENT_TASKS, 2);
}

#[test]
fn new_records_are_pending() {
    let r = TaskRecord::new_pending(
        "task-1".into(),
        "app".into(),
        "4K".into(),
        "a.mp4".into(),
        "/v/a.mp4".into(),
        "{\"x\":1}".into(),
        "170".into(),
    );
    assert_eq!(r.status, TaskStatus::Pending);
    assert_eq!(r.progress, 0);
    assert_eq!(r.created_at, "170");
    assert_eq!(r.updated_at, "170");
    assert!(r.remote_task_id.is_none() && r.error.is_none() && r.save_paths.is_empty());
    let c = r.copy();
    assert_eq!(c, r);
}

#[test]
fn stored_errors_hide_the_key() {
    let mut book = TaskBook::new();
    book.insert(sample_record("t", "1"));
    let r = book
        .finish_with_error("t", "网络请求失败：error for url (https://x/api?apiKey=sk-9&webappId=1)".into(), "sk-9", "2".into())
        .unwrap();
    assert_eq!(r.error.as_deref(), Some("网络请求失败：error for url (https://x/api?apiKey=***&webappId=1)"));
}

#[test]
fn submissions_need_checks_and_a_saved_key() {
    let mut desk = TaskDesk::new();
    assert_eq!(
        desk.submit_checked(Err("视频文件不存在，请重新选择。".into()), Ok(true), "k".into(), sample_record("t1", "1")),
        Err("视频文件不存在，请重新选择。".to_string())
    );
    assert_eq!(
        desk.submit_checked(Ok(()), Ok(false), "k".into(), sample_record("t1", "1")),
        Err("请先在设置中保存 RunningHub API Key。".to_string())
    );
    assert_eq!(
        desk.submit_checked(Ok(()), Err("系统凭据访问失败：x".into()), "k".into(), sample_record("t1", "1")),
        Err("系统凭据访问失败：x".to_string())
    );
    assert!(desk.book.get("t1").is_none());
    assert_eq!(
        desk.submit_checked(Ok(()), Ok(true), "k".into(), sample_record("t1", "1")),
        Ok(Submission::Started("t1".into()))
    );
    assert!(desk.book.get("t1").is_some());
}
