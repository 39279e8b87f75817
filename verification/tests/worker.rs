use clearclip::runninghub::{NodeInfo, QueryResponse, QueryResultFile};
use clearclip::task::{TaskStatus, MAX_POLL_ATTEMPTS};
use clearclip::worker::{WorkerCall, WorkerEvent, WorkerState};

fn node(id: &str, field: &str) -> NodeInfo {
    NodeInfo {
        node_id: id.into(),
        node_name: None,
        field_name: field.into(),
        field_value: String::new(),
        field_data: None,
        description: None,
        description_en: None,
    }
}

fn queried(status: &str, urls: &[&str]) -> WorkerEvent {
    WorkerEvent::Queried(QueryResponse {
        status: status.into(),
        error_code: None,
        error_message: None,
        results: urls
            .iter()
            .map(|u| QueryResultFile { url: u.to_string(), output_type: None })
            .collect(),
    })
}

#[test]
fn new_task_runs_to_completion() {
    let (s, a) = WorkerState::Fresh.next(WorkerEvent::Begin);
    assert_eq!(s, WorkerState::AwaitingSlot(None));
    assert_eq!(a.progress, vec![(TaskStatus::Pending, 0)]);
    assert!(matches!(a.call, WorkerCall::AcquireSlot));

    let (s, a) = s.next(WorkerEvent::SlotAcquired(true));
    assert_eq!(s, WorkerState::Uploading);
    assert_eq!(a.progress, vec![(TaskStatus::Uploading, 1000)]);

    let (s, a) = s.next(WorkerEvent::Uploaded("openapi/v.mp4".into()));
    assert_eq!(s, WorkerState::Configuring("openapi/v.mp4".into()));
    assert!(matches!(a.call, WorkerCall::FetchNodes));

    let (s, a) = s.next(WorkerEvent::NodesFetched(vec![node("1", "prompt"), node("2", "video")], None));
    assert_eq!(s, WorkerState::Submitting);
    assert_eq!(a.progress, vec![(TaskStatus::Pending, 3400)]);
    match a.call {
        WorkerCall::Run(nodes, target) => {
            assert_eq!(target, 1);
            assert_eq!(nodes[1].field_value, "openapi/v.mp4");
        }
        _ => panic!("expected a run request"),
    }

    let (s, a) = s.next(WorkerEvent::Submitted("remote-1".into()));
    assert_eq!(s, WorkerState::Querying("remote-1".into(), 0));
    assert_eq!(a.remote_task_id.as_deref(), Some("remote-1"));
    assert_eq!(a.progress, vec![(TaskStatus::Running, 4000)]);

    let (s, a) = s.next(queried("RUNNING", &[]));
    assert_eq!(s, WorkerState::Waiting("remote-1".into(), 0));
    assert_eq!(a.progress, vec![(TaskStatus::Running, 4200)]);
    assert!(matches!(a.call, WorkerCall::Wait));

    let (s, a) = s.next(WorkerEvent::Waited);
    assert_eq!(s, WorkerState::Querying("remote-1".into(), 1));
    assert!(matches!(a.call, WorkerCall::Query(ref r) if r == "remote-1"));

    let (s, a) = s.next(queried("success", &["https://x/out.mp4"]));
    assert_eq!(s, WorkerState::Downloading);
    assert_eq!(a.progress, vec![(TaskStatus::Running, 9500), (TaskStatus::Downloading, 9600)]);

    let (s, a) = s.next(WorkerEvent::Downloaded(vec!["/r/out.mp4".into()]));
    assert_eq!(s, WorkerState::Done);
    match a.call {
        WorkerCall::Complete(paths) => assert_eq!(paths, vec!["/r/out.mp4".to_string()]),
        _ => panic!("expected completion"),
    }
}

#[test]
fn recovered_task_resumes_polling() {
    let (s, a) = WorkerState::Recovered("remote-9".into()).next(WorkerEvent::Begin);
    assert_eq!(s, WorkerState::AwaitingSlot(Some("remote-9".into())));
    assert!(a.progress.is_empty());
    let (s, a) = s.next(WorkerEvent::SlotAcquired(false));
    assert_eq!(s, WorkerState::Querying("remote-9".into(), 0));
    assert_eq!(a.progress, vec![(TaskStatus::Running, 4000), (TaskStatus::Running, 4000)]);
}

#[test]
fn work_stops_with_errors() {
    let (s, a) = WorkerState::AwaitingSlot(None).next(WorkerEvent::SlotAcquired(false));
    assert_eq!(s, WorkerState::Done);
    assert!(matches!(a.call, WorkerCall::Finish(ref m) if m == "任务记录不存在。"));

    let (s, a) = WorkerState::Configuring("f".into())
        .next(WorkerEvent::NodesFetched(vec![node("1", "prompt")], None));
    assert_eq!(s, WorkerState::Done);
    assert!(matches!(a.call, WorkerCall::Finish(ref m) if m == "无法自动识别视频输入节点，请在设置中检测该工作流节点。"));

    let (s, a) = WorkerState::Querying("r".into(), 3).next(queried("SUCCESS", &[]));
    assert_eq!(s, WorkerState::Done);
    assert_eq!(a.progress, vec![(TaskStatus::Running, 9500)]);
    assert!(matches!(a.call, WorkerCall::Finish(ref m) if m == "RunningHub 返回成功，但没有结果文件。"));

    let (s, a) = WorkerState::Waiting("r".into(), MAX_POLL_ATTEMPTS - 1).next(WorkerEvent::Waited);
    assert_eq!(s, WorkerState::Done);
    assert!(matches!(a.call, WorkerCall::Finish(ref m) if m == "任务轮询超时，请稍后在 RunningHub 后台确认结果。"));

    let (s, a) = WorkerState::Uploading.next(WorkerEvent::Stopped("CANCELED".into()));
    assert_eq!(s, WorkerState::Done);
    assert!(matches!(a.call, WorkerCall::Finish(ref m) if m == "CANCELED"));

    let (s, a) = WorkerState::Done.next(WorkerEvent::Begin);
    assert_eq!(s, WorkerState::Done);
    assert!(matches!(a.call, WorkerCall::Nothing));

    let (s, a) = WorkerState::Uploading.next(WorkerEvent::Waited);
    assert_eq!(s, WorkerState::Uploading);
    assert!(matches!(a.call, WorkerCall::Nothing));
}
