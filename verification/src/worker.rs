//! The steps of the work on one task. The work alternates calls to
//! RunningHub, waits and updates of the task's record; the decisions between
//! them are a function from the state of the work and what the last call
//! returned to the next state and what to do next.
use vstd::prelude::*;
use crate::runninghub::{NodeInfo, QueryResponse, QueryResultFile};
use crate::settings::ModelOverride;
use crate::task::{
    configure_node_info, no_target_message, select_target_node, poll_progress, poll_progress_of, query_succeeded,
    target_node, with_upload, TaskStatus, MAX_POLL_ATTEMPTS, PROGRESS_FULL,
};
use crate::text::{eq_ignore_ascii_case, owned};

verus! {

/// How far the work on a task has come.
#[derive(Debug, Clone, PartialEq, Eq)]
pub enum WorkerState {
    /// A new task, not yet waiting for a slot.
    Fresh,
    /// A task found unfinished after a restart, which RunningHub knows under
    /// this id.
    Recovered(String),
    /// Waiting for a slot; for a recovered task, its RunningHub id.
    AwaitingSlot(Option<String>),
    /// The video is being uploaded.
    Uploading,
    /// The workflow's input nodes are being fetched; the uploaded file's name.
    Configuring(String),
    /// The run request is being sent.
    Submitting,
    /// Query `attempt` of the RunningHub task is being made.
    Querying(String, usize),
    /// Waiting after query `attempt` of the RunningHub task.
    Waiting(String, usize),
    /// The result files are being downloaded.
    Downloading,
    /// The work has ended.
    Done,
}

/// What the last call returned.
pub enum WorkerEvent {
    /// The work starts.
    Begin,
    /// A slot was given; whether the task's record was still there.
    SlotAcquired(bool),
    /// The video was uploaded under this name.
    Uploaded(String),
    /// The workflow's input nodes, with the override saved for it.
    NodesFetched(Vec<NodeInfo>, Option<ModelOverride>),
    /// RunningHub started the task under this id.
    Submitted(String),
    /// A query answered with this state of the task.
    Queried(QueryResponse),
    /// The wait between two queries passed.
    Waited,
    /// The result files were saved at these paths.
    Downloaded(Vec<String>),
    /// A call failed with this text; `CANCELED` when the user canceled.
    Stopped(String),
}

/// The next call to make.
pub enum WorkerCall {
    /// Wait for one of the slots.
    AcquireSlot,
    /// Upload the task's video.
    Upload,
    /// Fetch the workflow's input nodes and the saved override.
    FetchNodes,
    /// Send the run request with these nodes; the position of the node that
    /// receives the video.
    Run(Vec<NodeInfo>, usize),
    /// Query the RunningHub task with this id.
    Query(String),
    /// Wait before the next query.
    Wait,
    /// Download these result files.
    Download(Vec<QueryResultFile>),
    /// Record the task as successful with these files.
    Complete(Vec<String>),
    /// End the task with this error.
    Finish(String),
    /// Nothing: the event does not belong to this state.
    Nothing,
}

/// What to do after an event: the record's updates (status and progress),
/// in order, the RunningHub id to record, and the next call.
pub struct WorkerAction {
    pub progress: Vec<(TaskStatus, u32)>,
    pub remote_task_id: Option<String>,
    pub call: WorkerCall,
}

pub open spec fn missing_record_text() -> Seq<char> {
    "任务记录不存在。"@
}

pub open spec fn no_results_text() -> Seq<char> {
    "RunningHub 返回成功，但没有结果文件。"@
}

pub open spec fn timeout_text() -> Seq<char> {
    "任务轮询超时，请稍后在 RunningHub 后台确认结果。"@
}

/// `a` records these updates, no RunningHub id, and makes call `c`.
pub open spec fn plain(a: WorkerAction, p: Seq<(TaskStatus, u32)>, c: WorkerCall) -> bool {
    a.progress@ == p && a.remote_task_id is None && a.call == c
}

/// `a` records these updates, no RunningHub id, and ends the task with an
/// error of this text.
pub open spec fn finishing(a: WorkerAction, p: Seq<(TaskStatus, u32)>, text: Seq<char>) -> bool {
    a.progress@ == p && a.remote_task_id is None && (a.call matches WorkerCall::Finish(m) && m@ == text)
}

/// The step from state `s` on event `e` to state `t` with action `a`.
pub open spec fn worker_step(s: WorkerState, e: WorkerEvent, t: WorkerState, a: WorkerAction) -> bool {
    match (s, e) {
        (WorkerState::Done, _) => t == WorkerState::Done && plain(a, seq![], WorkerCall::Nothing),
        (_, WorkerEvent::Stopped(err)) => t == WorkerState::Done && plain(a, seq![], WorkerCall::Finish(err)),
        (WorkerState::Fresh, WorkerEvent::Begin) => t == WorkerState::AwaitingSlot(None) && plain(
            a,
            seq![(TaskStatus::Pending, 0u32)],
            WorkerCall::AcquireSlot,
        ),
        (WorkerState::Recovered(r), WorkerEvent::Begin) => t == WorkerState::AwaitingSlot(Some(r))
            && plain(a, seq![], WorkerCall::AcquireSlot),
        (WorkerState::AwaitingSlot(None), WorkerEvent::SlotAcquired(found)) => if found {
            t == WorkerState::Uploading && plain(a, seq![(TaskStatus::Uploading, 1000u32)], WorkerCall::Upload)
        } else {
            t == WorkerState::Done && finishing(a, seq![], missing_record_text())
        },
        (WorkerState::AwaitingSlot(Some(r)), WorkerEvent::SlotAcquired(_)) => t == WorkerState::Querying(r, 0)
            && plain(
            a,
            seq![(TaskStatus::Running, 4000u32), (TaskStatus::Running, 4000u32)],
            WorkerCall::Query(r),
        ),
        (WorkerState::Uploading, WorkerEvent::Uploaded(name)) => t == WorkerState::Configuring(name)
            && plain(a, seq![(TaskStatus::Configuring, 2400u32)], WorkerCall::FetchNodes),
        (WorkerState::Configuring(name), WorkerEvent::NodesFetched(nodes, o)) => match target_node(nodes@, o) {
            Some(i) => t == WorkerState::Submitting && a.progress@ == seq![(TaskStatus::Pending, 3400u32)]
                && a.remote_task_id is None && (a.call matches WorkerCall::Run(v, j) && v@ == with_upload(
                nodes@,
                i,
                name,
            ) && j == i),
            None => t == WorkerState::Done && finishing(a, seq![], no_target_message(o)),
        },
        (WorkerState::Submitting, WorkerEvent::Submitted(r)) => t == WorkerState::Querying(r, 0)
            && a.progress@ == seq![(TaskStatus::Running, 4000u32)] && a.remote_task_id == Some(r)
            && a.call == WorkerCall::Query(r),
        (WorkerState::Querying(r, k), WorkerEvent::Queried(q)) => if eq_ignore_ascii_case(
            q.status@,
            "SUCCESS"@,
        ) {
            if q.results@.len() == 0 {
                t == WorkerState::Done && finishing(a, seq![(TaskStatus::Running, 9500u32)], no_results_text())
            } else {
                t == WorkerState::Downloading && a.progress@ == seq![
                    (TaskStatus::Running, 9500u32),
                    (TaskStatus::Downloading, 9600u32),
                ] && a.remote_task_id is None && (a.call matches WorkerCall::Download(v) && v@
                    == q.results@)
            }
        } else {
            t == WorkerState::Waiting(r, k) && plain(
                a,
                seq![(TaskStatus::Running, poll_progress_of(k as int) as u32)],
                WorkerCall::Wait,
            )
        },
        (WorkerState::Waiting(r, k), WorkerEvent::Waited) => if k + 1 >= MAX_POLL_ATTEMPTS {
            t == WorkerState::Done && finishing(a, seq![], timeout_text())
        } else {
            t == WorkerState::Querying(r, (k + 1) as usize) && plain(a, seq![], WorkerCall::Query(r))
        },
        (WorkerState::Downloading, WorkerEvent::Downloaded(paths)) => t == WorkerState::Done
            && a.progress@ == Seq::<(TaskStatus, u32)>::empty() && a.remote_task_id is None && (a.call matches WorkerCall::Complete(
            v,
        ) && v@ == paths@),
        (_, _) => t == s && plain(a, seq![], WorkerCall::Nothing),
    }
}

/// An action that only makes a call.
fn call_only(call: WorkerCall) -> (a: WorkerAction)
    ensures
        a.progress@ == Seq::<(TaskStatus, u32)>::empty(),
        a.remote_task_id is None,
        a.call == call,
{
    WorkerAction { progress: Vec::new(), remote_task_id: None, call }
}

/// An action that records one update and makes a call.
fn update_and_call(status: TaskStatus, progress: u32, call: WorkerCall) -> (a: WorkerAction)
    ensures
        a.progress@ == seq![(status, progress)],
        a.remote_task_id is None,
        a.call == call,
{
    let mut v: Vec<(TaskStatus, u32)> = Vec::new();
    v.push((status, progress));
    assert(v@ =~= seq![(status, progress)]);
    WorkerAction { progress: v, remote_task_id: None, call }
}

/// An action that records two updates and makes a call.
fn two_updates_and_call(s1: TaskStatus, p1: u32, s2: TaskStatus, p2: u32, call: WorkerCall) -> (a:
    WorkerAction)
    ensures
        a.progress@ == seq![(s1, p1), (s2, p2)],
        a.remote_task_id is None,
        a.call == call,
{
    let mut v: Vec<(TaskStatus, u32)> = Vec::new();
    v.push((s1, p1));
    v.push((s2, p2));
    assert(v@ =~= seq![(s1, p1), (s2, p2)]);
    WorkerAction { progress: v, remote_task_id: None, call }
}

impl WorkerState {
    /// The next state and action after `event`.
    pub fn next(self, event: WorkerEvent) -> (r: (WorkerState, WorkerAction))
        ensures
            worker_step(self, event, r.0, r.1),
    {
        if let WorkerState::Done = self {
            return (WorkerState::Done, call_only(WorkerCall::Nothing));
        }
        if let WorkerEvent::Stopped(err) = event {
            return (WorkerState::Done, call_only(WorkerCall::Finish(err)));
        }
        match (self, event) {
            (WorkerState::Fresh, WorkerEvent::Begin) => (
                WorkerState::AwaitingSlot(None),
                update_and_call(TaskStatus::Pending, 0, WorkerCall::AcquireSlot),
            ),
            (WorkerState::Recovered(r), WorkerEvent::Begin) => (
                WorkerState::AwaitingSlot(Some(r)),
                call_only(WorkerCall::AcquireSlot),
            ),
            (WorkerState::AwaitingSlot(None), WorkerEvent::SlotAcquired(found)) => {
                if found {
                    (
                        WorkerState::Uploading,
                        update_and_call(TaskStatus::Uploading, 1000, WorkerCall::Upload),
                    )
                } else {
                    (
                        WorkerState::Done,
                        call_only(WorkerCall::Finish(owned("任务记录不存在。"))),
                    )
                }
            },
            (WorkerState::AwaitingSlot(Some(r)), WorkerEvent::SlotAcquired(_)) => {
                let q = r.clone();
                (
                    WorkerState::Querying(r, 0),
                    two_updates_and_call(
                        TaskStatus::Running,
                        4000,
                        TaskStatus::Running,
                        4000,
                        WorkerCall::Query(q),
                    ),
                )
            },
            (WorkerState::Uploading, WorkerEvent::Uploaded(name)) => (
                WorkerState::Configuring(name),
                update_and_call(TaskStatus::Configuring, 2400, WorkerCall::FetchNodes),
            ),
            (WorkerState::Configuring(name), WorkerEvent::NodesFetched(nodes, o)) => {
                let sl = nodes.as_slice();
                assert(sl@ == nodes@);
                let count = sl.len();
                assert(count == sl@.len());
                match select_target_node(sl, &o) {
                    Ok(i) => {
                        let ghost before = nodes@;
                        let ghost chosen = o;
                        assert(target_node(before, chosen) == Some(i as int));
                        match configure_node_info(nodes, o, name) {
                        Ok(list) => (
                            WorkerState::Submitting,
                            update_and_call(TaskStatus::Pending, 3400, WorkerCall::Run(list, i)),
                        ),
                        Err(m) => (WorkerState::Done, call_only(WorkerCall::Finish(m))),
                        }
                    },
                    Err(m) => (WorkerState::Done, call_only(WorkerCall::Finish(m))),
                }
            },
            (WorkerState::Submitting, WorkerEvent::Submitted(r)) => {
                let q = r.clone();
                let id = r.clone();
                let mut a = update_and_call(TaskStatus::Running, 4000, WorkerCall::Query(q));
                a.remote_task_id = Some(id);
                (WorkerState::Querying(r, 0), a)
            },
            (WorkerState::Querying(r, k), WorkerEvent::Queried(q)) => {
                if query_succeeded(q.status.as_str()) {
                    if q.results.len() == 0 {
                        (
                            WorkerState::Done,
                            update_and_call(
                                TaskStatus::Running,
                                9500,
                                WorkerCall::Finish(owned("RunningHub 返回成功，但没有结果文件。")),
                            ),
                        )
                    } else {
                        (
                            WorkerState::Downloading,
                            two_updates_and_call(
                                TaskStatus::Running,
                                9500,
                                TaskStatus::Downloading,
                                9600,
                                WorkerCall::Download(q.results),
                            ),
                        )
                    }
                } else {
                    let p = poll_progress(k);
                    (WorkerState::Waiting(r, k), update_and_call(TaskStatus::Running, p, WorkerCall::Wait))
                }
            },
            (WorkerState::Waiting(r, k), WorkerEvent::Waited) => {
                if k >= MAX_POLL_ATTEMPTS - 1 {
                    (
                        WorkerState::Done,
                        call_only(
                            WorkerCall::Finish(owned("任务轮询超时，请稍后在 RunningHub 后台确认结果。")),
                        ),
                    )
                } else {
                    let q = r.clone();
                    (WorkerState::Querying(r, k + 1), call_only(WorkerCall::Query(q)))
                }
            },
            (WorkerState::Downloading, WorkerEvent::Downloaded(paths)) => (
                WorkerState::Done,
                call_only(WorkerCall::Complete(paths)),
            ),
            (s, _) => (s, call_only(WorkerCall::Nothing)),
        }
    }
}


// ---------------------------------------------------------------------------
// Laws
// ---------------------------------------------------------------------------

/// The work ends only by recording the task's success or its error.
pub proof fn law_work_ends_with_outcome(s: WorkerState, e: WorkerEvent, t: WorkerState, a: WorkerAction)
    requires
        worker_step(s, e, t, a),
        s != WorkerState::Done,
        t == WorkerState::Done,
    ensures
        a.call is Complete || a.call is Finish,
{
}

/// The number of the query under way is below the limit.
pub open spec fn attempts_in_bounds(s: WorkerState) -> bool {
    match s {
        WorkerState::Querying(_, k) => k < MAX_POLL_ATTEMPTS,
        WorkerState::Waiting(_, k) => k < MAX_POLL_ATTEMPTS,
        _ => true,
    }
}

/// Every step keeps the number of queries below the limit: polling gives up
/// after `MAX_POLL_ATTEMPTS` queries.
pub proof fn law_queries_are_bounded(s: WorkerState, e: WorkerEvent, t: WorkerState, a: WorkerAction)
    requires
        worker_step(s, e, t, a),
        attempts_in_bounds(s),
    ensures
        attempts_in_bounds(t),
{
}

/// The least progress that a state has reported.
pub open spec fn progress_floor(s: WorkerState) -> int {
    match s {
        WorkerState::Uploading => 1000,
        WorkerState::Configuring(_) => 2400,
        WorkerState::Submitting => 3400,
        WorkerState::Querying(_, k) => if k == 0 {
            4000
        } else {
            poll_progress_of(k - 1)
        },
        WorkerState::Waiting(_, k) => poll_progress_of(k as int),
        WorkerState::Downloading => 9600,
        WorkerState::Done => PROGRESS_FULL as int,
        _ => 0,
    }
}

/// The progress that the work reports never goes back: each step reports
/// values, in rising order, between the progress of the state it leaves and
/// that of the state it reaches.
pub proof fn law_progress_never_goes_back(s: WorkerState, e: WorkerEvent, t: WorkerState, a: WorkerAction)
    requires
        worker_step(s, e, t, a),
    ensures
        progress_floor(s) <= progress_floor(t),
        forall|i: int|
            0 <= i < a.progress@.len() ==> progress_floor(s) <= (#[trigger] a.progress@[i]).1 <= progress_floor(t),
        forall|i: int, j: int|
            0 <= i < j < a.progress@.len() ==> (#[trigger] a.progress@[i]).1 <= (#[trigger] a.progress@[j]).1,
{
}


/// Polling lasts 1440 queries: after query `k` of a task still running, the
/// wait leads to query `k + 1` of the same task while `k + 1 < 1440`, and
/// only after the 1440th query does the work give up with the timeout.
pub proof fn law_polling_lasts_1440_queries(r: String, k: usize, t: WorkerState, a: WorkerAction)
    requires
        worker_step(WorkerState::Waiting(r, k), WorkerEvent::Waited, t, a),
    ensures
        MAX_POLL_ATTEMPTS == 1440,
        k + 1 < 1440 ==> t == WorkerState::Querying(r, (k + 1) as usize) && a.call == WorkerCall::Query(
            r,
        ) && a.progress@.len() == 0,
        k + 1 >= 1440 ==> t == WorkerState::Done && (a.call matches WorkerCall::Finish(m) && m@
            == "任务轮询超时，请稍后在 RunningHub 后台确认结果。"@),
{
}
} // verus!
