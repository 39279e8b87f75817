//! Video tasks: their states, the book of task records and what each step of
//! a task does to its record, the order in which tasks are listed, and the
//! decisions taken when the application restarts.
use vstd::prelude::*;
use std::path::Path;
use crate::runninghub::{
    choose_video_node, extension_text, opt_text, path_extension, video_node_choice, NodeInfo,
};
use crate::keyed::TextMap;
use crate::settings::ModelOverride;
use crate::text::{
    eq_ignore_ascii_case, eq_ignore_case, owned, push_str, same_text,
    unicode_lowercase, copy_opt, text_less, lower_text, lowercase, is_ascii_text, ascii_lower, less_text, contains_text, law_redacted_hides_key, redact,
    redacted,
    lemma_text_less_asymmetric, lemma_text_less_transitive, lemma_text_less_total,
};

verus! {

broadcast use vstd::string::group_string_axioms;

/// Tasks that run at once.
pub const MAX_CONCURRENT_TASKS: usize = 2;

/// Seconds between two queries of a remote task.
pub const POLL_INTERVAL_SECS: u64 = 5;

/// Queries of a remote task before polling gives up.
pub const MAX_POLL_ATTEMPTS: usize = 1440;

/// Progress is counted in hundredths of a percent.
pub const PROGRESS_FULL: u32 = 10000;

// ---------------------------------------------------------------------------
// Task states
// ---------------------------------------------------------------------------

/// The state of a task, in the order a task goes through them.
#[derive(Debug, Clone, Copy, PartialEq, Eq, Structural)]
pub enum TaskStatus {
    Uploading,
    Configuring,
    Pending,
    Running,
    Downloading,
    Success,
    Failed,
    Canceled,
}

impl TaskStatus {
    /// The task is still being worked on.
    pub open spec fn active(self) -> bool {
        matches!(self, TaskStatus::Uploading | TaskStatus::Configuring | TaskStatus::Pending | TaskStatus::Running | TaskStatus::Downloading)
    }

    /// The task has ended.
    pub open spec fn terminal(self) -> bool {
        matches!(self, TaskStatus::Success | TaskStatus::Failed | TaskStatus::Canceled)
    }

    pub fn is_active(self) -> (r: bool)
        ensures
            r == self.active(),
    {
        match self {
            TaskStatus::Uploading | TaskStatus::Configuring | TaskStatus::Pending
            | TaskStatus::Running | TaskStatus::Downloading => true,
            _ => false,
        }
    }

    pub fn is_terminal(self) -> (r: bool)
        ensures
            r == self.terminal(),
    {
        match self {
            TaskStatus::Success | TaskStatus::Failed | TaskStatus::Canceled => true,
            _ => false,
        }
    }
}

/// Every task is either active or ended, never both.
pub proof fn law_active_or_ended(s: TaskStatus)
    ensures
        s.active() <==> !s.terminal(),
{
}

// ---------------------------------------------------------------------------
// Task records
// ---------------------------------------------------------------------------

/// The record of one task. `params` holds the task's parameters as JSON
/// text; `progress` counts hundredths of a percent.
#[derive(Debug, Clone, PartialEq, Eq)]
pub struct TaskRecord {
    pub task_id: String,
    pub remote_task_id: Option<String>,
    pub app_id: String,
    pub app_name: String,
    pub file_name: String,
    pub file_path: String,
    pub params: String,
    pub status: TaskStatus,
    pub progress: u32,
    pub save_path: Option<String>,
    pub save_paths: Vec<String>,
    pub error: Option<String>,
    pub created_at: String,
    pub updated_at: String,
}

/// A task record with its texts as character sequences.
pub struct TaskRecordView {
    pub task_id: Seq<char>,
    pub remote_task_id: Option<Seq<char>>,
    pub app_id: Seq<char>,
    pub app_name: Seq<char>,
    pub file_name: Seq<char>,
    pub file_path: Seq<char>,
    pub params: Seq<char>,
    pub status: TaskStatus,
    pub progress: u32,
    pub save_path: Option<Seq<char>>,
    pub save_paths: Seq<Seq<char>>,
    pub error: Option<Seq<char>>,
    pub created_at: Seq<char>,
    pub updated_at: Seq<char>,
}

pub open spec fn opt_view(o: Option<String>) -> Option<Seq<char>> {
    match o {
        Some(s) => Some(s@),
        None => None,
    }
}

pub open spec fn strings_view(v: Seq<String>) -> Seq<Seq<char>> {
    v.map_values(|s: String| s@)
}

impl View for TaskRecord {
    type V = TaskRecordView;

    open spec fn view(&self) -> TaskRecordView {
        TaskRecordView {
            task_id: self.task_id@,
            remote_task_id: opt_view(self.remote_task_id),
            app_id: self.app_id@,
            app_name: self.app_name@,
            file_name: self.file_name@,
            file_path: self.file_path@,
            params: self.params@,
            status: self.status,
            progress: self.progress,
            save_path: opt_view(self.save_path),
            save_paths: strings_view(self.save_paths@),
            error: opt_view(self.error),
            created_at: self.created_at@,
            updated_at: self.updated_at@,
        }
    }
}

/// A copy of a list of strings.
pub fn copy_strings(v: &Vec<String>) -> (r: Vec<String>)
    ensures
        r@ == v@,
{
    let mut r: Vec<String> = Vec::new();
    let mut i: usize = 0;
    while i < v.len()
        invariant
            i <= v@.len(),
            r@ == v@.take(i as int),
        decreases v.len() - i,
    {
        r.push(v[i].clone());
        i = i + 1;
        assert(r@ =~= v@.take(i as int));
    }
    assert(v@.take(v@.len() as int) == v@);
    r
}

impl TaskRecord {
    /// A copy of the record.
    pub fn copy(&self) -> (r: TaskRecord)
        ensures
            r@ == self@,
    {
        TaskRecord {
            task_id: self.task_id.clone(),
            remote_task_id: copy_opt(&self.remote_task_id),
            app_id: self.app_id.clone(),
            app_name: self.app_name.clone(),
            file_name: self.file_name.clone(),
            file_path: self.file_path.clone(),
            params: self.params.clone(),
            status: self.status,
            progress: self.progress,
            save_path: copy_opt(&self.save_path),
            save_paths: copy_strings(&self.save_paths),
            error: copy_opt(&self.error),
            created_at: self.created_at.clone(),
            updated_at: self.updated_at.clone(),
        }
    }

    /// The record of a task just submitted: pending, with no progress, created
    /// and updated at `now`.
    pub fn new_pending(
        task_id: String,
        app_id: String,
        app_name: String,
        file_name: String,
        file_path: String,
        params: String,
        now: String,
    ) -> (r: TaskRecord)
        ensures
            r@ == (TaskRecordView {
                task_id: task_id@,
                remote_task_id: None,
                app_id: app_id@,
                app_name: app_name@,
                file_name: file_name@,
                file_path: file_path@,
                params: params@,
                status: TaskStatus::Pending,
                progress: 0,
                save_path: None,
                save_paths: Seq::empty(),
                error: None,
                created_at: now@,
                updated_at: now@,
            }),
    {
        let updated_at = now.clone();
        let r = TaskRecord {
            task_id,
            remote_task_id: None,
            app_id,
            app_name,
            file_name,
            file_path,
            params,
            status: TaskStatus::Pending,
            progress: 0,
            save_path: None,
            save_paths: Vec::new(),
            error: None,
            created_at: now,
            updated_at,
        };
        assert(r@.save_paths =~= Seq::<Seq<char>>::empty());
        r
    }
}

/// The note left on a canceled task.
pub open spec fn cancel_note() -> Seq<char> {
    "已取消本机跟踪。已提交到 RunningHub 的任务不会被远程取消。"@
}

/// What canceling leaves of a record: an ended task keeps everything but its
/// update time; any other is canceled, full, with the note that only local
/// tracking stopped.
pub open spec fn canceled(o: TaskRecordView, now: Seq<char>) -> TaskRecordView {
    if o.status.terminal() {
        TaskRecordView { updated_at: now, ..o }
    } else {
        TaskRecordView {
            status: TaskStatus::Canceled,
            progress: PROGRESS_FULL,
            error: Some(cancel_note()),
            updated_at: now,
            ..o
        }
    }
}

/// What failing with `error` leaves of a record.
pub open spec fn failed(o: TaskRecordView, error: Seq<char>, now: Seq<char>) -> TaskRecordView {
    TaskRecordView {
        status: TaskStatus::Failed,
        progress: PROGRESS_FULL,
        error: Some(error),
        updated_at: now,
        ..o
    }
}

/// Progress capped at full.
pub open spec fn clamp_progress(p: u32) -> u32 {
    if p > PROGRESS_FULL {
        PROGRESS_FULL
    } else {
        p
    }
}

/// What a step to `status` with `progress` leaves of a record: the error is
/// kept only when the step fails the task.
pub open spec fn progressed(o: TaskRecordView, status: TaskStatus, progress: u32, now: Seq<char>) -> TaskRecordView {
    TaskRecordView {
        status,
        progress: clamp_progress(progress),
        error: if status == TaskStatus::Failed {
            o.error
        } else {
            None
        },
        updated_at: now,
        ..o
    }
}

/// What learning the remote task id leaves of a record.
pub open spec fn with_remote_id(o: TaskRecordView, remote: Seq<char>, now: Seq<char>) -> TaskRecordView {
    TaskRecordView { remote_task_id: Some(remote), updated_at: now, ..o }
}

/// What finishing with the saved files `paths` leaves of a record.
pub open spec fn completed(o: TaskRecordView, paths: Seq<Seq<char>>, now: Seq<char>) -> TaskRecordView {
    TaskRecordView {
        status: TaskStatus::Success,
        progress: PROGRESS_FULL,
        save_path: if paths.len() > 0 {
            Some(paths[0])
        } else {
            None
        },
        save_paths: paths,
        error: None,
        updated_at: now,
        ..o
    }
}

// ---------------------------------------------------------------------------
// The book of task records
// ---------------------------------------------------------------------------

/// No two records share a task id.
pub open spec fn ids_unique(s: Seq<TaskRecord>) -> bool {
    forall|i: int, j: int|
        0 <= i < s.len() && 0 <= j < s.len() && i != j ==> s[i].task_id@ != s[j].task_id@
}

/// Some record has the task id `id`.
pub open spec fn has_id(s: Seq<TaskRecord>, id: Seq<char>) -> bool {
    exists|i: int| 0 <= i < s.len() && s[i].task_id@ == id
}

/// The position of a record whose task id is `id`.
pub open spec fn index_of_id(s: Seq<TaskRecord>, id: Seq<char>) -> int {
    choose|i: int| 0 <= i < s.len() && s[i].task_id@ == id
}

/// The records by task id.
pub open spec fn records_map(s: Seq<TaskRecord>) -> Map<Seq<char>, TaskRecordView> {
    Map::new(|id: Seq<char>| has_id(s, id), |id: Seq<char>| s[index_of_id(s, id)]@)
}

proof fn lemma_index_of_id(s: Seq<TaskRecord>, i: int)
    requires
        ids_unique(s),
        0 <= i < s.len(),
    ensures
        has_id(s, s[i].task_id@),
        index_of_id(s, s[i].task_id@) == i,
        records_map(s).contains_key(s[i].task_id@),
        records_map(s)[s[i].task_id@] == s[i]@,
{
    assert(has_id(s, s[i].task_id@));
}

proof fn lemma_update(s: Seq<TaskRecord>, i: int, r: TaskRecord)
    requires
        ids_unique(s),
        0 <= i < s.len(),
        r.task_id@ == s[i].task_id@,
    ensures
        ids_unique(s.update(i, r)),
        records_map(s.update(i, r)) == records_map(s).insert(r.task_id@, r@),
{
    let t = s.update(i, r);
    assert forall|id: Seq<char>| has_id(t, id) <==> has_id(s, id) by {
        if has_id(t, id) {
            let j = choose|j: int| 0 <= j < t.len() && t[j].task_id@ == id;
            assert(s[j].task_id@ == id);
        }
        if has_id(s, id) {
            let j = choose|j: int| 0 <= j < s.len() && s[j].task_id@ == id;
            assert(t[j].task_id@ == id);
        }
    }
    assert forall|id: Seq<char>| #[trigger] has_id(t, id) implies records_map(t)[id] == records_map(
        s,
    ).insert(r.task_id@, r@)[id] by {
        if id == r.task_id@ {
            lemma_index_of_id(t, i);
        } else {
            lemma_index_of_id(s, index_of_id(s, id));
            lemma_index_of_id(t, index_of_id(s, id));
        }
    }
    assert(records_map(t) =~= records_map(s).insert(r.task_id@, r@));
}

proof fn lemma_push(s: Seq<TaskRecord>, r: TaskRecord)
    requires
        ids_unique(s),
        !has_id(s, r.task_id@),
    ensures
        ids_unique(s.push(r)),
        records_map(s.push(r)) == records_map(s).insert(r.task_id@, r@),
{
    let t = s.push(r);
    assert forall|i: int, j: int|
        0 <= i < t.len() && 0 <= j < t.len() && i != j implies t[i].task_id@ != t[j].task_id@ by {
        if i < s.len() && j < s.len() {
        } else if i == s.len() {
            assert(t[j] == s[j]);
        } else {
            assert(t[i] == s[i]);
        }
    }
    assert forall|id: Seq<char>| has_id(t, id) <==> (has_id(s, id) || id == r.task_id@) by {
        if has_id(t, id) {
            let j = choose|j: int| 0 <= j < t.len() && t[j].task_id@ == id;
            if j < s.len() {
                assert(s[j].task_id@ == id);
            }
        }
        if has_id(s, id) {
            let j = choose|j: int| 0 <= j < s.len() && s[j].task_id@ == id;
            assert(t[j].task_id@ == id);
        }
        if id == r.task_id@ {
            assert(t[s.len() as int].task_id@ == id);
        }
    }
    assert forall|id: Seq<char>| #[trigger] has_id(t, id) implies records_map(t)[id] == records_map(
        s,
    ).insert(r.task_id@, r@)[id] by {
        if id == r.task_id@ {
            lemma_index_of_id(t, s.len() as int);
        } else {
            lemma_index_of_id(s, index_of_id(s, id));
            lemma_index_of_id(t, index_of_id(s, id));
        }
    }
    assert(records_map(t) =~= records_map(s).insert(r.task_id@, r@));
}

/// The records of `s` by task id, a later one replacing an earlier one.
pub open spec fn map_of_list(s: Seq<TaskRecord>) -> Map<Seq<char>, TaskRecordView>
    decreases s.len(),
{
    if s.len() == 0 {
        Map::empty()
    } else {
        map_of_list(s.drop_last()).insert(s.last().task_id@, s.last()@)
    }
}

/// The records of all tasks, keyed by task id.
pub struct TaskBook {
    records: Vec<TaskRecord>,
}

impl View for TaskBook {
    type V = Map<Seq<char>, TaskRecordView>;

    closed spec fn view(&self) -> Map<Seq<char>, TaskRecordView> {
        records_map(self.records@)
    }
}

impl TaskBook {
    #[verifier::type_invariant]
    spec fn unique(&self) -> bool {
        ids_unique(self.records@)
    }

    /// A book with no tasks.
    pub fn new() -> (b: TaskBook)
        ensures
            b@ == Map::<Seq<char>, TaskRecordView>::empty(),
    {
        let b = TaskBook { records: Vec::new() };
        assert(b@ =~= Map::<Seq<char>, TaskRecordView>::empty());
        b
    }

    /// The position of the record with this id.
    fn find(&self, task_id: &str) -> (r: Option<usize>)
        ensures
            match r {
                Some(i) => i < self.records@.len() && self.records@[i as int].task_id@ == task_id@,
                None => !has_id(self.records@, task_id@),
            },
    {
        let mut i: usize = 0;
        while i < self.records.len()
            invariant
                i <= self.records@.len(),
                forall|j: int| 0 <= j < i ==> self.records@[j].task_id@ != task_id@,
            decreases self.records.len() - i,
        {
            if same_text(self.records[i].task_id.as_str(), task_id) {
                return Some(i);
            }
            i = i + 1;
        }
        None
    }

    /// Stores `record` under its task id, replacing any record with that id.
    pub fn insert(&mut self, record: TaskRecord)
        ensures
            final(self)@ == old(self)@.insert(record.task_id@, record@),
    {
        proof {
            use_type_invariant(&*self);
        }
        match self.find(record.task_id.as_str()) {
            Some(i) => {
                proof {
                    lemma_update(self.records@, i as int, record);
                }
                let mut records: Vec<TaskRecord> = Vec::new();
                std::mem::swap(&mut records, &mut self.records);
                records.set(i, record);
                self.records = records;
            },
            None => {
                proof {
                    lemma_push(self.records@, record);
                }
                let mut records: Vec<TaskRecord> = Vec::new();
                std::mem::swap(&mut records, &mut self.records);
                records.push(record);
                self.records = records;
            },
        }
    }

    /// A book of `records`; a later record replaces an earlier one with the
    /// same task id.
    pub fn from_records(records: Vec<TaskRecord>) -> (b: TaskBook)
        ensures
            b@ == map_of_list(records@),
    {
        let mut b = TaskBook::new();
        let ghost all = records@;
        let mut i: usize = 0;
        let n = records.len();
        while i < n
            invariant
                n == all.len(),
                i <= n,
                b@ == map_of_list(all.take(i as int)),
                records@ == all,
            decreases n - i,
        {
            let r = records[i].copy();
            assert(all.take(i + 1).drop_last() == all.take(i as int));
            b.insert(r);
            i = i + 1;
        }
        assert(all.take(n as int) == all);
        b
    }

    /// A copy of the record whose task id is `task_id`.
    pub fn get(&self, task_id: &str) -> (r: Option<TaskRecord>)
        ensures
            match r {
                Some(rec) => self@.contains_key(task_id@) && rec@ == self@[task_id@],
                None => !self@.contains_key(task_id@),
            },
    {
        proof {
            use_type_invariant(self);
        }
        match self.find(task_id) {
            Some(i) => {
                proof {
                    lemma_index_of_id(self.records@, i as int);
                }
                Some(self.records[i].copy())
            },
            None => None,
        }
    }
}


/// The record that an update made, or `None` when no record had the id; the
/// book is then unchanged.
pub open spec fn updated(
    old: Map<Seq<char>, TaskRecordView>,
    new: Map<Seq<char>, TaskRecordView>,
    id: Seq<char>,
    changed: TaskRecordView,
    r: Option<TaskRecord>,
) -> bool {
    if old.contains_key(id) {
        &&& new == old.insert(id, changed)
        &&& r matches Some(rec) && rec@ == changed
    } else {
        &&& new == old
        &&& r is None
    }
}

impl TaskBook {
    /// Puts `record` at position `i`, whose record has the same task id.
    fn replace_at(&mut self, i: usize, record: TaskRecord)
        requires
            i < old(self).records@.len(),
            record.task_id@ == old(self).records@[i as int].task_id@,
        ensures
            final(self)@ == old(self)@.insert(record.task_id@, record@),
    {
        proof {
            use_type_invariant(&*self);
            lemma_update(self.records@, i as int, record);
        }
        let mut records: Vec<TaskRecord> = Vec::new();
        std::mem::swap(&mut records, &mut self.records);
        records.set(i, record);
        self.records = records;
    }

    /// Marks the task canceled unless it has already ended, and stamps the
    /// update time. Returns the record as it now stands.
    pub fn cancel(&mut self, task_id: &str, now: String) -> (r: Option<TaskRecord>)
        ensures
            updated(old(self)@, final(self)@, task_id@, canceled(old(self)@[task_id@], now@), r),
    {
        proof {
            use_type_invariant(&*self);
        }
        match self.find(task_id) {
            Some(i) => {
                proof {
                    lemma_index_of_id(self.records@, i as int);
                }
                let mut rec = self.records[i].copy();
                if !rec.status.is_terminal() {
                    rec.status = TaskStatus::Canceled;
                    rec.progress = PROGRESS_FULL;
                    rec.error = Some(owned("已取消本机跟踪。已提交到 RunningHub 的任务不会被远程取消。"));
                }
                rec.updated_at = now;
                let out = rec.copy();
                self.replace_at(i, rec);
                Some(out)
            },
            None => None,
        }
    }

    /// Marks the task failed with `error`.
    pub fn fail(&mut self, task_id: &str, error: String, now: String) -> (r: Option<TaskRecord>)
        ensures
            updated(old(self)@, final(self)@, task_id@, failed(old(self)@[task_id@], error@, now@), r),
    {
        proof {
            use_type_invariant(&*self);
        }
        match self.find(task_id) {
            Some(i) => {
                proof {
                    lemma_index_of_id(self.records@, i as int);
                }
                let mut rec = self.records[i].copy();
                rec.status = TaskStatus::Failed;
                rec.progress = PROGRESS_FULL;
                rec.error = Some(error);
                rec.updated_at = now;
                let out = rec.copy();
                self.replace_at(i, rec);
                Some(out)
            },
            None => None,
        }
    }

    /// Moves the task to `status` with `progress` (capped at full); the error
    /// is cleared unless the new status is `Failed`.
    pub fn set_progress(&mut self, task_id: &str, status: TaskStatus, progress: u32, now: String) -> (r:
        Option<TaskRecord>)
        ensures
            updated(
                old(self)@,
                final(self)@,
                task_id@,
                progressed(old(self)@[task_id@], status, progress, now@),
                r,
            ),
    {
        proof {
            use_type_invariant(&*self);
        }
        match self.find(task_id) {
            Some(i) => {
                proof {
                    lemma_index_of_id(self.records@, i as int);
                }
                let mut rec = self.records[i].copy();
                rec.status = status;
                rec.progress = if progress > PROGRESS_FULL {
                    PROGRESS_FULL
                } else {
                    progress
                };
                if status != TaskStatus::Failed {
                    rec.error = None;
                }
                rec.updated_at = now;
                let out = rec.copy();
                self.replace_at(i, rec);
                Some(out)
            },
            None => None,
        }
    }

    /// Records the id that RunningHub gave the task.
    pub fn set_remote_task_id(&mut self, task_id: &str, remote_task_id: String, now: String) -> (r:
        Option<TaskRecord>)
        ensures
            updated(
                old(self)@,
                final(self)@,
                task_id@,
                with_remote_id(old(self)@[task_id@], remote_task_id@, now@),
                r,
            ),
    {
        proof {
            use_type_invariant(&*self);
        }
        match self.find(task_id) {
            Some(i) => {
                proof {
                    lemma_index_of_id(self.records@, i as int);
                }
                let mut rec = self.records[i].copy();
                rec.remote_task_id = Some(remote_task_id);
                rec.updated_at = now;
                let out = rec.copy();
                self.replace_at(i, rec);
                Some(out)
            },
            None => None,
        }
    }

    /// Marks the task successful with the files it saved; the first of them
    /// is the record's save path.
    pub fn complete(&mut self, task_id: &str, save_paths: Vec<String>, now: String) -> (r: Option<
        TaskRecord,
    >)
        ensures
            updated(
                old(self)@,
                final(self)@,
                task_id@,
                completed(old(self)@[task_id@], strings_view(save_paths@), now@),
                r,
            ),
    {
        proof {
            use_type_invariant(&*self);
        }
        match self.find(task_id) {
            Some(i) => {
                proof {
                    lemma_index_of_id(self.records@, i as int);
                }
                let mut rec = self.records[i].copy();
                let first = if save_paths.len() > 0 {
                    Some(save_paths[0].clone())
                } else {
                    None
                };
                rec.status = TaskStatus::Success;
                rec.progress = PROGRESS_FULL;
                rec.save_path = first;
                rec.save_paths = save_paths;
                rec.error = None;
                rec.updated_at = now;
                let out = rec.copy();
                self.replace_at(i, rec);
                Some(out)
            },
            None => None,
        }
    }

    /// Ends a task whose work stopped with `error`: the text `CANCELED` means
    /// the user canceled it, anything else fails it. The error is stored with
    /// the secret `secret` (the API key the work used) hidden in it, so that no
    /// task record holds the key.
    pub fn finish_with_error(&mut self, task_id: &str, error: String, secret: &str, now: String) -> (r: Option<
        TaskRecord,
    >)
        ensures
            updated(
                old(self)@,
                final(self)@,
                task_id@,
                if error@ == "CANCELED"@ {
                    canceled(old(self)@[task_id@], now@)
                } else {
                    failed(old(self)@[task_id@], redacted(error@, secret@), now@)
                },
                r,
            ),
            error@ != "CANCELED"@ && secret@.len() > 0 ==> !contains_text(redacted(error@, secret@), secret@),
    {
        proof {
            law_redacted_hides_key(error@, secret@);
        }
        if same_text(error.as_str(), "CANCELED") {
            self.cancel(task_id, now)
        } else {
            let hidden = redact(error.as_str(), secret);
            self.fail(task_id, hidden, now)
        }
    }
}


// ---------------------------------------------------------------------------
// Listing
// ---------------------------------------------------------------------------

/// Newest first: no record is followed by one created later, creation times
/// compared as texts.
pub open spec fn newest_first(s: Seq<TaskRecord>) -> bool {
    forall|a: int, b: int|
        0 <= a < b < s.len() ==> !text_less(#[trigger] s[a].created_at@, #[trigger] s[b].created_at@)
}

/// `s` holds exactly the records of the book `m`, each once.
pub open spec fn lists_exactly(s: Seq<TaskRecord>, m: Map<Seq<char>, TaskRecordView>) -> bool {
    &&& ids_unique(s)
    &&& forall|k: int|
        0 <= k < s.len() ==> m.contains_key(#[trigger] s[k].task_id@) && m[s[k].task_id@] == s[k]@
    &&& forall|id: Seq<char>| #[trigger] m.contains_key(id) ==> has_id(s, id)
}

/// Where a record created at `created` goes in the newest-first list `out`:
/// after every record created at the same time or later, before the first
/// older one.
fn insertion_point(out: &Vec<TaskRecord>, created: &str) -> (p: usize)
    requires
        newest_first(out@),
    ensures
        p <= out@.len(),
        forall|k: int| 0 <= k < p ==> !text_less(#[trigger] out@[k].created_at@, created@),
        forall|k: int| p <= k < out@.len() ==> text_less(#[trigger] out@[k].created_at@, created@),
{
    let mut p: usize = 0;
    while p < out.len() && !less_text(out[p].created_at.as_str(), created)
        invariant
            p <= out@.len(),
            forall|k: int| 0 <= k < p ==> !text_less(#[trigger] out@[k].created_at@, created@),
        decreases out.len() - p,
    {
        p = p + 1;
    }
    assert forall|k: int| p <= k < out@.len() implies text_less(#[trigger] out@[k].created_at@, created@) by {
        let a = out@[p as int].created_at@;
        let b = out@[k].created_at@;
        if k > p {
            assert(!text_less(a, b));
            lemma_text_less_total(a, b);
            if b != a {
                lemma_text_less_transitive(b, a, created@);
            }
        }
    }
    p
}

impl TaskBook {
    /// All records, newest first.
    pub fn list(&self) -> (r: Vec<TaskRecord>)
        ensures
            lists_exactly(r@, self@),
            newest_first(r@),
    {
        proof {
            use_type_invariant(self);
        }
        let n = self.records.len();
        let mut out: Vec<TaskRecord> = Vec::new();
        let ghost mut pos: Seq<int> = Seq::empty();
        let ghost mut inv: Seq<int> = Seq::empty();
        let mut i: usize = 0;
        while i < n
            invariant
                n == self.records@.len(),
                i <= n,
                ids_unique(self.records@),
                out@.len() == i,
                pos.len() == i,
                inv.len() == i,
                forall|k: int|
                    0 <= k < i ==> 0 <= #[trigger] pos[k] < i && out@[k]@ == self.records@[pos[k]]@,
                forall|k1: int, k2: int|
                    0 <= k1 < i && 0 <= k2 < i && k1 != k2 ==> #[trigger] pos[k1] != #[trigger] pos[k2],
                forall|j: int| 0 <= j < i ==> 0 <= #[trigger] inv[j] < i && pos[inv[j]] == j,
                newest_first(out@),
            decreases n - i,
        {
            let rec = self.records[i].copy();
            let p = insertion_point(&out, rec.created_at.as_str());
            let ghost old_out = out@;
            let ghost c = rec.created_at@;
            out.insert(p, rec);
            proof {
                assert forall|a: int, b: int| 0 <= a < b < out@.len() implies !text_less(
                    #[trigger] out@[a].created_at@,
                    #[trigger] out@[b].created_at@,
                ) by {
                    if a < p && b == p {
                    } else if a == p && b > p {
                        lemma_text_less_asymmetric(old_out[b - 1].created_at@, c);
                    } else if a < p && b > p {
                        assert(out@[b] == old_out[b - 1]);
                    } else if a > p {
                        assert(out@[a] == old_out[a - 1]);
                        assert(out@[b] == old_out[b - 1]);
                    }
                }
                let ghost old_pos = pos;
                let ghost old_inv = inv;
                pos = old_pos.insert(p as int, i as int);
                inv = old_inv.map_values(|x: int| if x >= p { x + 1 } else { x }).push(p as int);
                assert forall|k: int| 0 <= k < i + 1 implies 0 <= #[trigger] pos[k] < i + 1
                    && out@[k]@ == self.records@[pos[k]]@ by {
                    if k < p {
                        assert(pos[k] == old_pos[k]);
                    } else if k > p {
                        assert(pos[k] == old_pos[k - 1]);
                    }
                }
                assert forall|k1: int, k2: int|
                    0 <= k1 < i + 1 && 0 <= k2 < i + 1 && k1 != k2 implies #[trigger] pos[k1]
                    != #[trigger] pos[k2] by {
                    if k1 != p && k2 != p {
                        let o1 = if k1 < p { k1 } else { k1 - 1 };
                        let o2 = if k2 < p { k2 } else { k2 - 1 };
                        assert(pos[k1] == old_pos[o1]);
                        assert(pos[k2] == old_pos[o2]);
                    } else if k1 == p {
                        let o2 = if k2 < p { k2 } else { k2 - 1 };
                        assert(pos[k2] == old_pos[o2]);
                    } else {
                        let o1 = if k1 < p { k1 } else { k1 - 1 };
                        assert(pos[k1] == old_pos[o1]);
                    }
                }
                assert forall|j: int| 0 <= j < i + 1 implies 0 <= #[trigger] inv[j] < i + 1
                    && pos[inv[j]] == j by {
                    if j < i {
                        let x = old_inv[j];
                        if x >= p {
                            assert(pos[x + 1] == old_pos[x]);
                        } else {
                            assert(pos[x] == old_pos[x]);
                        }
                    }
                }
            }
            i = i + 1;
        }
        proof {
            let recs = self.records@;
            assert forall|k1: int, k2: int|
                0 <= k1 < out@.len() && 0 <= k2 < out@.len() && k1 != k2 implies out@[k1].task_id@
                != out@[k2].task_id@ by {
                assert(pos[k1] != pos[k2]);
                assert(out@[k1]@.task_id == recs[pos[k1]]@.task_id);
                assert(out@[k2]@.task_id == recs[pos[k2]]@.task_id);
            }
            assert forall|k: int| 0 <= k < out@.len() implies self@.contains_key(
                #[trigger] out@[k].task_id@,
            ) && self@[out@[k].task_id@] == out@[k]@ by {
                lemma_index_of_id(recs, pos[k]);
                assert(out@[k]@.task_id == recs[pos[k]]@.task_id);
            }
            assert forall|id: Seq<char>| #[trigger] self@.contains_key(id) implies has_id(out@, id) by {
                let j = index_of_id(recs, id);
                assert(out@[inv[j]]@.task_id == recs[j]@.task_id);
                assert(out@[inv[j]].task_id@ == id);
            }
        }
        out
    }
}


/// The records of `m` whose tasks have not ended.
pub open spec fn unfinished(m: Map<Seq<char>, TaskRecordView>) -> Map<Seq<char>, TaskRecordView> {
    Map::new(|id: Seq<char>| m.contains_key(id) && !m[id].status.terminal(), |id: Seq<char>| m[id])
}

impl TaskBook {
    /// Drops the records of ended tasks and lists the others, newest first.
    pub fn clear_history(&mut self) -> (r: Vec<TaskRecord>)
        ensures
            final(self)@ == unfinished(old(self)@),
            lists_exactly(r@, final(self)@),
            newest_first(r@),
    {
        proof {
            use_type_invariant(&*self);
        }
        let n = self.records.len();
        let mut kept: Vec<TaskRecord> = Vec::new();
        let ghost recs = self.records@;
        let ghost mut pos: Seq<int> = Seq::empty();
        let mut i: usize = 0;
        while i < n
            invariant
                n == recs.len(),
                recs == self.records@,
                i <= n,
                ids_unique(recs),
                pos.len() == kept@.len(),
                forall|k: int|
                    0 <= k < kept@.len() ==> 0 <= #[trigger] pos[k] < i && kept@[k]@ == recs[pos[k]]@
                        && !recs[pos[k]].status.terminal(),
                forall|k1: int, k2: int|
                    0 <= k1 < k2 < kept@.len() ==> #[trigger] pos[k1] < #[trigger] pos[k2],
                forall|j: int|
                    0 <= j < i && !recs[j].status.terminal() ==> exists|k: int|
                        0 <= k < kept@.len() && #[trigger] pos[k] == j,
            decreases n - i,
        {
            if !self.records[i].status.is_terminal() {
                let rec = self.records[i].copy();
                kept.push(rec);
                proof {
                    let ghost old_pos = pos;
                    pos = pos.push(i as int);
                    assert forall|j: int|
                        0 <= j < i + 1 && !recs[j].status.terminal() implies exists|k: int|
                        0 <= k < kept@.len() && #[trigger] pos[k] == j by {
                        if j == i {
                            assert(pos[kept@.len() - 1] == j);
                        } else {
                            let k = choose|k: int| 0 <= k < old_pos.len() && #[trigger] old_pos[k] == j;
                            assert(pos[k] == j);
                        }
                    }
                }
            }
            i = i + 1;
        }
        proof {
            assert forall|k1: int, k2: int|
                0 <= k1 < kept@.len() && 0 <= k2 < kept@.len() && k1 != k2 implies kept@[k1].task_id@
                != kept@[k2].task_id@ by {
                if k1 < k2 {
                    assert(pos[k1] < pos[k2]);
                } else {
                    assert(pos[k2] < pos[k1]);
                }
                assert(kept@[k1]@.task_id == recs[pos[k1]]@.task_id);
                assert(kept@[k2]@.task_id == recs[pos[k2]]@.task_id);
            }
            let target = unfinished(records_map(recs));
            assert forall|id: Seq<char>|
                #![trigger records_map(kept@).contains_key(id)]
                #![trigger target.contains_key(id)]
                records_map(kept@).contains_key(id) <==> target.contains_key(id) by {
                if has_id(kept@, id) {
                    let k = choose|k: int| 0 <= k < kept@.len() && kept@[k].task_id@ == id;
                    assert(kept@[k]@.task_id == recs[pos[k]]@.task_id);
                    lemma_index_of_id(recs, pos[k]);
                }
                if target.contains_key(id) {
                    let j = index_of_id(recs, id);
                    lemma_index_of_id(recs, j);
                    let k = choose|k: int| 0 <= k < kept@.len() && #[trigger] pos[k] == j;
                    assert(kept@[k]@.task_id == recs[j]@.task_id);
                    assert(kept@[k].task_id@ == id);
                }
            }
            assert forall|id: Seq<char>| #[trigger] target.contains_key(id) implies records_map(
                kept@,
            )[id] == target[id] by {
                let k = index_of_id(kept@, id);
                lemma_index_of_id(kept@, k);
                assert(kept@[k]@.task_id == recs[pos[k]]@.task_id);
                lemma_index_of_id(recs, pos[k]);
            }
            assert(records_map(kept@) =~= target);
        }
        self.records = kept;
        self.list()
    }
}


// ---------------------------------------------------------------------------
// The node that receives the video
// ---------------------------------------------------------------------------

/// Node `n` is the one an override names: the same node id, and the field
/// name equal up to ASCII case.
pub open spec fn names_node(n: NodeInfo, c: ModelOverride) -> bool {
    n.node_id@ == c.node_id@ && eq_ignore_ascii_case(n.field_name@, c.field_name@)
}

/// The position of the first node at or after `i` that override `c` names.
pub open spec fn first_named_from(nodes: Seq<NodeInfo>, c: ModelOverride, i: int) -> Option<int>
    decreases nodes.len() - i,
{
    if i < 0 || i >= nodes.len() {
        None
    } else if names_node(nodes[i], c) {
        Some(i)
    } else {
        first_named_from(nodes, c, i + 1)
    }
}

/// The node that receives the video: the first that the override names
/// when there is one, else the automatic choice.
pub open spec fn target_node(nodes: Seq<NodeInfo>, o: Option<ModelOverride>) -> Option<int> {
    match o {
        Some(c) => first_named_from(nodes, c, 0),
        None => video_node_choice(nodes).0,
    }
}

/// The error when no node receives the video.
pub open spec fn no_target_message(o: Option<ModelOverride>) -> Seq<char> {
    match o {
        Some(c) => "高级节点配置未在 RunningHub 示例中找到：nodeId="@ + c.node_id@ + "，fieldName="@
            + c.field_name@ + "。"@,
        None => "无法自动识别视频输入节点，请在设置中检测该工作流节点。"@,
    }
}

proof fn lemma_first_named_in_range(nodes: Seq<NodeInfo>, c: ModelOverride, i: int)
    ensures
        first_named_from(nodes, c, i) matches Some(j) ==> 0 <= i <= j < nodes.len() && names_node(
            nodes[j],
            c,
        ),
    decreases nodes.len() - i,
{
    if 0 <= i < nodes.len() && !names_node(nodes[i], c) {
        lemma_first_named_in_range(nodes, c, i + 1);
    }
}

/// The position of the node that receives the video.
pub fn select_target_node(nodes: &[NodeInfo], override_config: &Option<ModelOverride>) -> (r: Result<
    usize,
    String,
>)
    ensures
        match target_node(nodes@, *override_config) {
            Some(i) => r == Ok::<usize, String>(i as usize),
            None => r matches Err(m) && m@ == no_target_message(*override_config),
        },
        r matches Ok(i) ==> i < nodes@.len(),
        target_node(nodes@, *override_config) matches Some(i) ==> 0 <= i < nodes@.len(),
{
    proof {
        if override_config.is_some() {
            lemma_first_named_in_range(nodes@, override_config.unwrap(), 0);
        }
    }
    match override_config {
        Some(config) => {
            let mut i: usize = 0;
            while i < nodes.len()
                invariant
                    i <= nodes@.len(),
                    first_named_from(nodes@, *config, 0) == first_named_from(nodes@, *config, i as int),
                    *override_config == Some(*config),
                decreases nodes.len() - i,
            {
                if same_text(nodes[i].node_id.as_str(), config.node_id.as_str()) && eq_ignore_case(
                    nodes[i].field_name.as_str(),
                    config.field_name.as_str(),
                ) {
                    assert(names_node(nodes@[i as int], *config));
                    assert(first_named_from(nodes@, *config, i as int) == Some(i as int));
                    return Ok(i);
                }
                i = i + 1;
            }
            let mut m = owned("高级节点配置未在 RunningHub 示例中找到：nodeId=");
            push_str(&mut m, config.node_id.as_str());
            push_str(&mut m, "，fieldName=");
            push_str(&mut m, config.field_name.as_str());
            push_str(&mut m, "。");
            Err(m)
        },
        None => match choose_video_node(nodes) {
            Some(i) => Ok(i),
            None => Err(owned("无法自动识别视频输入节点，请在设置中检测该工作流节点。")),
        },
    }
}

/// The node list of a run request: the demo's nodes with the uploaded file
/// name as the value of the node that receives the video.
pub open spec fn with_upload(nodes: Seq<NodeInfo>, i: int, uploaded: String) -> Seq<NodeInfo> {
    nodes.update(i, NodeInfo { field_value: uploaded, ..nodes[i] })
}

/// The node list of a run request, or the error when no node receives the
/// video.
pub fn configure_node_info(
    nodes: Vec<NodeInfo>,
    override_config: Option<ModelOverride>,
    uploaded_file_name: String,
) -> (r: Result<Vec<NodeInfo>, String>)
    ensures
        match target_node(nodes@, override_config) {
            Some(i) => r matches Ok(v) && v@ == with_upload(nodes@, i, uploaded_file_name),
            None => r matches Err(m) && m@ == no_target_message(override_config),
        },
{
    let mut nodes = nodes;
    let sl = nodes.as_slice();
    assert(sl@ == nodes@);
    let i = match select_target_node(sl, &override_config) {
        Ok(i) => i,
        Err(m) => {
            return Err(m);
        },
    };
    let ghost before = nodes@;
    let mut node = nodes.remove(i);
    node.field_value = uploaded_file_name;
    nodes.insert(i, node);
    assert(nodes@ =~= with_upload(before, i as int, uploaded_file_name));
    Ok(nodes)
}


// ---------------------------------------------------------------------------
// Video files
// ---------------------------------------------------------------------------

/// The extensions of the video files that can be submitted.
pub open spec fn supported_extension(e: Seq<char>) -> bool {
    e == "mp4"@ || e == "mov"@ || e == "avi"@ || e == "mkv"@ || e == "webm"@ || e == "m4v"@
}

pub open spec fn unsupported_message() -> Seq<char> {
    "仅支持 mp4、mov、avi、mkv、webm、m4v 视频文件。"@
}

pub open spec fn missing_file_message() -> Seq<char> {
    "视频文件不存在，请重新选择。"@
}

pub open spec fn folder_message() -> Seq<char> {
    "请选择一个视频文件，而不是文件夹。"@
}

/// Accepts a file extension (absent counts as empty) whose lower case is a
/// supported video extension.
pub fn check_video_extension(extension: Option<String>) -> (r: Result<(), String>)
    ensures
        r is Ok <==> supported_extension(unicode_lowercase(opt_text(extension))),
        r is Ok <==> supported_extension(lower_text(opt_text(extension))),
        r matches Err(m) ==> m@ == unsupported_message(),
{
    let e = match extension {
        Some(e) => e,
        None => String::new(),
    };
    let lower = lowercase(e.as_str());
    let l = lower.as_str();
    if same_text(l, "mp4") || same_text(l, "mov") || same_text(l, "avi") || same_text(l, "mkv")
        || same_text(l, "webm") || same_text(l, "m4v") {
        Ok(())
    } else {
        Err(owned("仅支持 mp4、mov、avi、mkv、webm、m4v 视频文件。"))
    }
}

/// The extension of a path as `Path::extension` gives it, empty when there
/// is none.
pub open spec fn path_extension_text(p: &Path) -> Seq<char> {
    match extension_text(p) {
        Some(e) => e,
        None => Seq::empty(),
    }
}

/// Accepts a path whose extension, lower-cased, is that of a supported video
/// file.
pub fn validate_video_extension(file_path: &Path) -> (r: Result<(), String>)
    ensures
        r is Ok <==> supported_extension(unicode_lowercase(path_extension_text(file_path))),
        r is Ok <==> supported_extension(lower_text(path_extension_text(file_path))),
        r matches Err(m) ==> m@ == unsupported_message(),
{
    check_video_extension(path_extension(file_path))
}

/// Accepts a video file to submit, given whether the path exists and
/// whether it is a file.
pub fn validate_video_file(file_path: &Path, exists: bool, is_file: bool) -> (r: Result<(), String>)
    ensures
        !exists ==> (r matches Err(m) && m@ == missing_file_message()),
        exists && !is_file ==> (r matches Err(m) && m@ == folder_message()),
        exists && is_file ==> (r is Ok <==> supported_extension(
            unicode_lowercase(path_extension_text(file_path)),
        )),
        exists && is_file ==> (r is Ok <==> supported_extension(lower_text(path_extension_text(file_path)))),
        exists && is_file && r is Err ==> (r matches Err(m) && m@ == unsupported_message()),
{
    if !exists {
        return Err(owned("视频文件不存在，请重新选择。"));
    }
    if !is_file {
        return Err(owned("请选择一个视频文件，而不是文件夹。"));
    }
    validate_video_extension(file_path)
}

// ---------------------------------------------------------------------------
// Polling
// ---------------------------------------------------------------------------

/// The progress shown after query `attempt` found the task still running:
/// 42% plus 0.4% a query, at most 94%.
pub open spec fn poll_progress_of(attempt: int) -> int {
    if 4200 + 40 * attempt <= 9400 {
        4200 + 40 * attempt
    } else {
        9400
    }
}

/// The progress after query `attempt`, in hundredths of a percent.
pub fn poll_progress(attempt: usize) -> (r: u32)
    ensures
        r == poll_progress_of(attempt as int),
{
    if attempt <= 130 {
        (4200 + 40 * attempt) as u32
    } else {
        9400
    }
}

/// Whether a queried status reports success, in any ASCII case.
pub fn query_succeeded(status: &str) -> (r: bool)
    ensures
        r == eq_ignore_ascii_case(status@, "SUCCESS"@),
{
    eq_ignore_case(status, "SUCCESS")
}

// ---------------------------------------------------------------------------
// Restart
// ---------------------------------------------------------------------------

/// What a restart does with a task found unfinished.
#[derive(Debug, Clone, PartialEq, Eq)]
pub enum RecoveryStep {
    /// RunningHub has the task: polling resumes.
    Resume { task_id: String, remote_task_id: String },
    /// The task never reached RunningHub: it is stopped, so that it is not
    /// paid twice.
    Abandon { task_id: String },
}

/// The step for one record: none for an ended task.
pub open spec fn recovery_step_of(r: TaskRecord) -> Option<RecoveryStep> {
    if !r.status.active() {
        None
    } else {
        match r.remote_task_id {
            Some(remote) => Some(RecoveryStep::Resume { task_id: r.task_id, remote_task_id: remote }),
            None => Some(RecoveryStep::Abandon { task_id: r.task_id }),
        }
    }
}

/// The steps of a restart, in the order of `records`.
pub fn recovery_plan(records: &[TaskRecord]) -> (r: Vec<RecoveryStep>)
    ensures
        r@ == records@.filter_map(|x: TaskRecord| recovery_step_of(x)),
{
    let mut out: Vec<RecoveryStep> = Vec::new();
    let mut i: usize = 0;
    while i < records.len()
        invariant
            i <= records@.len(),
            out@ == records@.take(i as int).filter_map(|x: TaskRecord| recovery_step_of(x)),
        decreases records.len() - i,
    {
        let rec = &records[i];
        assert(records@.take(i + 1).drop_last() == records@.take(i as int));
        assert(records@.take(i + 1).last() == records@[i as int]);
        if rec.status.is_active() {
            let step = match &rec.remote_task_id {
                Some(remote) => RecoveryStep::Resume {
                    task_id: rec.task_id.clone(),
                    remote_task_id: remote.clone(),
                },
                None => RecoveryStep::Abandon { task_id: rec.task_id.clone() },
            };
            let ghost before = out@;
            out.push(step);
            assert(out@ =~= before + seq![step]);
        }
        i = i + 1;
    }
    assert(records@.take(records@.len() as int) == records@);
    out
}

/// The error left on a task that a restart stopped.
pub open spec fn restart_message() -> Seq<char> {
    "应用重启前任务尚未提交到 RunningHub，已停止以避免重复扣费。"@
}

impl TaskBook {
    /// Stops a task that a restart found unsubmitted.
    pub fn abandon(&mut self, task_id: &str, now: String) -> (r: Option<TaskRecord>)
        ensures
            updated(old(self)@, final(self)@, task_id@, failed(old(self)@[task_id@], restart_message(), now@), r),
    {
        self.fail(task_id, owned("应用重启前任务尚未提交到 RunningHub，已停止以避免重复扣费。"), now)
    }
}

// ---------------------------------------------------------------------------
// Submission
// ---------------------------------------------------------------------------

/// The key under which a running submission is known: the workflow, the
/// file and the parameters.
pub fn cache_key(app_id: &str, file_path: &str, params: &str) -> (r: String)
    ensures
        r@ == app_id@ + ":"@ + file_path@ + ":"@ + params@,
{
    let mut k = owned(app_id);
    push_str(&mut k, ":");
    push_str(&mut k, file_path);
    push_str(&mut k, ":");
    push_str(&mut k, params);
    k
}

/// The refusal of a submission while no API key is saved.
pub open spec fn no_saved_key_message() -> Seq<char> {
    "请先在设置中保存 RunningHub API Key。"@
}

/// What a submission did.
#[derive(Debug, Clone, PartialEq, Eq)]
pub enum Submission {
    /// The same work is already running; its task id.
    Existing(String),
    /// A new task was recorded under this id.
    Started(String),
}

/// The reply to a submission under `key` of a task with id `id`.
pub open spec fn submission_reply(running: Map<Seq<char>, String>, key: Seq<char>, id: String) -> Submission {
    if running.contains_key(key) {
        Submission::Existing(running[key])
    } else {
        Submission::Started(id)
    }
}

/// The running submissions after a submission under `key` of a task with id
/// `id`.
pub open spec fn running_after(running: Map<Seq<char>, String>, key: Seq<char>, id: String) -> Map<
    Seq<char>,
    String,
> {
    if running.contains_key(key) {
        running
    } else {
        running.insert(key, id)
    }
}

/// The task records and the submissions still running.
pub struct TaskDesk {
    pub book: TaskBook,
    /// The task id of each running submission, by its key.
    pub running: TextMap<String>,
}

impl TaskDesk {
    /// No tasks and nothing running.
    pub fn new() -> (d: TaskDesk)
        ensures
            d.book@ == Map::<Seq<char>, TaskRecordView>::empty(),
            d.running@ == Map::<Seq<char>, String>::empty(),
    {
        TaskDesk { book: TaskBook::new(), running: TextMap::new() }
    }

    /// Submits `record` under `key`: when a submission with that key is still
    /// running its task id is returned and nothing changes; otherwise the
    /// record is stored and becomes the running submission of the key.
    pub fn submit(&mut self, key: String, record: TaskRecord) -> (r: Submission)
        ensures
            r == submission_reply(old(self).running@, key@, record.task_id),
            final(self).running@ == running_after(old(self).running@, key@, record.task_id),
            final(self).book@ == (if old(self).running@.contains_key(key@) {
                old(self).book@
            } else {
                old(self).book@.insert(record.task_id@, record@)
            }),
    {
        match self.running.get(key.as_str()) {
            Some(id) => Submission::Existing(id.clone()),
            None => {
                let id = record.task_id.clone();
                self.book.insert(record);
                self.running.insert(key, id.clone());
                Submission::Started(id)
            },
        }
    }

    /// Submits `record` under `key` once the checks before a submission have
    /// passed: `file_check` is the check of the video file, `key_stored`
    /// tells whether an API key is saved (or the error of finding out). A
    /// failed check is returned as it is, no saved key is refused, and in
    /// either case nothing changes; otherwise the submission goes on as
    /// `submit` does.
    pub fn submit_checked(
        &mut self,
        file_check: Result<(), String>,
        key_stored: Result<bool, String>,
        key: String,
        record: TaskRecord,
    ) -> (r: Result<Submission, String>)
        ensures
            match (file_check, key_stored) {
                (Err(e), _) => r == Err::<Submission, String>(e),
                (Ok(()), Err(e)) => r == Err::<Submission, String>(e),
                (Ok(()), Ok(false)) => r matches Err(m) && m@ == no_saved_key_message(),
                (Ok(()), Ok(true)) => r == Ok::<Submission, String>(
                    submission_reply(old(self).running@, key@, record.task_id),
                ),
            },
            r is Err ==> final(self).book@ == old(self).book@ && final(self).running@ == old(self).running@,
            r is Ok ==> {
                &&& final(self).running@ == running_after(old(self).running@, key@, record.task_id)
                &&& final(self).book@ == (if old(self).running@.contains_key(key@) {
                    old(self).book@
                } else {
                    old(self).book@.insert(record.task_id@, record@)
                })
            },
    {
        match file_check {
            Err(e) => {
                return Err(e);
            },
            Ok(()) => {},
        }
        match key_stored {
            Err(e) => Err(e),
            Ok(false) => Err(owned("请先在设置中保存 RunningHub API Key。")),
            Ok(true) => Ok(self.submit(key, record)),
        }
    }

    /// Forgets the running submission under `key`, when its work has ended.
    pub fn release(&mut self, key: &str)
        ensures
            final(self).running@ == old(self).running@.remove(key@),
            final(self).book@ == old(self).book@,
    {
        self.running.remove(key);
    }
}


// ---------------------------------------------------------------------------
// Laws
// ---------------------------------------------------------------------------

/// Canceling ends a task.
pub proof fn law_cancel_ends_task(o: TaskRecordView, now: Seq<char>)
    ensures
        canceled(o, now).status.terminal(),
{
}

/// Canceling a task that has already ended keeps its outcome: only the
/// update time changes.
pub proof fn law_cancel_keeps_outcome(o: TaskRecordView, now: Seq<char>)
    requires
        o.status.terminal(),
    ensures
        canceled(o, now) == (TaskRecordView { updated_at: now, ..o }),
{
}

/// Canceling twice is canceling once.
pub proof fn law_cancel_twice(o: TaskRecordView, t1: Seq<char>, t2: Seq<char>)
    ensures
        canceled(canceled(o, t1), t2) == canceled(o, t2),
{
}

/// Failing and completing end a task at full progress; a completed task
/// has no error and its save path is the first of its files.
pub proof fn law_outcomes_end_task(o: TaskRecordView, error: Seq<char>, paths: Seq<Seq<char>>, now: Seq<char>)
    ensures
        failed(o, error, now).status.terminal(),
        failed(o, error, now).progress == PROGRESS_FULL,
        failed(o, error, now).error == Some(error),
        completed(o, paths, now).status.terminal(),
        completed(o, paths, now).progress == PROGRESS_FULL,
        completed(o, paths, now).error is None,
        paths.len() > 0 ==> completed(o, paths, now).save_path == Some(paths[0]),
{
}

/// Progress never exceeds full, whatever a step reports.
pub proof fn law_progress_is_capped(o: TaskRecordView, status: TaskStatus, progress: u32, now: Seq<char>)
    ensures
        progressed(o, status, progress, now).progress <= PROGRESS_FULL,
        progress <= PROGRESS_FULL ==> progressed(o, status, progress, now).progress == progress,
{
}

/// Clearing the history keeps every task that has not ended, unchanged,
/// and drops every task that has.
pub proof fn law_clear_keeps_unfinished(m: Map<Seq<char>, TaskRecordView>, id: Seq<char>)
    ensures
        m.contains_key(id) && !m[id].status.terminal() ==> unfinished(m).contains_key(id)
            && unfinished(m)[id] == m[id],
        m.contains_key(id) && m[id].status.terminal() ==> !unfinished(m).contains_key(id),
        unfinished(m).contains_key(id) ==> m.contains_key(id),
{
}

/// Clearing the history twice is clearing it once.
pub proof fn law_clear_twice(m: Map<Seq<char>, TaskRecordView>)
    ensures
        unfinished(unfinished(m)) == unfinished(m),
{
    assert(unfinished(unfinished(m)) =~= unfinished(m));
}

/// Submitting the same work again while it runs returns the running task
/// and changes nothing; once released, the work can be submitted anew.
pub proof fn law_resubmission_returns_running_task(
    running: Map<Seq<char>, String>,
    key: Seq<char>,
    first: String,
    second: String,
)
    requires
        !running.contains_key(key),
    ensures
        submission_reply(running, key, first) == Submission::Started(first),
        submission_reply(running_after(running, key, first), key, second) == Submission::Existing(first),
        running_after(running_after(running, key, first), key, second) == running_after(running, key, first),
        submission_reply(running_after(running, key, first).remove(key), key, second)
            == Submission::Started(second),
{
    assert(running_after(running, key, first).remove(key) =~= running);
}

/// A restart resumes exactly the unfinished tasks that RunningHub knows and
/// stops the other unfinished ones; ended tasks are left alone.
pub proof fn law_restart_steps(r: TaskRecord)
    ensures
        r.status.terminal() ==> recovery_step_of(r) is None,
        !r.status.terminal() && r.remote_task_id is Some ==> recovery_step_of(r) == Some(
            RecoveryStep::Resume { task_id: r.task_id, remote_task_id: r.remote_task_id->0 },
        ),
        !r.status.terminal() && r.remote_task_id is None ==> recovery_step_of(r) == Some(
            RecoveryStep::Abandon { task_id: r.task_id },
        ),
{
}


/// A node chosen through an override carries the override's node id and a
/// field name equal to the override's up to ASCII case, and is the first
/// such node; when no node carries them, none is chosen.
pub proof fn law_override_names_the_node(nodes: Seq<NodeInfo>, c: ModelOverride)
    ensures
        target_node(nodes, Some(c)) matches Some(i) ==> {
            &&& 0 <= i < nodes.len()
            &&& nodes[i].node_id@ == c.node_id@
            &&& eq_ignore_ascii_case(nodes[i].field_name@, c.field_name@)
            &&& forall|j: int|
                0 <= j < i ==> !(nodes[j].node_id@ == c.node_id@ && eq_ignore_ascii_case(
                    #[trigger] nodes[j].field_name@,
                    c.field_name@,
                ))
        },
        target_node(nodes, Some(c)) is None ==> forall|j: int|
            0 <= j < nodes.len() ==> !(nodes[j].node_id@ == c.node_id@ && eq_ignore_ascii_case(
                #[trigger] nodes[j].field_name@,
                c.field_name@,
            )),
{
    lemma_first_named_facts(nodes, c, 0);
}

proof fn lemma_first_named_facts(nodes: Seq<NodeInfo>, c: ModelOverride, i: int)
    requires
        0 <= i,
    ensures
        first_named_from(nodes, c, i) matches Some(j) ==> {
            &&& i <= j < nodes.len()
            &&& nodes[j].node_id@ == c.node_id@
            &&& eq_ignore_ascii_case(nodes[j].field_name@, c.field_name@)
            &&& forall|t: int|
                i <= t < j ==> !(nodes[t].node_id@ == c.node_id@ && eq_ignore_ascii_case(
                    #[trigger] nodes[t].field_name@,
                    c.field_name@,
                ))
        },
        first_named_from(nodes, c, i) is None ==> forall|t: int|
            i <= t < nodes.len() ==> !(nodes[t].node_id@ == c.node_id@ && eq_ignore_ascii_case(
                #[trigger] nodes[t].field_name@,
                c.field_name@,
            )),
    decreases nodes.len() - i,
{
    if i < nodes.len() && !names_node(nodes[i], c) {
        lemma_first_named_facts(nodes, c, i + 1);
    }
}

/// The extensions listed in the refusal message.
pub open spec fn listed_extensions() -> Seq<Seq<char>> {
    seq!["mp4"@, "mov"@, "avi"@, "mkv"@, "webm"@, "m4v"@]
}

/// The extensions accepted are exactly those that the refusal message
/// names, and their case does not matter: an ASCII extension is accepted
/// exactly when its lower case is one of them.
pub proof fn law_accepted_extensions_are_those_listed(e: Seq<char>)
    ensures
        unsupported_message() == "仅支持 "@ + listed_extensions()[0] + "、"@ + listed_extensions()[1]
            + "、"@ + listed_extensions()[2] + "、"@ + listed_extensions()[3] + "、"@
            + listed_extensions()[4] + "、"@ + listed_extensions()[5] + " 视频文件。"@,
        supported_extension(e) <==> exists|i: int| 0 <= i < 6 && listed_extensions()[i] == e,
        is_ascii_text(e) ==> (supported_extension(lower_text(e)) <==> exists|i: int|
            0 <= i < 6 && listed_extensions()[i] == e.map_values(|c: char| ascii_lower(c))),
{
    reveal_strlit("仅支持 mp4、mov、avi、mkv、webm、m4v 视频文件。");
    reveal_strlit("仅支持 ");
    reveal_strlit("、");
    reveal_strlit(" 视频文件。");
    reveal_strlit("mp4");
    reveal_strlit("mov");
    reveal_strlit("avi");
    reveal_strlit("mkv");
    reveal_strlit("webm");
    reveal_strlit("m4v");
    assert(unsupported_message() =~= "仅支持 "@ + listed_extensions()[0] + "、"@ + listed_extensions()[1]
        + "、"@ + listed_extensions()[2] + "、"@ + listed_extensions()[3] + "、"@
        + listed_extensions()[4] + "、"@ + listed_extensions()[5] + " 视频文件。"@);
    if supported_extension(e) {
        if e == "mp4"@ {
            assert(listed_extensions()[0] == e);
        } else if e == "mov"@ {
            assert(listed_extensions()[1] == e);
        } else if e == "avi"@ {
            assert(listed_extensions()[2] == e);
        } else if e == "mkv"@ {
            assert(listed_extensions()[3] == e);
        } else if e == "webm"@ {
            assert(listed_extensions()[4] == e);
        } else {
            assert(listed_extensions()[5] == e);
        }
    }
    if is_ascii_text(e) {
        let l = e.map_values(|c: char| ascii_lower(c));
        if supported_extension(l) {
            if l == "mp4"@ {
                assert(listed_extensions()[0] == l);
            } else if l == "mov"@ {
                assert(listed_extensions()[1] == l);
            } else if l == "avi"@ {
                assert(listed_extensions()[2] == l);
            } else if l == "mkv"@ {
                assert(listed_extensions()[3] == l);
            } else if l == "webm"@ {
                assert(listed_extensions()[4] == l);
            } else {
                assert(listed_extensions()[5] == l);
            }
        }
    }
}
} // verus!
