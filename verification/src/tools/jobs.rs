//! Background command jobs: the bookkeeping behind spawn-and-forget shell
//! processes with status polling, bounded lifetimes and orphan hygiene.
//!
//! Processes, log files and the ledger on disk are driven by the host; this
//! module decides what each of those steps records and reports.

use vstd::prelude::*;
use crate::text::{
    chars_of, decimal, i64_decimal, push_all, push_range, push_str, signed_decimal, str_eq, string_of,
    u64_decimal,
};

verus! {

/// `job_status` `wait_seconds` is clamped to this bound.
pub const MAX_WAIT_SECONDS: u64 = 30;

/// Output chunk cap per `job_status` call.
pub const MAX_STATUS_OUTPUT_CHARS: u64 = 20000;

/// Days a job log is kept before the sweep removes it.
pub const LOG_RETENTION_DAYS: u64 = 7;

/// Characters of a command shown in status listings.
pub const COMMAND_PREVIEW_CHARS: usize = 200;

/// Lifecycle of a background job.
#[derive(Clone, Copy, Debug, PartialEq, Eq, Structural)]
pub enum JobState {
    Running,
    Exited { code: Option<i32> },
    TimedOut,
    Stopped,
}

pub open spec fn is_terminal_spec(s: JobState) -> bool {
    !(s is Running)
}

pub open spec fn label_spec(s: JobState) -> Seq<char> {
    match s {
        JobState::Running => "running"@,
        JobState::Exited { code: Some(c) } => "exited("@ + signed_decimal(c as int) + ")"@,
        JobState::Exited { code: None } => "exited(signal)"@,
        JobState::TimedOut => "timed_out"@,
        JobState::Stopped => "stopped"@,
    }
}

/// The exit code a completion reports for a final state.
pub open spec fn exit_code_spec(s: JobState) -> Option<i32> {
    match s {
        JobState::Exited { code } => code,
        _ => None,
    }
}

impl JobState {
    /// The status word shown to the model.
    pub fn label(&self) -> (r: String)
        ensures
            r@ == label_spec(*self),
    {
        let mut v: Vec<char> = Vec::new();
        match *self {
            JobState::Running => push_str(&mut v, "running"),
            JobState::Exited { code: Some(c) } => {
                push_str(&mut v, "exited(");
                let d = i64_decimal(c as i64);
                push_all(&mut v, &d);
                push_str(&mut v, ")");
            },
            JobState::Exited { code: None } => push_str(&mut v, "exited(signal)"),
            JobState::TimedOut => push_str(&mut v, "timed_out"),
            JobState::Stopped => push_str(&mut v, "stopped"),
        }
        string_of(&v)
    }

    /// Every state but `Running` is final.
    pub fn is_terminal(&self) -> (r: bool)
        ensures
            r == is_terminal_spec(*self),
    {
        !matches!(*self, JobState::Running)
    }
}

/// A command as status listings show it: its first characters, with an
/// ellipsis when something was cut.
pub open spec fn truncate_command_spec(c: Seq<char>) -> Seq<char> {
    if c.len() > COMMAND_PREVIEW_CHARS {
        c.take(COMMAND_PREVIEW_CHARS as int).push('…')
    } else {
        c
    }
}

pub fn truncate_command(command: &str) -> (r: String)
    ensures
        r@ == truncate_command_spec(command@),
{
    let v = chars_of(command);
    if v.len() > COMMAND_PREVIEW_CHARS {
        let mut out: Vec<char> = Vec::new();
        push_range(&mut out, &v, 0, COMMAND_PREVIEW_CHARS);
        out.push('…');
        proof {
            assert(out@ =~= command@.take(COMMAND_PREVIEW_CHARS as int).push('…'));
        }
        string_of(&out)
    } else {
        string_of(&v)
    }
}

/// The seconds a status call may block: the request, 0 when absent, at most
/// `MAX_WAIT_SECONDS`.
pub fn status_wait_seconds(requested: Option<u64>) -> (r: u64)
    ensures
        r == match requested {
            Some(w) => if w < MAX_WAIT_SECONDS { w } else { MAX_WAIT_SECONDS },
            None => 0,
        },
{
    match requested {
        Some(w) => if w < MAX_WAIT_SECONDS { w } else { MAX_WAIT_SECONDS },
        None => 0,
    }
}

/// The byte window of a log of `size` bytes that one status call returns
/// from `offset`: `(start, end, truncated)`.
pub fn log_slice_bounds(size: u64, offset: u64) -> (r: (u64, u64, bool))
    ensures
        r.0 == if offset < size { offset } else { size },
        r.2 == (size - r.0 > MAX_STATUS_OUTPUT_CHARS),
        r.1 == if r.2 { r.0 + MAX_STATUS_OUTPUT_CHARS } else { size as int },
        r.0 <= r.1 <= size,
{
    let start = if offset < size { offset } else { size };
    if size - start > MAX_STATUS_OUTPUT_CHARS {
        (start, start + MAX_STATUS_OUTPUT_CHARS, true)
    } else {
        (start, size, false)
    }
}

/// One `job_status` read of a job log: the text of the byte window, where
/// the next read starts, the log's size and whether the window was cut.
pub struct LogSlice {
    pub content: String,
    pub next_offset: u64,
    pub size: u64,
    pub truncated: bool,
}

/// The byte window `(start, end, truncated)` of a log of `size` bytes read
/// from `offset`.
pub open spec fn log_window(size: u64, offset: u64) -> (u64, u64, bool) {
    let start = if offset < size { offset } else { size };
    if size - start > MAX_STATUS_OUTPUT_CHARS {
        (start, (start + MAX_STATUS_OUTPUT_CHARS) as u64, true)
    } else {
        (start, size, false)
    }
}

/// What a status call reports from the log as read from disk (`None` when
/// it could not be read): nothing, and the offset unchanged, for a missing
/// log; else the window from `offset`, decoded leniently.
pub fn read_log_slice(log: Option<Vec<u8>>, offset: u64) -> (r: LogSlice)
    ensures
        match log {
            None => r.content@ == Seq::<char>::empty() && r.next_offset == offset && r.size == 0
                && !r.truncated,
            Some(b) => {
                let w = log_window(b@.len() as u64, offset);
                &&& r.content@ == crate::text::utf8_lossy(b@.subrange(w.0 as int, w.1 as int))
                &&& r.next_offset == w.1
                &&& r.size == b@.len()
                &&& r.truncated == w.2
            },
        },
{
    match log {
        None => LogSlice { content: String::new(), next_offset: offset, size: 0, truncated: false },
        Some(b) => {
            let size = b.len() as u64;
            assert(size == b@.len());
            let (start, end, truncated) = log_slice_bounds(size, offset);
            let window = vstd::slice::slice_subrange(b.as_slice(), start as usize, end as usize);
            let content = crate::text::from_utf8_lossy(window);
            LogSlice { content, next_offset: end, size, truncated }
        },
    }
}

pub open spec fn capacity_message(running: nat, limit: nat) -> Seq<char> {
    "已有 "@ + decimal(running) + " 个后台任务在运行（上限 "@ + decimal(limit)
        + "）；先用 job_status 检查并用 job_stop 结束不需要的任务"@
}

/// Whether one more job may start while `running` jobs run under `limit`.
pub fn check_capacity(running: usize, limit: usize) -> (r: Result<(), String>)
    ensures
        r is Ok <==> running < limit,
        r matches Err(m) ==> m@ == capacity_message(running as nat, limit as nat),
{
    if running < limit {
        return Ok(());
    }
    let mut v: Vec<char> = Vec::new();
    push_str(&mut v, "已有 ");
    let a = u64_decimal(running as u64);
    push_all(&mut v, &a);
    push_str(&mut v, " 个后台任务在运行（上限 ");
    let b = u64_decimal(limit as u64);
    push_all(&mut v, &b);
    push_str(&mut v, "）；先用 job_status 检查并用 job_stop 结束不需要的任务");
    Err(string_of(&v))
}

/// Where the host keeps job logs and the ledger of running jobs.
pub struct JobPaths {
    pub cache_dir: String,
    pub runtime_dir: String,
}

/// `base` joined with the relative component `part`.
pub open spec fn join_path(base: Seq<char>, part: Seq<char>) -> Seq<char> {
    if base.len() == 0 {
        part
    } else if base.last() == '/' {
        base + part
    } else {
        base + "/"@ + part
    }
}

fn join(base: &String, part: &str) -> (r: String)
    ensures
        r@ == join_path(base@, part@),
{
    let b = chars_of(base.as_str());
    let mut v: Vec<char> = Vec::new();
    if b.len() == 0 {
        push_str(&mut v, part);
    } else if b[b.len() - 1] == '/' {
        push_all(&mut v, &b);
        push_str(&mut v, part);
    } else {
        push_all(&mut v, &b);
        push_str(&mut v, "/");
        push_str(&mut v, part);
    }
    string_of(&v)
}

/// Directory of the per-job log files.
pub fn logs_dir(paths: &JobPaths) -> (r: String)
    ensures
        r@ == join_path(paths.cache_dir@, "jobs"@),
{
    join(&paths.cache_dir, "jobs")
}

/// The ledger of running jobs, read by the next process after a crash.
pub fn ledger_path(paths: &JobPaths) -> (r: String)
    ensures
        r@ == join_path(paths.runtime_dir@, "background-jobs.json"@),
{
    join(&paths.runtime_dir, "background-jobs.json")
}

fn copy_string_opt(o: &Option<String>) -> (r: Option<String>)
    ensures
        r == *o,
{
    match o {
        Some(s) => Some(s.clone()),
        None => None,
    }
}

impl JobPaths {
    pub fn copy(&self) -> (r: JobPaths)
        ensures
            r == *self,
    {
        JobPaths { cache_dir: self.cache_dir.clone(), runtime_dir: self.runtime_dir.clone() }
    }
}

/// Limits the host set up once per process.
pub struct JobHost {
    pub paths: JobPaths,
    /// Most jobs running at once (at least 1).
    pub limit: usize,
    /// Seconds after which a job is timed out (at least a minute).
    pub max_runtime_seconds: u64,
}

/// One job as the table keeps it. Times are milliseconds on the host's
/// monotonic clock, except `started_unix` (wall-clock seconds).
pub struct JobEntry {
    pub job_id: String,
    pub command: String,
    pub workspace: String,
    pub session_id: Option<String>,
    pub pid: u32,
    pub started_unix: u64,
    pub started_millis: u64,
    pub finished_millis: Option<u64>,
    pub log_path: String,
    pub state: JobState,
}

impl JobEntry {
    pub fn copy(&self) -> (r: JobEntry)
        ensures
            r == *self,
    {
        JobEntry {
            job_id: self.job_id.clone(),
            command: self.command.clone(),
            workspace: self.workspace.clone(),
            session_id: copy_string_opt(&self.session_id),
            pid: self.pid,
            started_unix: self.started_unix,
            started_millis: self.started_millis,
            finished_millis: self.finished_millis,
            log_path: self.log_path.clone(),
            state: self.state,
        }
    }
}

/// Completion details handed to the host hook (daemon: model wake-up).
pub struct JobCompletion {
    pub job_id: String,
    pub command: String,
    pub workspace: String,
    pub session_id: Option<String>,
    pub state_label: String,
    pub exit_code: Option<i32>,
    pub runtime_seconds: u64,
    pub log_path: String,
}

/// Whole seconds between two monotonic instants, 0 if `now` is earlier.
pub open spec fn elapsed_seconds(started: u64, now: u64) -> u64 {
    if now >= started {
        ((now - started) / 1000) as u64
    } else {
        0
    }
}

/// `c` reports `e` finishing in `state` at `now`.
pub open spec fn completion_of(c: JobCompletion, e: JobEntry, state: JobState, now: u64) -> bool {
    &&& c.job_id == e.job_id
    &&& c.command == e.command
    &&& c.workspace == e.workspace
    &&& c.session_id == e.session_id
    &&& c.state_label@ == label_spec(state)
    &&& c.exit_code == exit_code_spec(state)
    &&& c.runtime_seconds == elapsed_seconds(e.started_millis, now)
    &&& c.log_path == e.log_path
}

/// `e` after finishing in `state` at `now`.
pub open spec fn finished_entry(e: JobEntry, state: JobState, now: u64) -> JobEntry {
    JobEntry { state: state, finished_millis: Some(now), ..e }
}

/// No two jobs share an id.
pub open spec fn ids_unique(jobs: Seq<JobEntry>) -> bool {
    forall|i: int, j: int|
        0 <= i < jobs.len() && 0 <= j < jobs.len() && i != j ==> #[trigger] jobs[i].job_id@
            != #[trigger] jobs[j].job_id@
}

/// The position of the job with this id.
pub open spec fn job_at(jobs: Seq<JobEntry>, id: Seq<char>) -> Option<int> {
    if exists|i: int| 0 <= i < jobs.len() && #[trigger] jobs[i].job_id@ == id {
        Some(choose|i: int| 0 <= i < jobs.len() && #[trigger] jobs[i].job_id@ == id)
    } else {
        None
    }
}

/// The table after the job `id` finishes in `state` at `now`: a job that
/// already finished, or an unknown id, leaves it as it was.
pub open spec fn finalize_spec(jobs: Seq<JobEntry>, id: Seq<char>, state: JobState, now: u64) -> Seq<
    JobEntry,
> {
    match job_at(jobs, id) {
        Some(i) => if is_terminal_spec(jobs[i].state) {
            jobs
        } else {
            jobs.update(i, finished_entry(jobs[i], state, now))
        },
        None => jobs,
    }
}

/// Whether finishing `id` changes the table.
pub open spec fn finalize_applies(jobs: Seq<JobEntry>, id: Seq<char>) -> bool {
    match job_at(jobs, id) {
        Some(i) => !is_terminal_spec(jobs[i].state),
        None => false,
    }
}

/// The table after recording `e`, which replaces a job of the same id.
pub open spec fn insert_spec(jobs: Seq<JobEntry>, e: JobEntry) -> Seq<JobEntry> {
    match job_at(jobs, e.job_id@) {
        Some(i) => jobs.update(i, e),
        None => jobs.push(e),
    }
}

/// The process-wide job state: the table, the host set by `init`, and the
/// completion hook.
pub struct JobRuntime<H> {
    jobs: Vec<JobEntry>,
    host: Option<JobHost>,
    hook: Option<H>,
}

impl<H> JobRuntime<H> {
    pub closed spec fn jobs_spec(&self) -> Seq<JobEntry> {
        self.jobs@
    }

    pub closed spec fn host_spec(&self) -> Option<JobHost> {
        self.host
    }

    pub closed spec fn hook_spec(&self) -> Option<H> {
        self.hook
    }

    pub open spec fn wf(&self) -> bool {
        ids_unique(self.jobs_spec())
    }

    pub fn new() -> (r: Self)
        ensures
            r.wf(),
            r.jobs_spec() == Seq::<JobEntry>::empty(),
            r.host_spec() is None,
            r.hook_spec() is None,
    {
        JobRuntime { jobs: Vec::new(), host: None, hook: None }
    }

    /// All jobs, in the order they were first recorded.
    pub fn jobs(&self) -> (r: &Vec<JobEntry>)
        ensures
            r@ == self.jobs_spec(),
    {
        &self.jobs
    }

    /// The host limits, once `init` ran.
    pub fn host(&self) -> (r: Option<&JobHost>)
        ensures
            r == match self.host_spec() {
                Some(h) => Some(&h),
                None => None::<&JobHost>,
            },
    {
        match &self.host {
            Some(h) => Some(h),
            None => None,
        }
    }

    /// The installed completion hook.
    pub fn completion_hook(&self) -> (r: Option<&H>)
        ensures
            r == match self.hook_spec() {
                Some(h) => Some(&h),
                None => None::<&H>,
            },
    {
        match &self.hook {
            Some(h) => Some(h),
            None => None,
        }
    }
}

fn find_job(jobs: &Vec<JobEntry>, id: &str) -> (r: Option<usize>)
    requires
        ids_unique(jobs@),
    ensures
        r matches Some(i) ==> job_at(jobs@, id@) == Some(i as int) && i < jobs@.len(),
        r is None ==> job_at(jobs@, id@) is None,
{
    let mut i: usize = 0;
    while i < jobs.len()
        invariant
            i <= jobs@.len(),
            ids_unique(jobs@),
            forall|k: int| 0 <= k < i ==> #[trigger] jobs@[k].job_id@ != id@,
        decreases jobs.len() - i,
    {
        if str_eq(jobs[i].job_id.as_str(), id) {
            proof {
                let j = choose|j: int| 0 <= j < jobs@.len() && #[trigger] jobs@[j].job_id@ == id@;
                assert(jobs@[i as int].job_id@ == id@);
                assert(j == i);
            }
            return Some(i);
        }
        i = i + 1;
    }
    None
}

/// Installs the completion hook, replacing any earlier one.
pub fn set_completion_hook<H>(runtime: &mut JobRuntime<H>, hook: H)
    ensures
        final(runtime).hook_spec() == Some(hook),
        final(runtime).jobs_spec() == old(runtime).jobs_spec(),
        final(runtime).host_spec() == old(runtime).host_spec(),
{
    runtime.hook = Some(hook);
}

/// The limits `init` records: at least one job, at least a minute.
pub open spec fn host_spec_for(paths: JobPaths, limit: usize, max_runtime_minutes: u64) -> JobHost {
    JobHost {
        paths: paths,
        limit: if limit < 1 { 1 } else { limit },
        max_runtime_seconds: ((if max_runtime_minutes < 1 { 1 } else { max_runtime_minutes }) * 60) as u64,
    }
}

/// One-time host set-up: the first call records paths and limits, later
/// calls change nothing.
pub fn init<H>(runtime: &mut JobRuntime<H>, paths: &JobPaths, limit: usize, max_runtime_minutes: u64)
    requires
        max_runtime_minutes <= u64::MAX / 60,
    ensures
        final(runtime).host_spec() == match old(runtime).host_spec() {
            Some(h) => Some(h),
            None => Some(host_spec_for(*paths, limit, max_runtime_minutes)),
        },
        final(runtime).jobs_spec() == old(runtime).jobs_spec(),
        final(runtime).hook_spec() == old(runtime).hook_spec(),
{
    if runtime.host.is_some() {
        return;
    }
    let minutes = if max_runtime_minutes < 1 { 1 } else { max_runtime_minutes };
    runtime.host = Some(JobHost {
        paths: paths.copy(),
        limit: if limit < 1 { 1 } else { limit },
        max_runtime_seconds: minutes * 60,
    });
}

/// The host limits, or the error a caller reports before `init` ran.
pub fn require_host<H>(runtime: &JobRuntime<H>) -> (r: Result<&JobHost, String>)
    ensures
        match runtime.host_spec() {
            Some(h) => r == Ok::<&JobHost, String>(&h),
            None => r matches Err(m) && m@
                == "background jobs are not initialized in this process"@,
        },
{
    match runtime.host() {
        Some(h) => Ok(h),
        None => {
            let mut v: Vec<char> = Vec::new();
            push_str(&mut v, "background jobs are not initialized in this process");
            Err(string_of(&v))
        },
    }
}

impl<H> JobRuntime<H> {
    /// Records a job, replacing one with the same id.
    pub fn insert_job(&mut self, entry: JobEntry)
        requires
            old(self).wf(),
        ensures
            final(self).wf(),
            final(self).jobs_spec() == insert_spec(old(self).jobs_spec(), entry),
            final(self).host_spec() == old(self).host_spec(),
            final(self).hook_spec() == old(self).hook_spec(),
    {
        let ghost old_jobs = self.jobs@;
        match find_job(&self.jobs, entry.job_id.as_str()) {
            Some(i) => {
                self.jobs.set(i, entry);
                proof {
                    assert forall|a: int, b: int|
                        0 <= a < self.jobs@.len() && 0 <= b < self.jobs@.len() && a != b implies
                        #[trigger] self.jobs@[a].job_id@ != #[trigger] self.jobs@[b].job_id@ by {
                        if a != i && b != i {
                            assert(old_jobs[a].job_id@ != old_jobs[b].job_id@);
                        }
                    }
                }
            },
            None => {
                let ghost e = entry;
                self.jobs.push(entry);
                proof {
                    assert forall|a: int, b: int|
                        0 <= a < self.jobs@.len() && 0 <= b < self.jobs@.len() && a != b implies
                        #[trigger] self.jobs@[a].job_id@ != #[trigger] self.jobs@[b].job_id@ by {
                        if a < old_jobs.len() && b < old_jobs.len() {
                            assert(old_jobs[a].job_id@ != old_jobs[b].job_id@);
                        } else if a < old_jobs.len() {
                            assert(old_jobs[a].job_id@ != e.job_id@);
                        } else {
                            assert(old_jobs[b].job_id@ != e.job_id@);
                        }
                    }
                }
            },
        }
    }

    /// A copy of the job with this id.
    pub fn job_snapshot(&self, job_id: &str) -> (r: Option<JobEntry>)
        requires
            self.wf(),
        ensures
            r == match job_at(self.jobs_spec(), job_id@) {
                Some(i) => Some(self.jobs_spec()[i]),
                None => None::<JobEntry>,
            },
    {
        match find_job(&self.jobs, job_id) {
            Some(i) => Some(self.jobs[i].copy()),
            None => None,
        }
    }

    /// Marks a running job finished in `state` at `now_millis`. Returns the
    /// completion to hand to the hook when `fire_hook` is set and the job was
    /// still running; a job that already finished is left as it was, so a
    /// job completes at most once.
    pub fn finalize_job(&mut self, job_id: &str, state: JobState, now_millis: u64, fire_hook: bool) -> (r:
        Option<JobCompletion>)
        requires
            old(self).wf(),
        ensures
            final(self).wf(),
            final(self).jobs_spec() == finalize_spec(old(self).jobs_spec(), job_id@, state, now_millis),
            final(self).host_spec() == old(self).host_spec(),
            final(self).hook_spec() == old(self).hook_spec(),
            r is Some <==> fire_hook && finalize_applies(old(self).jobs_spec(), job_id@),
            r matches Some(c) ==> completion_of(
                c,
                old(self).jobs_spec()[job_at(old(self).jobs_spec(), job_id@)->0],
                state,
                now_millis,
            ),
    {
        let ghost old_jobs = self.jobs@;
        let i = match find_job(&self.jobs, job_id) {
            Some(i) => i,
            None => return None,
        };
        if self.jobs[i].state.is_terminal() {
            return None;
        }
        let e = self.jobs[i].copy();
        let runtime_seconds = if now_millis >= e.started_millis {
            (now_millis - e.started_millis) / 1000
        } else {
            0
        };
        let exit_code = match state {
            JobState::Exited { code } => code,
            _ => None,
        };
        let completion = JobCompletion {
            job_id: e.job_id.clone(),
            command: e.command.clone(),
            workspace: e.workspace.clone(),
            session_id: copy_string_opt(&e.session_id),
            state_label: state.label(),
            exit_code: exit_code,
            runtime_seconds: runtime_seconds,
            log_path: e.log_path.clone(),
        };
        let updated = JobEntry { state: state, finished_millis: Some(now_millis), ..e };
        self.jobs.set(i, updated);
        proof {
            assert(self.jobs@ =~= old_jobs.update(i as int, finished_entry(old_jobs[i as int], state, now_millis)));
            assert forall|a: int, b: int|
                0 <= a < self.jobs@.len() && 0 <= b < self.jobs@.len() && a != b implies
                #[trigger] self.jobs@[a].job_id@ != #[trigger] self.jobs@[b].job_id@ by {
                assert(old_jobs[a].job_id@ != old_jobs[b].job_id@);
            }
        }
        if fire_hook {
            Some(completion)
        } else {
            None
        }
    }
}

/// Ids of running jobs, as the ledger on disk records them.
pub struct LedgerEntry {
    pub owner_pid: u32,
    pub pid: u32,
    pub job_id: String,
    pub started_unix: u64,
}

impl LedgerEntry {
    pub fn copy(&self) -> (r: LedgerEntry)
        ensures
            r == *self,
    {
        LedgerEntry {
            owner_pid: self.owner_pid,
            pid: self.pid,
            job_id: self.job_id.clone(),
            started_unix: self.started_unix,
        }
    }
}

/// The running jobs among the first `n` of `jobs`, in order.
pub open spec fn running_prefix(jobs: Seq<JobEntry>, n: int) -> Seq<JobEntry>
    decreases n,
{
    if n <= 0 {
        Seq::empty()
    } else if jobs[n - 1].state is Running {
        running_prefix(jobs, n - 1).push(jobs[n - 1])
    } else {
        running_prefix(jobs, n - 1)
    }
}

pub open spec fn running_jobs(jobs: Seq<JobEntry>) -> Seq<JobEntry> {
    running_prefix(jobs, jobs.len() as int)
}

/// The ledger line of a running job owned by `owner_pid`.
pub open spec fn ledger_line(owner_pid: u32, e: JobEntry) -> LedgerEntry {
    LedgerEntry { owner_pid: owner_pid, pid: e.pid, job_id: e.job_id, started_unix: e.started_unix }
}

pub proof fn lemma_running_prefix_len(jobs: Seq<JobEntry>, n: int)
    ensures
        running_prefix(jobs, n).len() <= if n < 0 { 0 } else { n },
    decreases n,
{
    if n > 0 {
        lemma_running_prefix_len(jobs, n - 1);
    }
}

impl<H> JobRuntime<H> {
    /// How many jobs are running.
    pub fn running_count(&self) -> (r: usize)
        ensures
            r == running_jobs(self.jobs_spec()).len(),
    {
        let mut count: usize = 0;
        let mut i: usize = 0;
        while i < self.jobs.len()
            invariant
                i <= self.jobs@.len(),
                count == running_prefix(self.jobs@, i as int).len(),
            decreases self.jobs.len() - i,
        {
            proof {
                lemma_running_prefix_len(self.jobs@, i as int);
            }
            if matches!(self.jobs[i].state, JobState::Running) {
                count = count + 1;
            }
            i = i + 1;
        }
        count
    }

    /// Process groups of the running jobs, to signal on shutdown.
    pub fn running_pids(&self) -> (r: Vec<u32>)
        ensures
            r@ == running_jobs(self.jobs_spec()).map_values(|e: JobEntry| e.pid),
    {
        let mut out: Vec<u32> = Vec::new();
        let mut i: usize = 0;
        while i < self.jobs.len()
            invariant
                i <= self.jobs@.len(),
                out@ == running_prefix(self.jobs@, i as int).map_values(|e: JobEntry| e.pid),
            decreases self.jobs.len() - i,
        {
            if matches!(self.jobs[i].state, JobState::Running) {
                out.push(self.jobs[i].pid);
            }
            i = i + 1;
            proof {
                assert(out@ =~= running_prefix(self.jobs@, i as int).map_values(|e: JobEntry| e.pid));
            }
        }
        out
    }

    /// The ledger lines this process owns: one per running job.
    pub fn ledger_entries(&self, owner_pid: u32) -> (r: Vec<LedgerEntry>)
        ensures
            r@ == running_jobs(self.jobs_spec()).map_values(|e: JobEntry| ledger_line(owner_pid, e)),
    {
        let mut out: Vec<LedgerEntry> = Vec::new();
        let mut i: usize = 0;
        while i < self.jobs.len()
            invariant
                i <= self.jobs@.len(),
                out@ == running_prefix(self.jobs@, i as int).map_values(
                    |e: JobEntry| ledger_line(owner_pid, e),
                ),
            decreases self.jobs.len() - i,
        {
            if matches!(self.jobs[i].state, JobState::Running) {
                out.push(
                    LedgerEntry {
                        owner_pid: owner_pid,
                        pid: self.jobs[i].pid,
                        job_id: self.jobs[i].job_id.clone(),
                        started_unix: self.jobs[i].started_unix,
                    },
                );
            }
            i = i + 1;
            proof {
                assert(out@ =~= running_prefix(self.jobs@, i as int).map_values(
                    |e: JobEntry| ledger_line(owner_pid, e),
                ));
            }
        }
        out
    }
}

/// The lines of `existing` owned by other processes, in order, among the
/// first `n`.
pub open spec fn foreign_prefix(existing: Seq<LedgerEntry>, owner_pid: u32, n: int) -> Seq<LedgerEntry>
    decreases n,
{
    if n <= 0 {
        Seq::empty()
    } else if existing[n - 1].owner_pid != owner_pid {
        foreign_prefix(existing, owner_pid, n - 1).push(existing[n - 1])
    } else {
        foreign_prefix(existing, owner_pid, n - 1)
    }
}

/// The ledger to write: this process's lines, then every line of the ledger
/// on disk owned by another process.
pub fn merge_ledger(own: Vec<LedgerEntry>, existing: &Vec<LedgerEntry>, owner_pid: u32) -> (r: Vec<
    LedgerEntry,
>)
    ensures
        r@ == own@ + foreign_prefix(existing@, owner_pid, existing@.len() as int),
{
    let mut out = own;
    let ghost start = out@;
    let mut i: usize = 0;
    while i < existing.len()
        invariant
            i <= existing@.len(),
            out@ == start + foreign_prefix(existing@, owner_pid, i as int),
        decreases existing.len() - i,
    {
        if existing[i].owner_pid != owner_pid {
            out.push(existing[i].copy());
        }
        i = i + 1;
        proof {
            assert(out@ =~= start + foreign_prefix(existing@, owner_pid, i as int));
        }
    }
    out
}

/// What sweeping a predecessor's ledger keeps, among its first `n` lines:
/// lines of other processes that are still alive.
pub open spec fn sweep_kept(
    entries: Seq<LedgerEntry>,
    self_pid: u32,
    owner_alive: Seq<bool>,
    n: int,
) -> Seq<LedgerEntry>
    decreases n,
{
    if n <= 0 {
        Seq::empty()
    } else if entries[n - 1].owner_pid != self_pid && owner_alive[n - 1] {
        sweep_kept(entries, self_pid, owner_alive, n - 1).push(entries[n - 1])
    } else {
        sweep_kept(entries, self_pid, owner_alive, n - 1)
    }
}

/// The process groups sweeping kills, among the first `n` lines: jobs of a
/// dead owner that are themselves still alive.
pub open spec fn sweep_killed(
    entries: Seq<LedgerEntry>,
    self_pid: u32,
    owner_alive: Seq<bool>,
    pid_alive: Seq<bool>,
    n: int,
) -> Seq<u32>
    decreases n,
{
    if n <= 0 {
        Seq::empty()
    } else if entries[n - 1].owner_pid != self_pid && !owner_alive[n - 1] && pid_alive[n - 1] {
        sweep_killed(entries, self_pid, owner_alive, pid_alive, n - 1).push(entries[n - 1].pid)
    } else {
        sweep_killed(entries, self_pid, owner_alive, pid_alive, n - 1)
    }
}

/// Decides a sweep of the ledger left on disk: which lines stay and which
/// leaked process groups to kill. `owner_alive[i]` and `pid_alive[i]` say
/// whether the owner and the job of line `i` are still alive.
pub fn sweep_plan(
    entries: &Vec<LedgerEntry>,
    self_pid: u32,
    owner_alive: &Vec<bool>,
    pid_alive: &Vec<bool>,
) -> (r: (Vec<LedgerEntry>, Vec<u32>))
    requires
        owner_alive@.len() == entries@.len(),
        pid_alive@.len() == entries@.len(),
    ensures
        r.0@ == sweep_kept(entries@, self_pid, owner_alive@, entries@.len() as int),
        r.1@ == sweep_killed(entries@, self_pid, owner_alive@, pid_alive@, entries@.len() as int),
{
    let mut kept: Vec<LedgerEntry> = Vec::new();
    let mut kill: Vec<u32> = Vec::new();
    let mut i: usize = 0;
    while i < entries.len()
        invariant
            i <= entries@.len(),
            owner_alive@.len() == entries@.len(),
            pid_alive@.len() == entries@.len(),
            kept@ == sweep_kept(entries@, self_pid, owner_alive@, i as int),
            kill@ == sweep_killed(entries@, self_pid, owner_alive@, pid_alive@, i as int),
        decreases entries.len() - i,
    {
        if entries[i].owner_pid != self_pid {
            if owner_alive[i] {
                kept.push(entries[i].copy());
            } else if pid_alive[i] {
                kill.push(entries[i].pid);
            }
        }
        i = i + 1;
    }
    (kept, kill)
}

proof fn lemma_job_at_same_ids(a: Seq<JobEntry>, b: Seq<JobEntry>, id: Seq<char>)
    requires
        ids_unique(a),
        a.len() == b.len(),
        forall|k: int| 0 <= k < a.len() ==> (#[trigger] a[k]).job_id == b[k].job_id,
    ensures
        job_at(a, id) == job_at(b, id),
{
    if exists|i: int| 0 <= i < a.len() && #[trigger] a[i].job_id@ == id {
        let i = job_at(a, id)->0;
        assert(b[i].job_id@ == id);
        let j = job_at(b, id)->0;
        assert(a[j].job_id == b[j].job_id);
        assert(a[j].job_id@ == id);
        assert(i == j);
    } else {
        assert forall|j: int| 0 <= j < b.len() implies #[trigger] b[j].job_id@ != id by {
            assert(a[j].job_id == b[j].job_id);
        }
    }
}

/// A job finishes at most once: once a job has been finished in a final
/// state, finishing it again, in any state and at any time, changes nothing.
pub proof fn job_finishes_once(
    jobs: Seq<JobEntry>,
    id: Seq<char>,
    first: JobState,
    first_at: u64,
    second: JobState,
    second_at: u64,
)
    requires
        ids_unique(jobs),
        is_terminal_spec(first),
    ensures
        finalize_spec(finalize_spec(jobs, id, first, first_at), id, second, second_at)
            == finalize_spec(jobs, id, first, first_at),
        !finalize_applies(finalize_spec(jobs, id, first, first_at), id),
{
    let once = finalize_spec(jobs, id, first, first_at);
    assert forall|k: int| 0 <= k < jobs.len() implies (#[trigger] jobs[k]).job_id == once[k].job_id by {}
    lemma_job_at_same_ids(jobs, once, id);
}

/// What was recorded last under an id is what a snapshot of that id shows.
pub proof fn snapshot_reads_back_insert(jobs: Seq<JobEntry>, e: JobEntry)
    requires
        ids_unique(jobs),
    ensures
        job_at(insert_spec(jobs, e), e.job_id@) matches Some(i) && insert_spec(jobs, e)[i] == e,
{
    let after = insert_spec(jobs, e);
    match job_at(jobs, e.job_id@) {
        Some(i) => {
            assert(after[i].job_id@ == e.job_id@);
            let j = choose|j: int| 0 <= j < after.len() && #[trigger] after[j].job_id@ == e.job_id@;
            if j != i {
                assert(jobs[j].job_id@ == after[j].job_id@);
                assert(jobs[i].job_id@ == e.job_id@);
            }
        },
        None => {
            let n = jobs.len() as int;
            assert(after[n].job_id@ == e.job_id@);
            let j = choose|j: int| 0 <= j < after.len() && #[trigger] after[j].job_id@ == e.job_id@;
            if j != n {
                assert(jobs[j].job_id@ == e.job_id@);
            }
        },
    }
}

/// Whole seconds a job has run: until it finished, or until `now_millis`
/// while it runs (no time before it started counts).
pub open spec fn runtime_seconds_spec(e: JobEntry, now_millis: u64) -> nat {
    let end: u64 = match e.finished_millis {
        Some(f) => f,
        None => now_millis,
    };
    if end >= e.started_millis {
        ((end - e.started_millis) / 1000) as nat
    } else {
        0
    }
}

pub fn runtime_seconds(e: &JobEntry, now_millis: u64) -> (r: u64)
    ensures
        r == runtime_seconds_spec(*e, now_millis),
{
    let end = match e.finished_millis {
        Some(f) => f,
        None => now_millis,
    };
    if end >= e.started_millis {
        (end - e.started_millis) / 1000
    } else {
        0
    }
}

/// `order` lists every job once, by start time, earliest first; jobs that
/// started together keep their order in the table.
pub open spec fn is_start_order(jobs: Seq<JobEntry>, order: Seq<usize>) -> bool {
    &&& order.len() == jobs.len()
    &&& forall|i: int| 0 <= i < order.len() ==> #[trigger] order[i] < jobs.len()
    &&& forall|i: int, j: int| 0 <= i < j < order.len() ==> #[trigger] order[i] != #[trigger] order[j]
    &&& forall|i: int, j: int|
        0 <= i < j < order.len() ==> jobs[#[trigger] order[i] as int].started_unix <= jobs[#[trigger] order[j] as int].started_unix
    &&& forall|i: int, j: int|
        0 <= i < j < order.len() && jobs[#[trigger] order[i] as int].started_unix == jobs[#[trigger] order[j] as int].started_unix
            ==> order[i] < order[j]
}

/// What stopping a job comes to.
pub enum StopStep {
    /// No job has this id.
    NotFound,
    /// The job had already ended, with this status.
    AlreadyEnded(String),
    /// The job is now marked stopped: signal its process group.
    Signal { pid: u32 },
}

impl<H> JobRuntime<H> {
    /// The jobs as `job_status` lists them: by start time, earliest first.
    pub fn listing_order(&self) -> (r: Vec<usize>)
        ensures
            is_start_order(self.jobs_spec(), r@),
    {
        let ghost jobs = self.jobs_spec();
        let n = self.jobs.len();
        let mut order: Vec<usize> = Vec::new();
        let mut i: usize = 0;
        while i < n
            invariant
                n == jobs.len(),
                jobs == self.jobs_spec(),
                jobs == self.jobs@,
                i <= n,
                order@.len() == i,
                forall|a: int| 0 <= a < order@.len() ==> #[trigger] order@[a] < i,
                forall|a: int, b: int| 0 <= a < b < order@.len() ==> #[trigger] order@[a] != #[trigger] order@[b],
                forall|a: int, b: int|
                    0 <= a < b < order@.len() ==> jobs[#[trigger] order@[a] as int].started_unix
                        <= jobs[#[trigger] order@[b] as int].started_unix,
                forall|a: int, b: int|
                    0 <= a < b < order@.len() && jobs[#[trigger] order@[a] as int].started_unix
                        == jobs[#[trigger] order@[b] as int].started_unix ==> order@[a] < order@[b],
            decreases n - i,
        {
            let key = self.jobs[i].started_unix;
            let m = order.len();
            let mut p: usize = 0;
            while p < m && self.jobs[order[p]].started_unix <= key
                invariant
                    n == jobs.len(),
                    jobs == self.jobs@,
                    i < n,
                    key == jobs[i as int].started_unix,
                    m == order@.len(),
                    forall|a: int| 0 <= a < order@.len() ==> #[trigger] order@[a] < i,
                    p <= m,
                    forall|q: int| 0 <= q < p ==> jobs[#[trigger] order@[q] as int].started_unix <= key,
                decreases m - p,
            {
                p = p + 1;
            }
            let ghost old_order = order@;
            proof {
                assert forall|q: int| p <= q < m implies key < jobs[#[trigger] old_order[q] as int].started_unix by {
                    assert(jobs[old_order[p as int] as int].started_unix <= jobs[old_order[q] as int].started_unix || q == p);
                }
            }
            order.insert(p, i);
            proof {
                let o = order@;
                assert(o =~= old_order.insert(p as int, i));
                assert forall|a: int| 0 <= a < o.len() implies #[trigger] o[a] < i + 1 by {
                    if a < p {
                        assert(o[a] == old_order[a]);
                    } else if a > p {
                        assert(o[a] == old_order[a - 1]);
                    }
                }
                assert forall|a: int, b: int| 0 <= a < b < o.len() implies #[trigger] o[a] != #[trigger] o[b]
                    && jobs[o[a] as int].started_unix <= jobs[o[b] as int].started_unix
                    && (jobs[o[a] as int].started_unix == jobs[o[b] as int].started_unix ==> o[a] < o[b]) by {
                    if a != p && b != p {
                        let oa = if a < p { a } else { a - 1 };
                        let ob = if b < p { b } else { b - 1 };
                        assert(o[a] == old_order[oa]);
                        assert(o[b] == old_order[ob]);
                    } else if a == p {
                        assert(o[b] == old_order[b - 1]);
                    } else {
                        assert(o[a] == old_order[a]);
                    }
                }
            }
            i = i + 1;
        }
        order
    }

    /// Stops a job at the model's request: an unknown id, or one that
    /// already ended, changes nothing; a running job is marked stopped
    /// without firing the completion hook, and its process is to be
    /// signalled.
    pub fn stop_step(&mut self, job_id: &str, now_millis: u64) -> (r: StopStep)
        requires
            old(self).wf(),
        ensures
            final(self).wf(),
            final(self).host_spec() == old(self).host_spec(),
            final(self).hook_spec() == old(self).hook_spec(),
            final(self).jobs_spec() == finalize_spec(old(self).jobs_spec(), job_id@, JobState::Stopped, now_millis),
            match job_at(old(self).jobs_spec(), job_id@) {
                None => r is NotFound,
                Some(i) => if is_terminal_spec(old(self).jobs_spec()[i].state) {
                    r matches StopStep::AlreadyEnded(l) && l@ == label_spec(old(self).jobs_spec()[i].state)
                } else {
                    r == StopStep::Signal { pid: old(self).jobs_spec()[i].pid }
                },
            },
    {
        match self.job_snapshot(job_id) {
            None => {
                let _ = self.finalize_job(job_id, JobState::Stopped, now_millis, false);
                StopStep::NotFound
            },
            Some(job) => {
                if job.state.is_terminal() {
                    let _ = self.finalize_job(job_id, JobState::Stopped, now_millis, false);
                    StopStep::AlreadyEnded(job.state.label())
                } else {
                    let _ = self.finalize_job(job_id, JobState::Stopped, now_millis, false);
                    StopStep::Signal { pid: job.pid }
                }
            },
        }
    }
}

} // verus!
