use miyu::tools::jobs::{
    check_capacity, init, ledger_path, log_slice_bounds, logs_dir, merge_ledger, require_host,
    set_completion_hook, status_wait_seconds, sweep_plan, truncate_command, JobEntry, JobPaths,
    JobRuntime, JobState, LedgerEntry, MAX_WAIT_SECONDS,
};

fn paths() -> JobPaths {
    JobPaths { cache_dir: "/home/u/.cache/miyu".to_string(), runtime_dir: "/run/miyu/".to_string() }
}

fn entry(job_id: &str, pid: u32, started_millis: u64) -> JobEntry {
    JobEntry {
        job_id: job_id.to_string(),
        command: "echo hello".to_string(),
        workspace: "/tmp/w".to_string(),
        session_id: Some("s1".to_string()),
        pid,
        started_unix: 1_700_000_000,
        started_millis,
        finished_millis: None,
        log_path: format!("/logs/{job_id}.log"),
        state: JobState::Running,
    }
}

#[test]
fn job_states_have_status_labels() {
    assert_eq!(JobState::Running.label(), "running");
    assert_eq!(JobState::Exited { code: Some(3) }.label(), "exited(3)");
    assert_eq!(JobState::Exited { code: Some(-1) }.label(), "exited(-1)");
    assert_eq!(JobState::Exited { code: None }.label(), "exited(signal)");
    assert_eq!(JobState::TimedOut.label(), "timed_out");
    assert_eq!(JobState::Stopped.label(), "stopped");
    assert!(!JobState::Running.is_terminal());
    assert!(JobState::Stopped.is_terminal());
}

#[test]
fn long_commands_are_cut_with_an_ellipsis() {
    assert_eq!(truncate_command("ls -la"), "ls -la");
    let exact = "é".repeat(200);
    assert_eq!(truncate_command(&exact), exact);
    let long = "x".repeat(250);
    let shown = truncate_command(&long);
    assert_eq!(shown.chars().count(), 201);
    assert!(shown.ends_with('…'));
}

#[test]
fn init_is_once_and_clamps_limits() {
    let mut runtime: JobRuntime<u8> = JobRuntime::new();
    assert_eq!(
        require_host(&runtime).err().as_deref(),
        Some("background jobs are not initialized in this process")
    );
    init(&mut runtime, &paths(), 0, 0);
    let host = require_host(&runtime).unwrap();
    assert_eq!(host.limit, 1);
    assert_eq!(host.max_runtime_seconds, 60);
    init(&mut runtime, &paths(), 8, 120);
    assert_eq!(runtime.host().unwrap().limit, 1);

    let mut other: JobRuntime<u8> = JobRuntime::new();
    init(&mut other, &paths(), 8, 120);
    assert_eq!(other.host().unwrap().limit, 8);
    assert_eq!(other.host().unwrap().max_runtime_seconds, 7200);
}

#[test]
fn completion_hook_is_replaced() {
    let mut runtime: JobRuntime<&str> = JobRuntime::new();
    assert!(runtime.completion_hook().is_none());
    set_completion_hook(&mut runtime, "first");
    set_completion_hook(&mut runtime, "second");
    assert_eq!(runtime.completion_hook(), Some(&"second"));
}

#[test]
fn a_job_completes_exactly_once() {
    let mut runtime: JobRuntime<u8> = JobRuntime::new();
    runtime.insert_job(entry("job_1", 41, 1_000));
    let completion = runtime
        .finalize_job("job_1", JobState::Exited { code: Some(3) }, 4_500, true)
        .expect("first completion fires the hook");
    assert_eq!(completion.job_id, "job_1");
    assert_eq!(completion.state_label, "exited(3)");
    assert_eq!(completion.exit_code, Some(3));
    assert_eq!(completion.runtime_seconds, 3);
    assert_eq!(completion.session_id.as_deref(), Some("s1"));
    assert_eq!(completion.log_path, "/logs/job_1.log");

    // The reaper arriving after the job already finished changes nothing.
    assert!(runtime.finalize_job("job_1", JobState::TimedOut, 9_000, true).is_none());
    let snapshot = runtime.job_snapshot("job_1").unwrap();
    assert_eq!(snapshot.state, JobState::Exited { code: Some(3) });
    assert_eq!(snapshot.finished_millis, Some(4_500));
    assert!(runtime.finalize_job("job_9", JobState::Stopped, 9_000, true).is_none());
}

#[test]
fn stopping_a_job_never_fires_the_hook() {
    let mut runtime: JobRuntime<u8> = JobRuntime::new();
    runtime.insert_job(entry("job_2", 42, 0));
    assert!(runtime.finalize_job("job_2", JobState::Stopped, 10, false).is_none());
    assert_eq!(runtime.job_snapshot("job_2").unwrap().state, JobState::Stopped);
    assert!(runtime.finalize_job("job_2", JobState::Exited { code: None }, 20, true).is_none());
}

#[test]
fn running_jobs_feed_capacity_shutdown_and_the_ledger() {
    let mut runtime: JobRuntime<u8> = JobRuntime::new();
    runtime.insert_job(entry("a", 1, 0));
    runtime.insert_job(entry("b", 2, 0));
    runtime.insert_job(entry("c", 3, 0));
    runtime.finalize_job("b", JobState::TimedOut, 5, false);
    assert_eq!(runtime.running_count(), 2);
    assert_eq!(runtime.running_pids(), vec![1, 3]);
    let own = runtime.ledger_entries(900);
    assert_eq!(own.len(), 2);
    assert_eq!(own[1].job_id, "c");
    assert_eq!(own[1].owner_pid, 900);

    assert!(check_capacity(1, 2).is_ok());
    assert_eq!(
        check_capacity(2, 2).unwrap_err(),
        "已有 2 个后台任务在运行（上限 2）；先用 job_status 检查并用 job_stop 结束不需要的任务"
    );

    let existing = vec![
        LedgerEntry { owner_pid: 900, pid: 7, job_id: "old".into(), started_unix: 1 },
        LedgerEntry { owner_pid: 901, pid: 8, job_id: "other".into(), started_unix: 2 },
    ];
    let merged = merge_ledger(own, &existing, 900);
    let ids: Vec<&str> = merged.iter().map(|e| e.job_id.as_str()).collect();
    assert_eq!(ids, vec!["a", "c", "other"]);
}

#[test]
fn sweep_kills_only_orphans_of_dead_owners() {
    let entries = vec![
        LedgerEntry { owner_pid: 5, pid: 50, job_id: "mine".into(), started_unix: 0 },
        LedgerEntry { owner_pid: 6, pid: 60, job_id: "live owner".into(), started_unix: 0 },
        LedgerEntry { owner_pid: 7, pid: 70, job_id: "orphan".into(), started_unix: 0 },
        LedgerEntry { owner_pid: 8, pid: 80, job_id: "gone".into(), started_unix: 0 },
    ];
    let (kept, kill) =
        sweep_plan(&entries, 5, &vec![true, true, false, false], &vec![true, true, true, false]);
    assert_eq!(kept.len(), 1);
    assert_eq!(kept[0].job_id, "live owner");
    assert_eq!(kill, vec![70]);
}

#[test]
fn job_paths_and_status_windows() {
    assert_eq!(logs_dir(&paths()), "/home/u/.cache/miyu/jobs");
    assert_eq!(ledger_path(&paths()), "/run/miyu/background-jobs.json");
    assert_eq!(status_wait_seconds(None), 0);
    assert_eq!(status_wait_seconds(Some(10)), 10);
    assert_eq!(status_wait_seconds(Some(99)), MAX_WAIT_SECONDS);
    assert_eq!(log_slice_bounds(6, 3), (3, 6, false));
    assert_eq!(log_slice_bounds(6, 9), (6, 6, false));
    assert_eq!(log_slice_bounds(50_000, 0), (0, 20_000, true));
}

use miyu::tools::jobs::{runtime_seconds, StopStep};

#[test]
fn job_stop_terminates_a_running_job() {
    let mut runtime: JobRuntime<u8> = JobRuntime::new();
    runtime.insert_job(entry("job_a", 42, 1_000));
    match runtime.stop_step("job_a", 5_000) {
        StopStep::Signal { pid } => assert_eq!(pid, 42),
        _ => panic!("a running job is signalled"),
    }
    let job = runtime.job_snapshot("job_a").unwrap();
    assert_eq!(job.state.label(), "stopped");
    assert_eq!(job.finished_millis, Some(5_000));
    match runtime.stop_step("job_a", 9_000) {
        StopStep::AlreadyEnded(label) => assert_eq!(label, "stopped"),
        _ => panic!("an ended job is not signalled again"),
    }
    assert!(matches!(runtime.stop_step("job_zz", 9_000), StopStep::NotFound));
    assert_eq!(runtime_seconds(&job, 99_000), 4);
}

#[test]
fn job_listing_is_ordered_by_start() {
    let mut runtime: JobRuntime<u8> = JobRuntime::new();
    let mut late = entry("job_late", 1, 0);
    late.started_unix = 300;
    let mut early = entry("job_early", 2, 0);
    early.started_unix = 100;
    let mut tie = entry("job_tie", 3, 0);
    tie.started_unix = 100;
    runtime.insert_job(late);
    runtime.insert_job(early);
    runtime.insert_job(tie);
    let order = runtime.listing_order();
    let ids: Vec<String> = order.iter().map(|&i| runtime.jobs()[i].job_id.clone()).collect();
    assert_eq!(ids, vec!["job_early", "job_tie", "job_late"]);
    let running = entry("job_r", 9, 10_000);
    assert_eq!(runtime_seconds(&running, 12_500), 2);
    assert_eq!(runtime_seconds(&running, 5_000), 0);
}

#[test]
fn job_logs_are_read_in_windows_and_decoded_leniently() {
    let missing = miyu::tools::jobs::read_log_slice(None, 7);
    assert_eq!((missing.content.as_str(), missing.next_offset, missing.size, missing.truncated), ("", 7, 0, false));
    let s = miyu::tools::jobs::read_log_slice(Some(b"hello".to_vec()), 2);
    assert_eq!((s.content.as_str(), s.next_offset, s.size, s.truncated), ("llo", 5, 5, false));
    let past = miyu::tools::jobs::read_log_slice(Some(b"hello".to_vec()), 99);
    assert_eq!((past.content.as_str(), past.next_offset, past.size), ("", 5, 5));
    let bad = miyu::tools::jobs::read_log_slice(Some(vec![b'a', 0xff, b'b']), 0);
    assert_eq!(bad.content, "a\u{FFFD}b");
    let big = miyu::tools::jobs::read_log_slice(Some(vec![b'x'; 20_005]), 1);
    assert_eq!((big.content.len(), big.next_offset, big.size, big.truncated), (20_000, 20_001, 20_005, true));
}
