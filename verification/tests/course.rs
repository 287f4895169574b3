use memory_harness::args::{Args, OutputFormat};
use memory_harness::output::{
    bracketed_list, elapsed_per_object, option_i32, option_u64, print_human, CgroupMemorySummary,
    Elapsed, Figures, Measurements, Report,
};
use memory_harness::proc_status::{ProcStatusSampler, ProcStatusSummary};
use memory_harness::run::{exit_code, status_string, Outcome, Run, RunPlan, Step};
use memory_harness::rusage::{CpuTime, ExitStatus, Usage, WaitOutcome};
use memory_harness::text::FileRead;
use memory_harness::timeout::{Kill, TimeoutWatch, WatchStep};

const PLAIN: RunPlan = RunPlan {
    profiler: false,
    sampler_interval_ms: None,
    timeout_seconds: None,
    timeout_marker: false,
};

/// The steps of a run whose steps all succeed.
fn steps(plan: RunPlan, session: bool, triggered: bool, marked: bool) -> (Vec<Step>, bool) {
    let mut run = Run::start(plan);
    let mut taken = Vec::new();
    while run.step != Step::Finished {
        taken.push(run.step);
        let outcome = match run.step {
            Step::SpawnChild => Outcome::Spawned(7),
            Step::AttachCgroup => Outcome::Attached(session),
            Step::StopTimeoutWatch => Outcome::Answer(triggered),
            Step::ProbeTimeoutMarker => Outcome::Answer(marked),
            _ => Outcome::Done,
        };
        run = run.advance(outcome).unwrap();
        assert_eq!(run.child_pid, Some(7));
    }
    (taken, run.timed_out)
}

#[test]
fn a_plain_run_spawns_waits_and_reports() {
    let expected = vec![
        Step::SpawnChild,
        Step::AttachCgroup,
        Step::ContinueChild,
        Step::StartClock,
        Step::WaitForChild,
        Step::ReadClock,
        Step::MeasureHarness,
        Step::PrintReport,
    ];
    assert_eq!(steps(PLAIN, false, false, false), (expected, false));
}

#[test]
fn a_run_with_everything_takes_its_steps_in_order() {
    let plan = RunPlan {
        profiler: true,
        sampler_interval_ms: Some(10),
        timeout_seconds: Some(1),
        timeout_marker: true,
    };
    let expected = vec![
        Step::SpawnChild,
        Step::AttachCgroup,
        Step::AwaitChildStop,
        Step::AnnounceChildPid,
        Step::AwaitProfilerRelease,
        Step::ContinueChild,
        Step::StartClock,
        Step::StartSampler,
        Step::StartTimeoutWatch,
        Step::WaitForChild,
        Step::CollectCgroup,
        Step::StopTimeoutWatch,
        Step::ProbeTimeoutMarker,
        Step::ReadClock,
        Step::MeasureHarness,
        Step::FinishSampler,
        Step::PrintReport,
    ];
    assert_eq!(steps(plan, true, false, false), (expected.clone(), false));
    let unprobed: Vec<Step> =
        expected.iter().copied().filter(|step| *step != Step::ProbeTimeoutMarker).collect();
    assert_eq!(steps(plan, true, true, false), (unprobed, true));
    assert_eq!(steps(plan, true, false, true), (expected, true));
}

#[test]
fn a_marker_counts_without_a_watch() {
    let plan = RunPlan { timeout_marker: true, ..PLAIN };
    let (taken, timed_out) = steps(plan, false, false, true);
    assert!(timed_out);
    assert!(taken.contains(&Step::ProbeTimeoutMarker));
    assert!(!taken.contains(&Step::StopTimeoutWatch));
}

#[test]
fn a_failed_step_ends_the_run() {
    let run = Run::start(PLAIN);
    let failed = run.advance(Outcome::Failed).unwrap();
    assert_eq!(failed.step, Step::Failed);
    assert_eq!(failed.advance(Outcome::Done), None);
    let plan = RunPlan { profiler: true, ..PLAIN };
    let stopping = Run::start(plan)
        .advance(Outcome::Spawned(1))
        .and_then(|run| run.advance(Outcome::Attached(false)))
        .unwrap();
    assert_eq!(stopping.step, Step::AwaitChildStop);
    assert_eq!(stopping.advance(Outcome::Failed).unwrap().step, Step::Failed);
}

#[test]
fn an_outcome_of_another_step_is_refused() {
    let run = Run::start(PLAIN);
    assert_eq!(run.advance(Outcome::Done), None);
    assert_eq!(run.advance(Outcome::Answer(true)), None);
    let attaching = run.advance(Outcome::Spawned(1)).unwrap();
    assert_eq!(attaching.advance(Outcome::Failed), None);
    assert_eq!(attaching.advance(Outcome::Spawned(2)), None);
}

/// The step at which a run stands that came through `outcomes`.
fn step_after(plan: RunPlan, outcomes: &[Outcome]) -> Run {
    outcomes.iter().fold(Run::start(plan), |run, outcome| run.advance(*outcome).unwrap())
}

#[test]
fn a_child_is_let_go_only_once_it_is_attached() {
    for session in [false, true] {
        let run = step_after(PLAIN, &[Outcome::Spawned(7), Outcome::Attached(session)]);
        assert_eq!((run.step, run.session), (Step::ContinueChild, session));
        assert_eq!(run.advance(Outcome::Done).unwrap().step, Step::StartClock);
        assert_eq!(run.advance(Outcome::Failed).unwrap().step, Step::Failed);
    }
    let plan = RunPlan { profiler: true, ..PLAIN };
    let run = step_after(
        plan,
        &[
            Outcome::Spawned(7),
            Outcome::Attached(true),
            Outcome::Done,
            Outcome::Done,
            Outcome::Done,
        ],
    );
    assert_eq!(run.step, Step::ContinueChild);
}

#[test]
fn a_child_that_its_watch_killed_timed_out() {
    for kill in [Kill::Sent, Kill::NoSuchProcess] {
        let mut watch = TimeoutWatch::start(3);
        assert_eq!(watch.look(3_000_000_000, false), Some(WatchStep::Kill));
        assert_eq!(watch.killed(kill), Some(Ok(())));
        let plan = RunPlan { timeout_seconds: Some(3), timeout_marker: true, ..PLAIN };
        let stopping = step_after(
            plan,
            &[
                Outcome::Spawned(7),
                Outcome::Attached(false),
                Outcome::Done,
                Outcome::Done,
                Outcome::Done,
                Outcome::Done,
            ],
        );
        assert_eq!(stopping.step, Step::StopTimeoutWatch);
        let stopped = stopping.advance(Outcome::Answer(watch.answer().unwrap())).unwrap();
        assert!(stopped.timed_out);
        assert_eq!(stopped.step, Step::ReadClock);
        let mut parts = measured(signalled(9));
        parts.timed_out = stopped.timed_out;
        let report = Report::new(&args(), parts);
        assert_eq!((report.timed_out, report.status.as_str()), (true, "timeout"));
        assert_eq!(report.timeout_seconds, Some(3));
        assert_eq!(exit_code(signalled(9), stopped.timed_out).ok(), Some(124));
    }
}

#[test]
fn a_watch_that_could_not_kill_fails_the_run() {
    let stopping = step_after(
        RunPlan { timeout_seconds: Some(3), ..PLAIN },
        &[
            Outcome::Spawned(7),
            Outcome::Attached(false),
            Outcome::Done,
            Outcome::Done,
            Outcome::Done,
            Outcome::Done,
        ],
    );
    assert_eq!(stopping.step, Step::StopTimeoutWatch);
    assert_eq!(stopping.advance(Outcome::Done), None);
    assert_eq!(stopping.advance(Outcome::Failed).unwrap().step, Step::Failed);
    assert!(!stopping.advance(Outcome::Answer(false)).unwrap().timed_out);
}

#[test]
fn a_marker_does_not_call_off_a_timeout() {
    let plan = RunPlan { timeout_seconds: Some(1), timeout_marker: true, ..PLAIN };
    let (taken, timed_out) = steps(plan, false, true, false);
    assert!(timed_out);
    assert!(!taken.contains(&Step::ProbeTimeoutMarker));
    let (taken, timed_out) = steps(plan, false, false, true);
    assert!(timed_out);
    assert!(taken.contains(&Step::ProbeTimeoutMarker));
    assert!(!steps(plan, false, false, false).1);
}

fn exited(code: i32) -> ExitStatus {
    ExitStatus { raw: code << 8 }
}

fn signalled(signal: i32) -> ExitStatus {
    ExitStatus { raw: signal }
}

#[test]
fn wait_statuses_are_decoded() {
    assert!(exited(0).success());
    assert_eq!((exited(0).code(), exited(0).signal()), (Some(0), None));
    assert!(!exited(3).success());
    assert_eq!((exited(3).code(), exited(3).signal()), (Some(3), None));
    assert_eq!(exited(255).code(), Some(255));
    assert!(!signalled(9).success());
    assert_eq!((signalled(9).code(), signalled(9).signal()), (None, Some(9)));
    let dumped = ExitStatus { raw: 0x80 | 11 };
    assert_eq!((dumped.code(), dumped.signal()), (None, Some(11)));
    let stopped = ExitStatus { raw: 0x137f };
    assert_eq!((stopped.code(), stopped.signal()), (None, None));
}

#[test]
fn endings_are_named() {
    assert_eq!(status_string(exited(0), false), "ok");
    assert_eq!(status_string(exited(3), false), "exit(3)");
    assert_eq!(status_string(signalled(15), false), "signal(15)");
    assert_eq!(status_string(ExitStatus { raw: 0x7f }, false), "unknown");
    assert_eq!(status_string(signalled(9), true), "timeout");
    assert_eq!(status_string(exited(0), true), "timeout");
}

#[test]
fn the_harness_exits_as_the_child_did() {
    assert_eq!(exit_code(exited(0), false).ok(), Some(0));
    assert_eq!(exit_code(exited(42), false).ok(), Some(42));
    assert_eq!(exit_code(signalled(9), false).ok(), Some(137));
    assert_eq!(exit_code(signalled(9), true).ok(), Some(124));
    assert_eq!(exit_code(exited(0), true).ok(), Some(124));
    match exit_code(ExitStatus { raw: 0x7f }, false) {
        Err(error) => assert_eq!(
            error.message(),
            "child process terminated without a reportable status"
        ),
        Ok(code) => panic!("{code}"),
    }
}

fn usage(max_rss_kb: i64) -> Usage {
    Usage {
        max_rss_kb,
        user_cpu: CpuTime { seconds: 1, micros: 500_000 },
        system_cpu: CpuTime { seconds: 0, micros: 250_000 },
        minor_faults: 100,
        major_faults: 2,
        voluntary_ctx_switches: 3,
        involuntary_ctx_switches: 4,
    }
}

fn args() -> Args {
    Args {
        format: OutputFormat::Json,
        cwd: Some(b"/tmp".to_vec()),
        env_vars: Vec::new(),
        clear_env: false,
        sample_proc_status_ms: Some(5),
        sample_proc_status_out: None,
        child_stdout: None,
        child_stderr: None,
        announce_child_pid_file: None,
        await_profiler_file: None,
        child_timeout_seconds: Some(3),
        timeout_marker_file: None,
        objects_processed: Some(123),
        command: vec![b"/usr/bin/env".to_vec(), b"say \"hi\"".to_vec()],
    }
}

fn measured(status: ExitStatus) -> Measurements {
    Measurements {
        outcome: WaitOutcome { status, usage: usage(2048) },
        timed_out: false,
        elapsed: Elapsed { seconds: 2, nanos: 0 },
        harness: usage(1024),
        proc_status: None,
        cgroup_memory: None,
        cgroup_memory_status: None,
    }
}

fn figures() -> Figures {
    Figures {
        elapsed_s: "2.000".to_owned(),
        child_max_rss_mb: "2.00".to_owned(),
        child_user_cpu_s: "1.500".to_owned(),
        child_system_cpu_s: "0.250".to_owned(),
        harness_max_rss_mb: "1.00".to_owned(),
        objects_per_second: Some("61.500".to_owned()),
        seconds_per_object: None,
    }
}

#[test]
fn a_plan_follows_the_arguments() {
    let mut given = args();
    let plan = RunPlan::new(&given);
    assert_eq!(
        plan,
        RunPlan { sampler_interval_ms: Some(5), timeout_seconds: Some(3), ..PLAIN }
    );
    given.announce_child_pid_file = Some(b"pid".to_vec());
    given.timeout_marker_file = Some(b"marker".to_vec());
    let plan = RunPlan::new(&given);
    assert!(plan.profiler && plan.timeout_marker);
}

#[test]
fn a_report_holds_what_was_measured() {
    let report = Report::new(&args(), measured(signalled(15)));
    assert_eq!(report.command, ["/usr/bin/env", "say \"hi\""]);
    assert_eq!(report.cwd.as_deref(), Some("/tmp"));
    assert_eq!(report.status, "signal(15)");
    assert_eq!((report.exit_code, report.signal), (None, Some(15)));
    assert_eq!(report.timeout_seconds, Some(3));
    assert_eq!(report.child_max_rss_kb, 2048);
    assert_eq!(report.harness_max_rss_kb, 1024);
    assert_eq!(report.child_user_cpu, CpuTime { seconds: 1, micros: 500_000 });
    assert_eq!(report.child_major_faults, 2);
    assert_eq!(report.objects_processed, Some(123));
    assert!(report.proc_status.is_none());
}

#[test]
fn a_report_shows_the_directory_as_text() {
    let shown = |cwd: Option<&[u8]>| {
        let mut given = args();
        given.cwd = cwd.map(<[u8]>::to_vec);
        Report::new(&given, measured(exited(0))).cwd
    };
    assert_eq!(shown(None), None);
    assert_eq!(shown(Some("/tmp/grüße".as_bytes())).as_deref(), Some("/tmp/grüße"));
    assert_eq!(shown(Some(b"/tmp/\xff")).as_deref(), Some("/tmp/\u{fffd}"));
}

#[test]
fn a_report_for_people_is_a_few_lines() {
    let report = Report::new(&args(), measured(exited(0)));
    assert_eq!(
        print_human(&report, &figures()),
        [
            "status=ok timed_out=false timeout_seconds=3 elapsed_s=2.000 child_max_rss_kb=2048 \
             child_max_rss_mb=2.00 exit_code=0 signal=none \
             command=[\"/usr/bin/env\", \"say \\\"hi\\\"\"]",
            "child_user_cpu_s=1.500 child_system_cpu_s=0.250 child_minor_faults=100 \
             child_major_faults=2 child_voluntary_ctx_switches=3 child_involuntary_ctx_switches=4",
            "harness_max_rss_kb=1024 harness_max_rss_mb=1.00 cwd=/tmp",
            "objects_processed=123 objects_per_second=61.500 seconds_per_object=none",
        ]
    );
}

/// What a sampling run that found no status file amounts to.
fn no_samples() -> Option<ProcStatusSummary> {
    let mut sampler = ProcStatusSampler::start(1, 5, None);
    assert!(sampler.observe(FileRead::Missing).is_some());
    sampler.finish()
}

#[test]
fn a_report_for_people_has_a_line_for_each_part_it_has() {
    let mut given = args();
    given.cwd = None;
    given.objects_processed = None;
    given.child_timeout_seconds = None;
    given.command = Vec::new();
    let mut parts = measured(signalled(9));
    parts.timed_out = true;
    parts.proc_status = no_samples();
    parts.cgroup_memory = Some(CgroupMemorySummary {
        path: Some("/c".to_owned()),
        current_kb: Some(1),
        peak_kb: Some(2),
        anon_kb: Some(3),
        file_kb: None,
        shmem_kb: None,
        cache_kb: None,
        rss_cache_kb: Some(3),
        rss_kb: None,
        rss_huge_kb: None,
    });
    parts.cgroup_memory_status = Some("why".to_owned());
    let lines = print_human(&Report::new(&given, parts), &figures());
    assert_eq!(
        lines,
        [
            "status=timeout timed_out=true timeout_seconds=none elapsed_s=2.000 \
             child_max_rss_kb=2048 child_max_rss_mb=2.00 exit_code=none signal=9 command=[]",
            "child_user_cpu_s=1.500 child_system_cpu_s=0.250 child_minor_faults=100 \
             child_major_faults=2 child_voluntary_ctx_switches=3 child_involuntary_ctx_switches=4",
            "harness_max_rss_kb=1024 harness_max_rss_mb=1.00 cwd=none",
            "proc_status_interval_ms=5 proc_status_sample_count=0 \
             proc_status_peak_vmrss_kb=none proc_status_peak_vmhwm_kb=none \
             proc_status_peak_rss_anon_kb=none proc_status_peak_rss_file_kb=none \
             proc_status_peak_rss_shmem_kb=none proc_status_peak_threads=none \
             proc_status_samples_path=none",
            "child_cgroup_memory_path=/c child_cgroup_memory_current_kb=1 \
             child_cgroup_memory_peak_kb=2 child_cgroup_memory_anon_kb=3 \
             child_cgroup_memory_file_kb=none child_cgroup_memory_shmem_kb=none \
             child_cgroup_memory_cache_kb=none child_cgroup_memory_rss_cache_kb=3",
            "child_cgroup_memory_status=why",
        ]
    );
}

#[test]
fn values_that_are_absent_are_none() {
    assert_eq!(option_u64(None), "none");
    assert_eq!(option_u64(Some(u64::MAX)), "18446744073709551615");
    assert_eq!(option_i32(None), "none");
    assert_eq!(option_i32(Some(-3)), "-3");
    assert_eq!(option_i32(Some(i32::MIN)), "-2147483648");
    assert_eq!(bracketed_list(&vec!["a".to_owned(), "b".to_owned()]), "[a, b]");
    assert_eq!(bracketed_list(&Vec::new()), "[]");
}

#[test]
fn there_is_no_time_per_object_without_objects() {
    assert_eq!(elapsed_per_object(None), None);
    assert_eq!(elapsed_per_object(Some(0)), None);
    assert_eq!(elapsed_per_object(Some(1950)), Some(1950));
}
