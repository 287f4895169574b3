use memory_harness::args::{
    command_strings, env_assignments, env_error, parse_env_assignment, sampler_interval_ms,
    validate_profiler_sync_args, Args, HarnessError, OutputFormat,
};
use memory_harness::profiler::{pid_line, wait_for_child_stop, wait_for_file, Poll};
use memory_harness::spawn::{build_exec_argv, child_steps, cstring_from_bytes, ChildStep};
use memory_harness::text::FileRead;
use memory_harness::timeout::{
    kill_outcome, watch_step, Kill, TimeoutWatch, WatchState, WatchStep,
};

fn args(command: &[&str]) -> Args {
    Args {
        format: OutputFormat::Human,
        cwd: None,
        env_vars: Vec::new(),
        clear_env: false,
        sample_proc_status_ms: None,
        sample_proc_status_out: None,
        child_stdout: None,
        child_stderr: None,
        announce_child_pid_file: None,
        await_profiler_file: None,
        child_timeout_seconds: None,
        timeout_marker_file: None,
        objects_processed: None,
        command: command.iter().map(|word| word.as_bytes().to_vec()).collect(),
    }
}

#[test]
fn assignments_are_taken_apart_at_the_first_equals_sign() {
    assert!(matches!(parse_env_assignment("RUST_LOG=debug"), Ok(("RUST_LOG", "debug"))));
    assert!(matches!(parse_env_assignment("A=b=c"), Ok(("A", "b=c"))));
    assert!(matches!(parse_env_assignment("A="), Ok(("A", ""))));
    assert!(matches!(parse_env_assignment("ä=ö"), Ok(("ä", "ö"))));
}

#[test]
fn what_is_no_assignment_is_complained_about() {
    let complaint = |input: &str| parse_env_assignment(input).err().map(|error| error.message());
    assert_eq!(
        complaint("a\"b"),
        Some("invalid --env value \"a\\\"b\"; expected KEY=VALUE".to_owned())
    );
    assert_eq!(
        complaint("=value"),
        Some("invalid --env value \"=value\"; key must not be empty".to_owned())
    );
    assert!(matches!(parse_env_assignment(""), Err(HarnessError::EnvWithoutEquals { .. })));
    assert!(matches!(parse_env_assignment("="), Err(HarnessError::EnvWithoutKey { .. })));
    assert_eq!(env_error("shown", "why"), "invalid --env value shown; why");
}

#[test]
fn assignments_are_kept_in_order_up_to_the_first_bad_one() {
    let entries = vec!["A=1".to_owned(), "B=2".to_owned(), "A=3".to_owned()];
    let expected: Vec<(String, String)> = [("A", "1"), ("B", "2"), ("A", "3")]
        .iter()
        .map(|(key, value)| (key.to_string(), value.to_string()))
        .collect();
    assert_eq!(env_assignments(&entries).ok(), Some(expected));
    assert_eq!(env_assignments(&Vec::new()).ok(), Some(Vec::new()));
    let entries = vec!["A=1".to_owned(), "B".to_owned(), "=".to_owned()];
    match env_assignments(&entries) {
        Err(HarnessError::EnvWithoutEquals { input }) => assert_eq!(input, "B"),
        other => panic!("{other:?}"),
    }
}

#[test]
fn command_words_are_shown_as_text() {
    let words = vec![b"/bin/echo".to_vec(), "grüße".as_bytes().to_vec(), vec![b'a', 0xff, b'b']];
    assert_eq!(command_strings(&words), ["/bin/echo", "grüße", "a\u{fffd}b"]);
    assert!(command_strings(&Vec::new()).is_empty());
}

#[test]
fn the_files_of_the_handshake_go_together() {
    let mut given = args(&["true"]);
    assert!(validate_profiler_sync_args(&given).is_ok());
    given.announce_child_pid_file = Some(b"pid".to_vec());
    match validate_profiler_sync_args(&given) {
        Err(error) => assert_eq!(
            error.message(),
            "--announce-child-pid-file and --await-profiler-file must be provided together"
        ),
        Ok(()) => panic!("accepted"),
    }
    given.await_profiler_file = Some(b"go".to_vec());
    assert!(validate_profiler_sync_args(&given).is_ok());
    given.announce_child_pid_file = None;
    assert!(validate_profiler_sync_args(&given).is_err());
}

#[test]
fn sampling_is_every_ten_milliseconds_unless_asked_otherwise() {
    let mut given = args(&["true"]);
    assert_eq!(sampler_interval_ms(&given), None);
    given.sample_proc_status_out = Some(b"out.tsv".to_vec());
    assert_eq!(sampler_interval_ms(&given), Some(10));
    given.sample_proc_status_ms = Some(1);
    assert_eq!(sampler_interval_ms(&given), Some(1));
    given.sample_proc_status_out = None;
    assert_eq!(sampler_interval_ms(&given), Some(1));
}

#[test]
fn c_strings_end_in_their_only_zero_byte() {
    assert_eq!(cstring_from_bytes(b"ab").ok(), Some(b"ab\0".to_vec()));
    assert_eq!(cstring_from_bytes(b"").ok(), Some(b"\0".to_vec()));
    match cstring_from_bytes(b"a\0b") {
        Err(error) => assert_eq!(error.message(), "argument contains an interior NUL byte"),
        Ok(_) => panic!("accepted"),
    }
    let argv = build_exec_argv(&vec![b"a".to_vec(), b"".to_vec()]);
    assert_eq!(argv.ok(), Some(vec![b"a\0".to_vec(), b"\0".to_vec()]));
    assert!(build_exec_argv(&vec![b"a".to_vec(), b"\0".to_vec()]).is_err());
}

#[test]
fn a_forked_child_stops_just_before_its_command() {
    let mut given = args(&["sh", "-c"]);
    given.child_stdout = Some(b"out".to_vec());
    given.child_stderr = Some(b"err".to_vec());
    given.cwd = Some(b"/tmp".to_vec());
    given.clear_env = true;
    given.env_vars = vec!["A=1".to_owned(), "B=".to_owned()];
    let steps = child_steps(&given).ok().unwrap();
    assert_eq!(steps.len(), 8);
    assert!(matches!(&steps[0], ChildStep::RedirectStdout));
    assert!(matches!(&steps[1], ChildStep::RedirectStderr));
    assert!(matches!(&steps[2], ChildStep::ChangeDir(dir) if dir == b"/tmp\0"));
    assert!(matches!(&steps[3], ChildStep::ClearEnv));
    assert!(matches!(&steps[4], ChildStep::SetEnv(key, value) if key == b"A\0" && value == b"1\0"));
    assert!(matches!(&steps[5], ChildStep::SetEnv(key, value) if key == b"B\0" && value == b"\0"));
    assert!(matches!(&steps[6], ChildStep::Stop));
    let argv = vec![b"sh\0".to_vec(), b"-c\0".to_vec()];
    assert!(matches!(&steps[7], ChildStep::Exec(words) if *words == argv));
    let failures: Vec<&str> = steps.iter().map(ChildStep::failure).collect();
    assert_eq!(failures[0], "memory-harness: failed to redirect child stdout\n");
    assert_eq!(failures[1], "memory-harness: failed to redirect child stderr\n");
    assert_eq!(failures[2], "memory-harness: failed to change child cwd\n");
    assert_eq!(failures[3], "memory-harness: failed to clear child environment\n");
    assert_eq!(failures[4], "memory-harness: failed to set child environment\n");
    assert_eq!(failures[6], "memory-harness: failed to stop child before profiler attach\n");
    assert_eq!(failures[7], "memory-harness: failed to exec child command\n");

    let plain = child_steps(&args(&["true"])).ok().unwrap();
    assert_eq!(plain.len(), 2);
    assert!(matches!(&plain[0], ChildStep::Stop));
}

#[test]
fn a_forked_child_needs_c_strings() {
    let failure = |given: &Args| child_steps(given).err().map(|error| error.message()).unwrap();
    let nul = "argument contains an interior NUL byte";
    assert_eq!(failure(&args(&[])), "missing command after '--'");
    assert_eq!(failure(&args(&["a\0b"])), nul);
    let mut given = args(&["true"]);
    given.env_vars = vec!["A=\0".to_owned(), "B".to_owned()];
    assert_eq!(failure(&given), nul);
    given.env_vars = vec!["A\0=1".to_owned()];
    assert_eq!(failure(&given), nul);
    given.env_vars = vec!["B".to_owned(), "A=\0".to_owned()];
    assert_eq!(failure(&given), "invalid --env value \"B\"; expected KEY=VALUE");
    given.cwd = Some(b"\0".to_vec());
    assert_eq!(failure(&given), nul);
}

fn status(code: &str) -> FileRead {
    FileRead::Text(format!("Name:\tx\nState:\t{code} (state)\n"))
}

#[test]
fn the_wait_for_the_stop_follows_the_state() {
    for code in ["T", "t"] {
        assert!(matches!(wait_for_child_stop(0, 1, &status(code)), Poll::Ready));
    }
    for code in ["R", "S", "D", "TT", ""] {
        assert!(matches!(wait_for_child_stop(0, 1, &status(code)), Poll::Again(1)));
    }
    let failure = |elapsed_ns, read: &FileRead| match wait_for_child_stop(elapsed_ns, 10, read) {
        Poll::Failed(message) => message,
        other => panic!("{other:?}"),
    };
    for code in ["Z", "X", "x"] {
        assert_eq!(failure(9, &status(code)), "child exited before profiler attach completed");
    }
    assert_eq!(
        failure(0, &FileRead::Missing),
        "child exited before profiler attach completed"
    );
    assert_eq!(
        failure(0, &FileRead::Failed("io".to_owned())),
        "failed to inspect child state for profiler attach: io"
    );
    assert_eq!(
        failure(10, &status("T")),
        "timed out waiting for child to reach stopped state for profiler attach"
    );
}

#[test]
fn the_wait_for_the_release_ends_at_its_deadline() {
    assert!(matches!(wait_for_file(5, 10, true, b"go"), Poll::Ready));
    assert!(matches!(wait_for_file(5, 10, false, b"go"), Poll::Again(2)));
    match wait_for_file(10, 10, true, b"sync/\xff") {
        Poll::Failed(message) => assert_eq!(
            message,
            "timed out waiting for profiler release file sync/\u{fffd}"
        ),
        other => panic!("{other:?}"),
    }
    match wait_for_file(11, 10, false, "sync/frei-für".as_bytes()) {
        Poll::Failed(message) => {
            assert_eq!(message, "timed out waiting for profiler release file sync/frei-für")
        }
        other => panic!("{other:?}"),
    }
    assert_eq!(pid_line(4321), "4321\n");
}

#[test]
fn the_watch_kills_at_the_deadline_unless_called_off() {
    assert_eq!(watch_step(0, 10, false), WatchStep::Again(10));
    assert_eq!(watch_step(9, 10, false), WatchStep::Again(10));
    assert_eq!(watch_step(10, 10, false), WatchStep::Kill);
    assert_eq!(watch_step(0, 0, false), WatchStep::Kill);
    assert_eq!(watch_step(9, 10, true), WatchStep::Leave);
    assert_eq!(watch_step(10, 10, true), WatchStep::Leave);
    assert_eq!(kill_outcome(Kill::Sent), Ok(()));
    assert_eq!(kill_outcome(Kill::NoSuchProcess), Ok(()));
    assert_eq!(
        kill_outcome(Kill::Failed("denied".to_owned())),
        Err("failed to kill timed out child: denied".to_owned())
    );
}

#[test]
fn a_watch_waits_for_its_deadline_and_then_kills_once() {
    let mut watch = TimeoutWatch::start(2);
    assert_eq!(watch.timeout_ns, 2_000_000_000);
    assert_eq!(watch.killed(Kill::Sent), None);
    assert_eq!(watch.look(0, false), Some(WatchStep::Again(10)));
    assert_eq!(watch.look(1_999_999_999, false), Some(WatchStep::Again(10)));
    assert_eq!(watch.answer(), None);
    assert_eq!(watch.look(2_000_000_000, false), Some(WatchStep::Kill));
    assert_eq!(watch.look(2_000_000_001, false), None);
    assert_eq!(watch.look(2_000_000_001, true), None);
    assert_eq!(watch.answer(), None);
    assert_eq!(watch.killed(Kill::Sent), Some(Ok(())));
    assert_eq!(watch.answer(), Some(true));
    assert_eq!(watch.killed(Kill::Sent), None);
    assert_eq!(watch.look(3_000_000_000, true), None);
    assert_eq!(watch.state, WatchState::Triggered);
    assert_eq!(TimeoutWatch::start(u64::MAX).timeout_ns, u64::MAX as u128 * 1_000_000_000);
}

#[test]
fn a_watch_that_is_called_off_leaves_the_child_alone() {
    let mut watch = TimeoutWatch::start(1);
    assert_eq!(watch.look(2_000_000_000, true), Some(WatchStep::Leave));
    assert_eq!(watch.answer(), Some(false));
    assert_eq!(watch.look(2_000_000_000, false), None);
    assert_eq!(watch.killed(Kill::Sent), None);
    assert_eq!(watch.state, WatchState::Left);
}

#[test]
fn a_watch_that_cannot_kill_has_no_answer() {
    let mut watch = TimeoutWatch::start(0);
    assert_eq!(watch.look(0, false), Some(WatchStep::Kill));
    assert_eq!(
        watch.killed(Kill::Failed("denied".to_owned())),
        Some(Err("failed to kill timed out child: denied".to_owned()))
    );
    assert_eq!(watch.state, WatchState::Failed);
    assert_eq!(watch.answer(), None);
    let mut gone = TimeoutWatch::start(0);
    assert_eq!(gone.look(0, false), Some(WatchStep::Kill));
    assert_eq!(gone.killed(Kill::NoSuchProcess), Some(Ok(())));
    assert_eq!(gone.answer(), Some(true));
}
