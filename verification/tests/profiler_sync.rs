use memory_harness::profiler::{child_is_stopped, child_state_code};

#[test]
fn child_is_stopped_detects_linux_stop_states() {
    assert!(child_is_stopped("Name:\ttest\nState:\tT (stopped)\n"));
    assert!(child_is_stopped("Name:\ttest\nState:\tt (tracing stop)\n"));
    assert!(!child_is_stopped("Name:\ttest\nState:\tS (sleeping)\n"));
}

#[test]
fn child_state_code_reads_linux_proc_status() {
    assert_eq!(child_state_code("Name:\ttest\nState:\tT (stopped)\n"), Some("T"));
    assert_eq!(child_state_code("Name:\ttest\nState:\tZ (zombie)\n"), Some("Z"));
    assert_eq!(child_state_code("Name:\ttest\nThreads:\t1\n"), None);
}
