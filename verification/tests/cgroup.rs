use memory_harness::cgroup::{
    bytes_to_kib, cgroup_report, discover_memory_cgroup_base, join, read_memory_stat_kib, read_u64,
    session_path, AttachAction, AttachEvent, CgroupError, CgroupMemorySession, MemoryFiles,
    MemoryStatKib, Removal,
};
use memory_harness::text::FileRead;

fn text(content: &str) -> FileRead {
    FileRead::Text(content.to_owned())
}

fn session() -> CgroupMemorySession {
    CgroupMemorySession { path: "/sys/fs/cgroup/run".to_owned() }
}

fn files(current: FileRead, peak: FileRead, stat: FileRead) -> MemoryFiles {
    MemoryFiles { current, peak, stat }
}

#[test]
fn bytes_are_rounded_down_to_kib() {
    assert_eq!(bytes_to_kib(0), 0);
    assert_eq!(bytes_to_kib(1023), 0);
    assert_eq!(bytes_to_kib(2049), 2);
    assert_eq!(bytes_to_kib(u64::MAX), u64::MAX / 1024);
}

#[test]
fn counters_are_their_first_word() {
    assert!(matches!(read_u64("4096\n"), Ok(4096)));
    for content in ["max\n", "", "  \n", "-1", "18446744073709551616"] {
        match read_u64(content) {
            Err(error) => assert_eq!(error.message(), "invalid cgroup memory counter format"),
            Ok(n) => panic!("{n}"),
        }
    }
}

#[test]
fn memory_stat_totals_are_read() {
    let stat = text("anon 10240\nfile 2048\nkernel 999999\nshmem 1023\nrss 4096\nrss_huge 8192\n");
    assert_eq!(
        read_memory_stat_kib(&stat).ok(),
        Some(MemoryStatKib {
            anon: Some(10),
            file: Some(2),
            shmem: Some(0),
            rss: Some(4),
            rss_huge: Some(8),
        })
    );
}

#[test]
fn memory_stat_lines_without_a_number_change_nothing() {
    let stat = text("anon 2048\nanon many\nanon\n\nfile\t4096 extra\nanonymous 1024\n");
    let stats = read_memory_stat_kib(&stat).ok().unwrap();
    assert_eq!((stats.anon, stats.file, stats.shmem), (Some(2), Some(4), None));
    let twice = read_memory_stat_kib(&text("anon 1024\nanon 3072\n")).ok().unwrap();
    assert_eq!(twice.anon, Some(3));
}

#[test]
fn usage_sums_what_is_there() {
    let stat = text("anon 1048576\nfile 524288\nshmem 1024\n");
    let usage = session()
        .read_usage(&files(text("2097152\n"), text("max\n"), stat))
        .ok()
        .unwrap();
    assert_eq!(usage.path.as_deref(), Some("/sys/fs/cgroup/run"));
    assert_eq!(usage.current_kb, Some(2048));
    assert_eq!(usage.peak_kb, None);
    assert_eq!(usage.anon_kb, Some(1024));
    assert_eq!(usage.file_kb, Some(512));
    assert_eq!(usage.shmem_kb, Some(1));
    assert_eq!(usage.cache_kb, Some(513));
    assert_eq!(usage.rss_cache_kb, Some(1537));
    assert_eq!(usage.rss_kb, None);
    assert_eq!(usage.rss_huge_kb, None);
}

#[test]
fn usage_of_parts_that_are_missing() {
    let sums = |stat: FileRead| {
        let usage = session()
            .read_usage(&files(FileRead::Missing, FileRead::Failed("x".to_owned()), stat))
            .ok()
            .unwrap();
        assert_eq!((usage.current_kb, usage.peak_kb), (None, None));
        (usage.cache_kb, usage.rss_cache_kb)
    };
    assert_eq!(sums(FileRead::Missing), (None, None));
    assert_eq!(sums(text("anon 1024\n")), (None, Some(1)));
    assert_eq!(sums(text("file 2048\n")), (Some(2), Some(2)));
    assert_eq!(sums(text("shmem 3072\n")), (Some(3), Some(3)));
    assert_eq!(sums(text("anon 1024\nshmem 3072\n")), (Some(3), Some(4)));
}

#[test]
fn collecting_needs_the_statistics_and_the_removal() {
    let stat = || text("anon 1024\n");
    let collect = |stat: FileRead, removal: Removal| {
        session()
            .collect_and_cleanup(&files(text("1024"), text("2048"), stat), removal)
            .map(|usage| (usage.current_kb, usage.peak_kb, usage.anon_kb))
            .map_err(|error| error.message())
    };
    let expected = Ok((Some(1), Some(2), Some(1)));
    assert_eq!(collect(stat(), Removal::Removed), expected);
    assert_eq!(collect(stat(), Removal::NotFound), expected);
    assert_eq!(collect(stat(), Removal::NotEmpty), expected);
    assert_eq!(
        collect(stat(), Removal::Failed("denied".to_owned())),
        Err("failed to remove cgroup session /sys/fs/cgroup/run: denied".to_owned())
    );
    assert_eq!(
        collect(FileRead::Failed("io".to_owned()), Removal::Failed("denied".to_owned())),
        Err("io".to_owned())
    );
    assert!(session().cleanup(Removal::NotEmpty).is_ok());
    assert!(session().cleanup(Removal::Failed("denied".to_owned())).is_err());
}

#[test]
fn paths_are_joined_as_the_standard_library_joins_them() {
    for base in ["", "/", "/a", "/a/", "a"] {
        for component in ["", "b", "b/c", "/b"] {
            let expected = std::path::Path::new(base).join(component);
            assert_eq!(join(base, component), expected.display().to_string());
        }
    }
}

#[test]
fn the_base_is_below_the_mount_point() {
    let base = |contents: &str| discover_memory_cgroup_base(contents);
    assert_eq!(base("0::/user.slice/a.scope\n").as_deref(), Some("/sys/fs/cgroup/user.slice/a.scope"));
    assert_eq!(base("0::/\n").as_deref(), Some("/sys/fs/cgroup"));
    assert_eq!(base("0::\n").as_deref(), Some("/sys/fs/cgroup"));
    assert_eq!(base("0:: //x \n").as_deref(), Some("/sys/fs/cgroup/x"));
    assert_eq!(base("0:://\n").as_deref(), Some("/sys/fs/cgroup/"));
    assert_eq!(base("12:memory:/v1\n0::/first\n0::/second\n").as_deref(), Some("/sys/fs/cgroup/first"));
    assert_eq!(base("12:memory:/v1\n"), None);
    assert_eq!(base(""), None);
}

#[test]
fn session_paths_tell_runs_apart() {
    assert_eq!(session_path("/sys/fs/cgroup", 12, 345), "/sys/fs/cgroup/memory-harness-12-345");
    assert_eq!(session_path("/sys/fs/cgroup/", 1, 0), "/sys/fs/cgroup/memory-harness-1-0");
    assert_ne!(session_path("/c", 1, 23), session_path("/c", 12, 3));
}

#[test]
fn an_attach_goes_through_its_steps() {
    let attach = CgroupMemorySession::attach_child(99, 12, 345);
    assert!(matches!(attach.action, AttachAction::ReadSelfCgroup));
    let attach = attach.advance(AttachEvent::SelfCgroup(Ok("0::/a\n".to_owned()))).unwrap();
    assert!(matches!(&attach.action, AttachAction::ProbeBase { base } if base == "/sys/fs/cgroup/a"));
    let attach = attach
        .advance(AttachEvent::BaseProbed { memory_current_is_file: true, base_exists: true })
        .unwrap();
    let expected = "/sys/fs/cgroup/a/memory-harness-12-345";
    assert!(matches!(&attach.action, AttachAction::CreateSession { path } if path == expected));
    let attach = attach.advance(AttachEvent::SessionCreated(Ok(()))).unwrap();
    assert!(matches!(&attach.action, AttachAction::MoveChild { path } if path == expected));
    let attach = attach.advance(AttachEvent::ChildMoved(Ok(()))).unwrap();
    let AttachAction::Finished { attached } = attach.action else {
        panic!("not finished");
    };
    let setup = CgroupMemorySession::attach_child_with_reason(attached);
    assert_eq!(setup.session.map(|session| session.path).as_deref(), Some(expected));
    assert_eq!(setup.status, None);
}

fn finished(events: Vec<AttachEvent>) -> (bool, Option<String>) {
    let mut attach = CgroupMemorySession::attach_child(99, 12, 345);
    for event in events {
        attach = attach.advance(event).unwrap();
    }
    let AttachAction::Finished { attached } = attach.action else {
        panic!("not finished");
    };
    let setup = CgroupMemorySession::attach_child_with_reason(attached);
    (setup.session.is_some(), setup.status)
}

#[test]
fn an_attach_that_fails_says_why() {
    let read = || AttachEvent::SelfCgroup(Ok("0::/\n".to_owned()));
    let probed = |memory_current_is_file, base_exists| AttachEvent::BaseProbed {
        memory_current_is_file,
        base_exists,
    };
    let path = "/sys/fs/cgroup/memory-harness-12-345";
    assert_eq!(
        finished(vec![AttachEvent::SelfCgroup(Err("gone".to_owned()))]),
        (false, Some("cgroup setup failed: failed to read /proc/self/cgroup: gone".to_owned()))
    );
    let unavailable =
        (false, Some("cgroup v2 memory controller not available for this process".to_owned()));
    assert_eq!(finished(vec![AttachEvent::SelfCgroup(Ok(String::new()))]), unavailable);
    assert_eq!(finished(vec![read(), probed(false, true)]), unavailable);
    assert_eq!(finished(vec![read(), probed(true, false)]), unavailable);
    assert_eq!(
        finished(vec![
            read(),
            probed(true, true),
            AttachEvent::SessionCreated(Err("denied".to_owned())),
        ]),
        (
            false,
            Some(format!("cgroup setup failed: failed to create cgroup session at {path}: denied"))
        )
    );
    assert_eq!(
        finished(vec![
            read(),
            probed(true, true),
            AttachEvent::SessionCreated(Ok(())),
            AttachEvent::ChildMoved(Err("busy".to_owned())),
        ]),
        (
            false,
            Some(format!("cgroup setup failed: failed to move child 99 into {path}: busy"))
        )
    );
}

#[test]
fn an_attach_takes_no_event_out_of_order() {
    let attach = CgroupMemorySession::attach_child(1, 2, 3);
    assert!(attach.advance(AttachEvent::ChildMoved(Ok(()))).is_none());
    let over = CgroupMemorySession::attach_child(1, 2, 3)
        .advance(AttachEvent::SelfCgroup(Ok(String::new())))
        .unwrap();
    assert!(over.advance(AttachEvent::SelfCgroup(Ok(String::new()))).is_none());
}

#[test]
fn a_report_has_memory_or_a_reason() {
    let usage = session()
        .read_usage(&files(text("1024"), text("1024"), FileRead::Missing))
        .ok()
        .unwrap();
    let (memory, status) = cgroup_report(None, Some(Ok(usage)));
    assert_eq!(memory.and_then(|memory| memory.current_kb), Some(1));
    assert_eq!(status, None);
    let (memory, status) =
        cgroup_report(None, Some(Err(CgroupError::StatUnreadable { cause: "io".to_owned() })));
    assert!(memory.is_none());
    assert_eq!(status.as_deref(), Some("cgroup collection failed: io"));
    let (memory, status) = cgroup_report(Some("why".to_owned()), None);
    assert!(memory.is_none());
    assert_eq!(status.as_deref(), Some("why"));
}
