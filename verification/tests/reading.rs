use memory_harness::decimal::{signed_text, unsigned_text};
use memory_harness::proc_status::{
    observe_peak, observe_peak_u32, option_value, parse_kb, parse_plain_u32, proc_status_path,
    read_proc_status, sample_header, sample_row, ProcStatusSampler, ProcStatusSnapshot,
    SampleAction, SamplePause, SamplePhase,
};
use memory_harness::text::{chars_of, lines, space_char, trimmed, word, FileRead, Span};

fn lines_as_strings(text: &str) -> Vec<String> {
    let chars = chars_of(text);
    lines(&chars)
        .into_iter()
        .map(|span| chars[span.start..span.end].iter().collect())
        .collect()
}

#[test]
fn lines_end_at_newlines_with_or_without_carriage_return() {
    for text in ["", "\n", "a", "a\n", "a\r\nb\n\nc", "a\rb\nc\r", "\r\n", "x\r\r\ny", "é\nß"] {
        let expected: Vec<String> = text.lines().map(str::to_owned).collect();
        assert_eq!(lines_as_strings(text), expected, "{text:?}");
    }
}

#[test]
fn lines_written_are_the_lines_read() {
    let written = ["Name:\ttest", "", "Threads:\t1"];
    let text: String = written.iter().map(|line| format!("{line}\n")).collect();
    assert_eq!(lines_as_strings(&text), written);
}

#[test]
fn spaces_are_those_of_unicode() {
    for code in 0..=0x10ffff_u32 {
        if let Some(c) = char::from_u32(code) {
            assert_eq!(space_char(c), c.is_whitespace(), "{code:x}");
        }
    }
}

#[test]
fn words_and_trims_agree_with_the_standard_library() {
    for text in ["", "  ", "a", " a b ", "\u{a0}x\u{2003}y", "\u{3000}", "\t12 kB", "no-space"] {
        let chars = chars_of(text);
        let whole = Span { start: 0, end: chars.len() };
        let show = |span: Span| chars[span.start..span.end].iter().collect::<String>();
        assert_eq!(word(&chars, whole).map(show).as_deref(), text.split_whitespace().next());
        assert_eq!(show(trimmed(&chars, whole)), text.trim());
    }
}

#[test]
fn sizes_are_read_as_the_standard_library_reads_them() {
    for text in [
        "", " ", "0", "  1234 kB", "\t18446744073709551615 kB", "18446744073709551616", "+7", "+",
        "++1", "-1", "-0", "1_000", "0x10", "00000000000000000000000000012", "12kB", "\u{662}",
        "99999999999999999999999999999999999999999999", "1.5",
    ] {
        let expected = text.split_whitespace().next().and_then(|raw| raw.parse::<u64>().ok());
        assert_eq!(parse_kb(text), expected, "{text:?}");
    }
    assert_eq!(parse_kb("  1234 kB"), Some(1234));
    assert_eq!(parse_kb("18446744073709551616"), None);
}

#[test]
fn counts_stand_alone() {
    for text in ["", "1", " 3\n", "\t4294967295", "4294967296", "+2", "1 2", "x", "-1"] {
        assert_eq!(parse_plain_u32(text), text.trim().parse::<u32>().ok(), "{text:?}");
    }
    assert_eq!(parse_plain_u32("\t4294967295"), Some(u32::MAX));
    assert_eq!(parse_plain_u32("1 2"), None);
}

#[test]
fn numbers_are_written_in_decimal_and_read_back() {
    for n in [0, 9, 10, 99, 100, 1024, u64::MAX] {
        assert_eq!(unsigned_text(n as u128), n.to_string());
        assert_eq!(parse_kb(&unsigned_text(n as u128)), Some(n));
    }
    assert_eq!(unsigned_text(u128::MAX), u128::MAX.to_string());
    for n in [0, 1, -1, -10, i64::MAX, i64::MIN] {
        assert_eq!(signed_text(n), n.to_string());
    }
}

const STATUS: &str = "Name:\tsh\nVmHWM:\t    3120 kB\nVmRSS:\t    2048 kB\nRssAnon:\t     512 kB\n\
RssFile:\t    1536 kB\nRssShmem:\t       0 kB\nThreads:\t3\n";

#[test]
fn status_fields_are_read() {
    assert_eq!(
        read_proc_status(STATUS),
        ProcStatusSnapshot {
            vmrss_kb: Some(2048),
            vmhwm_kb: Some(3120),
            rss_anon_kb: Some(512),
            rss_file_kb: Some(1536),
            rss_shmem_kb: Some(0),
            threads: Some(3),
        }
    );
}

#[test]
fn absent_and_unreadable_status_fields_are_absent() {
    let empty = ProcStatusSnapshot {
        vmrss_kb: None,
        vmhwm_kb: None,
        rss_anon_kb: None,
        rss_file_kb: None,
        rss_shmem_kb: None,
        threads: None,
    };
    assert_eq!(read_proc_status(""), empty);
    assert_eq!(read_proc_status("State:\tZ (zombie)\n VmRSS: 1 kB\n"), empty);
    assert_eq!(read_proc_status("VmRSS:\t1 kB\nVmRSS:\tmany kB\n"), empty);
    assert_eq!(read_proc_status("VmRSS:\t1 kB\nVmRSS:\t2 kB\n").vmrss_kb, Some(2));
    assert_eq!(read_proc_status("Threads:\t1 of 2\n").threads, None);
}

#[test]
fn peaks_only_rise() {
    let mut slot = None;
    observe_peak(&mut slot, None);
    assert_eq!(slot, None);
    observe_peak(&mut slot, Some(5));
    observe_peak(&mut slot, Some(3));
    observe_peak(&mut slot, None);
    assert_eq!(slot, Some(5));
    observe_peak(&mut slot, Some(8));
    assert_eq!(slot, Some(8));
    let mut threads = Some(2);
    observe_peak_u32(&mut threads, Some(1));
    assert_eq!(threads, Some(2));
    observe_peak_u32(&mut threads, Some(4));
    assert_eq!(threads, Some(4));
}

#[test]
fn a_sampler_keeps_the_largest_of_what_it_saw() {
    let mut sampler = ProcStatusSampler::start(42, 10, Some(b"tmp/proc-status.tsv".to_vec()));
    assert_eq!(sampler.summary.sample_count, 0);
    for rss in [10_u64, 30, 20] {
        let text = format!("VmRSS:\t{rss} kB\nThreads:\t{}\n", rss / 10);
        match sampler.observe(FileRead::Text(text)) {
            Some(SampleAction::Record(snapshot)) => assert_eq!(snapshot.vmrss_kb, Some(rss)),
            other => panic!("{other:?}"),
        }
        assert_eq!(sampler.pause(false), Some(SamplePause::Sleep(10)));
    }
    assert!(matches!(sampler.observe(FileRead::Missing), Some(SampleAction::End)));
    assert_eq!(sampler.phase, SamplePhase::Ended);
    let summary = sampler.finish().unwrap();
    assert_eq!(summary.interval_ms, 10);
    assert_eq!(summary.sample_count, 3);
    assert_eq!(summary.peak_vmrss_kb, Some(30));
    assert_eq!(summary.peak_vmhwm_kb, None);
    assert_eq!(summary.peak_threads, Some(3));
    assert_eq!(summary.samples_path.as_deref(), Some("tmp/proc-status.tsv"));
}

#[test]
fn a_sampler_shows_its_path_as_text() {
    let shown = |out: Option<&[u8]>| {
        ProcStatusSampler::start(1, 1, out.map(<[u8]>::to_vec)).summary.samples_path
    };
    assert_eq!(shown(None), None);
    assert_eq!(shown(Some("größe.tsv".as_bytes())).as_deref(), Some("größe.tsv"));
    assert_eq!(shown(Some(b"\xffa")).as_deref(), Some("\u{fffd}a"));
}

#[test]
fn a_sampler_that_is_stopped_at_once_has_a_sample() {
    let mut sampler = ProcStatusSampler::start(42, 10, None);
    assert_eq!(sampler.pause(true), None);
    assert_eq!(sampler.phase, SamplePhase::Reading);
    let action = sampler.observe(FileRead::Text(STATUS.to_owned()));
    assert!(matches!(action, Some(SampleAction::Record(_))));
    assert_eq!(sampler.pause(true), Some(SamplePause::End));
    assert_eq!(sampler.phase, SamplePhase::Stopped);
    let summary = sampler.finish().unwrap();
    assert_eq!(summary.sample_count, 1);
    assert_eq!(summary.peak_vmrss_kb, Some(2048));
    assert_eq!(summary.peak_threads, Some(3));
}

#[test]
fn samples_and_pauses_take_turns() {
    let text = || FileRead::Text(STATUS.to_owned());
    let mut sampler = ProcStatusSampler::start(42, 10, None);
    assert_eq!(sampler.pause(false), None);
    assert!(sampler.observe(text()).is_some());
    assert!(sampler.observe(text()).is_none());
    assert!(sampler.observe(FileRead::Missing).is_none());
    assert_eq!(sampler.summary.sample_count, 1);
    assert_eq!(sampler.pause(true), Some(SamplePause::End));
    assert_eq!(sampler.pause(false), None);
    assert!(sampler.observe(text()).is_none());
    assert_eq!(sampler.summary.sample_count, 1);
}

#[test]
fn a_sampler_that_is_not_over_has_no_summary() {
    assert!(ProcStatusSampler::start(1, 1, None).finish().is_none());
    let mut sampler = ProcStatusSampler::start(1, 1, None);
    assert!(sampler.observe(FileRead::Text(String::new())).is_some());
    assert!(sampler.finish().is_none());
}

#[test]
fn a_sampler_fails_on_a_file_that_cannot_be_read() {
    let mut sampler = ProcStatusSampler::start(7, 1, None);
    match sampler.observe(FileRead::Failed("No such process (os error 3)".to_owned())) {
        Some(SampleAction::Fail(message)) => assert_eq!(
            message,
            "failed to read /proc/7/status: No such process (os error 3)"
        ),
        other => panic!("{other:?}"),
    }
    assert_eq!(sampler.phase, SamplePhase::Failed);
    assert_eq!(sampler.summary.sample_count, 0);
    assert_eq!(sampler.summary.samples_path, None);
    assert_eq!(sampler.pause(true), None);
    assert!(sampler.finish().is_none());
}

#[test]
fn rows_have_the_columns_of_the_header() {
    let row = sample_row(17, &read_proc_status(STATUS));
    assert_eq!(row, "17\t2048\t3120\t512\t1536\t0\t3");
    let absent = sample_row(u128::MAX, &read_proc_status(""));
    assert_eq!(absent, format!("{}\t-\t-\t-\t-\t-\t-", u128::MAX));
    assert_eq!(
        sample_header(),
        "elapsed_ms\tvmrss_kb\tvmhwm_kb\trssanon_kb\trssfile_kb\trssshmem_kb\tthreads"
    );
    let columns = |line: &str| line.split('\t').count();
    assert_eq!(columns(&row), columns(&sample_header()));
    assert_eq!(columns(&absent), columns(&sample_header()));
    assert_eq!(option_value(Some(0)), "0");
    assert_eq!(option_value(None), "-");
    assert_eq!(proc_status_path(1), "/proc/1/status");
}
