//! The report of a run.
use vstd::prelude::*;
use vstd::utf8::{decode_utf8, valid_utf8};

use crate::args::{assignment, command_strings, law_assignment_round_trip, Args};
use crate::decimal::{
    decimal, law_decimal_text_is_its_number, signed_decimal, signed_text, unsigned_text,
};
use crate::proc_status::{widened, ProcStatusSummary};
use crate::render::{debug_text, lossy_text, shows, shows_path, text_debug, text_lossy};
use crate::run::{
    exit_code_of, law_a_killed_child_timed_out, reached, status_string, status_text, stopped_with,
    Outcome, RunPlan,
};
use crate::rusage::{code_of, law_exit_or_signal, signal_of, CpuTime, Usage, WaitOutcome};
use crate::text::{is_digit, lemma_split_appended, lemma_split_whole, split};
use crate::timeout::{watch_reached, WatchEvent};

verus! {

/// The memory that the cgroup of a run accounts for. Sizes are in KiB; one that
/// the kernel does not give is absent.
#[derive(Debug, Clone)]
pub struct CgroupMemorySummary {
    pub path: Option<String>,
    pub current_kb: Option<u64>,
    pub peak_kb: Option<u64>,
    pub anon_kb: Option<u64>,
    pub file_kb: Option<u64>,
    pub shmem_kb: Option<u64>,
    pub cache_kb: Option<u64>,
    pub rss_cache_kb: Option<u64>,
    pub rss_kb: Option<u64>,
    pub rss_huge_kb: Option<u64>,
}

/// A stretch of time.
#[derive(Copy, Clone, Debug, PartialEq, Eq, Structural)]
pub struct Elapsed {
    pub seconds: u64,
    pub nanos: u32,
}

/// What was measured in a run.
#[derive(Debug)]
pub struct Measurements {
    pub outcome: WaitOutcome,
    pub timed_out: bool,
    pub elapsed: Elapsed,
    pub harness: Usage,
    pub proc_status: Option<ProcStatusSummary>,
    pub cgroup_memory: Option<CgroupMemorySummary>,
    pub cgroup_memory_status: Option<String>,
}

/// What is reported of a run. Times are as they were measured; seconds, MiB and
/// rates as decimal fractions are left to what writes the report.
#[derive(Debug, Clone)]
pub struct Report {
    pub command: Vec<String>,
    pub cwd: Option<String>,
    pub status: String,
    pub exit_code: Option<i32>,
    pub signal: Option<i32>,
    pub timed_out: bool,
    pub timeout_seconds: Option<u64>,
    pub elapsed: Elapsed,
    pub child_max_rss_kb: i64,
    pub child_user_cpu: CpuTime,
    pub child_system_cpu: CpuTime,
    pub child_minor_faults: i64,
    pub child_major_faults: i64,
    pub child_voluntary_ctx_switches: i64,
    pub child_involuntary_ctx_switches: i64,
    pub harness_max_rss_kb: i64,
    pub proc_status: Option<ProcStatusSummary>,
    pub child_cgroup_memory: Option<CgroupMemorySummary>,
    pub child_cgroup_memory_status: Option<String>,
    pub objects_processed: Option<u64>,
}

impl Report {
    /// Whether this is the report of a run that was asked for by `args` and measured
    /// as `measured`: what was run, how it ended, and what was measured, each as it is.
    pub open spec fn describes(self, args: Args, measured: Measurements) -> bool {
        &&& self.command@.len() == args.command@.len()
        &&& forall|i: int|
            0 <= i < self.command@.len() ==> shows(
                (#[trigger] self.command@[i])@,
                args.command@[i]@,
            )
        &&& shows_path(self.cwd, args.cwd)
        &&& self.status@ == status_text(measured.outcome.status.raw, measured.timed_out)
        &&& self.exit_code == code_of(measured.outcome.status.raw)
        &&& self.signal == signal_of(measured.outcome.status.raw)
        &&& self.timed_out == measured.timed_out
        &&& self.timeout_seconds == args.child_timeout_seconds
        &&& self.elapsed == measured.elapsed
        &&& self.child_max_rss_kb == measured.outcome.usage.max_rss_kb
        &&& self.child_user_cpu == measured.outcome.usage.user_cpu
        &&& self.child_system_cpu == measured.outcome.usage.system_cpu
        &&& self.child_minor_faults == measured.outcome.usage.minor_faults
        &&& self.child_major_faults == measured.outcome.usage.major_faults
        &&& self.child_voluntary_ctx_switches == measured.outcome.usage.voluntary_ctx_switches
        &&& self.child_involuntary_ctx_switches == measured.outcome.usage.involuntary_ctx_switches
        &&& self.harness_max_rss_kb == measured.harness.max_rss_kb
        &&& self.proc_status == measured.proc_status
        &&& self.child_cgroup_memory == measured.cgroup_memory
        &&& self.child_cgroup_memory_status == measured.cgroup_memory_status
        &&& self.objects_processed == args.objects_processed
    }

    /// The report of a run that was asked for by `args` and measured as `measured`.
    pub fn new(args: &Args, measured: Measurements) -> (report: Report)
        ensures
            report.describes(*args, measured),
    {
        let cwd = match &args.cwd {
            Some(path) => Some(text_lossy(path.as_slice())),
            None => None,
        };
        let status = measured.outcome.status;
        let usage = measured.outcome.usage;
        Report {
            command: command_strings(&args.command),
            cwd,
            status: status_string(status, measured.timed_out),
            exit_code: status.code(),
            signal: status.signal(),
            timed_out: measured.timed_out,
            timeout_seconds: args.child_timeout_seconds,
            elapsed: measured.elapsed,
            child_max_rss_kb: usage.max_rss_kb,
            child_user_cpu: usage.user_cpu,
            child_system_cpu: usage.system_cpu,
            child_minor_faults: usage.minor_faults,
            child_major_faults: usage.major_faults,
            child_voluntary_ctx_switches: usage.voluntary_ctx_switches,
            child_involuntary_ctx_switches: usage.involuntary_ctx_switches,
            harness_max_rss_kb: measured.harness.max_rss_kb,
            proc_status: measured.proc_status,
            child_cgroup_memory: measured.cgroup_memory,
            child_cgroup_memory_status: measured.cgroup_memory_status,
            objects_processed: args.objects_processed,
        }
    }
}

/// A run whose watch killed the child, or found it gone, at the deadline is reported
/// as timed out, with the timeout that was asked for, and exits with 124, however the
/// child is said to have ended.
pub proof fn law_a_killed_child_is_reported(
    plan: RunPlan,
    outcomes: Seq<Outcome>,
    seconds: u64,
    events: Seq<WatchEvent>,
    killed: int,
    args: Args,
    measured: Measurements,
    report: Report,
)
    requires
        args.child_timeout_seconds == Some(seconds),
        plan.timeout_seconds == args.child_timeout_seconds,
        reached(plan, outcomes) is Some,
        (reached(plan, outcomes)->0).step is Finished,
        watch_reached(seconds, events) is Some,
        stopped_with(plan, outcomes, watch_reached(seconds, events)->0),
        0 <= killed < events.len(),
        events[killed] matches WatchEvent::Killed(kill) && kill !is Failed,
        measured.timed_out == (reached(plan, outcomes)->0).timed_out,
        report.describes(args, measured),
    ensures
        report.timed_out,
        report.status@ == "timeout"@,
        report.timeout_seconds == Some(seconds),
        exit_code_of(measured.outcome.status.raw, measured.timed_out) == Some(124int),
{
    let raw = measured.outcome.status.raw;
    law_a_killed_child_timed_out(plan, outcomes, seconds, events, killed, raw);
}

/// The number that the elapsed time is divided by to give the time per object, if
/// there is such a time: the number of objects, unless it is zero.
pub fn elapsed_per_object(objects_processed: Option<u64>) -> (divisor: Option<u64>)
    ensures
        divisor == (match objects_processed {
            Some(objects) => if objects == 0 {
                None
            } else {
                Some(objects)
            },
            None => None,
        }),
        divisor is Some <==> objects_processed is Some && objects_processed->0 > 0,
        divisor is Some ==> divisor == objects_processed,
{
    match objects_processed {
        Some(objects) => if objects == 0 {
            None
        } else {
            Some(objects)
        },
        None => None,
    }
}

/// The decimal fractions of a report, written out: times with three places, MiB with
/// two, the rate with three and the time per object with six.
#[derive(Debug, Clone)]
pub struct Figures {
    pub elapsed_s: String,
    pub child_max_rss_mb: String,
    pub child_user_cpu_s: String,
    pub child_system_cpu_s: String,
    pub harness_max_rss_mb: String,
    pub objects_per_second: Option<String>,
    pub seconds_per_object: Option<String>,
}

/// A number, or `none`.
pub open spec fn u64_or_none(value: Option<u64>) -> Seq<char> {
    match value {
        Some(n) => decimal(n as nat),
        None => "none"@,
    }
}

/// A number, or `none`.
pub open spec fn i32_or_none(value: Option<i32>) -> Seq<char> {
    match value {
        Some(n) => signed_decimal(n as int),
        None => "none"@,
    }
}

/// A text, or `none`.
pub open spec fn text_or_none(value: Option<String>) -> Seq<char> {
    match value {
        Some(s) => s@,
        None => "none"@,
    }
}

/// A truth value as text.
pub open spec fn bool_text(value: bool) -> Seq<char> {
    if value {
        "true"@
    } else {
        "false"@
    }
}

/// `items` in order, with a comma and a space between each two.
pub open spec fn comma_separated(items: Seq<Seq<char>>) -> Seq<char>
    decreases items.len(),
{
    if items.len() == 0 {
        seq![]
    } else if items.len() == 1 {
        items[0]
    } else {
        comma_separated(items.drop_last()) + ", "@ + items.last()
    }
}

/// The texts of strings.
pub open spec fn texts(strings: Seq<String>) -> Seq<Seq<char>> {
    Seq::new(strings.len(), |i: int| strings[i]@)
}

/// A command as it is shown: its words, each as strings are shown, in brackets.
pub open spec fn command_text(command: Seq<String>) -> Seq<char> {
    "["@ + comma_separated(Seq::new(command.len(), |i: int| debug_text(command[i]@))) + "]"@
}

/// A number, or `none`.
pub fn option_i32(value: Option<i32>) -> (s: String)
    ensures
        s@ == i32_or_none(value),
{
    match value {
        Some(n) => signed_text(n as i64),
        None => String::from_str("none"),
    }
}

/// A number, or `none`.
pub fn option_u64(value: Option<u64>) -> (s: String)
    ensures
        s@ == u64_or_none(value),
{
    match value {
        Some(n) => unsigned_text(n as u128),
        None => String::from_str("none"),
    }
}

fn option_str(value: &Option<String>) -> (s: String)
    ensures
        s@ == text_or_none(*value),
{
    match value {
        Some(s) => String::from_str(s.as_str()),
        None => String::from_str("none"),
    }
}

fn bool_str(value: bool) -> (s: &'static str)
    ensures
        s@ == bool_text(value),
{
    if value {
        "true"
    } else {
        "false"
    }
}

/// Shown words as a list.
pub fn bracketed_list(shown: &Vec<String>) -> (s: String)
    ensures
        s@ == "["@ + comma_separated(texts(shown@)) + "]"@,
{
    let mut inner = String::new();
    let mut i: usize = 0;
    assert(texts(shown@).take(0) == Seq::<Seq<char>>::empty());
    while i < shown.len()
        invariant
            i <= shown@.len(),
            inner@ == comma_separated(texts(shown@).take(i as int)),
        decreases shown.len() - i,
    {
        proof {
            let now = texts(shown@).take(i + 1);
            assert(now.drop_last() == texts(shown@).take(i as int));
            assert(now.last() == shown@[i as int]@);
        }
        if i > 0 {
            inner.append(", ");
        }
        let ghost before = inner@;
        inner.append(shown[i].as_str());
        assert(i == 0 ==> before + shown@[i as int]@ == shown@[i as int]@);
        i = i + 1;
    }
    assert(texts(shown@).take(shown@.len() as int) == texts(shown@));
    let mut s = String::from_str("[");
    s.append(inner.as_str());
    s.append("]");
    s
}

fn command_list(command: &Vec<String>) -> (s: String)
    ensures
        s@ == command_text(command@),
{
    let mut shown: Vec<String> = Vec::new();
    let mut i: usize = 0;
    while i < command.len()
        invariant
            i <= command@.len(),
            shown@.len() == i,
            forall|j: int| 0 <= j < i ==> (#[trigger] shown@[j])@ == debug_text(command@[j]@),
        decreases command.len() - i,
    {
        shown.push(text_debug(command[i].as_str()));
        i = i + 1;
    }
    assert(texts(shown@) == Seq::new(command@.len(), |j: int| debug_text(command@[j]@)));
    bracketed_list(&shown)
}

/// The line on how the run ended.
pub open spec fn ending_line(report: Report, figures: Figures) -> Seq<char> {
    "status="@ + report.status@ + " timed_out="@ + bool_text(report.timed_out)
        + " timeout_seconds="@ + u64_or_none(report.timeout_seconds) + " elapsed_s="@
        + figures.elapsed_s@ + " child_max_rss_kb="@ + signed_decimal(
        report.child_max_rss_kb as int,
    ) + " child_max_rss_mb="@ + figures.child_max_rss_mb@ + " exit_code="@ + i32_or_none(
        report.exit_code,
    ) + " signal="@ + i32_or_none(report.signal) + " command="@ + command_text(report.command@)
}

/// The line on what the child used.
pub open spec fn child_line(report: Report, figures: Figures) -> Seq<char> {
    "child_user_cpu_s="@ + figures.child_user_cpu_s@ + " child_system_cpu_s="@
        + figures.child_system_cpu_s@ + " child_minor_faults="@ + signed_decimal(
        report.child_minor_faults as int,
    ) + " child_major_faults="@ + signed_decimal(report.child_major_faults as int)
        + " child_voluntary_ctx_switches="@ + signed_decimal(
        report.child_voluntary_ctx_switches as int,
    ) + " child_involuntary_ctx_switches="@ + signed_decimal(
        report.child_involuntary_ctx_switches as int,
    )
}

/// The line on the harness.
pub open spec fn harness_line(report: Report, figures: Figures) -> Seq<char> {
    "harness_max_rss_kb="@ + signed_decimal(report.harness_max_rss_kb as int)
        + " harness_max_rss_mb="@ + figures.harness_max_rss_mb@ + " cwd="@ + text_or_none(report.cwd)
}

/// The line on the throughput of a run that processed `objects`.
pub open spec fn throughput_line(objects: u64, figures: Figures) -> Seq<char> {
    "objects_processed="@ + decimal(objects as nat) + " objects_per_second="@ + text_or_none(
        figures.objects_per_second,
    ) + " seconds_per_object="@ + text_or_none(figures.seconds_per_object)
}

/// The line on the samples of the child's status.
pub open spec fn samples_line(summary: ProcStatusSummary) -> Seq<char> {
    "proc_status_interval_ms="@ + decimal(summary.interval_ms as nat)
        + " proc_status_sample_count="@ + decimal(summary.sample_count as nat)
        + " proc_status_peak_vmrss_kb="@ + u64_or_none(summary.peak_vmrss_kb)
        + " proc_status_peak_vmhwm_kb="@ + u64_or_none(summary.peak_vmhwm_kb)
        + " proc_status_peak_rss_anon_kb="@ + u64_or_none(summary.peak_rss_anon_kb)
        + " proc_status_peak_rss_file_kb="@ + u64_or_none(summary.peak_rss_file_kb)
        + " proc_status_peak_rss_shmem_kb="@ + u64_or_none(summary.peak_rss_shmem_kb)
        + " proc_status_peak_threads="@ + u64_or_none(widened(summary.peak_threads))
        + " proc_status_samples_path="@ + text_or_none(summary.samples_path)
}

/// The line on the memory of the run's cgroup.
pub open spec fn cgroup_line(memory: CgroupMemorySummary) -> Seq<char> {
    "child_cgroup_memory_path="@ + text_or_none(memory.path) + " child_cgroup_memory_current_kb="@
        + u64_or_none(memory.current_kb) + " child_cgroup_memory_peak_kb="@ + u64_or_none(
        memory.peak_kb,
    ) + " child_cgroup_memory_anon_kb="@ + u64_or_none(memory.anon_kb)
        + " child_cgroup_memory_file_kb="@ + u64_or_none(memory.file_kb)
        + " child_cgroup_memory_shmem_kb="@ + u64_or_none(memory.shmem_kb)
        + " child_cgroup_memory_cache_kb="@ + u64_or_none(memory.cache_kb)
        + " child_cgroup_memory_rss_cache_kb="@ + u64_or_none(memory.rss_cache_kb)
}

/// The line on why there is no memory of a cgroup.
pub open spec fn cgroup_status_line(status: Seq<char>) -> Seq<char> {
    "child_cgroup_memory_status="@ + status
}

/// One line, if there is cause for it.
pub open spec fn line_if(cause: bool, line: Seq<char>) -> Seq<Seq<char>> {
    if cause {
        seq![line]
    } else {
        seq![]
    }
}

/// The lines of a report for people to read: three in any case, and one more for each
/// optional part that it has.
pub open spec fn human_lines(report: Report, figures: Figures) -> Seq<Seq<char>> {
    seq![
        ending_line(report, figures),
        child_line(report, figures),
        harness_line(report, figures),
    ] + line_if(
        report.objects_processed is Some,
        throughput_line(report.objects_processed->0, figures),
    ) + line_if(report.proc_status is Some, samples_line(report.proc_status->0)) + line_if(
        report.child_cgroup_memory is Some,
        cgroup_line(report.child_cgroup_memory->0),
    ) + line_if(
        report.child_cgroup_memory_status is Some,
        cgroup_status_line(report.child_cgroup_memory_status->0@),
    )
}

fn ending_text(report: &Report, figures: &Figures) -> (s: String)
    ensures
        s@ == ending_line(*report, *figures),
{
    let mut s = String::from_str("status=");
    s.append(report.status.as_str());
    s.append(" timed_out=");
    s.append(bool_str(report.timed_out));
    s.append(" timeout_seconds=");
    s.append(option_u64(report.timeout_seconds).as_str());
    s.append(" elapsed_s=");
    s.append(figures.elapsed_s.as_str());
    s.append(" child_max_rss_kb=");
    s.append(signed_text(report.child_max_rss_kb).as_str());
    s.append(" child_max_rss_mb=");
    s.append(figures.child_max_rss_mb.as_str());
    s.append(" exit_code=");
    s.append(option_i32(report.exit_code).as_str());
    s.append(" signal=");
    s.append(option_i32(report.signal).as_str());
    s.append(" command=");
    s.append(command_list(&report.command).as_str());
    s
}

fn child_text(report: &Report, figures: &Figures) -> (s: String)
    ensures
        s@ == child_line(*report, *figures),
{
    let mut s = String::from_str("child_user_cpu_s=");
    s.append(figures.child_user_cpu_s.as_str());
    s.append(" child_system_cpu_s=");
    s.append(figures.child_system_cpu_s.as_str());
    s.append(" child_minor_faults=");
    s.append(signed_text(report.child_minor_faults).as_str());
    s.append(" child_major_faults=");
    s.append(signed_text(report.child_major_faults).as_str());
    s.append(" child_voluntary_ctx_switches=");
    s.append(signed_text(report.child_voluntary_ctx_switches).as_str());
    s.append(" child_involuntary_ctx_switches=");
    s.append(signed_text(report.child_involuntary_ctx_switches).as_str());
    s
}

fn harness_text(report: &Report, figures: &Figures) -> (s: String)
    ensures
        s@ == harness_line(*report, *figures),
{
    let mut s = String::from_str("harness_max_rss_kb=");
    s.append(signed_text(report.harness_max_rss_kb).as_str());
    s.append(" harness_max_rss_mb=");
    s.append(figures.harness_max_rss_mb.as_str());
    s.append(" cwd=");
    s.append(option_str(&report.cwd).as_str());
    s
}

fn throughput_text(objects: u64, figures: &Figures) -> (s: String)
    ensures
        s@ == throughput_line(objects, *figures),
{
    let mut s = String::from_str("objects_processed=");
    s.append(unsigned_text(objects as u128).as_str());
    s.append(" objects_per_second=");
    s.append(option_str(&figures.objects_per_second).as_str());
    s.append(" seconds_per_object=");
    s.append(option_str(&figures.seconds_per_object).as_str());
    s
}

fn samples_text(summary: &ProcStatusSummary) -> (s: String)
    ensures
        s@ == samples_line(*summary),
{
    let peak_threads: Option<u64> = match summary.peak_threads {
        Some(n) => Some(n as u64),
        None => None,
    };
    let mut s = String::from_str("proc_status_interval_ms=");
    s.append(unsigned_text(summary.interval_ms as u128).as_str());
    s.append(" proc_status_sample_count=");
    s.append(unsigned_text(summary.sample_count as u128).as_str());
    s.append(" proc_status_peak_vmrss_kb=");
    s.append(option_u64(summary.peak_vmrss_kb).as_str());
    s.append(" proc_status_peak_vmhwm_kb=");
    s.append(option_u64(summary.peak_vmhwm_kb).as_str());
    s.append(" proc_status_peak_rss_anon_kb=");
    s.append(option_u64(summary.peak_rss_anon_kb).as_str());
    s.append(" proc_status_peak_rss_file_kb=");
    s.append(option_u64(summary.peak_rss_file_kb).as_str());
    s.append(" proc_status_peak_rss_shmem_kb=");
    s.append(option_u64(summary.peak_rss_shmem_kb).as_str());
    s.append(" proc_status_peak_threads=");
    s.append(option_u64(peak_threads).as_str());
    s.append(" proc_status_samples_path=");
    s.append(option_str(&summary.samples_path).as_str());
    s
}

fn cgroup_text(memory: &CgroupMemorySummary) -> (s: String)
    ensures
        s@ == cgroup_line(*memory),
{
    let mut s = String::from_str("child_cgroup_memory_path=");
    s.append(option_str(&memory.path).as_str());
    s.append(" child_cgroup_memory_current_kb=");
    s.append(option_u64(memory.current_kb).as_str());
    s.append(" child_cgroup_memory_peak_kb=");
    s.append(option_u64(memory.peak_kb).as_str());
    s.append(" child_cgroup_memory_anon_kb=");
    s.append(option_u64(memory.anon_kb).as_str());
    s.append(" child_cgroup_memory_file_kb=");
    s.append(option_u64(memory.file_kb).as_str());
    s.append(" child_cgroup_memory_shmem_kb=");
    s.append(option_u64(memory.shmem_kb).as_str());
    s.append(" child_cgroup_memory_cache_kb=");
    s.append(option_u64(memory.cache_kb).as_str());
    s.append(" child_cgroup_memory_rss_cache_kb=");
    s.append(option_u64(memory.rss_cache_kb).as_str());
    s
}

/// The lines of a report for people to read, each without its line end.
pub fn print_human(report: &Report, figures: &Figures) -> (lines: Vec<String>)
    ensures
        texts(lines@) == human_lines(*report, *figures),
{
    let mut lines: Vec<String> = Vec::new();
    lines.push(ending_text(report, figures));
    lines.push(child_text(report, figures));
    lines.push(harness_text(report, figures));
    let ghost lead = seq![
        ending_line(*report, *figures),
        child_line(*report, *figures),
        harness_line(*report, *figures),
    ];
    assert(texts(lines@) == lead);
    if let Some(objects) = report.objects_processed {
        lines.push(throughput_text(objects, figures));
    }
    let ghost with_throughput = lead + line_if(
        report.objects_processed is Some,
        throughput_line(report.objects_processed->0, *figures),
    );
    assert(texts(lines@) == with_throughput);
    if let Some(summary) = &report.proc_status {
        lines.push(samples_text(summary));
    }
    let ghost with_samples = with_throughput + line_if(
        report.proc_status is Some,
        samples_line(report.proc_status->0),
    );
    assert(texts(lines@) == with_samples);
    if let Some(memory) = &report.child_cgroup_memory {
        lines.push(cgroup_text(memory));
    }
    let ghost with_memory = with_samples + line_if(
        report.child_cgroup_memory is Some,
        cgroup_line(report.child_cgroup_memory->0),
    );
    assert(texts(lines@) == with_memory);
    if let Some(status) = &report.child_cgroup_memory_status {
        let mut line = String::from_str("child_cgroup_memory_status=");
        line.append(status.as_str());
        lines.push(line);
    }
    assert(texts(lines@) == with_memory + line_if(
        report.child_cgroup_memory_status is Some,
        cgroup_status_line(report.child_cgroup_memory_status->0@),
    ));
    lines
}

/// Whether a part of a line gives a text under a name.
pub open spec fn text_under(part: Seq<char>, name: Seq<char>, text: Seq<char>) -> bool {
    assignment(part) == Some((name, text))
}

/// Whether a part of a line gives an optional number under a name: its digits, or
/// `none`.
pub open spec fn number_under(part: Seq<char>, name: Seq<char>, value: Option<u64>) -> bool {
    match value {
        Some(n) => text_under(part, name, decimal(n as nat)),
        None => text_under(part, name, "none"@),
    }
}

/// As `number_under`, for signed numbers.
pub open spec fn signed_under(part: Seq<char>, name: Seq<char>, value: Option<i32>) -> bool {
    match value {
        Some(n) => text_under(part, name, signed_decimal(n as int)),
        None => text_under(part, name, "none"@),
    }
}

/// Whether a part of a line gives an optional text under a name: the text, or `none`.
pub open spec fn words_under(part: Seq<char>, name: Seq<char>, value: Option<String>) -> bool {
    match value {
        Some(s) => text_under(part, name, s@),
        None => text_under(part, name, "none"@),
    }
}

/// Whether `label` introduces the field of this name, after another or as the first.
#[verifier::opaque]
spec fn introduces(label: Seq<char>, name: Seq<char>, first: bool) -> bool {
    &&& label == (if first {
        name + seq!['=']
    } else {
        seq![' '] + name + seq!['=']
    })
    &&& name.len() > 0
    &&& !name.contains('=')
    &&& !name.contains(' ')
}

/// Whether a line is made of these parts, the last of which holds no space.
#[verifier::opaque]
spec fn made_of(line: Seq<char>, parts: Seq<Seq<char>>) -> bool {
    &&& parts.len() > 0
    &&& split(line, ' ', parts.len()) == parts
    &&& !parts.last().contains(' ')
}

/// A field as a part of a line.
#[verifier::opaque]
spec fn field(name: Seq<char>, value: Seq<char>) -> Seq<char> {
    name + seq!['='] + value
}

proof fn lemma_field(label: Seq<char>, name: Seq<char>, value: Seq<char>, first: bool)
    requires
        introduces(label, name, first),
    ensures
        text_under(field(name, value), name, value),
        !value.contains(' ') ==> !field(name, value).contains(' '),
{
    reveal(introduces);
    reveal(field);
    law_assignment_round_trip(name, value);
    let part = name + seq!['='] + value;
    if part.contains(' ') && !value.contains(' ') {
        let i = choose|i: int| 0 <= i < part.len() && part[i] == ' ';
        if i < name.len() {
            assert(name[i] == ' ');
        } else if i > name.len() {
            assert(value[i - name.len() - 1] == ' ');
        }
    }
}

/// The first field of a line is its first part.
proof fn lemma_first_field_of_line(label: Seq<char>, name: Seq<char>, value: Seq<char>)
    requires
        introduces(label, name, true),
        !value.contains(' '),
    ensures
        made_of(label + value, seq![field(name, value)]),
        text_under(field(name, value), name, value),
{
    lemma_field(label, name, value, true);
    reveal(introduces);
    reveal(field);
    reveal(made_of);
    lemma_split_whole(label + value, ' ');
    assert(label + value == field(name, value));
}

/// A field appended to a line is its next part.
proof fn lemma_next_field_of_line(
    line: Seq<char>,
    parts: Seq<Seq<char>>,
    label: Seq<char>,
    name: Seq<char>,
    value: Seq<char>,
)
    requires
        made_of(line, parts),
        introduces(label, name, false),
    ensures
        split(line + label + value, ' ', parts.len() + 1) == parts.push(field(name, value)),
        !value.contains(' ') ==> made_of(line + label + value, parts.push(field(name, value))),
        text_under(field(name, value), name, value),
{
    lemma_field(label, name, value, false);
    reveal(introduces);
    reveal(field);
    reveal(made_of);
    let part = field(name, value);
    lemma_split_appended(line, ' ', parts.len(), part);
    assert(line + label + value == line + seq![' '] + part);
    assert(parts.push(part).last() == part);
}

proof fn lemma_append_after(start: Seq<char>, line: Seq<char>, label: Seq<char>, value: Seq<char>)
    ensures
        start + line + label + value == start + (line + label + value),
{
}

proof fn lemma_regroup(lead: Seq<char>, gap: Seq<char>, label: Seq<char>, value: Seq<char>)
    ensures
        lead + (gap + label) + value == (lead + gap) + (label + value),
{
}

proof fn lemma_decimal_has_no_space(n: nat)
    ensures
        !decimal(n).contains(' '),
{
    law_decimal_text_is_its_number(n);
    if decimal(n).contains(' ') {
        let i = choose|i: int| 0 <= i < decimal(n).len() && decimal(n)[i] == ' ';
        assert(is_digit(decimal(n)[i]));
    }
}

proof fn lemma_signed_has_no_space(n: int)
    ensures
        !signed_decimal(n).contains(' '),
{
    if n < 0 {
        let digits = decimal((-n) as nat);
        lemma_decimal_has_no_space((-n) as nat);
        if signed_decimal(n).contains(' ') {
            let i = choose|i: int| 0 <= i < signed_decimal(n).len() && signed_decimal(n)[i] == ' ';
            assert(digits[i - 1] == ' ');
        }
    } else {
        lemma_decimal_has_no_space(n as nat);
    }
}

proof fn lemma_none_has_no_space()
    ensures
        !"none"@.contains(' '),
        !"true"@.contains(' '),
        !"false"@.contains(' '),
{
    reveal_strlit("none");
    reveal_strlit("true");
    reveal_strlit("false");
}

proof fn lemma_number_has_no_space(value: Option<u64>)
    ensures
        !u64_or_none(value).contains(' '),
{
    lemma_none_has_no_space();
    if let Some(n) = value {
        lemma_decimal_has_no_space(n as nat);
    }
}

proof fn lemma_signed_number_has_no_space(value: Option<i32>)
    ensures
        !i32_or_none(value).contains(' '),
{
    lemma_none_has_no_space();
    if let Some(n) = value {
        lemma_signed_has_no_space(n as int);
    }
}

proof fn lemma_concat_has_no_space(a: Seq<char>, b: Seq<char>)
    requires
        !a.contains(' '),
        !b.contains(' '),
    ensures
        !(a + b).contains(' '),
{
    if (a + b).contains(' ') {
        let i = choose|i: int| 0 <= i < (a + b).len() && (a + b)[i] == ' ';
        if i < a.len() {
            assert(a[i] == ' ');
        } else {
            assert(b[i - a.len()] == ' ');
        }
    }
}

proof fn lemma_status_has_no_space(raw: i32, timed_out: bool)
    ensures
        !status_text(raw, timed_out).contains(' '),
{
    reveal_strlit("timeout");
    reveal_strlit("ok");
    reveal_strlit("exit(");
    reveal_strlit("signal(");
    reveal_strlit(")");
    reveal_strlit("unknown");
    if !timed_out && raw != 0 {
        if let Some(code) = code_of(raw) {
            lemma_signed_has_no_space(code as int);
            lemma_concat_has_no_space("exit("@, signed_decimal(code as int));
            lemma_concat_has_no_space("exit("@ + signed_decimal(code as int), ")"@);
        } else if let Some(signal) = signal_of(raw) {
            lemma_signed_has_no_space(signal as int);
            lemma_concat_has_no_space("signal("@, signed_decimal(signal as int));
            lemma_concat_has_no_space("signal("@ + signed_decimal(signal as int), ")"@);
        }
    }
}

proof fn lemma_labels_from_proc_status_interval_ms()
    ensures
        introduces("proc_status_interval_ms="@, "proc_status_interval_ms"@, true),
        introduces(" proc_status_sample_count="@, "proc_status_sample_count"@, false),
        introduces(" proc_status_peak_vmrss_kb="@, "proc_status_peak_vmrss_kb"@, false),
{
    assert(introduces("proc_status_interval_ms="@, "proc_status_interval_ms"@, true)) by {
        reveal(introduces);
        reveal_strlit("proc_status_interval_ms=");
        reveal_strlit("proc_status_interval_ms");
        assert("proc_status_interval_ms="@ == "proc_status_interval_ms"@ + seq!['=']);
    }
    assert(introduces(" proc_status_sample_count="@, "proc_status_sample_count"@, false)) by {
        reveal(introduces);
        reveal_strlit(" proc_status_sample_count=");
        reveal_strlit("proc_status_sample_count");
        assert(" proc_status_sample_count="@ == seq![' '] + "proc_status_sample_count"@ + seq!['=']);
    }
    assert(introduces(" proc_status_peak_vmrss_kb="@, "proc_status_peak_vmrss_kb"@, false)) by {
        reveal(introduces);
        reveal_strlit(" proc_status_peak_vmrss_kb=");
        reveal_strlit("proc_status_peak_vmrss_kb");
        assert(" proc_status_peak_vmrss_kb="@ == seq![' '] + "proc_status_peak_vmrss_kb"@ + seq!['=']);
    }
}

proof fn lemma_labels_from_proc_status_peak_vmhwm_kb()
    ensures
        introduces(" proc_status_peak_vmhwm_kb="@, "proc_status_peak_vmhwm_kb"@, false),
        introduces(" proc_status_peak_rss_anon_kb="@, "proc_status_peak_rss_anon_kb"@, false),
        introduces(" proc_status_peak_rss_file_kb="@, "proc_status_peak_rss_file_kb"@, false),
{
    assert(introduces(" proc_status_peak_vmhwm_kb="@, "proc_status_peak_vmhwm_kb"@, false)) by {
        reveal(introduces);
        reveal_strlit(" proc_status_peak_vmhwm_kb=");
        reveal_strlit("proc_status_peak_vmhwm_kb");
        assert(" proc_status_peak_vmhwm_kb="@ == seq![' '] + "proc_status_peak_vmhwm_kb"@ + seq!['=']);
    }
    assert(introduces(" proc_status_peak_rss_anon_kb="@, "proc_status_peak_rss_anon_kb"@, false)) by {
        reveal(introduces);
        reveal_strlit(" proc_status_peak_rss_anon_kb=");
        reveal_strlit("proc_status_peak_rss_anon_kb");
        assert(" proc_status_peak_rss_anon_kb="@ == seq![' '] + "proc_status_peak_rss_anon_kb"@ + seq!['=']);
    }
    assert(introduces(" proc_status_peak_rss_file_kb="@, "proc_status_peak_rss_file_kb"@, false)) by {
        reveal(introduces);
        reveal_strlit(" proc_status_peak_rss_file_kb=");
        reveal_strlit("proc_status_peak_rss_file_kb");
        assert(" proc_status_peak_rss_file_kb="@ == seq![' '] + "proc_status_peak_rss_file_kb"@ + seq!['=']);
    }
}

proof fn lemma_labels_from_proc_status_peak_rss_shmem_kb()
    ensures
        introduces(" proc_status_peak_rss_shmem_kb="@, "proc_status_peak_rss_shmem_kb"@, false),
        introduces(" proc_status_peak_threads="@, "proc_status_peak_threads"@, false),
        introduces(" proc_status_samples_path="@, "proc_status_samples_path"@, false),
{
    assert(introduces(" proc_status_peak_rss_shmem_kb="@, "proc_status_peak_rss_shmem_kb"@, false)) by {
        reveal(introduces);
        reveal_strlit(" proc_status_peak_rss_shmem_kb=");
        reveal_strlit("proc_status_peak_rss_shmem_kb");
        assert(" proc_status_peak_rss_shmem_kb="@ == seq![' '] + "proc_status_peak_rss_shmem_kb"@ + seq!['=']);
    }
    assert(introduces(" proc_status_peak_threads="@, "proc_status_peak_threads"@, false)) by {
        reveal(introduces);
        reveal_strlit(" proc_status_peak_threads=");
        reveal_strlit("proc_status_peak_threads");
        assert(" proc_status_peak_threads="@ == seq![' '] + "proc_status_peak_threads"@ + seq!['=']);
    }
    assert(introduces(" proc_status_samples_path="@, "proc_status_samples_path"@, false)) by {
        reveal(introduces);
        reveal_strlit(" proc_status_samples_path=");
        reveal_strlit("proc_status_samples_path");
        assert(" proc_status_samples_path="@ == seq![' '] + "proc_status_samples_path"@ + seq!['=']);
    }
}

proof fn lemma_labels_from_child_cgroup_memory_current_kb()
    ensures
        introduces("child_cgroup_memory_current_kb="@, "child_cgroup_memory_current_kb"@, true),
        introduces(" child_cgroup_memory_peak_kb="@, "child_cgroup_memory_peak_kb"@, false),
        introduces(" child_cgroup_memory_anon_kb="@, "child_cgroup_memory_anon_kb"@, false),
{
    assert(introduces("child_cgroup_memory_current_kb="@, "child_cgroup_memory_current_kb"@, true)) by {
        reveal(introduces);
        reveal_strlit("child_cgroup_memory_current_kb=");
        reveal_strlit("child_cgroup_memory_current_kb");
        assert("child_cgroup_memory_current_kb="@ == "child_cgroup_memory_current_kb"@ + seq!['=']);
    }
    assert(introduces(" child_cgroup_memory_peak_kb="@, "child_cgroup_memory_peak_kb"@, false)) by {
        reveal(introduces);
        reveal_strlit(" child_cgroup_memory_peak_kb=");
        reveal_strlit("child_cgroup_memory_peak_kb");
        assert(" child_cgroup_memory_peak_kb="@ == seq![' '] + "child_cgroup_memory_peak_kb"@ + seq!['=']);
    }
    assert(introduces(" child_cgroup_memory_anon_kb="@, "child_cgroup_memory_anon_kb"@, false)) by {
        reveal(introduces);
        reveal_strlit(" child_cgroup_memory_anon_kb=");
        reveal_strlit("child_cgroup_memory_anon_kb");
        assert(" child_cgroup_memory_anon_kb="@ == seq![' '] + "child_cgroup_memory_anon_kb"@ + seq!['=']);
    }
}

proof fn lemma_labels_from_child_cgroup_memory_file_kb()
    ensures
        introduces(" child_cgroup_memory_file_kb="@, "child_cgroup_memory_file_kb"@, false),
        introduces(" child_cgroup_memory_shmem_kb="@, "child_cgroup_memory_shmem_kb"@, false),
        introduces(" child_cgroup_memory_cache_kb="@, "child_cgroup_memory_cache_kb"@, false),
{
    assert(introduces(" child_cgroup_memory_file_kb="@, "child_cgroup_memory_file_kb"@, false)) by {
        reveal(introduces);
        reveal_strlit(" child_cgroup_memory_file_kb=");
        reveal_strlit("child_cgroup_memory_file_kb");
        assert(" child_cgroup_memory_file_kb="@ == seq![' '] + "child_cgroup_memory_file_kb"@ + seq!['=']);
    }
    assert(introduces(" child_cgroup_memory_shmem_kb="@, "child_cgroup_memory_shmem_kb"@, false)) by {
        reveal(introduces);
        reveal_strlit(" child_cgroup_memory_shmem_kb=");
        reveal_strlit("child_cgroup_memory_shmem_kb");
        assert(" child_cgroup_memory_shmem_kb="@ == seq![' '] + "child_cgroup_memory_shmem_kb"@ + seq!['=']);
    }
    assert(introduces(" child_cgroup_memory_cache_kb="@, "child_cgroup_memory_cache_kb"@, false)) by {
        reveal(introduces);
        reveal_strlit(" child_cgroup_memory_cache_kb=");
        reveal_strlit("child_cgroup_memory_cache_kb");
        assert(" child_cgroup_memory_cache_kb="@ == seq![' '] + "child_cgroup_memory_cache_kb"@ + seq!['=']);
    }
}

proof fn lemma_labels_from_child_cgroup_memory_rss_cache_kb()
    ensures
        introduces(" child_cgroup_memory_rss_cache_kb="@, "child_cgroup_memory_rss_cache_kb"@, false),
{
    assert(introduces(" child_cgroup_memory_rss_cache_kb="@, "child_cgroup_memory_rss_cache_kb"@, false)) by {
        reveal(introduces);
        reveal_strlit(" child_cgroup_memory_rss_cache_kb=");
        reveal_strlit("child_cgroup_memory_rss_cache_kb");
        assert(" child_cgroup_memory_rss_cache_kb="@ == seq![' '] + "child_cgroup_memory_rss_cache_kb"@ + seq!['=']);
    }
}

proof fn lemma_labels_from_status()
    ensures
        introduces("status="@, "status"@, true),
        introduces(" timed_out="@, "timed_out"@, false),
        introduces(" timeout_seconds="@, "timeout_seconds"@, false),
{
    assert(introduces("status="@, "status"@, true)) by {
        reveal(introduces);
        reveal_strlit("status=");
        reveal_strlit("status");
        assert("status="@ == "status"@ + seq!['=']);
    }
    assert(introduces(" timed_out="@, "timed_out"@, false)) by {
        reveal(introduces);
        reveal_strlit(" timed_out=");
        reveal_strlit("timed_out");
        assert(" timed_out="@ == seq![' '] + "timed_out"@ + seq!['=']);
    }
    assert(introduces(" timeout_seconds="@, "timeout_seconds"@, false)) by {
        reveal(introduces);
        reveal_strlit(" timeout_seconds=");
        reveal_strlit("timeout_seconds");
        assert(" timeout_seconds="@ == seq![' '] + "timeout_seconds"@ + seq!['=']);
    }
}

proof fn lemma_labels_from_elapsed_s()
    ensures
        introduces(" elapsed_s="@, "elapsed_s"@, false),
        introduces(" child_max_rss_kb="@, "child_max_rss_kb"@, false),
        introduces(" child_max_rss_mb="@, "child_max_rss_mb"@, false),
{
    assert(introduces(" elapsed_s="@, "elapsed_s"@, false)) by {
        reveal(introduces);
        reveal_strlit(" elapsed_s=");
        reveal_strlit("elapsed_s");
        assert(" elapsed_s="@ == seq![' '] + "elapsed_s"@ + seq!['=']);
    }
    assert(introduces(" child_max_rss_kb="@, "child_max_rss_kb"@, false)) by {
        reveal(introduces);
        reveal_strlit(" child_max_rss_kb=");
        reveal_strlit("child_max_rss_kb");
        assert(" child_max_rss_kb="@ == seq![' '] + "child_max_rss_kb"@ + seq!['=']);
    }
    assert(introduces(" child_max_rss_mb="@, "child_max_rss_mb"@, false)) by {
        reveal(introduces);
        reveal_strlit(" child_max_rss_mb=");
        reveal_strlit("child_max_rss_mb");
        assert(" child_max_rss_mb="@ == seq![' '] + "child_max_rss_mb"@ + seq!['=']);
    }
}

proof fn lemma_labels_from_exit_code()
    ensures
        introduces(" exit_code="@, "exit_code"@, false),
        introduces(" signal="@, "signal"@, false),
        introduces(" command="@, "command"@, false),
{
    assert(introduces(" exit_code="@, "exit_code"@, false)) by {
        reveal(introduces);
        reveal_strlit(" exit_code=");
        reveal_strlit("exit_code");
        assert(" exit_code="@ == seq![' '] + "exit_code"@ + seq!['=']);
    }
    assert(introduces(" signal="@, "signal"@, false)) by {
        reveal(introduces);
        reveal_strlit(" signal=");
        reveal_strlit("signal");
        assert(" signal="@ == seq![' '] + "signal"@ + seq!['=']);
    }
    assert(introduces(" command="@, "command"@, false)) by {
        reveal(introduces);
        reveal_strlit(" command=");
        reveal_strlit("command");
        assert(" command="@ == seq![' '] + "command"@ + seq!['=']);
    }
}

proof fn lemma_labels_from_child_user_cpu_s()
    ensures
        introduces("child_user_cpu_s="@, "child_user_cpu_s"@, true),
        introduces(" child_system_cpu_s="@, "child_system_cpu_s"@, false),
        introduces(" child_minor_faults="@, "child_minor_faults"@, false),
{
    assert(introduces("child_user_cpu_s="@, "child_user_cpu_s"@, true)) by {
        reveal(introduces);
        reveal_strlit("child_user_cpu_s=");
        reveal_strlit("child_user_cpu_s");
        assert("child_user_cpu_s="@ == "child_user_cpu_s"@ + seq!['=']);
    }
    assert(introduces(" child_system_cpu_s="@, "child_system_cpu_s"@, false)) by {
        reveal(introduces);
        reveal_strlit(" child_system_cpu_s=");
        reveal_strlit("child_system_cpu_s");
        assert(" child_system_cpu_s="@ == seq![' '] + "child_system_cpu_s"@ + seq!['=']);
    }
    assert(introduces(" child_minor_faults="@, "child_minor_faults"@, false)) by {
        reveal(introduces);
        reveal_strlit(" child_minor_faults=");
        reveal_strlit("child_minor_faults");
        assert(" child_minor_faults="@ == seq![' '] + "child_minor_faults"@ + seq!['=']);
    }
}

proof fn lemma_labels_from_child_major_faults()
    ensures
        introduces(" child_major_faults="@, "child_major_faults"@, false),
        introduces(" child_voluntary_ctx_switches="@, "child_voluntary_ctx_switches"@, false),
        introduces(" child_involuntary_ctx_switches="@, "child_involuntary_ctx_switches"@, false),
{
    assert(introduces(" child_major_faults="@, "child_major_faults"@, false)) by {
        reveal(introduces);
        reveal_strlit(" child_major_faults=");
        reveal_strlit("child_major_faults");
        assert(" child_major_faults="@ == seq![' '] + "child_major_faults"@ + seq!['=']);
    }
    assert(introduces(" child_voluntary_ctx_switches="@, "child_voluntary_ctx_switches"@, false)) by {
        reveal(introduces);
        reveal_strlit(" child_voluntary_ctx_switches=");
        reveal_strlit("child_voluntary_ctx_switches");
        assert(" child_voluntary_ctx_switches="@ == seq![' '] + "child_voluntary_ctx_switches"@ + seq!['=']);
    }
    assert(introduces(" child_involuntary_ctx_switches="@, "child_involuntary_ctx_switches"@, false)) by {
        reveal(introduces);
        reveal_strlit(" child_involuntary_ctx_switches=");
        reveal_strlit("child_involuntary_ctx_switches");
        assert(" child_involuntary_ctx_switches="@ == seq![' '] + "child_involuntary_ctx_switches"@ + seq!['=']);
    }
}

proof fn lemma_labels_from_harness_max_rss_kb()
    ensures
        introduces("harness_max_rss_kb="@, "harness_max_rss_kb"@, true),
        introduces(" harness_max_rss_mb="@, "harness_max_rss_mb"@, false),
        introduces(" cwd="@, "cwd"@, false),
{
    assert(introduces("harness_max_rss_kb="@, "harness_max_rss_kb"@, true)) by {
        reveal(introduces);
        reveal_strlit("harness_max_rss_kb=");
        reveal_strlit("harness_max_rss_kb");
        assert("harness_max_rss_kb="@ == "harness_max_rss_kb"@ + seq!['=']);
    }
    assert(introduces(" harness_max_rss_mb="@, "harness_max_rss_mb"@, false)) by {
        reveal(introduces);
        reveal_strlit(" harness_max_rss_mb=");
        reveal_strlit("harness_max_rss_mb");
        assert(" harness_max_rss_mb="@ == seq![' '] + "harness_max_rss_mb"@ + seq!['=']);
    }
    assert(introduces(" cwd="@, "cwd"@, false)) by {
        reveal(introduces);
        reveal_strlit(" cwd=");
        reveal_strlit("cwd");
        assert(" cwd="@ == seq![' '] + "cwd"@ + seq!['=']);
    }
}

proof fn lemma_labels_from_objects_processed()
    ensures
        introduces("objects_processed="@, "objects_processed"@, true),
        introduces(" objects_per_second="@, "objects_per_second"@, false),
        introduces(" seconds_per_object="@, "seconds_per_object"@, false),
{
    assert(introduces("objects_processed="@, "objects_processed"@, true)) by {
        reveal(introduces);
        reveal_strlit("objects_processed=");
        reveal_strlit("objects_processed");
        assert("objects_processed="@ == "objects_processed"@ + seq!['=']);
    }
    assert(introduces(" objects_per_second="@, "objects_per_second"@, false)) by {
        reveal(introduces);
        reveal_strlit(" objects_per_second=");
        reveal_strlit("objects_per_second");
        assert(" objects_per_second="@ == seq![' '] + "objects_per_second"@ + seq!['=']);
    }
    assert(introduces(" seconds_per_object="@, "seconds_per_object"@, false)) by {
        reveal(introduces);
        reveal_strlit(" seconds_per_object=");
        reveal_strlit("seconds_per_object");
        assert(" seconds_per_object="@ == seq![' '] + "seconds_per_object"@ + seq!['=']);
    }
}

/// The line on the samples taken apart at its spaces gives the summary back: under each
/// name the value of that name, or `none` where there is none, and last the path, as it
/// is.
pub proof fn law_samples_line_reads_back(summary: ProcStatusSummary)
    ensures
        ({
            let parts = split(samples_line(summary), ' ', 9);
            &&& parts.len() == 9
            &&& number_under(parts[0], "proc_status_interval_ms"@, Some(summary.interval_ms))
            &&& number_under(parts[1], "proc_status_sample_count"@, Some(summary.sample_count))
            &&& number_under(parts[2], "proc_status_peak_vmrss_kb"@, summary.peak_vmrss_kb)
            &&& number_under(parts[3], "proc_status_peak_vmhwm_kb"@, summary.peak_vmhwm_kb)
            &&& number_under(parts[4], "proc_status_peak_rss_anon_kb"@, summary.peak_rss_anon_kb)
            &&& number_under(parts[5], "proc_status_peak_rss_file_kb"@, summary.peak_rss_file_kb)
            &&& number_under(parts[6], "proc_status_peak_rss_shmem_kb"@, summary.peak_rss_shmem_kb)
            &&& match summary.peak_threads {
                Some(n) => text_under(parts[7], "proc_status_peak_threads"@, decimal(n as nat)),
                None => text_under(parts[7], "proc_status_peak_threads"@, "none"@),
            }
            &&& words_under(parts[8], "proc_status_samples_path"@, summary.samples_path)
        }),
{
    lemma_labels_from_proc_status_interval_ms();
    lemma_labels_from_proc_status_peak_vmhwm_kb();
    lemma_labels_from_proc_status_peak_rss_shmem_kb();
    lemma_decimal_has_no_space(summary.interval_ms as nat);
    let l0 = "proc_status_interval_ms="@ + decimal(summary.interval_ms as nat);
    let p0 = seq![field("proc_status_interval_ms"@, decimal(summary.interval_ms as nat))];
    lemma_first_field_of_line("proc_status_interval_ms="@, "proc_status_interval_ms"@, decimal(summary.interval_ms as nat));
    lemma_decimal_has_no_space(summary.sample_count as nat);
    let l1 = l0 + " proc_status_sample_count="@ + decimal(summary.sample_count as nat);
    let p1 = p0.push(field("proc_status_sample_count"@, decimal(summary.sample_count as nat)));
    lemma_next_field_of_line(l0, p0, " proc_status_sample_count="@, "proc_status_sample_count"@, decimal(summary.sample_count as nat));
    lemma_number_has_no_space(summary.peak_vmrss_kb);
    let l2 = l1 + " proc_status_peak_vmrss_kb="@ + u64_or_none(summary.peak_vmrss_kb);
    let p2 = p1.push(field("proc_status_peak_vmrss_kb"@, u64_or_none(summary.peak_vmrss_kb)));
    lemma_next_field_of_line(l1, p1, " proc_status_peak_vmrss_kb="@, "proc_status_peak_vmrss_kb"@, u64_or_none(summary.peak_vmrss_kb));
    lemma_number_has_no_space(summary.peak_vmhwm_kb);
    let l3 = l2 + " proc_status_peak_vmhwm_kb="@ + u64_or_none(summary.peak_vmhwm_kb);
    let p3 = p2.push(field("proc_status_peak_vmhwm_kb"@, u64_or_none(summary.peak_vmhwm_kb)));
    lemma_next_field_of_line(l2, p2, " proc_status_peak_vmhwm_kb="@, "proc_status_peak_vmhwm_kb"@, u64_or_none(summary.peak_vmhwm_kb));
    lemma_number_has_no_space(summary.peak_rss_anon_kb);
    let l4 = l3 + " proc_status_peak_rss_anon_kb="@ + u64_or_none(summary.peak_rss_anon_kb);
    let p4 = p3.push(field("proc_status_peak_rss_anon_kb"@, u64_or_none(summary.peak_rss_anon_kb)));
    lemma_next_field_of_line(l3, p3, " proc_status_peak_rss_anon_kb="@, "proc_status_peak_rss_anon_kb"@, u64_or_none(summary.peak_rss_anon_kb));
    lemma_number_has_no_space(summary.peak_rss_file_kb);
    let l5 = l4 + " proc_status_peak_rss_file_kb="@ + u64_or_none(summary.peak_rss_file_kb);
    let p5 = p4.push(field("proc_status_peak_rss_file_kb"@, u64_or_none(summary.peak_rss_file_kb)));
    lemma_next_field_of_line(l4, p4, " proc_status_peak_rss_file_kb="@, "proc_status_peak_rss_file_kb"@, u64_or_none(summary.peak_rss_file_kb));
    lemma_number_has_no_space(summary.peak_rss_shmem_kb);
    let l6 = l5 + " proc_status_peak_rss_shmem_kb="@ + u64_or_none(summary.peak_rss_shmem_kb);
    let p6 = p5.push(field("proc_status_peak_rss_shmem_kb"@, u64_or_none(summary.peak_rss_shmem_kb)));
    lemma_next_field_of_line(l5, p5, " proc_status_peak_rss_shmem_kb="@, "proc_status_peak_rss_shmem_kb"@, u64_or_none(summary.peak_rss_shmem_kb));
    lemma_number_has_no_space(widened(summary.peak_threads));
    let l7 = l6 + " proc_status_peak_threads="@ + u64_or_none(widened(summary.peak_threads));
    let p7 = p6.push(field("proc_status_peak_threads"@, u64_or_none(widened(summary.peak_threads))));
    lemma_next_field_of_line(l6, p6, " proc_status_peak_threads="@, "proc_status_peak_threads"@, u64_or_none(widened(summary.peak_threads)));
    let l8 = l7 + " proc_status_samples_path="@ + text_or_none(summary.samples_path);
    let p8 = p7.push(field("proc_status_samples_path"@, text_or_none(summary.samples_path)));
    lemma_next_field_of_line(l7, p7, " proc_status_samples_path="@, "proc_status_samples_path"@, text_or_none(summary.samples_path));
    assert(l8 == samples_line(summary));
}

/// The line on the memory of the run's cgroup starts with its path, as it is, or
/// `none`; what follows, taken apart at its spaces, gives under each name the size of
/// that name, or `none` where there is none.
pub proof fn law_cgroup_line_reads_back(memory: CgroupMemorySummary)
    ensures
        ({
            let path = match memory.path {
                Some(path) => path@,
                None => "none"@,
            };
            let line = cgroup_line(memory);
            let lead = "child_cgroup_memory_path="@ + path + seq![' '];
            let parts = split(line.skip(lead.len() as int), ' ', 7);
            &&& lead.len() <= line.len()
            &&& line.take(lead.len() as int) == lead
            &&& parts.len() == 7
            &&& number_under(parts[0], "child_cgroup_memory_current_kb"@, memory.current_kb)
            &&& number_under(parts[1], "child_cgroup_memory_peak_kb"@, memory.peak_kb)
            &&& number_under(parts[2], "child_cgroup_memory_anon_kb"@, memory.anon_kb)
            &&& number_under(parts[3], "child_cgroup_memory_file_kb"@, memory.file_kb)
            &&& number_under(parts[4], "child_cgroup_memory_shmem_kb"@, memory.shmem_kb)
            &&& number_under(parts[5], "child_cgroup_memory_cache_kb"@, memory.cache_kb)
            &&& number_under(parts[6], "child_cgroup_memory_rss_cache_kb"@, memory.rss_cache_kb)
        }),
{
    let lead = "child_cgroup_memory_path="@ + text_or_none(memory.path);
    let start = lead + seq![' '];
    lemma_labels_from_child_cgroup_memory_current_kb();
    lemma_labels_from_child_cgroup_memory_file_kb();
    lemma_labels_from_child_cgroup_memory_rss_cache_kb();
    lemma_number_has_no_space(memory.current_kb);
    let l0 = "child_cgroup_memory_current_kb="@ + u64_or_none(memory.current_kb);
    let p0 = seq![field("child_cgroup_memory_current_kb"@, u64_or_none(memory.current_kb))];
    lemma_first_field_of_line("child_cgroup_memory_current_kb="@, "child_cgroup_memory_current_kb"@, u64_or_none(memory.current_kb));
    lemma_number_has_no_space(memory.peak_kb);
    let l1 = l0 + " child_cgroup_memory_peak_kb="@ + u64_or_none(memory.peak_kb);
    let p1 = p0.push(field("child_cgroup_memory_peak_kb"@, u64_or_none(memory.peak_kb)));
    lemma_next_field_of_line(l0, p0, " child_cgroup_memory_peak_kb="@, "child_cgroup_memory_peak_kb"@, u64_or_none(memory.peak_kb));
    lemma_number_has_no_space(memory.anon_kb);
    let l2 = l1 + " child_cgroup_memory_anon_kb="@ + u64_or_none(memory.anon_kb);
    let p2 = p1.push(field("child_cgroup_memory_anon_kb"@, u64_or_none(memory.anon_kb)));
    lemma_next_field_of_line(l1, p1, " child_cgroup_memory_anon_kb="@, "child_cgroup_memory_anon_kb"@, u64_or_none(memory.anon_kb));
    lemma_number_has_no_space(memory.file_kb);
    let l3 = l2 + " child_cgroup_memory_file_kb="@ + u64_or_none(memory.file_kb);
    let p3 = p2.push(field("child_cgroup_memory_file_kb"@, u64_or_none(memory.file_kb)));
    lemma_next_field_of_line(l2, p2, " child_cgroup_memory_file_kb="@, "child_cgroup_memory_file_kb"@, u64_or_none(memory.file_kb));
    lemma_number_has_no_space(memory.shmem_kb);
    let l4 = l3 + " child_cgroup_memory_shmem_kb="@ + u64_or_none(memory.shmem_kb);
    let p4 = p3.push(field("child_cgroup_memory_shmem_kb"@, u64_or_none(memory.shmem_kb)));
    lemma_next_field_of_line(l3, p3, " child_cgroup_memory_shmem_kb="@, "child_cgroup_memory_shmem_kb"@, u64_or_none(memory.shmem_kb));
    lemma_number_has_no_space(memory.cache_kb);
    let l5 = l4 + " child_cgroup_memory_cache_kb="@ + u64_or_none(memory.cache_kb);
    let p5 = p4.push(field("child_cgroup_memory_cache_kb"@, u64_or_none(memory.cache_kb)));
    lemma_next_field_of_line(l4, p4, " child_cgroup_memory_cache_kb="@, "child_cgroup_memory_cache_kb"@, u64_or_none(memory.cache_kb));
    lemma_number_has_no_space(memory.rss_cache_kb);
    let l6 = l5 + " child_cgroup_memory_rss_cache_kb="@ + u64_or_none(memory.rss_cache_kb);
    let p6 = p5.push(field("child_cgroup_memory_rss_cache_kb"@, u64_or_none(memory.rss_cache_kb)));
    lemma_next_field_of_line(l5, p5, " child_cgroup_memory_rss_cache_kb="@, "child_cgroup_memory_rss_cache_kb"@, u64_or_none(memory.rss_cache_kb));
    let w0 = lead + " child_cgroup_memory_current_kb="@ + u64_or_none(memory.current_kb);
    assert(w0 == start + l0) by {
        reveal_strlit(" child_cgroup_memory_current_kb=");
        reveal_strlit("child_cgroup_memory_current_kb=");
        assert(" child_cgroup_memory_current_kb="@ == seq![' '] + "child_cgroup_memory_current_kb="@);
        lemma_regroup(lead, seq![' '], "child_cgroup_memory_current_kb="@, u64_or_none(memory.current_kb));
    }
    let w1 = w0 + " child_cgroup_memory_peak_kb="@ + u64_or_none(memory.peak_kb);
    lemma_append_after(start, l0, " child_cgroup_memory_peak_kb="@, u64_or_none(memory.peak_kb));
    let w2 = w1 + " child_cgroup_memory_anon_kb="@ + u64_or_none(memory.anon_kb);
    lemma_append_after(start, l1, " child_cgroup_memory_anon_kb="@, u64_or_none(memory.anon_kb));
    let w3 = w2 + " child_cgroup_memory_file_kb="@ + u64_or_none(memory.file_kb);
    lemma_append_after(start, l2, " child_cgroup_memory_file_kb="@, u64_or_none(memory.file_kb));
    let w4 = w3 + " child_cgroup_memory_shmem_kb="@ + u64_or_none(memory.shmem_kb);
    lemma_append_after(start, l3, " child_cgroup_memory_shmem_kb="@, u64_or_none(memory.shmem_kb));
    let w5 = w4 + " child_cgroup_memory_cache_kb="@ + u64_or_none(memory.cache_kb);
    lemma_append_after(start, l4, " child_cgroup_memory_cache_kb="@, u64_or_none(memory.cache_kb));
    let w6 = w5 + " child_cgroup_memory_rss_cache_kb="@ + u64_or_none(memory.rss_cache_kb);
    lemma_append_after(start, l5, " child_cgroup_memory_rss_cache_kb="@, u64_or_none(memory.rss_cache_kb));
    let line = cgroup_line(memory);
    assert(w6 == line);
    assert(line.take(start.len() as int) == start);
    assert(line.skip(start.len() as int) == l6);
}

/// The line on how the run ended, taken apart at its spaces, gives back what was asked
/// for and measured, each under its name: how the child ended, whether it timed out, the
/// timeout, the peak resident memory of the child, its exit code and its signal, and
/// last the command.
pub proof fn law_ending_line_reads_back(
    args: Args,
    measured: Measurements,
    report: Report,
    figures: Figures,
)
    requires
        report.describes(args, measured),
        !figures.elapsed_s@.contains(' '),
        !figures.child_max_rss_mb@.contains(' '),
    ensures
        ({
            let parts = split(ending_line(report, figures), ' ', 9);
            let raw = measured.outcome.status.raw;
            let max_rss_kb = measured.outcome.usage.max_rss_kb;
            &&& parts.len() == 9
            &&& text_under(parts[0], "status"@, status_text(raw, measured.timed_out))
            &&& text_under(
                parts[1],
                "timed_out"@,
                if measured.timed_out {
                    "true"@
                } else {
                    "false"@
                },
            )
            &&& number_under(parts[2], "timeout_seconds"@, args.child_timeout_seconds)
            &&& text_under(parts[3], "elapsed_s"@, figures.elapsed_s@)
            &&& text_under(parts[4], "child_max_rss_kb"@, signed_decimal(max_rss_kb as int))
            &&& text_under(parts[5], "child_max_rss_mb"@, figures.child_max_rss_mb@)
            &&& signed_under(parts[6], "exit_code"@, code_of(raw))
            &&& signed_under(parts[7], "signal"@, signal_of(raw))
            &&& text_under(parts[8], "command"@, command_text(report.command@))
        }),
{
    lemma_labels_from_status();
    lemma_labels_from_elapsed_s();
    lemma_labels_from_exit_code();
    lemma_status_has_no_space(measured.outcome.status.raw, measured.timed_out);
    let l0 = "status="@ + report.status@;
    let p0 = seq![field("status"@, report.status@)];
    lemma_first_field_of_line("status="@, "status"@, report.status@);
    lemma_none_has_no_space();
    let l1 = l0 + " timed_out="@ + bool_text(report.timed_out);
    let p1 = p0.push(field("timed_out"@, bool_text(report.timed_out)));
    lemma_next_field_of_line(l0, p0, " timed_out="@, "timed_out"@, bool_text(report.timed_out));
    lemma_number_has_no_space(report.timeout_seconds);
    let l2 = l1 + " timeout_seconds="@ + u64_or_none(report.timeout_seconds);
    let p2 = p1.push(field("timeout_seconds"@, u64_or_none(report.timeout_seconds)));
    lemma_next_field_of_line(l1, p1, " timeout_seconds="@, "timeout_seconds"@, u64_or_none(report.timeout_seconds));
    let l3 = l2 + " elapsed_s="@ + figures.elapsed_s@;
    let p3 = p2.push(field("elapsed_s"@, figures.elapsed_s@));
    lemma_next_field_of_line(l2, p2, " elapsed_s="@, "elapsed_s"@, figures.elapsed_s@);
    lemma_signed_has_no_space(report.child_max_rss_kb as int);
    let l4 = l3 + " child_max_rss_kb="@ + signed_decimal(report.child_max_rss_kb as int);
    let p4 = p3.push(field("child_max_rss_kb"@, signed_decimal(report.child_max_rss_kb as int)));
    lemma_next_field_of_line(l3, p3, " child_max_rss_kb="@, "child_max_rss_kb"@, signed_decimal(report.child_max_rss_kb as int));
    let l5 = l4 + " child_max_rss_mb="@ + figures.child_max_rss_mb@;
    let p5 = p4.push(field("child_max_rss_mb"@, figures.child_max_rss_mb@));
    lemma_next_field_of_line(l4, p4, " child_max_rss_mb="@, "child_max_rss_mb"@, figures.child_max_rss_mb@);
    lemma_signed_number_has_no_space(report.exit_code);
    let l6 = l5 + " exit_code="@ + i32_or_none(report.exit_code);
    let p6 = p5.push(field("exit_code"@, i32_or_none(report.exit_code)));
    lemma_next_field_of_line(l5, p5, " exit_code="@, "exit_code"@, i32_or_none(report.exit_code));
    lemma_signed_number_has_no_space(report.signal);
    let l7 = l6 + " signal="@ + i32_or_none(report.signal);
    let p7 = p6.push(field("signal"@, i32_or_none(report.signal)));
    lemma_next_field_of_line(l6, p6, " signal="@, "signal"@, i32_or_none(report.signal));
    let l8 = l7 + " command="@ + command_text(report.command@);
    let p8 = p7.push(field("command"@, command_text(report.command@)));
    lemma_next_field_of_line(l7, p7, " command="@, "command"@, command_text(report.command@));
    assert(l8 == ending_line(report, figures));
}

/// The line on what the child used, taken apart at its spaces, gives back what the
/// kernel accounted to the child, each under its name.
pub proof fn law_child_line_reads_back(
    args: Args,
    measured: Measurements,
    report: Report,
    figures: Figures,
)
    requires
        report.describes(args, measured),
        !figures.child_user_cpu_s@.contains(' '),
        !figures.child_system_cpu_s@.contains(' '),
    ensures
        ({
            let parts = split(child_line(report, figures), ' ', 6);
            let usage = measured.outcome.usage;
            &&& parts.len() == 6
            &&& text_under(parts[0], "child_user_cpu_s"@, figures.child_user_cpu_s@)
            &&& text_under(parts[1], "child_system_cpu_s"@, figures.child_system_cpu_s@)
            &&& text_under(
                parts[2],
                "child_minor_faults"@,
                signed_decimal(usage.minor_faults as int),
            )
            &&& text_under(
                parts[3],
                "child_major_faults"@,
                signed_decimal(usage.major_faults as int),
            )
            &&& text_under(
                parts[4],
                "child_voluntary_ctx_switches"@,
                signed_decimal(usage.voluntary_ctx_switches as int),
            )
            &&& text_under(
                parts[5],
                "child_involuntary_ctx_switches"@,
                signed_decimal(usage.involuntary_ctx_switches as int),
            )
        }),
{
    lemma_labels_from_child_user_cpu_s();
    lemma_labels_from_child_major_faults();
    let l0 = "child_user_cpu_s="@ + figures.child_user_cpu_s@;
    let p0 = seq![field("child_user_cpu_s"@, figures.child_user_cpu_s@)];
    lemma_first_field_of_line("child_user_cpu_s="@, "child_user_cpu_s"@, figures.child_user_cpu_s@);
    let l1 = l0 + " child_system_cpu_s="@ + figures.child_system_cpu_s@;
    let p1 = p0.push(field("child_system_cpu_s"@, figures.child_system_cpu_s@));
    lemma_next_field_of_line(l0, p0, " child_system_cpu_s="@, "child_system_cpu_s"@, figures.child_system_cpu_s@);
    lemma_signed_has_no_space(report.child_minor_faults as int);
    let l2 = l1 + " child_minor_faults="@ + signed_decimal(report.child_minor_faults as int);
    let p2 = p1.push(field("child_minor_faults"@, signed_decimal(report.child_minor_faults as int)));
    lemma_next_field_of_line(l1, p1, " child_minor_faults="@, "child_minor_faults"@, signed_decimal(report.child_minor_faults as int));
    lemma_signed_has_no_space(report.child_major_faults as int);
    let l3 = l2 + " child_major_faults="@ + signed_decimal(report.child_major_faults as int);
    let p3 = p2.push(field("child_major_faults"@, signed_decimal(report.child_major_faults as int)));
    lemma_next_field_of_line(l2, p2, " child_major_faults="@, "child_major_faults"@, signed_decimal(report.child_major_faults as int));
    lemma_signed_has_no_space(report.child_voluntary_ctx_switches as int);
    let l4 = l3 + " child_voluntary_ctx_switches="@ + signed_decimal(report.child_voluntary_ctx_switches as int);
    let p4 = p3.push(field("child_voluntary_ctx_switches"@, signed_decimal(report.child_voluntary_ctx_switches as int)));
    lemma_next_field_of_line(l3, p3, " child_voluntary_ctx_switches="@, "child_voluntary_ctx_switches"@, signed_decimal(report.child_voluntary_ctx_switches as int));
    lemma_signed_has_no_space(report.child_involuntary_ctx_switches as int);
    let l5 = l4 + " child_involuntary_ctx_switches="@ + signed_decimal(report.child_involuntary_ctx_switches as int);
    let p5 = p4.push(field("child_involuntary_ctx_switches"@, signed_decimal(report.child_involuntary_ctx_switches as int)));
    lemma_next_field_of_line(l4, p4, " child_involuntary_ctx_switches="@, "child_involuntary_ctx_switches"@, signed_decimal(report.child_involuntary_ctx_switches as int));
    assert(l5 == child_line(report, figures));
}

/// The line on the harness, taken apart at its spaces, gives back the peak resident
/// memory of the harness, and last the directory that the child was to run in, as text,
/// or `none`.
pub proof fn law_harness_line_reads_back(
    args: Args,
    measured: Measurements,
    report: Report,
    figures: Figures,
)
    requires
        report.describes(args, measured),
        !figures.harness_max_rss_mb@.contains(' '),
    ensures
        ({
            let parts = split(harness_line(report, figures), ' ', 3);
            let max_rss_kb = measured.harness.max_rss_kb;
            &&& parts.len() == 3
            &&& text_under(parts[0], "harness_max_rss_kb"@, signed_decimal(max_rss_kb as int))
            &&& text_under(parts[1], "harness_max_rss_mb"@, figures.harness_max_rss_mb@)
            &&& match args.cwd {
                Some(path) => {
                    &&& assignment(parts[2]) matches Some((name, text))
                    &&& name == "cwd"@
                    &&& text == lossy_text(path@)
                    &&& valid_utf8(path@) ==> text == decode_utf8(path@)
                },
                None => text_under(parts[2], "cwd"@, "none"@),
            }
        }),
{
    lemma_labels_from_harness_max_rss_kb();
    lemma_signed_has_no_space(report.harness_max_rss_kb as int);
    let l0 = "harness_max_rss_kb="@ + signed_decimal(report.harness_max_rss_kb as int);
    let p0 = seq![field("harness_max_rss_kb"@, signed_decimal(report.harness_max_rss_kb as int))];
    lemma_first_field_of_line("harness_max_rss_kb="@, "harness_max_rss_kb"@, signed_decimal(report.harness_max_rss_kb as int));
    let l1 = l0 + " harness_max_rss_mb="@ + figures.harness_max_rss_mb@;
    let p1 = p0.push(field("harness_max_rss_mb"@, figures.harness_max_rss_mb@));
    lemma_next_field_of_line(l0, p0, " harness_max_rss_mb="@, "harness_max_rss_mb"@, figures.harness_max_rss_mb@);
    let l2 = l1 + " cwd="@ + text_or_none(report.cwd);
    let p2 = p1.push(field("cwd"@, text_or_none(report.cwd)));
    lemma_next_field_of_line(l1, p1, " cwd="@, "cwd"@, text_or_none(report.cwd));
    assert(l2 == harness_line(report, figures));
}

/// The line on the throughput, taken apart at its spaces, gives back the number of
/// objects, their rate and the time of each, or `none`.
pub proof fn law_throughput_line_reads_back(objects: u64, figures: Figures)
    requires
        figures.objects_per_second matches Some(rate) ==> !rate@.contains(' '),
    ensures
        ({
            let parts = split(throughput_line(objects, figures), ' ', 3);
            &&& parts.len() == 3
            &&& text_under(parts[0], "objects_processed"@, decimal(objects as nat))
            &&& words_under(parts[1], "objects_per_second"@, figures.objects_per_second)
            &&& words_under(parts[2], "seconds_per_object"@, figures.seconds_per_object)
        }),
{
    lemma_labels_from_objects_processed();
    lemma_decimal_has_no_space(objects as nat);
    let l0 = "objects_processed="@ + decimal(objects as nat);
    let p0 = seq![field("objects_processed"@, decimal(objects as nat))];
    lemma_first_field_of_line("objects_processed="@, "objects_processed"@, decimal(objects as nat));
    lemma_none_has_no_space();
    let l1 = l0 + " objects_per_second="@ + text_or_none(figures.objects_per_second);
    let p1 = p0.push(field("objects_per_second"@, text_or_none(figures.objects_per_second)));
    lemma_next_field_of_line(l0, p0, " objects_per_second="@, "objects_per_second"@, text_or_none(figures.objects_per_second));
    let l2 = l1 + " seconds_per_object="@ + text_or_none(figures.seconds_per_object);
    let p2 = p1.push(field("seconds_per_object"@, text_or_none(figures.seconds_per_object)));
    lemma_next_field_of_line(l1, p1, " seconds_per_object="@, "seconds_per_object"@, text_or_none(figures.seconds_per_object));
    assert(l2 == throughput_line(objects, figures));
}

/// A report for people has the three lines that every run has, and then a line for each
/// part that this run has, in this order: the throughput where objects were counted,
/// the samples where any were asked for, the memory of the cgroup, and why there is
/// none.
pub proof fn law_a_report_has_a_line_for_each_part(
    args: Args,
    measured: Measurements,
    report: Report,
    figures: Figures,
)
    requires
        report.describes(args, measured),
    ensures
        ({
            let lines = human_lines(report, figures);
            let samples: int = if args.objects_processed is Some {
                4
            } else {
                3
            };
            let memory = if measured.proc_status is Some {
                samples + 1
            } else {
                samples
            };
            let status = if measured.cgroup_memory is Some {
                memory + 1
            } else {
                memory
            };
            let end = if measured.cgroup_memory_status is Some {
                status + 1
            } else {
                status
            };
            &&& lines.len() == end
            &&& lines[0] == ending_line(report, figures)
            &&& lines[1] == child_line(report, figures)
            &&& lines[2] == harness_line(report, figures)
            &&& args.objects_processed matches Some(n) ==> lines[3] == throughput_line(n, figures)
            &&& measured.proc_status matches Some(s) ==> lines[samples] == samples_line(s)
            &&& measured.cgroup_memory matches Some(m) ==> lines[memory] == cgroup_line(m)
            &&& measured.cgroup_memory_status matches Some(reason) ==> lines[status]
                == "child_cgroup_memory_status="@ + reason@
        }),
{
}

/// A report keeps the times that were measured, and shows every word of the command.
pub proof fn law_a_report_keeps_times_and_command(
    args: Args,
    measured: Measurements,
    report: Report,
    i: int,
)
    requires
        report.describes(args, measured),
    ensures
        report.elapsed.seconds == measured.elapsed.seconds,
        report.elapsed.nanos == measured.elapsed.nanos,
        report.child_user_cpu.seconds == measured.outcome.usage.user_cpu.seconds,
        report.child_user_cpu.micros == measured.outcome.usage.user_cpu.micros,
        report.child_system_cpu.seconds == measured.outcome.usage.system_cpu.seconds,
        report.child_system_cpu.micros == measured.outcome.usage.system_cpu.micros,
        report.objects_processed == args.objects_processed,
        report.proc_status == measured.proc_status,
        report.child_cgroup_memory == measured.cgroup_memory,
        report.child_cgroup_memory_status == measured.cgroup_memory_status,
        report.command@.len() == args.command@.len(),
        0 <= i < args.command@.len() ==> report.command@[i]@ == lossy_text(args.command@[i]@),
        0 <= i < args.command@.len() && valid_utf8(args.command@[i]@) ==> report.command@[i]@
            == decode_utf8(args.command@[i]@),
        report.exit_code is Some ==> report.signal is None,
{
    law_exit_or_signal(measured.outcome.status.raw);
    if 0 <= i < args.command@.len() {
        assert(shows(report.command@[i]@, args.command@[i]@));
    }
}

/// A command is shown in brackets: one of no words as nothing, one of one word as that
/// word, and a further word after a comma and a space.
pub proof fn law_commands_are_lists(command: Seq<String>, word: String)
    ensures
        command_text(seq![]) == seq!['[', ']'],
        command_text(seq![word]) == seq!['['] + debug_text(word@) + seq![']'],
        command.len() > 0 ==> command_text(command.push(word)) == command_text(command).drop_last()
            + seq![',', ' '] + debug_text(word@) + seq![']'],
        command_text(command).last() == ']',
{
    reveal_strlit("[");
    reveal_strlit("]");
    reveal_strlit(", ");
    let none = Seq::<String>::empty();
    assert(comma_separated(Seq::new(none.len(), |i: int| debug_text(none[i]@))) == Seq::<
        char,
    >::empty());
    assert(command_text(none) == seq!['[', ']']);
    let one = seq![word];
    let shown_one = Seq::new(one.len(), |i: int| debug_text(one[i]@));
    assert(comma_separated(shown_one) == debug_text(word@));
    assert(command_text(one) == seq!['['] + debug_text(word@) + seq![']']);
    let all = command.push(word);
    let shown_all = Seq::new(all.len(), |i: int| debug_text(all[i]@));
    let before = Seq::new(command.len(), |i: int| debug_text(command[i]@));
    assert(shown_all.drop_last() == before);
    assert(shown_all.last() == debug_text(word@));
    if command.len() > 0 {
        assert(comma_separated(shown_all) == comma_separated(before) + ", "@ + debug_text(word@));
        assert(command_text(command).drop_last() == "["@ + comma_separated(before));
        assert(", "@ == seq![',', ' ']);
        assert("]"@ == seq![']']);
        assert(command_text(all) == command_text(command).drop_last() + seq![',', ' '] + debug_text(
            word@,
        ) + seq![']']);
    }
    assert(command_text(command).last() == ']');
}

} // verus!
