//! Memory accounting through a short-lived cgroup of the run's own.
use vstd::prelude::*;

use crate::decimal::{
    decimal, law_decimal_is_injective, law_decimal_round_trip, law_decimal_text_is_its_number,
    unsigned_text,
};
use crate::output::CgroupMemorySummary;
use crate::text::{
    chars_of, first_field, first_field_of, first_number, first_number_of, first_word, is_digit,
    is_space, law_fields_follow_their_name, law_the_first_word_decides,
    law_trim_takes_only_spaces, lemma_first_word, lemma_run_len, lemma_run_len_holds,
    lemma_split_appended, lemma_split_whole, lines, lines_of, only, parse_u64, parts, run_len,
    second_word, skip_char, span_is, split, trim, trimmed, u64_value, word, FileRead, Span,
};

verus! {

/// Why cgroup accounting failed.
#[derive(Debug)]
pub enum CgroupError {
    /// The cgroup of this process could not be read.
    SelfCgroupUnreadable { cause: String },
    /// The cgroup of the run could not be made.
    CreateFailed { path: String, cause: String },
    /// The child could not be moved into the cgroup of the run.
    MoveFailed { child_pid: u32, path: String, cause: String },
    /// A counter file holds no number.
    InvalidCounter,
    /// The memory statistics could not be read.
    StatUnreadable { cause: String },
    /// The cgroup of the run could not be removed.
    RemoveFailed { path: String, cause: String },
}

/// What an error says.
pub open spec fn error_text(error: CgroupError) -> Seq<char> {
    match error {
        CgroupError::SelfCgroupUnreadable { cause } => "failed to read /proc/self/cgroup: "@
            + cause@,
        CgroupError::CreateFailed { path, cause } => "failed to create cgroup session at "@ + path@
            + ": "@ + cause@,
        CgroupError::MoveFailed { child_pid, path, cause } => "failed to move child "@ + decimal(
            child_pid as nat,
        ) + " into "@ + path@ + ": "@ + cause@,
        CgroupError::InvalidCounter => "invalid cgroup memory counter format"@,
        CgroupError::StatUnreadable { cause } => cause@,
        CgroupError::RemoveFailed { path, cause } => "failed to remove cgroup session "@ + path@
            + ": "@ + cause@,
    }
}

impl CgroupError {
    /// What this error says.
    pub fn message(&self) -> (s: String)
        ensures
            s@ == error_text(*self),
    {
        match self {
            CgroupError::SelfCgroupUnreadable { cause } => {
                let mut s = String::from_str("failed to read /proc/self/cgroup: ");
                s.append(cause.as_str());
                s
            },
            CgroupError::CreateFailed { path, cause } => {
                let mut s = String::from_str("failed to create cgroup session at ");
                s.append(path.as_str());
                s.append(": ");
                s.append(cause.as_str());
                s
            },
            CgroupError::MoveFailed { child_pid, path, cause } => {
                let mut s = String::from_str("failed to move child ");
                s.append(unsigned_text(*child_pid as u128).as_str());
                s.append(" into ");
                s.append(path.as_str());
                s.append(": ");
                s.append(cause.as_str());
                s
            },
            CgroupError::InvalidCounter => String::from_str("invalid cgroup memory counter format"),
            CgroupError::StatUnreadable { cause } => cause.clone(),
            CgroupError::RemoveFailed { path, cause } => {
                let mut s = String::from_str("failed to remove cgroup session ");
                s.append(path.as_str());
                s.append(": ");
                s.append(cause.as_str());
                s
            },
        }
    }
}

/// Whole KiB in a number of bytes.
pub fn bytes_to_kib(bytes: u64) -> (kib: u64)
    ensures
        kib == bytes / 1024,
{
    bytes / 1024
}

/// An optional number of bytes in whole KiB.
pub open spec fn kib_of(bytes: Option<u64>) -> Option<u64> {
    match bytes {
        Some(n) => Some(n / 1024),
        None => None,
    }
}

/// Reads a counter file: the number that is its first word.
pub fn read_u64(content: &str) -> (counter: Result<u64, CgroupError>)
    ensures
        counter == (match first_number(content@) {
            Some(n) => Ok(n),
            None => Err(CgroupError::InvalidCounter),
        }),
{
    match first_number_of(content) {
        Some(n) => Ok(n),
        None => Err(CgroupError::InvalidCounter),
    }
}

/// The totals that `memory.stat` gives, in KiB.
#[derive(Copy, Clone, Debug, PartialEq, Eq, Structural)]
pub struct MemoryStatKib {
    pub anon: Option<u64>,
    pub file: Option<u64>,
    pub shmem: Option<u64>,
    pub rss: Option<u64>,
    pub rss_huge: Option<u64>,
}

/// The number that a line gives for `key`: its first word is the key, its second
/// a number.
pub open spec fn stat_value(line: Seq<char>, key: Seq<char>) -> Option<u64> {
    match (first_word(line), second_word(line)) {
        (Some(k), Some(v)) => if k == key {
            u64_value(v)
        } else {
            None
        },
        _ => None,
    }
}

/// The number that the last of `lines` to give one for `key` gives.
pub open spec fn last_stat(lines: Seq<Seq<char>>, key: Seq<char>) -> Option<u64>
    decreases lines.len(),
{
    if lines.len() == 0 {
        None
    } else {
        match stat_value(lines.last(), key) {
            Some(n) => Some(n),
            None => last_stat(lines.drop_last(), key),
        }
    }
}

/// The totals that the lines of `memory.stat` give.
pub open spec fn stats_of(lines: Seq<Seq<char>>) -> MemoryStatKib {
    MemoryStatKib {
        anon: kib_of(last_stat(lines, "anon"@)),
        file: kib_of(last_stat(lines, "file"@)),
        shmem: kib_of(last_stat(lines, "shmem"@)),
        rss: kib_of(last_stat(lines, "rss"@)),
        rss_huge: kib_of(last_stat(lines, "rss_huge"@)),
    }
}

/// Takes the totals from the text of `memory.stat`.
fn memory_stat_totals(content: &str) -> (stats: MemoryStatKib)
    ensures
        stats == stats_of(lines_of(content@)),
{
    let chars = chars_of(content);
    let text = chars.as_slice();
    let spans = lines(text);
    let ghost all = lines_of(content@);
    let mut stats = MemoryStatKib {
        anon: None,
        file: None,
        shmem: None,
        rss: None,
        rss_huge: None,
    };
    let mut i: usize = 0;
    while i < spans.len()
        invariant
            i <= spans@.len() == all.len(),
            text@ == content@,
            all == parts(spans@, text@),
            forall|j: int| 0 <= j < spans@.len() ==> (#[trigger] spans@[j]).within(text@.len()),
            stats == stats_of(all.take(i as int)),
        decreases spans.len() - i,
    {
        let line = spans[i];
        proof {
            assert(all.take(i + 1).drop_last() == all.take(i as int));
            assert(all.take(i + 1).last() == line.of(text@));
        }
        if let Some(key) = word(text, line) {
            if let Some(value) = word(text, Span { start: key.end, end: line.end }) {
                if let Some(bytes) = parse_u64(text, value) {
                    let kib = bytes_to_kib(bytes);
                    if span_is(text, key, "anon") {
                        stats.anon = Some(kib);
                    }
                    if span_is(text, key, "file") {
                        stats.file = Some(kib);
                    }
                    if span_is(text, key, "shmem") {
                        stats.shmem = Some(kib);
                    }
                    if span_is(text, key, "rss") {
                        stats.rss = Some(kib);
                    }
                    if span_is(text, key, "rss_huge") {
                        stats.rss_huge = Some(kib);
                    }
                }
            }
        }
        i = i + 1;
    }
    assert(all.take(all.len() as int) == all);
    stats
}

/// Takes the totals from a read of `memory.stat`. A file that is not there gives
/// none.
pub fn read_memory_stat_kib(stat: &FileRead) -> (stats: Result<MemoryStatKib, CgroupError>)
    ensures
        stats == (match stat {
            FileRead::Text(content) => Ok(stats_of(lines_of(content@))),
            FileRead::Missing => Ok(stats_of(seq![])),
            FileRead::Failed(cause) => Err(CgroupError::StatUnreadable { cause: *cause }),
        }),
{
    match stat {
        FileRead::Text(content) => Ok(memory_stat_totals(content.as_str())),
        FileRead::Missing => Ok(
            MemoryStatKib { anon: None, file: None, shmem: None, rss: None, rss_huge: None },
        ),
        FileRead::Failed(cause) => Err(CgroupError::StatUnreadable { cause: cause.clone() }),
    }
}

/// The sum of the values present, capped at the largest `u64`; absent where both are.
pub open spec fn sum_present(a: Option<u64>, b: Option<u64>) -> Option<u64> {
    match (a, b) {
        (Some(x), Some(y)) => Some(
            if x + y <= u64::MAX {
                (x + y) as u64
            } else {
                u64::MAX
            },
        ),
        (Some(x), None) => Some(x),
        (None, y) => y,
    }
}

/// The sum of the values present.
fn add_present(a: Option<u64>, b: Option<u64>) -> (sum: Option<u64>)
    ensures
        sum == sum_present(a, b),
{
    match (a, b) {
        (Some(x), Some(y)) => Some(x.saturating_add(y)),
        (Some(x), None) => Some(x),
        (None, Some(y)) => Some(y),
        (None, None) => None,
    }
}

/// What was read of the files of a run's cgroup.
#[derive(Debug)]
pub struct MemoryFiles {
    /// `memory.current`.
    pub current: FileRead,
    /// `memory.peak`.
    pub peak: FileRead,
    /// `memory.stat`.
    pub stat: FileRead,
}

/// The counter in a file, if it was read and holds one.
pub open spec fn counter_of(read: FileRead) -> Option<u64> {
    match read {
        FileRead::Text(content) => first_number(content@),
        _ => None,
    }
}

/// The counter in a file, in KiB, if it was read and holds one.
fn counter_kib(read: &FileRead) -> (kib: Option<u64>)
    ensures
        kib == kib_of(counter_of(*read)),
{
    match read {
        FileRead::Text(content) => match read_u64(content.as_str()) {
            Ok(bytes) => Some(bytes_to_kib(bytes)),
            Err(_) => None,
        },
        _ => None,
    }
}

/// The memory of a run whose cgroup is at `path`: the two counters, the totals of
/// `memory.stat`, and the sums of file and shared memory and of these and
/// anonymous memory.
pub open spec fn usage_of(
    path: String,
    current: FileRead,
    peak: FileRead,
    stats: MemoryStatKib,
) -> CgroupMemorySummary {
    let cache_kb = sum_present(stats.file, stats.shmem);
    CgroupMemorySummary {
        path: Some(path),
        current_kb: kib_of(counter_of(current)),
        peak_kb: kib_of(counter_of(peak)),
        anon_kb: stats.anon,
        file_kb: stats.file,
        shmem_kb: stats.shmem,
        cache_kb,
        rss_cache_kb: sum_present(stats.anon, cache_kb),
        rss_kb: stats.rss,
        rss_huge_kb: stats.rss_huge,
    }
}

/// What a read of the files of the cgroup at `path` amounts to. Only a
/// `memory.stat` that is there and cannot be read is an error.
pub open spec fn usage_result(path: String, files: MemoryFiles) -> Result<
    CgroupMemorySummary,
    CgroupError,
> {
    match files.stat {
        FileRead::Text(content) => Ok(
            usage_of(path, files.current, files.peak, stats_of(lines_of(content@))),
        ),
        FileRead::Missing => Ok(usage_of(path, files.current, files.peak, stats_of(seq![]))),
        FileRead::Failed(cause) => Err(CgroupError::StatUnreadable { cause }),
    }
}

/// What came of removing the directory of a run's cgroup.
#[derive(Debug)]
pub enum Removal {
    /// It is gone.
    Removed,
    /// It was gone already.
    NotFound,
    /// It is still in use.
    NotEmpty,
    /// It could not be removed, for the reason given.
    Failed(String),
}

/// What a removal amounts to: only a failure for a reason other than that the
/// directory is gone or in use is an error.
pub open spec fn removal_result(path: String, removal: Removal) -> Result<(), CgroupError> {
    match removal {
        Removal::Failed(cause) => Err(CgroupError::RemoveFailed { path, cause }),
        _ => Ok(()),
    }
}

/// What a session yields, given what was read of its files and what came of removing
/// its directory.
pub open spec fn collected_of(path: String, files: MemoryFiles, removal: Removal) -> Result<
    CgroupMemorySummary,
    CgroupError,
> {
    match usage_result(path, files) {
        Ok(usage) => match removal_result(path, removal) {
            Ok(_) => Ok(usage),
            Err(error) => Err(error),
        },
        Err(error) => Err(error),
    }
}

/// The cgroup of one run, which the child was moved into.
#[derive(Debug)]
pub struct CgroupMemorySession {
    pub path: String,
}

/// Whether cgroup accounting is on for a run, and why not if it is not.
#[derive(Debug)]
pub struct CgroupMemorySetup {
    pub session: Option<CgroupMemorySession>,
    pub status: Option<String>,
}

/// What the outcome of an attach makes of a setup: a session without a status, or
/// a status that says why there is no session.
pub open spec fn setup_follows(
    attached: Result<Option<CgroupMemorySession>, CgroupError>,
    setup: CgroupMemorySetup,
) -> bool {
    match attached {
        Ok(Some(session)) => setup.session == Some(session) && setup.status is None,
        Ok(None) => {
            &&& setup.session is None
            &&& setup.status matches Some(status)
            &&& status@ == "cgroup v2 memory controller not available for this process"@
        },
        Err(error) => {
            &&& setup.session is None
            &&& setup.status matches Some(status)
            &&& status@ == "cgroup setup failed: "@ + error_text(error)
        },
    }
}

/// What a report says about cgroup memory, given the status of the setup and, for
/// a session, what was collected.
pub open spec fn report_follows(
    status: Option<String>,
    collected: Option<Result<CgroupMemorySummary, CgroupError>>,
    report: (Option<CgroupMemorySummary>, Option<String>),
) -> bool {
    match collected {
        None => report == (None::<CgroupMemorySummary>, status),
        Some(Ok(memory)) => report == (Some(memory), status),
        Some(Err(error)) => {
            &&& report.0 is None
            &&& report.1 matches Some(text)
            &&& text@ == "cgroup collection failed: "@ + error_text(error)
        },
    }
}

impl CgroupMemorySession {
    /// Turns the outcome of an attach into a setup.
    pub fn attach_child_with_reason(
        attached: Result<Option<CgroupMemorySession>, CgroupError>,
    ) -> (setup: CgroupMemorySetup)
        ensures
            setup_follows(attached, setup),
    {
        match attached {
            Ok(Some(session)) => CgroupMemorySetup { session: Some(session), status: None },
            Ok(None) => CgroupMemorySetup {
                session: None,
                status: Some(
                    String::from_str("cgroup v2 memory controller not available for this process"),
                ),
            },
            Err(error) => {
                let mut status = String::from_str("cgroup setup failed: ");
                status.append(error.message().as_str());
                CgroupMemorySetup { session: None, status: Some(status) }
            },
        }
    }

    /// The memory of the run, from the files of its cgroup.
    pub fn read_usage(&self, files: &MemoryFiles) -> (usage: Result<
        CgroupMemorySummary,
        CgroupError,
    >)
        ensures
            usage == usage_result(self.path, *files),
    {
        match read_memory_stat_kib(&files.stat) {
            Ok(stats) => {
                let cache_kb = add_present(stats.file, stats.shmem);
                Ok(
                    CgroupMemorySummary {
                        path: Some(self.path.clone()),
                        current_kb: counter_kib(&files.current),
                        peak_kb: counter_kib(&files.peak),
                        anon_kb: stats.anon,
                        file_kb: stats.file,
                        shmem_kb: stats.shmem,
                        cache_kb,
                        rss_cache_kb: add_present(stats.anon, cache_kb),
                        rss_kb: stats.rss,
                        rss_huge_kb: stats.rss_huge,
                    },
                )
            },
            Err(error) => Err(error),
        }
    }

    /// Whether the removal of the run's cgroup went as it should.
    pub fn cleanup(&self, removal: Removal) -> (cleaned: Result<(), CgroupError>)
        ensures
            cleaned == removal_result(self.path, removal),
    {
        match removal {
            Removal::Failed(cause) => Err(
                CgroupError::RemoveFailed { path: self.path.clone(), cause },
            ),
            _ => Ok(()),
        }
    }

    /// Ends the session: the memory of the run, unless reading it or then
    /// removing the cgroup failed.
    pub fn collect_and_cleanup(self, files: &MemoryFiles, removal: Removal) -> (collected: Result<
        CgroupMemorySummary,
        CgroupError,
    >)
        ensures
            collected == collected_of(self.path, *files, removal),
            collected == (match usage_result(self.path, *files) {
                Ok(usage) => match removal_result(self.path, removal) {
                    Ok(_) => Ok(usage),
                    Err(error) => Err(error),
                },
                Err(error) => Err(error),
            }),
    {
        match self.read_usage(files) {
            Ok(usage) => match self.cleanup(removal) {
                Ok(_) => Ok(usage),
                Err(error) => Err(error),
            },
            Err(error) => Err(error),
        }
    }
}

/// What a report says about cgroup memory, given the status of the setup and, for
/// a session, what was collected: the memory, or a status that says why there is
/// none.
pub fn cgroup_report(
    status: Option<String>,
    collected: Option<Result<CgroupMemorySummary, CgroupError>>,
) -> (report: (Option<CgroupMemorySummary>, Option<String>))
    ensures
        report_follows(status, collected, report),
{
    match collected {
        None => (None, status),
        Some(Ok(memory)) => (Some(memory), status),
        Some(Err(error)) => {
            let mut text = String::from_str("cgroup collection failed: ");
            text.append(error.message().as_str());
            (None, Some(text))
        },
    }
}

/// `path` with `component` joined to it: after a slash, unless the path is empty or
/// ends in one. A component that starts with a slash stands alone.
pub open spec fn joined(path: Seq<char>, component: Seq<char>) -> Seq<char> {
    if component.len() > 0 && component[0] == '/' {
        component
    } else if path.len() > 0 && path.last() != '/' {
        path + "/"@ + component
    } else {
        path + component
    }
}

/// Joins a component to a path.
pub fn join(path: &str, component: &str) -> (s: String)
    ensures
        s@ == joined(path@, component@),
{
    if component.unicode_len() > 0 && component.get_char(0) == '/' {
        return String::from_str(component);
    }
    let n: usize = path.unicode_len();
    let mut s = String::from_str(path);
    if n > 0 && path.get_char(n - 1) != '/' {
        s.append("/");
    }
    s.append(component);
    s
}

/// Where the cgroup file system is mounted.
pub open spec fn mount_text() -> Seq<char> {
    "/sys/fs/cgroup"@
}

/// The directory of the cgroup that `/proc/self/cgroup` names on its version 2
/// line, if it has one: that path without the spaces around it and its leading
/// slashes, below the mount point.
pub open spec fn base_of(contents: Seq<char>) -> Option<Seq<char>> {
    match first_field(lines_of(contents), "0::"@) {
        Some(relative) => {
            let path = trim(relative);
            if path.len() == 0 || path == "/"@ {
                Some(mount_text())
            } else {
                Some(joined(mount_text(), path.skip(run_len(path, only('/')) as int)))
            }
        },
        None => None,
    }
}

/// The directory of this process's cgroup, from the text of `/proc/self/cgroup`.
pub fn discover_memory_cgroup_base(contents: &str) -> (base: Option<String>)
    ensures
        match base {
            Some(path) => base_of(contents@) == Some(path@),
            None => base_of(contents@) is None,
        },
{
    let chars = chars_of(contents);
    let text = chars.as_slice();
    match first_field_of(text, "0::") {
        Some(relative) => {
            let path = trimmed(text, relative);
            if path.start == path.end || span_is(text, path, "/") {
                Some(String::from_str("/sys/fs/cgroup"))
            } else {
                let start = skip_char(text, path, '/');
                let below = contents.substring_char(start, path.end);
                assert(below@ == path.of(text@).skip(start - path.start));
                Some(join("/sys/fs/cgroup", below))
            }
        },
        None => None,
    }
}

/// The name of the cgroup of a run of harness process `harness_pid` that starts
/// `nanos` nanoseconds into the epoch.
pub open spec fn session_name(harness_pid: u32, nanos: u128) -> Seq<char> {
    "memory-harness-"@ + decimal(harness_pid as nat) + "-"@ + decimal(nanos as nat)
}

/// The directory of a run's cgroup below `base`.
pub fn session_path(base: &str, harness_pid: u32, nanos: u128) -> (path: String)
    ensures
        path@ == joined(base@, session_name(harness_pid, nanos)),
{
    let mut name = String::from_str("memory-harness-");
    name.append(unsigned_text(harness_pid as u128).as_str());
    name.append("-");
    name.append(unsigned_text(nanos).as_str());
    join(base, name.as_str())
}

/// What an attach does next.
#[derive(Debug)]
pub enum AttachAction {
    /// Read `/proc/self/cgroup`.
    ReadSelfCgroup,
    /// See whether this directory has memory accounting.
    ProbeBase { base: String },
    /// Make this directory.
    CreateSession { path: String },
    /// Move the child into the cgroup at this directory.
    MoveChild { path: String },
    /// The attach is over.
    Finished { attached: Result<Option<CgroupMemorySession>, CgroupError> },
}

/// What came of an attach's action.
#[derive(Debug)]
pub enum AttachEvent {
    SelfCgroup(Result<String, String>),
    BaseProbed { memory_current_is_file: bool, base_exists: bool },
    SessionCreated(Result<(), String>),
    ChildMoved(Result<(), String>),
}

/// The attach of a child to a cgroup of its run's own.
#[derive(Debug)]
pub struct CgroupAttach {
    pub child_pid: u32,
    pub harness_pid: u32,
    pub nanos: u128,
    pub action: AttachAction,
}

/// What an attach goes on to when its action has the outcome `event`.
pub open spec fn attach_step(
    before: CgroupAttach,
    event: AttachEvent,
    after: Option<CgroupAttach>,
) -> bool {
    match after {
        Some(after) => {
            &&& after.child_pid == before.child_pid
            &&& after.harness_pid == before.harness_pid
            &&& after.nanos == before.nanos
            &&& match (before.action, event) {
                (AttachAction::ReadSelfCgroup, AttachEvent::SelfCgroup(Ok(contents))) => {
                    match base_of(contents@) {
                        Some(expected) => {
                            &&& after.action matches AttachAction::ProbeBase { base }
                            &&& base@ == expected
                        },
                        None => after.action == (AttachAction::Finished { attached: Ok(None) }),
                    }
                },
                (AttachAction::ReadSelfCgroup, AttachEvent::SelfCgroup(Err(cause))) => {
                    after.action == (AttachAction::Finished {
                        attached: Err(CgroupError::SelfCgroupUnreadable { cause }),
                    })
                },
                (
                    AttachAction::ProbeBase { base },
                    AttachEvent::BaseProbed { memory_current_is_file, base_exists },
                ) => {
                    if memory_current_is_file && base_exists {
                        &&& after.action matches AttachAction::CreateSession { path }
                        &&& path@ == joined(base@, session_name(before.harness_pid, before.nanos))
                    } else {
                        after.action == (AttachAction::Finished { attached: Ok(None) })
                    }
                },
                (AttachAction::CreateSession { path }, AttachEvent::SessionCreated(Ok(_))) => {
                    after.action == (AttachAction::MoveChild { path })
                },
                (AttachAction::CreateSession { path }, AttachEvent::SessionCreated(Err(cause))) => {
                    after.action == (AttachAction::Finished {
                        attached: Err(CgroupError::CreateFailed { path, cause }),
                    })
                },
                (AttachAction::MoveChild { path }, AttachEvent::ChildMoved(Ok(_))) => {
                    after.action == (AttachAction::Finished {
                        attached: Ok(Some(CgroupMemorySession { path })),
                    })
                },
                (AttachAction::MoveChild { path }, AttachEvent::ChildMoved(Err(cause))) => {
                    after.action == (AttachAction::Finished {
                        attached: Err(
                            CgroupError::MoveFailed { child_pid: before.child_pid, path, cause },
                        ),
                    })
                },
                _ => false,
            }
        },
        None => !attach_answers(before.action, event),
    }
}

/// Whether `event` is an outcome of `action`.
pub open spec fn attach_answers(action: AttachAction, event: AttachEvent) -> bool {
    match (action, event) {
        (AttachAction::ReadSelfCgroup, AttachEvent::SelfCgroup(_)) => true,
        (AttachAction::ProbeBase { .. }, AttachEvent::BaseProbed { .. }) => true,
        (AttachAction::CreateSession { .. }, AttachEvent::SessionCreated(_)) => true,
        (AttachAction::MoveChild { .. }, AttachEvent::ChildMoved(_)) => true,
        _ => false,
    }
}

impl CgroupMemorySession {
    /// Starts to attach a child. The process and the time make the name of the
    /// run's cgroup.
    pub fn attach_child(child_pid: u32, harness_pid: u32, nanos: u128) -> (attach: CgroupAttach)
        ensures
            attach == (CgroupAttach {
                child_pid,
                harness_pid,
                nanos,
                action: AttachAction::ReadSelfCgroup,
            }),
    {
        CgroupAttach { child_pid, harness_pid, nanos, action: AttachAction::ReadSelfCgroup }
    }
}

impl CgroupAttach {
    /// Goes on after the outcome of the current action; `None` if `event` is not an
    /// outcome of it.
    pub fn advance(self, event: AttachEvent) -> (after: Option<CgroupAttach>)
        ensures
            attach_step(self, event, after),
    {
        let action = match (self.action, event) {
            (AttachAction::ReadSelfCgroup, AttachEvent::SelfCgroup(Ok(contents))) => {
                match discover_memory_cgroup_base(contents.as_str()) {
                    Some(base) => AttachAction::ProbeBase { base },
                    None => AttachAction::Finished { attached: Ok(None) },
                }
            },
            (AttachAction::ReadSelfCgroup, AttachEvent::SelfCgroup(Err(cause))) => {
                AttachAction::Finished {
                    attached: Err(CgroupError::SelfCgroupUnreadable { cause }),
                }
            },
            (
                AttachAction::ProbeBase { base },
                AttachEvent::BaseProbed { memory_current_is_file, base_exists },
            ) => {
                if memory_current_is_file && base_exists {
                    AttachAction::CreateSession {
                        path: session_path(base.as_str(), self.harness_pid, self.nanos),
                    }
                } else {
                    AttachAction::Finished { attached: Ok(None) }
                }
            },
            (AttachAction::CreateSession { path }, AttachEvent::SessionCreated(Ok(_))) => {
                AttachAction::MoveChild { path }
            },
            (AttachAction::CreateSession { path }, AttachEvent::SessionCreated(Err(cause))) => {
                AttachAction::Finished { attached: Err(CgroupError::CreateFailed { path, cause }) }
            },
            (AttachAction::MoveChild { path }, AttachEvent::ChildMoved(Ok(_))) => {
                AttachAction::Finished { attached: Ok(Some(CgroupMemorySession { path })) }
            },
            (AttachAction::MoveChild { path }, AttachEvent::ChildMoved(Err(cause))) => {
                AttachAction::Finished {
                    attached: Err(
                        CgroupError::MoveFailed { child_pid: self.child_pid, path, cause },
                    ),
                }
            },
            _ => {
                return None;
            },
        };
        Some(
            CgroupAttach {
                child_pid: self.child_pid,
                harness_pid: self.harness_pid,
                nanos: self.nanos,
                action,
            },
        )
    }
}

/// A run has either the memory of its cgroup or a status that says why it has
/// none, and never both: whatever came of the attach, and of collecting from the
/// session if there is one.
pub proof fn law_memory_or_reason(
    attached: Result<Option<CgroupMemorySession>, CgroupError>,
    setup: CgroupMemorySetup,
    collected: Option<Result<CgroupMemorySummary, CgroupError>>,
    report: (Option<CgroupMemorySummary>, Option<String>),
)
    requires
        setup_follows(attached, setup),
        collected is Some <==> setup.session is Some,
        report_follows(setup.status, collected, report),
    ensures
        report.0 is Some <==> report.1 is None,
        report.0 is Some <==> setup.session is Some && collected->0 is Ok,
{
}

/// How far an attach has come.
pub open spec fn attach_rank(action: AttachAction) -> nat {
    match action {
        AttachAction::ReadSelfCgroup => 0,
        AttachAction::ProbeBase { .. } => 1,
        AttachAction::CreateSession { .. } => 2,
        AttachAction::MoveChild { .. } => 3,
        AttachAction::Finished { .. } => 4,
    }
}

/// An attach comes further with every step, so it is over after four at most, and
/// nothing follows its end.
pub proof fn law_attach_ends(before: CgroupAttach, event: AttachEvent, after: Option<CgroupAttach>)
    requires
        attach_step(before, event, after),
    ensures
        after matches Some(a) ==> attach_rank(before.action) < attach_rank(a.action) <= 4,
        before.action is Finished ==> after is None,
{
}

/// An attach yields a session only when the child was moved into the directory
/// that the session names, and that directory was made just before.
pub proof fn law_session_holds_the_child(
    made: CgroupAttach,
    created: AttachEvent,
    before: CgroupAttach,
    event: AttachEvent,
    after: CgroupAttach,
    session: CgroupMemorySession,
)
    requires
        attach_step(made, created, Some(before)),
        attach_step(before, event, Some(after)),
        after.action == (AttachAction::Finished { attached: Ok(Some(session)) }),
    ensures
        event matches AttachEvent::ChildMoved(Ok(_)),
        before.action == (AttachAction::MoveChild { path: session.path }),
        created matches AttachEvent::SessionCreated(Ok(_)),
        made.action == (AttachAction::CreateSession { path: session.path }),
{
}

proof fn lemma_joined_name(base: Seq<char>, harness_pid: u32, nanos: u128)
    ensures
        ({
            let name = session_name(harness_pid, nanos);
            let path = joined(base, name);
            &&& name.len() > 0 && name[0] == 'm'
            &&& path == base + name || path == base + "/"@ + name
            &&& path == base + name <==> base.len() == 0 || base.last() == '/'
        }),
{
    reveal_strlit("memory-harness-");
    reveal_strlit("/");
    let name = session_name(harness_pid, nanos);
    assert(name[0] == "memory-harness-"@[0]);
    assert(base.len() > 0 && base.last() != '/' ==> (base + "/"@ + name).len() == (base
        + name).len() + 1);
}

/// Two runs whose cgroups lie in one directory have the same one only if they are
/// of the same harness process and started at the same time.
pub proof fn law_sessions_are_distinct(
    base: Seq<char>,
    pid_a: u32,
    nanos_a: u128,
    pid_b: u32,
    nanos_b: u128,
)
    requires
        joined(base, session_name(pid_a, nanos_a)) == joined(base, session_name(pid_b, nanos_b)),
    ensures
        pid_a == pid_b,
        nanos_a == nanos_b,
{
    reveal_strlit("-");
    lemma_joined_name(base, pid_a, nanos_a);
    lemma_joined_name(base, pid_b, nanos_b);
    let name_a = session_name(pid_a, nanos_a);
    let name_b = session_name(pid_b, nanos_b);
    let path = joined(base, name_a);
    let start = path.len() - name_a.len();
    assert(path.skip(start) == name_a);
    assert(path.skip(start) == name_b);
    let lead = "memory-harness-"@.len() as int;
    let a = decimal(pid_a as nat);
    let b = decimal(pid_b as nat);
    let rest_a = decimal(nanos_a as nat);
    let rest_b = decimal(nanos_b as nat);
    let tail = name_a.skip(lead);
    assert(tail == a + "-"@ + rest_a);
    assert(tail == b + "-"@ + rest_b);
    law_decimal_text_is_its_number(pid_a as nat);
    law_decimal_text_is_its_number(pid_b as nat);
    assert(a.len() == b.len()) by {
        if a.len() < b.len() {
            assert(tail[a.len() as int] == "-"@[0]);
            assert(is_digit(b[a.len() as int]));
        } else if b.len() < a.len() {
            assert(tail[b.len() as int] == "-"@[0]);
            assert(is_digit(a[b.len() as int]));
        }
    }
    assert(tail.take(a.len() as int) == a);
    assert(tail.take(b.len() as int) == b);
    assert(tail.skip(a.len() as int + 1) == rest_a);
    assert(tail.skip(b.len() as int + 1) == rest_b);
    law_decimal_is_injective(pid_a as nat, pid_b as nat);
    law_decimal_is_injective(nanos_a as nat, nanos_b as nat);
}

/// The cgroup of a run is named below the mount point of the cgroup file system,
/// whatever `/proc/self/cgroup` holds.
pub proof fn law_sessions_lie_below_the_mount(
    contents: Seq<char>,
    base: Seq<char>,
    harness_pid: u32,
    nanos: u128,
)
    requires
        base_of(contents) == Some(base),
    ensures
        mount_text().is_prefix_of(base),
        mount_text().is_prefix_of(joined(base, session_name(harness_pid, nanos))),
{
    let path = trim(first_field(lines_of(contents), "0::"@)->0);
    lemma_run_len_holds(path, only('/'));
    let n = run_len(path, only('/')) as int;
    let below = path.skip(n);
    reveal_strlit("/sys/fs/cgroup");
    reveal_strlit("/");
    if n < path.len() {
        assert(below[0] == path[n]);
    }
    lemma_joined_name(base, harness_pid, nanos);
    let m = mount_text();
    let session = joined(base, session_name(harness_pid, nanos));
    assert(base.subrange(0, m.len() as int) == m);
    assert(session.subrange(0, m.len() as int) == m);
}

/// The sums in a run's memory are there when any of their parts is, and are at
/// least as large as each of them.
pub proof fn law_sums_cover_their_parts(
    path: String,
    current: FileRead,
    peak: FileRead,
    stats: MemoryStatKib,
)
    ensures
        ({
            let usage = usage_of(path, current, peak, stats);
            &&& usage.cache_kb is Some <==> usage.file_kb is Some || usage.shmem_kb is Some
            &&& usage.rss_cache_kb is Some <==> usage.anon_kb is Some || usage.cache_kb is Some
            &&& usage.file_kb matches Some(file) ==> file <= usage.cache_kb->0
            &&& usage.shmem_kb matches Some(shmem) ==> shmem <= usage.cache_kb->0
            &&& usage.anon_kb matches Some(anon) ==> anon <= usage.rss_cache_kb->0
            &&& usage.cache_kb matches Some(cache) ==> cache <= usage.rss_cache_kb->0
        }),
{
}

/// A total that `memory.stat` gives in decimal is the total that is read, whatever
/// earlier lines hold.
pub proof fn law_stat_is_read_back(
    earlier: Seq<Seq<char>>,
    key: Seq<char>,
    gap: Seq<char>,
    n: u64,
    after: Seq<char>,
)
    requires
        key.len() > 0,
        forall|i: int| 0 <= i < key.len() ==> !is_space(#[trigger] key[i]),
        gap.len() > 0,
        forall|i: int| 0 <= i < gap.len() ==> is_space(#[trigger] gap[i]),
        after.len() > 0 ==> is_space(after[0]),
    ensures
        last_stat(earlier.push(key + gap + decimal(n as nat) + after), key) == Some(n),
{
    let digits = decimal(n as nat);
    let line = key + gap + digits + after;
    let value = gap + digits + after;
    law_decimal_text_is_its_number(n as nat);
    law_decimal_round_trip(n as nat, u64::MAX as nat);
    assert forall|i: int| 0 <= i < digits.len() implies !is_space(#[trigger] digits[i]) by {
        assert(is_digit(digits[i]));
    }
    assert(line == Seq::<char>::empty() + key + value);
    assert(value[0] == gap[0]);
    lemma_first_word(Seq::<char>::empty(), key, value);
    lemma_first_word(gap, digits, after);
    assert(earlier.push(line).last() == line);
}

/// What a further line changes in the totals: a line whose first word is the name of a
/// total and whose second is a number gives that total, and no other, that many bytes
/// in whole KiB.
pub proof fn law_each_total_has_its_line(
    earlier: Seq<Seq<char>>,
    lead: Seq<char>,
    key: Seq<char>,
    gap: Seq<char>,
    w: Seq<char>,
    after: Seq<char>,
)
    requires
        forall|i: int| 0 <= i < lead.len() ==> is_space(#[trigger] lead[i]),
        key.len() > 0,
        forall|i: int| 0 <= i < key.len() ==> !is_space(#[trigger] key[i]),
        gap.len() > 0,
        forall|i: int| 0 <= i < gap.len() ==> is_space(#[trigger] gap[i]),
        w.len() > 0,
        forall|i: int| 0 <= i < w.len() ==> !is_space(#[trigger] w[i]),
        after.len() > 0 ==> is_space(after[0]),
    ensures
        ({
            let before = stats_of(earlier);
            let now = stats_of(earlier.push(lead + key + (gap + w + after)));
            &&& now.anon == if key == "anon"@ && u64_value(w) is Some {
                Some(u64_value(w)->0 / 1024)
            } else {
                before.anon
            }
            &&& now.file == if key == "file"@ && u64_value(w) is Some {
                Some(u64_value(w)->0 / 1024)
            } else {
                before.file
            }
            &&& now.shmem == if key == "shmem"@ && u64_value(w) is Some {
                Some(u64_value(w)->0 / 1024)
            } else {
                before.shmem
            }
            &&& now.rss == if key == "rss"@ && u64_value(w) is Some {
                Some(u64_value(w)->0 / 1024)
            } else {
                before.rss
            }
            &&& now.rss_huge == if key == "rss_huge"@ && u64_value(w) is Some {
                Some(u64_value(w)->0 / 1024)
            } else {
                before.rss_huge
            }
        }),
        stats_of(earlier.push(lead + key + gap)) == stats_of(earlier),
        stats_of(earlier.push(lead)) == stats_of(earlier),
        stats_of(seq![]) == (MemoryStatKib {
            anon: None,
            file: None,
            shmem: None,
            rss: None,
            rss_huge: None,
        }),
{
    let value = gap + w + after;
    let line = lead + key + value;
    assert(value[0] == gap[0]);
    lemma_first_word(lead, key, value);
    lemma_first_word(gap, w, after);
    let lines = earlier.push(line);
    assert(lines.last() == line);
    assert(lines.drop_last() == earlier);
    let short = lead + key + gap;
    lemma_first_word(lead, key, gap);
    law_the_first_word_decides(gap, w, after);
    assert(earlier.push(short).last() == short);
    assert(earlier.push(short).drop_last() == earlier);
    law_the_first_word_decides(lead, key, gap);
    assert(earlier.push(lead).last() == lead);
    assert(earlier.push(lead).drop_last() == earlier);
}

/// The memory of a run is what the files of its cgroup hold: the first number of each
/// counter file in whole KiB, where it was read and holds one, the totals of
/// `memory.stat` under their names, and the path of the cgroup. It is there exactly if
/// `memory.stat` was read or is not there; else the error is why it could not be read.
pub proof fn law_memory_is_what_the_files_hold(path: String, files: MemoryFiles)
    ensures
        usage_result(path, files) is Ok <==> !(files.stat is Failed),
        usage_result(path, files) matches Ok(usage) ==> {
            let stats = match files.stat {
                FileRead::Text(content) => stats_of(lines_of(content@)),
                _ => MemoryStatKib { anon: None, file: None, shmem: None, rss: None, rss_huge: None },
            };
            &&& usage.path == Some(path)
            &&& usage.current_kb == (match files.current {
                FileRead::Text(content) => match first_number(content@) {
                    Some(bytes) => Some(bytes / 1024),
                    None => None,
                },
                _ => None,
            })
            &&& usage.peak_kb == (match files.peak {
                FileRead::Text(content) => match first_number(content@) {
                    Some(bytes) => Some(bytes / 1024),
                    None => None,
                },
                _ => None,
            })
            &&& usage.anon_kb == stats.anon
            &&& usage.file_kb == stats.file
            &&& usage.shmem_kb == stats.shmem
            &&& usage.rss_kb == stats.rss
            &&& usage.rss_huge_kb == stats.rss_huge
        },
        files.stat matches FileRead::Failed(cause) ==> (usage_result(path, files) matches Err(error)
            && error_text(error) == cause@),
{
}

/// The two sums in a run's memory: file and shared memory, and these and anonymous
/// memory, where what is absent counts as nothing and a sum out of range as the largest
/// number.
pub proof fn law_sums_are_sums(path: String, files: MemoryFiles, usage: CgroupMemorySummary)
    requires
        usage_result(path, files) == Ok::<CgroupMemorySummary, CgroupError>(usage),
    ensures
        ({
            let anon = if usage.anon_kb is Some { usage.anon_kb->0 as int } else { 0 };
            let file = if usage.file_kb is Some { usage.file_kb->0 as int } else { 0 };
            let shmem = if usage.shmem_kb is Some { usage.shmem_kb->0 as int } else { 0 };
            &&& usage.cache_kb is None <==> usage.file_kb is None && usage.shmem_kb is None
            &&& usage.rss_cache_kb is None <==> usage.anon_kb is None && usage.cache_kb is None
            &&& usage.cache_kb matches Some(sum) ==> {
                ||| sum == file + shmem
                ||| sum == u64::MAX && file + shmem > u64::MAX
            }
            &&& usage.rss_cache_kb matches Some(sum) ==> {
                ||| sum == anon + file + shmem
                ||| sum == u64::MAX && anon + file + shmem > u64::MAX
            }
        }),
{
}

/// A session ends well unless its directory could not be removed for a reason other
/// than that it is gone or in use; then the error names the directory and the reason.
pub proof fn law_only_a_failed_removal_is_an_error(path: String, removal: Removal)
    ensures
        removal_result(path, removal) is Err <==> removal is Failed,
        removal matches Removal::Failed(cause) ==> (removal_result(path, removal) matches Err(error)
            && (path@ + ": "@ + cause@).is_suffix_of(error_text(error))),
{
    if let Removal::Failed(cause) = removal {
        let text = error_text(CgroupError::RemoveFailed { path, cause });
        lemma_ends_in("failed to remove cgroup session "@, path@, ": "@, cause@);
        assert(text == "failed to remove cgroup session "@ + path@ + ": "@ + cause@);
    }
}

proof fn lemma_ends_in(lead: Seq<char>, path: Seq<char>, gap: Seq<char>, cause: Seq<char>)
    ensures
        (path + gap + cause).is_suffix_of(lead + path + gap + cause),
{
    let tail = path + gap + cause;
    let text = lead + path + gap + cause;
    assert(text == lead + tail);
    assert(text.subrange(text.len() - tail.len(), text.len() as int) == tail);
}

proof fn lemma_ends_in_last(lead: Seq<char>, tail: Seq<char>)
    ensures
        tail.is_suffix_of(lead + tail),
{
    let text = lead + tail;
    assert(text.subrange(text.len() - tail.len(), text.len() as int) == tail);
}

/// An error ends in what caused it, and names the directory before it, where there is
/// one.
pub proof fn law_errors_name_their_cause(child_pid: u32, path: String, cause: String)
    ensures
        cause@.is_suffix_of(error_text(CgroupError::SelfCgroupUnreadable { cause })),
        (path@ + ": "@ + cause@).is_suffix_of(
            error_text(CgroupError::CreateFailed { path, cause }),
        ),
        (decimal(child_pid as nat) + " into "@ + path@ + ": "@ + cause@).is_suffix_of(
            error_text(CgroupError::MoveFailed { child_pid, path, cause }),
        ),
        error_text(CgroupError::StatUnreadable { cause }) == cause@,
{
    lemma_ends_in_last("failed to read /proc/self/cgroup: "@, cause@);
    lemma_ends_in("failed to create cgroup session at "@, path@, ": "@, cause@);
    let lead = "failed to move child "@;
    let tail = decimal(child_pid as nat) + " into "@ + path@ + ": "@ + cause@;
    lemma_ends_in_last(lead, tail);
    assert(lead + tail == error_text(CgroupError::MoveFailed { child_pid, path, cause }));
}

/// A run without the memory of its cgroup says why: that there is no memory controller
/// for it, or what went wrong when the child was attached or the memory collected.
pub proof fn law_the_reason_is_what_went_wrong(
    attached: Result<Option<CgroupMemorySession>, CgroupError>,
    setup: CgroupMemorySetup,
    collected: Option<Result<CgroupMemorySummary, CgroupError>>,
    report: (Option<CgroupMemorySummary>, Option<String>),
)
    requires
        setup_follows(attached, setup),
        collected is Some <==> setup.session is Some,
        report_follows(setup.status, collected, report),
    ensures
        attached matches Ok(Some(session)) ==> setup.session == Some(session),
        !(attached matches Ok(Some(_))) ==> setup.session is None,
        attached matches Err(error) ==> (report.1 matches Some(reason) && error_text(
            error,
        ).is_suffix_of(reason@)),
        collected matches Some(Err(error)) ==> (report.1 matches Some(reason) && error_text(
            error,
        ).is_suffix_of(reason@)),
        collected matches Some(Ok(memory)) ==> report.0 == Some(memory),
{
    if let Err(error) = attached {
        lemma_ends_in_last("cgroup setup failed: "@, error_text(error));
    }
    if let Some(Err(error)) = collected {
        lemma_ends_in_last("cgroup collection failed: "@, error_text(error));
    }
}

/// The cgroup that `/proc/self/cgroup` names on its first version 2 line is the
/// directory of that path below the mount point of the cgroup file system: of `/a/b`,
/// `/sys/fs/cgroup/a/b`. The root, or an empty path, is the mount point itself, and
/// without such a line there is none.
pub proof fn law_the_base_is_the_named_cgroup(
    contents: Seq<char>,
    before: Seq<Seq<char>>,
    lead: Seq<char>,
    slashes: Seq<char>,
    below: Seq<char>,
    trail: Seq<char>,
    after: Seq<Seq<char>>,
)
    requires
        forall|i: int| 0 <= i < before.len() ==> !"0::"@.is_prefix_of(#[trigger] before[i]),
        forall|i: int| 0 <= i < lead.len() ==> is_space(#[trigger] lead[i]),
        forall|i: int| 0 <= i < trail.len() ==> is_space(#[trigger] trail[i]),
        forall|i: int| 0 <= i < slashes.len() ==> (#[trigger] slashes[i]) == '/',
        below.len() > 0 ==> below[0] != '/' && !is_space(below[0]) && !is_space(below.last()),
    ensures
        lines_of(contents) == before.push("0::"@ + (lead + (slashes + below) + trail)) + after ==> {
            &&& below.len() > 0 ==> base_of(contents) == Some("/sys/fs/cgroup/"@ + below)
            &&& below.len() == 0 && slashes.len() <= 1 ==> base_of(contents) == Some(
                "/sys/fs/cgroup"@,
            )
        },
        lines_of(contents) == before ==> base_of(contents) is None,
{
    let path = slashes + below;
    let value = lead + path + trail;
    law_fields_follow_their_name(before, "0::"@, value, after);
    if below.len() > 0 {
        assert(path.last() == below.last());
        if slashes.len() > 0 {
            assert(path[0] == slashes[0]);
        } else {
            assert(path[0] == below[0]);
        }
    } else if slashes.len() > 0 {
        assert(path[0] == slashes[0]);
        assert(path.last() == slashes[slashes.len() - 1]);
    }
    law_trim_takes_only_spaces(lead, path, trail);
    reveal_strlit("/sys/fs/cgroup");
    reveal_strlit("/sys/fs/cgroup/");
    reveal_strlit("/");
    if below.len() > 0 {
        let n = slashes.len() as int;
        assert forall|i: int| 0 <= i < n implies only('/')(#[trigger] path[i]) by {
            assert(path[i] == slashes[i]);
        }
        assert(path[n] == below[0]);
        lemma_run_len(path, only('/'), n);
        assert(path.skip(n) == below);
        assert(path != "/"@) by {
            if path == "/"@ {
                assert(path[n] == '/');
            }
        }
        assert("/sys/fs/cgroup"@ + "/"@ == "/sys/fs/cgroup/"@);
    } else if slashes.len() == 1 {
        assert(path == "/"@);
    } else if slashes.len() == 0 {
        assert(path.len() == 0);
    }
}

/// The cgroup of a run lies directly below its base, under a name of its own: the name
/// of the harness, the number of the harness process and the time of the start, with
/// hyphens between them.
pub proof fn law_sessions_are_named_by_process_and_time(
    base: Seq<char>,
    harness_pid: u32,
    nanos: u128,
)
    ensures
        ({
            let name = session_name(harness_pid, nanos);
            &&& split(name, '-', 4) == seq![
                "memory"@,
                "harness"@,
                decimal(harness_pid as nat),
                decimal(nanos as nat),
            ]
            &&& base.len() > 0 && base.last() != '/' ==> joined(base, name) == base + seq!['/'] + name
            &&& base.len() > 0 && base.last() == '/' ==> joined(base, name) == base + name
        }),
{
    reveal_strlit("memory-harness-");
    reveal_strlit("memory");
    reveal_strlit("harness");
    reveal_strlit("-");
    reveal_strlit("/");
    lemma_joined_name(base, harness_pid, nanos);
    let pid = decimal(harness_pid as nat);
    law_decimal_text_is_its_number(harness_pid as nat);
    if pid.contains('-') {
        let i = choose|i: int| 0 <= i < pid.len() && pid[i] == '-';
        assert(is_digit(pid[i]));
    }
    let time = decimal(nanos as nat);
    let n0 = "memory"@;
    let n1 = n0 + seq!['-'] + "harness"@;
    let n2 = n1 + seq!['-'] + pid;
    let n3 = n2 + seq!['-'] + time;
    lemma_split_whole(n0, '-');
    lemma_split_appended(n0, '-', 1, "harness"@);
    lemma_split_appended(n1, '-', 2, pid);
    lemma_split_appended(n2, '-', 3, time);
    assert(n3 == session_name(harness_pid, nanos));
    assert("/"@ == seq!['/']);
}

/// How an attach goes on: it makes the directory of the run exactly if it found memory
/// accounting in a base that is there, moves the child exactly if that directory was
/// made, and has a session exactly if the child was moved. It is over without one where
/// there is no base or no accounting in it, and fails with the reason that it was given
/// where a read, the directory or the move failed.
pub proof fn law_attach_goes_by_what_it_finds(
    before: CgroupAttach,
    event: AttachEvent,
    after: CgroupAttach,
)
    requires
        attach_step(before, event, Some(after)),
    ensures
        after.action is ProbeBase <==> (event matches AttachEvent::SelfCgroup(Ok(contents))
            && base_of(contents@) is Some),
        after.action matches AttachAction::ProbeBase { base } ==> base_of(
            event->SelfCgroup_0->Ok_0@,
        ) == Some(base@),
        after.action is CreateSession <==> (event matches AttachEvent::BaseProbed {
            memory_current_is_file,
            base_exists,
        } && memory_current_is_file && base_exists),
        after.action matches AttachAction::CreateSession { path } ==> (before.action matches
            AttachAction::ProbeBase { base } && path@ == joined(
            base@,
            session_name(before.harness_pid, before.nanos),
        )),
        after.action is MoveChild <==> (event matches AttachEvent::SessionCreated(Ok(_))),
        after.action matches AttachAction::MoveChild { path } ==> before.action == (
        AttachAction::CreateSession { path }),
        (after.action matches AttachAction::Finished { attached: Ok(Some(_)) }) <==> (event matches
            AttachEvent::ChildMoved(Ok(_))),
        after.action matches AttachAction::Finished { attached: Ok(Some(session)) }
            ==> before.action == (AttachAction::MoveChild { path: session.path }),
        (after.action matches AttachAction::Finished { attached: Err(_) }) <==> {
            ||| event matches AttachEvent::SelfCgroup(Err(_))
            ||| event matches AttachEvent::SessionCreated(Err(_))
            ||| event matches AttachEvent::ChildMoved(Err(_))
        },
        event matches AttachEvent::SelfCgroup(Err(cause)) ==> after.action == (
        AttachAction::Finished { attached: Err(CgroupError::SelfCgroupUnreadable { cause }) }),
        event matches AttachEvent::SessionCreated(Err(cause)) ==> (before.action matches
            AttachAction::CreateSession { path } && after.action == (AttachAction::Finished {
            attached: Err(CgroupError::CreateFailed { path, cause }),
        })),
        event matches AttachEvent::ChildMoved(Err(cause)) ==> (before.action matches
            AttachAction::MoveChild { path } && after.action == (AttachAction::Finished {
            attached: Err(
                CgroupError::MoveFailed { child_pid: before.child_pid, path, cause },
            ),
        })),
        after.child_pid == before.child_pid,
        after.harness_pid == before.harness_pid,
        after.nanos == before.nanos,
{
}

/// An attach goes on with every outcome of what it was doing, and with no other.
pub proof fn law_attach_takes_its_own_outcomes(
    before: CgroupAttach,
    event: AttachEvent,
    after: Option<CgroupAttach>,
)
    requires
        attach_step(before, event, after),
    ensures
        after is Some <==> {
            ||| before.action is ReadSelfCgroup && event is SelfCgroup
            ||| before.action is ProbeBase && event is BaseProbed
            ||| before.action is CreateSession && event is SessionCreated
            ||| before.action is MoveChild && event is ChildMoved
        },
{
}

/// A path and a component that is no path from the root are joined by one slash: one
/// that the path ends in, or one put between them, unless the path is empty. A component
/// from the root stands alone.
pub proof fn law_paths_are_joined_by_one_slash(path: Seq<char>, component: Seq<char>)
    ensures
        component.len() > 0 && component[0] == '/' ==> joined(path, component) == component,
        component.len() == 0 || component[0] != '/' ==> {
            &&& joined(seq![], component) == component
            &&& joined(path + seq!['/'], component) == path + seq!['/'] + component
            &&& path.len() > 0 && path.last() != '/' ==> joined(path, component) == joined(
                path + seq!['/'],
                component,
            )
        },
{
    reveal_strlit("/");
    assert("/"@ == seq!['/']);
    assert(Seq::<char>::empty() + component == component);
    assert((path + seq!['/']).last() == '/');
}

/// What is collected from a session is the memory that its files hold, exactly if they
/// could be read and the directory is gone or in use; else it is the first error.
pub proof fn law_collecting_needs_both(
    path: String,
    files: MemoryFiles,
    removal: Removal,
    collected: Result<CgroupMemorySummary, CgroupError>,
)
    requires
        collected == collected_of(path, files, removal),
    ensures
        collected is Ok <==> !(files.stat is Failed) && !(removal is Failed),
        collected matches Ok(usage) ==> usage_result(path, files) == Ok::<
            CgroupMemorySummary,
            CgroupError,
        >(usage),
        files.stat matches FileRead::Failed(cause) ==> (collected matches Err(error) && error_text(
            error,
        ) == cause@),
        !(files.stat is Failed) && removal is Failed ==> (collected matches Err(error)
            && error is RemoveFailed),
{
    law_memory_is_what_the_files_hold(path, files);
    law_only_a_failed_removal_is_an_error(path, removal);
}

} // verus!
