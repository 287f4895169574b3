//! Sampling of `/proc/<pid>/status`.
use vstd::prelude::*;

use crate::decimal::{
    decimal, law_decimal_round_trip, law_decimal_text_is_its_number, unsigned_text,
};
use crate::render::{shows_path, text_lossy};
use crate::text::{
    after_prefix, chars_of, first_number, first_number_at, first_number_of, is_digit, is_space,
    last_field, law_trim_takes_only_spaces, lemma_digits_hold_no_other, lemma_first_word,
    lemma_occurrences_concat, lemma_occurrences_next, lemma_split_appended, lemma_split_whole,
    lemma_strip_prefix_chars, lines, lines_of, occurrences, parse_u32, parts, split, strip_prefix,
    trim, trimmed, u32_value, FileRead, Span,
};

verus! {

/// What the samples of one run amount to.
#[derive(Debug, Clone)]
pub struct ProcStatusSummary {
    pub interval_ms: u64,
    pub sample_count: u64,
    pub peak_vmrss_kb: Option<u64>,
    pub peak_vmhwm_kb: Option<u64>,
    pub peak_rss_anon_kb: Option<u64>,
    pub peak_rss_file_kb: Option<u64>,
    pub peak_rss_shmem_kb: Option<u64>,
    pub peak_threads: Option<u32>,
    pub samples_path: Option<String>,
}

/// The fields of one sample.
#[derive(Copy, Clone, Debug, PartialEq, Eq, Structural)]
pub struct ProcStatusSnapshot {
    pub vmrss_kb: Option<u64>,
    pub vmhwm_kb: Option<u64>,
    pub rss_anon_kb: Option<u64>,
    pub rss_file_kb: Option<u64>,
    pub rss_shmem_kb: Option<u64>,
    pub threads: Option<u32>,
}

/// The number that `value` spells, apart from spaces around it.
pub open spec fn plain_u32_value(value: Seq<char>) -> Option<u32> {
    u32_value(trim(value))
}

/// The size in the last of `lines` that starts with `prefix`.
pub open spec fn kb_field(lines: Seq<Seq<char>>, prefix: Seq<char>) -> Option<u64> {
    match last_field(lines, prefix) {
        Some(value) => first_number(value),
        None => None,
    }
}

/// The count in the last of `lines` that starts with `prefix`.
pub open spec fn plain_u32_field(lines: Seq<Seq<char>>, prefix: Seq<char>) -> Option<u32> {
    match last_field(lines, prefix) {
        Some(value) => plain_u32_value(value),
        None => None,
    }
}

/// The sample that the lines of a status file hold.
pub open spec fn snapshot_of(lines: Seq<Seq<char>>) -> ProcStatusSnapshot {
    ProcStatusSnapshot {
        vmrss_kb: kb_field(lines, "VmRSS:"@),
        vmhwm_kb: kb_field(lines, "VmHWM:"@),
        rss_anon_kb: kb_field(lines, "RssAnon:"@),
        rss_file_kb: kb_field(lines, "RssFile:"@),
        rss_shmem_kb: kb_field(lines, "RssShmem:"@),
        threads: plain_u32_field(lines, "Threads:"@),
    }
}

/// The number that `span` spells, apart from spaces around it.
fn plain_u32_at(text: &[char], span: Span) -> (n: Option<u32>)
    requires
        span.within(text@.len()),
    ensures
        n == plain_u32_value(span.of(text@)),
{
    parse_u32(text, trimmed(text, span))
}

/// Reads a size such as `  1234 kB`: the number that is the first word.
pub fn parse_kb(value: &str) -> (kb: Option<u64>)
    ensures
        kb == first_number(value@),
{
    first_number_of(value)
}

/// Reads a count that stands alone.
pub fn parse_plain_u32(value: &str) -> (n: Option<u32>)
    ensures
        n == plain_u32_value(value@),
{
    let chars = chars_of(value);
    let whole = Span { start: 0, end: chars.len() };
    assert(whole.of(chars@) == value@);
    plain_u32_at(chars.as_slice(), whole)
}

/// No line starts with two of the field names that a sample reads.
proof fn lemma_prefixes_exclude(line: Seq<char>)
    ensures
        strip_prefix(line, "VmRSS:"@) is Some ==> line[0] == 'V' && line[2] == 'R',
        strip_prefix(line, "VmHWM:"@) is Some ==> line[0] == 'V' && line[2] == 'H',
        strip_prefix(line, "RssAnon:"@) is Some ==> line[0] == 'R' && line[3] == 'A',
        strip_prefix(line, "RssFile:"@) is Some ==> line[0] == 'R' && line[3] == 'F',
        strip_prefix(line, "RssShmem:"@) is Some ==> line[0] == 'R' && line[3] == 'S',
        strip_prefix(line, "Threads:"@) is Some ==> line[0] == 'T',
{
    reveal_strlit("VmRSS:");
    reveal_strlit("VmHWM:");
    reveal_strlit("RssAnon:");
    reveal_strlit("RssFile:");
    reveal_strlit("RssShmem:");
    reveal_strlit("Threads:");
    lemma_strip_prefix_chars(line, "VmRSS:"@);
    lemma_strip_prefix_chars(line, "VmHWM:"@);
    lemma_strip_prefix_chars(line, "RssAnon:"@);
    lemma_strip_prefix_chars(line, "RssFile:"@);
    lemma_strip_prefix_chars(line, "RssShmem:"@);
    lemma_strip_prefix_chars(line, "Threads:"@);
    assert("VmRSS:"@[0] == 'V' && "VmRSS:"@[2] == 'R');
    assert("VmHWM:"@[0] == 'V' && "VmHWM:"@[2] == 'H');
    assert("RssAnon:"@[0] == 'R' && "RssAnon:"@[3] == 'A');
    assert("RssFile:"@[0] == 'R' && "RssFile:"@[3] == 'F');
    assert("RssShmem:"@[0] == 'R' && "RssShmem:"@[3] == 'S');
    assert("Threads:"@[0] == 'T');
}

/// Takes the fields of a sample from the text of a status file. A field that no
/// line holds, or whose last line holds no number, is absent.
pub fn read_proc_status(contents: &str) -> (snapshot: ProcStatusSnapshot)
    ensures
        snapshot == snapshot_of(lines_of(contents@)),
{
    let chars = chars_of(contents);
    let text = chars.as_slice();
    let spans = lines(text);
    let ghost all = lines_of(contents@);
    let mut snapshot = ProcStatusSnapshot {
        vmrss_kb: None,
        vmhwm_kb: None,
        rss_anon_kb: None,
        rss_file_kb: None,
        rss_shmem_kb: None,
        threads: None,
    };
    let mut i: usize = 0;
    while i < spans.len()
        invariant
            i <= spans@.len() == all.len(),
            text@ == contents@,
            all == parts(spans@, text@),
            forall|j: int| 0 <= j < spans@.len() ==> (#[trigger] spans@[j]).within(text@.len()),
            snapshot == snapshot_of(all.take(i as int)),
        decreases spans.len() - i,
    {
        let line = spans[i];
        proof {
            assert(all.take(i + 1).drop_last() == all.take(i as int));
            assert(all.take(i + 1).last() == line.of(text@));
            lemma_prefixes_exclude(line.of(text@));
        }
        if let Some(value) = after_prefix(text, line, "VmRSS:") {
            snapshot.vmrss_kb = first_number_at(text, value);
        } else if let Some(value) = after_prefix(text, line, "VmHWM:") {
            snapshot.vmhwm_kb = first_number_at(text, value);
        } else if let Some(value) = after_prefix(text, line, "RssAnon:") {
            snapshot.rss_anon_kb = first_number_at(text, value);
        } else if let Some(value) = after_prefix(text, line, "RssFile:") {
            snapshot.rss_file_kb = first_number_at(text, value);
        } else if let Some(value) = after_prefix(text, line, "RssShmem:") {
            snapshot.rss_shmem_kb = first_number_at(text, value);
        } else if let Some(value) = after_prefix(text, line, "Threads:") {
            snapshot.threads = plain_u32_at(text, value);
        }
        i = i + 1;
    }
    assert(all.take(all.len() as int) == all);
    snapshot
}

/// The larger of what was seen before and what is seen now; an absent value
/// changes nothing.
pub open spec fn peak_u64(seen: Option<u64>, now: Option<u64>) -> Option<u64> {
    match (seen, now) {
        (Some(a), Some(b)) => Some(if a < b { b } else { a }),
        (Some(a), None) => Some(a),
        (None, b) => b,
    }
}

/// As `peak_u64`, for 32-bit values.
pub open spec fn peak_u32(seen: Option<u32>, now: Option<u32>) -> Option<u32> {
    match (seen, now) {
        (Some(a), Some(b)) => Some(if a < b { b } else { a }),
        (Some(a), None) => Some(a),
        (None, b) => b,
    }
}

/// Raises `slot` to `value` where that is larger.
pub fn observe_peak(slot: &mut Option<u64>, value: Option<u64>)
    ensures
        *final(slot) == peak_u64(*old(slot), value),
{
    if let Some(now) = value {
        let raise = match *slot {
            Some(seen) => now > seen,
            None => true,
        };
        if raise {
            *slot = Some(now);
        }
    }
}

/// Raises `slot` to `value` where that is larger.
pub fn observe_peak_u32(slot: &mut Option<u32>, value: Option<u32>)
    ensures
        *final(slot) == peak_u32(*old(slot), value),
{
    if let Some(now) = value {
        let raise = match *slot {
            Some(seen) => now > seen,
            None => true,
        };
        if raise {
            *slot = Some(now);
        }
    }
}

/// A summary of no samples.
pub open spec fn empty_summary(
    interval_ms: u64,
    samples_path: Option<String>,
) -> ProcStatusSummary {
    ProcStatusSummary {
        interval_ms,
        sample_count: 0,
        peak_vmrss_kb: None,
        peak_vmhwm_kb: None,
        peak_rss_anon_kb: None,
        peak_rss_file_kb: None,
        peak_rss_shmem_kb: None,
        peak_threads: None,
        samples_path,
    }
}

/// The summary after one more sample.
pub open spec fn with_sample(
    summary: ProcStatusSummary,
    snapshot: ProcStatusSnapshot,
) -> ProcStatusSummary {
    ProcStatusSummary {
        interval_ms: summary.interval_ms,
        sample_count: (summary.sample_count + 1) as u64,
        peak_vmrss_kb: peak_u64(summary.peak_vmrss_kb, snapshot.vmrss_kb),
        peak_vmhwm_kb: peak_u64(summary.peak_vmhwm_kb, snapshot.vmhwm_kb),
        peak_rss_anon_kb: peak_u64(summary.peak_rss_anon_kb, snapshot.rss_anon_kb),
        peak_rss_file_kb: peak_u64(summary.peak_rss_file_kb, snapshot.rss_file_kb),
        peak_rss_shmem_kb: peak_u64(summary.peak_rss_shmem_kb, snapshot.rss_shmem_kb),
        peak_threads: peak_u32(summary.peak_threads, snapshot.threads),
        samples_path: summary.samples_path,
    }
}

/// The summary after all of `snapshots`, in order.
pub open spec fn summary_after(
    interval_ms: u64,
    samples_path: Option<String>,
    snapshots: Seq<ProcStatusSnapshot>,
) -> ProcStatusSummary
    decreases snapshots.len(),
{
    if snapshots.len() == 0 {
        empty_summary(interval_ms, samples_path)
    } else {
        with_sample(
            summary_after(interval_ms, samples_path, snapshots.drop_last()),
            snapshots.last(),
        )
    }
}

/// Whether `peak` is the largest of the values present, or absent where none is.
pub open spec fn is_peak_of(peak: Option<u64>, values: Seq<Option<u64>>) -> bool {
    match peak {
        Some(p) => {
            &&& values.contains(Some(p))
            &&& forall|i: int|
                0 <= i < values.len() ==> match #[trigger] values[i] {
                    Some(v) => v <= p,
                    None => true,
                }
        },
        None => forall|i: int| 0 <= i < values.len() ==> (#[trigger] values[i]) is None,
    }
}

/// The values of one field in a sequence of samples.
pub open spec fn column(
    snapshots: Seq<ProcStatusSnapshot>,
    field: spec_fn(ProcStatusSnapshot) -> Option<u64>,
) -> Seq<Option<u64>> {
    snapshots.map_values(field)
}

proof fn lemma_peak_step(peak: Option<u64>, values: Seq<Option<u64>>, now: Option<u64>)
    requires
        is_peak_of(peak, values),
    ensures
        is_peak_of(peak_u64(peak, now), values.push(now)),
{
    let all = values.push(now);
    assert(all[values.len() as int] == now);
    match peak {
        Some(p) => {
            let i = choose|i: int| 0 <= i < values.len() && values[i] == Some(p);
            assert(all[i] == Some(p));
        },
        None => {},
    }
    assert forall|i: int| 0 <= i < values.len() implies (#[trigger] all[i]) == values[i] by {}
}

/// After any samples, the summary counts them all, and each of its peaks is the
/// largest value that the samples hold of its field, absent only if none holds one.
pub proof fn law_peaks_are_maxima(
    interval_ms: u64,
    samples_path: Option<String>,
    snapshots: Seq<ProcStatusSnapshot>,
)
    requires
        snapshots.len() <= u64::MAX,
    ensures
        ({
            let summary = summary_after(interval_ms, samples_path, snapshots);
            &&& summary.interval_ms == interval_ms
            &&& summary.samples_path == samples_path
            &&& summary.sample_count == snapshots.len()
            &&& is_peak_of(
                summary.peak_vmrss_kb,
                column(snapshots, |s: ProcStatusSnapshot| s.vmrss_kb),
            )
            &&& is_peak_of(
                summary.peak_vmhwm_kb,
                column(snapshots, |s: ProcStatusSnapshot| s.vmhwm_kb),
            )
            &&& is_peak_of(
                summary.peak_rss_anon_kb,
                column(snapshots, |s: ProcStatusSnapshot| s.rss_anon_kb),
            )
            &&& is_peak_of(
                summary.peak_rss_file_kb,
                column(snapshots, |s: ProcStatusSnapshot| s.rss_file_kb),
            )
            &&& is_peak_of(
                summary.peak_rss_shmem_kb,
                column(snapshots, |s: ProcStatusSnapshot| s.rss_shmem_kb),
            )
            &&& is_peak_of(
                widened(summary.peak_threads),
                column(snapshots, |s: ProcStatusSnapshot| widened(s.threads)),
            )
        }),
    decreases snapshots.len(),
{
    let vmrss = |s: ProcStatusSnapshot| s.vmrss_kb;
    let vmhwm = |s: ProcStatusSnapshot| s.vmhwm_kb;
    let anon = |s: ProcStatusSnapshot| s.rss_anon_kb;
    let file = |s: ProcStatusSnapshot| s.rss_file_kb;
    let shmem = |s: ProcStatusSnapshot| s.rss_shmem_kb;
    let threads = |s: ProcStatusSnapshot| widened(s.threads);
    if snapshots.len() > 0 {
        let earlier = snapshots.drop_last();
        let last = snapshots.last();
        let before = summary_after(interval_ms, samples_path, earlier);
        law_peaks_are_maxima(interval_ms, samples_path, earlier);
        lemma_peak_step(before.peak_vmrss_kb, column(earlier, vmrss), last.vmrss_kb);
        lemma_peak_step(before.peak_vmhwm_kb, column(earlier, vmhwm), last.vmhwm_kb);
        lemma_peak_step(before.peak_rss_anon_kb, column(earlier, anon), last.rss_anon_kb);
        lemma_peak_step(before.peak_rss_file_kb, column(earlier, file), last.rss_file_kb);
        lemma_peak_step(before.peak_rss_shmem_kb, column(earlier, shmem), last.rss_shmem_kb);
        lemma_peak_step(
            widened(before.peak_threads),
            column(earlier, threads),
            widened(last.threads),
        );
        assert(column(snapshots, vmrss) == column(earlier, vmrss).push(last.vmrss_kb));
        assert(column(snapshots, vmhwm) == column(earlier, vmhwm).push(last.vmhwm_kb));
        assert(column(snapshots, anon) == column(earlier, anon).push(last.rss_anon_kb));
        assert(column(snapshots, file) == column(earlier, file).push(last.rss_file_kb));
        assert(column(snapshots, shmem) == column(earlier, shmem).push(last.rss_shmem_kb));
        assert(column(snapshots, threads) == column(earlier, threads).push(widened(last.threads)));
        assert(widened(peak_u32(before.peak_threads, last.threads)) == peak_u64(
            widened(before.peak_threads),
            widened(last.threads),
        ));
    }
}

/// A size that a status file gives in decimal is the size that is read, whatever
/// spaces stand before it and whatever words after it, and whatever earlier
/// lines hold.
pub proof fn law_size_is_read_back(
    earlier: Seq<Seq<char>>,
    prefix: Seq<char>,
    before: Seq<char>,
    n: u64,
    after: Seq<char>,
)
    requires
        forall|i: int| 0 <= i < before.len() ==> is_space(#[trigger] before[i]),
        after.len() > 0 ==> is_space(after[0]),
    ensures
        first_number(before + decimal(n as nat) + after) == Some(n),
        kb_field(earlier.push(prefix + (before + decimal(n as nat) + after)), prefix) == Some(n),
{
    let digits = decimal(n as nat);
    law_decimal_text_is_its_number(n as nat);
    law_decimal_round_trip(n as nat, u64::MAX as nat);
    assert forall|i: int| 0 <= i < digits.len() implies !is_space(#[trigger] digits[i]) by {
        assert(is_digit(digits[i]));
    }
    lemma_first_word(before, digits, after);
    let value = before + digits + after;
    let line = prefix + value;
    assert(prefix.is_prefix_of(line)) by {
        assert(line.subrange(0, prefix.len() as int) == prefix);
    }
    assert(line.skip(prefix.len() as int) == value);
    assert(earlier.push(line).last() == line);
}

/// Every row of the table of samples has as many columns as its header.
pub proof fn law_rows_match_header(elapsed_ms: u128, snapshot: ProcStatusSnapshot)
    ensures
        occurrences(row_text(elapsed_ms, snapshot), '\t') == occurrences(header_text(), '\t'),
{
    let tab = "\t"@;
    reveal_strlit("\t");
    assert(occurrences(tab, '\t') == 1) by {
        assert(tab.drop_last() == Seq::<char>::empty());
        assert(occurrences(Seq::<char>::empty(), '\t') == 0);
        assert(tab.last() == '\t');
    }
    let a = decimal(elapsed_ms as nat);
    let b = cell_text(snapshot.vmrss_kb);
    let c = cell_text(snapshot.vmhwm_kb);
    let d = cell_text(snapshot.rss_anon_kb);
    let e = cell_text(snapshot.rss_file_kb);
    let f = cell_text(snapshot.rss_shmem_kb);
    let g = cell_text(widened(snapshot.threads));
    law_decimal_text_is_its_number(elapsed_ms as nat);
    lemma_digits_hold_no_other(a, '\t');
    lemma_cell_holds_no_tab(snapshot.vmrss_kb);
    lemma_cell_holds_no_tab(snapshot.vmhwm_kb);
    lemma_cell_holds_no_tab(snapshot.rss_anon_kb);
    lemma_cell_holds_no_tab(snapshot.rss_file_kb);
    lemma_cell_holds_no_tab(snapshot.rss_shmem_kb);
    lemma_cell_holds_no_tab(widened(snapshot.threads));
    lemma_occurrences_concat(a, tab, '\t');
    lemma_occurrences_concat(a + tab, b, '\t');
    lemma_occurrences_concat(a + tab + b, tab, '\t');
    lemma_occurrences_concat(a + tab + b + tab, c, '\t');
    lemma_occurrences_concat(a + tab + b + tab + c, tab, '\t');
    lemma_occurrences_concat(a + tab + b + tab + c + tab, d, '\t');
    lemma_occurrences_concat(a + tab + b + tab + c + tab + d, tab, '\t');
    lemma_occurrences_concat(a + tab + b + tab + c + tab + d + tab, e, '\t');
    lemma_occurrences_concat(a + tab + b + tab + c + tab + d + tab + e, tab, '\t');
    lemma_occurrences_concat(a + tab + b + tab + c + tab + d + tab + e + tab, f, '\t');
    lemma_occurrences_concat(a + tab + b + tab + c + tab + d + tab + e + tab + f, tab, '\t');
    lemma_occurrences_concat(a + tab + b + tab + c + tab + d + tab + e + tab + f + tab, g, '\t');
    assert(occurrences(row_text(elapsed_ms, snapshot), '\t') == 6);
    lemma_header_columns();
}

proof fn lemma_cell_holds_no_tab(value: Option<u64>)
    ensures
        occurrences(cell_text(value), '\t') == 0,
{
    match value {
        Some(n) => {
            law_decimal_text_is_its_number(n as nat);
            lemma_digits_hold_no_other(decimal(n as nat), '\t');
        },
        None => {
            reveal_strlit("-");
            assert("-"@.drop_last() == Seq::<char>::empty());
            assert(occurrences(Seq::<char>::empty(), '\t') == 0);
        },
    }
}

proof fn lemma_header_columns()
    ensures
        occurrences(header_text(), '\t') == 6,
{
    reveal_strlit(
        "elapsed_ms\tvmrss_kb\tvmhwm_kb\trssanon_kb\trssfile_kb\trssshmem_kb\tthreads",
    );
    let s = header_text();
    assert(s.take(0) == Seq::<char>::empty());
    lemma_occurrences_next(s, '\t', 0, 10);
    lemma_occurrences_next(s, '\t', 11, 19);
    lemma_occurrences_next(s, '\t', 20, 28);
    lemma_occurrences_next(s, '\t', 29, 39);
    lemma_occurrences_next(s, '\t', 40, 50);
    lemma_occurrences_next(s, '\t', 51, 62);
    lemma_occurrences_next(s, '\t', 63, 70);
    assert(s.take(70) == s);
}

/// The text of an optional value in a table of samples: `-` where it is absent.
pub open spec fn cell_text(value: Option<u64>) -> Seq<char> {
    match value {
        Some(n) => decimal(n as nat),
        None => "-"@,
    }
}

/// A 32-bit value as a 64-bit one.
pub open spec fn widened(value: Option<u32>) -> Option<u64> {
    match value {
        Some(n) => Some(n as u64),
        None => None,
    }
}

/// One line of the table of samples, without its line end.
pub open spec fn row_text(elapsed_ms: u128, snapshot: ProcStatusSnapshot) -> Seq<char> {
    decimal(elapsed_ms as nat) + "\t"@ + cell_text(snapshot.vmrss_kb) + "\t"@ + cell_text(
        snapshot.vmhwm_kb,
    ) + "\t"@ + cell_text(snapshot.rss_anon_kb) + "\t"@ + cell_text(snapshot.rss_file_kb) + "\t"@
        + cell_text(snapshot.rss_shmem_kb) + "\t"@ + cell_text(widened(snapshot.threads))
}

/// The first line of the table of samples, without its line end.
pub open spec fn header_text() -> Seq<char> {
    "elapsed_ms\tvmrss_kb\tvmhwm_kb\trssanon_kb\trssfile_kb\trssshmem_kb\tthreads"@
}

/// The text of an optional value in a table of samples.
pub fn option_value(value: Option<u64>) -> (s: String)
    ensures
        s@ == cell_text(value),
{
    match value {
        Some(n) => unsigned_text(n as u128),
        None => String::from_str("-"),
    }
}

/// The first line of the table of samples.
pub fn sample_header() -> (s: String)
    ensures
        s@ == header_text(),
{
    String::from_str(
        "elapsed_ms\tvmrss_kb\tvmhwm_kb\trssanon_kb\trssfile_kb\trssshmem_kb\tthreads",
    )
}

/// The line of the table of samples for a sample taken `elapsed_ms` into the run.
pub fn sample_row(elapsed_ms: u128, snapshot: &ProcStatusSnapshot) -> (s: String)
    ensures
        s@ == row_text(elapsed_ms, *snapshot),
{
    let threads: Option<u64> = match snapshot.threads {
        Some(n) => Some(n as u64),
        None => None,
    };
    let mut s = unsigned_text(elapsed_ms);
    s.append("\t");
    s.append(option_value(snapshot.vmrss_kb).as_str());
    s.append("\t");
    s.append(option_value(snapshot.vmhwm_kb).as_str());
    s.append("\t");
    s.append(option_value(snapshot.rss_anon_kb).as_str());
    s.append("\t");
    s.append(option_value(snapshot.rss_file_kb).as_str());
    s.append("\t");
    s.append(option_value(snapshot.rss_shmem_kb).as_str());
    s.append("\t");
    s.append(option_value(threads).as_str());
    s
}

/// The path of the status file of process `pid`.
pub open spec fn status_path_text(pid: u32) -> Seq<char> {
    "/proc/"@ + decimal(pid as nat) + "/status"@
}

/// The path of the status file of process `pid`.
pub fn proc_status_path(pid: u32) -> (s: String)
    ensures
        s@ == status_path_text(pid),
{
    let mut s = String::from_str("/proc/");
    s.append(unsigned_text(pid as u128).as_str());
    s.append("/status");
    s
}

/// What the sampler does about a read.
#[derive(Debug)]
pub enum SampleAction {
    /// The sample counts; its row belongs in the table.
    Record(ProcStatusSnapshot),
    /// Sampling is over.
    End,
    /// Sampling failed, for the reason given.
    Fail(String),
}

/// What the sampler does after a sample.
#[derive(Copy, Clone, Debug, PartialEq, Eq, Structural)]
pub enum SamplePause {
    /// Sample again after this many milliseconds.
    Sleep(u64),
    /// Sampling is over.
    End,
}

/// Whether `action` is what a sampling run of process `pid` does about a read.
pub open spec fn acts_on(pid: u32, read: FileRead, action: SampleAction) -> bool {
    match read {
        FileRead::Text(contents) => action == SampleAction::Record(
            snapshot_of(lines_of(contents@)),
        ),
        FileRead::Missing => action == SampleAction::End,
        FileRead::Failed(cause) => {
            &&& action matches SampleAction::Fail(message)
            &&& message@ == "failed to read "@ + status_path_text(pid) + ": "@ + cause@
        },
    }
}

/// What a sampling run does after a sample, asked to stop or not.
pub open spec fn pause_of(sampler: ProcStatusSampler, stop: bool) -> SamplePause {
    if stop {
        SamplePause::End
    } else {
        SamplePause::Sleep(sampler.summary.interval_ms)
    }
}

/// How far a sampling run has come.
#[derive(Copy, Clone, Debug, PartialEq, Eq, Structural)]
pub enum SamplePhase {
    /// It reads the status file next.
    Reading,
    /// It has taken a sample and pauses next.
    Pausing,
    /// It was asked to stop, after a sample, and has.
    Stopped,
    /// It has found the status file gone.
    Ended,
    /// It could not read the status file.
    Failed,
}

/// What happens to a sampling run.
pub enum SampleEvent {
    /// It reads the status file.
    Read(FileRead),
    /// It pauses after a sample, asked to stop or not.
    Pause(bool),
}

/// The state of one sampling run: which process it watches, what its samples amount
/// to so far, and how far it has come.
#[derive(Debug)]
pub struct ProcStatusSampler {
    pub pid: u32,
    pub summary: ProcStatusSummary,
    pub phase: SamplePhase,
}

impl ProcStatusSampler {
    /// A sampling run that has not read anything yet.
    pub open spec fn beginning(pid: u32, interval_ms: u64, samples_path: Option<String>) -> Self {
        ProcStatusSampler {
            pid,
            summary: empty_summary(interval_ms, samples_path),
            phase: SamplePhase::Reading,
        }
    }

    /// What this sampling run comes to with `event`, if that can happen to it: reads
    /// and pauses take turns, each sample is followed by a pause, and nothing follows
    /// a stop, a file that is gone or a failure.
    pub open spec fn after(self, event: SampleEvent) -> Option<Self> {
        match (self.phase, event) {
            (SamplePhase::Reading, SampleEvent::Read(FileRead::Text(contents))) => Some(
                ProcStatusSampler {
                    summary: with_sample(self.summary, snapshot_of(lines_of(contents@))),
                    phase: SamplePhase::Pausing,
                    ..self
                },
            ),
            (SamplePhase::Reading, SampleEvent::Read(FileRead::Missing)) => Some(
                ProcStatusSampler { phase: SamplePhase::Ended, ..self },
            ),
            (SamplePhase::Reading, SampleEvent::Read(FileRead::Failed(_))) => Some(
                ProcStatusSampler { phase: SamplePhase::Failed, ..self },
            ),
            (SamplePhase::Pausing, SampleEvent::Pause(stop)) => Some(
                ProcStatusSampler {
                    phase: if stop {
                        SamplePhase::Stopped
                    } else {
                        SamplePhase::Reading
                    },
                    ..self
                },
            ),
            _ => None,
        }
    }

    /// Whether this sampling run is over and has something to report.
    pub open spec fn is_over(self) -> bool {
        self.phase is Stopped || self.phase is Ended
    }

    /// A sampler for `pid` that has taken no sample yet.
    pub fn start(pid: u32, interval_ms: u64, output_path: Option<Vec<u8>>) -> (sampler: Self)
        ensures
            sampler == Self::beginning(pid, interval_ms, sampler.summary.samples_path),
            shows_path(sampler.summary.samples_path, output_path),
    {
        let samples_path = match output_path {
            Some(bytes) => Some(text_lossy(bytes.as_slice())),
            None => None,
        };
        ProcStatusSampler {
            pid,
            summary: ProcStatusSummary {
                interval_ms,
                sample_count: 0,
                peak_vmrss_kb: None,
                peak_vmhwm_kb: None,
                peak_rss_anon_kb: None,
                peak_rss_file_kb: None,
                peak_rss_shmem_kb: None,
                peak_threads: None,
                samples_path,
            },
            phase: SamplePhase::Reading,
        }
    }

    /// Takes one read into the summary. A file that is not there ends the
    /// sampling; any other failure fails it. `None` if it is not time to read.
    pub fn observe(&mut self, read: FileRead) -> (action: Option<SampleAction>)
        requires
            old(self).phase is Reading && read is Text ==> old(self).summary.sample_count
                < u64::MAX,
        ensures
            match old(self).after(SampleEvent::Read(read)) {
                Some(next) => {
                    &&& *final(self) == next
                    &&& action is Some && acts_on(old(self).pid, read, action->0)
                    &&& match read {
                        FileRead::Text(contents) => action == Some(
                            SampleAction::Record(snapshot_of(lines_of(contents@))),
                        ),
                        FileRead::Missing => action == Some(SampleAction::End),
                        FileRead::Failed(cause) => {
                            &&& action matches Some(SampleAction::Fail(message))
                            &&& message@ == "failed to read "@ + status_path_text(old(self).pid)
                                + ": "@ + cause@
                        },
                    }
                },
                None => *final(self) == *old(self) && action is None,
            },
    {
        match self.phase {
            SamplePhase::Reading => {},
            _ => {
                return None;
            },
        }
        match read {
            FileRead::Text(contents) => {
                let snapshot = read_proc_status(contents.as_str());
                self.summary.sample_count = self.summary.sample_count + 1;
                observe_peak(&mut self.summary.peak_vmrss_kb, snapshot.vmrss_kb);
                observe_peak(&mut self.summary.peak_vmhwm_kb, snapshot.vmhwm_kb);
                observe_peak(&mut self.summary.peak_rss_anon_kb, snapshot.rss_anon_kb);
                observe_peak(&mut self.summary.peak_rss_file_kb, snapshot.rss_file_kb);
                observe_peak(&mut self.summary.peak_rss_shmem_kb, snapshot.rss_shmem_kb);
                observe_peak_u32(&mut self.summary.peak_threads, snapshot.threads);
                self.phase = SamplePhase::Pausing;
                Some(SampleAction::Record(snapshot))
            },
            FileRead::Missing => {
                self.phase = SamplePhase::Ended;
                Some(SampleAction::End)
            },
            FileRead::Failed(cause) => {
                let mut message = String::from_str("failed to read ");
                message.append(proc_status_path(self.pid).as_str());
                message.append(": ");
                message.append(cause.as_str());
                self.phase = SamplePhase::Failed;
                Some(SampleAction::Fail(message))
            },
        }
    }

    /// What follows a sample: the end once a stop was asked for, else a pause. `None`
    /// if no sample was just taken.
    pub fn pause(&mut self, stop: bool) -> (pause: Option<SamplePause>)
        ensures
            match old(self).after(SampleEvent::Pause(stop)) {
                Some(next) => {
                    &&& *final(self) == next
                    &&& pause == Some(pause_of(*old(self), stop))
                    &&& pause == Some(
                        if stop {
                            SamplePause::End
                        } else {
                            SamplePause::Sleep(old(self).summary.interval_ms)
                        },
                    )
                },
                None => *final(self) == *old(self) && pause is None,
            },
    {
        match self.phase {
            SamplePhase::Pausing => {},
            _ => {
                return None;
            },
        }
        if stop {
            self.phase = SamplePhase::Stopped;
            Some(SamplePause::End)
        } else {
            self.phase = SamplePhase::Reading;
            Some(SamplePause::Sleep(self.summary.interval_ms))
        }
    }

    /// What the samples amount to, once the sampling is over and did not fail.
    pub fn finish(self) -> (summary: Option<ProcStatusSummary>)
        ensures
            summary == (if self.is_over() {
                Some(self.summary)
            } else {
                None
            }),
    {
        match self.phase {
            SamplePhase::Stopped | SamplePhase::Ended => Some(self.summary),
            _ => None,
        }
    }
}

/// Where a sampling run stands after `events`, if all of them can happen to it.
pub open spec fn sampler_reached(
    pid: u32,
    interval_ms: u64,
    samples_path: Option<String>,
    events: Seq<SampleEvent>,
) -> Option<ProcStatusSampler>
    decreases events.len(),
{
    if events.len() == 0 {
        Some(ProcStatusSampler::beginning(pid, interval_ms, samples_path))
    } else {
        match sampler_reached(pid, interval_ms, samples_path, events.drop_last()) {
            Some(sampler) => sampler.after(events.last()),
            None => None,
        }
    }
}

/// The samples that `events` read, in order.
pub open spec fn snapshots_read(events: Seq<SampleEvent>) -> Seq<ProcStatusSnapshot>
    decreases events.len(),
{
    if events.len() == 0 {
        Seq::empty()
    } else {
        let earlier = snapshots_read(events.drop_last());
        match events.last() {
            SampleEvent::Read(FileRead::Text(contents)) => earlier.push(
                snapshot_of(lines_of(contents@)),
            ),
            _ => earlier,
        }
    }
}

/// However far a sampling run has come, its summary is that of exactly the samples it
/// read, under the interval and the path that it was started with. Reads and pauses
/// take turns, so that how often it read and how often it paused are as many as its
/// samples, but for what it is in the middle of and the read that ended it.
pub proof fn law_summary_is_of_what_was_read(
    pid: u32,
    interval_ms: u64,
    samples_path: Option<String>,
    events: Seq<SampleEvent>,
)
    requires
        sampler_reached(pid, interval_ms, samples_path, events) is Some,
    ensures
        ({
            let sampler = sampler_reached(pid, interval_ms, samples_path, events)->0;
            let snapshots = snapshots_read(events);
            &&& sampler.pid == pid
            &&& sampler.summary == summary_after(interval_ms, samples_path, snapshots)
            &&& forall|i: int|
                0 <= i < events.len() ==> ((#[trigger] events[i]) is Read <==> i % 2 == 0)
            &&& events.len() == (match sampler.phase {
                SamplePhase::Reading | SamplePhase::Stopped => 2int * snapshots.len(),
                SamplePhase::Pausing => 2int * snapshots.len() - 1,
                SamplePhase::Ended | SamplePhase::Failed => 2int * snapshots.len() + 1,
            })
        }),
    decreases events.len(),
{
    if events.len() > 0 {
        let earlier = events.drop_last();
        law_summary_is_of_what_was_read(pid, interval_ms, samples_path, earlier);
        assert forall|i: int| 0 <= i < events.len() implies ((#[trigger] events[i]) is Read <==> i
            % 2 == 0) by {
            if i < earlier.len() {
                assert(events[i] == earlier[i]);
            }
        }
        let snapshots = snapshots_read(events);
        if snapshots.len() > snapshots_read(earlier).len() {
            assert(snapshots.drop_last() == snapshots_read(earlier));
        }
    }
}

/// A sampling run that was asked to stop has stopped, and only after it had taken at
/// least one sample: its summary counts the samples that it read, one for every
/// pause, and there is at least one. It holds the interval and the path that the run
/// was started with, and nothing follows the stop.
pub proof fn law_a_stopped_sampling_has_a_sample(
    pid: u32,
    interval_ms: u64,
    samples_path: Option<String>,
    events: Seq<SampleEvent>,
)
    requires
        sampler_reached(pid, interval_ms, samples_path, events) is Some,
        0 < events.len() <= u64::MAX,
        events.last() == SampleEvent::Pause(true),
    ensures
        ({
            let sampler = sampler_reached(pid, interval_ms, samples_path, events)->0;
            &&& sampler.phase is Stopped
            &&& sampler.is_over()
            &&& sampler.summary.interval_ms == interval_ms
            &&& sampler.summary.samples_path == samples_path
            &&& sampler.summary.sample_count >= 1
            &&& sampler.summary.sample_count == snapshots_read(events).len()
            &&& events.len() == 2 * sampler.summary.sample_count
            &&& forall|event: SampleEvent| (#[trigger] sampler.after(event)) is None
        }),
{
    law_summary_is_of_what_was_read(pid, interval_ms, samples_path, events);
    law_peaks_are_maxima(interval_ms, samples_path, snapshots_read(events));
}

/// A sampling run is over exactly if it was asked to stop after its last sample or
/// found the status file gone, and has failed exactly if it could not read that file;
/// nothing follows either.
pub proof fn law_sampling_ends_once(
    pid: u32,
    interval_ms: u64,
    samples_path: Option<String>,
    events: Seq<SampleEvent>,
)
    requires
        sampler_reached(pid, interval_ms, samples_path, events) is Some,
    ensures
        ({
            let sampler = sampler_reached(pid, interval_ms, samples_path, events)->0;
            &&& sampler.is_over() <==> events.len() > 0 && (events.last() == SampleEvent::Pause(
                true,
            ) || events.last() == SampleEvent::Read(FileRead::Missing))
            &&& sampler.phase is Failed <==> events.len() > 0 && (events.last() matches
                SampleEvent::Read(read) && read is Failed)
            &&& sampler.is_over() || sampler.phase is Failed ==> forall|event: SampleEvent|
                (#[trigger] sampler.after(event)) is None
        }),
{
}

/// Two names that each end in their only colon are one where one starts a line that
/// the other starts.
proof fn lemma_strips(name: Seq<char>, value: Seq<char>, other: Seq<char>)
    requires
        name.len() > 0,
        name.last() == ':',
        !name.drop_last().contains(':'),
        other.len() > 0,
        other.last() == ':',
        !other.drop_last().contains(':'),
    ensures
        name == other ==> strip_prefix(name + value, other) == Some(value),
        name != other ==> strip_prefix(name + value, other) is None,
{
    let line = name + value;
    let n = name.len() - 1;
    let m = other.len() - 1;
    if name == other {
        assert(line.subrange(0, name.len() as int) == name);
        assert(line.skip(name.len() as int) == value);
    } else if strip_prefix(line, other) is Some {
        lemma_strip_prefix_chars(line, other);
        if m < n {
            assert(other[m] == line[m]);
            assert(name.drop_last()[m] == ':');
            assert(name.drop_last().contains(':'));
        } else if n < m {
            assert(line[n] == name[n]);
            assert(other[n] == line[n]);
            assert(other.drop_last()[n] == ':');
            assert(other.drop_last().contains(':'));
        } else {
            assert forall|i: int| 0 <= i < name.len() implies name[i] == other[i] by {
                assert(line[i] == name[i]);
            }
            assert(name == other);
        }
    }
}

proof fn lemma_name_has_one_colon(name: Seq<char>)
    requires
        name == "VmRSS:"@ || name == "VmHWM:"@ || name == "RssAnon:"@ || name == "RssFile:"@ || name == "RssShmem:"@ || name == "Threads:"@,
    ensures
        name.len() > 0,
        name.last() == ':',
        !name.drop_last().contains(':'),
{
    reveal_strlit("VmRSS:");
    reveal_strlit("VmHWM:");
    reveal_strlit("RssAnon:");
    reveal_strlit("RssFile:");
    reveal_strlit("RssShmem:");
    reveal_strlit("Threads:");
}

/// What a further line changes in a sample: a line that starts with the name of a
/// field and a colon gives that field, and no other, the value that follows; `VmRSS`
/// the resident size and `VmHWM` its peak, `RssAnon`, `RssFile` and `RssShmem` the
/// anonymous, file and shared memory, and `Threads` the number of threads.
pub proof fn law_each_field_has_its_line(
    earlier: Seq<Seq<char>>,
    name: Seq<char>,
    value: Seq<char>,
)
    requires
        name.len() > 0,
        name.last() == ':',
        !name.drop_last().contains(':'),
    ensures
        ({
            let before = snapshot_of(earlier);
            let now = snapshot_of(earlier.push(name + value));
            &&& now.vmrss_kb == if name == "VmRSS:"@ {
                first_number(value)
            } else {
                before.vmrss_kb
            }
            &&& now.vmhwm_kb == if name == "VmHWM:"@ {
                first_number(value)
            } else {
                before.vmhwm_kb
            }
            &&& now.rss_anon_kb == if name == "RssAnon:"@ {
                first_number(value)
            } else {
                before.rss_anon_kb
            }
            &&& now.rss_file_kb == if name == "RssFile:"@ {
                first_number(value)
            } else {
                before.rss_file_kb
            }
            &&& now.rss_shmem_kb == if name == "RssShmem:"@ {
                first_number(value)
            } else {
                before.rss_shmem_kb
            }
            &&& now.threads == if name == "Threads:"@ {
                plain_u32_value(value)
            } else {
                before.threads
            }
        }),
        snapshot_of(seq![]) == (ProcStatusSnapshot {
            vmrss_kb: None,
            vmhwm_kb: None,
            rss_anon_kb: None,
            rss_file_kb: None,
            rss_shmem_kb: None,
            threads: None,
        }),
{
    let line = name + value;
    let lines = earlier.push(line);
    assert(lines.last() == line);
    assert(lines.drop_last() == earlier);
    lemma_name_has_one_colon("VmRSS:"@);
    lemma_name_has_one_colon("VmHWM:"@);
    lemma_name_has_one_colon("RssAnon:"@);
    lemma_name_has_one_colon("RssFile:"@);
    lemma_name_has_one_colon("RssShmem:"@);
    lemma_name_has_one_colon("Threads:"@);
    lemma_strips(name, value, "VmRSS:"@);
    lemma_strips(name, value, "VmHWM:"@);
    lemma_strips(name, value, "RssAnon:"@);
    lemma_strips(name, value, "RssFile:"@);
    lemma_strips(name, value, "RssShmem:"@);
    lemma_strips(name, value, "Threads:"@);
}

/// A line that has no colon changes nothing in a sample.
pub proof fn law_other_lines_are_passed_over(earlier: Seq<Seq<char>>, line: Seq<char>)
    requires
        !line.contains(':'),
    ensures
        snapshot_of(earlier.push(line)) == snapshot_of(earlier),
{
    let lines = earlier.push(line);
    assert(lines.last() == line);
    assert(lines.drop_last() == earlier);
    lemma_name_has_one_colon("VmRSS:"@);
    lemma_strip_prefix_chars(line, "VmRSS:"@);
    lemma_name_has_one_colon("VmHWM:"@);
    lemma_strip_prefix_chars(line, "VmHWM:"@);
    lemma_name_has_one_colon("RssAnon:"@);
    lemma_strip_prefix_chars(line, "RssAnon:"@);
    lemma_name_has_one_colon("RssFile:"@);
    lemma_strip_prefix_chars(line, "RssFile:"@);
    lemma_name_has_one_colon("RssShmem:"@);
    lemma_strip_prefix_chars(line, "RssShmem:"@);
    lemma_name_has_one_colon("Threads:"@);
    lemma_strip_prefix_chars(line, "Threads:"@);
    assert forall|i: int| 0 <= i < line.len() implies (#[trigger] line[i]) != ':' by {
        assert(line.contains(line[i]));
    }
    assert("VmRSS:"@[("VmRSS:"@.len() - 1) as int] == ':');
    assert("VmHWM:"@[("VmHWM:"@.len() - 1) as int] == ':');
    assert("RssAnon:"@[("RssAnon:"@.len() - 1) as int] == ':');
    assert("RssFile:"@[("RssFile:"@.len() - 1) as int] == ':');
    assert("RssShmem:"@[("RssShmem:"@.len() - 1) as int] == ':');
    assert("Threads:"@[("Threads:"@.len() - 1) as int] == ':');
}

/// The number of threads stands alone on its line, with spaces around it or without.
pub proof fn law_threads_stand_alone(before: Seq<char>, w: Seq<char>, after: Seq<char>)
    requires
        forall|i: int| 0 <= i < before.len() ==> is_space(#[trigger] before[i]),
        forall|i: int| 0 <= i < after.len() ==> is_space(#[trigger] after[i]),
        w.len() > 0 ==> !is_space(w[0]) && !is_space(w.last()),
    ensures
        plain_u32_value(before + w + after) == u32_value(w),
{
    law_trim_takes_only_spaces(before, w, after);
}

/// Whether a cell of the table shows an optional value: its digits, or a dash.
pub open spec fn cell_is(cell: Seq<char>, value: Option<u64>) -> bool {
    match value {
        Some(n) => cell == decimal(n as nat),
        None => cell == "-"@,
    }
}

proof fn lemma_number_has_no_tab(n: nat)
    ensures
        !decimal(n).contains('\t'),
{
    law_decimal_text_is_its_number(n);
    if decimal(n).contains('\t') {
        let i = choose|i: int| 0 <= i < decimal(n).len() && decimal(n)[i] == '\t';
        assert(is_digit(decimal(n)[i]));
    }
}

proof fn lemma_cell_has_no_tab(value: Option<u64>)
    ensures
        !cell_text(value).contains('\t'),
        cell_is(cell_text(value), value),
{
    reveal_strlit("-");
    if let Some(n) = value {
        lemma_number_has_no_tab(n as nat);
    }
}

proof fn lemma_header_cells()
    ensures
        split(header_text(), '\t', 7) == seq![
            "elapsed_ms"@,
            "vmrss_kb"@,
            "vmhwm_kb"@,
            "rssanon_kb"@,
            "rssfile_kb"@,
            "rssshmem_kb"@,
            "threads"@,
        ],
{
    reveal_strlit("elapsed_ms\tvmrss_kb\tvmhwm_kb\trssanon_kb\trssfile_kb\trssshmem_kb\tthreads");
    reveal_strlit("elapsed_ms");
    reveal_strlit("vmrss_kb");
    reveal_strlit("vmhwm_kb");
    reveal_strlit("rssanon_kb");
    reveal_strlit("rssfile_kb");
    reveal_strlit("rssshmem_kb");
    reveal_strlit("threads");
    let h0 = "elapsed_ms"@;
    lemma_split_whole(h0, '\t');
    let h1 = h0 + seq!['\t'] + "vmrss_kb"@;
    lemma_split_appended(h0, '\t', 1, "vmrss_kb"@);
    let h2 = h1 + seq!['\t'] + "vmhwm_kb"@;
    lemma_split_appended(h1, '\t', 2, "vmhwm_kb"@);
    let h3 = h2 + seq!['\t'] + "rssanon_kb"@;
    lemma_split_appended(h2, '\t', 3, "rssanon_kb"@);
    let h4 = h3 + seq!['\t'] + "rssfile_kb"@;
    lemma_split_appended(h3, '\t', 4, "rssfile_kb"@);
    let h5 = h4 + seq!['\t'] + "rssshmem_kb"@;
    lemma_split_appended(h4, '\t', 5, "rssshmem_kb"@);
    let h6 = h5 + seq!['\t'] + "threads"@;
    lemma_split_appended(h5, '\t', 6, "threads"@);
    assert(header_text() == h6);
}

/// The table of samples taken apart at its tabs: under each name in the header, a row
/// has the value of that name in its sample, or a dash where the sample has none, and
/// first the time.
pub proof fn law_each_column_has_its_value(elapsed_ms: u128, snapshot: ProcStatusSnapshot)
    ensures
        ({
            let header = split(header_text(), '\t', 7);
            let row = split(row_text(elapsed_ms, snapshot), '\t', 7);
            &&& header.len() == 7
            &&& row.len() == 7
            &&& header[0] == "elapsed_ms"@ && row[0] == decimal(elapsed_ms as nat)
            &&& header[1] == "vmrss_kb"@ && cell_is(row[1], snapshot.vmrss_kb)
            &&& header[2] == "vmhwm_kb"@ && cell_is(row[2], snapshot.vmhwm_kb)
            &&& header[3] == "rssanon_kb"@ && cell_is(row[3], snapshot.rss_anon_kb)
            &&& header[4] == "rssfile_kb"@ && cell_is(row[4], snapshot.rss_file_kb)
            &&& header[5] == "rssshmem_kb"@ && cell_is(row[5], snapshot.rss_shmem_kb)
            &&& header[6] == "threads"@
            &&& match snapshot.threads {
                Some(n) => row[6] == decimal(n as nat),
                None => row[6] == "-"@,
            }
        }),
{
    lemma_header_cells();
    let tab = "\t"@;
    reveal_strlit("\t");
    assert(tab == seq!['\t']);
    let r0 = decimal(elapsed_ms as nat);
    lemma_number_has_no_tab(elapsed_ms as nat);
    lemma_split_whole(r0, '\t');
    let c1 = cell_text(snapshot.vmrss_kb);
    let r1 = r0 + tab + c1;
    lemma_cell_has_no_tab(snapshot.vmrss_kb);
    lemma_split_appended(r0, '\t', 1, c1);
    assert(r0 + seq!['\t'] + c1 == r1);
    let c2 = cell_text(snapshot.vmhwm_kb);
    let r2 = r1 + tab + c2;
    lemma_cell_has_no_tab(snapshot.vmhwm_kb);
    lemma_split_appended(r1, '\t', 2, c2);
    assert(r1 + seq!['\t'] + c2 == r2);
    let c3 = cell_text(snapshot.rss_anon_kb);
    let r3 = r2 + tab + c3;
    lemma_cell_has_no_tab(snapshot.rss_anon_kb);
    lemma_split_appended(r2, '\t', 3, c3);
    assert(r2 + seq!['\t'] + c3 == r3);
    let c4 = cell_text(snapshot.rss_file_kb);
    let r4 = r3 + tab + c4;
    lemma_cell_has_no_tab(snapshot.rss_file_kb);
    lemma_split_appended(r3, '\t', 4, c4);
    assert(r3 + seq!['\t'] + c4 == r4);
    let c5 = cell_text(snapshot.rss_shmem_kb);
    let r5 = r4 + tab + c5;
    lemma_cell_has_no_tab(snapshot.rss_shmem_kb);
    lemma_split_appended(r4, '\t', 5, c5);
    assert(r4 + seq!['\t'] + c5 == r5);
    let c6 = cell_text(widened(snapshot.threads));
    let r6 = r5 + tab + c6;
    lemma_cell_has_no_tab(widened(snapshot.threads));
    lemma_split_appended(r5, '\t', 6, c6);
    assert(r5 + seq!['\t'] + c6 == r6);
    assert(r6 == row_text(elapsed_ms, snapshot));
}

/// The status file of a process lies in the directory of `/proc` that bears the
/// process number.
pub proof fn law_status_path_names_the_process(pid: u32)
    ensures
        split(status_path_text(pid), '/', 4) == seq![
            Seq::<char>::empty(),
            "proc"@,
            decimal(pid as nat),
            "status"@,
        ],
{
    reveal_strlit("/proc/");
    reveal_strlit("/status");
    reveal_strlit("proc");
    reveal_strlit("status");
    let digits = decimal(pid as nat);
    law_decimal_text_is_its_number(pid as nat);
    if digits.contains('/') {
        let i = choose|i: int| 0 <= i < digits.len() && digits[i] == '/';
        assert(is_digit(digits[i]));
    }
    let p0 = Seq::<char>::empty();
    let p1 = p0 + seq!['/'] + "proc"@;
    let p2 = p1 + seq!['/'] + digits;
    let p3 = p2 + seq!['/'] + "status"@;
    lemma_split_whole(p0, '/');
    lemma_split_appended(p0, '/', 1, "proc"@);
    lemma_split_appended(p1, '/', 2, digits);
    lemma_split_appended(p2, '/', 3, "status"@);
    assert(p3 == status_path_text(pid));
}

/// What a sampling run does about a read is what comes of it: it records a sample, the
/// one that it counts, exactly if it pauses next; it ends exactly if the file is gone;
/// and it fails, with the reason, exactly if the file could not be read.
pub proof fn law_the_sample_counted_is_recorded(
    sampler: ProcStatusSampler,
    read: FileRead,
    action: SampleAction,
)
    requires
        sampler.phase is Reading,
        acts_on(sampler.pid, read, action),
    ensures
        ({
            let next = sampler.after(SampleEvent::Read(read))->0;
            &&& action is Record <==> next.phase is Pausing
            &&& action is End <==> next.phase is Ended
            &&& action is Fail <==> next.phase is Failed
            &&& action matches SampleAction::Record(snapshot) ==> next.summary == with_sample(
                sampler.summary,
                snapshot,
            ) && snapshots_read(seq![SampleEvent::Read(read)]) == seq![snapshot]
            &&& !(action is Record) ==> next.summary == sampler.summary
            &&& action matches SampleAction::Fail(message) ==> (read->Failed_0)@.is_suffix_of(
                message@,
            )
        }),
{
    let events = seq![SampleEvent::Read(read)];
    assert(events.drop_last() == Seq::<SampleEvent>::empty());
    assert(snapshots_read(Seq::<SampleEvent>::empty()) == Seq::<ProcStatusSnapshot>::empty());
    if let FileRead::Text(contents) = read {
        let snapshot = snapshot_of(lines_of(contents@));
        assert(Seq::<ProcStatusSnapshot>::empty().push(snapshot) == seq![snapshot]);
    }
    if let FileRead::Failed(cause) = read {
        let message = "failed to read "@ + status_path_text(sampler.pid) + ": "@ + cause@;
        assert(message.subrange(message.len() - cause@.len(), message.len() as int) == cause@);
    }
}

/// Between two samples a sampling run sleeps for its interval; asked to stop, it sleeps
/// no more.
pub proof fn law_sampling_keeps_its_interval(sampler: ProcStatusSampler, stop: bool)
    requires
        sampler.phase is Pausing,
    ensures
        ({
            let pause = pause_of(sampler, stop);
            let next = sampler.after(SampleEvent::Pause(stop))->0;
            &&& pause is End <==> stop
            &&& pause is End <==> next.phase is Stopped
            &&& pause matches SamplePause::Sleep(ms) ==> ms == sampler.summary.interval_ms
            &&& next.summary == sampler.summary
        }),
{
}

} // verus!
