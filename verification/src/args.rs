//! What a run is asked to do, and how its child is set up.
use vstd::prelude::*;

use crate::render::{debug_text, shows, text_debug, text_lossy};
use crate::text::{
    chars_of, find_char, lemma_run_len, lemma_run_len_holds, other_than, run_len, Span,
};

verus! {

/// How the report is written.
#[derive(Copy, Clone, Debug, PartialEq, Eq, Structural)]
pub enum OutputFormat {
    Human,
    Json,
}

/// What a run is asked to do. Paths and command words are bytes.
#[derive(Debug)]
pub struct Args {
    pub format: OutputFormat,
    pub cwd: Option<Vec<u8>>,
    pub env_vars: Vec<String>,
    pub clear_env: bool,
    pub sample_proc_status_ms: Option<u64>,
    pub sample_proc_status_out: Option<Vec<u8>>,
    pub child_stdout: Option<Vec<u8>>,
    pub child_stderr: Option<Vec<u8>>,
    pub announce_child_pid_file: Option<Vec<u8>>,
    pub await_profiler_file: Option<Vec<u8>>,
    pub child_timeout_seconds: Option<u64>,
    pub timeout_marker_file: Option<Vec<u8>>,
    pub objects_processed: Option<u64>,
    pub command: Vec<Vec<u8>>,
}

/// Why a run cannot be done or reported.
#[derive(Debug)]
pub enum HarnessError {
    /// Only one of the two files of the profiler handshake is given.
    UnpairedProfilerFiles,
    /// No command is given.
    MissingCommand,
    /// An environment assignment has no equals sign.
    EnvWithoutEquals { input: String },
    /// An environment assignment has nothing before its equals sign.
    EnvWithoutKey { input: String },
    /// A string for the child holds a zero byte.
    InteriorNul,
    /// The child neither exited nor was terminated by a signal.
    NoReportableStatus,
}

/// What an error about an environment assignment says, given how the assignment is
/// shown.
pub open spec fn env_error_text(shown: Seq<char>, complaint: Seq<char>) -> Seq<char> {
    "invalid --env value "@ + shown + "; "@ + complaint
}

/// What an error about an environment assignment says.
pub fn env_error(shown: &str, complaint: &str) -> (s: String)
    ensures
        s@ == env_error_text(shown@, complaint@),
{
    let mut s = String::from_str("invalid --env value ");
    s.append(shown);
    s.append("; ");
    s.append(complaint);
    s
}

/// What an error says.
pub open spec fn error_text(error: HarnessError) -> Seq<char> {
    match error {
        HarnessError::UnpairedProfilerFiles =>
            "--announce-child-pid-file and --await-profiler-file must be provided together"@,
        HarnessError::MissingCommand => "missing command after '--'"@,
        HarnessError::EnvWithoutEquals { input } => env_error_text(
            debug_text(input@),
            "expected KEY=VALUE"@,
        ),
        HarnessError::EnvWithoutKey { input } => env_error_text(
            debug_text(input@),
            "key must not be empty"@,
        ),
        HarnessError::InteriorNul => "argument contains an interior NUL byte"@,
        HarnessError::NoReportableStatus =>
            "child process terminated without a reportable status"@,
    }
}

impl HarnessError {
    /// What this error says.
    pub fn message(&self) -> (s: String)
        ensures
            s@ == error_text(*self),
    {
        match self {
            HarnessError::UnpairedProfilerFiles => String::from_str(
                "--announce-child-pid-file and --await-profiler-file must be provided together",
            ),
            HarnessError::MissingCommand => String::from_str("missing command after '--'"),
            HarnessError::EnvWithoutEquals { input } => env_error(
                text_debug(input.as_str()).as_str(),
                "expected KEY=VALUE",
            ),
            HarnessError::EnvWithoutKey { input } => env_error(
                text_debug(input.as_str()).as_str(),
                "key must not be empty",
            ),
            HarnessError::InteriorNul => String::from_str("argument contains an interior NUL byte"),
            HarnessError::NoReportableStatus => String::from_str(
                "child process terminated without a reportable status",
            ),
        }
    }
}

/// Whether the two files of the profiler handshake go together.
pub open spec fn go_together(args: Args) -> bool {
    (args.announce_child_pid_file is Some) == (args.await_profiler_file is Some)
}

/// The two files of the profiler handshake go together: either both are given or
/// neither is.
pub fn validate_profiler_sync_args(args: &Args) -> (valid: Result<(), HarnessError>)
    ensures
        valid == (if (args.announce_child_pid_file is Some) == (args.await_profiler_file is Some) {
            Ok(())
        } else {
            Err(HarnessError::UnpairedProfilerFiles)
        }),
        valid is Ok <==> go_together(*args),
{
    if args.announce_child_pid_file.is_some() != args.await_profiler_file.is_some() {
        Err(HarnessError::UnpairedProfilerFiles)
    } else {
        Ok(())
    }
}

/// How often the child's status is sampled, in milliseconds, if it is: as asked
/// for, or every ten where only a file for the samples is given.
pub fn sampler_interval_ms(args: &Args) -> (interval: Option<u64>)
    ensures
        interval == (match args.sample_proc_status_ms {
            Some(ms) => Some(ms),
            None => if args.sample_proc_status_out is Some {
                Some(10u64)
            } else {
                None
            },
        }),
        interval is Some <==> args.sample_proc_status_ms is Some || args.sample_proc_status_out
            is Some,
        args.sample_proc_status_ms is Some ==> interval == args.sample_proc_status_ms,
        args.sample_proc_status_ms is None && interval is Some ==> interval->0 == 10,
{
    match args.sample_proc_status_ms {
        Some(ms) => Some(ms),
        None => if args.sample_proc_status_out.is_some() {
            Some(10)
        } else {
            None
        },
    }
}

/// The words of a command as text.
pub fn command_strings(values: &Vec<Vec<u8>>) -> (strings: Vec<String>)
    ensures
        strings@.len() == values@.len(),
        forall|i: int|
            0 <= i < strings@.len() ==> shows((#[trigger] strings@[i])@, values@[i]@),
{
    let mut strings: Vec<String> = Vec::new();
    let mut i: usize = 0;
    while i < values.len()
        invariant
            i <= values@.len(),
            strings@.len() == i,
            forall|j: int| 0 <= j < i ==> shows((#[trigger] strings@[j])@, values@[j]@),
        decreases values.len() - i,
    {
        strings.push(text_lossy(values[i].as_slice()));
        i = i + 1;
    }
    strings
}

/// What stands before the first equals sign of an assignment and what after it.
pub open spec fn assignment(input: Seq<char>) -> Option<(Seq<char>, Seq<char>)> {
    let n = run_len(input, other_than('=')) as int;
    if n < input.len() {
        Some((input.take(n), input.skip(n + 1)))
    } else {
        None
    }
}

/// Whether `input` assigns a value to a key: it has an equals sign, and something
/// before it.
pub open spec fn is_assignment(input: Seq<char>) -> bool {
    assignment(input) matches Some((key, _)) && key.len() > 0
}

/// Whether `error` is the complaint about `input`, which assigns nothing.
pub open spec fn complains_about(error: HarnessError, input: Seq<char>) -> bool {
    match error {
        HarnessError::EnvWithoutEquals { input: shown } => shown@ == input && assignment(
            input,
        ) is None,
        HarnessError::EnvWithoutKey { input: shown } => {
            &&& shown@ == input
            &&& assignment(input) matches Some((key, _))
            &&& key.len() == 0
        },
        _ => false,
    }
}

/// Takes an assignment `KEY=VALUE` apart at its first equals sign.
pub fn parse_env_assignment(input: &str) -> (parsed: Result<(&str, &str), HarnessError>)
    ensures
        match parsed {
            Ok((key, value)) => {
                &&& is_assignment(input@)
                &&& assignment(input@) == Some((key@, value@))
            },
            Err(error) => {
                &&& !is_assignment(input@)
                &&& complains_about(error, input@)
            },
        },
{
    let chars = chars_of(input);
    let whole = Span { start: 0, end: chars.len() };
    assert(whole.of(chars@) == input@);
    let at = find_char(chars.as_slice(), whole, '=');
    if at == chars.len() {
        return Err(HarnessError::EnvWithoutEquals { input: String::from_str(input) });
    }
    if at == 0 {
        return Err(HarnessError::EnvWithoutKey { input: String::from_str(input) });
    }
    Ok((input.substring_char(0, at), input.substring_char(at + 1, chars.len())))
}

/// An assignment is its key, an equals sign and its value; the key is not empty and
/// holds no equals sign.
pub proof fn law_assignment_is_its_parts(input: Seq<char>)
    requires
        is_assignment(input),
    ensures
        ({
            let (key, value) = assignment(input)->0;
            &&& input == key + seq!['='] + value
            &&& key.len() > 0
            &&& !key.contains('=')
        }),
{
    lemma_run_len_holds(input, other_than('='));
    let (key, value) = assignment(input)->0;
    assert(input == key + seq!['='] + value);
    assert(!key.contains('='));
}

/// Any value can be assigned to any key that is not empty and holds no equals sign:
/// taking the assignment apart gives back both.
pub proof fn law_assignment_round_trip(key: Seq<char>, value: Seq<char>)
    requires
        key.len() > 0,
        !key.contains('='),
    ensures
        is_assignment(key + seq!['='] + value),
        assignment(key + seq!['='] + value) == Some((key, value)),
{
    let input = key + seq!['='] + value;
    let n = key.len() as int;
    assert forall|i: int| 0 <= i < n implies other_than('=')(#[trigger] input[i]) by {
        assert(input[i] == key[i]);
        assert(key.contains(key[i]));
    }
    assert(input[n] == '=');
    lemma_run_len(input, other_than('='), n);
    assert(input.take(n) == key);
    assert(input.skip(n + 1) == value);
}

/// Whether `parsed` is the key and value of each assignment in `entries`, or the
/// complaint about the first entry that is none.
pub open spec fn parsed_from(
    entries: Seq<String>,
    parsed: Result<Vec<(String, String)>, HarnessError>,
) -> bool {
    match parsed {
        Ok(pairs) => {
            &&& pairs@.len() == entries.len()
            &&& forall|i: int|
                #![trigger pairs@[i]]
                0 <= i < pairs@.len() ==> is_assignment(entries[i]@) && assignment(entries[i]@)
                    == Some((pairs@[i].0@, pairs@[i].1@))
        },
        Err(error) => exists|i: int|
            #![trigger entries[i]]
            {
                &&& 0 <= i < entries.len()
                &&& !is_assignment(entries[i]@)
                &&& complains_about(error, entries[i]@)
                &&& forall|j: int| 0 <= j < i ==> is_assignment((#[trigger] entries[j])@)
            },
    }
}

/// The key and value of each assignment in `entries`; the complaint about the first
/// entry that is none.
pub fn env_assignments(entries: &Vec<String>) -> (parsed: Result<
    Vec<(String, String)>,
    HarnessError,
>)
    ensures
        parsed_from(entries@, parsed),
        match parsed {
            Ok(pairs) => {
                &&& pairs@.len() == entries@.len()
                &&& forall|i: int|
                    #![trigger pairs@[i]]
                    0 <= i < pairs@.len() ==> is_assignment(entries@[i]@) && assignment(
                        entries@[i]@,
                    ) == Some((pairs@[i].0@, pairs@[i].1@))
            },
            Err(error) => exists|i: int|
                #![trigger entries@[i]]
                {
                    &&& 0 <= i < entries@.len()
                    &&& !is_assignment(entries@[i]@)
                    &&& complains_about(error, entries@[i]@)
                    &&& forall|j: int| 0 <= j < i ==> is_assignment((#[trigger] entries@[j])@)
                },
        },
{
    let mut pairs: Vec<(String, String)> = Vec::new();
    let mut i: usize = 0;
    while i < entries.len()
        invariant
            i <= entries@.len(),
            pairs@.len() == i,
            forall|j: int| 0 <= j < i ==> is_assignment((#[trigger] entries@[j])@),
            forall|j: int|
                #![trigger pairs@[j]]
                0 <= j < i ==> assignment(entries@[j]@) == Some((pairs@[j].0@, pairs@[j].1@)),
        decreases entries.len() - i,
    {
        match parse_env_assignment(entries[i].as_str()) {
            Ok((key, value)) => {
                pairs.push((String::from_str(key), String::from_str(value)));
            },
            Err(error) => {
                assert(complains_about(error, entries@[i as int]@));
                return Err(error);
            },
        }
        i = i + 1;
    }
    Ok(pairs)
}

/// What is wrong with an assignment is that it has no equals sign, or else that nothing
/// stands before it; the error holds the assignment.
pub proof fn law_complaints_are_deserved(error: HarnessError, input: Seq<char>)
    requires
        complains_about(error, input),
    ensures
        !input.contains('=') ==> (error matches HarnessError::EnvWithoutEquals { input: shown }
            && shown@ == input),
        input.contains('=') ==> (error matches HarnessError::EnvWithoutKey { input: shown }
            && shown@ == input && input[0] == '='),
        !is_assignment(input),
{
    lemma_run_len_holds(input, other_than('='));
    let n = run_len(input, other_than('=')) as int;
    if input.contains('=') {
        let i = choose|i: int| 0 <= i < input.len() && input[i] == '=';
        assert(!other_than('=')(input[i]));
        assert(n < input.len());
    } else if n < input.len() {
        assert(input[n] == '=');
    }
}

/// An error about an assignment shows it, after a lead and before what is wrong with
/// it.
pub proof fn law_env_errors_show_the_assignment(input: String)
    ensures
        error_text(HarnessError::EnvWithoutEquals { input }) == "invalid --env value "@
            + debug_text(input@) + "; expected KEY=VALUE"@,
        error_text(HarnessError::EnvWithoutKey { input }) == "invalid --env value "@ + debug_text(
            input@,
        ) + "; key must not be empty"@,
{
    reveal_strlit("; ");
    reveal_strlit("expected KEY=VALUE");
    reveal_strlit("; expected KEY=VALUE");
    reveal_strlit("key must not be empty");
    reveal_strlit("; key must not be empty");
    let lead = "invalid --env value "@ + debug_text(input@);
    assert("; "@ + "expected KEY=VALUE"@ == "; expected KEY=VALUE"@);
    assert("; "@ + "key must not be empty"@ == "; key must not be empty"@);
    assert(lead + "; "@ + "expected KEY=VALUE"@ == lead + ("; "@ + "expected KEY=VALUE"@));
    assert(lead + "; "@ + "key must not be empty"@ == lead + ("; "@ + "key must not be empty"@));
}

/// Each assignment of an environment is kept, in its place: its key, an equals sign and
/// its value are the entry, and the key holds no equals sign.
pub proof fn law_assignments_are_kept(
    entries: Seq<String>,
    parsed: Result<Vec<(String, String)>, HarnessError>,
    i: int,
)
    requires
        parsed_from(entries, parsed),
        0 <= i < entries.len(),
    ensures
        parsed matches Ok(pairs) ==> {
            &&& pairs@.len() == entries.len()
            &&& entries[i]@ == pairs@[i].0@ + seq!['='] + pairs@[i].1@
            &&& pairs@[i].0@.len() > 0
            &&& !pairs@[i].0@.contains('=')
        },
        parsed is Err ==> exists|j: int|
            0 <= j < entries.len() && (!(#[trigger] entries[j])@.contains('=') || entries[j]@[0]
                == '='),
        !entries[i]@.contains('=') ==> parsed is Err,
{
    if let Ok(pairs) = parsed {
        assert(pairs@[i] == pairs@[i]);
        assert(is_assignment(entries[i]@));
        law_assignment_is_its_parts(entries[i]@);
        let n = pairs@[i].0@.len() as int;
        assert(entries[i]@[n] == '=');
    }
    if let Err(error) = parsed {
        let j = choose|j: int|
            #![trigger entries[j]]
            {
                &&& 0 <= j < entries.len()
                &&& !is_assignment(entries[j]@)
                &&& complains_about(error, entries[j]@)
                &&& forall|k: int| 0 <= k < j ==> is_assignment((#[trigger] entries[k])@)
            };
        law_complaints_are_deserved(error, entries[j]@);
    }
}

/// The files of the handshake go together exactly if both are given or neither is.
pub proof fn law_handshake_files_go_together(args: Args)
    ensures
        go_together(args) <==> {
            ||| args.announce_child_pid_file is Some && args.await_profiler_file is Some
            ||| args.announce_child_pid_file is None && args.await_profiler_file is None
        },
{
}

} // verus!
