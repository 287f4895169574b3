//! The steps by which a forked child becomes the command, stopped so that a
//! profiler can attach.
use vstd::prelude::*;
use vstd::utf8::encode_utf8;

use crate::args::{
    assignment, complains_about, is_assignment, law_assignment_is_its_parts,
    law_assignment_round_trip, law_complaints_are_deserved, parse_env_assignment, Args,
    HarnessError,
};

verus! {

/// `bytes` as a C string: with a zero byte at the end.
pub open spec fn c_string(bytes: Seq<u8>) -> Seq<u8> {
    bytes.push(0u8)
}

/// Each of `words` as a C string.
pub open spec fn c_strings(words: Seq<Vec<u8>>) -> Seq<Seq<u8>> {
    Seq::new(words.len(), |i: int| c_string(words[i]@))
}

/// The contents of each of `words`.
pub open spec fn contents(words: Seq<Vec<u8>>) -> Seq<Seq<u8>> {
    Seq::new(words.len(), |i: int| words[i]@)
}

/// Whether `bytes` holds a zero byte, so that it is no C string.
pub open spec fn has_nul(bytes: Seq<u8>) -> bool {
    bytes.contains(0u8)
}

/// Makes a C string of `bytes`, which may hold no zero byte.
pub fn cstring_from_bytes(bytes: &[u8]) -> (made: Result<Vec<u8>, HarnessError>)
    ensures
        match made {
            Ok(s) => !has_nul(bytes@) && s@ == c_string(bytes@),
            Err(error) => has_nul(bytes@) && error == HarnessError::InteriorNul,
        },
{
    let mut s: Vec<u8> = Vec::new();
    let mut i: usize = 0;
    while i < bytes.len()
        invariant
            i <= bytes@.len(),
            s@ == bytes@.take(i as int),
            forall|j: int| 0 <= j < i ==> (#[trigger] bytes@[j]) != 0,
        decreases bytes.len() - i,
    {
        if bytes[i] == 0 {
            assert(bytes@[i as int] == 0);
            return Err(HarnessError::InteriorNul);
        }
        s.push(bytes[i]);
        i = i + 1;
    }
    assert(bytes@.take(bytes@.len() as int) == bytes@);
    s.push(0);
    Ok(s)
}

/// Makes C strings of the words of a command.
pub fn build_exec_argv(command: &Vec<Vec<u8>>) -> (made: Result<Vec<Vec<u8>>, HarnessError>)
    ensures
        match made {
            Ok(argv) => {
                &&& forall|i: int| 0 <= i < command@.len() ==> !has_nul((#[trigger] command@[i])@)
                &&& contents(argv@) == c_strings(command@)
            },
            Err(error) => {
                &&& exists|i: int| 0 <= i < command@.len() && has_nul((#[trigger] command@[i])@)
                &&& error == HarnessError::InteriorNul
            },
        },
{
    let mut argv: Vec<Vec<u8>> = Vec::new();
    let mut i: usize = 0;
    while i < command.len()
        invariant
            i <= command@.len(),
            argv@.len() == i,
            forall|j: int| 0 <= j < i ==> !has_nul((#[trigger] command@[j])@),
            forall|j: int| 0 <= j < i ==> (#[trigger] argv@[j])@ == c_string(command@[j]@),
        decreases command.len() - i,
    {
        match cstring_from_bytes(command[i].as_slice()) {
            Ok(word) => {
                argv.push(word);
            },
            Err(error) => {
                assert(has_nul(command@[i as int]@));
                return Err(error);
            },
        }
        i = i + 1;
    }
    assert(contents(argv@) == c_strings(command@));
    Ok(argv)
}

/// One step of a forked child.
#[derive(Debug)]
pub enum ChildStep {
    /// Make the opened file the standard output.
    RedirectStdout,
    /// Make the opened file the standard error output.
    RedirectStderr,
    /// Change to this directory.
    ChangeDir(Vec<u8>),
    /// Drop the whole environment.
    ClearEnv,
    /// Set this variable to this value.
    SetEnv(Vec<u8>, Vec<u8>),
    /// Stop, until continued.
    Stop,
    /// Become this command.
    Exec(Vec<Vec<u8>>),
}

/// A step by the contents of its strings.
pub enum ChildStepView {
    RedirectStdout,
    RedirectStderr,
    ChangeDir(Seq<u8>),
    ClearEnv,
    SetEnv(Seq<u8>, Seq<u8>),
    Stop,
    Exec(Seq<Seq<u8>>),
}

impl View for ChildStep {
    type V = ChildStepView;

    open spec fn view(&self) -> ChildStepView {
        match self {
            ChildStep::RedirectStdout => ChildStepView::RedirectStdout,
            ChildStep::RedirectStderr => ChildStepView::RedirectStderr,
            ChildStep::ChangeDir(dir) => ChildStepView::ChangeDir(dir@),
            ChildStep::ClearEnv => ChildStepView::ClearEnv,
            ChildStep::SetEnv(key, value) => ChildStepView::SetEnv(key@, value@),
            ChildStep::Stop => ChildStepView::Stop,
            ChildStep::Exec(argv) => ChildStepView::Exec(contents(argv@)),
        }
    }
}

/// Steps by the contents of their strings.
pub open spec fn step_views(steps: Seq<ChildStep>) -> Seq<ChildStepView> {
    Seq::new(steps.len(), |i: int| steps[i]@)
}

/// The key of an assignment, in UTF-8.
pub open spec fn key_bytes(entry: Seq<char>) -> Seq<u8> {
    encode_utf8((assignment(entry)->0).0)
}

/// The value of an assignment, in UTF-8.
pub open spec fn value_bytes(entry: Seq<char>) -> Seq<u8> {
    encode_utf8((assignment(entry)->0).1)
}

/// Whether `entry` assigns a value to a key and both can be C strings.
pub open spec fn is_c_assignment(entry: Seq<char>) -> bool {
    is_assignment(entry) && !has_nul(key_bytes(entry)) && !has_nul(value_bytes(entry))
}

/// The step that makes an assignment.
pub open spec fn env_step(entry: Seq<char>) -> ChildStepView {
    ChildStepView::SetEnv(c_string(key_bytes(entry)), c_string(value_bytes(entry)))
}

/// One step, if there is cause for it.
pub open spec fn step_if(cause: bool, step: ChildStepView) -> Seq<ChildStepView> {
    if cause {
        seq![step]
    } else {
        seq![]
    }
}

/// The steps that come before the environment is set.
pub open spec fn lead_steps(args: Args) -> Seq<ChildStepView> {
    step_if(args.child_stdout is Some, ChildStepView::RedirectStdout) + step_if(
        args.child_stderr is Some,
        ChildStepView::RedirectStderr,
    ) + step_if(args.cwd is Some, ChildStepView::ChangeDir(c_string(args.cwd->0@))) + step_if(
        args.clear_env,
        ChildStepView::ClearEnv,
    )
}

/// The steps that set the environment, in the order of the assignments.
pub open spec fn env_steps(entries: Seq<String>) -> Seq<ChildStepView> {
    Seq::new(entries.len(), |i: int| env_step(entries[i]@))
}

/// All steps of a forked child: its output, its directory and its environment, then
/// the stop, then the command.
pub open spec fn all_steps(args: Args) -> Seq<ChildStepView> {
    lead_steps(args) + env_steps(args.env_vars@) + seq![
        ChildStepView::Stop,
        ChildStepView::Exec(c_strings(args.command@)),
    ]
}

/// Whether the directory, if one is given, can be a C string.
pub open spec fn cwd_fits(args: Args) -> bool {
    args.cwd matches Some(dir) ==> !has_nul(dir@)
}

/// Whether the words of the command can be C strings.
pub open spec fn command_fits(args: Args) -> bool {
    forall|i: int| 0 <= i < args.command@.len() ==> !has_nul((#[trigger] args.command@[i])@)
}

/// Whether `error` is what is wrong with entry `i`, the first that is wrong.
pub open spec fn first_bad_entry(entries: Seq<String>, i: int, error: HarnessError) -> bool {
    &&& 0 <= i < entries.len()
    &&& !is_c_assignment(entries[i]@)
    &&& forall|j: int| 0 <= j < i ==> is_c_assignment((#[trigger] entries[j])@)
    &&& if is_assignment(entries[i]@) {
        error == HarnessError::InteriorNul
    } else {
        complains_about(error, entries[i]@)
    }
}

/// Whether `error` is the first thing that is wrong with what a forked child is
/// given: with its command missing, its directory, its environment, its command.
pub open spec fn steps_error(args: Args, error: HarnessError) -> bool {
    if args.command@.len() == 0 {
        error == HarnessError::MissingCommand
    } else if !cwd_fits(args) {
        error == HarnessError::InteriorNul
    } else if exists|i: int|
        0 <= i < args.env_vars@.len() && !is_c_assignment((#[trigger] args.env_vars@[i])@) {
        exists|i: int| #[trigger] first_bad_entry(args.env_vars@, i, error)
    } else {
        !command_fits(args) && error == HarnessError::InteriorNul
    }
}

/// The step that makes one assignment.
fn set_env_step(entry: &str) -> (made: Result<ChildStep, HarnessError>)
    ensures
        match made {
            Ok(step) => is_c_assignment(entry@) && step@ == env_step(entry@),
            Err(error) => !is_c_assignment(entry@) && if is_assignment(entry@) {
                error == HarnessError::InteriorNul
            } else {
                complains_about(error, entry@)
            },
        },
{
    match parse_env_assignment(entry) {
        Ok((key, value)) => match cstring_from_bytes(key.as_bytes()) {
            Ok(key) => match cstring_from_bytes(value.as_bytes()) {
                Ok(value) => Ok(ChildStep::SetEnv(key, value)),
                Err(error) => Err(error),
            },
            Err(error) => Err(error),
        },
        Err(error) => Err(error),
    }
}

/// The steps of the forked child for a run with a profiler.
pub fn child_steps(args: &Args) -> (made: Result<Vec<ChildStep>, HarnessError>)
    ensures
        match made {
            Ok(steps) => {
                &&& args.command@.len() > 0
                &&& cwd_fits(*args)
                &&& forall|i: int|
                    0 <= i < args.env_vars@.len() ==> is_c_assignment(
                        (#[trigger] args.env_vars@[i])@,
                    )
                &&& command_fits(*args)
                &&& step_views(steps@) == all_steps(*args)
            },
            Err(error) => steps_error(*args, error),
        },
{
    if args.command.len() == 0 {
        return Err(HarnessError::MissingCommand);
    }
    let mut steps: Vec<ChildStep> = Vec::new();
    assert(step_views(steps@) == Seq::<ChildStepView>::empty());
    if args.child_stdout.is_some() {
        steps.push(ChildStep::RedirectStdout);
    }
    assert(step_views(steps@) == step_if(
        args.child_stdout is Some,
        ChildStepView::RedirectStdout,
    ));
    let ghost before = step_views(steps@);
    if args.child_stderr.is_some() {
        steps.push(ChildStep::RedirectStderr);
    }
    assert(step_views(steps@) == before + step_if(
        args.child_stderr is Some,
        ChildStepView::RedirectStderr,
    ));
    let ghost before = step_views(steps@);
    if let Some(dir) = &args.cwd {
        match cstring_from_bytes(dir.as_slice()) {
            Ok(dir) => {
                steps.push(ChildStep::ChangeDir(dir));
            },
            Err(error) => {
                return Err(error);
            },
        }
    }
    assert(step_views(steps@) == before + step_if(
        args.cwd is Some,
        ChildStepView::ChangeDir(c_string(args.cwd->0@)),
    ));
    let ghost before = step_views(steps@);
    if args.clear_env {
        steps.push(ChildStep::ClearEnv);
    }
    assert(step_views(steps@) == before + step_if(args.clear_env, ChildStepView::ClearEnv));
    assert(step_views(steps@) == lead_steps(*args));
    let mut i: usize = 0;
    assert(args.env_vars@.take(0) == Seq::<String>::empty());
    assert(step_views(steps@) == lead_steps(*args) + env_steps(args.env_vars@.take(0)));
    while i < args.env_vars.len()
        invariant
            i <= args.env_vars@.len(),
            args.command@.len() > 0,
            cwd_fits(*args),
            forall|j: int| 0 <= j < i ==> is_c_assignment((#[trigger] args.env_vars@[j])@),
            step_views(steps@) == lead_steps(*args) + env_steps(args.env_vars@.take(i as int)),
        decreases args.env_vars.len() - i,
    {
        match set_env_step(args.env_vars[i].as_str()) {
            Ok(step) => {
                let ghost before = steps@;
                steps.push(step);
                proof {
                    let entries = args.env_vars@;
                    assert(env_steps(entries.take(i + 1)) == env_steps(entries.take(i as int)).push(
                        env_step(entries[i as int]@),
                    ));
                    assert(step_views(steps@) == step_views(before).push(step@));
                    assert(step_views(steps@) == lead_steps(*args) + env_steps(
                        entries.take(i + 1),
                    ));
                }
            },
            Err(error) => {
                assert(first_bad_entry(args.env_vars@, i as int, error));
                return Err(error);
            },
        }
        i = i + 1;
    }
    assert(args.env_vars@.take(args.env_vars@.len() as int) == args.env_vars@);
    match build_exec_argv(&args.command) {
        Ok(argv) => {
            let ghost before = step_views(steps@);
            steps.push(ChildStep::Stop);
            steps.push(ChildStep::Exec(argv));
            assert(step_views(steps@) == before + seq![
                ChildStepView::Stop,
                ChildStepView::Exec(c_strings(args.command@)),
            ]);
            Ok(steps)
        },
        Err(error) => Err(error),
    }
}

/// What the child says when a step fails.
pub open spec fn failure_text(step: ChildStepView) -> Seq<char> {
    match step {
        ChildStepView::RedirectStdout => "memory-harness: failed to redirect child stdout\n"@,
        ChildStepView::RedirectStderr => "memory-harness: failed to redirect child stderr\n"@,
        ChildStepView::ChangeDir(_) => "memory-harness: failed to change child cwd\n"@,
        ChildStepView::ClearEnv => "memory-harness: failed to clear child environment\n"@,
        ChildStepView::SetEnv(_, _) => "memory-harness: failed to set child environment\n"@,
        ChildStepView::Stop => "memory-harness: failed to stop child before profiler attach\n"@,
        ChildStepView::Exec(_) => "memory-harness: failed to exec child command\n"@,
    }
}

impl ChildStep {
    /// What the child says when this step fails.
    pub fn failure(&self) -> (s: &'static str)
        ensures
            s@ == failure_text(self@),
    {
        match self {
            ChildStep::RedirectStdout => "memory-harness: failed to redirect child stdout\n",
            ChildStep::RedirectStderr => "memory-harness: failed to redirect child stderr\n",
            ChildStep::ChangeDir(_) => "memory-harness: failed to change child cwd\n",
            ChildStep::ClearEnv => "memory-harness: failed to clear child environment\n",
            ChildStep::SetEnv(_, _) => "memory-harness: failed to set child environment\n",
            ChildStep::Stop => "memory-harness: failed to stop child before profiler attach\n",
            ChildStep::Exec(_) => "memory-harness: failed to exec child command\n",
        }
    }
}

/// A forked child stops exactly once: after everything else it sets up, and just
/// before it becomes the command, which is the last it does and done once.
pub proof fn law_child_stops_before_the_command(args: Args)
    ensures
        ({
            let steps = all_steps(args);
            let n = steps.len() as int;
            &&& n >= 2
            &&& forall|i: int| 0 <= i < n ==> ((#[trigger] steps[i]) is Stop <==> i == n - 2)
            &&& forall|i: int| 0 <= i < n ==> ((#[trigger] steps[i]) is Exec <==> i == n - 1)
        }),
{
}

/// The environment is cleared, if at all, before anything is put into it.
pub proof fn law_environment_is_cleared_first(args: Args, i: int, j: int)
    requires
        0 <= i < all_steps(args).len(),
        0 <= j < all_steps(args).len(),
        all_steps(args)[i] is ClearEnv,
        all_steps(args)[j] is SetEnv,
    ensures
        i < j,
{
}

/// A forked child ends by becoming the command it was given, with every word of it:
/// as many C strings as the command has words, each the bytes of its word and one zero
/// byte.
pub proof fn law_child_becomes_the_whole_command(args: Args, steps: Seq<ChildStep>)
    requires
        step_views(steps) == all_steps(args),
    ensures
        steps.len() > 0,
        steps.last() matches ChildStep::Exec(argv) && argv@.len() == args.command@.len()
            && forall|i: int|
            0 <= i < argv@.len() ==> (#[trigger] argv@[i])@ == args.command@[i]@ + seq![0u8],
{
    let n = steps.len() as int;
    let views = step_views(steps);
    assert(views.len() == n);
    assert(views[n - 1] == steps[n - 1]@);
    assert(views.last() == ChildStepView::Exec(c_strings(args.command@)));
    if let ChildStep::Exec(argv) = steps.last() {
        let shown = contents(argv@);
        assert(shown == c_strings(args.command@));
        assert(shown.len() == argv@.len());
        assert forall|i: int| 0 <= i < argv@.len() implies (#[trigger] argv@[i])@
            == args.command@[i]@ + seq![0u8] by {
            assert(shown[i] == argv@[i]@);
            assert(c_strings(args.command@)[i] == c_string(args.command@[i]@));
        }
    }
}

/// One, where there is cause for it.
pub open spec fn one_if(cause: bool) -> int {
    if cause {
        1
    } else {
        0
    }
}

/// A forked child first redirects its output and then its errors, changes its
/// directory and clears its environment, each exactly if it was asked to; then comes
/// one step for each assignment, the stop, and the command.
pub proof fn law_child_is_set_up_as_asked(args: Args, steps: Seq<ChildStep>)
    requires
        step_views(steps) == all_steps(args),
    ensures
        ({
            let err = one_if(args.child_stdout is Some);
            let dir = err + one_if(args.child_stderr is Some);
            let clear = dir + one_if(args.cwd is Some);
            let env = clear + one_if(args.clear_env);
            let stop = env + args.env_vars@.len();
            &&& steps.len() == stop + 2
            &&& args.child_stdout is Some ==> steps[0] is RedirectStdout
            &&& args.child_stderr is Some ==> steps[err] is RedirectStderr
            &&& args.cwd matches Some(path) ==> (steps[dir] matches ChildStep::ChangeDir(to)
                && to@ == path@ + seq![0u8])
            &&& args.clear_env ==> steps[clear] is ClearEnv
            &&& forall|i: int| env <= i < stop ==> (#[trigger] steps[i]) is SetEnv
            &&& steps[stop] is Stop
            &&& steps[stop + 1] is Exec
        }),
{
    let views = step_views(steps);
    assert(views.len() == steps.len());
    assert forall|i: int| 0 <= i < steps.len() implies views[i] == (#[trigger] steps[i])@ by {}
    let err = one_if(args.child_stdout is Some);
    let dir = err + one_if(args.child_stderr is Some);
    let clear = dir + one_if(args.cwd is Some);
    let env = clear + one_if(args.clear_env);
    let stop = env + args.env_vars@.len();
    assert(lead_steps(args).len() == env);
    assert forall|i: int| env <= i < stop implies (#[trigger] steps[i]) is SetEnv by {
        assert(views[i] == env_steps(args.env_vars@)[i - env]);
    }
    assert(views[stop] is Stop);
    assert(views[stop + 1] is Exec);
    if args.child_stdout is Some {
        assert(views[0] is RedirectStdout);
    }
    if args.child_stderr is Some {
        assert(views[err] is RedirectStderr);
    }
    if let Some(path) = args.cwd {
        assert(views[dir] == ChildStepView::ChangeDir(c_string(path@)));
        assert(c_string(path@) == path@ + seq![0u8]);
    }
    if args.clear_env {
        assert(views[clear] is ClearEnv);
    }
}

/// A forked child makes every assignment it was given, in their order: of `KEY=VALUE`
/// it sets what stands before the first equals sign to what stands after it, both in
/// UTF-8 with a zero byte at the end.
pub proof fn law_child_gets_its_environment(
    args: Args,
    steps: Seq<ChildStep>,
    i: int,
    key: Seq<char>,
    value: Seq<char>,
)
    requires
        step_views(steps) == all_steps(args),
        0 <= i < args.env_vars@.len(),
        args.env_vars@[i]@ == key + seq!['='] + value,
        key.len() > 0,
        !key.contains('='),
    ensures
        ({
            let at = steps.len() - 2 - args.env_vars@.len() + i;
            &&& 0 <= at < steps.len()
            &&& steps[at] matches ChildStep::SetEnv(k, v)
            &&& k@ == encode_utf8(key) + seq![0u8]
            &&& v@ == encode_utf8(value) + seq![0u8]
        }),
{
    law_assignment_round_trip(key, value);
    let views = step_views(steps);
    assert(views.len() == steps.len());
    let at = steps.len() - 2 - args.env_vars@.len() + i;
    assert(at == lead_steps(args).len() + i);
    assert(views[at] == env_steps(args.env_vars@)[i]);
    assert(views[at] == steps[at]@);
    assert(c_string(encode_utf8(key)) == encode_utf8(key) + seq![0u8]);
    assert(c_string(encode_utf8(value)) == encode_utf8(value) + seq![0u8]);
}

/// Where every assignment has a key, what is wrong is that the command is missing or
/// that a zero byte stands in a word of it, in the directory or in an assignment.
pub proof fn law_only_bad_strings_are_errors(
    args: Args,
    keys: Seq<Seq<char>>,
    values: Seq<Seq<char>>,
    error: HarnessError,
)
    requires
        keys.len() == args.env_vars@.len(),
        values.len() == args.env_vars@.len(),
        forall|i: int|
            0 <= i < keys.len() ==> {
                &&& (#[trigger] args.env_vars@[i])@ == keys[i] + seq!['='] + values[i]
                &&& keys[i].len() > 0
                &&& !keys[i].contains('=')
            },
        steps_error(args, error),
    ensures
        args.command@.len() == 0 <==> error == HarnessError::MissingCommand,
        args.command@.len() > 0 ==> error == HarnessError::InteriorNul,
        args.command@.len() > 0 ==> {
            ||| args.cwd matches Some(path) && path@.contains(0u8)
            ||| exists|i: int| 0 <= i < args.command@.len() && (#[trigger] args.command@[i])@.contains(0u8)
            ||| exists|i: int|
                0 <= i < keys.len() && (encode_utf8(#[trigger] keys[i]).contains(0u8) || encode_utf8(
                    values[i],
                ).contains(0u8))
        },
{
    assert forall|i: int| 0 <= i < keys.len() implies is_assignment(
        (#[trigger] args.env_vars@[i])@,
    ) && assignment(args.env_vars@[i]@) == Some((keys[i], values[i])) by {
        law_assignment_round_trip(keys[i], values[i]);
    }
    if args.command@.len() > 0 && cwd_fits(args) {
        if exists|i: int|
            0 <= i < args.env_vars@.len() && !is_c_assignment((#[trigger] args.env_vars@[i])@) {
            let i = choose|i: int| #[trigger] first_bad_entry(args.env_vars@, i, error);
            assert(is_assignment(args.env_vars@[i]@));
            assert(encode_utf8(keys[i]).contains(0u8) || encode_utf8(values[i]).contains(0u8));
        }
    }
}

/// What can be a C string holds no zero byte: the directory, each word of the command,
/// and the key and the value of each assignment.
pub proof fn law_c_strings_hold_no_zero(args: Args, key: Seq<char>, value: Seq<char>, bytes: Seq<u8>)
    requires
        key.len() > 0,
        !key.contains('='),
    ensures
        cwd_fits(args) <==> (args.cwd is Some ==> !(args.cwd->0)@.contains(0u8)),
        command_fits(args) <==> forall|i: int|
            0 <= i < args.command@.len() ==> !(#[trigger] args.command@[i])@.contains(0u8),
        is_c_assignment(key + seq!['='] + value) <==> !encode_utf8(key).contains(0u8)
            && !encode_utf8(value).contains(0u8),
        has_nul(bytes) <==> bytes.contains(0u8),
        c_string(bytes) == bytes + seq![0u8],
{
    law_assignment_round_trip(key, value);
    assert(c_string(bytes) == bytes + seq![0u8]);
    if command_fits(args) {
        assert forall|i: int| 0 <= i < args.command@.len() implies !(
        #[trigger] args.command@[i])@.contains(0u8) by {
            assert(!has_nul(args.command@[i]@));
        }
    }
}

/// Where nothing before it is wrong, the first entry of the environment that assigns
/// nothing is what is complained about.
pub proof fn law_the_first_bad_assignment_is_reported(
    args: Args,
    i: int,
    error: HarnessError,
)
    requires
        steps_error(args, error),
        args.command@.len() > 0,
        args.cwd is Some ==> !(args.cwd->0)@.contains(0u8),
        0 <= i < args.env_vars@.len(),
        forall|j: int| 0 <= j < i ==> is_c_assignment((#[trigger] args.env_vars@[j])@),
        !args.env_vars@[i]@.contains('=') || args.env_vars@[i]@[0] == '=',
    ensures
        !args.env_vars@[i]@.contains('=') ==> (error matches HarnessError::EnvWithoutEquals { input }
            && input@ == args.env_vars@[i]@),
        args.env_vars@[i]@.contains('=') ==> (error matches HarnessError::EnvWithoutKey { input }
            && input@ == args.env_vars@[i]@),
{
    let entry = args.env_vars@[i]@;
    if is_assignment(entry) {
        law_assignment_is_its_parts(entry);
        let (key, value) = assignment(entry)->0;
        assert(entry[key.len() as int] == '=');
        assert(entry.contains('='));
        assert(entry[0] == key[0]);
        assert(key.contains(key[0]));
    }
    assert(!is_c_assignment(entry));
    let k = choose|k: int| #[trigger] first_bad_entry(args.env_vars@, k, error);
    assert(k == i) by {
        if i < k {
            assert(is_c_assignment(args.env_vars@[i]@));
        } else if k < i {
            assert(is_c_assignment(args.env_vars@[k]@));
        }
    }
    law_complaints_are_deserved(error, entry);
}

} // verus!
