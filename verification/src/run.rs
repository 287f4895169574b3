//! The course of a run: which step follows which, and how the run ends.
use vstd::prelude::*;

use crate::args::{sampler_interval_ms, Args, HarnessError};
use crate::decimal::{decimal, signed_decimal, signed_text};
use crate::rusage::{
    code_of, law_exit_or_signal, law_wait_status_is_read_back, signal_of, ExitStatus,
};
use crate::timeout::{law_a_kill_is_a_timeout, watch_reached, TimeoutWatch, WatchEvent};

verus! {

/// How long the child may take to stop before a profiler attaches.
pub const STOP_TIMEOUT_NS: u128 = 1_000_000_000;

/// How long a profiler may take to release the child.
pub const RELEASE_TIMEOUT_NS: u128 = 30_000_000_000;

/// Which of its optional steps a run has.
#[derive(Copy, Clone, Debug, PartialEq, Eq, Structural)]
pub struct RunPlan {
    /// A profiler attaches to the stopped child.
    pub profiler: bool,
    /// The child's status is sampled, this often in milliseconds.
    pub sampler_interval_ms: Option<u64>,
    /// The child is killed after this many seconds.
    pub timeout_seconds: Option<u64>,
    /// A file tells that someone else's timeout ended the child.
    pub timeout_marker: bool,
}

impl RunPlan {
    /// Whether this is the plan that the arguments of a run make.
    pub open spec fn follows(self, args: Args) -> bool {
        &&& self.profiler == (args.announce_child_pid_file is Some)
        &&& self.sampler_interval_ms == (match args.sample_proc_status_ms {
            Some(ms) => Some(ms),
            None => if args.sample_proc_status_out is Some {
                Some(10u64)
            } else {
                None
            },
        })
        &&& self.timeout_seconds == args.child_timeout_seconds
        &&& self.timeout_marker == (args.timeout_marker_file is Some)
    }

    /// The plan that the arguments of a run make.
    pub fn new(args: &Args) -> (plan: RunPlan)
        ensures
            plan.profiler == (args.announce_child_pid_file is Some),
            plan.sampler_interval_ms == (match args.sample_proc_status_ms {
                Some(ms) => Some(ms),
                None => if args.sample_proc_status_out is Some {
                    Some(10u64)
                } else {
                    None
                },
            }),
            plan.timeout_seconds == args.child_timeout_seconds,
            plan.timeout_marker == (args.timeout_marker_file is Some),
            plan.follows(*args),
    {
        RunPlan {
            profiler: args.announce_child_pid_file.is_some(),
            sampler_interval_ms: sampler_interval_ms(args),
            timeout_seconds: args.child_timeout_seconds,
            timeout_marker: args.timeout_marker_file.is_some(),
        }
    }
}

/// A step of a run.
#[derive(Copy, Clone, Debug, PartialEq, Eq, Structural)]
pub enum Step {
    /// Start the child, held back before it becomes the command.
    SpawnChild,
    /// Move the child into a cgroup of its own, where that can be done.
    AttachCgroup,
    AwaitChildStop,
    AnnounceChildPid,
    AwaitProfilerRelease,
    /// Let the child become the command.
    ContinueChild,
    StartClock,
    StartSampler,
    StartTimeoutWatch,
    WaitForChild,
    CollectCgroup,
    /// Call the watch off and ask it whether it ended the child.
    StopTimeoutWatch,
    /// Ask whether the marker is there.
    ProbeTimeoutMarker,
    ReadClock,
    MeasureHarness,
    FinishSampler,
    PrintReport,
    /// The run is over.
    Finished,
    /// The run failed at one of its steps.
    Failed,
}

/// What came of a step.
#[derive(Copy, Clone, Debug, PartialEq, Eq, Structural)]
pub enum Outcome {
    /// It is done.
    Done,
    /// It failed.
    Failed,
    /// The child is held back under this process number.
    Spawned(u32),
    /// The child is in a cgroup of its own, or it is not.
    Attached(bool),
    /// The answer to what the step asked.
    Answer(bool),
}

/// The place of a step in the order of steps.
pub open spec fn rank(step: Step) -> nat {
    match step {
        Step::SpawnChild => 0,
        Step::AttachCgroup => 1,
        Step::AwaitChildStop => 2,
        Step::AnnounceChildPid => 3,
        Step::AwaitProfilerRelease => 4,
        Step::ContinueChild => 5,
        Step::StartClock => 6,
        Step::StartSampler => 7,
        Step::StartTimeoutWatch => 8,
        Step::WaitForChild => 9,
        Step::CollectCgroup => 10,
        Step::StopTimeoutWatch => 11,
        Step::ProbeTimeoutMarker => 12,
        Step::ReadClock => 13,
        Step::MeasureHarness => 14,
        Step::FinishSampler => 15,
        Step::PrintReport => 16,
        Step::Finished => 17,
        Step::Failed => 18,
    }
}

/// The step after `step` in the order of steps. The end of a run is its own.
pub open spec fn following(step: Step) -> Step {
    match step {
        Step::SpawnChild => Step::AttachCgroup,
        Step::AttachCgroup => Step::AwaitChildStop,
        Step::AwaitChildStop => Step::AnnounceChildPid,
        Step::AnnounceChildPid => Step::AwaitProfilerRelease,
        Step::AwaitProfilerRelease => Step::ContinueChild,
        Step::ContinueChild => Step::StartClock,
        Step::StartClock => Step::StartSampler,
        Step::StartSampler => Step::StartTimeoutWatch,
        Step::StartTimeoutWatch => Step::WaitForChild,
        Step::WaitForChild => Step::CollectCgroup,
        Step::CollectCgroup => Step::StopTimeoutWatch,
        Step::StopTimeoutWatch => Step::ProbeTimeoutMarker,
        Step::ProbeTimeoutMarker => Step::ReadClock,
        Step::ReadClock => Step::MeasureHarness,
        Step::MeasureHarness => Step::FinishSampler,
        Step::FinishSampler => Step::PrintReport,
        Step::PrintReport => Step::Finished,
        Step::Finished => Step::Finished,
        Step::Failed => Step::Failed,
    }
}

fn following_step(step: Step) -> (next: Step)
    ensures
        next == following(step),
{
    match step {
        Step::SpawnChild => Step::AttachCgroup,
        Step::AttachCgroup => Step::AwaitChildStop,
        Step::AwaitChildStop => Step::AnnounceChildPid,
        Step::AnnounceChildPid => Step::AwaitProfilerRelease,
        Step::AwaitProfilerRelease => Step::ContinueChild,
        Step::ContinueChild => Step::StartClock,
        Step::StartClock => Step::StartSampler,
        Step::StartSampler => Step::StartTimeoutWatch,
        Step::StartTimeoutWatch => Step::WaitForChild,
        Step::WaitForChild => Step::CollectCgroup,
        Step::CollectCgroup => Step::StopTimeoutWatch,
        Step::StopTimeoutWatch => Step::ProbeTimeoutMarker,
        Step::ProbeTimeoutMarker => Step::ReadClock,
        Step::ReadClock => Step::MeasureHarness,
        Step::MeasureHarness => Step::FinishSampler,
        Step::FinishSampler => Step::PrintReport,
        Step::PrintReport => Step::Finished,
        Step::Finished => Step::Finished,
        Step::Failed => Step::Failed,
    }
}

/// Where a run stands.
#[derive(Copy, Clone, Debug, PartialEq, Eq, Structural)]
pub struct Run {
    pub plan: RunPlan,
    /// The step to take.
    pub step: Step,
    /// The child, once it is there.
    pub child_pid: Option<u32>,
    /// Whether the child is in a cgroup of its own.
    pub session: bool,
    /// Whether the child is known to have been ended by a timeout.
    pub timed_out: bool,
}

impl Run {
    /// Whether a step is one that this run takes: the handshake where a profiler
    /// attaches, the sampler and the watch where there is one, the collection where
    /// there is a session, and a look at the marker where there is one and the
    /// timeout is not known already.
    pub open spec fn due(self, step: Step) -> bool {
        match step {
            Step::AwaitChildStop | Step::AnnounceChildPid | Step::AwaitProfilerRelease =>
                self.plan.profiler,
            Step::StartSampler | Step::FinishSampler => self.plan.sampler_interval_ms is Some,
            Step::StartTimeoutWatch | Step::StopTimeoutWatch =>
                self.plan.timeout_seconds is Some,
            Step::CollectCgroup => self.session,
            Step::ProbeTimeoutMarker => self.plan.timeout_marker && !self.timed_out,
            _ => true,
        }
    }

    /// The first step after `step` that this run takes.
    pub open spec fn next_due(self, step: Step) -> Step
        decreases 20 - rank(step),
    {
        let next = following(step);
        if self.due(next) || rank(next) <= rank(step) {
            next
        } else {
            self.next_due(next)
        }
    }

    /// This run, gone on to its next step.
    pub open spec fn moved_on(self) -> Run {
        Run { step: self.next_due(self.step), ..self }
    }

    /// What this run goes on to when its step has the outcome `outcome`, if that is
    /// an outcome of the step. A step that fails fails the run.
    pub open spec fn after(self, outcome: Outcome) -> Option<Run> {
        match (self.step, outcome) {
            (Step::SpawnChild, Outcome::Spawned(pid)) => Some(
                (Run { child_pid: Some(pid), ..self }).moved_on(),
            ),
            (Step::AttachCgroup, Outcome::Attached(session)) => Some(
                (Run { session, ..self }).moved_on(),
            ),
            (
                Step::StopTimeoutWatch | Step::ProbeTimeoutMarker,
                Outcome::Answer(answer),
            ) => Some((Run { timed_out: self.timed_out || answer, ..self }).moved_on()),
            (
                Step::AwaitChildStop | Step::AnnounceChildPid | Step::AwaitProfilerRelease
                | Step::ContinueChild | Step::StartClock | Step::StartSampler
                | Step::StartTimeoutWatch | Step::WaitForChild | Step::CollectCgroup
                | Step::ReadClock | Step::MeasureHarness | Step::FinishSampler
                | Step::PrintReport,
                Outcome::Done,
            ) => Some(self.moved_on()),
            (
                Step::SpawnChild | Step::AwaitChildStop | Step::AnnounceChildPid
                | Step::AwaitProfilerRelease | Step::ContinueChild | Step::StartSampler
                | Step::WaitForChild | Step::StopTimeoutWatch | Step::MeasureHarness
                | Step::FinishSampler | Step::PrintReport,
                Outcome::Failed,
            ) => Some(Run { step: Step::Failed, ..self }),
            _ => None,
        }
    }

    /// A run that has not taken any step.
    pub open spec fn beginning(plan: RunPlan) -> Run {
        Run { plan, step: Step::SpawnChild, child_pid: None, session: false, timed_out: false }
    }

    /// Starts a run.
    pub fn start(plan: RunPlan) -> (run: Run)
        ensures
            run == Run::beginning(plan),
    {
        Run { plan, step: Step::SpawnChild, child_pid: None, session: false, timed_out: false }
    }

    fn is_due(&self, step: Step) -> (r: bool)
        ensures
            r == self.due(step),
    {
        match step {
            Step::AwaitChildStop | Step::AnnounceChildPid | Step::AwaitProfilerRelease =>
                self.plan.profiler,
            Step::StartSampler | Step::FinishSampler => self.plan.sampler_interval_ms.is_some(),
            Step::StartTimeoutWatch | Step::StopTimeoutWatch =>
                self.plan.timeout_seconds.is_some(),
            Step::CollectCgroup => self.session,
            Step::ProbeTimeoutMarker => self.plan.timeout_marker && !self.timed_out,
            _ => true,
        }
    }

    fn to_next(&self) -> (run: Run)
        ensures
            run == self.moved_on(),
    {
        let mut step = following_step(self.step);
        while !self.is_due(step)
            invariant
                self.next_due(self.step) == (if self.due(step) {
                    step
                } else {
                    self.next_due(step)
                }),
            decreases 20 - rank(step),
        {
            step = following_step(step);
        }
        Run { step, ..*self }
    }

    /// Goes on after the outcome of the current step; `None` if `outcome` is not an
    /// outcome of it.
    pub fn advance(&self, outcome: Outcome) -> (after: Option<Run>)
        ensures
            after == self.after(outcome),
    {
        match (self.step, outcome) {
            (Step::SpawnChild, Outcome::Spawned(pid)) => Some(
                (Run { child_pid: Some(pid), ..*self }).to_next(),
            ),
            (Step::AttachCgroup, Outcome::Attached(session)) => Some(
                (Run { session, ..*self }).to_next(),
            ),
            (Step::StopTimeoutWatch | Step::ProbeTimeoutMarker, Outcome::Answer(answer)) => Some(
                (Run { timed_out: self.timed_out || answer, ..*self }).to_next(),
            ),
            (
                Step::AwaitChildStop
                | Step::AnnounceChildPid
                | Step::AwaitProfilerRelease
                | Step::ContinueChild
                | Step::StartClock
                | Step::StartSampler
                | Step::StartTimeoutWatch
                | Step::WaitForChild
                | Step::CollectCgroup
                | Step::ReadClock
                | Step::MeasureHarness
                | Step::FinishSampler
                | Step::PrintReport,
                Outcome::Done,
            ) => Some(self.to_next()),
            (
                Step::SpawnChild
                | Step::AwaitChildStop
                | Step::AnnounceChildPid
                | Step::AwaitProfilerRelease
                | Step::ContinueChild
                | Step::StartSampler
                | Step::WaitForChild
                | Step::StopTimeoutWatch
                | Step::MeasureHarness
                | Step::FinishSampler
                | Step::PrintReport,
                Outcome::Failed,
            ) => Some(Run { step: Step::Failed, ..*self }),
            _ => None,
        }
    }
}

/// Where a run with `plan` stands after `outcomes`, in order, if each is an outcome
/// of the step it comes at.
pub open spec fn reached(plan: RunPlan, outcomes: Seq<Outcome>) -> Option<Run>
    decreases outcomes.len(),
{
    if outcomes.len() == 0 {
        Some(Run::beginning(plan))
    } else {
        match reached(plan, outcomes.drop_last()) {
            Some(run) => run.after(outcomes.last()),
            None => None,
        }
    }
}

proof fn lemma_next_due(run: Run, step: Step)
    requires
        rank(step) < 17,
    ensures
        rank(step) < rank(run.next_due(step)) <= 17,
        run.due(run.next_due(step)),
        forall|s: Step|
            rank(step) < #[trigger] rank(s) < rank(run.next_due(step)) ==> !run.due(s),
    decreases 20 - rank(step),
{
    let next = following(step);
    assert(rank(next) == rank(step) + 1);
    assert forall|s: Step| #[trigger] rank(s) == rank(next) implies s == next by {}
    if !run.due(next) {
        lemma_next_due(run, next);
    }
}

/// With every outcome a run comes to a later step, or to its failure. So it takes
/// each step at most once, in the order of steps, and is over after at most
/// seventeen; nothing follows its end.
pub proof fn law_steps_come_in_order(run: Run, outcome: Outcome)
    ensures
        run.after(outcome) matches Some(next) ==> rank(run.step) < rank(next.step) <= 18,
        run.step is Finished || run.step is Failed ==> run.after(outcome) is None,
{
    if let Some(next) = run.after(outcome) {
        if next.step !is Failed {
            lemma_next_due(Run { step: run.step, ..next }, run.step);
        }
    }
}

/// A step that did not fail is followed by the first later step that the run takes:
/// none of those is left out, and none that it does not take is taken.
pub proof fn law_no_due_step_is_skipped(run: Run, outcome: Outcome, next: Run)
    requires
        run.after(outcome) == Some(next),
        outcome !is Failed,
    ensures
        next.due(next.step),
        forall|s: Step|
            rank(run.step) < #[trigger] rank(s) < rank(next.step) ==> !next.due(s),
{
    lemma_next_due(Run { step: run.step, ..next }, run.step);
}

/// A step that failed fails the run, which leaves everything else as it was.
pub proof fn law_a_failure_ends_the_run(run: Run, next: Run)
    requires
        run.after(Outcome::Failed) == Some(next),
    ensures
        next == (Run { step: Step::Failed, ..run }),
        forall|outcome: Outcome| (#[trigger] next.after(outcome)) is None,
{
}

/// A run is over after at most seventeen outcomes where it succeeds and eighteen
/// where it fails.
pub proof fn law_runs_end(plan: RunPlan, outcomes: Seq<Outcome>)
    ensures
        reached(plan, outcomes) matches Some(run) ==> outcomes.len() <= rank(run.step) <= 18,
    decreases outcomes.len(),
{
    if outcomes.len() > 0 {
        law_runs_end(plan, outcomes.drop_last());
        if let Some(run) = reached(plan, outcomes.drop_last()) {
            law_steps_come_in_order(run, outcomes.last());
        }
    }
}

/// A child that a profiler attaches to is continued only once it had stopped, then
/// was announced, and then was released, each of these with success; by then it is
/// in the cgroup of the run, if there is one.
pub proof fn law_child_continues_after_the_handshake(
    attaching: Run,
    attached: Outcome,
    stopping: Run,
    stopped: Outcome,
    announcing: Run,
    announced: Outcome,
    releasing: Run,
    released: Outcome,
    continuing: Run,
)
    requires
        attaching.after(attached) == Some(stopping),
        stopping.after(stopped) == Some(announcing),
        announcing.after(announced) == Some(releasing),
        releasing.after(released) == Some(continuing),
        continuing.step is ContinueChild,
        continuing.plan.profiler,
    ensures
        attaching.step is AttachCgroup && attached == Outcome::Attached(continuing.session),
        stopping.step is AwaitChildStop && stopped is Done,
        announcing.step is AnnounceChildPid && announced is Done,
        releasing.step is AwaitProfilerRelease && released is Done,
{
    law_no_due_step_is_skipped(releasing, released, continuing);
    law_steps_come_in_order(releasing, released);
    assert(rank(Step::AwaitProfilerRelease) == 4);
    law_no_due_step_is_skipped(announcing, announced, releasing);
    law_steps_come_in_order(announcing, announced);
    assert(rank(Step::AnnounceChildPid) == 3);
    law_no_due_step_is_skipped(stopping, stopped, announcing);
    law_steps_come_in_order(stopping, stopped);
    assert(rank(Step::AwaitChildStop) == 2);
    law_no_due_step_is_skipped(attaching, attached, stopping);
    law_steps_come_in_order(attaching, attached);
    assert(rank(Step::AttachCgroup) == 1);
}

proof fn lemma_rank_tells(step: Step)
    ensures
        forall|s: Step| #[trigger] rank(s) == rank(step) ==> s == step,
{
}

/// Of two places that a run reaches, the later one is at a step later in the order
/// of steps: the clock and the timeout start after the child is continued, what it
/// used is known before the report, and so on.
pub proof fn law_earlier_steps_are_past(
    plan: RunPlan,
    outcomes: Seq<Outcome>,
    more: Seq<Outcome>,
)
    requires
        reached(plan, outcomes) is Some,
        reached(plan, outcomes + more) is Some,
        more.len() > 0,
    ensures
        rank((reached(plan, outcomes)->0).step) < rank((reached(plan, outcomes + more)->0).step),
    decreases more.len(),
{
    let all = outcomes + more;
    assert(all.drop_last() == outcomes + more.drop_last());
    if more.len() > 1 {
        law_earlier_steps_are_past(plan, outcomes, more.drop_last());
    } else {
        assert(all.drop_last() == outcomes);
    }
    law_steps_come_in_order(reached(plan, all.drop_last())->0, all.last());
}

/// Every step that a run takes, up to where it stands, was taken and did not fail.
/// So the timeout of a child starts only once the child was let go, and a report is
/// printed only once the child was waited for.
pub proof fn law_due_steps_were_taken(plan: RunPlan, outcomes: Seq<Outcome>, step: Step)
    requires
        reached(plan, outcomes) is Some,
        (reached(plan, outcomes)->0).step !is Failed,
        rank(step) < rank((reached(plan, outcomes)->0).step),
        (reached(plan, outcomes)->0).due(step),
    ensures
        exists|i: int|
            {
                &&& 0 <= i < outcomes.len()
                &&& #[trigger] reached(plan, outcomes.take(i)) matches Some(run)
                &&& run.step == step
                &&& outcomes[i] !is Failed
            },
    decreases outcomes.len(),
{
    let run = reached(plan, outcomes)->0;
    let earlier = outcomes.drop_last();
    let last = outcomes.last();
    let n = outcomes.len() - 1;
    let before = reached(plan, earlier)->0;
    assert(outcomes.take(n) == earlier);
    law_no_due_step_is_skipped(before, last, run);
    if step == before.step {
        assert(reached(plan, outcomes.take(n)) is Some);
    } else {
        lemma_rank_tells(step);
        assert(rank(step) < rank(before.step));
        law_due_steps_were_taken(plan, earlier, step);
        let i = choose|i: int|
            {
                &&& 0 <= i < earlier.len()
                &&& #[trigger] reached(plan, earlier.take(i)) matches Some(run)
                &&& run.step == step
                &&& earlier[i] !is Failed
            };
        assert(earlier.take(i) == outcomes.take(i));
        assert(reached(plan, outcomes.take(i)) is Some);
    }
}

proof fn lemma_plan_is_kept(plan: RunPlan, outcomes: Seq<Outcome>)
    ensures
        reached(plan, outcomes) matches Some(run) ==> run.plan == plan,
    decreases outcomes.len(),
{
    if outcomes.len() > 0 {
        lemma_plan_is_kept(plan, outcomes.drop_last());
    }
}

/// Neither the clock nor the timeout starts before the child was let become the
/// command.
pub proof fn law_timeout_starts_once_the_child_runs(plan: RunPlan, outcomes: Seq<Outcome>)
    requires
        reached(plan, outcomes) is Some,
        (reached(plan, outcomes)->0).step is StartClock || (reached(plan, outcomes)->0).step
            is StartTimeoutWatch,
    ensures
        exists|i: int|
            {
                &&& 0 <= i < outcomes.len()
                &&& #[trigger] reached(plan, outcomes.take(i)) matches Some(run)
                &&& run.step is ContinueChild
                &&& outcomes[i] is Done
            },
{
    law_due_steps_were_taken(plan, outcomes, Step::ContinueChild);
    let i = choose|i: int|
        {
            &&& 0 <= i < outcomes.len()
            &&& #[trigger] reached(plan, outcomes.take(i)) matches Some(run)
            &&& run.step == Step::ContinueChild
            &&& outcomes[i] !is Failed
        };
    lemma_outcome_at(plan, outcomes, i);
    assert(reached(plan, outcomes.take(i)) is Some);
}

/// A run that got through all of `outcomes` got through the first `n` of them.
proof fn lemma_reached_before(plan: RunPlan, outcomes: Seq<Outcome>, n: int)
    requires
        0 <= n <= outcomes.len(),
        reached(plan, outcomes) is Some,
    ensures
        reached(plan, outcomes.take(n)) is Some,
    decreases outcomes.len(),
{
    if n == outcomes.len() {
        assert(outcomes.take(n) == outcomes);
    } else {
        assert(outcomes.drop_last().take(n) == outcomes.take(n));
        lemma_reached_before(plan, outcomes.drop_last(), n);
    }
}

/// A run counts as timed out exactly if the stopped watch or the marker said so.
pub proof fn law_timed_out_is_what_was_answered(plan: RunPlan, outcomes: Seq<Outcome>)
    ensures
        reached(plan, outcomes) matches Some(run) ==> (run.timed_out <==> outcomes.contains(
            Outcome::Answer(true),
        )),
    decreases outcomes.len(),
{
    if outcomes.len() > 0 {
        let earlier = outcomes.drop_last();
        let last = outcomes.last();
        law_timed_out_is_what_was_answered(plan, earlier);
        if earlier.contains(Outcome::Answer(true)) {
            let i = choose|i: int| 0 <= i < earlier.len() && earlier[i] == Outcome::Answer(true);
            assert(outcomes[i] == Outcome::Answer(true));
        }
        if outcomes.contains(Outcome::Answer(true)) && last != Outcome::Answer(true) {
            let i = choose|i: int| 0 <= i < outcomes.len() && outcomes[i] == Outcome::Answer(true);
            assert(earlier[i] == Outcome::Answer(true));
        }
        if last == Outcome::Answer(true) {
            assert(outcomes[outcomes.len() - 1] == last);
        }
    }
}

/// Whether the step that stops the watch, where `outcomes` come to it, has the answer
/// of `watch`.
pub open spec fn stopped_with(plan: RunPlan, outcomes: Seq<Outcome>, watch: TimeoutWatch) -> bool {
    forall|i: int|
        0 <= i < outcomes.len() && (#[trigger] reached(plan, outcomes.take(i)) matches Some(run)
            && run.step is StopTimeoutWatch) ==> (outcomes[i] matches Outcome::Answer(answer)
            && watch.answer_of() == Some(answer))
}

/// A child that its watch killed at the deadline, or found gone then, is one that
/// timed out: a run that gets through with that watch counts as timed out, says so,
/// and exits with 124, however the child is said to have ended.
pub proof fn law_a_killed_child_timed_out(
    plan: RunPlan,
    outcomes: Seq<Outcome>,
    seconds: u64,
    events: Seq<WatchEvent>,
    killed: int,
    raw: i32,
)
    requires
        plan.timeout_seconds == Some(seconds),
        reached(plan, outcomes) is Some,
        (reached(plan, outcomes)->0).step is Finished,
        watch_reached(seconds, events) is Some,
        stopped_with(plan, outcomes, watch_reached(seconds, events)->0),
        0 <= killed < events.len(),
        events[killed] matches WatchEvent::Killed(kill) && kill !is Failed,
    ensures
        ({
            let run = reached(plan, outcomes)->0;
            &&& run.timed_out
            &&& status_text(raw, run.timed_out) == "timeout"@
            &&& exit_code_of(raw, run.timed_out) == Some(124int)
        }),
{
    law_a_kill_is_a_timeout(seconds, events);
    lemma_plan_is_kept(plan, outcomes);
    law_due_steps_were_taken(plan, outcomes, Step::StopTimeoutWatch);
    let i = choose|i: int|
        {
            &&& 0 <= i < outcomes.len()
            &&& #[trigger] reached(plan, outcomes.take(i)) matches Some(run)
            &&& run.step == Step::StopTimeoutWatch
            &&& outcomes[i] !is Failed
        };
    assert(reached(plan, outcomes.take(i)) is Some);
    assert(outcomes[i] == Outcome::Answer(true));
    law_timed_out_is_what_was_answered(plan, outcomes);
}

/// A watch is called off only once the child was waited for: until then a child that
/// runs past its deadline is killed.
pub proof fn law_watch_outlasts_the_child(plan: RunPlan, outcomes: Seq<Outcome>)
    requires
        reached(plan, outcomes) is Some,
        (reached(plan, outcomes)->0).step is StopTimeoutWatch,
    ensures
        exists|i: int|
            {
                &&& 0 <= i < outcomes.len()
                &&& #[trigger] reached(plan, outcomes.take(i)) matches Some(run)
                &&& run.step is WaitForChild
                &&& outcomes[i] !is Failed
            },
{
    law_due_steps_were_taken(plan, outcomes, Step::WaitForChild);
}

/// In every run the child becomes the command only once it is in the cgroup of the
/// run, or it is known that it gets none: when it is let go, that was settled before;
/// and where anything later is done, it was let go, after that was settled.
pub proof fn law_child_is_attached_before_it_runs(plan: RunPlan, outcomes: Seq<Outcome>)
    requires
        reached(plan, outcomes) is Some,
        (reached(plan, outcomes)->0).step !is Failed,
        rank((reached(plan, outcomes)->0).step) >= rank(Step::ContinueChild),
    ensures
        exists|i: int|
            {
                &&& 0 <= i < outcomes.len()
                &&& #[trigger] reached(plan, outcomes.take(i)) matches Some(attaching)
                &&& attaching.step is AttachCgroup
                &&& outcomes[i] == Outcome::Attached((reached(plan, outcomes)->0).session)
            },
        rank((reached(plan, outcomes)->0).step) > rank(Step::ContinueChild) ==> exists|
            i: int,
            j: int,
        |
            {
                &&& 0 <= i < j < outcomes.len()
                &&& #[trigger] reached(plan, outcomes.take(i)) matches Some(attaching)
                &&& attaching.step is AttachCgroup
                &&& outcomes[i] == Outcome::Attached((reached(plan, outcomes)->0).session)
                &&& #[trigger] reached(plan, outcomes.take(j)) matches Some(continuing)
                &&& continuing.step is ContinueChild
                &&& outcomes[j] is Done
            },
{
    law_due_steps_were_taken(plan, outcomes, Step::AttachCgroup);
    let i = choose|i: int|
        {
            &&& 0 <= i < outcomes.len()
            &&& #[trigger] reached(plan, outcomes.take(i)) matches Some(run)
            &&& run.step == Step::AttachCgroup
            &&& outcomes[i] !is Failed
        };
    assert(reached(plan, outcomes.take(i)) is Some);
    lemma_session_is_kept(plan, outcomes, i);
    if rank((reached(plan, outcomes)->0).step) > rank(Step::ContinueChild) {
        law_due_steps_were_taken(plan, outcomes, Step::ContinueChild);
        let j = choose|j: int|
            {
                &&& 0 <= j < outcomes.len()
                &&& #[trigger] reached(plan, outcomes.take(j)) matches Some(run)
                &&& run.step == Step::ContinueChild
                &&& outcomes[j] !is Failed
            };
        assert(reached(plan, outcomes.take(j)) is Some);
        assert(i < j) by {
            if j < i {
                let head = outcomes.take(j);
                let more = outcomes.subrange(j, i);
                assert(head + more == outcomes.take(i));
                law_earlier_steps_are_past(plan, head, more);
            }
        }
        lemma_outcome_at(plan, outcomes, j);
    }
}

/// Whether the child is in a cgroup of its own is settled where it is attached.
proof fn lemma_session_is_kept(plan: RunPlan, outcomes: Seq<Outcome>, i: int)
    requires
        reached(plan, outcomes) is Some,
        0 <= i < outcomes.len(),
        reached(plan, outcomes.take(i)) is Some,
        (reached(plan, outcomes.take(i))->0).step is AttachCgroup,
    ensures
        outcomes[i] == Outcome::Attached((reached(plan, outcomes)->0).session),
    decreases outcomes.len(),
{
    let n = outcomes.len() - 1;
    let earlier = outcomes.drop_last();
    if i == n {
        assert(outcomes.take(i) == earlier);
    } else {
        assert(earlier.take(i) == outcomes.take(i));
        lemma_session_is_kept(plan, earlier, i);
        let before = reached(plan, earlier)->0;
        let more = outcomes.subrange(i, n);
        assert(outcomes.take(i) + more == earlier);
        law_earlier_steps_are_past(plan, outcomes.take(i), more);
        assert(before.step !is AttachCgroup);
    }
}

/// The outcome that a run had at a step is an outcome of that step.
proof fn lemma_outcome_at(plan: RunPlan, outcomes: Seq<Outcome>, i: int)
    requires
        reached(plan, outcomes) is Some,
        0 <= i < outcomes.len(),
    ensures
        reached(plan, outcomes.take(i)) is Some,
        (reached(plan, outcomes.take(i))->0).after(outcomes[i]) is Some,
{
    lemma_reached_before(plan, outcomes, i);
    lemma_reached_before(plan, outcomes, i + 1);
    let taken = outcomes.take(i + 1);
    assert(taken.drop_last() == outcomes.take(i));
    assert(taken.last() == outcomes[i]);
}

/// A run with none of the options takes none of the optional steps: it spawns the
/// child, accounts for it, lets it go, waits for it and reports.
pub proof fn law_plain_runs_are_short(plan: RunPlan, outcomes: Seq<Outcome>)
    requires
        !plan.profiler,
        plan.sampler_interval_ms is None,
        plan.timeout_seconds is None,
        !plan.timeout_marker,
    ensures
        reached(plan, outcomes) matches Some(run) ==> {
            ||| run.step is SpawnChild
            ||| run.step is AttachCgroup
            ||| run.step is ContinueChild
            ||| run.step is StartClock
            ||| run.step is WaitForChild
            ||| run.step is CollectCgroup && run.session
            ||| run.step is ReadClock
            ||| run.step is MeasureHarness
            ||| run.step is PrintReport
            ||| run.step is Finished
            ||| run.step is Failed
        },
        reached(plan, outcomes) matches Some(run) ==> run.plan == plan,
    decreases outcomes.len(),
{
    if outcomes.len() > 0 {
        law_plain_runs_are_short(plan, outcomes.drop_last());
        if let Some(run) = reached(plan, outcomes.drop_last()) {
            if let Some(next) = run.after(outcomes.last()) {
                if outcomes.last() !is Failed {
                    law_no_due_step_is_skipped(run, outcomes.last(), next);
                }
            }
        }
    }
}

/// What a report says of how the child ended.
pub open spec fn status_text(raw: i32, timed_out: bool) -> Seq<char> {
    if timed_out {
        "timeout"@
    } else if raw == 0 {
        "ok"@
    } else if code_of(raw) is Some {
        "exit("@ + signed_decimal(code_of(raw)->0 as int) + ")"@
    } else if signal_of(raw) is Some {
        "signal("@ + signed_decimal(signal_of(raw)->0 as int) + ")"@
    } else {
        "unknown"@
    }
}

/// What a report says of how the child ended.
pub fn status_string(status: ExitStatus, timed_out: bool) -> (s: String)
    ensures
        s@ == status_text(status.raw, timed_out),
{
    if timed_out {
        return String::from_str("timeout");
    }
    if status.success() {
        return String::from_str("ok");
    }
    if let Some(code) = status.code() {
        let mut s = String::from_str("exit(");
        s.append(signed_text(code as i64).as_str());
        s.append(")");
        return s;
    }
    if let Some(signal) = status.signal() {
        let mut s = String::from_str("signal(");
        s.append(signed_text(signal as i64).as_str());
        s.append(")");
        return s;
    }
    String::from_str("unknown")
}

/// The code that the harness exits with: 124 after a timeout, else that of the
/// child, or 128 and the signal that terminated it. A child that ended in neither
/// way leaves none.
pub open spec fn exit_code_of(raw: i32, timed_out: bool) -> Option<int> {
    if timed_out {
        Some(124)
    } else if code_of(raw) is Some {
        Some(code_of(raw)->0 as int)
    } else if signal_of(raw) is Some {
        Some(128 + signal_of(raw)->0)
    } else {
        None
    }
}

/// The code that the harness exits with.
pub fn exit_code(status: ExitStatus, timed_out: bool) -> (code: Result<i32, HarnessError>)
    ensures
        code == (match exit_code_of(status.raw, timed_out) {
            Some(n) => Ok(n as i32),
            None => Err(HarnessError::NoReportableStatus),
        }),
        code matches Ok(n) ==> exit_code_of(status.raw, timed_out) == Some(n as int),
{
    proof {
        law_exit_or_signal(status.raw);
    }
    if timed_out {
        Ok(124)
    } else if status.success() {
        Ok(0)
    } else if let Some(code) = status.code() {
        Ok(code)
    } else if let Some(signal) = status.signal() {
        Ok(128 + signal)
    } else {
        Err(HarnessError::NoReportableStatus)
    }
}

/// The harness exits with a code of one byte, so that its parent sees it whole: zero
/// exactly if the child exited with zero in time, and above 128 and below 255 if a
/// signal terminated the child.
pub proof fn law_exit_codes(raw: i32, timed_out: bool)
    ensures
        exit_code_of(raw, timed_out) matches Some(n) ==> 0 <= n <= 255,
        exit_code_of(raw, timed_out) == Some(0int) <==> !timed_out && code_of(raw) == Some(0i32),
        timed_out ==> exit_code_of(raw, timed_out) == Some(124int),
        !timed_out && signal_of(raw) is Some ==> 128 < exit_code_of(raw, timed_out)->0
            < 255,
        exit_code_of(raw, timed_out) is None <==> !timed_out && code_of(raw) is None && signal_of(
            raw,
        ) is None,
{
    law_exit_or_signal(raw);
}

/// A report that says `ok` is of a run that exits with zero, and one that says
/// `timeout` of a run that timed out.
pub proof fn law_status_agrees_with_exit(raw: i32, timed_out: bool)
    ensures
        status_text(raw, timed_out) == "ok"@ ==> exit_code_of(raw, timed_out) == Some(0int),
        status_text(raw, timed_out) == "timeout"@ <==> timed_out,
{
    reveal_strlit("ok");
    reveal_strlit("timeout");
    reveal_strlit("unknown");
    reveal_strlit("exit(");
    reveal_strlit("signal(");
    law_exit_or_signal(raw);
    assert("ok"@[0] == 'o' && "timeout"@[0] == 't' && "unknown"@[0] == 'u' && "exit("@[0] == 'e'
        && "signal("@[0] == 's');
    let text = status_text(raw, timed_out);
    if !timed_out && raw != 0 {
        if code_of(raw) is Some {
            assert(text[0] == 'e');
        } else if signal_of(raw) is Some {
            assert(text[0] == 's');
        }
    }
}

/// Whether a run stood at `step` when it had the outcome at `i`.
pub open spec fn stood_at(plan: RunPlan, outcomes: Seq<Outcome>, i: int, step: Step) -> bool {
    &&& 0 <= i < outcomes.len()
    &&& reached(plan, outcomes.take(i)) matches Some(run)
    &&& run.step == step
}

/// Whether a run has taken `step`.
pub open spec fn took(plan: RunPlan, outcomes: Seq<Outcome>, step: Step) -> bool {
    exists|i: int| #[trigger] stood_at(plan, outcomes, i, step)
}

/// A run that stands at a step takes it.
proof fn lemma_stands_where_due(plan: RunPlan, outcomes: Seq<Outcome>)
    ensures
        reached(plan, outcomes) matches Some(run) ==> run.step is Failed || run.due(run.step),
{
    if outcomes.len() > 0 {
        if let Some(run) = reached(plan, outcomes.drop_last()) {
            if let Some(next) = run.after(outcomes.last()) {
                if outcomes.last() !is Failed {
                    law_no_due_step_is_skipped(run, outcomes.last(), next);
                }
            }
        }
    }
}

proof fn lemma_taken_was_due(plan: RunPlan, outcomes: Seq<Outcome>, i: int, step: Step)
    requires
        reached(plan, outcomes) is Some,
        stood_at(plan, outcomes, i, step),
    ensures
        (reached(plan, outcomes.take(i))->0).due(step),
        (reached(plan, outcomes.take(i))->0).plan == plan,
        (reached(plan, outcomes.take(i))->0).after(outcomes[i]) is Some,
        step !is Failed,
        step !is Finished,
{
    lemma_stands_where_due(plan, outcomes.take(i));
    lemma_plan_is_kept(plan, outcomes.take(i));
    lemma_outcome_at(plan, outcomes, i);
}

proof fn lemma_due_was_taken(plan: RunPlan, outcomes: Seq<Outcome>, step: Step)
    requires
        reached(plan, outcomes) is Some,
        (reached(plan, outcomes)->0).step is Finished,
        (reached(plan, outcomes)->0).due(step),
        step !is Finished,
        step !is Failed,
    ensures
        took(plan, outcomes, step),
{
    law_due_steps_were_taken(plan, outcomes, step);
    let i = choose|i: int|
        {
            &&& 0 <= i < outcomes.len()
            &&& #[trigger] reached(plan, outcomes.take(i)) matches Some(run)
            &&& run.step == step
            &&& outcomes[i] !is Failed
        };
    assert(stood_at(plan, outcomes, i, step));
}

/// A run does nothing it was not asked for, however far it comes: it goes through the
/// handshake only with a profiler, samples only with an interval, watches only with a
/// timeout, collects only from a child that was attached, and looks for a marker only
/// where there is one and the watch has not answered that the child timed out.
pub proof fn law_a_run_does_only_what_was_asked_for(plan: RunPlan, outcomes: Seq<Outcome>)
    requires
        reached(plan, outcomes) is Some,
    ensures
        took(plan, outcomes, Step::AwaitChildStop) ==> plan.profiler,
        took(plan, outcomes, Step::AnnounceChildPid) ==> plan.profiler,
        took(plan, outcomes, Step::AwaitProfilerRelease) ==> plan.profiler,
        took(plan, outcomes, Step::StartSampler) ==> plan.sampler_interval_ms is Some,
        took(plan, outcomes, Step::FinishSampler) ==> plan.sampler_interval_ms is Some,
        took(plan, outcomes, Step::StartTimeoutWatch) ==> plan.timeout_seconds is Some,
        took(plan, outcomes, Step::StopTimeoutWatch) ==> plan.timeout_seconds is Some,
        took(plan, outcomes, Step::CollectCgroup) ==> outcomes.contains(Outcome::Attached(true)),
        took(plan, outcomes, Step::ProbeTimeoutMarker) ==> plan.timeout_marker,
        took(plan, outcomes, Step::ProbeTimeoutMarker) ==> forall|i: int|
            #[trigger] stood_at(plan, outcomes, i, Step::StopTimeoutWatch) ==> outcomes[i]
                != Outcome::Answer(true),
        !took(plan, outcomes, Step::Finished),
        !took(plan, outcomes, Step::Failed),
{
    assert forall|i: int, step: Step| #[trigger] stood_at(plan, outcomes, i, step) implies {
        &&& (reached(plan, outcomes.take(i))->0).due(step)
        &&& (reached(plan, outcomes.take(i))->0).plan == plan
        &&& step !is Failed
        &&& step !is Finished
    } by {
        lemma_taken_was_due(plan, outcomes, i, step);
    }
    if took(plan, outcomes, Step::CollectCgroup) {
        let i = choose|i: int| #[trigger] stood_at(plan, outcomes, i, Step::CollectCgroup);
        law_what_a_run_knows(plan, outcomes.take(i));
        let k = choose|k: int|
            0 <= k < outcomes.take(i).len() && outcomes.take(i)[k] == Outcome::Attached(true);
        assert(outcomes[k] == Outcome::Attached(true));
    }
    if took(plan, outcomes, Step::ProbeTimeoutMarker) {
        let p = choose|i: int| #[trigger] stood_at(plan, outcomes, i, Step::ProbeTimeoutMarker);
        assert forall|i: int| #[trigger] stood_at(
            plan,
            outcomes,
            i,
            Step::StopTimeoutWatch,
        ) implies outcomes[i] != Outcome::Answer(true) by {
            if p < i {
                let more = outcomes.subrange(p, i);
                assert(outcomes.take(p) + more == outcomes.take(i));
                law_earlier_steps_are_past(plan, outcomes.take(p), more);
            }
            assert(i < p);
            assert(outcomes.take(p)[i] == outcomes[i]);
            law_timed_out_is_what_was_answered(plan, outcomes.take(p));
        }
    }
}

/// A run that finishes has done all it was asked for, whatever else it was asked for:
/// it has gone through the handshake with a profiler, sampled with an interval, watched
/// with a timeout, collected from a child that was attached, and looked for a marker
/// unless the watch had answered that the child timed out; and it has spawned the
/// child, attached it or not, let it go, waited for it, measured and reported.
pub proof fn law_a_run_does_all_that_was_asked_for(plan: RunPlan, outcomes: Seq<Outcome>)
    requires
        reached(plan, outcomes) is Some,
        (reached(plan, outcomes)->0).step is Finished,
    ensures
        plan.profiler ==> {
            &&& took(plan, outcomes, Step::AwaitChildStop)
            &&& took(plan, outcomes, Step::AnnounceChildPid)
            &&& took(plan, outcomes, Step::AwaitProfilerRelease)
        },
        plan.sampler_interval_ms is Some ==> {
            &&& took(plan, outcomes, Step::StartSampler)
            &&& took(plan, outcomes, Step::FinishSampler)
        },
        plan.timeout_seconds is Some ==> {
            &&& took(plan, outcomes, Step::StartTimeoutWatch)
            &&& took(plan, outcomes, Step::StopTimeoutWatch)
        },
        outcomes.contains(Outcome::Attached(true)) ==> took(plan, outcomes, Step::CollectCgroup),
        plan.timeout_marker && !(exists|i: int|
            #[trigger] stood_at(plan, outcomes, i, Step::StopTimeoutWatch) && outcomes[i]
                == Outcome::Answer(true)) ==> took(plan, outcomes, Step::ProbeTimeoutMarker),
        took(plan, outcomes, Step::SpawnChild),
        took(plan, outcomes, Step::AttachCgroup),
        took(plan, outcomes, Step::ContinueChild),
        took(plan, outcomes, Step::StartClock),
        took(plan, outcomes, Step::WaitForChild),
        took(plan, outcomes, Step::ReadClock),
        took(plan, outcomes, Step::MeasureHarness),
        took(plan, outcomes, Step::PrintReport),
{
    let run = reached(plan, outcomes)->0;
    lemma_plan_is_kept(plan, outcomes);
    law_what_a_run_knows(plan, outcomes);
    law_timed_out_is_what_was_answered(plan, outcomes);
    if plan.profiler {
        lemma_due_was_taken(plan, outcomes, Step::AwaitChildStop);
        lemma_due_was_taken(plan, outcomes, Step::AnnounceChildPid);
        lemma_due_was_taken(plan, outcomes, Step::AwaitProfilerRelease);
    }
    if plan.sampler_interval_ms is Some {
        lemma_due_was_taken(plan, outcomes, Step::StartSampler);
        lemma_due_was_taken(plan, outcomes, Step::FinishSampler);
    }
    if plan.timeout_seconds is Some {
        lemma_due_was_taken(plan, outcomes, Step::StartTimeoutWatch);
        lemma_due_was_taken(plan, outcomes, Step::StopTimeoutWatch);
    }
    if run.session {
        lemma_due_was_taken(plan, outcomes, Step::CollectCgroup);
    }
    if plan.timeout_marker {
        if run.timed_out {
            let i = choose|i: int| 0 <= i < outcomes.len() && outcomes[i] == Outcome::Answer(true);
            lemma_outcome_at(plan, outcomes, i);
            let step = (reached(plan, outcomes.take(i))->0).step;
            assert(stood_at(plan, outcomes, i, step));
            assert(step is StopTimeoutWatch || step is ProbeTimeoutMarker);
        } else {
            lemma_due_was_taken(plan, outcomes, Step::ProbeTimeoutMarker);
        }
    }
    lemma_due_was_taken(plan, outcomes, Step::SpawnChild);
    lemma_due_was_taken(plan, outcomes, Step::AttachCgroup);
    lemma_due_was_taken(plan, outcomes, Step::ContinueChild);
    lemma_due_was_taken(plan, outcomes, Step::StartClock);
    lemma_due_was_taken(plan, outcomes, Step::WaitForChild);
    lemma_due_was_taken(plan, outcomes, Step::ReadClock);
    lemma_due_was_taken(plan, outcomes, Step::MeasureHarness);
    lemma_due_was_taken(plan, outcomes, Step::PrintReport);
}

/// The steps that a run takes come in one order: the child is spawned, attached,
/// stopped, announced, released and let go; then the clock, the sampler and the watch
/// start; then the child is waited for and its cgroup collected; then the watch is
/// stopped and the marker looked for; then the clock is read, the harness measured and
/// the sampler finished; and last comes the report.
pub proof fn law_the_order_of_steps(
    plan: RunPlan,
    outcomes: Seq<Outcome>,
    i: int,
    j: int,
    a: int,
    b: int,
)
    requires
        reached(plan, outcomes) is Some,
        0 <= i < j,
        ({
            let order = seq![
                Step::SpawnChild,
                Step::AttachCgroup,
                Step::AwaitChildStop,
                Step::AnnounceChildPid,
                Step::AwaitProfilerRelease,
                Step::ContinueChild,
                Step::StartClock,
                Step::StartSampler,
                Step::StartTimeoutWatch,
                Step::WaitForChild,
                Step::CollectCgroup,
                Step::StopTimeoutWatch,
                Step::ProbeTimeoutMarker,
                Step::ReadClock,
                Step::MeasureHarness,
                Step::FinishSampler,
                Step::PrintReport,
            ];
            &&& 0 <= a < order.len()
            &&& 0 <= b < order.len()
            &&& stood_at(plan, outcomes, i, order[a])
            &&& stood_at(plan, outcomes, j, order[b])
        }),
    ensures
        a < b,
{
    let more = outcomes.subrange(i, j);
    assert(outcomes.take(i) + more == outcomes.take(j));
    law_earlier_steps_are_past(plan, outcomes.take(i), more);
    assert(rank((reached(plan, outcomes.take(i))->0).step) == a);
    assert(rank((reached(plan, outcomes.take(j))->0).step) == b);
}

/// What a run knows it has been told: the child is the one that was spawned, and it is
/// in a cgroup of its own exactly if it was attached to one.
pub proof fn law_what_a_run_knows(plan: RunPlan, outcomes: Seq<Outcome>)
    requires
        reached(plan, outcomes) is Some,
    ensures
        ({
            let run = reached(plan, outcomes)->0;
            &&& run.plan == plan
            &&& forall|pid: u32|
                run.child_pid == Some(pid) <==> #[trigger] outcomes.contains(Outcome::Spawned(pid))
            &&& run.session <==> outcomes.contains(Outcome::Attached(true))
            &&& outcomes.len() == 0 ==> run.step is SpawnChild
            &&& run.step is Failed <==> outcomes.len() > 0 && outcomes.last() is Failed
        }),
    decreases outcomes.len(),
{
    if outcomes.len() > 0 {
        let earlier = outcomes.drop_last();
        let last = outcomes.last();
        law_what_a_run_knows(plan, earlier);
        lemma_fresh(plan, earlier);
        let run = reached(plan, outcomes)->0;
        let before = reached(plan, earlier)->0;
        assert(earlier.push(last) == outcomes);
        assert forall|outcome: Outcome| #[trigger] outcomes.contains(outcome) <==> earlier.contains(
            outcome,
        ) || outcome == last by {
            if earlier.contains(outcome) {
                let k = choose|k: int| 0 <= k < earlier.len() && earlier[k] == outcome;
                assert(outcomes[k] == outcome);
            }
            if outcome == last {
                assert(outcomes[outcomes.len() - 1] == outcome);
            }
            if outcomes.contains(outcome) && outcome != last {
                let k = choose|k: int| 0 <= k < outcomes.len() && outcomes[k] == outcome;
                assert(earlier[k] == outcome);
            }
        }
        assert forall|pid: u32|
            run.child_pid == Some(pid) <==> #[trigger] outcomes.contains(
                Outcome::Spawned(pid),
            ) by {
            assert(earlier.contains(Outcome::Spawned(pid)) <==> before.child_pid == Some(pid));
        }
        if last !is Failed {
            law_no_due_step_is_skipped(before, last, run);
            law_steps_come_in_order(before, last);
            lemma_next_due(Run { step: before.step, ..run }, before.step);
        }
    }
}

/// Until a run has spawned its child it has none, and until it has settled whether it
/// attaches the child, the child is not attached.
proof fn lemma_fresh(plan: RunPlan, outcomes: Seq<Outcome>)
    ensures
        reached(plan, outcomes) matches Some(run) ==> {
            &&& run.step is SpawnChild ==> run.child_pid is None
            &&& rank(run.step) <= rank(Step::AttachCgroup) ==> !run.session
        },
    decreases outcomes.len(),
{
    if outcomes.len() > 0 {
        lemma_fresh(plan, outcomes.drop_last());
        if let Some(run) = reached(plan, outcomes.drop_last()) {
            law_steps_come_in_order(run, outcomes.last());
        }
    }
}

/// Which outcomes a step can have: the spawn a child, the attach whether it was done,
/// the two questions an answer, and every other step that it is done. What reads a
/// clock, starts the watch, attaches, collects or looks for a marker cannot fail.
pub proof fn law_steps_have_their_outcomes(run: Run, pid: u32, answer: bool)
    ensures
        run.after(Outcome::Spawned(pid)) is Some <==> run.step is SpawnChild,
        run.after(Outcome::Attached(answer)) is Some <==> run.step is AttachCgroup,
        run.after(Outcome::Answer(answer)) is Some <==> run.step is StopTimeoutWatch || run.step
            is ProbeTimeoutMarker,
        run.after(Outcome::Done) is None <==> {
            ||| run.step is SpawnChild
            ||| run.step is AttachCgroup
            ||| run.step is StopTimeoutWatch
            ||| run.step is ProbeTimeoutMarker
            ||| run.step is Finished
            ||| run.step is Failed
        },
        run.after(Outcome::Failed) is None <==> {
            ||| run.step is AttachCgroup
            ||| run.step is StartClock
            ||| run.step is StartTimeoutWatch
            ||| run.step is CollectCgroup
            ||| run.step is ProbeTimeoutMarker
            ||| run.step is ReadClock
            ||| run.step is Finished
            ||| run.step is Failed
        },
{
}

/// How long a child may take to stop, and a profiler to release it, in whole seconds:
/// one, and thirty.
pub proof fn law_handshake_deadlines(seconds: nat)
    ensures
        seconds * 1_000_000_000 < STOP_TIMEOUT_NS <==> seconds < 1,
        seconds * 1_000_000_000 <= STOP_TIMEOUT_NS <==> seconds <= 1,
        seconds * 1_000_000_000 < RELEASE_TIMEOUT_NS <==> seconds < 30,
        seconds * 1_000_000_000 <= RELEASE_TIMEOUT_NS <==> seconds <= 30,
{
}

/// A child that exits in time is reported with its code and gives the harness that
/// code; one that a signal terminates is reported with the signal and gives the
/// harness 128 and the signal; and zero alone is reported as `ok`. One that ended in
/// neither way is unknown, and gives the harness no code.
pub proof fn law_the_ending_is_reported(code: i32, dumped: bool, signal: i32)
    requires
        0 <= code <= 255,
        1 <= signal <= 126,
    ensures
        ({
            let exited = (code * 256) as i32;
            let terminated = (if dumped {
                signal + 128
            } else {
                signal as int
            }) as i32;
            &&& exit_code_of(exited, false) == Some(code as int)
            &&& code == 0 ==> status_text(exited, false) == "ok"@
            &&& code > 0 ==> status_text(exited, false) == "exit("@ + decimal(code as nat) + ")"@
            &&& exit_code_of(terminated, false) == Some(128 + signal)
            &&& status_text(terminated, false) == "signal("@ + decimal(signal as nat) + ")"@
            &&& exit_code_of(exited, true) == Some(124int)
            &&& exit_code_of(terminated, true) == Some(124int)
            &&& status_text(exited, true) == "timeout"@
            &&& status_text(terminated, true) == "timeout"@
            &&& exit_code_of((code * 256 + 127) as i32, false) is None
            &&& status_text((code * 256 + 127) as i32, false) == "unknown"@
        }),
{
    law_wait_status_is_read_back(code, false, 0, 0);
    law_wait_status_is_read_back(code, false, 127, 0);
    law_wait_status_is_read_back(0, dumped, signal, 0);
}

/// What the arguments ask for is what a run that finishes has done, and nothing else:
/// the handshake where the child is to be announced; samples where an interval is given
/// or a file for them, every ten milliseconds unless the interval says otherwise; a
/// watch where a timeout is given, for as many seconds; and a look for the marker only
/// where one is given.
pub proof fn law_arguments_are_followed(args: Args, plan: RunPlan, outcomes: Seq<Outcome>)
    requires
        plan.follows(args),
        reached(plan, outcomes) is Some,
        (reached(plan, outcomes)->0).step is Finished,
    ensures
        took(plan, outcomes, Step::AwaitChildStop) <==> args.announce_child_pid_file is Some,
        took(plan, outcomes, Step::AnnounceChildPid) <==> args.announce_child_pid_file is Some,
        took(plan, outcomes, Step::AwaitProfilerRelease) <==> args.announce_child_pid_file is Some,
        took(plan, outcomes, Step::StartSampler) <==> args.sample_proc_status_ms is Some
            || args.sample_proc_status_out is Some,
        took(plan, outcomes, Step::FinishSampler) <==> args.sample_proc_status_ms is Some
            || args.sample_proc_status_out is Some,
        took(plan, outcomes, Step::StartTimeoutWatch) <==> args.child_timeout_seconds is Some,
        took(plan, outcomes, Step::StopTimeoutWatch) <==> args.child_timeout_seconds is Some,
        took(plan, outcomes, Step::ProbeTimeoutMarker) ==> args.timeout_marker_file is Some,
        args.timeout_marker_file is Some && args.child_timeout_seconds is None ==> took(
            plan,
            outcomes,
            Step::ProbeTimeoutMarker,
        ),
        args.sample_proc_status_ms matches Some(ms) ==> plan.sampler_interval_ms == Some(ms),
        args.sample_proc_status_ms is None && plan.sampler_interval_ms is Some
            ==> plan.sampler_interval_ms->0 == 10,
        args.child_timeout_seconds matches Some(seconds) ==> plan.timeout_seconds == Some(seconds),
{
    law_a_run_does_only_what_was_asked_for(plan, outcomes);
    law_a_run_does_all_that_was_asked_for(plan, outcomes);
    if args.child_timeout_seconds is None {
        assert forall|i: int| !#[trigger] stood_at(
            plan,
            outcomes,
            i,
            Step::StopTimeoutWatch,
        ) by {
            if stood_at(plan, outcomes, i, Step::StopTimeoutWatch) {
                assert(took(plan, outcomes, Step::StopTimeoutWatch));
            }
        }
    }
}

} // verus!
