//! The watch that ends a child at its deadline.
use vstd::prelude::*;

verus! {

/// What a timeout watch goes on to.
#[derive(Copy, Clone, Debug, PartialEq, Eq, Structural)]
pub enum WatchStep {
    /// The watch was called off: leave the child alone.
    Leave,
    /// Look again after this many milliseconds.
    Again(u64),
    /// The deadline has passed: kill the child.
    Kill,
}

/// What a watch goes on to, `elapsed_ns` after the child was let run.
pub open spec fn step_at(elapsed_ns: u128, timeout_ns: u128, cancelled: bool) -> WatchStep {
    if cancelled {
        WatchStep::Leave
    } else if elapsed_ns < timeout_ns {
        WatchStep::Again(10)
    } else {
        WatchStep::Kill
    }
}

/// What a watch goes on to, `elapsed_ns` after the child was let run.
pub fn watch_step(elapsed_ns: u128, timeout_ns: u128, cancelled: bool) -> (step: WatchStep)
    ensures
        step == step_at(elapsed_ns, timeout_ns, cancelled),
{
    if cancelled {
        WatchStep::Leave
    } else if elapsed_ns < timeout_ns {
        WatchStep::Again(10)
    } else {
        WatchStep::Kill
    }
}

/// What came of killing the child.
#[derive(Debug)]
pub enum Kill {
    /// The signal was sent.
    Sent,
    /// There is no such process any more.
    NoSuchProcess,
    /// The signal could not be sent, for the reason given.
    Failed(String),
}

/// Whether `noted` is what is made of killing the child: an error, with its reason,
/// where the signal could not be sent, and nothing else.
pub open spec fn kill_noted(kill: Kill, noted: Result<(), String>) -> bool {
    match kill {
        Kill::Failed(cause) => {
            &&& noted matches Err(message)
            &&& message@ == "failed to kill timed out child: "@ + cause@
        },
        _ => noted is Ok,
    }
}

/// Whether killing the child makes the run a timed-out one. A child that is gone at
/// its deadline counts as timed out; a signal that could not be sent is an error.
pub fn kill_outcome(kill: Kill) -> (triggered: Result<(), String>)
    ensures
        match kill {
            Kill::Failed(cause) => {
                &&& triggered matches Err(message)
                &&& message@ == "failed to kill timed out child: "@ + cause@
            },
            _ => triggered is Ok,
        },
        kill_noted(kill, triggered),
{
    match kill {
        Kill::Failed(cause) => {
            let mut message = String::from_str("failed to kill timed out child: ");
            message.append(cause.as_str());
            Err(message)
        },
        _ => Ok(()),
    }
}

/// How far a watch has come.
#[derive(Copy, Clone, Debug, PartialEq, Eq, Structural)]
pub enum WatchState {
    /// It looks at the clock.
    Watching,
    /// It has chosen to kill the child.
    Killing,
    /// It was called off and has left the child alone.
    Left,
    /// It has ended the child: the run timed out.
    Triggered,
    /// It could not kill the child.
    Failed,
}

/// The watch over one child.
#[derive(Copy, Clone, Debug, PartialEq, Eq, Structural)]
pub struct TimeoutWatch {
    pub timeout_ns: u128,
    pub state: WatchState,
}

/// What happens to a watch.
pub enum WatchEvent {
    /// It looks, this long after the child was let run, called off or not.
    Look { elapsed_ns: u128, cancelled: bool },
    /// It has tried to kill the child.
    Killed(Kill),
}

impl TimeoutWatch {
    /// A watch that has not looked yet.
    pub open spec fn beginning(seconds: u64) -> TimeoutWatch {
        TimeoutWatch {
            timeout_ns: (seconds * 1_000_000_000) as u128,
            state: WatchState::Watching,
        }
    }

    /// What this watch comes to with `event`, if that can happen to it: it looks
    /// only while it watches, and kills only once it has chosen to.
    pub open spec fn after(self, event: WatchEvent) -> Option<TimeoutWatch> {
        match (self.state, event) {
            (WatchState::Watching, WatchEvent::Look { elapsed_ns, cancelled }) => {
                let state = match step_at(elapsed_ns, self.timeout_ns, cancelled) {
                    WatchStep::Leave => WatchState::Left,
                    WatchStep::Again(_) => WatchState::Watching,
                    WatchStep::Kill => WatchState::Killing,
                };
                Some(TimeoutWatch { state, ..self })
            },
            (WatchState::Killing, WatchEvent::Killed(kill)) => {
                let state = if kill is Failed {
                    WatchState::Failed
                } else {
                    WatchState::Triggered
                };
                Some(TimeoutWatch { state, ..self })
            },
            _ => None,
        }
    }

    /// Whether the child timed out, once the watch is over and did not fail.
    pub open spec fn answer_of(self) -> Option<bool> {
        match self.state {
            WatchState::Left => Some(false),
            WatchState::Triggered => Some(true),
            _ => None,
        }
    }

    /// A watch over a child that may run for this many seconds.
    pub fn start(seconds: u64) -> (watch: TimeoutWatch)
        ensures
            watch == TimeoutWatch::beginning(seconds),
            watch.timeout_ns == seconds * 1_000_000_000,
    {
        TimeoutWatch {
            timeout_ns: seconds as u128 * 1_000_000_000,
            state: WatchState::Watching,
        }
    }

    /// Looks at the clock; `None` if the watch does not watch any more.
    pub fn look(&mut self, elapsed_ns: u128, cancelled: bool) -> (step: Option<WatchStep>)
        ensures
            match old(self).after(WatchEvent::Look { elapsed_ns, cancelled }) {
                Some(next) => {
                    &&& *final(self) == next
                    &&& step == Some(step_at(elapsed_ns, old(self).timeout_ns, cancelled))
                },
                None => *final(self) == *old(self) && step is None,
            },
    {
        match self.state {
            WatchState::Watching => {},
            _ => {
                return None;
            },
        }
        let step = watch_step(elapsed_ns, self.timeout_ns, cancelled);
        self.state = match step {
            WatchStep::Leave => WatchState::Left,
            WatchStep::Again(_) => WatchState::Watching,
            WatchStep::Kill => WatchState::Killing,
        };
        Some(step)
    }

    /// Takes note of what came of killing the child; `None` if the watch had not
    /// chosen to.
    pub fn killed(&mut self, kill: Kill) -> (noted: Option<Result<(), String>>)
        ensures
            match old(self).after(WatchEvent::Killed(kill)) {
                Some(next) => {
                    &&& *final(self) == next
                    &&& noted is Some && kill_noted(kill, noted->0)
                    &&& match kill {
                        Kill::Failed(cause) => {
                            &&& noted matches Some(Err(message))
                            &&& message@ == "failed to kill timed out child: "@ + cause@
                        },
                        _ => noted matches Some(Ok(_)),
                    }
                },
                None => *final(self) == *old(self) && noted is None,
            },
    {
        match self.state {
            WatchState::Killing => {},
            _ => {
                return None;
            },
        }
        let outcome = kill_outcome(kill);
        self.state = match &outcome {
            Ok(_) => WatchState::Triggered,
            Err(_) => WatchState::Failed,
        };
        Some(outcome)
    }

    /// Whether the child timed out, once the watch is over and did not fail.
    pub fn answer(&self) -> (triggered: Option<bool>)
        ensures
            triggered == self.answer_of(),
    {
        match self.state {
            WatchState::Left => Some(false),
            WatchState::Triggered => Some(true),
            _ => None,
        }
    }
}

/// Where a watch over a child that may run for `seconds` stands after `events`, if
/// all of them can happen to it.
pub open spec fn watch_reached(seconds: u64, events: Seq<WatchEvent>) -> Option<TimeoutWatch>
    decreases events.len(),
{
    if events.len() == 0 {
        Some(TimeoutWatch::beginning(seconds))
    } else {
        match watch_reached(seconds, events.drop_last()) {
            Some(watch) => watch.after(events.last()),
            None => None,
        }
    }
}

/// Whether a watch over a child that may run for `seconds` chose to kill it at the
/// event at `i`.
pub open spec fn kill_chosen_at(seconds: u64, events: Seq<WatchEvent>, i: int) -> bool {
    &&& 0 <= i < events.len()
    &&& events[i] matches WatchEvent::Look { elapsed_ns, cancelled }
    &&& step_at(elapsed_ns, TimeoutWatch::beginning(seconds).timeout_ns, cancelled) is Kill
}

/// Whether a watch was called off at the event at `i`.
pub open spec fn left_at(events: Seq<WatchEvent>, i: int) -> bool {
    &&& 0 <= i < events.len()
    &&& events[i] matches WatchEvent::Look { cancelled, .. }
    &&& cancelled
}

/// A watch keeps its deadline, and has chosen to kill the child exactly if it is on
/// the way to doing so, has done it or failed to.
proof fn lemma_watch_reached(seconds: u64, events: Seq<WatchEvent>)
    ensures
        watch_reached(seconds, events) matches Some(watch) ==> {
            let n = events.len() as int;
            &&& watch.timeout_ns == TimeoutWatch::beginning(seconds).timeout_ns
            &&& watch.state is Watching ==> forall|i: int|
                0 <= i < n ==> !#[trigger] kill_chosen_at(seconds, events, i)
            &&& watch.state is Left ==> left_at(events, n - 1) && forall|i: int|
                0 <= i < n ==> !#[trigger] kill_chosen_at(seconds, events, i)
            &&& watch.state is Killing ==> forall|i: int|
                0 <= i < n ==> (#[trigger] kill_chosen_at(seconds, events, i) <==> i == n - 1)
            &&& watch.state is Triggered || watch.state is Failed ==> {
                &&& n >= 2
                &&& events[n - 1] is Killed
                &&& watch.state is Failed <==> events[n - 1]->Killed_0 is Failed
                &&& forall|i: int|
                    0 <= i < n ==> (#[trigger] kill_chosen_at(seconds, events, i) <==> i == n - 2)
            }
            &&& !(watch.state is Left) ==> forall|i: int|
                0 <= i < n ==> !#[trigger] left_at(events, i)
            &&& watch.state is Left ==> forall|i: int|
                0 <= i < n ==> (#[trigger] left_at(events, i) <==> i == n - 1)
            &&& watch.state is Watching || watch.state is Left || watch.state is Killing
                ==> forall|i: int| 0 <= i < n ==> !((#[trigger] events[i]) is Killed)
            &&& watch.state is Triggered || watch.state is Failed ==> forall|i: int|
                0 <= i < n ==> ((#[trigger] events[i]) is Killed <==> i == n - 1)
        },
    decreases events.len(),
{
    if events.len() > 0 {
        let earlier = events.drop_last();
        lemma_watch_reached(seconds, earlier);
        assert forall|i: int| 0 <= i < earlier.len() implies (#[trigger] kill_chosen_at(
            seconds,
            events,
            i,
        ) <==> kill_chosen_at(seconds, earlier, i)) by {}
        assert forall|i: int| 0 <= i < earlier.len() implies (#[trigger] left_at(events, i)
            <==> left_at(earlier, i)) by {}
        assert forall|i: int| 0 <= i < earlier.len() implies #[trigger] events[i]
            == earlier[i] by {}
    }
}

/// A watch chooses to kill its child at most once, kills it at most once, and after
/// that choice does nothing but the kill; once it was called off it does nothing.
pub proof fn law_watch_kills_at_most_once(seconds: u64, events: Seq<WatchEvent>)
    requires
        watch_reached(seconds, events) is Some,
    ensures
        forall|i: int, j: int|
            #[trigger] kill_chosen_at(seconds, events, i) && #[trigger] kill_chosen_at(
                seconds,
                events,
                j,
            ) ==> i == j,
        forall|i: int, j: int|
            0 <= i < events.len() && 0 <= j < events.len() && (#[trigger] events[i]) is Killed && (
            #[trigger] events[j]) is Killed ==> i == j,
        forall|i: int|
            #[trigger] kill_chosen_at(seconds, events, i) ==> {
                ||| i == events.len() - 1
                ||| i == events.len() - 2 && events[i + 1] is Killed
            },
        forall|i: int| #[trigger] left_at(events, i) ==> i == events.len() - 1,
        forall|i: int, j: int|
            !(#[trigger] kill_chosen_at(seconds, events, i) && #[trigger] left_at(events, j)),
{
    lemma_watch_reached(seconds, events);
}

/// A watch kills its child only once the child has run for as long as it may, and
/// only while it is not called off; and it does not look past that without choosing
/// to kill.
pub proof fn law_watch_kills_at_the_deadline(watch: TimeoutWatch, elapsed_ns: u128, cancelled: bool)
    requires
        watch.state is Watching,
    ensures
        ({
            let next = watch.after(WatchEvent::Look { elapsed_ns, cancelled })->0;
            &&& next.state is Killing <==> elapsed_ns >= watch.timeout_ns && !cancelled
            &&& next.state is Left <==> cancelled
        }),
{
}

/// A watch that chose to kill its child and did, or found it gone, is over and
/// answers that the child timed out; one that was called off answers that it did
/// not.
pub proof fn law_a_kill_is_a_timeout(seconds: u64, events: Seq<WatchEvent>)
    requires
        watch_reached(seconds, events) is Some,
    ensures
        ({
            let watch = watch_reached(seconds, events)->0;
            &&& watch.answer_of() == Some(true) <==> exists|i: int|
                {
                    &&& 0 <= i < events.len()
                    &&& (#[trigger] events[i]) matches WatchEvent::Killed(kill)
                    &&& kill !is Failed
                }
            &&& watch.answer_of() == Some(false) <==> exists|i: int| #[trigger] left_at(events, i)
            &&& watch.answer_of() is Some ==> forall|event: WatchEvent|
                (#[trigger] watch.after(event)) is None
        }),
{
    lemma_watch_reached(seconds, events);
    let watch = watch_reached(seconds, events)->0;
    let n = events.len() as int;
    if watch.state is Triggered {
        assert(events[n - 1] is Killed);
    }
    if watch.state is Left {
        assert(left_at(events, n - 1));
    }
}

/// A watch that goes on looks again after ten milliseconds; it is called off exactly if
/// it is told to be, and kills exactly if it is not and the time is up.
pub proof fn law_watch_looks_every_ten_milliseconds(
    elapsed_ns: u128,
    timeout_ns: u128,
    cancelled: bool,
)
    ensures
        ({
            let step = step_at(elapsed_ns, timeout_ns, cancelled);
            &&& step is Leave <==> cancelled
            &&& step is Kill <==> !cancelled && timeout_ns <= elapsed_ns
            &&& step matches WatchStep::Again(ms) ==> ms == 10
        }),
{
}

proof fn lemma_watch_before(seconds: u64, events: Seq<WatchEvent>, i: int)
    requires
        watch_reached(seconds, events) is Some,
        0 <= i < events.len(),
    ensures
        watch_reached(seconds, events.take(i)) is Some,
        watch_reached(seconds, events.take(i + 1)) == (watch_reached(
            seconds,
            events.take(i),
        )->0).after(events[i]),
        watch_reached(seconds, events.take(i + 1)) is Some,
        (watch_reached(seconds, events.take(i))->0).timeout_ns == seconds * 1_000_000_000,
    decreases events.len(),
{
    let n = events.len() - 1;
    if i < n {
        assert(events.drop_last().take(i) == events.take(i));
        assert(events.drop_last().take(i + 1) == events.take(i + 1));
        lemma_watch_before(seconds, events.drop_last(), i);
    } else {
        assert(events.take(i) == events.drop_last());
        assert(events.take(i + 1) == events);
        lemma_watch_reached(seconds, events.take(i));
    }
}

/// A child is killed only after a look that found it had run for as many seconds as it
/// may, with the watch not called off.
pub proof fn law_no_child_is_killed_early(seconds: u64, events: Seq<WatchEvent>, i: int)
    requires
        watch_reached(seconds, events) is Some,
        0 <= i < events.len(),
        events[i] is Killed,
    ensures
        i > 0,
        events[i - 1] matches WatchEvent::Look { elapsed_ns, cancelled } && !cancelled && elapsed_ns
            >= seconds * 1_000_000_000,
{
    lemma_watch_before(seconds, events, i);
    if i > 0 {
        lemma_watch_before(seconds, events, i - 1);
    } else {
        assert(events.take(0) == Seq::<WatchEvent>::empty());
    }
}

/// A child that runs past its deadline is killed in time: where a look comes no later
/// than the pause that the look before it asked for, and some delay, the first look
/// that finds the time up chooses to kill, no later than ten milliseconds and that
/// delay after the deadline.
pub proof fn law_the_kill_comes_in_time(
    seconds: u64,
    events: Seq<WatchEvent>,
    i: int,
    earlier_ns: u128,
    now_ns: u128,
    delay_ns: nat,
)
    requires
        watch_reached(seconds, events) is Some,
        0 <= i < events.len() - 1,
        events[i] == (WatchEvent::Look { elapsed_ns: earlier_ns, cancelled: false }),
        events[i + 1] == (WatchEvent::Look { elapsed_ns: now_ns, cancelled: false }),
        step_at(
            earlier_ns,
            (watch_reached(seconds, events.take(i))->0).timeout_ns,
            false,
        ) matches WatchStep::Again(ms) && now_ns <= earlier_ns + ms * 1_000_000 + delay_ns,
    ensures
        ({
            let deadline_ns = seconds * 1_000_000_000;
            &&& earlier_ns < deadline_ns
            &&& now_ns < deadline_ns + 10_000_000 + delay_ns
            &&& deadline_ns <= now_ns <==> (watch_reached(
                seconds,
                events.take(i + 2),
            )->0).state is Killing
        }),
{
    lemma_watch_before(seconds, events, i);
    lemma_watch_before(seconds, events, i + 1);
}

/// Killing the child fails exactly if the signal could not be sent, and then says why;
/// and it is exactly then that the watch has no answer.
pub proof fn law_only_an_unsent_signal_is_an_error(
    watch: TimeoutWatch,
    kill: Kill,
    noted: Result<(), String>,
)
    requires
        watch.state is Killing,
        kill_noted(kill, noted),
    ensures
        noted is Err <==> kill is Failed,
        noted is Ok <==> (watch.after(WatchEvent::Killed(kill))->0).answer_of() == Some(true),
        noted is Err <==> (watch.after(WatchEvent::Killed(kill))->0).answer_of() is None,
        noted matches Err(message) ==> (kill->Failed_0)@.is_suffix_of(message@),
{
    if let Kill::Failed(cause) = kill {
        let message = "failed to kill timed out child: "@ + cause@;
        assert(message.subrange(message.len() - cause@.len(), message.len() as int) == cause@);
    }
}

} // verus!
