//! The handshake with a profiler that attaches to the stopped child.
use vstd::prelude::*;

use crate::decimal::{decimal, law_decimal_text_is_its_number, unsigned_text};
use crate::render::{lossy_text, shows, text_lossy};
use crate::text::{
    chars_of, first_field, first_field_of, first_word, is_digit, is_space,
    law_fields_follow_their_name, law_lines_end_at_line_ends, law_the_first_word_decides,
    lemma_first_word, lines_of, same_text, word, FileRead,
};

verus! {

/// The state code in the text of a status file: the first word of its first
/// `State:` line.
pub open spec fn state_code_of(proc_status: Seq<char>) -> Option<Seq<char>> {
    match first_field(lines_of(proc_status), "State:"@) {
        Some(state) => first_word(state),
        None => None,
    }
}

/// Whether a state code is that of a stopped process.
pub open spec fn is_stopped_code(code: Option<Seq<char>>) -> bool {
    code == Some("T"@) || code == Some("t"@)
}

/// Whether a state code is that of a process that has exited.
pub open spec fn is_exited_code(code: Option<Seq<char>>) -> bool {
    code == Some("Z"@) || code == Some("X"@) || code == Some("x"@)
}

/// The state code in the text of a status file.
pub fn child_state_code(proc_status: &str) -> (code: Option<&str>)
    ensures
        match code {
            Some(c) => state_code_of(proc_status@) == Some(c@),
            None => state_code_of(proc_status@) is None,
        },
{
    let chars = chars_of(proc_status);
    let text = chars.as_slice();
    match first_field_of(text, "State:") {
        Some(state) => match word(text, state) {
            Some(w) => Some(proc_status.substring_char(w.start, w.end)),
            None => None,
        },
        None => None,
    }
}

/// Whether the text of a status file is that of a stopped process.
pub fn child_is_stopped(proc_status: &str) -> (stopped: bool)
    ensures
        stopped == is_stopped_code(state_code_of(proc_status@)),
{
    match child_state_code(proc_status) {
        Some(code) => same_text(code, "T") || same_text(code, "t"),
        None => false,
    }
}

/// What a file holds that announces process `pid`: its number on a line.
pub open spec fn pid_line_text(pid: u32) -> Seq<char> {
    decimal(pid as nat) + "\n"@
}

/// What a file holds that announces process `pid`.
pub fn pid_line(pid: u32) -> (s: String)
    ensures
        s@ == pid_line_text(pid),
{
    let mut s = unsigned_text(pid as u128);
    s.append("\n");
    s
}

/// What a wait goes on to.
#[derive(Debug)]
pub enum Poll {
    /// What was waited for is there.
    Ready,
    /// Look again after this many milliseconds.
    Again(u64),
    /// It will not come, for the reason given.
    Failed(String),
}

/// Whether `poll` is a failure with the message `text`.
pub open spec fn fails_with(poll: Poll, text: Seq<char>) -> bool {
    poll matches Poll::Failed(message) && message@ == text
}

/// Whether `poll` is what a wait for the child to stop goes on to, `elapsed_ns` into it,
/// after the child's status file was read.
pub open spec fn stop_poll(elapsed_ns: u128, timeout_ns: u128, read: FileRead, poll: Poll) -> bool {
    if elapsed_ns >= timeout_ns {
        fails_with(
            poll,
            "timed out waiting for child to reach stopped state for profiler attach"@,
        )
    } else {
        match read {
            FileRead::Text(proc_status) => {
                let code = state_code_of(proc_status@);
                if is_stopped_code(code) {
                    poll is Ready
                } else if is_exited_code(code) {
                    fails_with(poll, "child exited before profiler attach completed"@)
                } else {
                    poll == Poll::Again(1)
                }
            },
            FileRead::Missing => fails_with(
                poll,
                "child exited before profiler attach completed"@,
            ),
            FileRead::Failed(cause) => fails_with(
                poll,
                "failed to inspect child state for profiler attach: "@ + cause@,
            ),
        }
    }
}

/// Whether `poll` is what the wait for the file by which a profiler releases the child
/// goes on to, `elapsed_ns` into it.
pub open spec fn release_poll(
    elapsed_ns: u128,
    timeout_ns: u128,
    present: bool,
    path: Seq<u8>,
    poll: Poll,
) -> bool {
    if elapsed_ns >= timeout_ns {
        fails_with(poll, "timed out waiting for profiler release file "@ + lossy_text(path))
    } else if present {
        poll is Ready
    } else {
        poll == Poll::Again(2)
    }
}

/// What a wait for the child to stop goes on to, `elapsed_ns` into it, after the
/// child's status file was read.
pub fn wait_for_child_stop(elapsed_ns: u128, timeout_ns: u128, read: &FileRead) -> (poll: Poll)
    ensures
        if elapsed_ns >= timeout_ns {
            fails_with(
                poll,
                "timed out waiting for child to reach stopped state for profiler attach"@,
            )
        } else {
            match read {
                FileRead::Text(proc_status) => {
                    let code = state_code_of(proc_status@);
                    if is_stopped_code(code) {
                        poll is Ready
                    } else if is_exited_code(code) {
                        fails_with(poll, "child exited before profiler attach completed"@)
                    } else {
                        poll == Poll::Again(1)
                    }
                },
                FileRead::Missing => fails_with(
                    poll,
                    "child exited before profiler attach completed"@,
                ),
                FileRead::Failed(cause) => fails_with(
                    poll,
                    "failed to inspect child state for profiler attach: "@ + cause@,
                ),
            }
        },
        stop_poll(elapsed_ns, timeout_ns, *read, poll),
        poll is Ready ==> elapsed_ns < timeout_ns && read is Text,
        poll is Again ==> elapsed_ns < timeout_ns && read is Text && poll->Again_0 == 1,
{
    if elapsed_ns >= timeout_ns {
        return Poll::Failed(
            String::from_str(
                "timed out waiting for child to reach stopped state for profiler attach",
            ),
        );
    }
    match read {
        FileRead::Text(proc_status) => {
            if child_is_stopped(proc_status.as_str()) {
                return Poll::Ready;
            }
            let exited = match child_state_code(proc_status.as_str()) {
                Some(code) => same_text(code, "Z") || same_text(code, "X") || same_text(code, "x"),
                None => false,
            };
            if exited {
                Poll::Failed(String::from_str("child exited before profiler attach completed"))
            } else {
                Poll::Again(1)
            }
        },
        FileRead::Missing => Poll::Failed(
            String::from_str("child exited before profiler attach completed"),
        ),
        FileRead::Failed(cause) => {
            let mut message = String::from_str(
                "failed to inspect child state for profiler attach: ",
            );
            message.append(cause.as_str());
            Poll::Failed(message)
        },
    }
}

/// What the wait for the file at `path` by which a profiler releases the child goes
/// on to, `elapsed_ns` into it.
pub fn wait_for_file(elapsed_ns: u128, timeout_ns: u128, present: bool, path: &[u8]) -> (poll: Poll)
    ensures
        if elapsed_ns >= timeout_ns {
            &&& fails_with(
                poll,
                "timed out waiting for profiler release file "@ + lossy_text(path@),
            )
            &&& shows(lossy_text(path@), path@)
        } else if present {
            poll is Ready
        } else {
            poll == Poll::Again(2)
        },
        release_poll(elapsed_ns, timeout_ns, present, path@, poll),
        poll is Ready <==> present && elapsed_ns < timeout_ns,
        poll is Failed <==> elapsed_ns >= timeout_ns,
        poll is Again ==> poll->Again_0 == 2,
{
    if elapsed_ns >= timeout_ns {
        let mut message = String::from_str("timed out waiting for profiler release file ");
        message.append(text_lossy(path).as_str());
        Poll::Failed(message)
    } else if present {
        Poll::Ready
    } else {
        Poll::Again(2)
    }
}

/// No state code is both that of a stopped process and that of one that has exited.
pub proof fn law_stopped_is_not_exited(code: Option<Seq<char>>)
    ensures
        !(is_stopped_code(code) && is_exited_code(code)),
{
    reveal_strlit("T");
    reveal_strlit("t");
    reveal_strlit("Z");
    reveal_strlit("X");
    reveal_strlit("x");
    assert("T"@[0] == 'T' && "t"@[0] == 't' && "Z"@[0] == 'Z' && "X"@[0] == 'X' && "x"@[0] == 'x');
}

/// The state of a process is the first word after `State:` on the first line that starts
/// so, whatever stands around it; without such a line, or such a word, there is none.
pub proof fn law_state_is_read_back(
    proc_status: Seq<char>,
    before: Seq<Seq<char>>,
    lead: Seq<char>,
    code: Seq<char>,
    trail: Seq<char>,
    after: Seq<Seq<char>>,
)
    requires
        forall|i: int| 0 <= i < before.len() ==> !"State:"@.is_prefix_of(#[trigger] before[i]),
        forall|i: int| 0 <= i < lead.len() ==> is_space(#[trigger] lead[i]),
        code.len() > 0,
        forall|i: int| 0 <= i < code.len() ==> !is_space(#[trigger] code[i]),
        trail.len() > 0 ==> is_space(trail[0]),
    ensures
        lines_of(proc_status) == before.push("State:"@ + (lead + code + trail)) + after
            ==> state_code_of(proc_status) == Some(code),
        lines_of(proc_status) == before.push("State:"@ + lead) + after ==> state_code_of(
            proc_status,
        ) is None,
        lines_of(proc_status) == before ==> state_code_of(proc_status) is None,
{
    law_fields_follow_their_name(before, "State:"@, lead + code + trail, after);
    law_fields_follow_their_name(before, "State:"@, lead, after);
    lemma_first_word(lead, code, trail);
    law_the_first_word_decides(lead, code, trail);
}

/// A process has stopped exactly if its state is `T`, or `t` while it is traced, and has
/// exited exactly if it is `Z`, `X` or `x`; in every other state it is waited for.
pub proof fn law_states_of_the_handshake(code: Seq<char>)
    ensures
        is_stopped_code(Some(code)) <==> code == seq!['T'] || code == seq!['t'],
        is_exited_code(Some(code)) <==> code == seq!['Z'] || code == seq!['X'] || code == seq!['x'],
        !is_stopped_code(None),
        !is_exited_code(None),
{
    reveal_strlit("T");
    reveal_strlit("t");
    reveal_strlit("Z");
    reveal_strlit("X");
    reveal_strlit("x");
    assert("T"@ == seq!['T']);
    assert("t"@ == seq!['t']);
    assert("Z"@ == seq!['Z']);
    assert("X"@ == seq!['X']);
    assert("x"@ == seq!['x']);
}

/// The file that announces a process holds one line, the process number.
pub proof fn law_announcement_is_one_line(pid: u32)
    ensures
        lines_of(pid_line_text(pid)) == seq![decimal(pid as nat)],
        pid_line_text(pid).last() == '\n',
{
    reveal_strlit("\n");
    let digits = decimal(pid as nat);
    law_decimal_text_is_its_number(pid as nat);
    assert forall|c: char| digits.contains(c) implies '0' <= c <= '9' by {
        let i = choose|i: int| 0 <= i < digits.len() && digits[i] == c;
        assert(is_digit(digits[i]));
    }
    if digits.last() == '\r' {
        assert(digits[digits.len() - 1] == '\r');
        assert(digits.contains('\r'));
    }
    law_lines_end_at_line_ends(digits, Seq::empty());
    assert(pid_line_text(pid) == digits + seq!['\n'] + Seq::<char>::empty());
    assert(seq![digits] + Seq::<Seq<char>>::empty() == seq![digits]);
}

/// A wait for the child to stop gives up at its deadline, and before it once the child
/// is gone or cannot be looked at; it is over exactly if the child is seen stopped in
/// time, and otherwise looks again after a millisecond.
pub proof fn law_the_wait_for_the_stop(elapsed_ns: u128, timeout_ns: u128, read: FileRead, poll: Poll)
    requires
        stop_poll(elapsed_ns, timeout_ns, read, poll),
    ensures
        poll is Ready <==> elapsed_ns < timeout_ns && (read matches FileRead::Text(text)
            && is_stopped_code(state_code_of(text@))),
        poll is Failed <==> {
            ||| timeout_ns <= elapsed_ns
            ||| read is Missing
            ||| read is Failed
            ||| read matches FileRead::Text(text) && is_exited_code(state_code_of(text@))
        },
        poll matches Poll::Again(ms) ==> ms == 1,
        elapsed_ns < timeout_ns && read is Failed ==> (poll matches Poll::Failed(message)
            && (read->Failed_0)@.is_suffix_of(message@)),
{
    if let FileRead::Text(text) = read {
        law_stopped_is_not_exited(state_code_of(text@));
    }
    if let FileRead::Failed(cause) = read {
        let lead = "failed to inspect child state for profiler attach: "@;
        let message = lead + cause@;
        assert(message.subrange(message.len() - cause@.len(), message.len() as int) == cause@);
    }
}

/// A wait for the profiler gives up at its deadline, and says for which file; until then
/// it is over exactly if the file is there, and otherwise looks again after two
/// milliseconds.
pub proof fn law_the_wait_for_the_release(
    elapsed_ns: u128,
    timeout_ns: u128,
    present: bool,
    path: Seq<u8>,
    poll: Poll,
)
    requires
        release_poll(elapsed_ns, timeout_ns, present, path, poll),
    ensures
        poll is Ready <==> elapsed_ns < timeout_ns && present,
        poll is Failed <==> timeout_ns <= elapsed_ns,
        poll matches Poll::Again(ms) ==> ms == 2,
        poll matches Poll::Failed(message) ==> lossy_text(path).is_suffix_of(message@),
{
    let lead = "timed out waiting for profiler release file "@;
    let shown = lossy_text(path);
    let message = lead + shown;
    assert(message.subrange(message.len() - shown.len(), message.len() as int) == shown);
}

} // verus!
