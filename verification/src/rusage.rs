//! How a child ended and what it used.
use vstd::prelude::*;

verus! {

/// The status that waiting for a process gives, as the kernel encodes it.
#[derive(Copy, Clone, Debug, PartialEq, Eq, Structural)]
pub struct ExitStatus {
    pub raw: i32,
}

/// The exit code in a wait status: its second byte, where the lowest seven bits are
/// zero.
pub open spec fn code_of(raw: i32) -> Option<i32> {
    if raw & 0x7f == 0 {
        Some((raw >> 8) & 0xff)
    } else {
        None
    }
}

/// The terminating signal in a wait status: its lowest seven bits, where they are
/// neither all zero nor all one.
pub open spec fn signal_of(raw: i32) -> Option<i32> {
    if raw & 0x7f == 0 || raw & 0x7f == 0x7f {
        None
    } else {
        Some(raw & 0x7f)
    }
}

impl ExitStatus {
    /// Whether the process exited with code zero.
    pub fn success(&self) -> (r: bool)
        ensures
            r == (self.raw == 0),
    {
        self.raw == 0
    }

    /// The code that the process exited with, if it exited.
    pub fn code(&self) -> (code: Option<i32>)
        ensures
            code == code_of(self.raw),
    {
        if self.raw & 0x7f == 0 {
            Some((self.raw >> 8) & 0xff)
        } else {
            None
        }
    }

    /// The signal that terminated the process, if one did.
    pub fn signal(&self) -> (signal: Option<i32>)
        ensures
            signal == signal_of(self.raw),
    {
        let low: i32 = self.raw & 0x7f;
        if low == 0 || low == 0x7f {
            None
        } else {
            Some(low)
        }
    }
}

/// A process either exited, with a code of one byte, or was terminated by a signal
/// below 127, or neither; success is an exit with code zero.
pub proof fn law_exit_or_signal(raw: i32)
    ensures
        !(code_of(raw) is Some && signal_of(raw) is Some),
        code_of(raw) matches Some(code) ==> 0 <= code <= 255,
        signal_of(raw) matches Some(signal) ==> 1 <= signal <= 126,
        raw == 0 ==> code_of(raw) == Some(0i32),
{
    assert(0 <= raw & 0x7f <= 0x7f) by (bit_vector);
    assert(0 <= (raw >> 8) & 0xff <= 0xff) by (bit_vector);
    assert(raw == 0 ==> raw & 0x7f == 0 && (raw >> 8) & 0xff == 0) by (bit_vector);
}

/// CPU time in seconds and microseconds.
#[derive(Copy, Clone, Debug, PartialEq, Eq, Structural)]
pub struct CpuTime {
    pub seconds: i64,
    pub micros: i64,
}

/// What the kernel accounted to a process.
#[derive(Copy, Clone, Debug, PartialEq, Eq, Structural)]
pub struct Usage {
    pub max_rss_kb: i64,
    pub user_cpu: CpuTime,
    pub system_cpu: CpuTime,
    pub minor_faults: i64,
    pub major_faults: i64,
    pub voluntary_ctx_switches: i64,
    pub involuntary_ctx_switches: i64,
}

/// How a child ended and what it used.
#[derive(Copy, Clone, Debug, PartialEq, Eq, Structural)]
pub struct WaitOutcome {
    pub status: ExitStatus,
    pub usage: Usage,
}

/// A wait status is made of a code, a mark for a core dump, and a number: the code was
/// exited with where the number is zero, and the number is that of the terminating
/// signal where it is from one to 126. Nothing else in a wait status counts.
pub proof fn law_wait_status_is_read_back(code: i32, dumped: bool, number: i32, raw: i32)
    requires
        0 <= code <= 255,
        0 <= number <= 127,
    ensures
        ({
            let status = code * 256 + (if dumped {
                128int
            } else {
                0int
            }) + number;
            &&& number == 0 ==> code_of(status as i32) == Some(code)
            &&& number != 0 ==> code_of(status as i32) is None
            &&& 1 <= number <= 126 ==> signal_of(status as i32) == Some(number)
            &&& number == 0 || number == 127 ==> signal_of(status as i32) is None
        }),
        code_of(raw) == code_of(raw & 0xffff),
        signal_of(raw) == signal_of(raw & 0xffff),
{
    let mark: i32 = if dumped {
        128
    } else {
        0
    };
    let status = (code * 256 + mark + number) as i32;
    assert(status & 0x7f == number && (status >> 8) & 0xff == code) by (bit_vector)
        requires
            0 <= code <= 255,
            0 <= number <= 127,
            mark == 0 || mark == 128,
            status == code * 256 + mark + number,
    ;
    assert((raw & 0xffff) & 0x7f == raw & 0x7f) by (bit_vector);
    assert(((raw & 0xffff) >> 8) & 0xff == (raw >> 8) & 0xff) by (bit_vector);
}

} // verus!
