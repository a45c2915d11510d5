//! The system calls: what a thread can ask of the kernel.
//!
//! Every handler answers with a number for the caller and a
//! [`ControlFlow`](crate::executor::ControlFlow) for the scheduler.

use vstd::prelude::*;
use crate::executor::ThreadRef;
use crate::syscall::process::{report_code, reported_exit_code};

pub mod fs;
pub mod process;

verus! {

/// The number of the system call `read`.
pub const SYS_READ: usize = 63;

/// The number of the system call `write`.
pub const SYS_WRITE: usize = 64;

/// The number of the system call `exit`.
pub const SYS_EXIT: usize = 93;

/// The number of the system call `sched_yield`.
pub const SYS_SCHED_YIELD: usize = 124;

/// The number of the system call `fork`.
pub const SYS_FORK: usize = 220;

/// The number of the system call `exec`.
pub const SYS_EXEC: usize = 221;

/// The number of the system call `waitpid`.
pub const SYS_WAITPID: usize = 260;

/// A system call as a thread asks for it: which call, with its arguments
/// in their own types.
#[derive(Clone, Copy, PartialEq, Eq, Debug, Structural)]
pub enum Call {
    /// Read from the file `fd` into the `length` bytes at `buffer`.
    Read { fd: usize, buffer: usize, length: usize },
    /// Write the `length` bytes at `buffer` to the file `fd`.
    Write { fd: usize, buffer: usize, length: usize },
    /// Exit with `exit_code`.
    Exit { exit_code: i32 },
    /// Give up the turn.
    SchedYield,
    /// Fork the process.
    Fork,
    /// Replace the program by the one whose name stands at `path`.
    Exec { path: usize },
    /// Wait for the child `pid` and store its exit code at
    /// `exit_code_ptr`.
    WaitPid { pid: isize, exit_code_ptr: usize },
    /// No system call has the number `number`.
    Unsupported { number: usize },
}

/// The machine word `word` read as a signed number.
pub open spec fn signed_word(word: usize) -> isize {
    if word <= isize::MAX {
        word as isize
    } else {
        (word - usize::MAX - 1) as isize
    }
}

/// The system call that the number `number` and the argument registers
/// `arguments` stand for.
pub open spec fn decoded(number: usize, arguments: Seq<usize>) -> Call {
    if number == SYS_READ {
        Call::Read { fd: arguments[0], buffer: arguments[1], length: arguments[2] }
    } else if number == SYS_WRITE {
        Call::Write { fd: arguments[0], buffer: arguments[1], length: arguments[2] }
    } else if number == SYS_EXIT {
        Call::Exit { exit_code: reported_exit_code(arguments[0]) }
    } else if number == SYS_SCHED_YIELD {
        Call::SchedYield
    } else if number == SYS_FORK {
        Call::Fork
    } else if number == SYS_EXEC {
        Call::Exec { path: arguments[0] }
    } else if number == SYS_WAITPID {
        Call::WaitPid { pid: signed_word(arguments[0]), exit_code_ptr: arguments[1] }
    } else {
        Call::Unsupported { number }
    }
}

/// Reads a machine word as a signed number.
fn as_signed(word: usize) -> (signed: isize)
    ensures
        signed == signed_word(word),
{
    if word <= isize::MAX as usize {
        word as isize
    } else {
        -((usize::MAX - word) as isize) - 1
    }
}

/// Tells which system call a thread asks for, from the call number and the
/// first three argument registers of its trap context. Every number stands
/// for exactly one call; a number that no call has stands for
/// `Unsupported`. A signed argument is the register read as a signed
/// number; the exit code is its low 32 bits.
pub fn decode(number: usize, arguments: [usize; 3]) -> (call: Call)
    ensures
        call == decoded(number, arguments@),
{
    match number {
        SYS_READ => Call::Read { fd: arguments[0], buffer: arguments[1], length: arguments[2] },
        SYS_WRITE => Call::Write { fd: arguments[0], buffer: arguments[1], length: arguments[2] },
        SYS_EXIT => Call::Exit { exit_code: report_code(arguments[0]) },
        SYS_SCHED_YIELD => Call::SchedYield,
        SYS_FORK => Call::Fork,
        SYS_EXEC => Call::Exec { path: arguments[0] },
        SYS_WAITPID => Call::WaitPid { pid: as_signed(arguments[0]), exit_code_ptr: arguments[1] },
        _ => Call::Unsupported { number },
    }
}

/// A system call in progress: it knows the thread that made it.
pub struct SystemCall {
    thread: ThreadRef,
}

impl View for SystemCall {
    type V = ThreadRef;

    /// The calling thread.
    closed spec fn view(&self) -> ThreadRef {
        self.thread
    }
}

impl SystemCall {
    /// A system call made by `thread`.
    pub fn new(thread: ThreadRef) -> (call: SystemCall)
        ensures
            call@ == thread,
    {
        SystemCall { thread }
    }

    /// The calling thread.
    pub fn thread(&self) -> (thread: ThreadRef)
        ensures
            thread == self@,
    {
        self.thread
    }
}

} // verus!
