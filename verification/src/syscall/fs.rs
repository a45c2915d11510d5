//! The system calls that read and write files. The only files are the
//! console's: descriptor 0 reads from it, descriptor 1 writes to it.

use vstd::prelude::*;
use crate::console::{Console, ConsoleRead};
use crate::executor::{ControlFlow, ThreadRef};
use crate::mem::{range_bytes, range_mapped};
use crate::syscall::SystemCall;
use crate::task::manager::TaskManager;
use crate::task::model::{has_read, lemma_read_taken_up, TaskManagerView};
use crate::task::registry::get_process;
use crate::task::id::Pid;

verus! {

/// The file descriptor of the console's input.
pub const STDIN: usize = 0;

/// The file descriptor of the console's output.
pub const STDOUT: usize = 1;

/// What a read in progress asks of its driver next.
#[derive(Clone, Copy, PartialEq, Eq, Debug, Structural)]
pub enum ReadStep {
    /// Ask the console for one byte and hand the answer to
    /// `sys_read_answer`.
    Poll,
    /// Nothing was pending. Give up the turn; when it comes back, poll
    /// again.
    Yield,
    /// The call is over, with this number for the caller and this
    /// directive for the scheduler.
    Done(isize, ControlFlow),
}

/// What a read into `buffer` by `thread` makes of the console's `answer`:
/// the next step, and the state after it. An error ends the read with
/// `-1`. With nothing pending the thread begins to wait for the console. A
/// byte that was brought is stored at `buffer` in the memory of the
/// thread's process, and the read ends with `1`, or with `-1` where the
/// buffer is not mapped.
pub open spec fn read_answered(
    manager: TaskManagerView,
    thread: ThreadRef,
    buffer: usize,
    answer: ConsoleRead,
) -> (ReadStep, TaskManagerView) {
    if answer.failed() {
        (ReadStep::Done(-1isize, ControlFlow::Continue), manager)
    } else if answer.pending() {
        (ReadStep::Yield, manager.with_read(thread, buffer))
    } else if manager.registry[thread.pid].state.memory.contains_key(buffer) {
        (ReadStep::Done(1, ControlFlow::Continue), manager.stored(thread.pid, buffer, answer.byte))
    } else {
        (ReadStep::Done(-1isize, ControlFlow::Continue), manager)
    }
}

impl SystemCall {
    /// Starts a read of one byte from the file `fd`.
    ///
    /// Only the console's input can be read: for `STDIN` the next step is
    /// to poll the console; for any other descriptor the call is over at
    /// once with `-1`. The length is not looked at: a read takes one byte.
    pub fn sys_read(&self, fd: usize, _buffer: usize, _length: usize) -> (step: ReadStep)
        ensures
            step == (if fd == STDIN {
                ReadStep::Poll
            } else {
                ReadStep::Done(-1isize, ControlFlow::Continue)
            }),
    {
        if fd == STDIN {
            ReadStep::Poll
        } else {
            ReadStep::Done(-1, ControlFlow::Continue)
        }
    }

    /// Goes on with a read from the console, given the console's `answer`
    /// to a request for one byte.
    ///
    /// An answer that reports an error ends the read with `-1`; nothing is
    /// stored. While the console succeeds with nothing pending, the thread
    /// has to yield and poll again: it is noted as waiting for the console
    /// with its buffer, for `TaskManager::take_read` to find when its turn
    /// comes back. An answer that brings a byte ends the
    /// read: the byte is stored at `buffer` in the memory of the calling
    /// thread's process and the call returns `1`, or `-1` with nothing
    /// stored if `buffer` is not mapped there.
    pub fn sys_read_answer(&self, manager: &mut TaskManager, buffer: usize, answer: ConsoleRead) -> (step:
        ReadStep)
        requires
            old(manager).wf(),
            old(manager)@.registry.contains_key(self@.pid),
        ensures
            final(manager).wf(),
            (step, final(manager)@) == read_answered(old(manager)@, self@, buffer, answer),
    {
        if answer.is_failed() {
            return ReadStep::Done(-1, ControlFlow::Continue);
        }
        if answer.is_pending() {
            manager.wait_for_read(self.thread, buffer);
            return ReadStep::Yield;
        }
        if manager.store_byte(self.thread.pid, buffer, answer.byte) {
            ReadStep::Done(1, ControlFlow::Continue)
        } else {
            ReadStep::Done(-1, ControlFlow::Continue)
        }
    }

    /// Writes the `length` bytes at `buffer` in the memory of the calling
    /// thread's process to the file `fd`.
    ///
    /// Only the console's output can be written. For `STDOUT`, with every
    /// byte of the buffer mapped, the bytes go to the console in order and
    /// the answer is `length`. For any other descriptor, and for a buffer
    /// that is not mapped as a whole or is longer than a signed machine
    /// word can count, nothing is written and the answer is `-1`. The
    /// caller goes on in every case.
    pub fn sys_write(
        &self,
        manager: &TaskManager,
        console: &mut Console,
        fd: usize,
        buffer: usize,
        length: usize,
    ) -> (answer: (isize, ControlFlow))
        requires
            manager.wf(),
            manager@.registry.contains_key(self@.pid),
        ensures
            answer.1 == ControlFlow::Continue,
            written(manager@, self@.pid, fd, buffer, length) ==> {
                &&& answer.0 == length
                &&& final(console)@ == old(console)@ + range_bytes(
                    manager@.registry[self@.pid].state.memory,
                    buffer,
                    length,
                )
            },
            !written(manager@, self@.pid, fd, buffer, length) ==> {
                &&& answer.0 == -1
                &&& final(console)@ == old(console)@
            },
    {
        if fd != STDOUT || length > isize::MAX as usize {
            return (-1, ControlFlow::Continue);
        }
        let process = get_process(manager.process_map(), self.thread.pid).unwrap();
        match process.state().page_set().read_bytes(buffer, length) {
            Some(bytes) => {
                console.write_bytes(bytes.as_slice());
                (length as isize, ControlFlow::Continue)
            },
            None => (-1, ControlFlow::Continue),
        }
    }
}

/// A write by the process `pid` of the `length` bytes at `buffer` to the
/// file `fd` goes through: the file is the console's output, and the
/// buffer is mapped as a whole and no longer than a signed machine word
/// can count.
pub open spec fn written(
    manager: TaskManagerView,
    pid: Pid,
    fd: usize,
    buffer: usize,
    length: usize,
) -> bool {
    &&& fd == STDOUT
    &&& length <= isize::MAX
    &&& range_mapped(manager.registry[pid].state.memory, buffer, length)
}

/// The steps of a read into `buffer` by `thread` that gets `answers` from
/// the console, one for each poll, and the state after them. The read
/// takes answers until one ends it; between two polls the thread waits and
/// is taken up again.
pub open spec fn read_steps(
    manager: TaskManagerView,
    thread: ThreadRef,
    buffer: usize,
    answers: Seq<ConsoleRead>,
) -> (Seq<ReadStep>, TaskManagerView)
    decreases answers.len(),
{
    if answers.len() == 0 {
        (Seq::empty(), manager)
    } else {
        let (step, next) = read_answered(manager, thread, buffer, answers[0]);
        if step == ReadStep::Yield && answers.len() > 1 {
            let (rest, last) = read_steps(
                next.without_read(thread),
                thread,
                buffer,
                answers.skip(1),
            );
            (Seq::empty().push(step) + rest, last)
        } else {
            (Seq::empty().push(step), next)
        }
    }
}

/// A read from the console yields once for every poll that finds nothing
/// pending, and ends with the first answer that brings a byte: it stores
/// that byte at the buffer and returns one. Each time it yields, the
/// thread waits for the console with its buffer.
pub proof fn lemma_read_yields_until_byte(
    manager: TaskManagerView,
    thread: ThreadRef,
    buffer: usize,
    answers: Seq<ConsoleRead>,
)
    requires
        manager.registry.contains_key(thread.pid),
        manager.registry[thread.pid].state.memory.contains_key(buffer),
        !has_read(manager.reads, thread),
        answers.len() > 0,
        forall|i: int| 0 <= i < answers.len() - 1 ==> (#[trigger] answers[i]).pending(),
        answers.last().delivered(),
    ensures
        ({
            let (steps, after) = read_steps(manager, thread, buffer, answers);
            &&& steps.len() == answers.len()
            &&& forall|i: int| 0 <= i < steps.len() - 1 ==> #[trigger] steps[i] == ReadStep::Yield
            &&& steps.last() == ReadStep::Done(1isize, ControlFlow::Continue)
            &&& after == manager.stored(thread.pid, buffer, answers.last().byte)
            &&& after.registry[thread.pid].state.memory[buffer] == answers.last().byte
        }),
        forall|i: int|
            0 <= i < answers.len() - 1 ==> read_answered(manager, thread, buffer, #[trigger] answers[i])
                == (ReadStep::Yield, manager.with_read(thread, buffer)),
    decreases answers.len(),
{
    if answers.len() > 1 {
        let rest = answers.skip(1);
        assert(answers[0].pending());
        assert forall|i: int| 0 <= i < rest.len() - 1 implies (#[trigger] rest[i]).pending() by {
            assert(rest[i] == answers[i + 1]);
        }
        assert(rest.last() == answers.last());
        lemma_read_taken_up(manager, thread, buffer);
        lemma_read_yields_until_byte(manager, thread, buffer, rest);
        let (steps, after) = read_steps(manager, thread, buffer, answers);
        let (later, last) = read_steps(manager, thread, buffer, rest);
        assert(steps == Seq::empty().push(ReadStep::Yield) + later);
        assert forall|i: int| 0 <= i < steps.len() - 1 implies #[trigger] steps[i]
            == ReadStep::Yield by {
            if i > 0 {
                assert(steps[i] == later[i - 1]);
            }
        }
        assert(steps.last() == later.last());
    } else {
        assert(answers[0] == answers.last());
    }
}

/// A read reports a byte only for an answer that brought one: for an
/// answer that reports an error the call returns `-1`, and neither an
/// error nor an empty answer changes a process.
pub proof fn lemma_read_reports_delivered_bytes_only(
    manager: TaskManagerView,
    thread: ThreadRef,
    buffer: usize,
    answer: ConsoleRead,
)
    ensures
        read_answered(manager, thread, buffer, answer).0 == ReadStep::Done(
            1isize,
            ControlFlow::Continue,
        ) ==> answer.delivered(),
        answer.failed() ==> read_answered(manager, thread, buffer, answer) == (
            ReadStep::Done(-1isize, ControlFlow::Continue),
            manager,
        ),
        !answer.delivered() ==> read_answered(manager, thread, buffer, answer).1.registry
            == manager.registry,
{
}

} // verus!
