//! The system calls that act on processes.

use vstd::prelude::*;
use crate::executor::ControlFlow;
use crate::mem::{range_bytes, range_mapped, zero_ended, Image, ImageError};
use crate::syscall::SystemCall;
use crate::task::id::{has_free_id, Pid};
use crate::task::manager::TaskManager;
use crate::task::model::TaskManagerView;
use crate::task::process::Process;
use crate::task::registry::get_process;

verus! {

/// As the `pid` of `sys_waitpid`: any child will do.
pub const ANY_CHILD: isize = -1;

/// What `sys_waitpid` returns when no child that was asked for has exited.
pub const NOT_READY: isize = -2;

/// The name of a program that `exec` is asked for is shorter than this
/// many bytes.
pub const PATH_LIMIT: usize = 256;

/// The exit code that a process records for the signed code `exit_code`:
/// the same value, read as an unsigned machine word.
pub open spec fn recorded_exit_code(exit_code: i32) -> usize {
    if exit_code >= 0 {
        exit_code as usize
    } else {
        (usize::MAX + 1 + exit_code) as usize
    }
}

/// The signed code that a recorded exit code `exit_code` stands for: its
/// low 32 bits, read as a signed number.
pub open spec fn reported_exit_code(exit_code: usize) -> i32 {
    let low = (exit_code as int) % 0x1_0000_0000int;
    if low < 0x8000_0000int {
        low as i32
    } else {
        (low - 0x1_0000_0000int) as i32
    }
}

/// Byte `index` of the low 32 bits of `exit_code`, the lowest byte first.
pub open spec fn exit_code_byte(exit_code: usize, index: int) -> u8 {
    if index == 0 {
        ((exit_code as int) % 0x100) as u8
    } else if index == 1 {
        ((exit_code as int) / 0x100 % 0x100) as u8
    } else if index == 2 {
        ((exit_code as int) / 0x1_0000 % 0x100) as u8
    } else {
        ((exit_code as int) / 0x100_0000 % 0x100) as u8
    }
}

/// The state after the low 32 bits of `exit_code` were stored in the
/// memory of the process `pid`, in the four bytes from `addr` on, the
/// lowest byte first.
pub open spec fn with_exit_code_at(
    manager: TaskManagerView,
    pid: Pid,
    addr: usize,
    exit_code: usize,
) -> TaskManagerView {
    manager.stored(pid, addr, exit_code_byte(exit_code, 0)).stored(
        pid,
        (addr + 1) as usize,
        exit_code_byte(exit_code, 1),
    ).stored(pid, (addr + 2) as usize, exit_code_byte(exit_code, 2)).stored(
        pid,
        (addr + 3) as usize,
        exit_code_byte(exit_code, 3),
    )
}

/// `child` is a child that `wanted` asks for: `wanted` is `ANY_CHILD` or
/// the identifier of `child`.
pub open spec fn wanted_child(wanted: isize, child: Pid) -> bool {
    wanted == ANY_CHILD || wanted == child
}

/// The first of `children`, from position `start` on, that `wanted` asks
/// for and that is among `zombies`.
pub open spec fn first_zombie_from(
    children: Seq<Pid>,
    zombies: Set<Pid>,
    wanted: isize,
    start: int,
) -> Option<Pid>
    decreases children.len() - start,
{
    if start < 0 || start >= children.len() {
        None
    } else if wanted_child(wanted, children[start]) && zombies.contains(children[start]) {
        Some(children[start])
    } else {
        first_zombie_from(children, zombies, wanted, start + 1)
    }
}

/// The child that `sys_waitpid` reaps for the process `parent` when it is
/// asked for `wanted`: the oldest child that `wanted` asks for and that has
/// exited, if there is one.
pub open spec fn waited_child(manager: TaskManagerView, parent: Pid, wanted: isize) -> Option<Pid> {
    first_zombie_from(
        manager.registry[parent].state.children,
        manager.zombies.dom(),
        wanted,
        0,
    )
}

/// The first zombie that is asked for is one of the children.
pub proof fn lemma_first_zombie_is_child(
    children: Seq<Pid>,
    zombies: Set<Pid>,
    wanted: isize,
    start: int,
)
    requires
        0 <= start,
    ensures
        first_zombie_from(children, zombies, wanted, start) matches Some(child) ==> {
            &&& children.contains(child)
            &&& zombies.contains(child)
            &&& wanted_child(wanted, child)
        },
        first_zombie_from(children, zombies, wanted, start) is None ==> forall|i: int|
            start <= i < children.len() ==> !(wanted_child(wanted, #[trigger] children[i])
                && zombies.contains(children[i])),
    decreases children.len() - start,
{
    if start < children.len() {
        if !(wanted_child(wanted, children[start]) && zombies.contains(children[start])) {
            lemma_first_zombie_is_child(children, zombies, wanted, start + 1);
        }
    }
}

/// An exit code that was recorded for a signed code stands for that code.
pub proof fn lemma_exit_code_round_trip(exit_code: i32)
    ensures
        reported_exit_code(recorded_exit_code(exit_code)) == exit_code,
{
    if exit_code < 0 {
        let recorded = usize::MAX + 1 + exit_code;
        assert(usize::MAX + 1 == 0x1_0000_0000int || usize::MAX + 1
            == 0x1_0000_0000_0000_0000int) by {
            assert(usize::BITS == 32 || usize::BITS == 64);
        }
        if usize::MAX + 1 == 0x1_0000_0000int {
            assert(recorded % 0x1_0000_0000int == 0x1_0000_0000int + exit_code);
        } else {
            assert(recorded == 0xffff_ffffint * 0x1_0000_0000int + (0x1_0000_0000int
                + exit_code));
            assert(recorded % 0x1_0000_0000int == 0x1_0000_0000int + exit_code);
        }
    }
}

/// Reads a signed exit code as an unsigned machine word.
fn record_code(exit_code: i32) -> (recorded: usize)
    ensures
        recorded == recorded_exit_code(exit_code),
{
    if exit_code >= 0 {
        exit_code as usize
    } else {
        usize::MAX - ((-(exit_code + 1)) as usize)
    }
}

/// Reads the low 32 bits of a recorded exit code as a signed number.
pub(crate) fn report_code(exit_code: usize) -> (reported: i32)
    ensures
        reported == reported_exit_code(exit_code),
{
    let low: u64 = (exit_code as u64) % 0x1_0000_0000u64;
    if low < 0x8000_0000u64 {
        low as i32
    } else {
        ((low as i64) - 0x1_0000_0000i64) as i32
    }
}

impl SystemCall {
    /// Exits with `exit_code`: the code is recorded for the process of the
    /// calling thread, and the thread is over. Returns `(0, Break)`.
    pub fn sys_exit(&self, manager: &mut TaskManager, exit_code: i32) -> (answer: (
        isize,
        ControlFlow,
    ))
        requires
            old(manager).wf(),
            old(manager)@.registry.contains_key(self@.pid),
        ensures
            final(manager).wf(),
            answer == (0isize, ControlFlow::Break),
            final(manager)@ == old(manager)@.with_exit_code(
                self@.pid,
                recorded_exit_code(exit_code),
            ),
    {
        manager.record_exit_code(self.thread.pid, record_code(exit_code));
        (0, ControlFlow::Break)
    }

    /// Gives up the turn. Returns `(0, Yield)`, whatever the state; nothing
    /// changes.
    pub fn sys_sched_yield(&self) -> (answer: (isize, ControlFlow))
        ensures
            answer == (0isize, ControlFlow::Yield),
    {
        (0, ControlFlow::Yield)
    }

    /// Forks the process of the calling thread. The parent gets the
    /// identifier of the child and goes on; the child finds zero in its
    /// result register. Where no process identifier is free, nothing
    /// changes and the answer is `-1`.
    ///
    /// The child takes the smallest free identifier. Once the process with
    /// the identifier zero is gone, that is zero: the parent then gets zero
    /// too, and the answer alone does not tell parent from child.
    pub fn sys_fork(&self, manager: &mut TaskManager) -> (answer: (isize, ControlFlow))
        requires
            old(manager).wf(),
            old(manager)@.has_thread(self@.pid, self@.tid),
        ensures
            final(manager).wf(),
            answer.1 == ControlFlow::Continue,
            has_free_id(old(manager)@.pids) ==> {
                &&& answer.0 == old(manager)@.next_pid()
                &&& final(manager)@ == old(manager)@.forked(self@.pid, self@.tid)
            },
            !has_free_id(old(manager)@.pids) ==> {
                &&& answer.0 == -1
                &&& final(manager)@ == old(manager)@
            },
    {
        if !manager.can_allocate_pid() {
            return (-1, ControlFlow::Continue);
        }
        let child = Process::fork(manager, self.thread.pid, self.thread.tid);
        (child as isize, ControlFlow::Continue)
    }

    /// Waits for a child of the calling thread's process without blocking.
    ///
    /// `pid` names the child that is asked for; `ANY_CHILD` asks for any.
    /// `exit_code` is the address, in the memory of the caller, of the four
    /// bytes that take the exit code.
    ///
    /// If a child that is asked for has exited, the oldest such child is
    /// reaped: the low 32 bits of its exit code are stored at `exit_code`,
    /// the lowest byte first, the child is gone for good, and its
    /// identifier is the answer. If the four bytes at `exit_code` are not
    /// all mapped, the child is left as it is and the answer is `-1`. If no
    /// child that is asked for has exited, nothing changes and the answer
    /// is `NOT_READY`. The caller goes on in every case, and asks again
    /// later after yielding if it wants to wait.
    pub fn sys_waitpid(&self, manager: &mut TaskManager, pid: isize, exit_code: usize) -> (answer: (
        isize,
        ControlFlow,
    ))
        requires
            old(manager).wf(),
            old(manager)@.registry.contains_key(self@.pid),
        ensures
            final(manager).wf(),
            answer.1 == ControlFlow::Continue,
            match waited_child(old(manager)@, self@.pid, pid) {
                Some(child) if range_mapped(
                    old(manager)@.registry[self@.pid].state.memory,
                    exit_code,
                    4,
                ) => {
                    &&& answer.0 == child
                    &&& final(manager)@ == with_exit_code_at(
                        old(manager)@.reaped(self@.pid, child),
                        self@.pid,
                        exit_code,
                        old(manager)@.zombies[child].state.exit_code,
                    )
                },
                Some(child) => {
                    &&& answer.0 == -1
                    &&& final(manager)@ == old(manager)@
                },
                None => {
                    &&& answer.0 == NOT_READY
                    &&& final(manager)@ == old(manager)@
                },
            },
    {
        let parent = self.thread.pid;
        let ghost children = manager@.registry[parent].state.children;
        let ghost zombies = manager@.zombies.dom();
        let ghost memory = manager@.registry[parent].state.memory;
        let mut found: Option<Pid> = None;
        let process = get_process(manager.process_map(), parent).unwrap();
        let list = process.state().child_list();
        let mut i: usize = 0;
        while i < list.len() && found.is_none()
            invariant
                manager.wf(),
                list@ == children,
                zombies == manager@.zombies.dom(),
                0 <= i <= children.len(),
                found is None ==> first_zombie_from(children, zombies, pid, 0)
                    == first_zombie_from(children, zombies, pid, i as int),
                found is Some ==> first_zombie_from(children, zombies, pid, 0) == found,
            decreases children.len() - i + (if found is None { 1int } else { 0int }),
        {
            let child = list[i];
            let wanted = pid == ANY_CHILD || (pid >= 0 && pid as usize == child);
            if wanted && get_process(manager.zombies(), child).is_some() {
                found = Some(child);
            } else {
                i += 1;
            }
        }
        let child = match found {
            Some(child) => child,
            None => {
                return (NOT_READY, ControlFlow::Continue);
            },
        };
        if process.state().page_set().read_bytes(exit_code, 4).is_none() {
            return (-1, ControlFlow::Continue);
        }
        proof {
            lemma_first_zombie_is_child(children, zombies, pid, 0);
            assert(manager@.pids.contains(child));
            assert(memory.contains_key(exit_code));
            assert(memory.contains_key((exit_code + 1) as usize));
            assert(memory.contains_key((exit_code + 2) as usize));
            assert(memory.contains_key((exit_code + 3) as usize));
        }
        let code = manager.reap(parent, child);
        manager.store_byte(parent, exit_code, (code % 0x100) as u8);
        manager.store_byte(parent, exit_code + 1, (code / 0x100 % 0x100) as u8);
        manager.store_byte(parent, exit_code + 2, (code / 0x1_0000 % 0x100) as u8);
        manager.store_byte(parent, exit_code + 3, (code / 0x100_0000 % 0x100) as u8);
        (child as isize, ControlFlow::Continue)
    }

    /// Reads the name of the program that the calling thread asks `exec`
    /// for: the bytes at `path` in the memory of its process up to the
    /// first zero byte, which has to come within `PATH_LIMIT` bytes. There
    /// is no name where it does not, or where a byte up to it is not
    /// mapped.
    pub fn sys_exec_path(&self, manager: &TaskManager, path: usize) -> (name: Option<Vec<u8>>)
        requires
            manager.wf(),
            manager@.registry.contains_key(self@.pid),
        ensures
            name is Some == exists|length: usize|
                length < PATH_LIMIT && zero_ended(
                    manager@.registry[self@.pid].state.memory,
                    path,
                    length,
                ),
            name matches Some(found) ==> zero_ended(
                manager@.registry[self@.pid].state.memory,
                path,
                found@.len() as usize,
            ) && found@ == range_bytes(
                manager@.registry[self@.pid].state.memory,
                path,
                found@.len() as usize,
            ),
    {
        let process = get_process(manager.process_map(), self.thread.pid).unwrap();
        process.state().page_set().read_until_zero(path, PATH_LIMIT)
    }

    /// Answers a call whose number stands for no system call: `-1`, and the
    /// caller goes on.
    pub fn sys_unsupported(&self, _number: usize) -> (answer: (isize, ControlFlow))
        ensures
            answer == (-1isize, ControlFlow::Continue),
    {
        (-1, ControlFlow::Continue)
    }

    /// Replaces the program of the calling thread's process by the one that
    /// was loaded for it.
    ///
    /// `image` is what loading the program gave. On success the process
    /// runs the new program from its start, as `Process::exec` describes,
    /// and the answer is `(0, Continue)`. Where loading failed, or no
    /// thread identifier is free for the new main thread, nothing changes
    /// and the answer is `(-1, Continue)`.
    pub fn sys_exec(&self, manager: &mut TaskManager, image: Result<Image, ImageError>) -> (answer:
        (isize, ControlFlow))
        requires
            old(manager).wf(),
            old(manager)@.registry.contains_key(self@.pid),
            image matches Ok(loaded) ==> loaded.wf(),
        ensures
            final(manager).wf(),
            answer.1 == ControlFlow::Continue,
            match image {
                Ok(loaded) if has_free_id(old(manager)@.registry[self@.pid].state.tids) => {
                    &&& answer.0 == 0
                    &&& final(manager)@ == old(manager)@.executed(self@.pid, loaded@)
                },
                _ => {
                    &&& answer.0 == -1
                    &&& final(manager)@ == old(manager)@
                },
            },
    {
        let pid = self.thread.pid;
        let loaded = match image {
            Ok(loaded) => loaded,
            Err(_) => {
                return (-1, ControlFlow::Continue);
            },
        };
        let free = get_process(manager.process_map(), pid).unwrap().state().can_allocate_tid();
        if !free {
            return (-1, ControlFlow::Continue);
        }
        Process::exec(manager, pid, loaded, Vec::new());
        (0, ControlFlow::Continue)
    }
}

} // verus!
