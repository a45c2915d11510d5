//! The mathematical model of the task manager: what it holds, which states
//! are consistent, and what each operation makes of a state.

use vstd::prelude::*;
use crate::executor::{ControlFlow, ExecutorView, ThreadRef};
use crate::mem::{ImageView, USER_STACK_SIZE};
use crate::task::id::{
    has_free_id, lemma_smallest_unused_below_limit, smallest_unused, Pid, Tid, ID_LIMIT,
};
use crate::task::process::{ProcessStateView, ProcessView, Status};
use crate::task::thread::{ThreadView, TrapContextView, RETURN_VALUE, STACK_POINTER};

verus! {

/// The signed number `value` as the machine word that holds it.
pub open spec fn unsigned_word(value: isize) -> usize {
    if value >= 0 {
        value as usize
    } else {
        (usize::MAX + 1 + value) as usize
    }
}

/// The read at position `index` of `reads` is the oldest one that `thread`
/// waits for.
pub open spec fn is_first_read(reads: Seq<(ThreadRef, usize)>, thread: ThreadRef, index: int) -> bool {
    &&& 0 <= index < reads.len()
    &&& reads[index].0 == thread
    &&& forall|earlier: int| 0 <= earlier < index ==> (#[trigger] reads[earlier]).0 != thread
}

/// `thread` waits for a read.
pub open spec fn has_read(reads: Seq<(ThreadRef, usize)>, thread: ThreadRef) -> bool {
    exists|index: int| is_first_read(reads, thread, index)
}

/// The position in `reads` of the oldest read that `thread` waits for.
pub open spec fn first_read(reads: Seq<(ThreadRef, usize)>, thread: ThreadRef) -> int {
    choose|index: int| is_first_read(reads, thread, index)
}

/// Only one read is the oldest that a thread waits for.
pub proof fn lemma_first_read(reads: Seq<(ThreadRef, usize)>, thread: ThreadRef, index: int)
    requires
        is_first_read(reads, thread, index),
    ensures
        has_read(reads, thread),
        first_read(reads, thread) == index,
{
    let found = first_read(reads, thread);
    assert(is_first_read(reads, thread, found));
    if found < index {
        assert(reads[found].0 != thread);
    } else if index < found {
        assert(reads[index].0 != thread);
    }
}

/// A thread that waits for no read and begins to wait for one waits for
/// that one, and is back where it was once the read is taken up again.
pub proof fn lemma_read_taken_up(manager: TaskManagerView, thread: ThreadRef, buffer: usize)
    requires
        !has_read(manager.reads, thread),
    ensures
        manager.with_read(thread, buffer).read_of(thread) == Some(buffer),
        manager.with_read(thread, buffer).without_read(thread) == manager,
{
    let waiting = manager.with_read(thread, buffer);
    let last = manager.reads.len() as int;
    assert forall|earlier: int| 0 <= earlier < last implies (#[trigger] waiting.reads[earlier]).0
        != thread by {
        assert(waiting.reads[earlier] == manager.reads[earlier]);
        if manager.reads[earlier].0 == thread {
            lemma_some_read_is_first(manager.reads, thread, earlier);
        }
    }
    assert(is_first_read(waiting.reads, thread, last));
    lemma_first_read(waiting.reads, thread, last);
    assert(waiting.reads.remove(last) =~= manager.reads);
}

/// Where a thread waits for some read, one of them is the oldest.
pub proof fn lemma_some_read_is_first(reads: Seq<(ThreadRef, usize)>, thread: ThreadRef, index: int)
    requires
        0 <= index < reads.len(),
        reads[index].0 == thread,
    ensures
        has_read(reads, thread),
    decreases index,
{
    if forall|earlier: int| 0 <= earlier < index ==> (#[trigger] reads[earlier]).0 != thread {
        assert(is_first_read(reads, thread, index));
    } else {
        let earlier = choose|earlier: int| 0 <= earlier < index && (#[trigger] reads[earlier]).0 == thread;
        lemma_some_read_is_first(reads, thread, earlier);
    }
}

/// Consistency does not depend on the reads that wait.
pub proof fn lemma_with_reads_wf(manager: TaskManagerView, reads: Seq<(ThreadRef, usize)>)
    ensures
        manager.with_reads(reads).wf() == manager.wf(),
{
    let after = manager.with_reads(reads);
    assert(after.pids == manager.pids);
    assert(after.registry == manager.registry);
    assert(after.zombies == manager.zombies);
    if manager.wf() {
        assert forall|pid: Pid| #[trigger] after.registry.contains_key(pid) implies after.registered_ok(pid) by {
            assert(manager.registered_ok(pid));
            let listed = after.registry[pid].state.children;
            assert forall|i: int| 0 <= i < listed.len() implies after.is_child(pid, #[trigger] listed[i]) by {
                assert(manager.is_child(pid, listed[i]));
            }
        }
        assert forall|pid: Pid| #[trigger] after.zombies.contains_key(pid) implies after.zombie_ok(pid) by {
            assert(manager.zombie_ok(pid));
        }
        assert(after.wf());
    }
    if after.wf() {
        assert forall|pid: Pid| #[trigger] manager.registry.contains_key(pid) implies manager.registered_ok(pid) by {
            assert(after.registered_ok(pid));
            let listed = manager.registry[pid].state.children;
            assert forall|i: int| 0 <= i < listed.len() implies manager.is_child(pid, #[trigger] listed[i]) by {
                assert(after.is_child(pid, listed[i]));
            }
        }
        assert forall|pid: Pid| #[trigger] manager.zombies.contains_key(pid) implies manager.zombie_ok(pid) by {
            assert(after.zombie_ok(pid));
        }
        assert(manager.wf());
    }
}

/// The threads of `process` belong to it, carry thread identifiers that are
/// in use, and no two carry the same. There is at least one.
pub open spec fn threads_ok(process: ProcessView) -> bool {
    let threads = process.state.threads;
    &&& threads.len() > 0
    &&& forall|i: int|
        0 <= i < threads.len() ==> (#[trigger] threads[i]).process == process.pid
            && process.state.tids.contains(threads[i].tid)
    &&& forall|i: int, j: int|
        0 <= i < j < threads.len() ==> (#[trigger] threads[i]).tid != (#[trigger] threads[j]).tid
}

/// Some thread in `threads` carries the identifier `tid`.
pub open spec fn has_tid(threads: Seq<ThreadView>, tid: Tid) -> bool {
    exists|i: int| 0 <= i < threads.len() && (#[trigger] threads[i]).tid == tid
}

/// The position in `threads` of a thread that carries the identifier `tid`.
pub open spec fn index_of_tid(threads: Seq<ThreadView>, tid: Tid) -> int {
    choose|i: int| 0 <= i < threads.len() && (#[trigger] threads[i]).tid == tid
}

/// Where no two threads carry the same identifier, a thread that carries
/// `tid` is the one that `index_of_tid` finds.
pub proof fn lemma_index_of_tid(threads: Seq<ThreadView>, tid: Tid, index: int)
    requires
        forall|i: int, j: int|
            0 <= i < j < threads.len() ==> (#[trigger] threads[i]).tid != (#[trigger] threads[j]).tid,
        0 <= index < threads.len(),
        threads[index].tid == tid,
    ensures
        has_tid(threads, tid),
        index_of_tid(threads, tid) == index,
{
    let found = index_of_tid(threads, tid);
    assert(0 <= found < threads.len() && threads[found].tid == tid);
    if found < index {
        assert(threads[found].tid != threads[index].tid);
    } else if index < found {
        assert(threads[index].tid != threads[found].tid);
    }
}

/// A process as it stands right after it was made: runnable, with one
/// thread, which carries the thread identifier zero.
pub open spec fn first_process(
    pid: Pid,
    memory: Map<usize, u8>,
    parent: Option<Pid>,
    thread: ThreadView,
) -> ProcessView {
    ProcessView {
        pid,
        state: ProcessStateView {
            tids: Set::<Tid>::empty().insert(0),
            threads: Seq::<ThreadView>::empty().push(thread),
            ..ProcessStateView::fresh(memory, parent)
        },
    }
}

/// The mathematical content of the task manager.
pub struct TaskManagerView {
    /// The process identifiers that are in use.
    pub pids: Set<Pid>,
    /// The registered processes, by identifier.
    pub registry: Map<Pid, ProcessView>,
    /// The processes that have exited and wait for their parent to reap
    /// them, by identifier. They are kept for the parent alone: the
    /// registry does not find them.
    pub zombies: Map<Pid, ProcessView>,
    /// The scheduler.
    pub executor: ExecutorView,
    /// The reads that wait for the console: for each, the thread that
    /// reads and the address of its buffer, the oldest first.
    pub reads: Seq<(ThreadRef, usize)>,
}

impl TaskManagerView {
    /// No process, no identifier in use, nothing to run.
    pub open spec fn empty() -> TaskManagerView {
        TaskManagerView {
            pids: Set::empty(),
            registry: Map::empty(),
            zombies: Map::empty(),
            executor: ExecutorView::idle(),
            reads: Seq::empty(),
        }
    }

    /// `child` is alive, registered or as a zombie, and names `parent` as
    /// its parent.
    pub open spec fn is_child(self, parent: Pid, child: Pid) -> bool {
        ||| self.registry.contains_key(child) && self.registry[child].state.parent == Some(parent)
        ||| self.zombies.contains_key(child) && self.zombies[child].state.parent == Some(parent)
    }

    /// What holds of the process registered under `pid`: it carries that
    /// identifier, is runnable, has consistent threads, and lists as
    /// children, each once, living processes other than itself that name it
    /// as their parent.
    pub open spec fn registered_ok(self, pid: Pid) -> bool {
        let process = self.registry[pid];
        let children = process.state.children;
        &&& process.pid == pid
        &&& process.state.status == Status::Runnable
        &&& threads_ok(process)
        &&& children.no_duplicates()
        &&& !children.contains(pid)
        &&& forall|i: int| 0 <= i < children.len() ==> self.is_child(pid, #[trigger] children[i])
    }

    /// What holds of the zombie kept under `pid`: it carries that
    /// identifier, has exited, has no children, and its parent is
    /// registered and still lists it.
    pub open spec fn zombie_ok(self, pid: Pid) -> bool {
        let zombie = self.zombies[pid];
        &&& zombie.pid == pid
        &&& zombie.state.status == Status::Zombie
        &&& zombie.state.children.len() == 0
        &&& zombie.state.parent matches Some(parent) && self.registry.contains_key(parent)
            && self.registry[parent].state.children.contains(pid)
    }

    /// The state is consistent. The identifiers in use are those of the
    /// registered processes and of the zombies, no process is both, and each
    /// is as `registered_ok` or `zombie_ok` says.
    pub open spec fn wf(self) -> bool {
        &&& forall|pid: Pid|
            #![trigger self.pids.contains(pid)]
            #![trigger self.registry.contains_key(pid)]
            #![trigger self.zombies.contains_key(pid)]
            self.pids.contains(pid) <==> self.registry.contains_key(pid)
                || self.zombies.contains_key(pid)
        &&& forall|pid: Pid|
            #![trigger self.registry.contains_key(pid)]
            #![trigger self.zombies.contains_key(pid)]
            !(self.registry.contains_key(pid) && self.zombies.contains_key(pid))
        &&& forall|pid: Pid| self.pids.contains(pid) ==> pid < ID_LIMIT
        &&& forall|pid: Pid| #[trigger] self.registry.contains_key(pid) ==> self.registered_ok(pid)
        &&& forall|pid: Pid| #[trigger] self.zombies.contains_key(pid) ==> self.zombie_ok(pid)
    }

    /// The identifier that the next new process gets: the smallest one that
    /// is not in use.
    pub open spec fn next_pid(self) -> Pid {
        smallest_unused(self.pids)
    }

    /// The process registered under `pid` has a thread with the identifier
    /// `tid`.
    pub open spec fn has_thread(self, pid: Pid, tid: Tid) -> bool {
        self.registry.contains_key(pid) && has_tid(self.registry[pid].state.threads, tid)
    }

    /// The thread with the identifier `tid` of the process registered under
    /// `pid`.
    pub open spec fn thread(self, pid: Pid, tid: Tid) -> ThreadView {
        let threads = self.registry[pid].state.threads;
        threads[index_of_tid(threads, tid)]
    }

    /// The state after a process was made from `image`: the new process is
    /// registered under the smallest free identifier, has no parent and no
    /// children, and its one thread stands at the back of the run queue,
    /// ready to start the program.
    pub open spec fn spawned(self, image: ImageView) -> TaskManagerView {
        let pid = self.next_pid();
        let thread = ThreadView::started(0, pid, image.user_stack_base, image.entry_point);
        TaskManagerView {
            pids: self.pids.insert(pid),
            registry: self.registry.insert(pid, first_process(pid, image.memory, None, thread)),
            executor: self.executor.spawned(ThreadRef { pid, tid: 0 }),
            ..self
        }
    }

    /// The state after the thread `tid` of the process `pid` forked: the
    /// child is registered under the smallest free identifier with a copy
    /// of the parent's memory, names `pid` as its parent and stands last in
    /// the parent's list of children. Its one thread has the stack base of
    /// the forking thread and zero in the result register, and stands at
    /// the back of the run queue.
    pub open spec fn forked(self, pid: Pid, tid: Tid) -> TaskManagerView {
        let child = self.next_pid();
        let parent = self.registry[pid];
        let thread = ThreadView::forked(0, child, self.thread(pid, tid).user_stack_base);
        let parent_after = ProcessView {
            state: ProcessStateView {
                children: parent.state.children.push(child),
                ..parent.state
            },
            ..parent
        };
        TaskManagerView {
            pids: self.pids.insert(child),
            registry: self.registry.insert(pid, parent_after).insert(
                child,
                first_process(child, parent.state.memory, Some(pid), thread),
            ),
            executor: self.executor.spawned(ThreadRef { pid: child, tid: 0 }),
            ..self
        }
    }

    /// The state after the process `pid` replaced its program by `image`:
    /// it has the memory of the image and a new main thread, ready to start
    /// the program, in place of the old one. The new thread carries the
    /// smallest thread identifier that was free, the identifier of the old
    /// main thread is free again, and the new thread stands at the back of
    /// the run queue. All else stays.
    pub open spec fn executed(self, pid: Pid, image: ImageView) -> TaskManagerView {
        let process = self.registry[pid];
        let tid = smallest_unused(process.state.tids);
        let thread = ThreadView::started(tid, pid, image.user_stack_base, image.entry_point);
        let after = ProcessView {
            state: ProcessStateView {
                memory: image.memory,
                tids: process.state.tids.insert(tid).remove(process.state.threads[0].tid),
                threads: process.state.threads.update(0, thread),
                ..process.state
            },
            ..process
        };
        TaskManagerView {
            registry: self.registry.insert(pid, after),
            executor: self.executor.spawned(ThreadRef { pid, tid }),
            ..self
        }
    }

    /// The parent that the process registered under `pid` names is
    /// registered and lists it: the parent keeps the process after its
    /// exit.
    pub open spec fn retains(self, pid: Pid) -> bool {
        self.registry[pid].state.parent matches Some(parent) && self.registry.contains_key(parent)
            && self.registry[parent].state.children.contains(pid)
    }

    /// The children of the process registered under `pid` that are zombies.
    pub open spec fn zombie_children(self, pid: Pid) -> Set<Pid> {
        Set::new(
            |child: Pid|
                self.registry[pid].state.children.contains(child) && self.zombies.contains_key(
                    child,
                ),
        )
    }

    /// The process `pid` as a zombie with the exit code `exit_code`: it has
    /// exited and lists no children; all else is as it was.
    pub open spec fn zombie_of(self, pid: Pid, exit_code: usize) -> ProcessView {
        let process = self.registry[pid];
        ProcessView {
            state: ProcessStateView {
                status: Status::Zombie,
                exit_code,
                children: Seq::empty(),
                ..process.state
            },
            ..process
        }
    }

    /// The state after the process `pid` exited with `exit_code`. The
    /// process leaves the registry. Its zombie children, which it alone
    /// kept, are gone and their identifiers are free. If its parent is
    /// registered and lists it, the process stays as a zombie for the
    /// parent to reap; otherwise it is gone too and its identifier is free.
    /// Children that still run stay registered.
    pub open spec fn exited(self, pid: Pid, exit_code: usize) -> TaskManagerView {
        let dropped = self.zombie_children(pid);
        if self.retains(pid) {
            TaskManagerView {
                pids: self.pids.difference(dropped),
                registry: self.registry.remove(pid),
                zombies: self.zombies.remove_keys(dropped).insert(
                    pid,
                    self.zombie_of(pid, exit_code),
                ),
                ..self
            }
        } else {
            TaskManagerView {
                pids: self.pids.difference(dropped).remove(pid),
                registry: self.registry.remove(pid),
                zombies: self.zombies.remove_keys(dropped),
                ..self
            }
        }
    }

    /// The state after the process `parent` reaped its zombie child
    /// `child`: the child is gone, its identifier is free, and the parent
    /// lists it no more.
    pub open spec fn reaped(self, parent: Pid, child: Pid) -> TaskManagerView {
        let process = self.registry[parent];
        let after = ProcessView {
            state: ProcessStateView {
                children: process.state.children.remove(process.state.children.index_of(child)),
                ..process.state
            },
            ..process
        };
        TaskManagerView {
            pids: self.pids.remove(child),
            registry: self.registry.insert(parent, after),
            zombies: self.zombies.remove(child),
            ..self
        }
    }

    /// The state after `value` was stored at `addr` in the memory of the
    /// process `pid`.
    pub open spec fn stored(self, pid: Pid, addr: usize, value: u8) -> TaskManagerView {
        let process = self.registry[pid];
        let after = ProcessView {
            state: ProcessStateView {
                memory: process.state.memory.insert(addr, value),
                ..process.state
            },
            ..process
        };
        TaskManagerView { registry: self.registry.insert(pid, after), ..self }
    }

    /// The state after the exit code `exit_code` was recorded for the
    /// process `pid`.
    pub open spec fn with_exit_code(self, pid: Pid, exit_code: usize) -> TaskManagerView {
        let process = self.registry[pid];
        let after = ProcessView {
            state: ProcessStateView { exit_code, ..process.state },
            ..process
        };
        TaskManagerView { registry: self.registry.insert(pid, after), ..self }
    }

    /// The state after the thread `tid` of the process `pid` got
    /// `context` as its saved user-mode state.
    pub open spec fn with_context(self, pid: Pid, tid: Tid, context: TrapContextView) -> TaskManagerView {
        let process = self.registry[pid];
        let position = index_of_tid(process.state.threads, tid);
        let thread = process.state.threads[position];
        let after = ProcessView {
            state: ProcessStateView {
                threads: process.state.threads.update(position, ThreadView { context, ..thread }),
                ..process.state
            },
            ..process
        };
        TaskManagerView { registry: self.registry.insert(pid, after), ..self }
    }

    /// The state after `value` was put in register `index` of the thread
    /// `tid` of the process `pid`.
    pub open spec fn with_register(self, pid: Pid, tid: Tid, index: usize, value: usize) -> TaskManagerView {
        self.with_context(pid, tid, self.thread(pid, tid).context.with_register(index, value))
    }

    /// `thread` is the one thread of a registered process.
    pub open spec fn is_only_thread(self, thread: ThreadRef) -> bool {
        &&& self.registry.contains_key(thread.pid)
        &&& self.registry[thread.pid].state.threads.len() == 1
        &&& self.registry[thread.pid].state.threads[0].tid == thread.tid
    }

    /// The state after the running thread ended a system call with `flow`.
    /// The scheduler applies the directive. A thread that ends with `Break`
    /// and was the one thread of its process takes the process with it:
    /// the process exits with the exit code that is recorded for it.
    pub open spec fn completed(self, flow: ControlFlow) -> TaskManagerView {
        let after = self.with_executor(self.executor.completed(flow));
        match (flow, self.executor.current) {
            (ControlFlow::Break, Some(thread)) if self.is_only_thread(thread) => after.exited(
                thread.pid,
                self.registry[thread.pid].state.exit_code,
            ),
            _ => after,
        }
    }

    /// The state after the turn was given out. A thread that has the turn
    /// or stands at the head of the run queue but does not exist any more
    /// is dropped, and the next one is looked at; the first thread that
    /// exists gets the turn. With no such thread, nothing runs and the run
    /// queue is empty.
    pub open spec fn dispatched(self) -> TaskManagerView
        decreases self.executor.queue.len() + (if self.executor.current is Some {
            1nat
        } else {
            0nat
        }),
    {
        let given = self.executor.dispatched();
        match given.current {
            Some(thread) if !self.has_thread(thread.pid, thread.tid) => self.with_executor(
                given.completed(ControlFlow::Break),
            ).dispatched(),
            _ => self.with_executor(given),
        }
    }

    /// The state after the system call of `thread` ended with `value` and
    /// `flow`: where the thread still exists, `value` stands in its result
    /// register; then the directive is applied as `completed` says.
    pub open spec fn finished(self, thread: ThreadRef, value: isize, flow: ControlFlow) -> TaskManagerView {
        let installed = if self.has_thread(thread.pid, thread.tid) {
            self.with_register(thread.pid, thread.tid, RETURN_VALUE, unsigned_word(value))
        } else {
            self
        };
        installed.completed(flow)
    }

    /// The state after `thread` began to wait for the console to fill
    /// `buffer`.
    pub open spec fn with_read(self, thread: ThreadRef, buffer: usize) -> TaskManagerView {
        TaskManagerView { reads: self.reads.push((thread, buffer)), ..self }
    }

    /// The buffer of the read that `thread` waits for, if it waits for one:
    /// that of the oldest such read.
    pub open spec fn read_of(self, thread: ThreadRef) -> Option<usize> {
        if has_read(self.reads, thread) {
            Some(self.reads[first_read(self.reads, thread)].1)
        } else {
            None
        }
    }

    /// The state after the oldest read that `thread` waits for was taken
    /// up again: it waits no more. Without such a read nothing changes.
    pub open spec fn without_read(self, thread: ThreadRef) -> TaskManagerView {
        if has_read(self.reads, thread) {
            TaskManagerView { reads: self.reads.remove(first_read(self.reads, thread)), ..self }
        } else {
            self
        }
    }

    /// The state with the waiting reads replaced by `reads`.
    pub open spec fn with_reads(self, reads: Seq<(ThreadRef, usize)>) -> TaskManagerView {
        TaskManagerView { reads, ..self }
    }

    /// The state with the scheduler replaced by `executor`.
    pub open spec fn with_executor(self, executor: ExecutorView) -> TaskManagerView {
        TaskManagerView { executor, ..self }
    }
}

/// The empty state is consistent.
pub proof fn lemma_empty_wf()
    ensures
        TaskManagerView::empty().wf(),
{
}

/// Making a process keeps the state consistent.
pub proof fn lemma_spawned_wf(manager: TaskManagerView, image: ImageView)
    requires
        manager.wf(),
        has_free_id(manager.pids),
    ensures
        manager.spawned(image).wf(),
        !manager.pids.contains(manager.next_pid()),
        manager.next_pid() < ID_LIMIT,
{
    lemma_smallest_unused_below_limit(manager.pids);
    let after = manager.spawned(image);
    let pid = manager.next_pid();
    assert forall|other: Pid| #[trigger] after.registry.contains_key(other) implies after.registered_ok(other) by {
        if other != pid {
            assert(manager.registered_ok(other));
        }
    }
    assert forall|other: Pid| #[trigger] after.zombies.contains_key(other) implies after.zombie_ok(other) by {
        assert(manager.zombie_ok(other));
    }
}

/// Forking keeps the state consistent.
pub proof fn lemma_forked_wf(manager: TaskManagerView, pid: Pid, tid: Tid)
    requires
        manager.wf(),
        manager.registry.contains_key(pid),
        has_free_id(manager.pids),
    ensures
        manager.forked(pid, tid).wf(),
        !manager.pids.contains(manager.next_pid()),
        manager.next_pid() < ID_LIMIT,
{
    lemma_smallest_unused_below_limit(manager.pids);
    let after = manager.forked(pid, tid);
    let child = manager.next_pid();
    let children = manager.registry[pid].state.children;
    assert(manager.registered_ok(pid));
    assert(!children.contains(child)) by {
        if children.contains(child) {
            let i = choose|i: int| 0 <= i < children.len() && children[i] == child;
            assert(manager.is_child(pid, children[i]));
        }
    }
    assert forall|other: Pid| #[trigger] after.registry.contains_key(other) implies after.registered_ok(other) by {
        if other == child {
        } else {
            assert(manager.registered_ok(other));
            let listed = after.registry[other].state.children;
            assert forall|i: int| 0 <= i < listed.len() implies after.is_child(other, #[trigger] listed[i]) by {
                if other == pid && i == children.len() {
                } else {
                    let before = manager.registry[other].state.children;
                    assert(listed[i] == before[i]);
                    assert(manager.is_child(other, before[i]));
                }
            }
            if other == pid {
                assert(listed.no_duplicates());
                assert(!listed.contains(pid));
            }
        }
    }
    assert forall|other: Pid| #[trigger] after.zombies.contains_key(other) implies after.zombie_ok(other) by {
        assert(manager.zombie_ok(other));
        let parent = manager.zombies[other].state.parent->0;
        if parent == pid {
            let i = choose|i: int| 0 <= i < children.len() && children[i] == other;
            assert(children.push(child)[i] == other);
        }
    }
}

/// Replacing the program of a process keeps the state consistent.
pub proof fn lemma_executed_wf(manager: TaskManagerView, pid: Pid, image: ImageView)
    requires
        manager.wf(),
        manager.registry.contains_key(pid),
        has_free_id(manager.registry[pid].state.tids),
    ensures
        manager.executed(pid, image).wf(),
{
    let after = manager.executed(pid, image);
    let process = manager.registry[pid];
    lemma_smallest_unused_below_limit(process.state.tids);
    assert(manager.registered_ok(pid));
    assert forall|other: Pid| #[trigger] after.registry.contains_key(other) implies after.registered_ok(other) by {
        assert(manager.registered_ok(other));
        let listed = after.registry[other].state.children;
        assert forall|i: int| 0 <= i < listed.len() implies after.is_child(other, #[trigger] listed[i]) by {
            assert(manager.is_child(other, manager.registry[other].state.children[i]));
        }
        if other == pid {
            let threads = after.registry[pid].state.threads;
            assert forall|i: int| 0 <= i < threads.len() implies (#[trigger] threads[i]).process == pid
                && after.registry[pid].state.tids.contains(threads[i].tid) by {
                if i > 0 {
                    assert(process.state.threads[i].process == pid);
                    assert(process.state.threads[0].tid != process.state.threads[i].tid);
                }
            }
            assert forall|i: int, j: int| 0 <= i < j < threads.len() implies (#[trigger] threads[i]).tid != (
            #[trigger] threads[j]).tid by {
                assert(process.state.tids.contains(process.state.threads[j].tid));
                if i > 0 {
                    assert(process.state.threads[i].tid != process.state.threads[j].tid);
                }
            }
        }
    }
    assert forall|other: Pid| #[trigger] after.zombies.contains_key(other) implies after.zombie_ok(other) by {
        assert(manager.zombie_ok(other));
    }
}

/// Exiting keeps the state consistent.
pub proof fn lemma_exited_wf(manager: TaskManagerView, pid: Pid, exit_code: usize)
    requires
        manager.wf(),
        manager.registry.contains_key(pid),
    ensures
        manager.exited(pid, exit_code).wf(),
{
    let after = manager.exited(pid, exit_code);
    let dropped = manager.zombie_children(pid);
    let children = manager.registry[pid].state.children;
    assert(manager.registered_ok(pid));
    assert forall|other: Pid| #[trigger] after.zombies.contains_key(other) implies after.zombie_ok(other) by {
        if other == pid {
        } else {
            assert(manager.zombie_ok(other));
            assert(!dropped.contains(other));
        }
    }
    assert forall|other: Pid| #[trigger] after.registry.contains_key(other) implies after.registered_ok(other) by {
        assert(manager.registered_ok(other));
        let listed = manager.registry[other].state.children;
        assert forall|i: int| 0 <= i < listed.len() implies after.is_child(other, #[trigger] listed[i]) by {
            let child = listed[i];
            assert(manager.is_child(other, child));
            if child == pid {
                assert(listed.contains(pid));
                assert(manager.retains(pid));
            } else if dropped.contains(child) {
                let k = choose|k: int| 0 <= k < children.len() && children[k] == child;
                assert(manager.is_child(pid, children[k]));
            }
        }
    }
}

/// Reaping a zombie child keeps the state consistent.
pub proof fn lemma_reaped_wf(manager: TaskManagerView, parent: Pid, child: Pid)
    requires
        manager.wf(),
        manager.registry.contains_key(parent),
        manager.registry[parent].state.children.contains(child),
        manager.zombies.contains_key(child),
    ensures
        manager.reaped(parent, child).wf(),
{
    let after = manager.reaped(parent, child);
    let children = manager.registry[parent].state.children;
    let index = children.index_of(child);
    let listed = children.remove(index);
    assert(manager.registered_ok(parent));
    assert(0 <= index < children.len() && children[index] == child);
    assert forall|i: int| 0 <= i < listed.len() implies #[trigger] listed[i] != child
        && children.contains(listed[i]) by {
        if i < index {
            assert(listed[i] == children[i]);
        } else {
            assert(listed[i] == children[i + 1]);
        }
    }
    assert(listed.no_duplicates()) by {
        assert forall|i: int, j: int| 0 <= i < listed.len() && 0 <= j < listed.len() && i != j implies listed[i]
            != listed[j] by {
            let a = if i < index { i } else { i + 1 };
            let b = if j < index { j } else { j + 1 };
            assert(listed[i] == children[a]);
            assert(listed[j] == children[b]);
        }
    }
    assert forall|other: Pid| #[trigger] after.registry.contains_key(other) implies after.registered_ok(other) by {
        assert(manager.registered_ok(other));
        let theirs = after.registry[other].state.children;
        assert forall|i: int| 0 <= i < theirs.len() implies after.is_child(other, #[trigger] theirs[i]) by {
            if other == parent {
                let k = choose|k: int| 0 <= k < children.len() && children[k] == theirs[i];
                assert(manager.is_child(parent, children[k]));
            } else {
                assert(manager.is_child(other, manager.registry[other].state.children[i]));
                assert(manager.zombie_ok(child));
            }
        }
        if other == parent {
            assert(!theirs.contains(parent)) by {
                if theirs.contains(parent) {
                    let k = choose|k: int| 0 <= k < theirs.len() && theirs[k] == parent;
                    assert(children.contains(theirs[k]));
                }
            }
        }
    }
    assert forall|other: Pid| #[trigger] after.zombies.contains_key(other) implies after.zombie_ok(other) by {
        assert(manager.zombie_ok(other));
        if manager.zombies[other].state.parent == Some(parent) {
            let k = choose|k: int| 0 <= k < children.len() && children[k] == other;
            if k < index {
                assert(listed[k] == other);
            } else {
                assert(listed[k - 1] == other);
            }
        }
    }
}

/// Storing a byte in the memory of a process keeps the state consistent.
pub proof fn lemma_stored_wf(manager: TaskManagerView, pid: Pid, addr: usize, value: u8)
    requires
        manager.wf(),
        manager.registry.contains_key(pid),
    ensures
        manager.stored(pid, addr, value).wf(),
{
    let after = manager.stored(pid, addr, value);
    assert forall|other: Pid| #[trigger] after.registry.contains_key(other) implies after.registered_ok(other) by {
        assert(manager.registered_ok(other));
        let listed = after.registry[other].state.children;
        assert forall|i: int| 0 <= i < listed.len() implies after.is_child(other, #[trigger] listed[i]) by {
            assert(manager.is_child(other, manager.registry[other].state.children[i]));
        }
    }
    assert forall|other: Pid| #[trigger] after.zombies.contains_key(other) implies after.zombie_ok(other) by {
        assert(manager.zombie_ok(other));
    }
}

/// Recording an exit code keeps the state consistent.
pub proof fn lemma_with_exit_code_wf(manager: TaskManagerView, pid: Pid, exit_code: usize)
    requires
        manager.wf(),
        manager.registry.contains_key(pid),
    ensures
        manager.with_exit_code(pid, exit_code).wf(),
{
    let after = manager.with_exit_code(pid, exit_code);
    assert forall|other: Pid| #[trigger] after.registry.contains_key(other) implies after.registered_ok(other) by {
        assert(manager.registered_ok(other));
        let listed = after.registry[other].state.children;
        assert forall|i: int| 0 <= i < listed.len() implies after.is_child(other, #[trigger] listed[i]) by {
            assert(manager.is_child(other, manager.registry[other].state.children[i]));
        }
    }
    assert forall|other: Pid| #[trigger] after.zombies.contains_key(other) implies after.zombie_ok(other) by {
        assert(manager.zombie_ok(other));
    }
}

/// Consistency does not depend on the scheduler.
pub proof fn lemma_with_executor_wf(manager: TaskManagerView, executor: ExecutorView)
    ensures
        manager.with_executor(executor).wf() == manager.wf(),
{
    let after = manager.with_executor(executor);
    assert(after.pids == manager.pids);
    assert(after.registry == manager.registry);
    assert(after.zombies == manager.zombies);
    if manager.wf() {
        assert forall|pid: Pid| #[trigger] after.registry.contains_key(pid) implies after.registered_ok(pid) by {
            assert(manager.registered_ok(pid));
            let listed = after.registry[pid].state.children;
            assert forall|i: int| 0 <= i < listed.len() implies after.is_child(pid, #[trigger] listed[i]) by {
                assert(manager.is_child(pid, listed[i]));
            }
        }
        assert forall|pid: Pid| #[trigger] after.zombies.contains_key(pid) implies after.zombie_ok(pid) by {
            assert(manager.zombie_ok(pid));
        }
        assert(after.wf());
    }
    if after.wf() {
        assert forall|pid: Pid| #[trigger] manager.registry.contains_key(pid) implies manager.registered_ok(pid) by {
            assert(after.registered_ok(pid));
            let listed = manager.registry[pid].state.children;
            assert forall|i: int| 0 <= i < listed.len() implies manager.is_child(pid, #[trigger] listed[i]) by {
                assert(after.is_child(pid, listed[i]));
            }
        }
        assert forall|pid: Pid| #[trigger] manager.zombies.contains_key(pid) implies manager.zombie_ok(pid) by {
            assert(after.zombie_ok(pid));
        }
        assert(manager.wf());
    }
}

/// No two registered processes carry the same identifier, and none carries
/// the identifier of a zombie.
pub proof fn lemma_pids_unique(manager: TaskManagerView, first: Pid, second: Pid)
    requires
        manager.wf(),
        manager.registry.contains_key(first),
        first != second,
    ensures
        manager.registry.contains_key(second) ==> manager.registry[first].pid
            != manager.registry[second].pid,
        manager.zombies.contains_key(second) ==> manager.registry[first].pid
            != manager.zombies[second].pid,
{
    assert(manager.registered_ok(first));
    if manager.registry.contains_key(second) {
        assert(manager.registered_ok(second));
    }
    if manager.zombies.contains_key(second) {
        assert(manager.zombie_ok(second));
    }
}

/// The identifier that a new process gets is carried by no process that is
/// alive, registered or zombie, neither before nor after: a process made
/// from an image or by a fork is the only one under its identifier.
pub proof fn lemma_new_pid_is_fresh(manager: TaskManagerView, image: ImageView, pid: Pid, tid: Tid)
    requires
        manager.wf(),
        has_free_id(manager.pids),
    ensures
        !manager.registry.contains_key(manager.next_pid()),
        !manager.zombies.contains_key(manager.next_pid()),
        forall|other: Pid| #[trigger]
            manager.registry.contains_key(other) ==> manager.registry[other].pid
                != manager.next_pid(),
        forall|other: Pid| #[trigger]
            manager.zombies.contains_key(other) ==> manager.zombies[other].pid
                != manager.next_pid(),
        manager.spawned(image).registry[manager.next_pid()].pid == manager.next_pid(),
        manager.forked(pid, tid).registry[manager.next_pid()].pid == manager.next_pid(),
{
    lemma_smallest_unused_below_limit(manager.pids);
    assert forall|other: Pid| #[trigger] manager.registry.contains_key(other) implies manager.registry[other].pid
        != manager.next_pid() by {
        assert(manager.registered_ok(other));
    }
    assert forall|other: Pid| #[trigger] manager.zombies.contains_key(other) implies manager.zombies[other].pid
        != manager.next_pid() by {
        assert(manager.zombie_ok(other));
    }
}

/// The identifier of a process that has exited and is kept by no parent
/// is free again: it can be issued to a later process.
pub proof fn lemma_exit_frees_pid(manager: TaskManagerView, pid: Pid, exit_code: usize)
    requires
        manager.wf(),
        manager.registry.contains_key(pid),
        !manager.retains(pid),
    ensures
        !manager.exited(pid, exit_code).pids.contains(pid),
        has_free_id(manager.exited(pid, exit_code).pids),
        manager.exited(pid, exit_code).next_pid() <= pid,
{
    let after = manager.exited(pid, exit_code);
    assert(manager.pids.contains(pid));
    assert(pid < ID_LIMIT);
    crate::task::id::lemma_smallest_unused_exists(after.pids, pid);
}

/// The identifier of a zombie that is reaped is free again.
pub proof fn lemma_reap_frees_pid(manager: TaskManagerView, parent: Pid, child: Pid)
    requires
        manager.wf(),
        manager.zombies.contains_key(child),
    ensures
        !manager.reaped(parent, child).pids.contains(child),
        manager.reaped(parent, child).next_pid() <= child,
{
    crate::task::id::lemma_smallest_unused_exists(manager.reaped(parent, child).pids, child);
}

/// After a fork, parent and child have the same bytes at the same
/// addresses, and a byte stored in the memory of one of them leaves the
/// memory of the other as it was.
pub proof fn lemma_fork_isolates_memory(
    manager: TaskManagerView,
    pid: Pid,
    tid: Tid,
    addr: usize,
    value: u8,
)
    requires
        manager.wf(),
        manager.registry.contains_key(pid),
        has_free_id(manager.pids),
    ensures
        ({
            let forked = manager.forked(pid, tid);
            let child = manager.next_pid();
            &&& child != pid
            &&& forked.registry[child].state.memory == manager.registry[pid].state.memory
            &&& forked.registry[pid].state.memory == manager.registry[pid].state.memory
            &&& forked.stored(child, addr, value).registry[pid].state.memory
                == forked.registry[pid].state.memory
            &&& forked.stored(pid, addr, value).registry[child].state.memory
                == forked.registry[child].state.memory
            &&& forked.stored(child, addr, value).registry[child].state.memory
                == forked.registry[child].state.memory.insert(addr, value)
            &&& forked.stored(pid, addr, value).registry[pid].state.memory
                == forked.registry[pid].state.memory.insert(addr, value)
        }),
{
    lemma_smallest_unused_below_limit(manager.pids);
}

/// Replacing the program of a process changes neither who the process is
/// nor where it is found: the same identifiers are registered and in use,
/// the process is still registered under its identifier and carries it,
/// and its status, exit code, parent and children are as before. Its main
/// thread starts at the entry point of the image, with the stack pointer
/// at the top of a stack that begins at the stack base of the image.
pub proof fn lemma_exec_keeps_identity(manager: TaskManagerView, pid: Pid, image: ImageView)
    requires
        manager.wf(),
        manager.registry.contains_key(pid),
    ensures
        ({
            let before = manager.registry[pid];
            let after = manager.executed(pid, image).registry[pid];
            &&& manager.executed(pid, image).registry.dom() == manager.registry.dom()
            &&& manager.executed(pid, image).zombies == manager.zombies
            &&& manager.executed(pid, image).pids == manager.pids
            &&& after.pid == pid
            &&& after.state.status == before.state.status
            &&& after.state.exit_code == before.state.exit_code
            &&& after.state.parent == before.state.parent
            &&& after.state.children == before.state.children
            &&& after.state.memory == image.memory
            &&& after.state.threads.len() == before.state.threads.len()
            &&& after.state.threads[0].context.sepc == image.entry_point
            &&& after.state.threads[0].user_stack_base == image.user_stack_base
            &&& after.state.threads[0].user_stack_top == (image.user_stack_base
                + USER_STACK_SIZE) as usize
            &&& after.state.threads[0].context.registers[STACK_POINTER as int]
                == after.state.threads[0].user_stack_top
        }),
{
    assert(manager.registered_ok(pid));
    assert(manager.executed(pid, image).registry.dom() =~= manager.registry.dom());
}

/// Where the image that replaces the program of a process has another
/// entry point and another stack top than the main thread had, the main
/// thread has a new entry point and a new stack top after the replacement.
pub proof fn lemma_exec_changes_entry(manager: TaskManagerView, pid: Pid, image: ImageView)
    requires
        manager.wf(),
        manager.registry.contains_key(pid),
        image.entry_point != manager.registry[pid].state.threads[0].context.sepc,
        (image.user_stack_base + USER_STACK_SIZE) as usize
            != manager.registry[pid].state.threads[0].user_stack_top,
    ensures
        manager.executed(pid, image).registry[pid].state.threads[0].context.sepc
            != manager.registry[pid].state.threads[0].context.sepc,
        manager.executed(pid, image).registry[pid].state.threads[0].user_stack_top
            != manager.registry[pid].state.threads[0].user_stack_top,
{
    lemma_exec_keeps_identity(manager, pid, image);
}

/// A byte stored in the memory of one process changes no other process:
/// every other registered process, and every zombie, is as it was.
pub proof fn lemma_store_touches_one_process(
    manager: TaskManagerView,
    pid: Pid,
    other: Pid,
    addr: usize,
    value: u8,
)
    requires
        manager.registry.contains_key(pid),
        other != pid,
    ensures
        manager.stored(pid, addr, value).registry.contains_key(other)
            == manager.registry.contains_key(other),
        manager.stored(pid, addr, value).registry[other] == manager.registry[other],
        manager.stored(pid, addr, value).zombies == manager.zombies,
        manager.stored(pid, addr, value).pids == manager.pids,
        manager.stored(pid, addr, value).registry[pid].state.memory
            == manager.registry[pid].state.memory.insert(addr, value),
{
}

/// A process that has exited is not registered any more, whether or not
/// its parent keeps it as a zombie; the other registered processes stay
/// registered as they were.
pub proof fn lemma_exit_unregisters(manager: TaskManagerView, pid: Pid, exit_code: usize)
    requires
        manager.wf(),
        manager.registry.contains_key(pid),
    ensures
        !manager.exited(pid, exit_code).registry.contains_key(pid),
        forall|other: Pid|
            other != pid && #[trigger] manager.registry.contains_key(other) ==> manager.exited(
                pid,
                exit_code,
            ).registry.contains_key(other) && manager.exited(pid, exit_code).registry[other]
                == manager.registry[other],
        manager.retains(pid) ==> manager.exited(pid, exit_code).zombies.contains_key(pid)
            && manager.exited(pid, exit_code).zombies[pid].state.status == Status::Zombie
            && manager.exited(pid, exit_code).zombies[pid].state.exit_code == exit_code,
{
}

/// In a consistent state a registered process is runnable and has a main
/// thread, and a zombie has exited, lists no children and is not
/// registered.
pub proof fn lemma_status_matches_place(manager: TaskManagerView, pid: Pid)
    requires
        manager.wf(),
    ensures
        manager.registry.contains_key(pid) ==> manager.registry[pid].state.status
            == Status::Runnable && manager.registry[pid].state.threads.len() > 0,
        manager.zombies.contains_key(pid) ==> manager.zombies[pid].state.status == Status::Zombie
            && manager.zombies[pid].state.children.len() == 0 && !manager.registry.contains_key(
            pid,
        ),
{
    if manager.registry.contains_key(pid) {
        assert(manager.registered_ok(pid));
    }
    if manager.zombies.contains_key(pid) {
        assert(manager.zombie_ok(pid));
    }
}

/// Changing the saved user-mode state of a thread keeps the state
/// consistent.
pub proof fn lemma_with_context_wf(
    manager: TaskManagerView,
    pid: Pid,
    tid: Tid,
    context: TrapContextView,
)
    requires
        manager.wf(),
        manager.has_thread(pid, tid),
    ensures
        manager.with_context(pid, tid, context).wf(),
{
    let after = manager.with_context(pid, tid, context);
    let threads = manager.registry[pid].state.threads;
    let position = index_of_tid(threads, tid);
    assert(0 <= position < threads.len() && threads[position].tid == tid);
    assert forall|other: Pid| #[trigger] after.registry.contains_key(other) implies after.registered_ok(other) by {
        assert(manager.registered_ok(other));
        let listed = after.registry[other].state.children;
        assert forall|i: int| 0 <= i < listed.len() implies after.is_child(other, #[trigger] listed[i]) by {
            assert(manager.is_child(other, manager.registry[other].state.children[i]));
        }
        if other == pid {
            let changed = after.registry[pid].state.threads;
            assert forall|i: int| 0 <= i < changed.len() implies (#[trigger] changed[i]).process == pid
                && after.registry[pid].state.tids.contains(changed[i].tid) by {
                assert(threads[i].process == pid);
            }
            assert forall|i: int, j: int| 0 <= i < j < changed.len() implies (#[trigger] changed[i]).tid != (
            #[trigger] changed[j]).tid by {
                assert(threads[i].tid != threads[j].tid);
            }
        }
    }
    assert forall|other: Pid| #[trigger] after.zombies.contains_key(other) implies after.zombie_ok(other) by {
        assert(manager.zombie_ok(other));
    }
}

/// When the one thread of a process ends with `Break`, the process is not
/// registered any more; any other directive, and a thread that is not the
/// last of its process, leave every process as it is.
pub proof fn lemma_break_ends_process(manager: TaskManagerView, thread: ThreadRef, flow: ControlFlow)
    requires
        manager.wf(),
        manager.executor.current == Some(thread),
    ensures
        flow == ControlFlow::Break && manager.is_only_thread(thread) ==> !manager.completed(
            flow,
        ).registry.contains_key(thread.pid),
        flow != ControlFlow::Break || !manager.is_only_thread(thread) ==> manager.completed(
            flow,
        ).registry == manager.registry && manager.completed(flow).zombies == manager.zombies,
        manager.completed(flow).executor == manager.executor.completed(flow),
{
}

} // verus!
