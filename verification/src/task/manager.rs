//! The task manager: the process identifiers, the registry, the zombies
//! that wait to be reaped, the scheduler, and the reads that wait for the
//! console, held in one place.

use vstd::prelude::*;
use crate::executor::{ControlFlow, Executor, ExecutorView};
use crate::task::id::{has_free_id, IdAllocator, Pid, Tid};
use crate::task::model::{
    first_read, has_read, has_tid, is_first_read, lemma_first_read, lemma_index_of_tid,
    lemma_with_reads_wf, lemma_reaped_wf, lemma_stored_wf, lemma_with_executor_wf,
    lemma_with_context_wf, lemma_with_exit_code_wf, TaskManagerView,
};
use crate::task::process::Process;
use crate::task::registry::{get_process, insert_process, remove_process, ProcessMap};
use crate::executor::ThreadRef;
use crate::task::thread::{thread_views, Thread, TrapContext, REGISTER_COUNT, RETURN_VALUE};

verus! {

/// The state that the whole kernel shares: which process identifiers are in
/// use, which processes are registered, which zombies wait for their
/// parent, which threads are scheduled, and which of them wait for the
/// console.
pub struct TaskManager {
    pub(crate) pid_allocator: IdAllocator,
    pub(crate) process_map: ProcessMap,
    pub(crate) zombies: ProcessMap,
    pub(crate) executor: Executor,
    pub(crate) reads: Vec<(ThreadRef, usize)>,
}

impl View for TaskManager {
    type V = TaskManagerView;

    open(crate) spec fn view(&self) -> TaskManagerView {
        TaskManagerView {
            pids: self.pid_allocator@,
            registry: self.process_map@,
            zombies: self.zombies@,
            executor: self.executor@,
            reads: self.reads@,
        }
    }
}

/// The position of the thread with the identifier `tid` in `threads`, if
/// there is one.
pub(crate) fn find_thread(threads: &Vec<Thread>, tid: Tid) -> (found: Option<usize>)
    ensures
        found is Some == has_tid(thread_views(threads@), tid),
        found matches Some(index) ==> index < threads@.len() && threads@[index as int]@.tid == tid,
{
    let mut i: usize = 0;
    while i < threads.len()
        invariant
            0 <= i <= threads@.len(),
            forall|j: int| 0 <= j < i ==> (#[trigger] thread_views(threads@)[j]).tid != tid,
        decreases threads.len() - i,
    {
        if threads[i].tid() == tid {
            assert(thread_views(threads@)[i as int].tid == tid);
            return Some(i);
        }
        i += 1;
    }
    None
}

/// The position of the first occurrence of `pid` in `list`, if there is
/// one.
pub(crate) fn find_pid(list: &Vec<Pid>, pid: Pid) -> (found: Option<usize>)
    ensures
        found is Some == list@.contains(pid),
        found matches Some(index) ==> index < list@.len() && list@[index as int] == pid
            && forall|j: int| 0 <= j < index ==> list@[j] != pid,
{
    let mut i: usize = 0;
    while i < list.len()
        invariant
            0 <= i <= list@.len(),
            forall|j: int| 0 <= j < i ==> list@[j] != pid,
        decreases list.len() - i,
    {
        if list[i] == pid {
            return Some(i);
        }
        i += 1;
    }
    None
}

impl TaskManager {
    /// The allocator, the registry and the zombies are consistent each by
    /// itself, and so is the state as a whole.
    pub open(crate) spec fn wf(&self) -> bool {
        &&& self.pid_allocator.wf()
        &&& self.process_map.wf()
        &&& self.zombies.wf()
        &&& self@.wf()
    }

    /// A task manager without processes.
    pub fn new() -> (manager: TaskManager)
        ensures
            manager.wf(),
            manager@ == TaskManagerView::empty(),
    {
        TaskManager {
            pid_allocator: IdAllocator::new(),
            process_map: ProcessMap::new(),
            zombies: ProcessMap::new(),
            executor: Executor::new(),
            reads: Vec::new(),
        }
    }

    /// The registry.
    pub fn process_map(&self) -> (map: &ProcessMap)
        ensures
            map@ == self@.registry,
            self.wf() ==> map.wf(),
    {
        &self.process_map
    }

    /// The zombies that wait for their parent to reap them.
    pub fn zombies(&self) -> (map: &ProcessMap)
        ensures
            map@ == self@.zombies,
            self.wf() ==> map.wf(),
    {
        &self.zombies
    }

    /// The scheduler.
    pub fn executor(&self) -> (executor: &Executor)
        ensures
            executor@ == self@.executor,
    {
        &self.executor
    }

    /// The scheduler, for driving it. Nothing else of the state changes.
    pub fn executor_mut(&mut self) -> (executor: &mut Executor)
        ensures
            executor@ == old(self)@.executor,
            final(self)@ == old(self)@.with_executor(final(executor)@),
            final(self).wf() == old(self).wf(),
    {
        proof {
            assert forall|executor: ExecutorView|
                #[trigger] self@.with_executor(executor).wf() == self@.wf() by {
                lemma_with_executor_wf(self@, executor);
            }
        }
        &mut self.executor
    }

    /// Applies the directive that the running thread's system call ended
    /// with. The scheduler treats the thread as `Executor::complete`
    /// describes. A thread that ends with `Break` and was the one thread of
    /// its process takes the process with it: the process exits, as
    /// `Process::exit` describes, with the exit code that is recorded for
    /// it.
    pub fn complete(&mut self, flow: ControlFlow)
        requires
            old(self).wf(),
        ensures
            final(self).wf(),
            final(self)@ == old(self)@.completed(flow),
    {
        let current = self.executor.current();
        proof {
            lemma_with_executor_wf(self@, self@.executor.completed(flow));
        }
        self.executor.complete(flow);
        let thread = match (flow, current) {
            (ControlFlow::Break, Some(thread)) => thread,
            _ => {
                return ;
            },
        };
        let exit_code = match get_process(&self.process_map, thread.pid) {
            Some(process) => {
                let threads = process.state().thread_list();
                if threads.len() == 1 && threads[0].tid() == thread.tid {
                    assert(thread_views(threads@)[0] == threads@[0]@);
                    process.state().exit_code()
                } else {
                    proof {
                        if threads@.len() == 1 {
                            assert(thread_views(threads@)[0] == threads@[0]@);
                        }
                    }
                    return ;
                }
            },
            None => {
                return ;
            },
        };
        Process::exit(self, thread.pid, exit_code);
    }

    /// Gives the turn out and returns the thread that has it. Threads that
    /// do not exist any more, because their process is gone or has replaced
    /// them, are dropped on the way; the thread that is returned exists.
    /// With nothing to run, the result is `None`.
    pub fn dispatch(&mut self) -> (thread: Option<ThreadRef>)
        requires
            old(self).wf(),
        ensures
            final(self).wf(),
            final(self)@ == old(self)@.dispatched(),
            thread == final(self)@.executor.current,
            thread matches Some(found) ==> final(self)@.has_thread(found.pid, found.tid),
            thread is None ==> final(self)@.executor.queue.len() == 0,
    {
        loop
            invariant
                self.wf(),
                self@.dispatched() == old(self)@.dispatched(),
            decreases
                self@.executor.queue.len() + (if self@.executor.current is Some {
                    1nat
                } else {
                    0nat
                }),
        {
            let ghost before = self@;
            proof {
                lemma_with_executor_wf(before, before.executor.dispatched());
            }
            let next = self.executor.dispatch();
            let thread = match next {
                Some(thread) => thread,
                None => {
                    return None;
                },
            };
            if self.has_thread(thread.pid, thread.tid) {
                return Some(thread);
            }
            proof {
                lemma_with_executor_wf(
                    before,
                    before.executor.dispatched().completed(ControlFlow::Break),
                );
            }
            self.executor.complete(ControlFlow::Break);
        }
    }

    /// Ends the system call of `thread` with the number `value` for the
    /// caller and the directive `flow` for the scheduler. Where the thread
    /// still exists, `value` is put in its result register. Then the
    /// directive is applied, as `complete` describes.
    pub fn finish_call(&mut self, thread: ThreadRef, value: isize, flow: ControlFlow)
        requires
            old(self).wf(),
        ensures
            final(self).wf(),
            final(self)@ == old(self)@.finished(thread, value, flow),
    {
        if self.has_thread(thread.pid, thread.tid) {
            let word: usize = if value >= 0 {
                value as usize
            } else {
                usize::MAX - ((-(value + 1)) as usize)
            };
            self.set_user_register(thread, RETURN_VALUE, word);
        }
        self.complete(flow);
    }

    /// Whether the parent of the registered process `pid` is alive: the
    /// process that `pid` names as its parent is registered and lists `pid`
    /// among its children. A process whose parent has exited has no living
    /// parent, even where the identifier of the parent is in use again.
    pub fn parent_alive(&self, pid: Pid) -> (alive: bool)
        requires
            self.wf(),
            self@.registry.contains_key(pid),
        ensures
            alive == self@.retains(pid),
    {
        let process = get_process(&self.process_map, pid).unwrap();
        match process.state().parent() {
            Some(parent) => match get_process(&self.process_map, parent) {
                Some(found) => find_pid(found.state().child_list(), pid).is_some(),
                None => false,
            },
            None => false,
        }
    }

    /// Notes that `thread` waits for the console to fill `buffer`.
    pub fn wait_for_read(&mut self, thread: ThreadRef, buffer: usize)
        ensures
            final(self)@ == old(self)@.with_read(thread, buffer),
            final(self).wf() == old(self).wf(),
    {
        proof {
            lemma_with_reads_wf(self@, self@.reads.push((thread, buffer)));
        }
        self.reads.push((thread, buffer));
    }

    /// Takes up the read that `thread` waits for: returns the address of
    /// its buffer and notes that the thread waits no more. Where the thread
    /// waits for several, the oldest is taken; where it waits for none, the
    /// result is `None` and nothing changes.
    pub fn take_read(&mut self, thread: ThreadRef) -> (buffer: Option<usize>)
        ensures
            buffer == old(self)@.read_of(thread),
            final(self)@ == old(self)@.without_read(thread),
            final(self).wf() == old(self).wf(),
    {
        let mut i: usize = 0;
        while i < self.reads.len()
            invariant
                *self == *old(self),
                0 <= i <= self.reads@.len(),
                forall|earlier: int| 0 <= earlier < i ==> (#[trigger] self.reads@[earlier]).0 != thread,
            decreases self.reads.len() - i,
        {
            if self.reads[i].0.pid == thread.pid && self.reads[i].0.tid == thread.tid {
                proof {
                    assert(is_first_read(self@.reads, thread, i as int));
                    lemma_first_read(self@.reads, thread, i as int);
                    lemma_with_reads_wf(self@, self@.reads.remove(i as int));
                }
                let found = self.reads.remove(i);
                return Some(found.1);
            }
            i += 1;
        }
        proof {
            assert(!has_read(self@.reads, thread)) by {
                if has_read(self@.reads, thread) {
                    let index = first_read(self@.reads, thread);
                    assert(is_first_read(self@.reads, thread, index));
                    assert(self.reads@[index].0 != thread);
                }
            }
        }
        None
    }

    /// Whether a process identifier can still be allocated.
    pub fn can_allocate_pid(&self) -> (free: bool)
        requires
            self.wf(),
        ensures
            free == has_free_id(self@.pids),
    {
        self.pid_allocator.can_allocate()
    }

    /// Whether the process `pid` is registered and has a thread with the
    /// identifier `tid`.
    pub fn has_thread(&self, pid: Pid, tid: Tid) -> (found: bool)
        requires
            self.wf(),
        ensures
            found == self@.has_thread(pid, tid),
    {
        match get_process(&self.process_map, pid) {
            Some(process) => find_thread(process.state().thread_list(), tid).is_some(),
            None => false,
        }
    }

    /// Stores `value` at `addr` in the memory of the registered process
    /// `pid`, if the address is mapped there, and says whether it was.
    /// Nothing changes when it was not.
    pub fn store_byte(&mut self, pid: Pid, addr: usize, value: u8) -> (stored: bool)
        requires
            old(self).wf(),
            old(self)@.registry.contains_key(pid),
        ensures
            final(self).wf(),
            stored == old(self)@.registry[pid].state.memory.contains_key(addr),
            final(self)@ == (if stored {
                old(self)@.stored(pid, addr, value)
            } else {
                old(self)@
            }),
    {
        let mut process = remove_process(&mut self.process_map, pid).unwrap();
        let stored = process.state_mut().page_set_mut().write_byte(addr, value);
        insert_process(&mut self.process_map, pid, process);
        proof {
            if stored {
                assert(self@.registry =~= old(self)@.stored(pid, addr, value).registry);
                lemma_stored_wf(old(self)@, pid, addr, value);
            } else {
                assert(self@.registry =~= old(self)@.registry);
            }
        }
        stored
    }

    /// Replaces the saved user-mode state of `thread` by `context`, as a
    /// driver does when the thread comes back from user mode.
    pub fn set_trap_context(&mut self, thread: ThreadRef, context: TrapContext)
        requires
            old(self).wf(),
            old(self)@.has_thread(thread.pid, thread.tid),
        ensures
            final(self).wf(),
            final(self)@ == old(self)@.with_context(thread.pid, thread.tid, context@),
    {
        proof {
            assert(old(self)@.registered_ok(thread.pid));
            lemma_with_context_wf(old(self)@, thread.pid, thread.tid, context@);
        }
        let mut process = remove_process(&mut self.process_map, thread.pid).unwrap();
        let position = find_thread(process.state().thread_list(), thread.tid).unwrap();
        proof {
            lemma_index_of_tid(process@.state.threads, thread.tid, position as int);
        }
        let threads = process.state_mut().thread_list_mut();
        let ghost listed = threads@;
        *threads[position].trap_context_mut() = context;
        proof {
            assert(thread_views(threads@) =~= thread_views(listed).update(
                position as int,
                threads@[position as int]@,
            ));
        }
        insert_process(&mut self.process_map, thread.pid, process);
        proof {
            let expected = old(self)@.with_context(thread.pid, thread.tid, context@);
            assert(self@.registry[thread.pid] == expected.registry[thread.pid]);
            assert(self@.registry =~= expected.registry);
        }
    }

    /// Puts `value` in register `index` of `thread`, as a driver does with
    /// the result of a system call before the thread resumes.
    pub fn set_user_register(&mut self, thread: ThreadRef, index: usize, value: usize)
        requires
            old(self).wf(),
            old(self)@.has_thread(thread.pid, thread.tid),
            index < REGISTER_COUNT,
        ensures
            final(self).wf(),
            final(self)@ == old(self)@.with_register(thread.pid, thread.tid, index, value),
    {
        proof {
            assert(old(self)@.registered_ok(thread.pid));
            lemma_with_context_wf(
                old(self)@,
                thread.pid,
                thread.tid,
                old(self)@.thread(thread.pid, thread.tid).context.with_register(index, value),
            );
        }
        let mut process = remove_process(&mut self.process_map, thread.pid).unwrap();
        let position = find_thread(process.state().thread_list(), thread.tid).unwrap();
        proof {
            lemma_index_of_tid(process@.state.threads, thread.tid, position as int);
        }
        let threads = process.state_mut().thread_list_mut();
        let ghost listed = threads@;
        threads[position].trap_context_mut().set_user_register(index, value);
        proof {
            assert(thread_views(threads@) =~= thread_views(listed).update(
                position as int,
                threads@[position as int]@,
            ));
        }
        insert_process(&mut self.process_map, thread.pid, process);
        proof {
            let expected = old(self)@.with_register(thread.pid, thread.tid, index, value);
            assert(self@.registry[thread.pid] == expected.registry[thread.pid]);
            assert(self@.registry =~= expected.registry);
        }
    }

    /// Records `exit_code` as the exit code of the registered process
    /// `pid`.
    pub fn record_exit_code(&mut self, pid: Pid, exit_code: usize)
        requires
            old(self).wf(),
            old(self)@.registry.contains_key(pid),
        ensures
            final(self).wf(),
            final(self)@ == old(self)@.with_exit_code(pid, exit_code),
    {
        let mut process = remove_process(&mut self.process_map, pid).unwrap();
        process.state_mut().set_exit_code(exit_code);
        insert_process(&mut self.process_map, pid, process);
        proof {
            assert(self@.registry =~= old(self)@.with_exit_code(pid, exit_code).registry);
            lemma_with_exit_code_wf(old(self)@, pid, exit_code);
        }
    }

    /// Reaps the zombie `child` of the registered process `parent`: the
    /// child is gone, its identifier is free, the parent lists it no more.
    /// Returns the code that the child exited with.
    pub fn reap(&mut self, parent: Pid, child: Pid) -> (exit_code: usize)
        requires
            old(self).wf(),
            old(self)@.registry.contains_key(parent),
            old(self)@.registry[parent].state.children.contains(child),
            old(self)@.zombies.contains_key(child),
        ensures
            final(self).wf(),
            exit_code == old(self)@.zombies[child].state.exit_code,
            final(self)@ == old(self)@.reaped(parent, child),
    {
        let mut process = remove_process(&mut self.process_map, parent).unwrap();
        let index = find_pid(process.state().child_list(), child).unwrap();
        process.state_mut().child_list_mut().remove(index);
        insert_process(&mut self.process_map, parent, process);
        let zombie = remove_process(&mut self.zombies, child).unwrap();
        self.pid_allocator.deallocate(child);
        proof {
            let children = old(self)@.registry[parent].state.children;
            assert(old(self)@.registered_ok(parent));
            assert(children.index_of(child) == index) by {
                let first = children.index_of(child);
                assert(0 <= first < children.len() && children[first] == child);
            }
            assert(self@.registry =~= old(self)@.reaped(parent, child).registry);
            lemma_reaped_wf(old(self)@, parent, child);
        }
        zombie.state().exit_code()
    }
}

} // verus!
