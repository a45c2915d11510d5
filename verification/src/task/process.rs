//! Processes: their state, and how they are made, forked, given a new
//! program and ended.

use vstd::prelude::*;
use crate::executor::ThreadRef;
use crate::mem::{Image, PageSet};
use crate::task::id::{
    has_free_id, lemma_smallest_unused_of_empty, smallest_unused, IdAllocator, Pid, Tid, ID_LIMIT,
};
use crate::task::manager::{find_pid, find_thread, TaskManager};
use crate::task::model::{
    lemma_exec_keeps_identity, lemma_executed_wf, lemma_exited_wf, lemma_forked_wf,
    lemma_index_of_tid, lemma_spawned_wf,
};
use crate::task::registry::{get_process, insert_process, remove_process};
use crate::task::thread::{thread_views, Thread, ThreadView, RETURN_VALUE, STACK_POINTER};

verus! {

/// Where a process stands in its life.
#[derive(PartialEq, Eq, Clone, Copy, Debug, Structural)]
pub enum Status {
    /// The process has threads that may run.
    Runnable,
    /// The process has exited; its exit code is kept until it is reaped.
    Zombie,
}

/// The mutable state of a process.
pub struct ProcessState {
    status: Status,
    exit_code: usize,
    page_set: PageSet,
    tid_allocator: IdAllocator,
    parent: Option<Pid>,
    child_list: Vec<Pid>,
    thread_list: Vec<Thread>,
}

/// The mathematical content of a [`ProcessState`].
pub struct ProcessStateView {
    /// Where the process stands in its life.
    pub status: Status,
    /// The code that the process exited with; zero until then.
    pub exit_code: usize,
    /// The bytes of the address space, by address.
    pub memory: Map<usize, u8>,
    /// The thread identifiers that are in use.
    pub tids: Set<Tid>,
    /// The process that forked this one, if any. The link does not keep the
    /// parent alive.
    pub parent: Option<Pid>,
    /// The processes that this one forked and has not reaped, oldest first.
    pub children: Seq<Pid>,
    /// The threads, in the order in which they were listed. The first is
    /// the main thread.
    pub threads: Seq<ThreadView>,
}

impl ProcessStateView {
    /// The state of a process that was just made: runnable, exit code zero,
    /// no thread identifier in use, no children, no threads.
    pub open spec fn fresh(memory: Map<usize, u8>, parent: Option<Pid>) -> ProcessStateView {
        ProcessStateView {
            status: Status::Runnable,
            exit_code: 0,
            memory,
            tids: Set::empty(),
            parent,
            children: Seq::empty(),
            threads: Seq::empty(),
        }
    }
}

impl View for ProcessState {
    type V = ProcessStateView;

    closed spec fn view(&self) -> ProcessStateView {
        ProcessStateView {
            status: self.status,
            exit_code: self.exit_code,
            memory: self.page_set@,
            tids: self.tid_allocator@,
            parent: self.parent,
            children: self.child_list@,
            threads: thread_views(self.thread_list@),
        }
    }
}

impl ProcessState {
    /// The address space and the thread identifier allocator are
    /// consistent.
    pub closed spec fn wf(&self) -> bool {
        &&& self.page_set.wf()
        &&& self.tid_allocator.wf()
    }

    /// The state of a new process that owns `page_set` and was forked by
    /// `parent`, if by any.
    pub fn new(page_set: PageSet, parent: Option<Pid>) -> (state: ProcessState)
        requires
            page_set.wf(),
        ensures
            state.wf(),
            state@ == ProcessStateView::fresh(page_set@, parent),
    {
        let state = ProcessState {
            page_set,
            parent,
            tid_allocator: IdAllocator::new(),
            child_list: Vec::new(),
            thread_list: Vec::new(),
            exit_code: 0,
            status: Status::Runnable,
        };
        assert(state@.threads =~= Seq::<ThreadView>::empty());
        state
    }

    /// Where the process stands in its life.
    pub fn status(&self) -> (status: Status)
        ensures
            status == self@.status,
    {
        self.status
    }

    /// Records where the process stands in its life.
    pub fn set_status(&mut self, status: Status)
        ensures
            final(self)@ == (ProcessStateView { status, ..old(self)@ }),
            final(self).wf() == old(self).wf(),
    {
        self.status = status;
    }

    /// The code that the process exited with; zero until it exits.
    pub fn exit_code(&self) -> (exit_code: usize)
        ensures
            exit_code == self@.exit_code,
    {
        self.exit_code
    }

    /// Records the code that the process exits with.
    pub fn set_exit_code(&mut self, exit_code: usize)
        ensures
            final(self)@ == (ProcessStateView { exit_code, ..old(self)@ }),
            final(self).wf() == old(self).wf(),
    {
        self.exit_code = exit_code;
    }

    /// The process that forked this one, if any.
    pub fn parent(&self) -> (parent: Option<Pid>)
        ensures
            parent == self@.parent,
    {
        self.parent
    }

    /// The children that were forked and not reaped, oldest first.
    pub fn child_list(&self) -> (children: &Vec<Pid>)
        ensures
            children@ == self@.children,
    {
        &self.child_list
    }

    /// The list of children, for changing it. Nothing else of the state
    /// changes.
    pub fn child_list_mut(&mut self) -> (children: &mut Vec<Pid>)
        ensures
            children@ == old(self)@.children,
            final(self)@ == (ProcessStateView { children: final(children)@, ..old(self)@ }),
            final(self).wf() == old(self).wf(),
    {
        &mut self.child_list
    }

    /// The threads, in the order in which they were listed.
    pub fn thread_list(&self) -> (threads: &Vec<Thread>)
        ensures
            thread_views(threads@) == self@.threads,
    {
        &self.thread_list
    }

    /// The list of threads, for changing it. Nothing else of the state
    /// changes.
    pub fn thread_list_mut(&mut self) -> (threads: &mut Vec<Thread>)
        ensures
            thread_views(threads@) == old(self)@.threads,
            final(self)@ == (ProcessStateView {
                threads: thread_views(final(threads)@),
                ..old(self)@
            }),
            final(self).wf() == old(self).wf(),
    {
        &mut self.thread_list
    }

    /// The main thread: the first of the list. A process without threads
    /// has none.
    pub fn main_thread(&self) -> (thread: &Thread)
        requires
            self@.threads.len() > 0,
        ensures
            thread@ == self@.threads[0],
    {
        &self.thread_list[0]
    }

    /// The main thread, for changing or replacing it. Nothing else of the
    /// state changes.
    pub fn main_thread_mut(&mut self) -> (thread: &mut Thread)
        requires
            old(self)@.threads.len() > 0,
        ensures
            thread@ == old(self)@.threads[0],
            final(self)@ == (ProcessStateView {
                threads: old(self)@.threads.update(0, final(thread)@),
                ..old(self)@
            }),
            final(self).wf() == old(self).wf(),
    {
        proof {
            assert forall|replacement: Thread|
                #![trigger self.thread_list@.update(0, replacement)]
                thread_views(self.thread_list@.update(0, replacement)) =~= thread_views(
                    self.thread_list@,
                ).update(0, replacement@) by {}
        }
        &mut self.thread_list[0]
    }

    /// The address space.
    pub fn page_set(&self) -> (page_set: &PageSet)
        ensures
            page_set@ == self@.memory,
            self.wf() ==> page_set.wf(),
    {
        &self.page_set
    }

    /// The address space, for changing it. Nothing else of the state
    /// changes.
    pub fn page_set_mut(&mut self) -> (page_set: &mut PageSet)
        ensures
            page_set@ == old(self)@.memory,
            old(self).wf() ==> page_set.wf(),
            final(self)@ == (ProcessStateView { memory: final(page_set)@, ..old(self)@ }),
            old(self).wf() && final(page_set).wf() ==> final(self).wf(),
    {
        &mut self.page_set
    }

    /// Replaces the address space. The one held before is released.
    pub fn set_page_set(&mut self, page_set: PageSet)
        ensures
            final(self)@ == (ProcessStateView { memory: page_set@, ..old(self)@ }),
            old(self).wf() && page_set.wf() ==> final(self).wf(),
    {
        self.page_set = page_set;
    }

    /// Whether a thread identifier can still be allocated.
    pub fn can_allocate_tid(&self) -> (free: bool)
        requires
            self.wf(),
        ensures
            free == has_free_id(self@.tids),
    {
        self.tid_allocator.can_allocate()
    }

    /// Takes the smallest thread identifier that is not in use.
    pub fn allocate_tid(&mut self) -> (tid: Tid)
        requires
            old(self).wf(),
            has_free_id(old(self)@.tids),
        ensures
            final(self).wf(),
            tid == smallest_unused(old(self)@.tids),
            !old(self)@.tids.contains(tid),
            final(self)@ == (ProcessStateView { tids: old(self)@.tids.insert(tid), ..old(self)@ }),
    {
        self.tid_allocator.allocate()
    }

    /// Gives the thread identifier `tid` back. Only an identifier that is
    /// in use can be given back.
    pub fn deallocated_tid(&mut self, tid: Tid)
        requires
            old(self).wf(),
            old(self)@.tids.contains(tid),
        ensures
            final(self).wf(),
            final(self)@ == (ProcessStateView { tids: old(self)@.tids.remove(tid), ..old(self)@ }),
    {
        self.tid_allocator.deallocate(tid);
    }
}

/// A process: an identifier that never changes, and the state that does.
pub struct Process {
    pid: Pid,
    state: ProcessState,
}

/// The mathematical content of a [`Process`].
pub struct ProcessView {
    /// The identifier of the process.
    pub pid: Pid,
    /// The state of the process.
    pub state: ProcessStateView,
}

impl View for Process {
    type V = ProcessView;

    closed spec fn view(&self) -> ProcessView {
        ProcessView { pid: self.pid, state: self.state@ }
    }
}

impl Process {
    /// The state is consistent.
    pub closed spec fn wf(&self) -> bool {
        self.state.wf()
    }

    /// A process that carries `pid` and has `state`. It stands by itself:
    /// it is neither registered nor scheduled.
    pub fn from_parts(pid: Pid, state: ProcessState) -> (process: Process)
        ensures
            process@ == (ProcessView { pid, state: state@ }),
            process.wf() == state.wf(),
    {
        Process { pid, state }
    }

    /// The identifier of the process.
    pub fn pid(&self) -> (pid: Pid)
        ensures
            pid == self@.pid,
    {
        self.pid
    }

    /// The state of the process.
    pub fn state(&self) -> (state: &ProcessState)
        ensures
            state@ == self@.state,
            state.wf() == self.wf(),
    {
        &self.state
    }

    /// The state of the process, for changing it. The identifier stays.
    pub fn state_mut(&mut self) -> (state: &mut ProcessState)
        ensures
            state@ == old(self)@.state,
            state.wf() == old(self).wf(),
            final(self)@ == (ProcessView { state: final(state)@, ..old(self)@ }),
            final(self).wf() == final(state).wf(),
    {
        &mut self.state
    }
}

impl Process {
    /// Makes a process from a loaded image, registers it and schedules its
    /// main thread.
    ///
    /// A process is made only from a program that was loaded: a program
    /// that cannot be loaded is no `Image`, and whoever could not load it
    /// has no process to ask for. The new process takes the smallest free
    /// process identifier, which is returned, and that identifier is
    /// carried by no living process. The process has no parent and no
    /// children; its main thread starts at the entry point of the image
    /// with the stack pointer at the top of its stack, and stands at the
    /// back of the run queue.
    pub fn new(manager: &mut TaskManager, image: Image) -> (pid: Pid)
        requires
            old(manager).wf(),
            image.wf(),
            has_free_id(old(manager)@.pids),
        ensures
            final(manager).wf(),
            pid == old(manager)@.next_pid(),
            pid < ID_LIMIT,
            !old(manager)@.pids.contains(pid),
            !old(manager)@.registry.contains_key(pid),
            !old(manager)@.zombies.contains_key(pid),
            final(manager)@ == old(manager)@.spawned(image@),
    {
        let ghost image_view = image@;
        let (page_set, user_stack_base, entry_point) = image.into_parts();
        let pid = manager.pid_allocator.allocate();
        let mut process = Process::from_parts(pid, ProcessState::new(page_set, None));
        proof {
            lemma_smallest_unused_of_empty();
        }
        let mut thread = Thread::new(&mut process, user_stack_base, true);
        let user_stack_top = thread.user_stack_top();
        let trap_context = thread.trap_context_mut();
        trap_context.set_user_register(STACK_POINTER, user_stack_top);
        trap_context.set_user_sepc(entry_point);
        let tid = thread.tid();
        assert(thread@ == ThreadView::started(0, pid, user_stack_base, entry_point));
        let ghost listed = process.state.thread_list@;
        process.state_mut().thread_list_mut().push(thread);
        assert(process@.state.threads =~= Seq::<ThreadView>::empty().push(thread@)) by {
            assert(thread_views(listed) =~= Seq::<ThreadView>::empty());
            assert(thread_views(listed.push(thread)) =~= thread_views(listed).push(thread@));
        }
        insert_process(&mut manager.process_map, pid, process);
        manager.executor.spawn_thread(ThreadRef { pid, tid });
        proof {
            lemma_spawned_wf(old(manager)@, image_view);
        }
        pid
    }

    /// Forks the registered process `pid` on behalf of its thread `tid`.
    ///
    /// The child takes the smallest free process identifier, which is
    /// returned. It gets a copy of the parent's memory that shares nothing
    /// with it, names `pid` as its parent and joins the parent's list of
    /// children at the end. Its one thread has the stack base of the
    /// forking thread and zero in the result register, and stands at the
    /// back of the run queue. The parent's threads stay as they are.
    pub fn fork(manager: &mut TaskManager, pid: Pid, tid: Tid) -> (child: Pid)
        requires
            old(manager).wf(),
            old(manager)@.has_thread(pid, tid),
            has_free_id(old(manager)@.pids),
        ensures
            final(manager).wf(),
            child == old(manager)@.next_pid(),
            child < ID_LIMIT,
            child != pid,
            !old(manager)@.pids.contains(child),
            final(manager)@ == old(manager)@.forked(pid, tid),
    {
        proof {
            assert(old(manager)@.registered_ok(pid));
            lemma_forked_wf(old(manager)@, pid, tid);
        }
        let child_pid = manager.pid_allocator.allocate();
        let mut parent = remove_process(&mut manager.process_map, pid).unwrap();
        let page_set = PageSet::clone_from(parent.state().page_set());
        let index = find_thread(parent.state().thread_list(), tid).unwrap();
        let user_stack_base = parent.state().thread_list()[index].user_stack_base();
        proof {
            lemma_index_of_tid(old(manager)@.registry[pid].state.threads, tid, index as int);
        }
        parent.state_mut().child_list_mut().push(child_pid);
        insert_process(&mut manager.process_map, pid, parent);

        let mut child = Process::from_parts(child_pid, ProcessState::new(page_set, Some(pid)));
        proof {
            lemma_smallest_unused_of_empty();
        }
        let mut thread = Thread::new(&mut child, user_stack_base, false);
        thread.trap_context_mut().set_user_register(RETURN_VALUE, 0);
        let child_tid = thread.tid();
        assert(thread@ == ThreadView::forked(0, child_pid, user_stack_base));
        let ghost listed = child.state.thread_list@;
        child.state_mut().thread_list_mut().push(thread);
        assert(child@.state.threads =~= Seq::<ThreadView>::empty().push(thread@)) by {
            assert(thread_views(listed) =~= Seq::<ThreadView>::empty());
            assert(thread_views(listed.push(thread)) =~= thread_views(listed).push(thread@));
        }
        insert_process(&mut manager.process_map, child_pid, child);
        manager.executor.spawn_thread(ThreadRef { pid: child_pid, tid: child_tid });
        proof {
            let expected = old(manager)@.forked(pid, tid);
            assert(manager@.registry[child_pid] == expected.registry[child_pid]);
            assert(manager@.registry[pid] == expected.registry[pid]);
            assert(manager@.registry =~= expected.registry);
        }
        child_pid
    }

    /// Replaces the program of the registered process `pid`.
    ///
    /// The program is replaced only by one that was loaded: a program that
    /// cannot be loaded is no `Image`, and the process keeps what it has.
    /// The process takes the address space of the image in place of its
    /// own, which is released, and a new main thread in place of the old
    /// one. The new
    /// thread takes the smallest free thread identifier, starts at the
    /// entry point of the image with the stack pointer at the top of its
    /// stack, and stands at the back of the run queue; the identifier of
    /// the old main thread is free again. The process keeps its identifier,
    /// its place in the registry, its parent and its children. Threads
    /// other than the main thread are left as they are.
    pub fn exec(
        manager: &mut TaskManager,
        pid: Pid,
        image: Image,
        _argument_list: Vec<String>,
    )
        requires
            old(manager).wf(),
            old(manager)@.registry.contains_key(pid),
            image.wf(),
            has_free_id(old(manager)@.registry[pid].state.tids),
        ensures
            final(manager).wf(),
            final(manager)@ == old(manager)@.executed(pid, image@),
            final(manager)@.registry.dom() == old(manager)@.registry.dom(),
            final(manager)@.registry[pid].pid == pid,
    {
        let ghost image_view = image@;
        proof {
            lemma_executed_wf(old(manager)@, pid, image_view);
            lemma_exec_keeps_identity(old(manager)@, pid, image_view);
        }
        let (page_set, user_stack_base, entry_point) = image.into_parts();
        let mut process = remove_process(&mut manager.process_map, pid).unwrap();
        process.state_mut().set_page_set(page_set);

        let mut thread = Thread::new(&mut process, user_stack_base, true);
        let user_stack_top = thread.user_stack_top();
        let trap_context = thread.trap_context_mut();
        trap_context.set_user_register(STACK_POINTER, user_stack_top);
        trap_context.set_user_sepc(entry_point);
        let tid = thread.tid();
        let replaced = process.state().main_thread().tid();
        *process.state_mut().main_thread_mut() = thread;
        process.state_mut().deallocated_tid(replaced);

        insert_process(&mut manager.process_map, pid, process);
        manager.executor.spawn_thread(ThreadRef { pid, tid });
        proof {
            let expected = old(manager)@.executed(pid, image_view);
            assert(manager@.registry[pid] == expected.registry[pid]);
            assert(manager@.registry =~= expected.registry);
        }
    }

    /// Ends the registered process `pid` with `exit_code`.
    ///
    /// The process becomes a zombie with that exit code, lets go of its
    /// children and leaves the registry. The zombies among its children,
    /// which it alone kept, are gone, and their identifiers are free. If
    /// the parent of the process is registered and lists it, the process
    /// stays behind as a zombie for the parent to reap; otherwise it is
    /// gone as well and its identifier is free. Children that still run
    /// stay registered, without a living parent.
    pub fn exit(manager: &mut TaskManager, pid: Pid, exit_code: usize)
        requires
            old(manager).wf(),
            old(manager)@.registry.contains_key(pid),
        ensures
            final(manager).wf(),
            final(manager)@ == old(manager)@.exited(pid, exit_code),
            !final(manager)@.registry.contains_key(pid),
    {
        proof {
            assert(old(manager)@.registered_ok(pid));
            lemma_exited_wf(old(manager)@, pid, exit_code);
        }
        let ghost before = old(manager)@;
        let ghost children = before.registry[pid].state.children;
        let mut process = remove_process(&mut manager.process_map, pid).unwrap();
        let mut i: usize = 0;
        while i < process.state().child_list().len()
            invariant
                before.wf(),
                before == old(manager)@,
                before.registry.contains_key(pid),
                children == before.registry[pid].state.children,
                process@.state.children == children,
                process.wf(),
                0 <= i <= children.len(),
                manager.pid_allocator.wf(),
                manager.process_map.wf(),
                manager.zombies.wf(),
                manager.process_map@ == before.registry.remove(pid),
                manager.executor@ == before.executor,
                manager.reads@ == before.reads,
                manager.zombies@ == before.zombies.remove_keys(
                    Set::new(
                        |child: Pid|
                            children.take(i as int).contains(child) && before.zombies.contains_key(
                                child,
                            ),
                    ),
                ),
                manager.pid_allocator@ == before.pids.difference(
                    Set::new(
                        |child: Pid|
                            children.take(i as int).contains(child) && before.zombies.contains_key(
                                child,
                            ),
                    ),
                ),
            decreases children.len() - i,
        {
            let child = process.state().child_list()[i];
            let ghost upto = children.take(i as int);
            let ghost including = children.take(i + 1);
            let ghost done = Set::new(
                |child: Pid| upto.contains(child) && before.zombies.contains_key(child),
            );
            let ghost next = Set::new(
                |child: Pid| including.contains(child) && before.zombies.contains_key(child),
            );
            proof {
                assert(before.registered_ok(pid));
                assert(including =~= upto.push(child));
                assert(!upto.contains(child)) by {
                    if upto.contains(child) {
                        let k = choose|k: int| 0 <= k < upto.len() && upto[k] == child;
                        assert(children[k] == children[i as int]);
                    }
                }
                assert forall|other: Pid| next.contains(other) <==> done.contains(other) || (other
                    == child && before.zombies.contains_key(child)) by {
                    if including.contains(other) {
                        let k = choose|k: int| 0 <= k < including.len() && including[k] == other;
                        if k < i {
                            assert(upto[k] == other);
                        }
                    }
                    if upto.contains(other) {
                        let k = choose|k: int| 0 <= k < upto.len() && upto[k] == other;
                        assert(including[k] == other);
                    }
                    if other == child {
                        assert(including[i as int] == child);
                    }
                }
            }
            match remove_process(&mut manager.zombies, child) {
                Some(_zombie) => {
                    proof {
                        assert(before.zombies.contains_key(child));
                        assert(before.pids.contains(child));
                    }
                    manager.pid_allocator.deallocate(child);
                    proof {
                        assert(manager.zombies@ =~= before.zombies.remove_keys(next));
                        assert(manager.pid_allocator@ =~= before.pids.difference(next));
                    }
                },
                None => {
                    proof {
                        assert(next =~= done);
                    }
                },
            }
            i += 1;
        }
        proof {
            assert(children.take(i as int) =~= children);
            assert(Set::new(
                |child: Pid| children.contains(child) && before.zombies.contains_key(child),
            ) =~= before.zombie_children(pid));
        }
        process.state_mut().set_status(Status::Zombie);
        process.state_mut().set_exit_code(exit_code);
        process.state_mut().child_list_mut().clear();
        assert(process@ == before.zombie_of(pid, exit_code));
        let retained = match process.state().parent() {
            Some(parent) => match get_process(&manager.process_map, parent) {
                Some(found) => find_pid(found.state().child_list(), pid).is_some(),
                None => false,
            },
            None => false,
        };
        assert(retained == before.retains(pid));
        if retained {
            insert_process(&mut manager.zombies, pid, process);
        } else {
            proof {
                assert(before.pids.contains(pid));
                assert(!before.zombies.contains_key(pid));
            }
            manager.pid_allocator.deallocate(pid);
        }
    }
}

} // verus!
