//! Threads and the register state they resume from.

use vstd::prelude::*;
use crate::mem::USER_STACK_SIZE;
use crate::task::process::{Process, ProcessStateView, ProcessView};
use crate::task::id::{has_free_id, smallest_unused, Pid, Tid};

verus! {

/// The number of general registers that a trap context saves.
pub const REGISTER_COUNT: usize = 32;

/// The register that holds the stack pointer.
pub const STACK_POINTER: usize = 2;

/// The register in which a system call hands its result back.
pub const RETURN_VALUE: usize = 10;

/// The saved user-mode state of a thread: the general registers and the
/// program counter at which user execution resumes.
pub struct TrapContext {
    user_register: [usize; 32],
    user_sepc: usize,
}

/// The mathematical content of a [`TrapContext`].
pub struct TrapContextView {
    /// The general registers, `REGISTER_COUNT` of them.
    pub registers: Seq<usize>,
    /// The program counter.
    pub sepc: usize,
}

impl TrapContextView {
    /// All registers and the program counter are zero.
    pub open spec fn zeroed() -> TrapContextView {
        TrapContextView { registers: Seq::new(REGISTER_COUNT as nat, |i: int| 0usize), sepc: 0 }
    }

    /// The same state with register `index` holding `value`.
    pub open spec fn with_register(self, index: usize, value: usize) -> TrapContextView {
        TrapContextView { registers: self.registers.update(index as int, value), ..self }
    }

    /// The same state with the program counter at `value`.
    pub open spec fn with_sepc(self, value: usize) -> TrapContextView {
        TrapContextView { sepc: value, ..self }
    }
}

impl View for TrapContext {
    type V = TrapContextView;

    closed spec fn view(&self) -> TrapContextView {
        TrapContextView { registers: self.user_register@, sepc: self.user_sepc }
    }
}

impl TrapContext {
    /// A context in which every register and the program counter are zero.
    pub fn zeroed() -> (context: TrapContext)
        ensures
            context@ == TrapContextView::zeroed(),
    {
        let context = TrapContext { user_register: [0usize; 32], user_sepc: 0 };
        assert(context@.registers =~= TrapContextView::zeroed().registers);
        context
    }

    /// A context with the registers `registers` and the program counter
    /// `sepc`.
    pub fn from_parts(registers: [usize; 32], sepc: usize) -> (context: TrapContext)
        ensures
            context@ == (TrapContextView { registers: registers@, sepc }),
    {
        TrapContext { user_register: registers, user_sepc: sepc }
    }

    /// Every context saves `REGISTER_COUNT` registers.
    pub proof fn lemma_register_count(&self)
        ensures
            self@.registers.len() == REGISTER_COUNT,
    {
    }

    /// Stores `value` in register `index`.
    pub fn set_user_register(&mut self, index: usize, value: usize)
        requires
            index < REGISTER_COUNT,
        ensures
            final(self)@ == old(self)@.with_register(index, value),
    {
        self.user_register[index] = value;
    }

    /// The value of register `index`.
    pub fn user_register(&self, index: usize) -> (value: usize)
        requires
            index < REGISTER_COUNT,
        ensures
            value == self@.registers[index as int],
    {
        self.user_register[index]
    }

    /// Sets the program counter at which user execution resumes.
    pub fn set_user_sepc(&mut self, value: usize)
        ensures
            final(self)@ == old(self)@.with_sepc(value),
    {
        self.user_sepc = value;
    }

    /// The program counter at which user execution resumes.
    pub fn user_sepc(&self) -> (value: usize)
        ensures
            value == self@.sepc,
    {
        self.user_sepc
    }
}

/// The user stack of a thread: `USER_STACK_SIZE` bytes from `base` up to
/// `top`, within the address range.
struct UserStack {
    base: usize,
    top: usize,
}

impl UserStack {
    #[verifier::type_invariant]
    spec fn fits(&self) -> bool {
        self.top == self.base + USER_STACK_SIZE
    }

    fn new(base: usize) -> (stack: UserStack)
        requires
            base + USER_STACK_SIZE <= usize::MAX,
        ensures
            stack.base == base,
            stack.top == base + USER_STACK_SIZE,
    {
        UserStack { base, top: base + USER_STACK_SIZE }
    }

    fn base(&self) -> (base: usize)
        ensures
            base == self.base,
            base + USER_STACK_SIZE == self.top,
    {
        proof {
            use_type_invariant(self);
        }
        self.base
    }

    fn top(&self) -> (top: usize)
        ensures
            top == self.top,
            top == self.base + USER_STACK_SIZE,
    {
        proof {
            use_type_invariant(self);
        }
        self.top
    }
}

/// One schedulable unit of execution inside a process.
pub struct Thread {
    tid: Tid,
    process: Pid,
    user_stack: UserStack,
    is_main: bool,
    trap_context: TrapContext,
}

/// The mathematical content of a [`Thread`].
pub struct ThreadView {
    /// The identifier of the thread within its process.
    pub tid: Tid,
    /// The process that the thread belongs to.
    pub process: Pid,
    /// The lowest address of the user stack.
    pub user_stack_base: usize,
    /// The address just above the user stack.
    pub user_stack_top: usize,
    /// Whether the thread was made as the first thread of a fresh image.
    pub is_main: bool,
    /// The saved user-mode state.
    pub context: TrapContextView,
}

impl ThreadView {
    /// The thread as its constructor leaves it: a stack of
    /// `USER_STACK_SIZE` bytes from `user_stack_base` on, and a zeroed
    /// context.
    pub open spec fn fresh(tid: Tid, process: Pid, user_stack_base: usize, is_main: bool) -> ThreadView {
        ThreadView {
            tid,
            process,
            user_stack_base,
            user_stack_top: (user_stack_base + USER_STACK_SIZE) as usize,
            is_main,
            context: TrapContextView::zeroed(),
        }
    }

    /// A fresh thread made ready to start a program: the stack pointer at
    /// the top of the stack, the program counter at `entry_point`.
    pub open spec fn started(tid: Tid, process: Pid, user_stack_base: usize, entry_point: usize) -> ThreadView {
        let thread = ThreadView::fresh(tid, process, user_stack_base, true);
        ThreadView {
            context: thread.context.with_register(STACK_POINTER, thread.user_stack_top).with_sepc(
                entry_point,
            ),
            ..thread
        }
    }

    /// A fresh thread made ready to return from `fork` in the child: the
    /// result register holds zero.
    pub open spec fn forked(tid: Tid, process: Pid, user_stack_base: usize) -> ThreadView {
        let thread = ThreadView::fresh(tid, process, user_stack_base, false);
        ThreadView { context: thread.context.with_register(RETURN_VALUE, 0), ..thread }
    }
}

impl View for Thread {
    type V = ThreadView;

    closed spec fn view(&self) -> ThreadView {
        ThreadView {
            tid: self.tid,
            process: self.process,
            user_stack_base: self.user_stack.base,
            user_stack_top: self.user_stack.top,
            is_main: self.is_main,
            context: self.trap_context@,
        }
    }
}

/// The views of the threads in `threads`, in order.
pub open spec fn thread_views(threads: Seq<Thread>) -> Seq<ThreadView> {
    threads.map_values(|thread: Thread| thread@)
}

impl Thread {
    /// Makes a thread for `process` with a stack from `user_stack_base` on
    /// and a zeroed context. The thread takes the smallest free thread
    /// identifier of the process. It is neither listed in the process nor
    /// scheduled: both are left to the caller.
    pub fn new(process: &mut Process, user_stack_base: usize, is_main: bool) -> (thread: Thread)
        requires
            old(process).wf(),
            has_free_id(old(process)@.state.tids),
            user_stack_base + USER_STACK_SIZE <= usize::MAX,
        ensures
            final(process).wf(),
            thread@ == ThreadView::fresh(
                smallest_unused(old(process)@.state.tids),
                old(process)@.pid,
                user_stack_base,
                is_main,
            ),
            final(process)@ == (ProcessView {
                state: ProcessStateView {
                    tids: old(process)@.state.tids.insert(thread@.tid),
                    ..old(process)@.state
                },
                ..old(process)@
            }),
    {
        let pid = process.pid();
        let tid = process.state_mut().allocate_tid();
        Thread {
            tid,
            process: pid,
            user_stack: UserStack::new(user_stack_base),
            is_main,
            trap_context: TrapContext::zeroed(),
        }
    }

    /// The identifier of the thread within its process.
    pub fn tid(&self) -> (tid: Tid)
        ensures
            tid == self@.tid,
    {
        self.tid
    }

    /// The process that the thread belongs to.
    pub fn process(&self) -> (pid: Pid)
        ensures
            pid == self@.process,
    {
        self.process
    }

    /// The lowest address of the user stack. The stack ends within the
    /// address range.
    pub fn user_stack_base(&self) -> (base: usize)
        ensures
            base == self@.user_stack_base,
            base + USER_STACK_SIZE <= usize::MAX,
    {
        self.user_stack.base()
    }

    /// The address just above the user stack, which is `USER_STACK_SIZE`
    /// bytes long.
    pub fn user_stack_top(&self) -> (top: usize)
        ensures
            top == self@.user_stack_top,
            top == self@.user_stack_base + USER_STACK_SIZE,
    {
        self.user_stack.top()
    }

    /// Whether the thread was made as the first thread of a fresh image.
    pub fn is_main(&self) -> (is_main: bool)
        ensures
            is_main == self@.is_main,
    {
        self.is_main
    }

    /// The saved user-mode state.
    pub fn trap_context(&self) -> (context: &TrapContext)
        ensures
            context@ == self@.context,
    {
        &self.trap_context
    }

    /// The saved user-mode state, for installing register values. Nothing
    /// else of the thread changes.
    pub fn trap_context_mut(&mut self) -> (context: &mut TrapContext)
        ensures
            context@ == old(self)@.context,
            final(self)@ == (ThreadView { context: final(context)@, ..old(self)@ }),
    {
        &mut self.trap_context
    }
}

} // verus!
