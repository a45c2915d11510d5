//! The cooperative scheduler: one run queue, served first come, first
//! served.
//!
//! The executor decides which thread runs next. Running the thread is left
//! to its driver, which reports back with the [`ControlFlow`] that the
//! thread's system call ended with.

use vstd::prelude::*;
use std::collections::VecDeque;
use crate::task::id::{Pid, Tid};

verus! {

/// What the scheduler does with a thread once its system call is over.
#[derive(Clone, Copy, PartialEq, Eq, Debug, Structural)]
pub enum ControlFlow {
    /// Resume the thread at once. It keeps its turn.
    Continue,
    /// The thread gives up its turn: it goes to the back of the run queue.
    Yield,
    /// The thread is over: it is dropped and never scheduled again.
    Break,
}

/// Names a thread: its process, and its identifier within the process.
#[derive(Clone, Copy, PartialEq, Eq, Debug, Structural)]
pub struct ThreadRef {
    /// The process that the thread belongs to.
    pub pid: Pid,
    /// The identifier of the thread within its process.
    pub tid: Tid,
}

/// The run queue and the thread that has the turn.
pub struct Executor {
    run_queue: VecDeque<ThreadRef>,
    current: Option<ThreadRef>,
}

/// The mathematical content of an [`Executor`].
pub struct ExecutorView {
    /// The thread that has the turn, if any.
    pub current: Option<ThreadRef>,
    /// The runnable threads that wait, the next to run first.
    pub queue: Seq<ThreadRef>,
}

impl ExecutorView {
    /// No thread runs and none waits.
    pub open spec fn idle() -> ExecutorView {
        ExecutorView { current: None, queue: Seq::empty() }
    }

    /// `thread` joins the back of the run queue.
    pub open spec fn spawned(self, thread: ThreadRef) -> ExecutorView {
        ExecutorView { queue: self.queue.push(thread), ..self }
    }

    /// The turn is given out: a thread that has it keeps it; otherwise the
    /// head of the run queue, if there is one, takes it.
    pub open spec fn dispatched(self) -> ExecutorView {
        if self.current is None && self.queue.len() > 0 {
            ExecutorView { current: Some(self.queue[0]), queue: self.queue.skip(1) }
        } else {
            self
        }
    }

    /// The running thread ended a system call with `flow`.
    pub open spec fn completed(self, flow: ControlFlow) -> ExecutorView {
        match (flow, self.current) {
            (ControlFlow::Continue, _) => self,
            (ControlFlow::Yield, Some(thread)) => ExecutorView {
                current: None,
                queue: self.queue.push(thread),
            },
            (ControlFlow::Yield, None) => self,
            (ControlFlow::Break, _) => ExecutorView { current: None, ..self },
        }
    }
}

impl View for Executor {
    type V = ExecutorView;

    closed spec fn view(&self) -> ExecutorView {
        ExecutorView { current: self.current, queue: self.run_queue@ }
    }
}

impl Executor {
    /// An executor with no thread.
    pub fn new() -> (executor: Executor)
        ensures
            executor@ == ExecutorView::idle(),
    {
        Executor { run_queue: VecDeque::new(), current: None }
    }

    /// Makes `thread` runnable: it joins the back of the run queue.
    pub fn spawn_thread(&mut self, thread: ThreadRef)
        ensures
            final(self)@ == old(self)@.spawned(thread),
    {
        self.run_queue.push_back(thread);
    }

    /// The thread that has the turn, if any.
    pub fn current(&self) -> (thread: Option<ThreadRef>)
        ensures
            thread == self@.current,
    {
        self.current
    }

    /// The number of threads that wait in the run queue.
    pub fn waiting(&self) -> (count: usize)
        ensures
            count == self@.queue.len(),
    {
        self.run_queue.len()
    }

    /// Gives the turn out and returns the thread that has it. A thread that
    /// has the turn keeps it; otherwise the head of the run queue takes it.
    /// With nothing to run, the result is `None`.
    pub fn dispatch(&mut self) -> (thread: Option<ThreadRef>)
        ensures
            final(self)@ == old(self)@.dispatched(),
            thread == final(self)@.current,
    {
        if self.current.is_none() {
            let ghost before = self.run_queue@;
            let next = self.run_queue.pop_front();
            if next.is_some() {
                assert(self.run_queue@ =~= before.skip(1));
            }
            self.current = next;
        }
        self.current
    }

    /// Applies the directive that the running thread's system call ended
    /// with. `Continue` leaves the turn with the thread. `Yield` sends the
    /// thread to the back of the run queue. `Break` drops it.
    pub fn complete(&mut self, flow: ControlFlow)
        ensures
            final(self)@ == old(self)@.completed(flow),
    {
        match flow {
            ControlFlow::Continue => {},
            ControlFlow::Yield => {
                match self.current {
                    Some(thread) => {
                        self.run_queue.push_back(thread);
                        self.current = None;
                    },
                    None => {},
                }
            },
            ControlFlow::Break => {
                self.current = None;
            },
        }
    }
}

/// A thread that yields while others wait gives the turn to the one that
/// waited longest, and stands behind every thread that was waiting.
pub proof fn lemma_yield_gives_turn(executor: ExecutorView, thread: ThreadRef)
    requires
        executor.current == Some(thread),
        executor.queue.len() > 0,
    ensures
        executor.completed(ControlFlow::Yield).dispatched().current == Some(executor.queue[0]),
        executor.completed(ControlFlow::Yield).dispatched().queue == executor.queue.skip(1).push(
            thread,
        ),
        executor.completed(ControlFlow::Yield).dispatched().queue.last() == thread,
{
    let after = executor.completed(ControlFlow::Yield).dispatched();
    assert(after.queue =~= executor.queue.skip(1).push(thread));
}

/// A thread that yields while nothing else waits gets the turn back.
pub proof fn lemma_yield_alone(executor: ExecutorView, thread: ThreadRef)
    requires
        executor.current == Some(thread),
        executor.queue.len() == 0,
    ensures
        executor.completed(ControlFlow::Yield).dispatched().current == Some(thread),
        executor.completed(ControlFlow::Yield).dispatched().queue == Seq::<ThreadRef>::empty(),
{
    let after = executor.completed(ControlFlow::Yield).dispatched();
    assert(after.queue =~= Seq::<ThreadRef>::empty());
}

/// The run queue is served in the order of arrival: with no thread
/// running, the threads that wait get the turn one after the other, each
/// dropping out with `Break`, in the order in which they stand.
pub proof fn lemma_first_come_first_served(executor: ExecutorView, position: int)
    requires
        executor.current is None,
        0 <= position < executor.queue.len(),
    ensures
        turns(executor, position as nat).dispatched().current == Some(executor.queue[position]),
    decreases position,
{
    if position > 0 {
        let next = executor.dispatched().completed(ControlFlow::Break);
        assert(next.queue =~= executor.queue.skip(1));
        lemma_first_come_first_served(next, position - 1);
    }
}

/// The executor after `count` turns, each given out and ended with `Break`.
pub open spec fn turns(executor: ExecutorView, count: nat) -> ExecutorView
    decreases count,
{
    if count == 0 {
        executor
    } else {
        turns(executor.dispatched().completed(ControlFlow::Break), (count - 1) as nat)
    }
}

/// A thread dropped with `Break` is not in the run queue unless it was
/// there before: the executor does not enqueue it again.
pub proof fn lemma_break_drops(executor: ExecutorView)
    ensures
        executor.completed(ControlFlow::Break).current is None,
        executor.completed(ControlFlow::Break).queue == executor.queue,
{
}

/// `Continue` changes nothing: the thread keeps the turn and the queue
/// stays as it is.
pub proof fn lemma_continue_keeps_turn(executor: ExecutorView)
    ensures
        executor.completed(ControlFlow::Continue) == executor,
        executor.completed(ControlFlow::Continue).dispatched().current == (
        if executor.current is Some || executor.queue.len() == 0 {
            executor.current
        } else {
            Some(executor.queue[0])
        }),
{
}

} // verus!
