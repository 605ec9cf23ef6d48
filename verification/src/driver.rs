//! Driving a thread: starting it on a function, running it on a budget of
//! opcodes across calls and returns, and unwinding it on an error.
//!
//! The machine stops where only the embedder can go on: at a host frame,
//! whose operation the embedder carries out and ends with `host_return`;
//! when the thread has finished; and on an error, which unwinds the script
//! frames down to the nearest host frame, where the embedder may catch it.

use crate::error::{IntegrityError, VmError};
use crate::opcode::VarCount;
use crate::stack::{cut, fits, write_at};
use crate::state::{
    lemma_thread_changed, Frame, Heap, HeapModel, HostCall, Returns, Thread, ThreadModel,
    ThreadStatus, UpValue, Written,
};
use crate::thread::{enter, popped, spec_enter};
use crate::upvalue::{
    close_upvalues, closing, lemma_closed_above, note_closing, spec_close_upvalues,
};
use crate::value::Value;
use crate::vm::{step, Flow};
use vstd::prelude::*;

verus! {

/// What a thread waits for.
#[derive(Clone, Copy, Debug, PartialEq, Eq, Structural)]
pub enum Pending {
    /// No thread is at this place, or the thread has no frame.
    Idle,
    /// More budget: the running frame is a script frame.
    Budget,
    /// The embedder: the running frame is a host frame, whose operation
    /// is to be carried out.
    Host(HostCall),
    /// To be set running again: the thread has frames and is in the
    /// `Suspended` or the `Normal` state, as after a yield.
    Suspended,
    /// Nothing: the first frame has returned, and the results are the
    /// thread's stack.
    Finished,
    /// The handling of an error. The script frames above the nearest host
    /// frame are gone; with no host frame left the thread is in the
    /// `Error` state.
    Failed(VmError),
}

/// The script frames above the nearest host frame are removed, from the
/// running frame down, and the upvalues that are open at or above the
/// base of each are closed.
pub open spec fn spec_unwind(thread: ThreadModel, upvalues: Seq<UpValue>) -> (
    ThreadModel,
    Seq<UpValue>,
)
    decreases thread.frames.len(),
{
    match thread.top_frame() {
        Some(Frame::Script(frame)) => {
            let closed = spec_close_upvalues(thread, upvalues, frame.base);
            spec_unwind(
                ThreadModel { frames: thread.frames.drop_last(), ..closed.0 },
                closed.1,
            )
        },
        _ => (thread, upvalues),
    }
}

/// The objects that unwinding invokes the write barrier on: the cells
/// that the closing of the upvalues of each frame writes a reference into.
pub open spec fn spec_unwind_notes(thread: ThreadModel, upvalues: Seq<UpValue>) -> Seq<Written>
    decreases thread.frames.len(),
{
    match thread.top_frame() {
        Some(Frame::Script(frame)) => {
            let closed = spec_close_upvalues(thread, upvalues, frame.base);
            closing(thread.open_upvalues, thread.stack, frame.base) + spec_unwind_notes(
                ThreadModel { frames: thread.frames.drop_last(), ..closed.0 },
                closed.1,
            )
        },
        _ => Seq::empty(),
    }
}

fn unwind(thread: &mut Thread, upvalues: &mut Vec<UpValue>, barrier: &mut Vec<Written>)
    ensures
        (final(thread)@, final(upvalues)@) == spec_unwind(old(thread)@, old(upvalues)@),
        final(barrier)@ == old(barrier)@ + spec_unwind_notes(old(thread)@, old(upvalues)@),
{
    loop
        invariant
            spec_unwind(old(thread)@, old(upvalues)@) == spec_unwind(thread@, upvalues@),
            old(barrier)@ + spec_unwind_notes(old(thread)@, old(upvalues)@) == barrier@
                + spec_unwind_notes(thread@, upvalues@),
        ensures
            (thread@, upvalues@) == spec_unwind(old(thread)@, old(upvalues)@),
            barrier@ == old(barrier)@ + spec_unwind_notes(old(thread)@, old(upvalues)@),
        decreases thread.frames.len(),
    {
        match thread.top_frame() {
            Some(Frame::Script(frame)) => {
                proof {
                    lemma_closed_above(thread@, upvalues@, frame.base);
                    let notes = closing(thread@.open_upvalues, thread@.stack, frame.base);
                    let closed = spec_close_upvalues(thread@, upvalues@, frame.base);
                    let rest = spec_unwind_notes(
                        ThreadModel { frames: thread@.frames.drop_last(), ..closed.0 },
                        closed.1,
                    );
                    assert((barrier@ + notes) + rest =~= barrier@ + (notes + rest));
                }
                note_closing(thread, frame.base, barrier);
                close_upvalues(thread, upvalues, frame.base);
                thread.frames.pop();
            },
            _ => {
                assert(barrier@ + Seq::<Written>::empty() =~= barrier@);
                break ;
            },
        }
    }
}

impl HeapModel {
    /// Whether thread `t` can run an opcode: it is in the `Running` state,
    /// no error waits to be handled, and its running frame is a script
    /// frame.
    pub open spec fn runnable(self, t: usize) -> bool {
        &&& t < self.threads.len()
        &&& self.threads[t as int].status is Running
        &&& self.threads[t as int].error is None
        &&& self.threads[t as int].top_frame() matches Some(Frame::Script(_))
    }

    /// Thread `t` fails with an error: it is unwound to the nearest host
    /// frame, with the write barrier for the upvalues that are closed, and
    /// keeps the error; with no frame left it enters the `Error` state.
    pub open spec fn fail(self, t: usize, error: VmError) -> HeapModel {
        if t < self.threads.len() {
            let unwound = spec_unwind(self.threads[t as int], self.upvalues);
            HeapModel {
                upvalues: unwound.1,
                barrier: self.barrier + spec_unwind_notes(self.threads[t as int], self.upvalues),
                ..self
            }.with_thread(
                t as int,
                ThreadModel {
                    error: Some(error),
                    status: if unwound.0.frames.len() == 0 {
                        ThreadStatus::Error
                    } else {
                        unwound.0.status
                    },
                    ..unwound.0
                },
            )
        } else {
            self
        }
    }

    /// Up to `budget` opcodes of thread `t`, across calls and returns,
    /// while the thread can run. An opcode that fails makes the thread
    /// fail. With the heap that results comes the budget that is left.
    pub open spec fn steps(self, t: usize, budget: nat) -> (HeapModel, nat)
        decreases budget,
    {
        if budget == 0 || !self.runnable(t) {
            (self, budget)
        } else {
            let stepped = self.step(t);
            let next = match stepped.1 {
                Flow::Failed(e) => stepped.0.fail(t, e),
                _ => stepped.0,
            };
            next.steps(t, (budget - 1) as nat)
        }
    }

    /// What thread `t` waits for.
    pub open spec fn pending(self, t: usize) -> Pending {
        if t >= self.threads.len() {
            Pending::Idle
        } else {
            let thread = self.threads[t as int];
            match (thread.error, thread.status, thread.top_frame()) {
                (Some(e), _, _) => Pending::Failed(e),
                (None, ThreadStatus::Finished, _) => Pending::Finished,
                (None, _, None) => Pending::Idle,
                (None, ThreadStatus::Running, Some(Frame::Host(h))) => Pending::Host(h.function),
                (None, ThreadStatus::Running, Some(Frame::Script(_))) => Pending::Budget,
                (None, _, Some(_)) => Pending::Suspended,
            }
        }
    }

    /// Thread `t`, which has no frame, is started on a function with its
    /// arguments: they make up the stack, the function is called for all
    /// of its results, and the thread is in the `Running` state.
    pub open spec fn start(self, t: usize, function: Value, args: Seq<Value>) -> (
        HeapModel,
        Option<VmError>,
    ) {
        if t >= self.threads.len() {
            (self, Some(VmError::Integrity(IntegrityError::Reference)))
        } else if self.threads[t as int].frames.len() != 0 {
            (self, Some(VmError::Integrity(IntegrityError::Frame)))
        } else if !fits(1, args.len() as int) {
            (self, Some(VmError::StackOverflow))
        } else {
            let thread = self.threads[t as int];
            let entered = spec_enter(
                ThreadModel {
                    stack: seq![function] + args,
                    status: ThreadStatus::Running,
                    error: None,
                    ..thread
                },
                self.closures,
                self.prototypes,
                0,
                args.len() as usize,
                Returns::Values(VarCount::Variable),
            );
            match entered.1 {
                None => (self.with_thread(t as int, entered.0), None),
                Some(e) => (self, Some(e)),
            }
        }
    }

    /// The embedder calls a function in thread `t`: the function and
    /// its arguments are put at the end of the stack, and the function is
    /// called there for all of its results. When it has returned, the
    /// results are the end of the stack from that slot on.
    pub open spec fn call_back(self, t: usize, function: Value, args: Seq<Value>) -> (
        HeapModel,
        Option<VmError>,
    ) {
        if t >= self.threads.len() {
            (self, Some(VmError::Integrity(IntegrityError::Reference)))
        } else if !fits(self.threads[t as int].stack.len() as int, (args.len() + 1) as int) {
            (self, Some(VmError::StackOverflow))
        } else {
            let thread = self.threads[t as int];
            let entered = spec_enter(
                thread.with_stack(thread.stack + (seq![function] + args)),
                self.closures,
                self.prototypes,
                thread.stack.len() as usize,
                args.len() as usize,
                Returns::Values(VarCount::Variable),
            );
            match entered.1 {
                None => (self.with_thread(t as int, entered.0), None),
                Some(e) => (self, Some(e)),
            }
        }
    }

    /// The embedder catches the error of thread `t`: the thread keeps
    /// none. A thread in the `Error` state stays in it.
    pub open spec fn catch(self, t: usize) -> (HeapModel, Option<VmError>) {
        if t < self.threads.len() {
            (
                self.with_thread(t as int, ThreadModel { error: None, ..self.threads[t as int] }),
                self.threads[t as int].error,
            )
        } else {
            (self, None)
        }
    }

    /// The embedder raises an error in thread `t`: a running host frame
    /// is removed, and the thread fails with the error.
    pub open spec fn raise(self, t: usize, error: VmError) -> HeapModel {
        if t < self.threads.len() {
            let thread = self.threads[t as int];
            let below = if thread.top_frame() matches Some(Frame::Host(_)) {
                popped(thread)
            } else {
                thread
            };
            self.with_thread(t as int, below).fail(t, error)
        } else {
            self
        }
    }
}

/// A budget may be spent in parts: running on `a + b` opcodes is running
/// on `a` and then on `b`, and what is left of the two adds up.
pub proof fn lemma_steps_split(heap: HeapModel, t: usize, a: nat, b: nat)
    ensures
        ({
            let first = heap.steps(t, a);
            let second = first.0.steps(t, b);
            heap.steps(t, a + b) == (second.0, first.1 + second.1)
        }),
    decreases a,
{
    if a == 0 || !heap.runnable(t) {
        if heap.runnable(t) {
        } else {
            lemma_steps_stopped(heap, t, b);
            lemma_steps_stopped(heap, t, a + b);
        }
    } else {
        let stepped = heap.step(t);
        let next = match stepped.1 {
            Flow::Failed(e) => stepped.0.fail(t, e),
            _ => stepped.0,
        };
        lemma_steps_split(next, t, (a - 1) as nat, b);
        assert(heap.steps(t, a + b) == next.steps(t, (a + b - 1) as nat));
    }
}

/// A thread that cannot run keeps the heap and the budget as they are.
pub proof fn lemma_steps_stopped(heap: HeapModel, t: usize, budget: nat)
    requires
        !heap.runnable(t),
    ensures
        heap.steps(t, budget) == (heap, budget),
{
}

/// What is left of a budget that was spent in one go is what is left of
/// it when it is spent opcode by opcode: running on a budget is running on
/// one opcode as often as the budget says.
pub proof fn lemma_steps_one_by_one(heap: HeapModel, t: usize, budget: nat)
    requires
        budget >= 1,
    ensures
        heap.steps(t, budget) == ({
            let first = heap.steps(t, 1);
            let rest = first.0.steps(t, (budget - 1) as nat);
            (rest.0, first.1 + rest.1)
        }),
{
    lemma_steps_split(heap, t, 1, (budget - 1) as nat);
}

impl Heap {
    /// Whether a thread can run an opcode.
    pub fn runnable(&self, thread: usize) -> (r: bool)
        ensures
            r == self@.runnable(thread),
    {
        if thread >= self.threads.len() {
            return false;
        }
        let th = &self.threads[thread];
        matches!(th.status, ThreadStatus::Running) && th.error.is_none() && matches!(
            th.top_frame(),
            Some(Frame::Script(_))
        )
    }

    /// What a thread waits for.
    pub fn pending(&self, thread: usize) -> (r: Pending)
        ensures
            r == self@.pending(thread),
    {
        if thread >= self.threads.len() {
            return Pending::Idle;
        }
        let th = &self.threads[thread];
        match (th.error, th.status, th.top_frame()) {
            (Some(e), _, _) => Pending::Failed(e),
            (None, ThreadStatus::Finished, _) => Pending::Finished,
            (None, _, None) => Pending::Idle,
            (None, ThreadStatus::Running, Some(Frame::Host(h))) => Pending::Host(h.function),
            (None, ThreadStatus::Running, Some(Frame::Script(_))) => Pending::Budget,
            (None, _, Some(_)) => Pending::Suspended,
        }
    }

    /// Makes a thread fail with an error.
    pub fn fail(&mut self, thread: usize, error: VmError)
        ensures
            final(self)@ == old(self)@.fail(thread, error),
            final(self).threads.len() == old(self).threads.len(),
            old(self)@.well_formed() ==> final(self)@.well_formed(),
    {
        proof {
            if old(self)@.well_formed() {
                crate::preservation::lemma_fail(old(self)@, thread, error);
            }
        }
        if thread < self.threads.len() {
            unwind(&mut self.threads[thread], &mut self.upvalues, &mut self.barrier);
            self.threads[thread].error = Some(error);
            if self.threads[thread].frames.len() == 0 {
                self.threads[thread].status = ThreadStatus::Error;
            }
            proof {
                lemma_thread_changed(old(self).threads@, self.threads@, thread as int);
            }
        }
    }

    /// Takes the error off a thread, for a host frame that catches it:
    /// the frame can then end with results of its own.
    pub fn catch(&mut self, thread: usize) -> (r: Option<VmError>)
        ensures
            (final(self)@, r) == old(self)@.catch(thread),
            final(self).threads.len() == old(self).threads.len(),
            old(self)@.well_formed() ==> final(self)@.well_formed(),
    {
        if thread < self.threads.len() {
            let error = self.threads[thread].error;
            self.threads[thread].error = None;
            proof {
                lemma_thread_changed(old(self).threads@, self.threads@, thread as int);
                if old(self)@.well_formed() {
                    crate::preservation::lemma_caught(old(self)@, thread);
                }
            }
            error
        } else {
            None
        }
    }

    /// Raises an error of the embedder in a thread.
    pub fn raise(&mut self, thread: usize, error: VmError)
        ensures
            final(self)@ == old(self)@.raise(thread, error),
            final(self).threads.len() == old(self).threads.len(),
            old(self)@.well_formed() ==> final(self)@.well_formed(),
    {
        proof {
            if old(self)@.well_formed() {
                crate::preservation::lemma_raise(old(self)@, thread, error);
            }
        }
        if thread < self.threads.len() {
            if let Some(Frame::Host(_)) = self.threads[thread].top_frame() {
                self.threads[thread].frames.pop();
            }
            proof {
                lemma_thread_changed(old(self).threads@, self.threads@, thread as int);
            }
            self.fail(thread, error);
        }
    }

    /// Starts a thread that has no frame on a function with its arguments.
    pub fn start(&mut self, thread: usize, function: Value, args: &Vec<Value>) -> (r: Option<
        VmError,
    >)
        ensures
            (final(self)@, r) == old(self)@.start(thread, function, args@),
            final(self).threads.len() == old(self).threads.len(),
            old(self)@.well_formed() ==> final(self)@.well_formed(),
    {
        proof {
            if old(self)@.well_formed() {
                crate::preservation::lemma_start(old(self)@, thread, function, args@);
            }
        }
        if thread >= self.threads.len() {
            return Some(VmError::Integrity(IntegrityError::Reference));
        }
        if self.threads[thread].frames.len() != 0 {
            return Some(VmError::Integrity(IntegrityError::Frame));
        }
        if args.len() > usize::MAX - 1 {
            return Some(VmError::StackOverflow);
        }
        let ghost before = self@.threads[thread as int];
        let ghost fresh = ThreadModel {
            stack: seq![function] + args@,
            status: ThreadStatus::Running,
            error: None,
            ..before
        };
        let mut stack: Vec<Value> = Vec::new();
        stack.push(function);
        write_at(&mut stack, 1, args);
        assert(stack@ =~= seq![function] + args@);
        let status = self.threads[thread].status;
        let error = self.threads[thread].error;
        core::mem::swap(&mut self.threads[thread].stack, &mut stack);
        self.threads[thread].status = ThreadStatus::Running;
        self.threads[thread].error = None;
        assert(self.threads[thread as int]@ == fresh);
        let e = enter(
            &mut self.threads[thread],
            &self.closures,
            &self.prototypes,
            0,
            args.len(),
            Returns::Values(VarCount::Variable),
        );
        if e.is_some() {
            proof {
                crate::thread::lemma_enter_failed(
                    fresh,
                    self@.closures,
                    self@.prototypes,
                    0,
                    args.len(),
                    Returns::Values(VarCount::Variable),
                );
            }
            core::mem::swap(&mut self.threads[thread].stack, &mut stack);
            self.threads[thread].status = status;
            self.threads[thread].error = error;
            assert(self.threads[thread as int]@ == before);
        }
        proof {
            lemma_thread_changed(old(self).threads@, self.threads@, thread as int);
            if e.is_some() {
                assert(self@.threads =~= old(self)@.threads);
            }
        }
        e
    }

    /// Calls a function in a thread on behalf of the embedder, at the end
    /// of the thread's stack.
    pub fn call_back(&mut self, thread: usize, function: Value, args: &Vec<Value>) -> (r: Option<
        VmError,
    >)
        ensures
            (final(self)@, r) == old(self)@.call_back(thread, function, args@),
            final(self).threads.len() == old(self).threads.len(),
            old(self)@.well_formed() ==> final(self)@.well_formed(),
    {
        proof {
            if old(self)@.well_formed() {
                crate::preservation::lemma_call_back(old(self)@, thread, function, args@);
            }
        }
        if thread >= self.threads.len() {
            return Some(VmError::Integrity(IntegrityError::Reference));
        }
        let at = self.threads[thread].stack.len();
        if args.len() == usize::MAX || at > usize::MAX - (args.len() + 1) {
            return Some(VmError::StackOverflow);
        }
        let ghost before = self@.threads[thread as int];
        let ghost pushed = before.with_stack(before.stack + (seq![function] + args@));
        self.threads[thread].stack.push(function);
        write_at(&mut self.threads[thread].stack, at + 1, args);
        assert(self.threads[thread as int]@.stack =~= pushed.stack);
        assert(self.threads[thread as int]@ == pushed);
        let e = enter(
            &mut self.threads[thread],
            &self.closures,
            &self.prototypes,
            at,
            args.len(),
            Returns::Values(VarCount::Variable),
        );
        if e.is_some() {
            proof {
                crate::thread::lemma_enter_failed(
                    pushed,
                    self@.closures,
                    self@.prototypes,
                    at,
                    args.len(),
                    Returns::Values(VarCount::Variable),
                );
            }
            cut(&mut self.threads[thread].stack, at);
            assert(self.threads[thread as int]@.stack =~= before.stack);
        }
        proof {
            lemma_thread_changed(old(self).threads@, self.threads@, thread as int);
            if e.is_some() {
                assert(self@.threads =~= old(self)@.threads);
            }
        }
        e
    }

    /// Ends the running host frame of a thread with the results of the
    /// embedder.
    pub fn host_return(&mut self, thread: usize, values: &Vec<Value>) -> (r: Option<VmError>)
        ensures
            (final(self)@, r) == old(self)@.host_return(thread, values@),
            final(self).threads.len() == old(self).threads.len(),
            old(self)@.well_formed() ==> final(self)@.well_formed(),
    {
        proof {
            if old(self)@.well_formed() {
                crate::preservation::lemma_host_return_heap(old(self)@, thread, values@);
            }
        }
        if thread < self.threads.len() {
            let r = self.threads[thread].host_return(values);
            proof {
                lemma_thread_changed(old(self).threads@, self.threads@, thread as int);
            }
            r
        } else {
            Some(VmError::Integrity(IntegrityError::Reference))
        }
    }

    /// Runs a thread on a budget of opcodes, across calls and returns,
    /// until the budget is spent or the thread cannot run: it waits for
    /// the embedder, has finished, or has failed. Returns the budget that
    /// is left. A heap that is well-formed stays so.
    pub fn resume(&mut self, thread: usize, budget: u32) -> (left: u32)
        ensures
            (final(self)@, left as nat) == old(self)@.steps(thread, budget as nat),
            final(self).threads.len() == old(self).threads.len(),
            old(self)@.well_formed() ==> final(self)@.well_formed(),
    {
        let mut left: u32 = budget;
        while left > 0 && self.runnable(thread)
            invariant
                old(self)@.steps(thread, budget as nat) == self@.steps(thread, left as nat),
                self.threads.len() == old(self).threads.len(),
                old(self)@.well_formed() ==> self@.well_formed(),
            decreases left,
        {
            match step(self, thread) {
                Flow::Failed(e) => {
                    self.fail(thread, e);
                },
                _ => {},
            }
            left = left - 1;
        }
        left
    }
}

} // verus!
