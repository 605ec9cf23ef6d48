//! Call frames: entering a function, handing results to the frame below,
//! returning, tail calls, variable arguments, and what is asked of the
//! embedder.

use crate::error::{BinaryOperatorError, IntegrityError, VmError};
use crate::number::{number_le, number_lt, spec_number_le, spec_number_lt};
use crate::opcode::{RegisterIndex, VarCount};
use crate::stack::{
    cut, fits, grow, pad_or_cut, slice, spec_cut, spec_grown, spec_pad_or_cut, spec_slice,
    spec_write_at, write_at,
};
use crate::state::{
    models, Closure, ClosureModel, Frame, HostCall, HostFrame, Prototype, PrototypeModel, Returns,
    ScriptFrame, Thread, ThreadModel, ThreadStatus, UpValue,
};
use crate::upvalue::{close_upvalues, spec_close_upvalues};
use crate::value::{Function, Value};
use vstd::prelude::*;

verus! {

/// The program counter moved by a signed offset, unless that leaves the
/// range of addresses.
pub open spec fn spec_jump_target(pc: usize, offset: i16) -> Option<usize> {
    if 0 <= pc + offset <= usize::MAX {
        Some((pc + offset) as usize)
    } else {
        None
    }
}

/// The program counter moved by a signed offset, unless that leaves the range
/// of addresses.
#[verifier::when_used_as_spec(spec_jump_target)]
pub fn jump_target(pc: usize, offset: i16) -> (r: Option<usize>)
    ensures
        r == spec_jump_target(pc, offset),
{
    if offset >= 0 {
        pc.checked_add(offset as usize)
    } else {
        let back: usize = (-(offset as i32)) as usize;
        pc.checked_sub(back)
    }
}

/// The registers of a frame that is entered: the first `fixed` arguments,
/// then `Nil` up to the frame's size.
pub open spec fn spec_window(args: Seq<Value>, fixed: int, size: int) -> Seq<Value> {
    Seq::new(
        size as nat,
        |i: int|
            if i < fixed && i < args.len() {
                args[i]
            } else {
                Value::Nil
            },
    )
}

fn window(args: &Vec<Value>, fixed: usize, size: usize) -> (r: Vec<Value>)
    ensures
        r@ == spec_window(args@, fixed as int, size as int),
{
    let mut r: Vec<Value> = Vec::new();
    let mut i: usize = 0;
    while i < size
        invariant
            i <= size,
            r@ == spec_window(args@, fixed as int, i as int),
        decreases size - i,
    {
        let v = if i < fixed && i < args.len() { args[i] } else { Value::Nil };
        r.push(v);
        assert(r@ =~= spec_window(args@, fixed as int, i + 1));
        i = i + 1;
    }
    r
}

/// The number of values that an opcode takes from slot `first` on: the
/// fixed count, or all up to the top that the opcode before left.
pub open spec fn spec_taken(frame: ScriptFrame, first: int, count: VarCount) -> Result<
    usize,
    VmError,
> {
    match count {
        VarCount::Constant(n) => Ok(n as usize),
        VarCount::Variable => if !frame.is_variable {
            Err(VmError::Integrity(IntegrityError::ExpectedVariable(true)))
        } else if frame.top < first {
            Err(VmError::Integrity(IntegrityError::Register))
        } else {
            Ok((frame.top - first) as usize)
        },
    }
}

fn taken(frame: &ScriptFrame, first: usize, count: VarCount) -> (r: Result<usize, VmError>)
    ensures
        r == spec_taken(*frame, first as int, count),
{
    match count {
        VarCount::Constant(n) => Ok(n as usize),
        VarCount::Variable => if !frame.is_variable {
            Err(VmError::Integrity(IntegrityError::ExpectedVariable(true)))
        } else if frame.top < first {
            Err(VmError::Integrity(IntegrityError::Register))
        } else {
            Ok(frame.top - first)
        },
    }
}

/// The frame with its top back at the end of its registers.
pub open spec fn settled(frame: ScriptFrame) -> ScriptFrame {
    ScriptFrame { top: (frame.base + frame.size) as usize, is_variable: false, ..frame }
}

/// Whether the frame's registers end at a slot that exists on this machine.
pub open spec fn frame_fits(frame: ScriptFrame) -> bool {
    fits(frame.base as int, frame.size as int)
}

/// Calls the value in slot `at` with the `argc` arguments in the slots
/// after it.
///
/// A closure gets a script frame. Its registers start right after the
/// function, or after all the arguments if its prototype takes variable
/// arguments, which then stay where they are, below the registers. The
/// registers hold the fixed parameters, then `Nil`. A function of the
/// embedder gets a host frame over the arguments. Anything else cannot be
/// called.
pub open spec fn spec_enter(
    thread: ThreadModel,
    closures: Seq<ClosureModel>,
    prototypes: Seq<PrototypeModel>,
    at: usize,
    argc: usize,
    results: Returns,
) -> (ThreadModel, Option<VmError>) {
    if at >= thread.stack.len() || spec_slice(thread.stack, at + 1, argc as int) is None {
        (thread, Some(VmError::Integrity(IntegrityError::Register)))
    } else {
        match thread.stack[at as int] {
            Value::Function(Function::Closure(c)) => {
                if c >= closures.len() || closures[c as int].proto >= prototypes.len() {
                    (thread, Some(VmError::Integrity(IntegrityError::Reference)))
                } else {
                    let p = prototypes[closures[c as int].proto as int];
                    let base = if p.has_varargs {
                        at + 1 + argc
                    } else {
                        at + 1
                    };
                    if thread.frames.len() >= thread.frame_limit || !fits(
                        base,
                        p.stack_size as int,
                    ) || !fits(at as int, 1 + p.fixed_params) {
                        (thread, Some(VmError::StackOverflow))
                    } else {
                        let args = spec_slice(thread.stack, at + 1, argc as int).unwrap();
                        let frame = ScriptFrame {
                            closure: c,
                            bottom: at,
                            base: base as usize,
                            size: p.stack_size as usize,
                            top: (base + p.stack_size) as usize,
                            pc: 0,
                            results,
                            varargs_start: (at + 1 + p.fixed_params) as usize,
                            varargs_count: if p.has_varargs && argc > p.fixed_params {
                                (argc - p.fixed_params) as usize
                            } else {
                                0
                            },
                            is_variable: false,
                        };
                        (
                            ThreadModel {
                                stack: spec_write_at(
                                    thread.stack,
                                    base,
                                    spec_window(args, p.fixed_params as int, p.stack_size as int),
                                ),
                                frames: thread.frames.push(Frame::Script(frame)),
                                ..thread
                            },
                            None,
                        )
                    }
                }
            },
            Value::Function(Function::Host(h)) => {
                if thread.frames.len() >= thread.frame_limit {
                    (thread, Some(VmError::StackOverflow))
                } else {
                    let frame = HostFrame {
                        function: HostCall::Function(h),
                        bottom: at,
                        base: (at + 1) as usize,
                        arg_count: argc,
                        results,
                    };
                    (
                        ThreadModel { frames: thread.frames.push(Frame::Host(frame)), ..thread },
                        None,
                    )
                }
            },
            v => (thread, Some(VmError::Call(v.spec_kind()))),
        }
    }
}

/// Calls the value in slot `at` with the `argc` arguments in the slots after
/// it.
pub fn enter(
    thread: &mut Thread,
    closures: &Vec<Closure>,
    prototypes: &Vec<Prototype>,
    at: usize,
    argc: usize,
    results: Returns,
) -> (r: Option<VmError>)
    ensures
        (final(thread)@, r) == spec_enter(
            old(thread)@,
            models(closures@),
            models(prototypes@),
            at,
            argc,
            results,
        ),
{
    if at >= thread.stack.len() {
        return Some(VmError::Integrity(IntegrityError::Register));
    }
    let args = match slice(&thread.stack, at + 1, argc) {
        Some(args) => args,
        None => {
            return Some(VmError::Integrity(IntegrityError::Register));
        },
    };
    match thread.stack[at] {
        Value::Function(Function::Closure(c)) => {
            if c >= closures.len() || closures[c].proto >= prototypes.len() {
                return Some(VmError::Integrity(IntegrityError::Reference));
            }
            let p = &prototypes[closures[c].proto];
            let fixed: usize = p.fixed_params as usize;
            let size: usize = p.stack_size as usize;
            let base: usize = if p.has_varargs {
                at + 1 + argc
            } else {
                at + 1
            };
            if thread.frames.len() >= thread.frame_limit || base > usize::MAX - size || at
                > usize::MAX - 1 - fixed {
                return Some(VmError::StackOverflow);
            }
            let registers = window(&args, fixed, size);
            write_at(&mut thread.stack, base, &registers);
            thread.frames.push(
                Frame::Script(
                    ScriptFrame {
                        closure: c,
                        bottom: at,
                        base,
                        size,
                        top: base + size,
                        pc: 0,
                        results,
                        varargs_start: at + 1 + fixed,
                        varargs_count: if p.has_varargs && argc > fixed {
                            argc - fixed
                        } else {
                            0
                        },
                        is_variable: false,
                    },
                ),
            );
            None
        },
        Value::Function(Function::Host(h)) => {
            if thread.frames.len() >= thread.frame_limit {
                return Some(VmError::StackOverflow);
            }
            thread.frames.push(
                Frame::Host(
                    HostFrame {
                        function: HostCall::Function(h),
                        bottom: at,
                        base: at + 1,
                        arg_count: argc,
                        results,
                    },
                ),
            );
            None
        },
        v => Some(VmError::Call(v.kind())),
    }
}

/// A call that fails leaves the thread as it is.
pub proof fn lemma_enter_failed(
    thread: ThreadModel,
    closures: Seq<ClosureModel>,
    prototypes: Seq<PrototypeModel>,
    at: usize,
    argc: usize,
    results: Returns,
)
    ensures
        spec_enter(thread, closures, prototypes, at, argc, results).1 is Some ==> spec_enter(
            thread,
            closures,
            prototypes,
            at,
            argc,
            results,
        ).0 == thread,
{
}

/// The first of the values, or `Nil` if there is none.
pub open spec fn first_or_nil(values: Seq<Value>) -> Value {
    if values.len() > 0 {
        values[0]
    } else {
        Value::Nil
    }
}

/// The end of a numeric loop step that was computed in binary64
/// arithmetic. The results are the new index, the limit and the step, as
/// numbers. The index register takes the new index. The loop goes on if
/// the step is positive and the new index is not above the limit, or the
/// step is negative and the new index is not below the limit: then the
/// jump is taken and the loop variable takes the new index.
pub open spec fn spec_finish_for_loop(
    thread: ThreadModel,
    frame: ScriptFrame,
    values: Seq<Value>,
    base: usize,
    jump: i16,
) -> (ThreadModel, Option<VmError>) {
    if values.len() >= 3 && values[0] is Number && values[1] is Number && values[2] is Number {
        let index = values[0]->Number_0;
        let limit = values[1]->Number_0;
        let step = values[2]->Number_0;
        if base + 3 >= thread.stack.len() {
            (thread, Some(VmError::Integrity(IntegrityError::Register)))
        } else {
            let goes_on = (spec_number_lt(0, step) && spec_number_le(index, limit)) || (
            spec_number_lt(step, 0) && spec_number_le(limit, index));
            let stepped = thread.stack.update(base as int, Value::Number(index));
            if !goes_on {
                (thread.with_stack(stepped), None)
            } else {
                match spec_jump_target(frame.pc, jump) {
                    None => (
                        thread.with_stack(stepped),
                        Some(VmError::Integrity(IntegrityError::Jump)),
                    ),
                    Some(pc) => (
                        thread.with_stack(
                            stepped.update(base + 3, Value::Number(index)),
                        ).with_top_frame(Frame::Script(ScriptFrame { pc, ..frame })),
                        None,
                    ),
                }
            }
        }
    } else {
        (thread, Some(VmError::BinaryOperator(BinaryOperatorError::Add)))
    }
}

/// Hands the results of a frame that was just removed to the frame below.
///
/// Below a call, a script frame takes them from the removed frame's bottom
/// slot on: the number it asked for, `Nil` standing in for missing ones, or
/// all of them, its top then marking their end. The stack is made to hold
/// all the registers of that frame again. Where the frame below is a host
/// frame, or there is none, the results are left at the end of the stack
/// from that slot on; with no frame left the thread has finished.
pub open spec fn spec_deliver(
    thread: ThreadModel,
    bottom: usize,
    values: Seq<Value>,
    results: Returns,
) -> (ThreadModel, Option<VmError>) {
    if !fits(bottom as int, (values.len() + 256) as int) {
        (thread, Some(VmError::StackOverflow))
    } else {
        match thread.top_frame() {
            Some(Frame::Script(frame)) => if !frame_fits(frame) {
                (thread, Some(VmError::StackOverflow))
            } else {
                match results {
                    Returns::Values(VarCount::Constant(n)) => (
                        thread.with_stack(
                            spec_grown(
                                spec_write_at(
                                    thread.stack,
                                    bottom as int,
                                    spec_pad_or_cut(values, n as int),
                                ),
                                frame.base + frame.size,
                            ),
                        ).with_top_frame(Frame::Script(settled(frame))),
                        None,
                    ),
                    Returns::Values(VarCount::Variable) => (
                        thread.with_stack(
                            spec_grown(
                                spec_write_at(thread.stack, bottom as int, values),
                                frame.base + frame.size,
                            ),
                        ).with_top_frame(
                            Frame::Script(
                                ScriptFrame {
                                    top: (bottom + values.len()) as usize,
                                    is_variable: true,
                                    ..frame
                                },
                            ),
                        ),
                        None,
                    ),
                    Returns::Register(dest) => {
                        let stack = spec_grown(
                            spec_cut(thread.stack, bottom as int),
                            frame.base + frame.size,
                        );
                        if dest < stack.len() {
                            (
                                thread.with_stack(stack.update(dest as int, first_or_nil(values))),
                                None,
                            )
                        } else {
                            (
                                thread.with_stack(stack),
                                Some(VmError::Integrity(IntegrityError::Register)),
                            )
                        }
                    },
                    Returns::ForLoop { base, jump } => spec_finish_for_loop(
                        thread.with_stack(
                            spec_grown(
                                spec_cut(thread.stack, bottom as int),
                                frame.base + frame.size,
                            ),
                        ),
                        frame,
                        values,
                        base,
                        jump,
                    ),
                }
            },
            Some(Frame::Host(_)) => (
                thread.with_stack(
                    spec_cut(
                        spec_write_at(thread.stack, bottom as int, values),
                        bottom + values.len(),
                    ),
                ),
                None,
            ),
            None => (
                ThreadModel {
                    stack: spec_cut(
                        spec_write_at(thread.stack, bottom as int, values),
                        bottom + values.len(),
                    ),
                    status: ThreadStatus::Finished,
                    ..thread
                },
                None,
            ),
        }
    }
}

fn set_top_frame(thread: &mut Thread, frame: Frame)
    ensures
        final(thread)@ == old(thread)@.with_top_frame(frame),
{
    let n = thread.frames.len();
    if n > 0 {
        thread.frames[n - 1] = frame;
    }
}

fn finish_for_loop(
    thread: &mut Thread,
    frame: ScriptFrame,
    values: &Vec<Value>,
    base: usize,
    jump: i16,
) -> (r: Option<VmError>)
    ensures
        (final(thread)@, r) == spec_finish_for_loop(old(thread)@, frame, values@, base, jump),
{
    if values.len() < 3 {
        return Some(VmError::BinaryOperator(BinaryOperatorError::Add));
    }
    match (values[0], values[1], values[2]) {
        (Value::Number(index), Value::Number(limit), Value::Number(step)) => {
            if base >= thread.stack.len() || 3 >= thread.stack.len() - base {
                return Some(VmError::Integrity(IntegrityError::Register));
            }
            let goes_on = (number_lt(0, step) && number_le(index, limit)) || (number_lt(step, 0)
                && number_le(limit, index));
            thread.stack[base] = Value::Number(index);
            if !goes_on {
                None
            } else {
                match jump_target(frame.pc, jump) {
                    None => Some(VmError::Integrity(IntegrityError::Jump)),
                    Some(pc) => {
                        thread.stack[base + 3] = Value::Number(index);
                        let mut next = frame;
                        next.pc = pc;
                        set_top_frame(thread, Frame::Script(next));
                        None
                    },
                }
            }
        },
        _ => Some(VmError::BinaryOperator(BinaryOperatorError::Add)),
    }
}

/// Hands the results of a frame that was just removed to the frame below.
pub fn deliver(thread: &mut Thread, bottom: usize, values: &Vec<Value>, results: Returns) -> (r:
    Option<VmError>)
    ensures
        (final(thread)@, r) == spec_deliver(old(thread)@, bottom, values@, results),
{
    if bottom > usize::MAX - 256 || values.len() > usize::MAX - 256 - bottom {
        return Some(VmError::StackOverflow);
    }
    let n = thread.frames.len();
    if n == 0 {
        write_at(&mut thread.stack, bottom, values);
        cut(&mut thread.stack, bottom + values.len());
        thread.status = ThreadStatus::Finished;
        return None;
    }
    match thread.frames[n - 1] {
        Frame::Script(frame) => {
            if frame.base > usize::MAX - frame.size {
                return Some(VmError::StackOverflow);
            }
            let end = frame.base + frame.size;
            match results {
                Returns::Values(VarCount::Constant(n)) => {
                    let fixed = pad_or_cut(values, n as usize);
                    write_at(&mut thread.stack, bottom, &fixed);
                    grow(&mut thread.stack, end);
                    let mut next = frame;
                    next.is_variable = false;
                    next.top = end;
                    set_top_frame(thread, Frame::Script(next));
                    None
                },
                Returns::Values(VarCount::Variable) => {
                    write_at(&mut thread.stack, bottom, values);
                    grow(&mut thread.stack, end);
                    let mut next = frame;
                    next.top = bottom + values.len();
                    next.is_variable = true;
                    set_top_frame(thread, Frame::Script(next));
                    None
                },
                Returns::Register(dest) => {
                    cut(&mut thread.stack, bottom);
                    grow(&mut thread.stack, end);
                    if dest < thread.stack.len() {
                        let v = if values.len() > 0 { values[0] } else { Value::Nil };
                        thread.stack[dest] = v;
                        None
                    } else {
                        Some(VmError::Integrity(IntegrityError::Register))
                    }
                },
                Returns::ForLoop { base, jump } => {
                    cut(&mut thread.stack, bottom);
                    grow(&mut thread.stack, end);
                    finish_for_loop(thread, frame, values, base, jump)
                },
            }
        },
        Frame::Host(_) => {
            write_at(&mut thread.stack, bottom, values);
            cut(&mut thread.stack, bottom + values.len());
            None
        },
    }
}

/// The slot of a register of a frame, if it exists on this machine.
pub open spec fn spec_slot(frame: ScriptFrame, register: RegisterIndex) -> Option<usize> {
    if frame.base + register.0 + 4 <= usize::MAX {
        Some((frame.base + register.0) as usize)
    } else {
        None
    }
}

/// The slot of a register of a frame, if it exists on this machine.
#[verifier::when_used_as_spec(spec_slot)]
pub fn slot(frame: ScriptFrame, register: RegisterIndex) -> (r: Option<usize>)
    ensures
        r == spec_slot(frame, register),
{
    if frame.base > usize::MAX - 4 - (register.0 as usize) {
        None
    } else {
        Some(frame.base + register.0 as usize)
    }
}

/// The `Call` opcode in the running frame: calls the function in register
/// `func` with the arguments in the registers after it, a fixed number of
/// them or all up to the top.
pub open spec fn spec_call_function(
    thread: ThreadModel,
    closures: Seq<ClosureModel>,
    prototypes: Seq<PrototypeModel>,
    frame: ScriptFrame,
    func: RegisterIndex,
    args: VarCount,
    results: VarCount,
) -> (ThreadModel, Option<VmError>) {
    match spec_slot(frame, func) {
        None => (thread, Some(VmError::Integrity(IntegrityError::Register))),
        Some(at) => match spec_taken(frame, at + 1, args) {
            Err(e) => (thread, Some(e)),
            Ok(argc) => if !frame_fits(frame) {
                (thread, Some(VmError::StackOverflow))
            } else {
                spec_enter(
                    thread.with_top_frame(Frame::Script(settled(frame))),
                    closures,
                    prototypes,
                    at,
                    argc,
                    Returns::Values(results),
                )
            },
        },
    }
}

/// The `Call` opcode in the running frame.
pub fn call_function(
    thread: &mut Thread,
    closures: &Vec<Closure>,
    prototypes: &Vec<Prototype>,
    frame: ScriptFrame,
    func: RegisterIndex,
    args: VarCount,
    results: VarCount,
) -> (r: Option<VmError>)
    ensures
        (final(thread)@, r) == spec_call_function(
            old(thread)@,
            models(closures@),
            models(prototypes@),
            frame,
            func,
            args,
            results,
        ),
{
    let at = match slot(frame, func) {
        None => {
            return Some(VmError::Integrity(IntegrityError::Register));
        },
        Some(at) => at,
    };
    let argc = match taken(&frame, at + 1, args) {
        Err(e) => {
            return Some(e);
        },
        Ok(argc) => argc,
    };
    if frame.base > usize::MAX - frame.size {
        return Some(VmError::StackOverflow);
    }
    let mut next = frame;
    next.top = frame.base + frame.size;
    next.is_variable = false;
    set_top_frame(thread, Frame::Script(next));
    enter(thread, closures, prototypes, at, argc, Returns::Values(results))
}

/// The thread without its running frame.
pub open spec fn popped(thread: ThreadModel) -> ThreadModel {
    if thread.frames.len() > 0 {
        ThreadModel { frames: thread.frames.drop_last(), ..thread }
    } else {
        thread
    }
}

fn pop_frame(thread: &mut Thread)
    ensures
        final(thread)@ == popped(old(thread)@),
{
    if thread.frames.len() > 0 {
        thread.frames.pop();
    }
}

/// The `Return` opcode in the running frame: the values from register
/// `start` on, a fixed number of them or all up to the top, become the
/// results of the frame. The upvalues that are open at or above the
/// frame's base are closed, the frame is removed, and the results are
/// handed to the frame below.
pub open spec fn spec_return_upper(
    thread: ThreadModel,
    upvalues: Seq<UpValue>,
    frame: ScriptFrame,
    start: RegisterIndex,
    count: VarCount,
) -> (ThreadModel, Seq<UpValue>, Option<VmError>) {
    match spec_slot(frame, start) {
        None => (thread, upvalues, Some(VmError::Integrity(IntegrityError::Register))),
        Some(first) => match spec_taken(frame, first as int, count) {
            Err(e) => (thread, upvalues, Some(e)),
            Ok(n) => match spec_slice(thread.stack, first as int, n as int) {
                None => (thread, upvalues, Some(VmError::Integrity(IntegrityError::Register))),
                Some(values) => {
                    let closed = spec_close_upvalues(thread, upvalues, frame.base);
                    let delivered = spec_deliver(
                        popped(closed.0),
                        frame.bottom,
                        values,
                        frame.results,
                    );
                    (delivered.0, closed.1, delivered.1)
                },
            },
        },
    }
}

/// The `Return` opcode in the running frame.
pub fn return_upper(
    thread: &mut Thread,
    upvalues: &mut Vec<UpValue>,
    frame: ScriptFrame,
    start: RegisterIndex,
    count: VarCount,
) -> (r: Option<VmError>)
    ensures
        (final(thread)@, final(upvalues)@, r) == spec_return_upper(
            old(thread)@,
            old(upvalues)@,
            frame,
            start,
            count,
        ),
{
    let first = match slot(frame, start) {
        None => {
            return Some(VmError::Integrity(IntegrityError::Register));
        },
        Some(first) => first,
    };
    let n = match taken(&frame, first, count) {
        Err(e) => {
            return Some(e);
        },
        Ok(n) => n,
    };
    let values = match slice(&thread.stack, first, n) {
        None => {
            return Some(VmError::Integrity(IntegrityError::Register));
        },
        Some(values) => values,
    };
    close_upvalues(thread, upvalues, frame.base);
    pop_frame(thread);
    deliver(thread, frame.bottom, &values, frame.results)
}

/// The `TailCall` opcode in the running frame: the function in register
/// `func` and its arguments take the place of the running frame, whose
/// open upvalues are closed first. The called function returns to where
/// the running frame would have returned.
pub open spec fn spec_tail_call_function(
    thread: ThreadModel,
    upvalues: Seq<UpValue>,
    closures: Seq<ClosureModel>,
    prototypes: Seq<PrototypeModel>,
    frame: ScriptFrame,
    func: RegisterIndex,
    args: VarCount,
) -> (ThreadModel, Seq<UpValue>, Option<VmError>) {
    match spec_slot(frame, func) {
        None => (thread, upvalues, Some(VmError::Integrity(IntegrityError::Register))),
        Some(at) => match spec_taken(frame, at + 1, args) {
            Err(e) => (thread, upvalues, Some(e)),
            Ok(argc) => match spec_slice(thread.stack, at as int, argc + 1) {
                None => (thread, upvalues, Some(VmError::Integrity(IntegrityError::Register))),
                Some(values) => if !fits(frame.bottom as int, values.len() as int) {
                    (thread, upvalues, Some(VmError::StackOverflow))
                } else {
                    let closed = spec_close_upvalues(thread, upvalues, frame.base);
                    let moved = popped(closed.0).with_stack(
                        spec_write_at(closed.0.stack, frame.bottom as int, values),
                    );
                    let entered = spec_enter(
                        moved,
                        closures,
                        prototypes,
                        frame.bottom,
                        argc,
                        frame.results,
                    );
                    (entered.0, closed.1, entered.1)
                },
            },
        },
    }
}

/// The `TailCall` opcode in the running frame.
pub fn tail_call_function(
    thread: &mut Thread,
    upvalues: &mut Vec<UpValue>,
    closures: &Vec<Closure>,
    prototypes: &Vec<Prototype>,
    frame: ScriptFrame,
    func: RegisterIndex,
    args: VarCount,
) -> (r: Option<VmError>)
    ensures
        (final(thread)@, final(upvalues)@, r) == spec_tail_call_function(
            old(thread)@,
            old(upvalues)@,
            models(closures@),
            models(prototypes@),
            frame,
            func,
            args,
        ),
{
    let at = match slot(frame, func) {
        None => {
            return Some(VmError::Integrity(IntegrityError::Register));
        },
        Some(at) => at,
    };
    let argc = match taken(&frame, at + 1, args) {
        Err(e) => {
            return Some(e);
        },
        Ok(argc) => argc,
    };
    if argc == usize::MAX {
        return Some(VmError::Integrity(IntegrityError::Register));
    }
    let values = match slice(&thread.stack, at, argc + 1) {
        None => {
            return Some(VmError::Integrity(IntegrityError::Register));
        },
        Some(values) => values,
    };
    if frame.bottom > usize::MAX - values.len() {
        return Some(VmError::StackOverflow);
    }
    close_upvalues(thread, upvalues, frame.base);
    pop_frame(thread);
    write_at(&mut thread.stack, frame.bottom, &values);
    enter(thread, closures, prototypes, frame.bottom, argc, frame.results)
}

/// The `VarArgs` opcode in the running frame: the frame's variable
/// arguments are copied to the registers from `dest` on, a fixed number of
/// them, `Nil` standing in for missing ones, or all, the top then marking
/// their end.
pub open spec fn spec_varargs(
    thread: ThreadModel,
    frame: ScriptFrame,
    dest: RegisterIndex,
    count: VarCount,
) -> (ThreadModel, Option<VmError>) {
    match (
        spec_slot(frame, dest),
        spec_slice(thread.stack, frame.varargs_start as int, frame.varargs_count as int),
    ) {
        (Some(at), Some(values)) => if !fits(at as int, (values.len() + 256) as int) || !frame_fits(
            frame,
        ) {
            (thread, Some(VmError::StackOverflow))
        } else {
            match count {
                VarCount::Constant(n) => (
                    thread.with_stack(
                        spec_write_at(thread.stack, at as int, spec_pad_or_cut(values, n as int)),
                    ).with_top_frame(Frame::Script(settled(frame))),
                    None,
                ),
                VarCount::Variable => (
                    thread.with_stack(spec_write_at(thread.stack, at as int, values)).with_top_frame(
                        Frame::Script(
                            ScriptFrame {
                                top: (at + values.len()) as usize,
                                is_variable: true,
                                ..frame
                            },
                        ),
                    ),
                    None,
                ),
            }
        },
        _ => (thread, Some(VmError::Integrity(IntegrityError::Register))),
    }
}

/// The `VarArgs` opcode in the running frame.
pub fn varargs(thread: &mut Thread, frame: ScriptFrame, dest: RegisterIndex, count: VarCount) -> (r:
    Option<VmError>)
    ensures
        (final(thread)@, r) == spec_varargs(old(thread)@, frame, dest, count),
{
    let at = match slot(frame, dest) {
        None => {
            return Some(VmError::Integrity(IntegrityError::Register));
        },
        Some(at) => at,
    };
    let values = match slice(&thread.stack, frame.varargs_start, frame.varargs_count) {
        None => {
            return Some(VmError::Integrity(IntegrityError::Register));
        },
        Some(values) => values,
    };
    if at > usize::MAX - 256 || values.len() > usize::MAX - 256 - at || frame.base > usize::MAX
        - frame.size {
        return Some(VmError::StackOverflow);
    }
    let mut next = frame;
    match count {
        VarCount::Constant(n) => {
            let fixed = pad_or_cut(&values, n as usize);
            write_at(&mut thread.stack, at, &fixed);
            next.top = frame.base + frame.size;
            next.is_variable = false;
        },
        VarCount::Variable => {
            write_at(&mut thread.stack, at, &values);
            next.top = at + values.len();
            next.is_variable = true;
        },
    }
    set_top_frame(thread, Frame::Script(next));
    None
}

/// The `GenericForCall` opcode in the running frame: calls the iterator
/// in register `base` with the two registers after it as arguments. The
/// three are copied to the registers from `base + 3` on and the call is
/// made there, so that its `var_count` results start at `base + 3` and
/// the three registers stay as they are.
pub open spec fn spec_call_function_non_destructive(
    thread: ThreadModel,
    closures: Seq<ClosureModel>,
    prototypes: Seq<PrototypeModel>,
    frame: ScriptFrame,
    base: RegisterIndex,
    var_count: u8,
) -> (ThreadModel, Option<VmError>) {
    match spec_slot(frame, base) {
        None => (thread, Some(VmError::Integrity(IntegrityError::Register))),
        Some(at) => match spec_slice(thread.stack, at as int, 3) {
            None => (thread, Some(VmError::Integrity(IntegrityError::Register))),
            Some(values) => if !frame_fits(frame) || !fits(at as int, 8) {
                (thread, Some(VmError::StackOverflow))
            } else {
                spec_enter(
                    thread.with_stack(
                        spec_write_at(thread.stack, at + 3, values),
                    ).with_top_frame(Frame::Script(settled(frame))),
                    closures,
                    prototypes,
                    (at + 3) as usize,
                    2,
                    Returns::Values(VarCount::Constant(var_count)),
                )
            },
        },
    }
}

/// The `GenericForCall` opcode in the running frame.
pub fn call_function_non_destructive(
    thread: &mut Thread,
    closures: &Vec<Closure>,
    prototypes: &Vec<Prototype>,
    frame: ScriptFrame,
    base: RegisterIndex,
    var_count: u8,
) -> (r: Option<VmError>)
    ensures
        (final(thread)@, r) == spec_call_function_non_destructive(
            old(thread)@,
            models(closures@),
            models(prototypes@),
            frame,
            base,
            var_count,
        ),
{
    let at = match slot(frame, base) {
        None => {
            return Some(VmError::Integrity(IntegrityError::Register));
        },
        Some(at) => at,
    };
    let values = match slice(&thread.stack, at, 3) {
        None => {
            return Some(VmError::Integrity(IntegrityError::Register));
        },
        Some(values) => values,
    };
    if frame.base > usize::MAX - frame.size || at > usize::MAX - 8 {
        return Some(VmError::StackOverflow);
    }
    write_at(&mut thread.stack, at + 3, &values);
    let mut next = frame;
    next.top = frame.base + frame.size;
    next.is_variable = false;
    set_top_frame(thread, Frame::Script(next));
    enter(thread, closures, prototypes, at + 3, 2, Returns::Values(VarCount::Constant(var_count)))
}

/// Asks the embedder for an operation: the arguments are put at the end
/// of the stack and a host frame over them becomes the running frame.
pub open spec fn spec_request(
    thread: ThreadModel,
    function: HostCall,
    args: Seq<Value>,
    results: Returns,
) -> (ThreadModel, Option<VmError>) {
    if thread.frames.len() >= thread.frame_limit || !fits(
        thread.stack.len() as int,
        args.len() as int,
    ) {
        (thread, Some(VmError::StackOverflow))
    } else {
        (
            ThreadModel {
                stack: thread.stack + args,
                frames: thread.frames.push(
                    Frame::Host(
                        HostFrame {
                            function,
                            bottom: thread.stack.len() as usize,
                            base: thread.stack.len() as usize,
                            arg_count: args.len() as usize,
                            results,
                        },
                    ),
                ),
                ..thread
            },
            None,
        )
    }
}

/// Asks the embedder for an operation.
pub fn request(thread: &mut Thread, function: HostCall, args: &Vec<Value>, results: Returns) -> (r:
    Option<VmError>)
    ensures
        (final(thread)@, r) == spec_request(old(thread)@, function, args@, results),
{
    let bottom = thread.stack.len();
    if thread.frames.len() >= thread.frame_limit || bottom > usize::MAX - args.len() {
        return Some(VmError::StackOverflow);
    }
    write_at(&mut thread.stack, bottom, args);
    assert(thread.stack@ =~= old(thread).stack@ + args@);
    thread.frames.push(
        Frame::Host(
            HostFrame { function, bottom, base: bottom, arg_count: args.len(), results },
        ),
    );
    None
}

/// The arguments of the running host frame, or `None` if the running
/// frame is no host frame or the stack does not hold them.
pub open spec fn spec_host_arguments(thread: ThreadModel) -> Option<Seq<Value>> {
    match thread.top_frame() {
        Some(Frame::Host(h)) => spec_slice(thread.stack, h.base as int, h.arg_count as int),
        _ => None,
    }
}

/// The operation that the running host frame stands for.
pub open spec fn spec_host_call(thread: ThreadModel) -> Option<HostCall> {
    match thread.top_frame() {
        Some(Frame::Host(h)) => Some(h.function),
        _ => None,
    }
}

/// The running host frame ends with these results: the frame is removed
/// and the results are handed to the frame below. Without a running host
/// frame nothing changes.
pub open spec fn spec_host_return(thread: ThreadModel, values: Seq<Value>) -> (
    ThreadModel,
    Option<VmError>,
) {
    match thread.top_frame() {
        Some(Frame::Host(h)) => spec_deliver(popped(thread), h.bottom, values, h.results),
        _ => (thread, Some(VmError::Integrity(IntegrityError::Frame))),
    }
}

impl Thread {
    /// The frame that runs: the last one.
    pub fn top_frame(&self) -> (r: Option<Frame>)
        ensures
            r == self@.top_frame(),
    {
        let n = self.frames.len();
        if n > 0 {
            Some(self.frames[n - 1])
        } else {
            None
        }
    }

    /// The operation that the running host frame stands for.
    pub fn host_call(&self) -> (r: Option<HostCall>)
        ensures
            r == spec_host_call(self@),
    {
        match self.top_frame() {
            Some(Frame::Host(h)) => Some(h.function),
            _ => None,
        }
    }

    /// The arguments of the running host frame.
    pub fn host_arguments(&self) -> (r: Option<Vec<Value>>)
        ensures
            match spec_host_arguments(self@) {
                Some(args) => r matches Some(v) && v@ == args,
                None => r is None,
            },
    {
        match self.top_frame() {
            Some(Frame::Host(h)) => slice(&self.stack, h.base, h.arg_count),
            _ => None,
        }
    }

    /// Ends the running host frame with the results of the embedder.
    pub fn host_return(&mut self, values: &Vec<Value>) -> (r: Option<VmError>)
        ensures
            (final(self)@, r) == spec_host_return(old(self)@, values@),
    {
        match self.top_frame() {
            Some(Frame::Host(h)) => {
                pop_frame(self);
                deliver(self, h.bottom, values, h.results)
            },
            _ => Some(VmError::Integrity(IntegrityError::Frame)),
        }
    }
}

} // verus!
