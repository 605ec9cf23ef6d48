//! The interpreter: what one opcode does to the heap and the running
//! thread, and the loop that runs a budget of opcodes.

use crate::error::{IntegrityError, VmError};
pub use crate::error::BinaryOperatorError;
use crate::integer::{integer_add, wrap};
use crate::opcode::{
    BinaryOperator, Comparison, ConstantIndex, OpCode, Operand, PrototypeIndex, RegisterIndex,
    UpValueDescriptor, UpValueIndex, VarCount,
};
use crate::state::{
    lemma_models_update, lemma_thread_changed, models, Frame, Heap, HeapModel, HostCall, Returns,
    ScriptFrame, ThreadModel, UpValue, Written,
};
use crate::table::{spec_check_key, TableModel};
use crate::thread::{
    call_function, call_function_non_destructive, jump_target, request, return_upper, slot,
    spec_call_function, spec_call_function_non_destructive, spec_jump_target, spec_request,
    spec_return_upper, spec_slot, spec_tail_call_function, spec_varargs, tail_call_function,
    varargs,
};
use crate::upvalue::{close_upvalues, open_upvalue, spec_close_upvalues, spec_open_upvalue};
use crate::stack::{slice, spec_slice};
use crate::value::{
    arithmetic, contents, is_numeric, less_equal, less_than, spec_arithmetic, spec_is_numeric,
    spec_less_equal, spec_less_than, spec_values_equal, string_bytes, values_equal, Function,
    Outcome, TypeName, Value,
};
use vstd::prelude::*;

verus! {

/// How the machine goes on after an opcode.
#[derive(Clone, Copy, Debug, PartialEq, Eq, Structural)]
pub enum Flow {
    /// With the next opcode of the same frame.
    Continue,
    /// The running frame may have changed: the caller looks at the thread
    /// again.
    Changed,
    /// The opcode failed.
    Failed(VmError),
}

/// The table that a value is, or the type error of a value that is none.
pub open spec fn spec_get_table(value: Value) -> Result<usize, VmError> {
    match value {
        Value::Table(t) => Ok(t),
        v => Err(VmError::Type { expected: TypeName::Table, found: v.spec_kind() }),
    }
}

/// The table that a value is, or the type error of a value that is none.
#[verifier::when_used_as_spec(spec_get_table)]
pub fn get_table(value: Value) -> (r: Result<usize, VmError>)
    ensures
        r == spec_get_table(value),
{
    match value {
        Value::Table(t) => Ok(t),
        v => Err(VmError::Type { expected: TypeName::Table, found: v.kind() }),
    }
}

/// The program counter moved by a signed offset.
pub fn add_offset(pc: usize, offset: i16) -> (r: usize)
    requires
        0 <= pc + offset <= usize::MAX,
    ensures
        r == pc + offset,
{
    if offset > 0 {
        pc + offset as usize
    } else if offset < 0 {
        pc - ((-(offset as i32)) as usize)
    } else {
        pc
    }
}

/// The failure of an opcode that broke a rule of the bytecode.
pub open spec fn failed(error: IntegrityError) -> Flow {
    Flow::Failed(VmError::Integrity(error))
}

/// `Changed` after a frame operation that succeeded, its error otherwise.
pub open spec fn changed_or(error: Option<VmError>) -> Flow {
    match error {
        None => Flow::Changed,
        Some(e) => Flow::Failed(e),
    }
}

impl HeapModel {
    /// The slot of a register of a frame of thread `t`, if the register
    /// is one of the frame's and the stack holds the slot.
    pub open spec fn register_slot(self, t: int, frame: ScriptFrame, r: RegisterIndex) -> Option<
        usize,
    > {
        if r.0 < frame.size && frame.base + r.0 < self.threads[t].stack.len() {
            Some((frame.base + r.0) as usize)
        } else {
            None
        }
    }

    /// The value of a register.
    pub open spec fn register(self, t: int, frame: ScriptFrame, r: RegisterIndex) -> Option<Value> {
        match self.register_slot(t, frame, r) {
            Some(i) => Some(self.threads[t].stack[i as int]),
            None => None,
        }
    }

    /// The heap with a value written to a stack slot of thread `t`.
    pub open spec fn with_slot(self, t: int, i: int, value: Value) -> HeapModel {
        self.with_thread(t, self.threads[t].with_stack(self.threads[t].stack.update(i, value)))
    }

    /// The heap with a value written to a register.
    pub open spec fn set_register(
        self,
        t: int,
        frame: ScriptFrame,
        r: RegisterIndex,
        value: Value,
    ) -> Option<HeapModel> {
        match self.register_slot(t, frame, r) {
            Some(i) => Some(self.with_slot(t, i as int, value)),
            None => None,
        }
    }

    /// The heap with a value written to a register, and the machine going
    /// on; or the heap as it is and the failure, if the register does
    /// not exist.
    pub open spec fn store(self, t: int, frame: ScriptFrame, r: RegisterIndex, value: Value) -> (
        HeapModel,
        Flow,
    ) {
        match self.set_register(t, frame, r, value) {
            Some(h) => (h, Flow::Continue),
            None => (self, failed(IntegrityError::Register)),
        }
    }

    /// The prototype that a frame runs.
    pub open spec fn prototype_of(self, frame: ScriptFrame) -> Option<int> {
        if frame.closure < self.closures.len() && self.closures[frame.closure as int].proto
            < self.prototypes.len() {
            Some(self.closures[frame.closure as int].proto as int)
        } else {
            None
        }
    }

    /// An entry of the constant pool of the prototype that a frame runs.
    pub open spec fn constant(self, frame: ScriptFrame, k: ConstantIndex) -> Option<Value> {
        match self.prototype_of(frame) {
            Some(p) => if k.0 < self.prototypes[p].constants.len() {
                Some(self.prototypes[p].constants[k.0 as int].spec_to_value())
            } else {
                None
            },
            None => None,
        }
    }

    /// The value of an operand: a register or a constant.
    pub open spec fn operand(self, t: int, frame: ScriptFrame, o: Operand) -> Result<
        Value,
        VmError,
    > {
        match o {
            Operand::Register(r) => match self.register(t, frame, r) {
                Some(v) => Ok(v),
                None => Err(VmError::Integrity(IntegrityError::Register)),
            },
            Operand::Constant(k) => match self.constant(frame, k) {
                Some(v) => Ok(v),
                None => Err(VmError::Integrity(IntegrityError::Constant)),
            },
        }
    }

    /// The upvalue cell of the running closure with a given number.
    pub open spec fn closure_upvalue(self, frame: ScriptFrame, u: UpValueIndex) -> Option<usize> {
        if frame.closure < self.closures.len() && u.0 < self.closures[frame.closure as int].upvalues.len() {
            Some(self.closures[frame.closure as int].upvalues[u.0 as int])
        } else {
            None
        }
    }

    /// The value behind an upvalue of the running closure.
    pub open spec fn upvalue(self, frame: ScriptFrame, u: UpValueIndex) -> Result<Value, VmError> {
        match self.closure_upvalue(frame, u) {
            None => Err(VmError::Integrity(IntegrityError::UpValue)),
            Some(id) => match self.upvalue_get(id) {
                None => Err(VmError::Integrity(IntegrityError::Reference)),
                Some(v) => Ok(v),
            },
        }
    }

    /// The value at a key of the table that `table` is.
    pub open spec fn index(self, table: Value, key: Value) -> Result<Value, VmError> {
        match spec_get_table(table) {
            Err(e) => Err(e),
            Ok(id) => if id < self.tables.len() {
                Ok(self.tables[id as int].get(self.strings, key))
            } else {
                Err(VmError::Integrity(IntegrityError::Reference))
            },
        }
    }

    /// The heap after a key of the table that `table` is was given a
    /// value, with the write barrier if the key or the value is a
    /// reference.
    pub open spec fn new_index(self, table: Value, key: Value, value: Value) -> (HeapModel, Flow) {
        match spec_get_table(table) {
            Err(e) => (self, Flow::Failed(e)),
            Ok(id) => if id < self.tables.len() {
                match spec_check_key(key) {
                    Some(e) => (self, Flow::Failed(VmError::Key(e))),
                    None => (
                        HeapModel {
                            tables: self.tables.update(
                                id as int,
                                self.tables[id as int].set(self.strings, key, value),
                            ),
                            ..self
                        }.noted(
                            Written::Table(id),
                            key.spec_is_reference() || value.spec_is_reference(),
                        ),
                        Flow::Continue,
                    ),
                }
            } else {
                (self, failed(IntegrityError::Reference))
            },
        }
    }

    /// The heap with the program counter of the running frame of thread
    /// `t` moved to `pc`.
    pub open spec fn with_pc(self, t: int, frame: ScriptFrame, pc: usize) -> HeapModel {
        self.with_thread(
            t,
            self.threads[t].with_top_frame(Frame::Script(ScriptFrame { pc, ..frame })),
        )
    }

    /// The next opcode is passed over.
    pub open spec fn skip(self, t: int, frame: ScriptFrame) -> (HeapModel, Flow) {
        if frame.pc < usize::MAX {
            (self.with_pc(t, frame, (frame.pc + 1) as usize), Flow::Continue)
        } else {
            (self, failed(IntegrityError::Jump))
        }
    }

    /// The program counter moves by an offset.
    pub open spec fn jump(self, t: int, frame: ScriptFrame, offset: i16) -> (HeapModel, Flow) {
        match spec_jump_target(frame.pc, offset) {
            Some(pc) => (self.with_pc(t, frame, pc), Flow::Continue),
            None => (self, failed(IntegrityError::Jump)),
        }
    }
}

fn register(heap: &Heap, t: usize, frame: &ScriptFrame, r: RegisterIndex) -> (v: Option<Value>)
    requires
        t < heap.threads.len(),
    ensures
        v == heap@.register(t as int, *frame, r),
{
    let i: usize = r.0 as usize;
    let stack = &heap.threads[t].stack;
    if i < frame.size && frame.base < stack.len() && i < stack.len() - frame.base {
        Some(stack[frame.base + i])
    } else {
        None
    }
}

fn set_slot(heap: &mut Heap, t: usize, i: usize, value: Value)
    requires
        t < old(heap).threads.len(),
        i < old(heap).threads[t as int].stack.len(),
    ensures
        final(heap)@ == old(heap)@.with_slot(t as int, i as int, value),
        final(heap).threads.len() == old(heap).threads.len(),
{
    heap.threads[t].stack[i] = value;
    proof {
        lemma_models_update(old(heap).threads@, t as int, heap.threads@[t as int]);
        assert(heap.threads@ =~= old(heap).threads@.update(t as int, heap.threads@[t as int]));
    }
}

fn store(heap: &mut Heap, t: usize, frame: &ScriptFrame, r: RegisterIndex, value: Value) -> (flow:
    Flow)
    requires
        t < old(heap).threads.len(),
    ensures
        (final(heap)@, flow) == old(heap)@.store(t as int, *frame, r, value),
        final(heap).threads.len() == old(heap).threads.len(),
{
    let i: usize = r.0 as usize;
    let len = heap.threads[t].stack.len();
    if i < frame.size && frame.base < len && i < len - frame.base {
        set_slot(heap, t, frame.base + i, value);
        Flow::Continue
    } else {
        Flow::Failed(VmError::Integrity(IntegrityError::Register))
    }
}

fn constant(heap: &Heap, frame: &ScriptFrame, k: ConstantIndex) -> (v: Option<Value>)
    ensures
        v == heap@.constant(*frame, k),
{
    if frame.closure < heap.closures.len() && heap.closures[frame.closure].proto
        < heap.prototypes.len() {
        let p = &heap.prototypes[heap.closures[frame.closure].proto];
        if (k.0 as usize) < p.constants.len() {
            Some(p.constants[k.0 as usize].to_value())
        } else {
            None
        }
    } else {
        None
    }
}

fn operand(heap: &Heap, t: usize, frame: &ScriptFrame, o: Operand) -> (v: Result<Value, VmError>)
    requires
        t < heap.threads.len(),
    ensures
        v == heap@.operand(t as int, *frame, o),
{
    match o {
        Operand::Register(r) => match register(heap, t, frame, r) {
            Some(v) => Ok(v),
            None => Err(VmError::Integrity(IntegrityError::Register)),
        },
        Operand::Constant(k) => match constant(heap, frame, k) {
            Some(v) => Ok(v),
            None => Err(VmError::Integrity(IntegrityError::Constant)),
        },
    }
}

fn upvalue(heap: &Heap, frame: &ScriptFrame, u: UpValueIndex) -> (v: Result<Value, VmError>)
    ensures
        v == heap@.upvalue(*frame, u),
{
    if frame.closure < heap.closures.len() && (u.0 as usize)
        < heap.closures[frame.closure].upvalues.len() {
        match heap.upvalue_get(heap.closures[frame.closure].upvalues[u.0 as usize]) {
            None => Err(VmError::Integrity(IntegrityError::Reference)),
            Some(v) => Ok(v),
        }
    } else {
        Err(VmError::Integrity(IntegrityError::UpValue))
    }
}

/// Reads the value at a key of the table that `table` is.
pub fn index(heap: &Heap, table: Value, key: Value) -> (v: Result<Value, VmError>)
    ensures
        v == heap@.index(table, key),
{
    match get_table(table) {
        Err(e) => Err(e),
        Ok(id) => if id < heap.tables.len() {
            Ok(heap.tables[id].get(&heap.strings, key))
        } else {
            Err(VmError::Integrity(IntegrityError::Reference))
        },
    }
}

/// Gives a key of the table that `table` is a value, with the write
/// barrier if the key or the value is a reference. The machine goes on,
/// or the write fails and the heap is as it was.
pub fn new_index(heap: &mut Heap, table: Value, key: Value, value: Value) -> (flow: Flow)
    ensures
        (final(heap)@, flow) == old(heap)@.new_index(table, key, value),
        final(heap).threads.len() == old(heap).threads.len(),
{
    match get_table(table) {
        Err(e) => Flow::Failed(e),
        Ok(id) => if id < heap.tables.len() {
            match heap.tables[id].set(&heap.strings, key, value) {
                Err(e) => {
                    proof {
                        assert(models(heap.tables@) =~= models(old(heap).tables@));
                    }
                    Flow::Failed(VmError::Key(e))
                },
                Ok(()) => {
                    proof {
                        lemma_models_update(old(heap).tables@, id as int, heap.tables@[id as int]);
                        assert(heap.tables@ =~= old(heap).tables@.update(
                            id as int,
                            heap.tables@[id as int],
                        ));
                    }
                    heap.note(Written::Table(id), key.is_reference() || value.is_reference());
                    Flow::Continue
                },
            }
        } else {
            Flow::Failed(VmError::Integrity(IntegrityError::Reference))
        },
    }
}

fn set_pc(heap: &mut Heap, t: usize, frame: &ScriptFrame, pc: usize)
    requires
        t < old(heap).threads.len(),
    ensures
        final(heap)@ == old(heap)@.with_pc(t as int, *frame, pc),
        final(heap).threads.len() == old(heap).threads.len(),
{
    let n = heap.threads[t].frames.len();
    if n > 0 {
        let mut next = *frame;
        next.pc = pc;
        heap.threads[t].frames[n - 1] = Frame::Script(next);
    }
    proof {
        lemma_models_update(old(heap).threads@, t as int, heap.threads@[t as int]);
        assert(heap.threads@ =~= old(heap).threads@.update(t as int, heap.threads@[t as int]));
    }
}

fn skip(heap: &mut Heap, t: usize, frame: &ScriptFrame) -> (flow: Flow)
    requires
        t < old(heap).threads.len(),
    ensures
        (final(heap)@, flow) == old(heap)@.skip(t as int, *frame),
        final(heap).threads.len() == old(heap).threads.len(),
{
    if frame.pc < usize::MAX {
        set_pc(heap, t, frame, frame.pc + 1);
        Flow::Continue
    } else {
        Flow::Failed(VmError::Integrity(IntegrityError::Jump))
    }
}

fn jump(heap: &mut Heap, t: usize, frame: &ScriptFrame, offset: i16) -> (flow: Flow)
    requires
        t < old(heap).threads.len(),
    ensures
        (final(heap)@, flow) == old(heap)@.jump(t as int, *frame, offset),
        final(heap).threads.len() == old(heap).threads.len(),
{
    match jump_target(frame.pc, offset) {
        Some(pc) => {
            set_pc(heap, t, frame, pc);
            Flow::Continue
        },
        None => Flow::Failed(VmError::Integrity(IntegrityError::Jump)),
    }
}

/// The decimal digits of a natural number.
pub open spec fn digits_text(n: nat) -> Seq<u8>
    decreases n,
{
    if n < 10 {
        seq![(48 + n) as u8]
    } else {
        digits_text(n / 10).push((48 + n % 10) as u8)
    }
}

/// An integer in decimal, with a minus sign if it is negative.
pub open spec fn integer_text(i: i64) -> Seq<u8> {
    if i < 0 {
        seq![45u8] + digits_text((-i) as nat)
    } else {
        digits_text(i as nat)
    }
}

fn push_digits(out: &mut Vec<u8>, n: u64)
    ensures
        final(out)@ == old(out)@ + digits_text(n as nat),
    decreases n,
{
    if n < 10 {
        out.push(48 + n as u8);
        assert(out@ =~= old(out)@ + digits_text(n as nat));
    } else {
        push_digits(out, n / 10);
        out.push(48 + (n % 10) as u8);
        assert(out@ =~= old(out)@ + digits_text(n as nat));
    }
}

fn push_integer(out: &mut Vec<u8>, i: i64)
    ensures
        final(out)@ == old(out)@ + integer_text(i),
{
    if i < 0 {
        out.push(45);
        let m: u64 = (-(i as i128)) as u64;
        push_digits(out, m);
        assert(out@ =~= old(out)@ + integer_text(i));
    } else {
        push_digits(out, i as u64);
    }
}

/// What a value adds to a concatenation: the bytes of a string, or an
/// integer in decimal.
pub open spec fn piece(strings: Seq<Seq<u8>>, value: Value) -> Seq<u8> {
    match value {
        Value::String(s) => crate::value::string_bytes(strings, s),
        Value::Integer(i) => integer_text(i),
        _ => Seq::empty(),
    }
}

/// The concatenation of the first `n` values.
pub open spec fn concat_text(strings: Seq<Seq<u8>>, values: Seq<Value>, n: int) -> Seq<u8>
    decreases n,
{
    if n <= 0 || n > values.len() {
        Seq::empty()
    } else {
        concat_text(strings, values, n - 1) + piece(strings, values[n - 1])
    }
}

/// The first value at or after `i` that cannot be concatenated: one
/// that is no string, integer or number.
pub open spec fn first_unjoinable(values: Seq<Value>, i: int) -> Option<Value>
    decreases values.len() - i,
{
    if i < 0 || i >= values.len() {
        None
    } else if values[i] is String || values[i] is Integer || values[i] is Number {
        first_unjoinable(values, i + 1)
    } else {
        Some(values[i])
    }
}

/// Whether a number is among the values at or after `i`.
pub open spec fn has_number(values: Seq<Value>, i: int) -> bool
    decreases values.len() - i,
{
    if i < 0 || i >= values.len() {
        false
    } else {
        values[i] is Number || has_number(values, i + 1)
    }
}

/// The upvalue cells for the first descriptors from `i` on, added to
/// `cells`: an outer upvalue is the running closure's own cell, a local
/// of the running frame gets the cell that is open on its slot or a new
/// one, and an environment upvalue is refused.
pub open spec fn capture(
    thread: ThreadModel,
    upvalues: Seq<UpValue>,
    t: usize,
    frame: ScriptFrame,
    outer: Seq<usize>,
    descriptors: Seq<UpValueDescriptor>,
    i: int,
    cells: Seq<usize>,
) -> (ThreadModel, Seq<UpValue>, Result<Seq<usize>, VmError>)
    decreases descriptors.len() - i,
{
    if i < 0 || i >= descriptors.len() {
        (thread, upvalues, Ok(cells))
    } else {
        match descriptors[i] {
            UpValueDescriptor::Environment => (
                thread,
                upvalues,
                Err(VmError::Integrity(IntegrityError::Environment)),
            ),
            UpValueDescriptor::ParentLocal(r) => if r.0 < frame.size && frame.base + r.0
                < thread.stack.len() {
                let opened = spec_open_upvalue(thread, upvalues, t, (frame.base + r.0) as usize);
                capture(
                    opened.0,
                    opened.1,
                    t,
                    frame,
                    outer,
                    descriptors,
                    i + 1,
                    cells.push(opened.2),
                )
            } else {
                (thread, upvalues, Err(VmError::Integrity(IntegrityError::Register)))
            },
            UpValueDescriptor::Outer(u) => if u.0 < outer.len() {
                capture(
                    thread,
                    upvalues,
                    t,
                    frame,
                    outer,
                    descriptors,
                    i + 1,
                    cells.push(outer[u.0 as int]),
                )
            } else {
                (thread, upvalues, Err(VmError::Integrity(IntegrityError::UpValue)))
            },
        }
    }
}

impl HeapModel {
    /// `Call`.
    pub open spec fn call(
        self,
        t: int,
        frame: ScriptFrame,
        func: RegisterIndex,
        args: VarCount,
        results: VarCount,
    ) -> (HeapModel, Flow) {
        let r = spec_call_function(
            self.threads[t],
            self.closures,
            self.prototypes,
            frame,
            func,
            args,
            results,
        );
        (self.with_thread(t, r.0), changed_or(r.1))
    }

    /// `TailCall`. The write barrier is invoked for the upvalues of the
    /// running frame, which the call closes.
    pub open spec fn tail_call(self, t: int, frame: ScriptFrame, func: RegisterIndex, args: VarCount) -> (
        HeapModel,
        Flow,
    ) {
        let noted = self.note_closing(t, frame.base);
        let r = spec_tail_call_function(
            self.threads[t],
            self.upvalues,
            self.closures,
            self.prototypes,
            frame,
            func,
            args,
        );
        (HeapModel { upvalues: r.1, ..noted }.with_thread(t, r.0), changed_or(r.2))
    }

    /// `Return`. The write barrier is invoked for the upvalues of the
    /// running frame, which the return closes.
    pub open spec fn return_values(
        self,
        t: int,
        frame: ScriptFrame,
        start: RegisterIndex,
        count: VarCount,
    ) -> (HeapModel, Flow) {
        let noted = self.note_closing(t, frame.base);
        let r = spec_return_upper(self.threads[t], self.upvalues, frame, start, count);
        (HeapModel { upvalues: r.1, ..noted }.with_thread(t, r.0), changed_or(r.2))
    }

    /// `VarArgs`.
    pub open spec fn variable_arguments(
        self,
        t: int,
        frame: ScriptFrame,
        dest: RegisterIndex,
        count: VarCount,
    ) -> (HeapModel, Flow) {
        let r = spec_varargs(self.threads[t], frame, dest, count);
        (self.with_thread(t, r.0), changed_or(r.1))
    }

    /// `GenericForCall`.
    pub open spec fn generic_for_call(
        self,
        t: int,
        frame: ScriptFrame,
        base: RegisterIndex,
        var_count: u8,
    ) -> (HeapModel, Flow) {
        let r = spec_call_function_non_destructive(
            self.threads[t],
            self.closures,
            self.prototypes,
            frame,
            base,
            var_count,
        );
        (self.with_thread(t, r.0), changed_or(r.1))
    }

    /// An operation is asked of the embedder.
    pub open spec fn ask(self, t: int, function: HostCall, args: Seq<Value>, results: Returns) -> (
        HeapModel,
        Flow,
    ) {
        let r = spec_request(self.threads[t], function, args, results);
        (self.with_thread(t, r.0), changed_or(r.1))
    }

    /// The upvalues of thread `t` that are open at or above a slot are
    /// closed, with the write barrier for each cell that takes a reference.
    pub open spec fn close(self, t: int, from: usize) -> HeapModel {
        let r = spec_close_upvalues(self.threads[t], self.upvalues, from);
        HeapModel { upvalues: r.1, ..self.note_closing(t, from) }.with_thread(t, r.0)
    }
}

fn do_call(
    heap: &mut Heap,
    t: usize,
    frame: ScriptFrame,
    func: RegisterIndex,
    args: VarCount,
    results: VarCount,
) -> (flow: Flow)
    requires
        t < old(heap).threads.len(),
    ensures
        (final(heap)@, flow) == old(heap)@.call(t as int, frame, func, args, results),
        final(heap).threads.len() == old(heap).threads.len(),
{
    let e = call_function(
        &mut heap.threads[t],
        &heap.closures,
        &heap.prototypes,
        frame,
        func,
        args,
        results,
    );
    proof {
        lemma_thread_changed(old(heap).threads@, heap.threads@, t as int);
    }
    match e {
        None => Flow::Changed,
        Some(e) => Flow::Failed(e),
    }
}

fn do_tail_call(heap: &mut Heap, t: usize, frame: ScriptFrame, func: RegisterIndex, args: VarCount) -> (flow:
    Flow)
    requires
        t < old(heap).threads.len(),
    ensures
        (final(heap)@, flow) == old(heap)@.tail_call(t as int, frame, func, args),
        final(heap).threads.len() == old(heap).threads.len(),
{
    heap.note_closing(t, frame.base);
    let e = tail_call_function(
        &mut heap.threads[t],
        &mut heap.upvalues,
        &heap.closures,
        &heap.prototypes,
        frame,
        func,
        args,
    );
    proof {
        lemma_thread_changed(old(heap).threads@, heap.threads@, t as int);
    }
    match e {
        None => Flow::Changed,
        Some(e) => Flow::Failed(e),
    }
}

fn do_return(heap: &mut Heap, t: usize, frame: ScriptFrame, start: RegisterIndex, count: VarCount) -> (flow:
    Flow)
    requires
        t < old(heap).threads.len(),
    ensures
        (final(heap)@, flow) == old(heap)@.return_values(t as int, frame, start, count),
        final(heap).threads.len() == old(heap).threads.len(),
{
    heap.note_closing(t, frame.base);
    let e = return_upper(&mut heap.threads[t], &mut heap.upvalues, frame, start, count);
    proof {
        lemma_thread_changed(old(heap).threads@, heap.threads@, t as int);
    }
    match e {
        None => Flow::Changed,
        Some(e) => Flow::Failed(e),
    }
}

fn do_varargs(heap: &mut Heap, t: usize, frame: ScriptFrame, dest: RegisterIndex, count: VarCount) -> (flow:
    Flow)
    requires
        t < old(heap).threads.len(),
    ensures
        (final(heap)@, flow) == old(heap)@.variable_arguments(t as int, frame, dest, count),
        final(heap).threads.len() == old(heap).threads.len(),
{
    let e = varargs(&mut heap.threads[t], frame, dest, count);
    proof {
        lemma_thread_changed(old(heap).threads@, heap.threads@, t as int);
    }
    match e {
        None => Flow::Changed,
        Some(e) => Flow::Failed(e),
    }
}

fn do_generic_for_call(
    heap: &mut Heap,
    t: usize,
    frame: ScriptFrame,
    base: RegisterIndex,
    var_count: u8,
) -> (flow: Flow)
    requires
        t < old(heap).threads.len(),
    ensures
        (final(heap)@, flow) == old(heap)@.generic_for_call(t as int, frame, base, var_count),
        final(heap).threads.len() == old(heap).threads.len(),
{
    let e = call_function_non_destructive(
        &mut heap.threads[t],
        &heap.closures,
        &heap.prototypes,
        frame,
        base,
        var_count,
    );
    proof {
        lemma_thread_changed(old(heap).threads@, heap.threads@, t as int);
    }
    match e {
        None => Flow::Changed,
        Some(e) => Flow::Failed(e),
    }
}

fn ask(heap: &mut Heap, t: usize, function: HostCall, args: &Vec<Value>, results: Returns) -> (flow:
    Flow)
    requires
        t < old(heap).threads.len(),
    ensures
        (final(heap)@, flow) == old(heap)@.ask(t as int, function, args@, results),
        final(heap).threads.len() == old(heap).threads.len(),
{
    let e = request(&mut heap.threads[t], function, args, results);
    proof {
        lemma_thread_changed(old(heap).threads@, heap.threads@, t as int);
    }
    match e {
        None => Flow::Changed,
        Some(e) => Flow::Failed(e),
    }
}

/// Closes the upvalues of a thread that are open at or above a slot, with the
/// write barrier.
pub fn close(heap: &mut Heap, t: usize, from: usize)
    requires
        t < old(heap).threads.len(),
    ensures
        final(heap)@ == old(heap)@.close(t as int, from),
        final(heap).threads.len() == old(heap).threads.len(),
{
    heap.note_closing(t, from);
    close_upvalues(&mut heap.threads[t], &mut heap.upvalues, from);
    proof {
        lemma_thread_changed(old(heap).threads@, heap.threads@, t as int);
    }
}

/// The register that is `k` registers after `r`, if its number fits.
pub open spec fn spec_register_after(r: RegisterIndex, k: u8) -> Option<RegisterIndex> {
    if r.0 + k <= u8::MAX {
        Some(RegisterIndex((r.0 + k) as u8))
    } else {
        None
    }
}

#[verifier::when_used_as_spec(spec_register_after)]
fn register_after(r: RegisterIndex, k: u8) -> (after: Option<RegisterIndex>)
    ensures
        after == spec_register_after(r, k),
{
    if r.0 <= u8::MAX - k {
        Some(RegisterIndex(r.0 + k))
    } else {
        None
    }
}

/// The stack with `Nil` in the `count` slots from `at` on.
pub open spec fn cleared(stack: Seq<Value>, at: int, count: int) -> Seq<Value> {
    Seq::new(
        stack.len(),
        |i: int|
            if at <= i < at + count {
                Value::Nil
            } else {
                stack[i]
            },
    )
}

impl HeapModel {
    /// A value that was computed goes to a register; a failure to
    /// compute it is the opcode's failure.
    pub open spec fn store_result(
        self,
        t: int,
        frame: ScriptFrame,
        dest: RegisterIndex,
        value: Result<Value, VmError>,
    ) -> (HeapModel, Flow) {
        match value {
            Ok(v) => self.store(t, frame, dest, v),
            Err(e) => (self, Flow::Failed(e)),
        }
    }

    /// `LoadBool`.
    pub open spec fn load_bool(
        self,
        t: int,
        frame: ScriptFrame,
        dest: RegisterIndex,
        value: bool,
        skip_next: bool,
    ) -> (HeapModel, Flow) {
        let stored = self.store(t, frame, dest, Value::Boolean(value));
        if stored.1 is Continue && skip_next {
            stored.0.skip(t, frame)
        } else {
            stored
        }
    }

    /// `LoadNil`.
    pub open spec fn load_nil(self, t: int, frame: ScriptFrame, dest: RegisterIndex, count: u8) -> (
        HeapModel,
        Flow,
    ) {
        if dest.0 + count <= frame.size && frame.base + dest.0 + count
            <= self.threads[t].stack.len() {
            (
                self.with_thread(
                    t,
                    self.threads[t].with_stack(
                        cleared(self.threads[t].stack, frame.base + dest.0, count as int),
                    ),
                ),
                Flow::Continue,
            )
        } else {
            (self, failed(IntegrityError::Register))
        }
    }

    /// `NewTable`.
    pub open spec fn new_table(self, t: int, frame: ScriptFrame, dest: RegisterIndex) -> (
        HeapModel,
        Flow,
    ) {
        if self.register_slot(t, frame, dest) is None {
            (self, failed(IntegrityError::Register))
        } else {
            HeapModel { tables: self.tables.push(TableModel::empty()), ..self }.store(
                t,
                frame,
                dest,
                Value::Table(self.tables.len() as usize),
            )
        }
    }

    /// `GetTable` and `GetUpTable`: the value at a key of a table goes to
    /// a register.
    pub open spec fn get_index(
        self,
        t: int,
        frame: ScriptFrame,
        dest: RegisterIndex,
        table: Result<Value, VmError>,
        key: Operand,
    ) -> (HeapModel, Flow) {
        match (table, self.operand(t, frame, key)) {
            (Err(e), _) => (self, Flow::Failed(e)),
            (Ok(_), Err(e)) => (self, Flow::Failed(e)),
            (Ok(tv), Ok(k)) => self.store_result(t, frame, dest, self.index(tv, k)),
        }
    }

    /// `SetTable` and `SetUpTable`: a key of a table is given a value.
    pub open spec fn set_index(
        self,
        t: int,
        frame: ScriptFrame,
        table: Result<Value, VmError>,
        key: Operand,
        value: Operand,
    ) -> (HeapModel, Flow) {
        match (table, self.operand(t, frame, key), self.operand(t, frame, value)) {
            (Err(e), _, _) => (self, Flow::Failed(e)),
            (Ok(_), Err(e), _) => (self, Flow::Failed(e)),
            (Ok(_), Ok(_), Err(e)) => (self, Flow::Failed(e)),
            (Ok(tv), Ok(k), Ok(v)) => self.new_index(tv, k, v),
        }
    }

    /// `SetUpValue`.
    pub open spec fn set_upvalue(
        self,
        t: int,
        frame: ScriptFrame,
        dest: UpValueIndex,
        source: RegisterIndex,
    ) -> (HeapModel, Flow) {
        match (self.register(t, frame, source), self.closure_upvalue(frame, dest)) {
            (None, _) => (self, failed(IntegrityError::Register)),
            (Some(_), None) => (self, failed(IntegrityError::UpValue)),
            (Some(v), Some(id)) => match self.upvalue_set(id, v) {
                None => (self, failed(IntegrityError::Reference)),
                Some(h) => (h, Flow::Continue),
            },
        }
    }

    /// `Jump`: the jump is taken, and then the upvalues that are open at
    /// or above a register are closed, if the opcode names one.
    pub open spec fn jump_and_close(
        self,
        t: int,
        frame: ScriptFrame,
        offset: i16,
        close_upvalues: Option<RegisterIndex>,
    ) -> (HeapModel, Flow) {
        let jumped = self.jump(t, frame, offset);
        match close_upvalues {
            Some(r) => if jumped.1 is Continue {
                match spec_slot(frame, r) {
                    Some(from) => (jumped.0.close(t, from), Flow::Continue),
                    None => (jumped.0, failed(IntegrityError::Register)),
                }
            } else {
                jumped
            },
            None => jumped,
        }
    }

    /// `Test`.
    pub open spec fn test(self, t: int, frame: ScriptFrame, value: RegisterIndex, is_true: bool) -> (
        HeapModel,
        Flow,
    ) {
        match self.register(t, frame, value) {
            None => (self, failed(IntegrityError::Register)),
            Some(v) => if v.spec_to_bool() == is_true {
                self.skip(t, frame)
            } else {
                (self, Flow::Continue)
            },
        }
    }

    /// `TestSet`.
    pub open spec fn test_set(
        self,
        t: int,
        frame: ScriptFrame,
        dest: RegisterIndex,
        value: RegisterIndex,
        is_true: bool,
    ) -> (HeapModel, Flow) {
        match self.register(t, frame, value) {
            None => (self, failed(IntegrityError::Register)),
            Some(v) => if v.spec_to_bool() == is_true {
                self.skip(t, frame)
            } else {
                self.store(t, frame, dest, v)
            },
        }
    }

    /// The nested prototype with a given number of the prototype that a
    /// frame runs.
    pub open spec fn nested_prototype(self, frame: ScriptFrame, proto: PrototypeIndex) -> Result<
        usize,
        VmError,
    > {
        match self.prototype_of(frame) {
            None => Err(VmError::Integrity(IntegrityError::Reference)),
            Some(p) => if proto.0 >= self.prototypes[p].prototypes.len() {
                Err(VmError::Integrity(IntegrityError::Prototype))
            } else if self.prototypes[p].prototypes[proto.0 as int] >= self.prototypes.len() {
                Err(VmError::Integrity(IntegrityError::Reference))
            } else {
                Ok(self.prototypes[p].prototypes[proto.0 as int])
            },
        }
    }

    /// `Closure`: a closure of a nested prototype is made, with an
    /// upvalue cell for each of the prototype's descriptors, and goes to
    /// a register.
    pub open spec fn make_closure(
        self,
        t: int,
        frame: ScriptFrame,
        dest: RegisterIndex,
        proto: PrototypeIndex,
    ) -> (HeapModel, Flow) {
        match self.nested_prototype(frame, proto) {
            Err(e) => (self, Flow::Failed(e)),
            Ok(nested) => if self.register_slot(t, frame, dest) is None {
                (self, failed(IntegrityError::Register))
            } else {
                let captured = capture(
                    self.threads[t],
                    self.upvalues,
                    t as usize,
                    frame,
                    self.closures[frame.closure as int].upvalues,
                    self.prototypes[nested as int].upvalues,
                    0,
                    Seq::empty(),
                );
                let h = HeapModel { upvalues: captured.1, ..self }.with_thread(t, captured.0);
                match captured.2 {
                    Err(e) => (h, Flow::Failed(e)),
                    Ok(cells) => HeapModel {
                        closures: h.closures.push(
                            crate::state::ClosureModel { proto: nested, upvalues: cells },
                        ),
                        ..h
                    }.store(
                        t,
                        frame,
                        dest,
                        Value::Function(Function::Closure(self.closures.len() as usize)),
                    ),
                }
            },
        }
    }

    /// `Not`, `Minus` and `BitNot`.
    pub open spec fn unary(
        self,
        t: int,
        frame: ScriptFrame,
        dest: RegisterIndex,
        source: RegisterIndex,
        op: OpCode,
    ) -> (HeapModel, Flow) {
        match self.register(t, frame, source) {
            None => (self, failed(IntegrityError::Register)),
            Some(v) => {
                let result = if op is Not {
                    Some(Value::Boolean(!v.spec_to_bool()))
                } else if op is Minus {
                    v.spec_negate()
                } else {
                    v.spec_bitwise_not()
                };
                match result {
                    Some(r) => self.store(t, frame, dest, r),
                    None => (
                        self,
                        Flow::Failed(VmError::BinaryOperator(BinaryOperatorError::UnaryNegate)),
                    ),
                }
            },
        }
    }

    /// The arithmetic and bitwise opcodes. What cannot be computed on
    /// integers and is defined on numbers is asked of the embedder, whose
    /// result goes to the register.
    pub open spec fn binary(
        self,
        t: int,
        frame: ScriptFrame,
        operator: BinaryOperator,
        dest: RegisterIndex,
        left: Operand,
        right: Operand,
    ) -> (HeapModel, Flow) {
        match (self.operand(t, frame, left), self.operand(t, frame, right)) {
            (Err(e), _) => (self, Flow::Failed(e)),
            (Ok(_), Err(e)) => (self, Flow::Failed(e)),
            (Ok(l), Ok(r)) => match spec_arithmetic(self.strings, operator, l, r) {
                Outcome::Value(v) => self.store(t, frame, dest, v),
                Outcome::Deferred => match self.register_slot(t, frame, dest) {
                    Some(d) => self.ask(
                        t,
                        HostCall::Arithmetic(operator),
                        seq![l, r],
                        Returns::Register(d),
                    ),
                    None => (self, failed(IntegrityError::Register)),
                },
                Outcome::Failed => (
                    self,
                    Flow::Failed(VmError::BinaryOperator(BinaryOperatorError::spec_of(operator))),
                ),
            },
        }
    }

    /// The comparison opcodes: the next opcode is passed over if the
    /// comparison comes out as `skip_if`.
    pub open spec fn compare(
        self,
        t: int,
        frame: ScriptFrame,
        comparison: Comparison,
        skip_if: bool,
        left: Operand,
        right: Operand,
    ) -> (HeapModel, Flow) {
        match (self.operand(t, frame, left), self.operand(t, frame, right)) {
            (Err(e), _) => (self, Flow::Failed(e)),
            (Ok(_), Err(e)) => (self, Flow::Failed(e)),
            (Ok(l), Ok(r)) => {
                let result = match comparison {
                    Comparison::Equal => Some(spec_values_equal(self.strings, l, r)),
                    Comparison::Less => spec_less_than(self.strings, l, r),
                    Comparison::LessEqual => spec_less_equal(self.strings, l, r),
                };
                match result {
                    None => (
                        self,
                        Flow::Failed(
                            VmError::BinaryOperator(
                                BinaryOperatorError::spec_of_comparison(comparison),
                            ),
                        ),
                    ),
                    Some(b) => if b == skip_if {
                        self.skip(t, frame)
                    } else {
                        (self, Flow::Continue)
                    },
                }
            },
        }
    }

    /// `GenericForLoop`.
    pub open spec fn generic_for_loop(self, t: int, frame: ScriptFrame, base: RegisterIndex, jump: i16) -> (
        HeapModel,
        Flow,
    ) {
        match spec_register_after(base, 1) {
            None => (self, failed(IntegrityError::Register)),
            Some(next) => match self.register(t, frame, next) {
                None => (self, failed(IntegrityError::Register)),
                Some(v) => if v.spec_to_bool() {
                    let stored = self.store(t, frame, base, v);
                    if stored.1 is Continue {
                        stored.0.jump(t, frame, jump)
                    } else {
                        stored
                    }
                } else {
                    (self, Flow::Continue)
                },
            },
        }
    }

    /// `Method`: the table goes to the register after `base`, and the
    /// value at the key of the table to `base`.
    pub open spec fn method(
        self,
        t: int,
        frame: ScriptFrame,
        base: RegisterIndex,
        table: RegisterIndex,
        key: Operand,
    ) -> (HeapModel, Flow) {
        match (
            spec_register_after(base, 1),
            self.operand(t, frame, Operand::Register(table)),
            self.operand(t, frame, key),
        ) {
            (None, _, _) => (self, failed(IntegrityError::Register)),
            (Some(_), Err(e), _) => (self, Flow::Failed(e)),
            (Some(_), Ok(_), Err(e)) => (self, Flow::Failed(e)),
            (Some(next), Ok(tv), Ok(k)) => match self.index(tv, k) {
                Err(e) => (self, Flow::Failed(e)),
                Ok(v) => {
                    let stored = self.store(t, frame, next, tv);
                    if stored.1 is Continue {
                        stored.0.store(t, frame, base, v)
                    } else {
                        stored
                    }
                },
            },
        }
    }
}

fn store_result(
    heap: &mut Heap,
    t: usize,
    frame: &ScriptFrame,
    dest: RegisterIndex,
    value: Result<Value, VmError>,
) -> (flow: Flow)
    requires
        t < old(heap).threads.len(),
    ensures
        (final(heap)@, flow) == old(heap)@.store_result(t as int, *frame, dest, value),
        final(heap).threads.len() == old(heap).threads.len(),
{
    match value {
        Ok(v) => store(heap, t, frame, dest, v),
        Err(e) => Flow::Failed(e),
    }
}

fn load_bool(
    heap: &mut Heap,
    t: usize,
    frame: &ScriptFrame,
    dest: RegisterIndex,
    value: bool,
    skip_next: bool,
) -> (flow: Flow)
    requires
        t < old(heap).threads.len(),
    ensures
        (final(heap)@, flow) == old(heap)@.load_bool(t as int, *frame, dest, value, skip_next),
        final(heap).threads.len() == old(heap).threads.len(),
{
    let stored = store(heap, t, frame, dest, Value::Boolean(value));
    match stored {
        Flow::Continue => if skip_next {
            skip(heap, t, frame)
        } else {
            stored
        },
        _ => stored,
    }
}

fn load_nil(heap: &mut Heap, t: usize, frame: &ScriptFrame, dest: RegisterIndex, count: u8) -> (flow:
    Flow)
    requires
        t < old(heap).threads.len(),
    ensures
        (final(heap)@, flow) == old(heap)@.load_nil(t as int, *frame, dest, count),
        final(heap).threads.len() == old(heap).threads.len(),
{
    let first: usize = dest.0 as usize;
    let n: usize = count as usize;
    let len = heap.threads[t].stack.len();
    if first + n <= frame.size && frame.base <= len && first + n <= len - frame.base {
        let at: usize = frame.base + first;
        let mut i: usize = 0;
        proof {
            let stack0 = old(heap)@.threads[t as int].stack;
            assert(cleared(stack0, at as int, 0) =~= stack0);
            assert(heap@.threads =~= heap@.threads.update(t as int, heap@.threads[t as int]));
        }
        while i < n
            invariant
                i <= n,
                at + n <= len,
                t < heap.threads.len(),
                heap.threads.len() == old(heap).threads.len(),
                old(heap)@.threads[t as int].stack.len() == len,
                heap@ == old(heap)@.with_thread(
                    t as int,
                    old(heap)@.threads[t as int].with_stack(
                        cleared(old(heap)@.threads[t as int].stack, at as int, i as int),
                    ),
                ),
            decreases n - i,
        {
            assert(heap.threads[t as int]@.stack == heap@.threads[t as int].stack);
            set_slot(heap, t, at + i, Value::Nil);
            proof {
                let stack0 = old(heap)@.threads[t as int].stack;
                assert(cleared(stack0, at as int, i as int).update(at + i, Value::Nil) =~= cleared(
                    stack0,
                    at as int,
                    i + 1,
                ));
                assert(heap@.threads =~= old(heap)@.threads.update(
                    t as int,
                    old(heap)@.threads[t as int].with_stack(cleared(stack0, at as int, i + 1)),
                ));
            }
            i = i + 1;
        }
        Flow::Continue
    } else {
        Flow::Failed(VmError::Integrity(IntegrityError::Register))
    }
}

fn new_table(heap: &mut Heap, t: usize, frame: &ScriptFrame, dest: RegisterIndex) -> (flow: Flow)
    requires
        t < old(heap).threads.len(),
    ensures
        (final(heap)@, flow) == old(heap)@.new_table(t as int, *frame, dest),
        final(heap).threads.len() == old(heap).threads.len(),
{
    match register(heap, t, frame, dest) {
        None => Flow::Failed(VmError::Integrity(IntegrityError::Register)),
        Some(_) => {
            let id = heap.add_table();
            store(heap, t, frame, dest, Value::Table(id))
        },
    }
}

fn get_index(
    heap: &mut Heap,
    t: usize,
    frame: &ScriptFrame,
    dest: RegisterIndex,
    table: Result<Value, VmError>,
    key: Operand,
) -> (flow: Flow)
    requires
        t < old(heap).threads.len(),
    ensures
        (final(heap)@, flow) == old(heap)@.get_index(t as int, *frame, dest, table, key),
        final(heap).threads.len() == old(heap).threads.len(),
{
    let tv = match table {
        Err(e) => {
            return Flow::Failed(e);
        },
        Ok(tv) => tv,
    };
    let k = match operand(heap, t, frame, key) {
        Err(e) => {
            return Flow::Failed(e);
        },
        Ok(k) => k,
    };
    let v = index(heap, tv, k);
    store_result(heap, t, frame, dest, v)
}

fn set_index(
    heap: &mut Heap,
    t: usize,
    frame: &ScriptFrame,
    table: Result<Value, VmError>,
    key: Operand,
    value: Operand,
) -> (flow: Flow)
    requires
        t < old(heap).threads.len(),
    ensures
        (final(heap)@, flow) == old(heap)@.set_index(t as int, *frame, table, key, value),
        final(heap).threads.len() == old(heap).threads.len(),
{
    let tv = match table {
        Err(e) => {
            return Flow::Failed(e);
        },
        Ok(tv) => tv,
    };
    let k = match operand(heap, t, frame, key) {
        Err(e) => {
            return Flow::Failed(e);
        },
        Ok(k) => k,
    };
    let v = match operand(heap, t, frame, value) {
        Err(e) => {
            return Flow::Failed(e);
        },
        Ok(v) => v,
    };
    new_index(heap, tv, k, v)
}

fn set_upvalue(heap: &mut Heap, t: usize, frame: &ScriptFrame, dest: UpValueIndex, source: RegisterIndex) -> (flow:
    Flow)
    requires
        t < old(heap).threads.len(),
    ensures
        (final(heap)@, flow) == old(heap)@.set_upvalue(t as int, *frame, dest, source),
        final(heap).threads.len() == old(heap).threads.len(),
{
    let v = match register(heap, t, frame, source) {
        None => {
            return Flow::Failed(VmError::Integrity(IntegrityError::Register));
        },
        Some(v) => v,
    };
    if frame.closure < heap.closures.len() && (dest.0 as usize)
        < heap.closures[frame.closure].upvalues.len() {
        let id = heap.closures[frame.closure].upvalues[dest.0 as usize];
        let ghost n = heap.threads.len();
        if heap.upvalue_set(id, v) {
            proof {
                assert(heap@.threads.len() == n);
            }
            Flow::Continue
        } else {
            proof {
                assert(heap@.threads.len() == n);
            }
            Flow::Failed(VmError::Integrity(IntegrityError::Reference))
        }
    } else {
        Flow::Failed(VmError::Integrity(IntegrityError::UpValue))
    }
}

fn jump_and_close(
    heap: &mut Heap,
    t: usize,
    frame: &ScriptFrame,
    offset: i16,
    close_upvalues: Option<RegisterIndex>,
) -> (flow: Flow)
    requires
        t < old(heap).threads.len(),
    ensures
        (final(heap)@, flow) == old(heap)@.jump_and_close(t as int, *frame, offset, close_upvalues),
        final(heap).threads.len() == old(heap).threads.len(),
{
    let jumped = jump(heap, t, frame, offset);
    match close_upvalues {
        Some(r) => match jumped {
            Flow::Continue => match slot(*frame, r) {
                Some(from) => {
                    close(heap, t, from);
                    Flow::Continue
                },
                None => Flow::Failed(VmError::Integrity(IntegrityError::Register)),
            },
            _ => jumped,
        },
        None => jumped,
    }
}

fn test(heap: &mut Heap, t: usize, frame: &ScriptFrame, value: RegisterIndex, is_true: bool) -> (flow:
    Flow)
    requires
        t < old(heap).threads.len(),
    ensures
        (final(heap)@, flow) == old(heap)@.test(t as int, *frame, value, is_true),
        final(heap).threads.len() == old(heap).threads.len(),
{
    match register(heap, t, frame, value) {
        None => Flow::Failed(VmError::Integrity(IntegrityError::Register)),
        Some(v) => if v.to_bool() == is_true {
            skip(heap, t, frame)
        } else {
            Flow::Continue
        },
    }
}

fn test_set(
    heap: &mut Heap,
    t: usize,
    frame: &ScriptFrame,
    dest: RegisterIndex,
    value: RegisterIndex,
    is_true: bool,
) -> (flow: Flow)
    requires
        t < old(heap).threads.len(),
    ensures
        (final(heap)@, flow) == old(heap)@.test_set(t as int, *frame, dest, value, is_true),
        final(heap).threads.len() == old(heap).threads.len(),
{
    match register(heap, t, frame, value) {
        None => Flow::Failed(VmError::Integrity(IntegrityError::Register)),
        Some(v) => if v.to_bool() == is_true {
            skip(heap, t, frame)
        } else {
            store(heap, t, frame, dest, v)
        },
    }
}

fn unary(heap: &mut Heap, t: usize, frame: &ScriptFrame, dest: RegisterIndex, source: RegisterIndex, op: OpCode) -> (flow:
    Flow)
    requires
        t < old(heap).threads.len(),
    ensures
        (final(heap)@, flow) == old(heap)@.unary(t as int, *frame, dest, source, op),
        final(heap).threads.len() == old(heap).threads.len(),
{
    match register(heap, t, frame, source) {
        None => Flow::Failed(VmError::Integrity(IntegrityError::Register)),
        Some(v) => {
            let result = match op {
                OpCode::Not { .. } => Some(v.not()),
                OpCode::Minus { .. } => v.negate(),
                _ => v.bitwise_not(),
            };
            match result {
                Some(r) => store(heap, t, frame, dest, r),
                None => Flow::Failed(VmError::BinaryOperator(BinaryOperatorError::UnaryNegate)),
            }
        },
    }
}

fn pair(a: Value, b: Value) -> (r: Vec<Value>)
    ensures
        r@ == seq![a, b],
{
    let mut r: Vec<Value> = Vec::new();
    r.push(a);
    r.push(b);
    assert(r@ =~= seq![a, b]);
    r
}

fn binary(
    heap: &mut Heap,
    t: usize,
    frame: &ScriptFrame,
    operator: BinaryOperator,
    dest: RegisterIndex,
    left: Operand,
    right: Operand,
) -> (flow: Flow)
    requires
        t < old(heap).threads.len(),
    ensures
        (final(heap)@, flow) == old(heap)@.binary(t as int, *frame, operator, dest, left, right),
        final(heap).threads.len() == old(heap).threads.len(),
{
    let l = match operand(heap, t, frame, left) {
        Err(e) => {
            return Flow::Failed(e);
        },
        Ok(l) => l,
    };
    let r = match operand(heap, t, frame, right) {
        Err(e) => {
            return Flow::Failed(e);
        },
        Ok(r) => r,
    };
    match arithmetic(&heap.strings, operator, l, r) {
        Outcome::Value(v) => store(heap, t, frame, dest, v),
        Outcome::Deferred => {
            let i: usize = dest.0 as usize;
            let len = heap.threads[t].stack.len();
            if i < frame.size && frame.base < len && i < len - frame.base {
                let args = pair(l, r);
                ask(
                    heap,
                    t,
                    HostCall::Arithmetic(operator),
                    &args,
                    Returns::Register(frame.base + i),
                )
            } else {
                Flow::Failed(VmError::Integrity(IntegrityError::Register))
            }
        },
        Outcome::Failed => Flow::Failed(VmError::BinaryOperator(BinaryOperatorError::of(operator))),
    }
}

fn compare(
    heap: &mut Heap,
    t: usize,
    frame: &ScriptFrame,
    comparison: Comparison,
    skip_if: bool,
    left: Operand,
    right: Operand,
) -> (flow: Flow)
    requires
        t < old(heap).threads.len(),
    ensures
        (final(heap)@, flow) == old(heap)@.compare(t as int, *frame, comparison, skip_if, left, right),
        final(heap).threads.len() == old(heap).threads.len(),
{
    let l = match operand(heap, t, frame, left) {
        Err(e) => {
            return Flow::Failed(e);
        },
        Ok(l) => l,
    };
    let r = match operand(heap, t, frame, right) {
        Err(e) => {
            return Flow::Failed(e);
        },
        Ok(r) => r,
    };
    let result = match comparison {
        Comparison::Equal => Some(values_equal(&heap.strings, l, r)),
        Comparison::Less => less_than(&heap.strings, l, r),
        Comparison::LessEqual => less_equal(&heap.strings, l, r),
    };
    match result {
        None => Flow::Failed(
            VmError::BinaryOperator(
                match comparison {
                    Comparison::LessEqual => BinaryOperatorError::LessEqual,
                    _ => BinaryOperatorError::LessThan,
                },
            ),
        ),
        Some(b) => if b == skip_if {
            skip(heap, t, frame)
        } else {
            Flow::Continue
        },
    }
}

fn generic_for_loop(heap: &mut Heap, t: usize, frame: &ScriptFrame, base: RegisterIndex, offset: i16) -> (flow:
    Flow)
    requires
        t < old(heap).threads.len(),
    ensures
        (final(heap)@, flow) == old(heap)@.generic_for_loop(t as int, *frame, base, offset),
        final(heap).threads.len() == old(heap).threads.len(),
{
    let next = match register_after(base, 1) {
        None => {
            return Flow::Failed(VmError::Integrity(IntegrityError::Register));
        },
        Some(next) => next,
    };
    match register(heap, t, frame, next) {
        None => Flow::Failed(VmError::Integrity(IntegrityError::Register)),
        Some(v) => if v.to_bool() {
            let stored = store(heap, t, frame, base, v);
            match stored {
                Flow::Continue => jump(heap, t, frame, offset),
                _ => stored,
            }
        } else {
            Flow::Continue
        },
    }
}

fn method(heap: &mut Heap, t: usize, frame: &ScriptFrame, base: RegisterIndex, table: RegisterIndex, key: Operand) -> (flow:
    Flow)
    requires
        t < old(heap).threads.len(),
    ensures
        (final(heap)@, flow) == old(heap)@.method(t as int, *frame, base, table, key),
        final(heap).threads.len() == old(heap).threads.len(),
{
    let next = match register_after(base, 1) {
        None => {
            return Flow::Failed(VmError::Integrity(IntegrityError::Register));
        },
        Some(next) => next,
    };
    let tv = match operand(heap, t, frame, Operand::Register(table)) {
        Err(e) => {
            return Flow::Failed(e);
        },
        Ok(tv) => tv,
    };
    let k = match operand(heap, t, frame, key) {
        Err(e) => {
            return Flow::Failed(e);
        },
        Ok(k) => k,
    };
    match index(heap, tv, k) {
        Err(e) => Flow::Failed(e),
        Ok(v) => {
            let stored = store(heap, t, frame, next, tv);
            match stored {
                Flow::Continue => store(heap, t, frame, base, v),
                _ => stored,
            }
        },
    }
}

impl HeapModel {
    /// `NumericForPrep`: the step is subtracted from the index, and the
    /// jump is taken.
    pub open spec fn numeric_for_prep(self, t: int, frame: ScriptFrame, base: RegisterIndex, jump: i16) -> (
        HeapModel,
        Flow,
    ) {
        match spec_register_after(base, 2) {
            None => (self, failed(IntegrityError::Register)),
            Some(step_register) => match (
                self.register(t, frame, base),
                self.register(t, frame, step_register),
                self.register_slot(t, frame, base),
            ) {
                (Some(index), Some(step), Some(d)) => match spec_arithmetic(
                    self.strings,
                    BinaryOperator::Subtract,
                    index,
                    step,
                ) {
                    Outcome::Value(v) => {
                        let stored = self.store(t, frame, base, v);
                        if stored.1 is Continue {
                            stored.0.jump(t, frame, jump)
                        } else {
                            stored
                        }
                    },
                    Outcome::Deferred => {
                        let jumped = self.jump(t, frame, jump);
                        if jumped.1 is Continue {
                            jumped.0.ask(
                                t,
                                HostCall::Arithmetic(BinaryOperator::Subtract),
                                seq![index, step],
                                Returns::Register(d),
                            )
                        } else {
                            jumped
                        }
                    },
                    Outcome::Failed => (
                        self,
                        Flow::Failed(VmError::BinaryOperator(BinaryOperatorError::Subtract)),
                    ),
                },
                _ => (self, failed(IntegrityError::Register)),
            },
        }
    }

    /// `NumericForLoop`: the step is added to the index. The loop goes on
    /// if the step is positive and the new index is not above the limit,
    /// or the step is negative and the new index is not below the limit:
    /// then the loop variable, three registers after the index, takes the
    /// new index and the jump is taken. On three integers the addition
    /// wraps; on other operands that convert to numbers the step is asked
    /// of the embedder.
    pub open spec fn numeric_for_loop(self, t: int, frame: ScriptFrame, base: RegisterIndex, jump: i16) -> (
        HeapModel,
        Flow,
    ) {
        match spec_register_after(base, 3) {
            None => (self, failed(IntegrityError::Register)),
            Some(variable) => match (
                self.register(t, frame, base),
                self.register(t, frame, RegisterIndex((base.0 + 1) as u8)),
                self.register(t, frame, RegisterIndex((base.0 + 2) as u8)),
                self.register_slot(t, frame, variable),
                self.register_slot(t, frame, base),
            ) {
                (Some(index), Some(limit), Some(step), Some(_), Some(d)) => match (
                    index,
                    limit,
                    step,
                ) {
                    (Value::Integer(i), Value::Integer(l), Value::Integer(s)) => {
                        let next = wrap(i + s);
                        let stepped = self.store(t, frame, base, Value::Integer(next));
                        let goes_on = (s > 0 && next <= l) || (s < 0 && next >= l);
                        if !goes_on || !(stepped.1 is Continue) {
                            stepped
                        } else {
                            let assigned = stepped.0.store(t, frame, variable, Value::Integer(next));
                            if assigned.1 is Continue {
                                assigned.0.jump(t, frame, jump)
                            } else {
                                assigned
                            }
                        }
                    },
                    _ => if spec_is_numeric(self.strings, index) && spec_is_numeric(
                        self.strings,
                        limit,
                    ) && spec_is_numeric(self.strings, step) {
                        self.ask(
                            t,
                            HostCall::ForLoop,
                            seq![index, limit, step],
                            Returns::ForLoop { base: d, jump },
                        )
                    } else {
                        (self, Flow::Failed(VmError::BinaryOperator(BinaryOperatorError::Add)))
                    },
                },
                _ => (self, failed(IntegrityError::Register)),
            },
        }
    }

    /// `Concat`: the values of `count` registers from `source` on are
    /// joined to a new string, which goes to `dest`. A string adds its
    /// bytes and an integer its decimal form. With a number among the
    /// values the joining is asked of the embedder. Any other value fails.
    pub open spec fn concat(
        self,
        t: int,
        frame: ScriptFrame,
        dest: RegisterIndex,
        source: RegisterIndex,
        count: u8,
    ) -> (HeapModel, Flow) {
        match (spec_slot(frame, source), self.register_slot(t, frame, dest)) {
            (Some(at), Some(d)) => match spec_slice(self.threads[t].stack, at as int, count as int) {
                None => (self, failed(IntegrityError::Register)),
                Some(values) => match first_unjoinable(values, 0) {
                    Some(v) => (
                        self,
                        Flow::Failed(
                            VmError::Type { expected: TypeName::String, found: v.spec_kind() },
                        ),
                    ),
                    None => if has_number(values, 0) {
                        self.ask(t, HostCall::Concat, values, Returns::Register(d))
                    } else {
                        HeapModel {
                            strings: self.strings.push(
                                concat_text(self.strings, values, values.len() as int),
                            ),
                            ..self
                        }.store(t, frame, dest, Value::String(self.strings.len() as usize))
                    },
                },
            },
            _ => (self, failed(IntegrityError::Register)),
        }
    }

    /// `Length`: the length of a table, which is one of its borders, or
    /// of a string in bytes.
    pub open spec fn length(self, t: int, frame: ScriptFrame, dest: RegisterIndex, source: RegisterIndex) -> (
        HeapModel,
        Flow,
    ) {
        match self.register(t, frame, source) {
            None => (self, failed(IntegrityError::Register)),
            Some(Value::Table(id)) => if id < self.tables.len() && self.tables[id as int].array.len()
                <= i64::MAX {
                self.store(
                    t,
                    frame,
                    dest,
                    Value::Integer(self.tables[id as int].length(self.strings) as i64),
                )
            } else {
                (self, failed(IntegrityError::Reference))
            },
            Some(Value::String(id)) => if id < self.strings.len() && self.strings[id as int].len()
                <= i64::MAX {
                self.store(t, frame, dest, Value::Integer(self.strings[id as int].len() as i64))
            } else {
                (self, failed(IntegrityError::Reference))
            },
            Some(v) => (
                self,
                Flow::Failed(VmError::Type { expected: TypeName::Table, found: v.spec_kind() }),
            ),
        }
    }
}

fn triple(a: Value, b: Value, c: Value) -> (r: Vec<Value>)
    ensures
        r@ == seq![a, b, c],
{
    let mut r: Vec<Value> = Vec::new();
    r.push(a);
    r.push(b);
    r.push(c);
    assert(r@ =~= seq![a, b, c]);
    r
}

fn register_slot(heap: &Heap, t: usize, frame: &ScriptFrame, r: RegisterIndex) -> (i: Option<usize>)
    requires
        t < heap.threads.len(),
    ensures
        i == heap@.register_slot(t as int, *frame, r),
{
    let k: usize = r.0 as usize;
    let len = heap.threads[t].stack.len();
    if k < frame.size && frame.base < len && k < len - frame.base {
        Some(frame.base + k)
    } else {
        None
    }
}

fn numeric_for_prep(heap: &mut Heap, t: usize, frame: &ScriptFrame, base: RegisterIndex, offset: i16) -> (flow:
    Flow)
    requires
        t < old(heap).threads.len(),
    ensures
        (final(heap)@, flow) == old(heap)@.numeric_for_prep(t as int, *frame, base, offset),
        final(heap).threads.len() == old(heap).threads.len(),
{
    let step_register = match register_after(base, 2) {
        None => {
            return Flow::Failed(VmError::Integrity(IntegrityError::Register));
        },
        Some(r) => r,
    };
    match (
        register(heap, t, frame, base),
        register(heap, t, frame, step_register),
        register_slot(heap, t, frame, base),
    ) {
        (Some(index), Some(step), Some(d)) => match arithmetic(
            &heap.strings,
            BinaryOperator::Subtract,
            index,
            step,
        ) {
            Outcome::Value(v) => {
                let stored = store(heap, t, frame, base, v);
                match stored {
                    Flow::Continue => jump(heap, t, frame, offset),
                    _ => stored,
                }
            },
            Outcome::Deferred => {
                let jumped = jump(heap, t, frame, offset);
                match jumped {
                    Flow::Continue => {
                        let args = pair(index, step);
                        ask(
                            heap,
                            t,
                            HostCall::Arithmetic(BinaryOperator::Subtract),
                            &args,
                            Returns::Register(d),
                        )
                    },
                    _ => jumped,
                }
            },
            Outcome::Failed => Flow::Failed(
                VmError::BinaryOperator(BinaryOperatorError::Subtract),
            ),
        },
        _ => Flow::Failed(VmError::Integrity(IntegrityError::Register)),
    }
}

fn numeric_for_loop(heap: &mut Heap, t: usize, frame: &ScriptFrame, base: RegisterIndex, offset: i16) -> (flow:
    Flow)
    requires
        t < old(heap).threads.len(),
    ensures
        (final(heap)@, flow) == old(heap)@.numeric_for_loop(t as int, *frame, base, offset),
        final(heap).threads.len() == old(heap).threads.len(),
{
    let variable = match register_after(base, 3) {
        None => {
            return Flow::Failed(VmError::Integrity(IntegrityError::Register));
        },
        Some(r) => r,
    };
    match (
        register(heap, t, frame, base),
        register(heap, t, frame, RegisterIndex(base.0 + 1)),
        register(heap, t, frame, RegisterIndex(base.0 + 2)),
        register_slot(heap, t, frame, variable),
        register_slot(heap, t, frame, base),
    ) {
        (Some(index), Some(limit), Some(step), Some(_), Some(d)) => match (index, limit, step) {
            (Value::Integer(i), Value::Integer(l), Value::Integer(s)) => {
                let next = integer_add(i, s);
                let stepped = store(heap, t, frame, base, Value::Integer(next));
                let goes_on = (s > 0 && next <= l) || (s < 0 && next >= l);
                match stepped {
                    Flow::Continue => if !goes_on {
                        stepped
                    } else {
                        let assigned = store(heap, t, frame, variable, Value::Integer(next));
                        match assigned {
                            Flow::Continue => jump(heap, t, frame, offset),
                            _ => assigned,
                        }
                    },
                    _ => stepped,
                }
            },
            _ => if is_numeric(&heap.strings, index) && is_numeric(&heap.strings, limit)
                && is_numeric(&heap.strings, step) {
                let args = triple(index, limit, step);
                ask(heap, t, HostCall::ForLoop, &args, Returns::ForLoop { base: d, jump: offset })
            } else {
                Flow::Failed(VmError::BinaryOperator(BinaryOperatorError::Add))
            },
        },
        _ => Flow::Failed(VmError::Integrity(IntegrityError::Register)),
    }
}

fn append_bytes(out: &mut Vec<u8>, bytes: &Vec<u8>)
    ensures
        final(out)@ == old(out)@ + bytes@,
{
    let mut i: usize = 0;
    while i < bytes.len()
        invariant
            i <= bytes.len(),
            out@ == old(out)@ + bytes@.take(i as int),
        decreases bytes.len() - i,
    {
        out.push(bytes[i]);
        assert(out@ =~= old(out)@ + bytes@.take(i + 1));
        i = i + 1;
    }
    assert(bytes@.take(i as int) =~= bytes@);
}

/// Looks through the values of a concatenation: the first one that
/// cannot be joined, and whether a number is among them.
fn survey(values: &Vec<Value>) -> (r: (Option<Value>, bool))
    ensures
        r.0 == first_unjoinable(values@, 0),
        r.0 is None ==> r.1 == has_number(values@, 0),
{
    let mut number = false;
    let mut i: usize = 0;
    while i < values.len()
        invariant
            i <= values.len(),
            first_unjoinable(values@, 0) == first_unjoinable(values@, i as int),
            has_number(values@, 0) == (number || has_number(values@, i as int)),
        decreases values.len() - i,
    {
        match values[i] {
            Value::String(_) => {},
            Value::Integer(_) => {},
            Value::Number(_) => {
                number = true;
            },
            v => {
                return (Some(v), number);
            },
        }
        i = i + 1;
    }
    (None, number)
}

fn join(strings: &Vec<Vec<u8>>, values: &Vec<Value>) -> (text: Vec<u8>)
    ensures
        text@ == concat_text(contents(strings@), values@, values.len() as int),
{
    let mut text: Vec<u8> = Vec::new();
    let mut i: usize = 0;
    while i < values.len()
        invariant
            i <= values.len(),
            text@ == concat_text(contents(strings@), values@, i as int),
        decreases values.len() - i,
    {
        match values[i] {
            Value::String(s) => {
                if s < strings.len() {
                    append_bytes(&mut text, &strings[s]);
                } else {
                    assert(text@ + Seq::<u8>::empty() =~= text@);
                }
            },
            Value::Integer(n) => {
                push_integer(&mut text, n);
            },
            _ => {
                assert(text@ + Seq::<u8>::empty() =~= text@);
            },
        }
        i = i + 1;
    }
    text
}

fn concat(heap: &mut Heap, t: usize, frame: &ScriptFrame, dest: RegisterIndex, source: RegisterIndex, count: u8) -> (flow:
    Flow)
    requires
        t < old(heap).threads.len(),
    ensures
        (final(heap)@, flow) == old(heap)@.concat(t as int, *frame, dest, source, count),
        final(heap).threads.len() == old(heap).threads.len(),
{
    match (slot(*frame, source), register_slot(heap, t, frame, dest)) {
        (Some(at), Some(d)) => match slice(&heap.threads[t].stack, at, count as usize) {
            None => Flow::Failed(VmError::Integrity(IntegrityError::Register)),
            Some(values) => {
                let (unjoinable, number) = survey(&values);
                match unjoinable {
                    Some(v) => Flow::Failed(
                        VmError::Type { expected: TypeName::String, found: v.kind() },
                    ),
                    None => if number {
                        ask(heap, t, HostCall::Concat, &values, Returns::Register(d))
                    } else {
                        let text = join(&heap.strings, &values);
                        let id = heap.add_string(text);
                        store(heap, t, frame, dest, Value::String(id))
                    },
                }
            },
        },
        _ => Flow::Failed(VmError::Integrity(IntegrityError::Register)),
    }
}

fn length(heap: &mut Heap, t: usize, frame: &ScriptFrame, dest: RegisterIndex, source: RegisterIndex) -> (flow:
    Flow)
    requires
        t < old(heap).threads.len(),
    ensures
        (final(heap)@, flow) == old(heap)@.length(t as int, *frame, dest, source),
        final(heap).threads.len() == old(heap).threads.len(),
{
    match register(heap, t, frame, source) {
        None => Flow::Failed(VmError::Integrity(IntegrityError::Register)),
        Some(Value::Table(id)) => if id < heap.tables.len() && heap.tables[id].array.len() as u64
            <= i64::MAX as u64 {
            let n = heap.tables[id].length(&heap.strings);
            store(heap, t, frame, dest, Value::Integer(n))
        } else {
            Flow::Failed(VmError::Integrity(IntegrityError::Reference))
        },
        Some(Value::String(id)) => if id < heap.strings.len() && heap.strings[id].len() as u64
            <= i64::MAX as u64 {
            let n = heap.strings[id].len() as i64;
            store(heap, t, frame, dest, Value::Integer(n))
        } else {
            Flow::Failed(VmError::Integrity(IntegrityError::Reference))
        },
        Some(v) => Flow::Failed(VmError::Type { expected: TypeName::Table, found: v.kind() }),
    }
}

fn nested_prototype(heap: &Heap, frame: &ScriptFrame, proto: PrototypeIndex) -> (r: Result<
    usize,
    VmError,
>)
    ensures
        r == heap@.nested_prototype(*frame, proto),
        r matches Ok(nested) ==> nested < heap.prototypes.len() && frame.closure
            < heap.closures.len(),
{
    if frame.closure < heap.closures.len() && heap.closures[frame.closure].proto
        < heap.prototypes.len() {
        let p = &heap.prototypes[heap.closures[frame.closure].proto];
        if (proto.0 as usize) >= p.prototypes.len() {
            Err(VmError::Integrity(IntegrityError::Prototype))
        } else if p.prototypes[proto.0 as usize] >= heap.prototypes.len() {
            Err(VmError::Integrity(IntegrityError::Reference))
        } else {
            Ok(p.prototypes[proto.0 as usize])
        }
    } else {
        Err(VmError::Integrity(IntegrityError::Reference))
    }
}

fn make_closure(heap: &mut Heap, t: usize, frame: &ScriptFrame, dest: RegisterIndex, proto: PrototypeIndex) -> (flow:
    Flow)
    requires
        t < old(heap).threads.len(),
    ensures
        (final(heap)@, flow) == old(heap)@.make_closure(t as int, *frame, dest, proto),
        final(heap).threads.len() == old(heap).threads.len(),
{
    let nested = match nested_prototype(heap, frame, proto) {
        Err(e) => {
            return Flow::Failed(e);
        },
        Ok(nested) => nested,
    };
    if register_slot(heap, t, frame, dest).is_none() {
        return Flow::Failed(VmError::Integrity(IntegrityError::Register));
    }
    let n = heap.prototypes[nested].upvalues.len();
    let mut cells: Vec<usize> = Vec::new();
    let mut error: Option<VmError> = None;
    let mut i: usize = 0;
    let ghost outer = old(heap)@.closures[frame.closure as int].upvalues;
    let ghost descriptors = old(heap)@.prototypes[nested as int].upvalues;
    let ghost whole = capture(
        old(heap)@.threads[t as int],
        old(heap)@.upvalues,
        t,
        *frame,
        outer,
        descriptors,
        0,
        Seq::empty(),
    );
    while i < n && error.is_none()
        invariant
            i <= n,
            n == descriptors.len(),
            t < heap.threads.len(),
            nested < heap.prototypes.len(),
            frame.closure < heap.closures.len(),
            heap.threads.len() == old(heap).threads.len(),
            forall|j: int|
                0 <= j < heap.threads.len() && j != t ==> heap.threads@[j] == old(heap).threads@[j],
            heap.strings == old(heap).strings,
            heap.tables == old(heap).tables,
            heap.closures == old(heap).closures,
            heap.prototypes == old(heap).prototypes,
            heap.barrier == old(heap).barrier,
            outer == heap.closures@[frame.closure as int].upvalues@,
            descriptors == heap.prototypes@[nested as int].upvalues@,
            match error {
                Some(e) => whole == (heap.threads@[t as int]@, heap.upvalues@, Err::<
                    Seq<usize>,
                    VmError,
                >(e)),
                None => whole == capture(
                    heap.threads@[t as int]@,
                    heap.upvalues@,
                    t,
                    *frame,
                    outer,
                    descriptors,
                    i as int,
                    cells@,
                ),
            },
        decreases (n - i) + (if error is None { 1int } else { 0int }),
    {
        match heap.prototypes[nested].upvalues[i] {
            UpValueDescriptor::Environment => {
                error = Some(VmError::Integrity(IntegrityError::Environment));
            },
            UpValueDescriptor::ParentLocal(r) => {
                let k: usize = r.0 as usize;
                let len = heap.threads[t].stack.len();
                if k < frame.size && frame.base < len && k < len - frame.base {
                    let id = open_upvalue(&mut heap.threads[t], &mut heap.upvalues, t, frame.base + k);
                    cells.push(id);
                    i = i + 1;
                } else {
                    error = Some(VmError::Integrity(IntegrityError::Register));
                }
            },
            UpValueDescriptor::Outer(u) => {
                if (u.0 as usize) < heap.closures[frame.closure].upvalues.len() {
                    cells.push(heap.closures[frame.closure].upvalues[u.0 as usize]);
                    i = i + 1;
                } else {
                    error = Some(VmError::Integrity(IntegrityError::UpValue));
                }
            },
        }
    }
    proof {
        lemma_thread_changed(old(heap).threads@, heap.threads@, t as int);
    }
    match error {
        Some(e) => Flow::Failed(e),
        None => {
            let id = heap.add_closure(nested, cells);
            store(heap, t, frame, dest, Value::Function(Function::Closure(id)))
        },
    }
}

impl HeapModel {
    /// What an opcode does, in the running frame of thread `t`, whose
    /// program counter is past the opcode already.
    #[verifier::opaque]
    pub open spec fn execute(self, t: int, frame: ScriptFrame, op: OpCode) -> (HeapModel, Flow) {
        match op {
            OpCode::Move { dest, source } => self.store_result(
                t,
                frame,
                dest,
                self.operand(t, frame, Operand::Register(source)),
            ),
            OpCode::LoadConstant { dest, constant } => self.store_result(
                t,
                frame,
                dest,
                self.operand(t, frame, Operand::Constant(constant)),
            ),
            OpCode::LoadBool { dest, value, skip_next } => self.load_bool(
                t,
                frame,
                dest,
                value,
                skip_next,
            ),
            OpCode::LoadNil { dest, count } => self.load_nil(t, frame, dest, count),
            OpCode::NewTable { dest } => self.new_table(t, frame, dest),
            OpCode::GetTable { dest, table, key } => self.get_index(
                t,
                frame,
                dest,
                self.operand(t, frame, Operand::Register(table)),
                key,
            ),
            OpCode::SetTable { table, key, value } => self.set_index(
                t,
                frame,
                self.operand(t, frame, Operand::Register(table)),
                key,
                value,
            ),
            OpCode::GetUpTable { dest, table, key } => self.get_index(
                t,
                frame,
                dest,
                self.upvalue(frame, table),
                key,
            ),
            OpCode::SetUpTable { table, key, value } => self.set_index(
                t,
                frame,
                self.upvalue(frame, table),
                key,
                value,
            ),
            OpCode::GetUpValue { dest, source } => self.store_result(
                t,
                frame,
                dest,
                self.upvalue(frame, source),
            ),
            OpCode::SetUpValue { dest, source } => self.set_upvalue(t, frame, dest, source),
            OpCode::Call { func, args, returns: results } => self.call(t, frame, func, args, results),
            OpCode::TailCall { func, args } => self.tail_call(t, frame, func, args),
            OpCode::Return { start, count } => self.return_values(t, frame, start, count),
            OpCode::VarArgs { dest, count } => self.variable_arguments(t, frame, dest, count),
            OpCode::Jump { offset, close_upvalues } => self.jump_and_close(
                t,
                frame,
                offset,
                close_upvalues,
            ),
            OpCode::Test { value, is_true } => self.test(t, frame, value, is_true),
            OpCode::TestSet { dest, value, is_true } => self.test_set(
                t,
                frame,
                dest,
                value,
                is_true,
            ),
            OpCode::Closure { dest, proto } => self.make_closure(t, frame, dest, proto),
            OpCode::NumericForPrep { base, jump } => self.numeric_for_prep(t, frame, base, jump),
            OpCode::NumericForLoop { base, jump } => self.numeric_for_loop(t, frame, base, jump),
            OpCode::GenericForCall { base, var_count } => self.generic_for_call(
                t,
                frame,
                base,
                var_count,
            ),
            OpCode::GenericForLoop { base, jump } => self.generic_for_loop(t, frame, base, jump),
            OpCode::Method { base, table, key } => self.method(t, frame, base, table, key),
            OpCode::Concat { dest, source, count } => self.concat(t, frame, dest, source, count),
            OpCode::Length { dest, source } => self.length(t, frame, dest, source),
            OpCode::Not { dest, source } => self.unary(t, frame, dest, source, op),
            OpCode::Minus { dest, source } => self.unary(t, frame, dest, source, op),
            OpCode::BitNot { dest, source } => self.unary(t, frame, dest, source, op),
            OpCode::Binary { operator, dest, left, right } => self.binary(
                t,
                frame,
                operator,
                dest,
                left,
                right,
            ),
            OpCode::Compare { comparison, skip_if, left, right } => self.compare(
                t,
                frame,
                comparison,
                skip_if,
                left,
                right,
            ),
        }
    }

    /// One opcode of the running frame of thread `t`: the opcode at the
    /// program counter is fetched, the program counter moves past it, and
    /// the opcode is executed. In a frame whose top was set by the opcode
    /// before, only an opcode that takes everything up to the top may run.
    #[verifier::opaque]
    pub open spec fn step(self, t: usize) -> (HeapModel, Flow) {
        if t >= self.threads.len() {
            (self, failed(IntegrityError::Reference))
        } else {
            match self.threads[t as int].top_frame() {
                Some(Frame::Script(frame)) => match self.prototype_of(frame) {
                    None => (self, failed(IntegrityError::Reference)),
                    Some(p) => if frame.pc >= self.prototypes[p].opcodes.len() {
                        (self, failed(IntegrityError::ProgramCounter))
                    } else {
                        let op = self.prototypes[p].opcodes[frame.pc as int];
                        let next = ScriptFrame { pc: (frame.pc + 1) as usize, ..frame };
                        let fetched = self.with_pc(t as int, frame, (frame.pc + 1) as usize);
                        if frame.is_variable && !op.consumes_variable() {
                            (fetched, failed(IntegrityError::ExpectedVariable(false)))
                        } else {
                            fetched.execute(t as int, next, op)
                        }
                    },
                },
                _ => (self, failed(IntegrityError::Frame)),
            }
        }
    }

    /// Opcodes of the running frame of thread `t`, one after the other,
    /// until one fails, or one may have changed the running frame, or
    /// `instructions` of them have run. With the heap that results comes
    /// the failure, or the number of instructions that are left.
    pub open spec fn run(self, t: usize, instructions: nat) -> (HeapModel, Result<u32, VmError>)
        decreases instructions,
    {
        if instructions == 0 {
            (self, Ok(0))
        } else {
            let stepped = self.step(t);
            match stepped.1 {
                Flow::Failed(e) => (stepped.0, Err(e)),
                Flow::Changed => (stepped.0, Ok((instructions - 1) as u32)),
                Flow::Continue => stepped.0.run(t, (instructions - 1) as nat),
            }
        }
    }
}

fn execute(heap: &mut Heap, t: usize, frame: &ScriptFrame, op: OpCode) -> (flow: Flow)
    requires
        t < old(heap).threads.len(),
    ensures
        (final(heap)@, flow) == old(heap)@.execute(t as int, *frame, op),
        final(heap).threads.len() == old(heap).threads.len(),
{
    reveal(HeapModel::execute);
    match op {
        OpCode::Move { dest, source } => {
            let v = operand(heap, t, frame, Operand::Register(source));
            store_result(heap, t, frame, dest, v)
        },
        OpCode::LoadConstant { dest, constant } => {
            let v = operand(heap, t, frame, Operand::Constant(constant));
            store_result(heap, t, frame, dest, v)
        },
        OpCode::LoadBool { dest, value, skip_next } => load_bool(
            heap,
            t,
            frame,
            dest,
            value,
            skip_next,
        ),
        OpCode::LoadNil { dest, count } => load_nil(heap, t, frame, dest, count),
        OpCode::NewTable { dest } => new_table(heap, t, frame, dest),
        OpCode::GetTable { dest, table, key } => {
            let tv = operand(heap, t, frame, Operand::Register(table));
            get_index(heap, t, frame, dest, tv, key)
        },
        OpCode::SetTable { table, key, value } => {
            let tv = operand(heap, t, frame, Operand::Register(table));
            set_index(heap, t, frame, tv, key, value)
        },
        OpCode::GetUpTable { dest, table, key } => {
            let tv = upvalue(heap, frame, table);
            get_index(heap, t, frame, dest, tv, key)
        },
        OpCode::SetUpTable { table, key, value } => {
            let tv = upvalue(heap, frame, table);
            set_index(heap, t, frame, tv, key, value)
        },
        OpCode::GetUpValue { dest, source } => {
            let v = upvalue(heap, frame, source);
            store_result(heap, t, frame, dest, v)
        },
        OpCode::SetUpValue { dest, source } => set_upvalue(heap, t, frame, dest, source),
        OpCode::Call { func, args, returns: results } => do_call(heap, t, *frame, func, args, results),
        OpCode::TailCall { func, args } => do_tail_call(heap, t, *frame, func, args),
        OpCode::Return { start, count } => do_return(heap, t, *frame, start, count),
        OpCode::VarArgs { dest, count } => do_varargs(heap, t, *frame, dest, count),
        OpCode::Jump { offset, close_upvalues } => jump_and_close(
            heap,
            t,
            frame,
            offset,
            close_upvalues,
        ),
        OpCode::Test { value, is_true } => test(heap, t, frame, value, is_true),
        OpCode::TestSet { dest, value, is_true } => test_set(heap, t, frame, dest, value, is_true),
        OpCode::Closure { dest, proto } => make_closure(heap, t, frame, dest, proto),
        OpCode::NumericForPrep { base, jump } => numeric_for_prep(heap, t, frame, base, jump),
        OpCode::NumericForLoop { base, jump } => numeric_for_loop(heap, t, frame, base, jump),
        OpCode::GenericForCall { base, var_count } => do_generic_for_call(
            heap,
            t,
            *frame,
            base,
            var_count,
        ),
        OpCode::GenericForLoop { base, jump } => generic_for_loop(heap, t, frame, base, jump),
        OpCode::Method { base, table, key } => method(heap, t, frame, base, table, key),
        OpCode::Concat { dest, source, count } => concat(heap, t, frame, dest, source, count),
        OpCode::Length { dest, source } => length(heap, t, frame, dest, source),
        OpCode::Not { dest, source } => unary(heap, t, frame, dest, source, op),
        OpCode::Minus { dest, source } => unary(heap, t, frame, dest, source, op),
        OpCode::BitNot { dest, source } => unary(heap, t, frame, dest, source, op),
        OpCode::Binary { operator, dest, left, right } => binary(
            heap,
            t,
            frame,
            operator,
            dest,
            left,
            right,
        ),
        OpCode::Compare { comparison, skip_if, left, right } => compare(
            heap,
            t,
            frame,
            comparison,
            skip_if,
            left,
            right,
        ),
    }
}

fn consumes_variable(op: &OpCode) -> (r: bool)
    ensures
        r == op.consumes_variable(),
{
    match op {
        OpCode::Call { .. } => true,
        OpCode::TailCall { .. } => true,
        OpCode::Return { .. } => true,
        OpCode::VarArgs { .. } => true,
        OpCode::GenericForCall { .. } => true,
        _ => false,
    }
}

/// Executes the opcode at the program counter of the running frame of a
/// thread. A heap that is well-formed stays so.
pub fn step(heap: &mut Heap, thread: usize) -> (flow: Flow)
    ensures
        (final(heap)@, flow) == old(heap)@.step(thread),
        final(heap).threads.len() == old(heap).threads.len(),
        old(heap)@.well_formed() ==> final(heap)@.well_formed(),
{
    let flow = fetch_and_execute(heap, thread);
    proof {
        if old(heap)@.well_formed() {
            assert(heap@.upvalues.len() == heap.upvalues.len());
            crate::preservation::lemma_step(old(heap)@, thread);
        }
    }
    flow
}

fn fetch_and_execute(heap: &mut Heap, thread: usize) -> (flow: Flow)
    ensures
        (final(heap)@, flow) == old(heap)@.step(thread),
        final(heap).threads.len() == old(heap).threads.len(),
{
    reveal(HeapModel::step);
    if thread >= heap.threads.len() {
        return Flow::Failed(VmError::Integrity(IntegrityError::Reference));
    }
    let frame = match heap.threads[thread].top_frame() {
        Some(Frame::Script(frame)) => frame,
        _ => {
            return Flow::Failed(VmError::Integrity(IntegrityError::Frame));
        },
    };
    if !(frame.closure < heap.closures.len() && heap.closures[frame.closure].proto
        < heap.prototypes.len()) {
        return Flow::Failed(VmError::Integrity(IntegrityError::Reference));
    }
    let p = heap.closures[frame.closure].proto;
    if frame.pc >= heap.prototypes[p].opcodes.len() {
        return Flow::Failed(VmError::Integrity(IntegrityError::ProgramCounter));
    }
    let op = heap.prototypes[p].opcodes[frame.pc];
    let mut next = frame;
    next.pc = frame.pc + 1;
    set_pc(heap, thread, &frame, frame.pc + 1);
    if frame.is_variable && !consumes_variable(&op) {
        return Flow::Failed(VmError::Integrity(IntegrityError::ExpectedVariable(false)));
    }
    execute(heap, thread, &next, op)
}

/// Runs the running frame of a thread: opcode after opcode until one
/// fails, or one may have changed the running frame, or `instructions` of
/// them have run. Returns the number of instructions that are left. With
/// no instructions to run it returns at once. A heap that is well-formed
/// stays so.
pub fn run_vm(heap: &mut Heap, thread: usize, instructions: u32) -> (r: Result<u32, VmError>)
    ensures
        (final(heap)@, r) == old(heap)@.run(thread, instructions as nat),
        final(heap).threads.len() == old(heap).threads.len(),
        old(heap)@.well_formed() ==> final(heap)@.well_formed(),
{
    if instructions == 0 {
        return Ok(0);
    }
    let mut left: u32 = instructions;
    loop
        invariant
            left > 0,
            old(heap)@.run(thread, instructions as nat) == heap@.run(thread, left as nat),
            heap.threads.len() == old(heap).threads.len(),
            old(heap)@.well_formed() ==> heap@.well_formed(),
        decreases left,
    {
        match step(heap, thread) {
            Flow::Failed(e) => {
                return Err(e);
            },
            Flow::Changed => {
                return Ok(left - 1);
            },
            Flow::Continue => {
                left = left - 1;
                if left == 0 {
                    assert(heap@.run(thread, 0) == (heap@, Ok::<u32, VmError>(0)));
                    return Ok(0);
                }
            },
        }
    }
}

/// The write barrier is invoked on every write of a reference into a
/// table: after a write of a key or a value that is a reference, the
/// table is the last object noted.
pub proof fn lemma_table_write_noted(heap: HeapModel, table: Value, key: Value, value: Value)
    requires
        heap.new_index(table, key, value).1 is Continue,
    ensures
        ({
            let after = heap.new_index(table, key, value).0;
            if key.spec_is_reference() || value.spec_is_reference() {
                after.barrier == heap.barrier.push(Written::Table(spec_get_table(table).unwrap()))
            } else {
                after.barrier == heap.barrier
            }
        }),
{
}

} // verus!
