//! Every opcode keeps the heap well-formed, and so does everything else
//! that drives a thread.

use crate::driver::spec_unwind;
use crate::error::VmError;
use crate::opcode::{
    BinaryOperator, Comparison, OpCode, Operand, PrototypeIndex, RegisterIndex, UpValueDescriptor,
    UpValueIndex, VarCount,
};
use crate::state::{
    ClosureModel, Frame, HeapModel, HostCall, PrototypeModel, Returns, ScriptFrame, ThreadModel,
    UpValue,
};
use crate::thread::{popped, spec_enter, spec_host_return};
use crate::upvalue::{lemma_close_captures, slot_value, spec_close_upvalues, spec_open_upvalue};
use crate::value::Value;
use crate::vm::capture;
use crate::wellformed::{
    all_run, cells_agree, first_frames, frame_runs, has_window, in_window, lemma_call_function,
    lemma_call_function_non_destructive, lemma_close, lemma_enter, lemma_host_return, lemma_leave,
    lemma_open_ordered, lemma_request, lemma_return_upper, lemma_tail_call_function,
    lemma_thread_keeps, lemma_thread_shrinks, lemma_varargs, same_frame, top_is,
};
use vstd::prelude::*;

verus! {

/// Whether a thread differs from what it was at most in the contents of
/// its stack, which did not get shorter, and in where its frames stand
/// in their code.
pub open spec fn thread_gentle(old: ThreadModel, new: ThreadModel) -> bool {
    &&& first_frames(old.frames, new.frames)
    &&& new.frames.len() == old.frames.len()
    &&& new.open_upvalues == old.open_upvalues
    &&& old.stack.len() <= new.stack.len() <= usize::MAX
}

/// Whether a heap differs from what it was only in what well-formedness
/// does not speak of: strings, tables, closed cells, the entries of the
/// write barrier, the contents of stacks, and where frames stand in their
/// code.
pub open spec fn gentle(old: HeapModel, new: HeapModel) -> bool {
    &&& new.closures == old.closures
    &&& new.prototypes == old.prototypes
    &&& new.upvalues.len() == old.upvalues.len()
    &&& forall|id: int|
        0 <= id < old.upvalues.len() && old.upvalues[id] is Open ==> #[trigger] new.upvalues[id]
            == old.upvalues[id]
    &&& new.threads.len() == old.threads.len()
    &&& forall|t: int|
        0 <= t < old.threads.len() ==> thread_gentle(old.threads[t], #[trigger] new.threads[t])
}

/// The running frame of thread `t`, a thread of the heap, is this script
/// frame, but for where it stands in its code.
pub open spec fn runs(heap: HeapModel, t: int, frame: ScriptFrame) -> bool {
    0 <= t < heap.threads.len() && top_is(heap.threads[t], frame)
}

/// A gentle change keeps the heap well-formed.
pub proof fn lemma_gentle_well_formed(old: HeapModel, new: HeapModel)
    requires
        old.well_formed(),
        gentle(old, new),
    ensures
        new.well_formed(),
{
    assert forall|t: int| 0 <= t < new.threads.len() implies #[trigger] new.thread_well_formed(
        t,
    ) by {
        assert(old.thread_well_formed(t));
        assert(thread_gentle(old.threads[t], new.threads[t]));
        lemma_thread_keeps(old.threads[t], new.threads[t]);
        assert forall|i: int| 0 <= i < new.threads[t].frames.len() implies new.runs_closure(
            #[trigger] new.threads[t].frames[i],
        ) by {
            assert(same_frame(old.threads[t].frames[i], new.threads[t].frames[i]));
            assert(old.runs_closure(old.threads[t].frames[i]));
        }
        assert forall|k: int|
            0 <= k < new.threads[t].open_upvalues.len() implies (
        #[trigger] new.threads[t].open_upvalues[k]).upvalue < new.upvalues.len()
            && new.upvalues[new.threads[t].open_upvalues[k].upvalue as int] == (UpValue::Open {
            thread: t as usize,
            index: new.threads[t].open_upvalues[k].index,
        }) by {
            let e = old.threads[t].open_upvalues[k];
            assert(old.upvalues[e.upvalue as int] is Open);
        }
    }
    assert forall|c: int| 0 <= c < new.closures.len() implies (#[trigger] new.closures[c]).proto
        < new.prototypes.len() && new.closures[c].upvalues.len()
        == new.prototypes[new.closures[c].proto as int].upvalues.len() by {
        assert(old.closures[c] == new.closures[c]);
    }
}

/// No change is a gentle change.
proof fn lemma_gentle_reflexive(heap: HeapModel)
    requires
        heap.well_formed(),
    ensures
        gentle(heap, heap),
{
    assert forall|t: int| 0 <= t < heap.threads.len() implies thread_gentle(
        heap.threads[t],
        #[trigger] heap.threads[t],
    ) by {
        assert(heap.thread_well_formed(t));
    }
}

/// A gentle change after a gentle change is a gentle change.
proof fn lemma_gentle_transitive(a: HeapModel, b: HeapModel, c: HeapModel)
    requires
        gentle(a, b),
        gentle(b, c),
    ensures
        gentle(a, c),
{
    assert forall|t: int| 0 <= t < a.threads.len() implies thread_gentle(
        a.threads[t],
        #[trigger] c.threads[t],
    ) by {
        assert(thread_gentle(a.threads[t], b.threads[t]));
        assert(thread_gentle(b.threads[t], c.threads[t]));
        assert forall|i: int| 0 <= i < c.threads[t].frames.len() implies same_frame(
            a.threads[t].frames[i],
            #[trigger] c.threads[t].frames[i],
        ) by {
            assert(same_frame(a.threads[t].frames[i], b.threads[t].frames[i]));
            assert(same_frame(b.threads[t].frames[i], c.threads[t].frames[i]));
        }
    }
    assert forall|id: int| 0 <= id < a.upvalues.len() && a.upvalues[id] is Open implies #[trigger] c.upvalues[id]
        == a.upvalues[id] by {
        assert(b.upvalues[id] == a.upvalues[id]);
    }
}

/// A gentle change leaves the running frame what it is.
proof fn lemma_gentle_runs(old: HeapModel, new: HeapModel, t: int, frame: ScriptFrame)
    requires
        gentle(old, new),
        runs(old, t, frame),
    ensures
        runs(new, t, frame),
{
    assert(thread_gentle(old.threads[t], new.threads[t]));
    let last = old.threads[t].frames.len() - 1;
    assert(same_frame(old.threads[t].frames[last], new.threads[t].frames[last]));
}

/// Replacing one thread by a gentle change of it is a gentle change.
proof fn lemma_with_thread_gentle(heap: HeapModel, t: int, thread: ThreadModel)
    requires
        heap.well_formed(),
        0 <= t < heap.threads.len(),
        thread_gentle(heap.threads[t], thread),
    ensures
        gentle(heap, heap.with_thread(t, thread)),
{
    lemma_gentle_reflexive(heap);
    let new = heap.with_thread(t, thread);
    assert forall|u: int| 0 <= u < heap.threads.len() implies thread_gentle(
        heap.threads[u],
        #[trigger] new.threads[u],
    ) by {
        if u != t {
            assert(thread_gentle(heap.threads[u], heap.threads[u]));
        }
    }
}

/// Writing to a stack slot is a gentle change.
proof fn lemma_with_slot(heap: HeapModel, t: int, i: int, value: Value)
    requires
        heap.well_formed(),
        0 <= t < heap.threads.len(),
        0 <= i < heap.threads[t].stack.len(),
    ensures
        gentle(heap, heap.with_slot(t, i, value)),
{
    lemma_gentle_reflexive(heap);
    let thread = heap.threads[t].with_stack(heap.threads[t].stack.update(i, value));
    assert(thread_gentle(heap.threads[t], heap.threads[t]));
    lemma_with_thread_gentle(heap, t, thread);
}

/// Moving the program counter of the running frame is a gentle change.
proof fn lemma_with_pc(heap: HeapModel, t: int, frame: ScriptFrame, pc: usize)
    requires
        heap.well_formed(),
        runs(heap, t, frame),
    ensures
        gentle(heap, heap.with_pc(t, frame, pc)),
{
    lemma_gentle_reflexive(heap);
    let thread = heap.threads[t].with_top_frame(Frame::Script(ScriptFrame { pc, ..frame }));
    assert(thread_gentle(heap.threads[t], heap.threads[t]));
    assert forall|i: int| 0 <= i < thread.frames.len() implies same_frame(
        heap.threads[t].frames[i],
        #[trigger] thread.frames[i],
    ) by {}
    lemma_with_thread_gentle(heap, t, thread);
}

/// Writing to a register is a gentle change.
proof fn lemma_store(heap: HeapModel, t: int, frame: ScriptFrame, r: RegisterIndex, value: Value)
    requires
        heap.well_formed(),
        0 <= t < heap.threads.len(),
    ensures
        gentle(heap, heap.store(t, frame, r, value).0),
{
    lemma_gentle_reflexive(heap);
    if let Some(i) = heap.register_slot(t, frame, r) {
        lemma_with_slot(heap, t, i as int, value);
    }
}

/// Writing a computed value to a register is a gentle change.
proof fn lemma_store_result(
    heap: HeapModel,
    t: int,
    frame: ScriptFrame,
    r: RegisterIndex,
    value: Result<Value, VmError>,
)
    requires
        heap.well_formed(),
        0 <= t < heap.threads.len(),
    ensures
        gentle(heap, heap.store_result(t, frame, r, value).0),
{
    lemma_gentle_reflexive(heap);
    if let Ok(v) = value {
        lemma_store(heap, t, frame, r, v);
    }
}

/// Passing over an opcode is a gentle change.
proof fn lemma_skip(heap: HeapModel, t: int, frame: ScriptFrame)
    requires
        heap.well_formed(),
        runs(heap, t, frame),
    ensures
        gentle(heap, heap.skip(t, frame).0),
{
    lemma_gentle_reflexive(heap);
    if frame.pc < usize::MAX {
        lemma_with_pc(heap, t, frame, (frame.pc + 1) as usize);
    }
}

/// A jump is a gentle change.
proof fn lemma_jump(heap: HeapModel, t: int, frame: ScriptFrame, offset: i16)
    requires
        heap.well_formed(),
        runs(heap, t, frame),
    ensures
        gentle(heap, heap.jump(t, frame, offset).0),
{
    lemma_gentle_reflexive(heap);
    if let Some(pc) = crate::thread::spec_jump_target(frame.pc, offset) {
        lemma_with_pc(heap, t, frame, pc);
    }
}

/// `LoadBool` is a gentle change.
proof fn lemma_load_bool(
    heap: HeapModel,
    t: int,
    frame: ScriptFrame,
    dest: RegisterIndex,
    value: bool,
    skip_next: bool,
)
    requires
        heap.well_formed(),
        runs(heap, t, frame),
    ensures
        gentle(heap, heap.load_bool(t, frame, dest, value, skip_next).0),
{
    let stored = heap.store(t, frame, dest, Value::Boolean(value));
    lemma_store(heap, t, frame, dest, Value::Boolean(value));
    if stored.1 is Continue && skip_next {
        lemma_gentle_well_formed(heap, stored.0);
        lemma_gentle_runs(heap, stored.0, t, frame);
        lemma_skip(stored.0, t, frame);
        lemma_gentle_transitive(heap, stored.0, stored.0.skip(t, frame).0);
    }
}

/// `LoadNil` is a gentle change.
proof fn lemma_load_nil(heap: HeapModel, t: int, frame: ScriptFrame, dest: RegisterIndex, count: u8)
    requires
        heap.well_formed(),
        0 <= t < heap.threads.len(),
    ensures
        gentle(heap, heap.load_nil(t, frame, dest, count).0),
{
    lemma_gentle_reflexive(heap);
    let after = heap.load_nil(t, frame, dest, count).0;
    if after != heap {
        assert(thread_gentle(heap.threads[t], heap.threads[t]));
        lemma_with_thread_gentle(heap, t, after.threads[t]);
    }
}

/// A change of the tables, the strings and the entries of the write
/// barrier alone is a gentle change.
pub proof fn lemma_tables_and_strings(heap: HeapModel, new: HeapModel)
    requires
        heap.well_formed(),
        new == (HeapModel {
            tables: new.tables,
            strings: new.strings,
            barrier: new.barrier,
            ..heap
        }),
    ensures
        gentle(heap, new),
{
    lemma_gentle_reflexive(heap);
    assert forall|t: int| 0 <= t < heap.threads.len() implies thread_gentle(
        heap.threads[t],
        #[trigger] new.threads[t],
    ) by {
        assert(thread_gentle(heap.threads[t], heap.threads[t]));
    }
}

/// `NewTable` is a gentle change.
proof fn lemma_new_table(heap: HeapModel, t: int, frame: ScriptFrame, dest: RegisterIndex)
    requires
        heap.well_formed(),
        0 <= t < heap.threads.len(),
    ensures
        gentle(heap, heap.new_table(t, frame, dest).0),
{
    lemma_gentle_reflexive(heap);
    if heap.register_slot(t, frame, dest) is Some {
        let added = HeapModel {
            tables: heap.tables.push(crate::table::TableModel::empty()),
            ..heap
        };
        lemma_tables_and_strings(heap, added);
        lemma_gentle_well_formed(heap, added);
        lemma_store(added, t, frame, dest, Value::Table(heap.tables.len() as usize));
        lemma_gentle_transitive(
            heap,
            added,
            added.store(t, frame, dest, Value::Table(heap.tables.len() as usize)).0,
        );
    }
}

/// Writing to a table is a gentle change.
proof fn lemma_new_index(heap: HeapModel, table: Value, key: Value, value: Value)
    requires
        heap.well_formed(),
    ensures
        gentle(heap, heap.new_index(table, key, value).0),
{
    lemma_gentle_reflexive(heap);
    let after = heap.new_index(table, key, value).0;
    if after != heap {
        lemma_tables_and_strings(heap, after);
    }
}

/// `GetTable` and `GetUpTable` is a gentle change.
proof fn lemma_get_index(
    heap: HeapModel,
    t: int,
    frame: ScriptFrame,
    dest: RegisterIndex,
    table: Result<Value, VmError>,
    key: Operand,
)
    requires
        heap.well_formed(),
        0 <= t < heap.threads.len(),
    ensures
        gentle(heap, heap.get_index(t, frame, dest, table, key).0),
{
    lemma_gentle_reflexive(heap);
    match (table, heap.operand(t, frame, key)) {
        (Ok(tv), Ok(k)) => {
            lemma_store_result(heap, t, frame, dest, heap.index(tv, k));
        },
        _ => {},
    }
}

/// `SetTable` and `SetUpTable` is a gentle change.
proof fn lemma_set_index(
    heap: HeapModel,
    t: int,
    frame: ScriptFrame,
    table: Result<Value, VmError>,
    key: Operand,
    value: Operand,
)
    requires
        heap.well_formed(),
        0 <= t < heap.threads.len(),
    ensures
        gentle(heap, heap.set_index(t, frame, table, key, value).0),
{
    lemma_gentle_reflexive(heap);
    match (table, heap.operand(t, frame, key), heap.operand(t, frame, value)) {
        (Ok(tv), Ok(k), Ok(v)) => {
            lemma_new_index(heap, tv, k, v);
        },
        _ => {},
    }
}

/// Writing through an upvalue cell is a gentle change.
proof fn lemma_upvalue_set(heap: HeapModel, id: usize, value: Value)
    requires
        heap.well_formed(),
    ensures
        heap.upvalue_set(id, value) matches Some(h) ==> gentle(heap, h),
{
    lemma_gentle_reflexive(heap);
    if let Some(h) = heap.upvalue_set(id, value) {
        match heap.upvalues[id as int] {
            UpValue::Closed(_) => {
                assert forall|t: int| 0 <= t < heap.threads.len() implies thread_gentle(
                    heap.threads[t],
                    #[trigger] h.threads[t],
                ) by {
                    assert(thread_gentle(heap.threads[t], heap.threads[t]));
                }
            },
            UpValue::Open { thread, index } => {
                lemma_with_slot(heap, thread as int, index as int, value);
            },
        }
    }
}

/// `SetUpValue` is a gentle change.
proof fn lemma_set_upvalue(
    heap: HeapModel,
    t: int,
    frame: ScriptFrame,
    dest: UpValueIndex,
    source: RegisterIndex,
)
    requires
        heap.well_formed(),
        0 <= t < heap.threads.len(),
    ensures
        gentle(heap, heap.set_upvalue(t, frame, dest, source).0),
{
    lemma_gentle_reflexive(heap);
    match (heap.register(t, frame, source), heap.closure_upvalue(frame, dest)) {
        (Some(v), Some(id)) => {
            lemma_upvalue_set(heap, id, v);
        },
        _ => {},
    }
}

/// `Test` is a gentle change.
proof fn lemma_test(heap: HeapModel, t: int, frame: ScriptFrame, value: RegisterIndex, is_true: bool)
    requires
        heap.well_formed(),
        runs(heap, t, frame),
    ensures
        gentle(heap, heap.test(t, frame, value, is_true).0),
{
    lemma_gentle_reflexive(heap);
    lemma_skip(heap, t, frame);
}

/// `TestSet` is a gentle change.
proof fn lemma_test_set(
    heap: HeapModel,
    t: int,
    frame: ScriptFrame,
    dest: RegisterIndex,
    value: RegisterIndex,
    is_true: bool,
)
    requires
        heap.well_formed(),
        runs(heap, t, frame),
    ensures
        gentle(heap, heap.test_set(t, frame, dest, value, is_true).0),
{
    lemma_gentle_reflexive(heap);
    lemma_skip(heap, t, frame);
    if let Some(v) = heap.register(t, frame, value) {
        lemma_store(heap, t, frame, dest, v);
    }
}

/// A unary opcode is a gentle change.
proof fn lemma_unary(
    heap: HeapModel,
    t: int,
    frame: ScriptFrame,
    dest: RegisterIndex,
    source: RegisterIndex,
    op: OpCode,
)
    requires
        heap.well_formed(),
        0 <= t < heap.threads.len(),
    ensures
        gentle(heap, heap.unary(t, frame, dest, source, op).0),
{
    lemma_gentle_reflexive(heap);
    if let Some(v) = heap.register(t, frame, source) {
        let result = if op is Not {
            Some(Value::Boolean(!v.spec_to_bool()))
        } else if op is Minus {
            v.spec_negate()
        } else {
            v.spec_bitwise_not()
        };
        if let Some(r) = result {
            lemma_store(heap, t, frame, dest, r);
        }
    }
}

/// A comparison is a gentle change.
proof fn lemma_compare(
    heap: HeapModel,
    t: int,
    frame: ScriptFrame,
    comparison: Comparison,
    skip_if: bool,
    left: Operand,
    right: Operand,
)
    requires
        heap.well_formed(),
        runs(heap, t, frame),
    ensures
        gentle(heap, heap.compare(t, frame, comparison, skip_if, left, right).0),
{
    lemma_gentle_reflexive(heap);
    lemma_skip(heap, t, frame);
}

/// `GenericForLoop` is a gentle change.
proof fn lemma_generic_for_loop(
    heap: HeapModel,
    t: int,
    frame: ScriptFrame,
    base: RegisterIndex,
    jump: i16,
)
    requires
        heap.well_formed(),
        runs(heap, t, frame),
    ensures
        gentle(heap, heap.generic_for_loop(t, frame, base, jump).0),
{
    lemma_gentle_reflexive(heap);
    if let Some(next) = crate::vm::spec_register_after(base, 1) {
        if let Some(v) = heap.register(t, frame, next) {
            if v.spec_to_bool() {
                let stored = heap.store(t, frame, base, v);
                lemma_store(heap, t, frame, base, v);
                if stored.1 is Continue {
                    lemma_gentle_well_formed(heap, stored.0);
                    lemma_gentle_runs(heap, stored.0, t, frame);
                    lemma_jump(stored.0, t, frame, jump);
                    lemma_gentle_transitive(heap, stored.0, stored.0.jump(t, frame, jump).0);
                }
            }
        }
    }
}

/// `Method` is a gentle change.
proof fn lemma_method(
    heap: HeapModel,
    t: int,
    frame: ScriptFrame,
    base: RegisterIndex,
    table: RegisterIndex,
    key: Operand,
)
    requires
        heap.well_formed(),
        0 <= t < heap.threads.len(),
    ensures
        gentle(heap, heap.method(t, frame, base, table, key).0),
{
    lemma_gentle_reflexive(heap);
    match (
        crate::vm::spec_register_after(base, 1),
        heap.operand(t, frame, Operand::Register(table)),
        heap.operand(t, frame, key),
    ) {
        (Some(next), Ok(tv), Ok(k)) => {
            if let Ok(v) = heap.index(tv, k) {
                let stored = heap.store(t, frame, next, tv);
                lemma_store(heap, t, frame, next, tv);
                if stored.1 is Continue {
                    lemma_gentle_well_formed(heap, stored.0);
                    lemma_store(stored.0, t, frame, base, v);
                    lemma_gentle_transitive(heap, stored.0, stored.0.store(t, frame, base, v).0);
                }
            }
        },
        _ => {},
    }
}

/// `Length` is a gentle change.
proof fn lemma_length(
    heap: HeapModel,
    t: int,
    frame: ScriptFrame,
    dest: RegisterIndex,
    source: RegisterIndex,
)
    requires
        heap.well_formed(),
        0 <= t < heap.threads.len(),
    ensures
        gentle(heap, heap.length(t, frame, dest, source).0),
{
    lemma_gentle_reflexive(heap);
    match heap.register(t, frame, source) {
        Some(Value::Table(id)) => {
            if id < heap.tables.len() && heap.tables[id as int].array.len() <= i64::MAX {
                lemma_store(
                    heap,
                    t,
                    frame,
                    dest,
                    Value::Integer(heap.tables[id as int].length(heap.strings) as i64),
                );
            }
        },
        Some(Value::String(id)) => {
            if id < heap.strings.len() && heap.strings[id as int].len() <= i64::MAX {
                lemma_store(
                    heap,
                    t,
                    frame,
                    dest,
                    Value::Integer(heap.strings[id as int].len() as i64),
                );
            }
        },
        _ => {},
    }
}

/// Whether the cells are what they were, but for new ones and for
/// cells that were open on slots of thread `t`.
pub open spec fn cells_kept_for(old: Seq<UpValue>, new: Seq<UpValue>, t: usize) -> bool {
    &&& new.len() >= old.len()
    &&& forall|id: int|
        0 <= id < old.len() && #[trigger] new[id] != old[id] ==> (old[id] matches UpValue::Open {
            thread,
            ..
        } && thread == t)
}

/// A heap stays well-formed when one of its threads is replaced by a
/// well-formed thread whose frames run closures of the heap, together
/// with cells that agree with the thread and that are what they were for
/// the other threads.
proof fn lemma_thread_replaced(
    heap: HeapModel,
    t: int,
    thread: ThreadModel,
    cells: Seq<UpValue>,
)
    requires
        heap.well_formed(),
        0 <= t < heap.threads.len(),
        t <= usize::MAX,
        thread.well_formed(),
        cells_agree(thread.open_upvalues, cells, t as usize),
        cells_kept_for(heap.upvalues, cells, t as usize),
        all_run(heap.closures, heap.prototypes, thread.frames),
    ensures
        (HeapModel { upvalues: cells, ..heap }).with_thread(t, thread).well_formed(),
{
    let new = (HeapModel { upvalues: cells, ..heap }).with_thread(t, thread);
    assert forall|u: int| 0 <= u < new.threads.len() implies #[trigger] new.thread_well_formed(
        u,
    ) by {
        if u != t {
            assert(heap.thread_well_formed(u));
            assert(new.threads[u] == heap.threads[u]);
            let open = heap.threads[u].open_upvalues;
            assert forall|k: int| 0 <= k < open.len() implies (#[trigger] open[k]).upvalue
                < cells.len() && cells[open[k].upvalue as int] == (UpValue::Open {
                thread: u as usize,
                index: open[k].index,
            }) by {
                let id = open[k].upvalue as int;
                assert(heap.upvalues[id] == (UpValue::Open {
                    thread: u as usize,
                    index: open[k].index,
                }));
                if cells[id] != heap.upvalues[id] {
                    assert(u as usize == t as usize);
                }
            }
            assert forall|i: int| 0 <= i < new.threads[u].frames.len() implies new.runs_closure(
                #[trigger] new.threads[u].frames[i],
            ) by {
                assert(heap.runs_closure(heap.threads[u].frames[i]));
            }
        }
    }
    assert forall|c: int| 0 <= c < new.closures.len() implies (#[trigger] new.closures[c]).proto
        < new.prototypes.len() && new.closures[c].upvalues.len()
        == new.prototypes[new.closures[c].proto as int].upvalues.len() by {
        assert(heap.closures[c] == new.closures[c]);
    }
}

/// A heap stays well-formed whatever the write barrier holds.
pub proof fn lemma_barrier_changed(heap: HeapModel, barrier: Seq<crate::state::Written>)
    requires
        heap.well_formed(),
    ensures
        (HeapModel { barrier, ..heap }).well_formed(),
{
    let new = HeapModel { barrier, ..heap };
    lemma_tables_and_strings(heap, new);
    lemma_gentle_well_formed(heap, new);
}

/// What a well-formed heap says of one of its threads.
proof fn lemma_thread_of(heap: HeapModel, t: int)
    requires
        heap.well_formed(),
        0 <= t < heap.threads.len(),
        t <= usize::MAX,
    ensures
        heap.threads[t].well_formed(),
        cells_agree(heap.threads[t].open_upvalues, heap.upvalues, t as usize),
        all_run(heap.closures, heap.prototypes, heap.threads[t].frames),
        cells_kept_for(heap.upvalues, heap.upvalues, t as usize),
{
    assert(heap.thread_well_formed(t));
    assert forall|i: int| 0 <= i < heap.threads[t].frames.len() implies frame_runs(
        heap.closures,
        heap.prototypes,
        #[trigger] heap.threads[t].frames[i],
    ) by {
        assert(heap.runs_closure(heap.threads[t].frames[i]));
    }
}

proof fn lemma_same_heap(heap: HeapModel, t: int)
    requires
        0 <= t < heap.threads.len(),
    ensures
        (HeapModel { upvalues: heap.upvalues, ..heap }).with_thread(t, heap.threads[t]) == heap,
        heap.with_thread(t, heap.threads[t]) == heap,
{
    assert(heap.threads.update(t, heap.threads[t]) =~= heap.threads);
}

/// Asking the embedder for an operation keeps the heap well-formed.
proof fn lemma_ask(
    heap: HeapModel,
    t: int,
    function: HostCall,
    args: Seq<Value>,
    results: Returns,
)
    requires
        heap.well_formed(),
        0 <= t < heap.threads.len(),
        t <= usize::MAX,
    ensures
        heap.ask(t, function, args, results).0.well_formed(),
{
    lemma_thread_of(heap, t);
    lemma_request(heap.threads[t], function, args, results, heap.closures, heap.prototypes);
    let r = crate::thread::spec_request(heap.threads[t], function, args, results);
    lemma_thread_replaced(heap, t, r.0, heap.upvalues);
}

/// Closing upvalues keeps the heap well-formed.
proof fn lemma_close_heap(heap: HeapModel, t: int, from: usize)
    requires
        heap.well_formed(),
        0 <= t < heap.threads.len(),
        t <= usize::MAX,
    ensures
        heap.close(t, from).well_formed(),
{
    lemma_thread_of(heap, t);
    lemma_close(heap.threads[t], heap.upvalues, from, t as usize);
    let r = spec_close_upvalues(heap.threads[t], heap.upvalues, from);
    assert forall|i: int| 0 <= i < r.0.frames.len() implies frame_runs(
        heap.closures,
        heap.prototypes,
        #[trigger] r.0.frames[i],
    ) by {}
    lemma_thread_replaced(heap, t, r.0, r.1);
    let closed = (HeapModel { upvalues: r.1, ..heap }).with_thread(t, r.0);
    lemma_barrier_changed(closed, heap.note_closing(t, from).barrier);
    assert(heap.close(t, from) == (HeapModel {
        barrier: heap.note_closing(t, from).barrier,
        ..closed
    }));
}

/// `Jump` keeps the heap well-formed.
proof fn lemma_jump_and_close(
    heap: HeapModel,
    t: int,
    frame: ScriptFrame,
    offset: i16,
    close_upvalues: Option<RegisterIndex>,
)
    requires
        heap.well_formed(),
        runs(heap, t, frame),
        t <= usize::MAX,
    ensures
        heap.jump_and_close(t, frame, offset, close_upvalues).0.well_formed(),
{
    let jumped = heap.jump(t, frame, offset);
    lemma_jump(heap, t, frame, offset);
    lemma_gentle_well_formed(heap, jumped.0);
    if let Some(r) = close_upvalues {
        if jumped.1 is Continue {
            if let Some(from) = crate::thread::spec_slot(frame, r) {
                lemma_close_heap(jumped.0, t, from);
            }
        }
    }
}

/// `Call` keeps the heap well-formed.
proof fn lemma_call(
    heap: HeapModel,
    t: int,
    frame: ScriptFrame,
    func: RegisterIndex,
    args: VarCount,
    results: VarCount,
)
    requires
        heap.well_formed(),
        runs(heap, t, frame),
        t <= usize::MAX,
    ensures
        heap.call(t, frame, func, args, results).0.well_formed(),
{
    lemma_thread_of(heap, t);
    lemma_call_function(
        heap.threads[t],
        heap.closures,
        heap.prototypes,
        frame,
        func,
        args,
        results,
    );
    let r = crate::thread::spec_call_function(
        heap.threads[t],
        heap.closures,
        heap.prototypes,
        frame,
        func,
        args,
        results,
    );
    lemma_thread_replaced(heap, t, r.0, heap.upvalues);
}

/// `GenericForCall` keeps the heap well-formed.
proof fn lemma_generic_for_call(
    heap: HeapModel,
    t: int,
    frame: ScriptFrame,
    base: RegisterIndex,
    var_count: u8,
)
    requires
        heap.well_formed(),
        runs(heap, t, frame),
        t <= usize::MAX,
    ensures
        heap.generic_for_call(t, frame, base, var_count).0.well_formed(),
{
    lemma_thread_of(heap, t);
    lemma_call_function_non_destructive(
        heap.threads[t],
        heap.closures,
        heap.prototypes,
        frame,
        base,
        var_count,
    );
    let r = crate::thread::spec_call_function_non_destructive(
        heap.threads[t],
        heap.closures,
        heap.prototypes,
        frame,
        base,
        var_count,
    );
    lemma_thread_replaced(heap, t, r.0, heap.upvalues);
}

/// `VarArgs` keeps the heap well-formed.
proof fn lemma_variable_arguments(
    heap: HeapModel,
    t: int,
    frame: ScriptFrame,
    dest: RegisterIndex,
    count: VarCount,
)
    requires
        heap.well_formed(),
        runs(heap, t, frame),
        t <= usize::MAX,
    ensures
        heap.variable_arguments(t, frame, dest, count).0.well_formed(),
{
    lemma_thread_of(heap, t);
    lemma_varargs(heap.threads[t], frame, dest, count, heap.closures, heap.prototypes);
    let r = crate::thread::spec_varargs(heap.threads[t], frame, dest, count);
    lemma_thread_replaced(heap, t, r.0, heap.upvalues);
}

/// `Return` keeps the heap well-formed.
proof fn lemma_return_values(
    heap: HeapModel,
    t: int,
    frame: ScriptFrame,
    start: RegisterIndex,
    count: VarCount,
)
    requires
        heap.well_formed(),
        runs(heap, t, frame),
        t <= usize::MAX,
    ensures
        heap.return_values(t, frame, start, count).0.well_formed(),
{
    lemma_thread_of(heap, t);
    lemma_return_upper(
        heap.threads[t],
        heap.upvalues,
        frame,
        start,
        count,
        t as usize,
        heap.closures,
        heap.prototypes,
    );
    let r = crate::thread::spec_return_upper(heap.threads[t], heap.upvalues, frame, start, count);
    lemma_thread_replaced(heap, t, r.0, r.1);
    let returned = (HeapModel { upvalues: r.1, ..heap }).with_thread(t, r.0);
    lemma_barrier_changed(returned, heap.note_closing(t, frame.base).barrier);
    assert(heap.return_values(t, frame, start, count).0 == (HeapModel {
        barrier: heap.note_closing(t, frame.base).barrier,
        ..returned
    }));
}

/// `TailCall` keeps the heap well-formed.
proof fn lemma_tail_call(
    heap: HeapModel,
    t: int,
    frame: ScriptFrame,
    func: RegisterIndex,
    args: VarCount,
)
    requires
        heap.well_formed(),
        runs(heap, t, frame),
        t <= usize::MAX,
    ensures
        heap.tail_call(t, frame, func, args).0.well_formed(),
{
    lemma_thread_of(heap, t);
    lemma_tail_call_function(
        heap.threads[t],
        heap.upvalues,
        heap.closures,
        heap.prototypes,
        frame,
        func,
        args,
        t as usize,
    );
    let r = crate::thread::spec_tail_call_function(
        heap.threads[t],
        heap.upvalues,
        heap.closures,
        heap.prototypes,
        frame,
        func,
        args,
    );
    lemma_thread_replaced(heap, t, r.0, r.1);
    let called = (HeapModel { upvalues: r.1, ..heap }).with_thread(t, r.0);
    lemma_barrier_changed(called, heap.note_closing(t, frame.base).barrier);
    assert(heap.tail_call(t, frame, func, args).0 == (HeapModel {
        barrier: heap.note_closing(t, frame.base).barrier,
        ..called
    }));
}

/// An arithmetic or bitwise opcode keeps the heap well-formed.
proof fn lemma_binary(
    heap: HeapModel,
    t: int,
    frame: ScriptFrame,
    operator: BinaryOperator,
    dest: RegisterIndex,
    left: Operand,
    right: Operand,
)
    requires
        heap.well_formed(),
        0 <= t < heap.threads.len(),
        t <= usize::MAX,
    ensures
        heap.binary(t, frame, operator, dest, left, right).0.well_formed(),
{
    match (heap.operand(t, frame, left), heap.operand(t, frame, right)) {
        (Ok(l), Ok(r)) => match crate::value::spec_arithmetic(heap.strings, operator, l, r) {
            crate::value::Outcome::Value(v) => {
                lemma_store(heap, t, frame, dest, v);
                lemma_gentle_well_formed(heap, heap.store(t, frame, dest, v).0);
            },
            crate::value::Outcome::Deferred => {
                if let Some(d) = heap.register_slot(t, frame, dest) {
                    lemma_ask(
                        heap,
                        t,
                        HostCall::Arithmetic(operator),
                        seq![l, r],
                        Returns::Register(d),
                    );
                }
            },
            crate::value::Outcome::Failed => {},
        },
        _ => {},
    }
}

/// `Concat` keeps the heap well-formed.
proof fn lemma_concat(
    heap: HeapModel,
    t: int,
    frame: ScriptFrame,
    dest: RegisterIndex,
    source: RegisterIndex,
    count: u8,
)
    requires
        heap.well_formed(),
        0 <= t < heap.threads.len(),
        t <= usize::MAX,
    ensures
        heap.concat(t, frame, dest, source, count).0.well_formed(),
{
    match (crate::thread::spec_slot(frame, source), heap.register_slot(t, frame, dest)) {
        (Some(at), Some(d)) => {
            if let Some(values) = crate::stack::spec_slice(
                heap.threads[t].stack,
                at as int,
                count as int,
            ) {
                if crate::vm::first_unjoinable(values, 0) is None {
                    if crate::vm::has_number(values, 0) {
                        lemma_ask(heap, t, HostCall::Concat, values, Returns::Register(d));
                    } else {
                        let added = HeapModel {
                            strings: heap.strings.push(
                                crate::vm::concat_text(heap.strings, values, values.len() as int),
                            ),
                            ..heap
                        };
                        lemma_tables_and_strings(heap, added);
                        lemma_gentle_well_formed(heap, added);
                        let v = Value::String(heap.strings.len() as usize);
                        lemma_store(added, t, frame, dest, v);
                        lemma_gentle_well_formed(added, added.store(t, frame, dest, v).0);
                    }
                }
            }
        },
        _ => {},
    }
}

/// `NumericForPrep` keeps the heap well-formed.
proof fn lemma_numeric_for_prep(
    heap: HeapModel,
    t: int,
    frame: ScriptFrame,
    base: RegisterIndex,
    jump: i16,
)
    requires
        heap.well_formed(),
        runs(heap, t, frame),
        t <= usize::MAX,
    ensures
        heap.numeric_for_prep(t, frame, base, jump).0.well_formed(),
{
    if let Some(step_register) = crate::vm::spec_register_after(base, 2) {
        match (
            heap.register(t, frame, base),
            heap.register(t, frame, step_register),
            heap.register_slot(t, frame, base),
        ) {
            (Some(index), Some(step), Some(d)) => match crate::value::spec_arithmetic(
                heap.strings,
                BinaryOperator::Subtract,
                index,
                step,
            ) {
                crate::value::Outcome::Value(v) => {
                    let stored = heap.store(t, frame, base, v);
                    lemma_store(heap, t, frame, base, v);
                    lemma_gentle_well_formed(heap, stored.0);
                    if stored.1 is Continue {
                        lemma_gentle_runs(heap, stored.0, t, frame);
                        lemma_jump(stored.0, t, frame, jump);
                        lemma_gentle_well_formed(stored.0, stored.0.jump(t, frame, jump).0);
                    }
                },
                crate::value::Outcome::Deferred => {
                    let jumped = heap.jump(t, frame, jump);
                    lemma_jump(heap, t, frame, jump);
                    lemma_gentle_well_formed(heap, jumped.0);
                    if jumped.1 is Continue {
                        lemma_ask(
                            jumped.0,
                            t,
                            HostCall::Arithmetic(BinaryOperator::Subtract),
                            seq![index, step],
                            Returns::Register(d),
                        );
                    }
                },
                crate::value::Outcome::Failed => {},
            },
            _ => {},
        }
    }
}

/// `NumericForLoop` keeps the heap well-formed.
proof fn lemma_numeric_for_loop(
    heap: HeapModel,
    t: int,
    frame: ScriptFrame,
    base: RegisterIndex,
    jump: i16,
)
    requires
        heap.well_formed(),
        runs(heap, t, frame),
        t <= usize::MAX,
    ensures
        heap.numeric_for_loop(t, frame, base, jump).0.well_formed(),
{
    if let Some(variable) = crate::vm::spec_register_after(base, 3) {
        match (
            heap.register(t, frame, base),
            heap.register(t, frame, RegisterIndex((base.0 + 1) as u8)),
            heap.register(t, frame, RegisterIndex((base.0 + 2) as u8)),
            heap.register_slot(t, frame, variable),
            heap.register_slot(t, frame, base),
        ) {
            (Some(index), Some(limit), Some(step), Some(_), Some(d)) => match (index, limit, step) {
                (Value::Integer(i), Value::Integer(l), Value::Integer(s)) => {
                    let next = crate::integer::wrap(i + s);
                    let stepped = heap.store(t, frame, base, Value::Integer(next));
                    lemma_store(heap, t, frame, base, Value::Integer(next));
                    lemma_gentle_well_formed(heap, stepped.0);
                    if stepped.1 is Continue {
                        let assigned = stepped.0.store(t, frame, variable, Value::Integer(next));
                        lemma_store(stepped.0, t, frame, variable, Value::Integer(next));
                        lemma_gentle_well_formed(stepped.0, assigned.0);
                        if assigned.1 is Continue {
                            lemma_gentle_runs(heap, stepped.0, t, frame);
                            lemma_gentle_runs(stepped.0, assigned.0, t, frame);
                            lemma_jump(assigned.0, t, frame, jump);
                            lemma_gentle_well_formed(assigned.0, assigned.0.jump(t, frame, jump).0);
                        }
                    }
                },
                _ => {
                    lemma_ask(
                        heap,
                        t,
                        HostCall::ForLoop,
                        seq![index, limit, step],
                        Returns::ForLoop { base: d, jump },
                    );
                },
            },
            _ => {},
        }
    }
}

proof fn lemma_capture_grows(
    thread: ThreadModel,
    cells: Seq<UpValue>,
    t: usize,
    frame: ScriptFrame,
    outer: Seq<usize>,
    descriptors: Seq<UpValueDescriptor>,
    i: int,
    found: Seq<usize>,
)
    ensures
        capture(thread, cells, t, frame, outer, descriptors, i, found).1.len() >= cells.len(),
    decreases descriptors.len() - i,
{
    if i < 0 || i >= descriptors.len() {
    } else {
        match descriptors[i] {
            UpValueDescriptor::Environment => {},
            UpValueDescriptor::ParentLocal(r) => {
                if r.0 < frame.size && frame.base + r.0 < thread.stack.len() {
                    let opened = spec_open_upvalue(thread, cells, t, (frame.base + r.0) as usize);
                    lemma_capture_grows(
                        opened.0,
                        opened.1,
                        t,
                        frame,
                        outer,
                        descriptors,
                        i + 1,
                        found.push(opened.2),
                    );
                }
            },
            UpValueDescriptor::Outer(u) => {
                if u.0 < outer.len() {
                    lemma_capture_grows(
                        thread,
                        cells,
                        t,
                        frame,
                        outer,
                        descriptors,
                        i + 1,
                        found.push(outer[u.0 as int]),
                    );
                }
            },
        }
    }
}

/// Finding the upvalue cells of a new closure keeps the thread
/// well-formed, and finds a cell for each descriptor.
proof fn lemma_capture(
    thread: ThreadModel,
    cells: Seq<UpValue>,
    t: usize,
    frame: ScriptFrame,
    outer: Seq<usize>,
    descriptors: Seq<UpValueDescriptor>,
    i: int,
    found: Seq<usize>,
)
    requires
        thread.well_formed(),
        cells_agree(thread.open_upvalues, cells, t),
        top_is(thread, frame),
        0 <= i <= descriptors.len(),
        capture(thread, cells, t, frame, outer, descriptors, i, found).1.len() <= usize::MAX,
    ensures
        ({
            let r = capture(thread, cells, t, frame, outer, descriptors, i, found);
            &&& r.0.well_formed()
            &&& cells_agree(r.0.open_upvalues, r.1, t)
            &&& cells_kept_for(cells, r.1, t)
            &&& r.0.frames == thread.frames
            &&& r.0.stack == thread.stack
            &&& r.2 matches Ok(c) ==> c.len() == found.len() + descriptors.len() - i
        }),
    decreases descriptors.len() - i,
{
    if i >= descriptors.len() {
    } else {
        match descriptors[i] {
            UpValueDescriptor::Environment => {},
            UpValueDescriptor::ParentLocal(r) => {
                if r.0 < frame.size && frame.base + r.0 < thread.stack.len() {
                    let index = (frame.base + r.0) as usize;
                    let opened = spec_open_upvalue(thread, cells, t, index);
                    lemma_capture_grows(
                        opened.0,
                        opened.1,
                        t,
                        frame,
                        outer,
                        descriptors,
                        i + 1,
                        found.push(opened.2),
                    );
                    lemma_open_ordered(thread, cells, t, index);
                    let last = thread.frames.len() - 1;
                    assert(in_window(thread.frames[last], index));
                    assert(has_window(thread.frames, index));
                    assert forall|k: int| 0 <= k < opened.0.open_upvalues.len() implies has_window(
                        opened.0.frames,
                        (#[trigger] opened.0.open_upvalues[k]).index,
                    ) by {
                        if opened.0.open_upvalues[k].index != index {
                            let m = choose|m: int|
                                0 <= m < thread.open_upvalues.len() && thread.open_upvalues[m]
                                    == opened.0.open_upvalues[k];
                            assert(has_window(thread.frames, thread.open_upvalues[m].index));
                        }
                    }
                    assert(opened.0.well_formed());
                    lemma_capture(
                        opened.0,
                        opened.1,
                        t,
                        frame,
                        outer,
                        descriptors,
                        i + 1,
                        found.push(opened.2),
                    );
                }
            },
            UpValueDescriptor::Outer(u) => {
                if u.0 < outer.len() {
                    lemma_capture(
                        thread,
                        cells,
                        t,
                        frame,
                        outer,
                        descriptors,
                        i + 1,
                        found.push(outer[u.0 as int]),
                    );
                }
            },
        }
    }
}

/// A heap stays well-formed when a closure is added to it that has as
/// many upvalues as its prototype has descriptors.
pub proof fn lemma_closure_added(heap: HeapModel, closure: ClosureModel)
    requires
        heap.well_formed(),
        closure.proto < heap.prototypes.len(),
        closure.upvalues.len() == heap.prototypes[closure.proto as int].upvalues.len(),
    ensures
        (HeapModel { closures: heap.closures.push(closure), ..heap }).well_formed(),
{
    let new = HeapModel { closures: heap.closures.push(closure), ..heap };
    assert forall|c: int| 0 <= c < new.closures.len() implies (#[trigger] new.closures[c]).proto
        < new.prototypes.len() && new.closures[c].upvalues.len()
        == new.prototypes[new.closures[c].proto as int].upvalues.len() by {
        if c < heap.closures.len() {
            assert(heap.closures[c] == new.closures[c]);
        }
    }
    assert forall|t: int| 0 <= t < new.threads.len() implies #[trigger] new.thread_well_formed(
        t,
    ) by {
        assert(heap.thread_well_formed(t));
        assert forall|i: int| 0 <= i < new.threads[t].frames.len() implies new.runs_closure(
            #[trigger] new.threads[t].frames[i],
        ) by {
            assert(heap.runs_closure(heap.threads[t].frames[i]));
        }
    }
}

/// `Closure` keeps the heap well-formed.
proof fn lemma_make_closure(
    heap: HeapModel,
    t: int,
    frame: ScriptFrame,
    dest: RegisterIndex,
    proto: PrototypeIndex,
)
    requires
        heap.well_formed(),
        runs(heap, t, frame),
        heap.make_closure(t, frame, dest, proto).0.upvalues.len() <= usize::MAX,
    ensures
        heap.make_closure(t, frame, dest, proto).0.well_formed(),
{
    if let Ok(nested) = heap.nested_prototype(frame, proto) {
        if heap.register_slot(t, frame, dest) is Some {
            lemma_thread_of(heap, t);
            let captured = capture(
                heap.threads[t],
                heap.upvalues,
                t as usize,
                frame,
                heap.closures[frame.closure as int].upvalues,
                heap.prototypes[nested as int].upvalues,
                0,
                Seq::empty(),
            );
            let h = (HeapModel { upvalues: captured.1, ..heap }).with_thread(t, captured.0);
            // The cells that were found are the cells of the heap that results.
            assert(heap.make_closure(t, frame, dest, proto).0.upvalues == captured.1);
            lemma_capture(
                heap.threads[t],
                heap.upvalues,
                t as usize,
                frame,
                heap.closures[frame.closure as int].upvalues,
                heap.prototypes[nested as int].upvalues,
                0,
                Seq::empty(),
            );
            assert forall|i: int| 0 <= i < captured.0.frames.len() implies frame_runs(
                heap.closures,
                heap.prototypes,
                #[trigger] captured.0.frames[i],
            ) by {}
            lemma_thread_replaced(heap, t, captured.0, captured.1);
            if let Ok(cells) = captured.2 {
                let closure = ClosureModel { proto: nested, upvalues: cells };
                lemma_closure_added(h, closure);
                let added = HeapModel { closures: h.closures.push(closure), ..h };
                let v = Value::Function(
                    crate::value::Function::Closure(heap.closures.len() as usize),
                );
                lemma_store(added, t, frame, dest, v);
                lemma_gentle_well_formed(added, added.store(t, frame, dest, v).0);
            }
        }
    }
}

/// Every opcode keeps the heap well-formed.
pub proof fn lemma_execute(heap: HeapModel, t: int, frame: ScriptFrame, op: OpCode)
    requires
        heap.well_formed(),
        runs(heap, t, frame),
        heap.execute(t, frame, op).0.upvalues.len() <= usize::MAX,
    ensures
        heap.execute(t, frame, op).0.well_formed(),
{
    reveal(HeapModel::execute);
    match op {
        OpCode::Move { dest, source } => {
            let v = heap.operand(t, frame, Operand::Register(source));
            lemma_store_result(heap, t, frame, dest, v);
            lemma_gentle_well_formed(heap, heap.store_result(t, frame, dest, v).0);
        },
        OpCode::LoadConstant { dest, constant } => {
            let v = heap.operand(t, frame, Operand::Constant(constant));
            lemma_store_result(heap, t, frame, dest, v);
            lemma_gentle_well_formed(heap, heap.store_result(t, frame, dest, v).0);
        },
        OpCode::LoadBool { dest, value, skip_next } => {
            lemma_load_bool(heap, t, frame, dest, value, skip_next);
            lemma_gentle_well_formed(heap, heap.load_bool(t, frame, dest, value, skip_next).0);
        },
        OpCode::LoadNil { dest, count } => {
            lemma_load_nil(heap, t, frame, dest, count);
            lemma_gentle_well_formed(heap, heap.load_nil(t, frame, dest, count).0);
        },
        OpCode::NewTable { dest } => {
            lemma_new_table(heap, t, frame, dest);
            lemma_gentle_well_formed(heap, heap.new_table(t, frame, dest).0);
        },
        OpCode::GetTable { dest, table, key } => {
            let tv = heap.operand(t, frame, Operand::Register(table));
            lemma_get_index(heap, t, frame, dest, tv, key);
            lemma_gentle_well_formed(heap, heap.get_index(t, frame, dest, tv, key).0);
        },
        OpCode::SetTable { table, key, value } => {
            let tv = heap.operand(t, frame, Operand::Register(table));
            lemma_set_index(heap, t, frame, tv, key, value);
            lemma_gentle_well_formed(heap, heap.set_index(t, frame, tv, key, value).0);
        },
        OpCode::GetUpTable { dest, table, key } => {
            let tv = heap.upvalue(frame, table);
            lemma_get_index(heap, t, frame, dest, tv, key);
            lemma_gentle_well_formed(heap, heap.get_index(t, frame, dest, tv, key).0);
        },
        OpCode::SetUpTable { table, key, value } => {
            let tv = heap.upvalue(frame, table);
            lemma_set_index(heap, t, frame, tv, key, value);
            lemma_gentle_well_formed(heap, heap.set_index(t, frame, tv, key, value).0);
        },
        OpCode::GetUpValue { dest, source } => {
            let v = heap.upvalue(frame, source);
            lemma_store_result(heap, t, frame, dest, v);
            lemma_gentle_well_formed(heap, heap.store_result(t, frame, dest, v).0);
        },
        OpCode::SetUpValue { dest, source } => {
            lemma_set_upvalue(heap, t, frame, dest, source);
            lemma_gentle_well_formed(heap, heap.set_upvalue(t, frame, dest, source).0);
        },
        OpCode::Call { func, args, returns: results } => {
            lemma_call(heap, t, frame, func, args, results);
        },
        OpCode::TailCall { func, args } => {
            lemma_tail_call(heap, t, frame, func, args);
        },
        OpCode::Return { start, count } => {
            lemma_return_values(heap, t, frame, start, count);
        },
        OpCode::VarArgs { dest, count } => {
            lemma_variable_arguments(heap, t, frame, dest, count);
        },
        OpCode::Jump { offset, close_upvalues } => {
            lemma_jump_and_close(heap, t, frame, offset, close_upvalues);
        },
        OpCode::Test { value, is_true } => {
            lemma_test(heap, t, frame, value, is_true);
            lemma_gentle_well_formed(heap, heap.test(t, frame, value, is_true).0);
        },
        OpCode::TestSet { dest, value, is_true } => {
            lemma_test_set(heap, t, frame, dest, value, is_true);
            lemma_gentle_well_formed(heap, heap.test_set(t, frame, dest, value, is_true).0);
        },
        OpCode::Closure { dest, proto } => {
            lemma_make_closure(heap, t, frame, dest, proto);
        },
        OpCode::NumericForPrep { base, jump } => {
            lemma_numeric_for_prep(heap, t, frame, base, jump);
        },
        OpCode::NumericForLoop { base, jump } => {
            lemma_numeric_for_loop(heap, t, frame, base, jump);
        },
        OpCode::GenericForCall { base, var_count } => {
            lemma_generic_for_call(heap, t, frame, base, var_count);
        },
        OpCode::GenericForLoop { base, jump } => {
            lemma_generic_for_loop(heap, t, frame, base, jump);
            lemma_gentle_well_formed(heap, heap.generic_for_loop(t, frame, base, jump).0);
        },
        OpCode::Method { base, table, key } => {
            lemma_method(heap, t, frame, base, table, key);
            lemma_gentle_well_formed(heap, heap.method(t, frame, base, table, key).0);
        },
        OpCode::Concat { dest, source, count } => {
            lemma_concat(heap, t, frame, dest, source, count);
        },
        OpCode::Length { dest, source } => {
            lemma_length(heap, t, frame, dest, source);
            lemma_gentle_well_formed(heap, heap.length(t, frame, dest, source).0);
        },
        OpCode::Not { dest, source } => {
            lemma_unary(heap, t, frame, dest, source, op);
            lemma_gentle_well_formed(heap, heap.unary(t, frame, dest, source, op).0);
        },
        OpCode::Minus { dest, source } => {
            lemma_unary(heap, t, frame, dest, source, op);
            lemma_gentle_well_formed(heap, heap.unary(t, frame, dest, source, op).0);
        },
        OpCode::BitNot { dest, source } => {
            lemma_unary(heap, t, frame, dest, source, op);
            lemma_gentle_well_formed(heap, heap.unary(t, frame, dest, source, op).0);
        },
        OpCode::Binary { operator, dest, left, right } => {
            lemma_binary(heap, t, frame, operator, dest, left, right);
        },
        OpCode::Compare { comparison, skip_if, left, right } => {
            lemma_compare(heap, t, frame, comparison, skip_if, left, right);
            lemma_gentle_well_formed(
                heap,
                heap.compare(t, frame, comparison, skip_if, left, right).0,
            );
        },
    }
}

/// One opcode keeps the heap well-formed: what holds of the heap before an
/// opcode holds of it after the opcode, as long as the upvalue cells
/// that the opcode makes still fit this machine.
pub proof fn lemma_step(heap: HeapModel, t: usize)
    requires
        heap.well_formed(),
        heap.step(t).0.upvalues.len() <= usize::MAX,
    ensures
        heap.step(t).0.well_formed(),
{
    reveal(HeapModel::step);
    if t < heap.threads.len() {
        if let Some(Frame::Script(frame)) = heap.threads[t as int].top_frame() {
            if let Some(p) = heap.prototype_of(frame) {
                if frame.pc < heap.prototypes[p].opcodes.len() {
                    let op = heap.prototypes[p].opcodes[frame.pc as int];
                    let next = ScriptFrame { pc: (frame.pc + 1) as usize, ..frame };
                    let fetched = heap.with_pc(t as int, frame, (frame.pc + 1) as usize);
                    lemma_with_pc(heap, t as int, frame, (frame.pc + 1) as usize);
                    lemma_gentle_well_formed(heap, fetched);
                    lemma_gentle_runs(heap, fetched, t as int, frame);
                    assert(runs(fetched, t as int, next));
                    if !(frame.is_variable && !op.consumes_variable()) {
                        lemma_execute(fetched, t as int, next, op);
                    }
                }
            }
        }
    }
}

proof fn lemma_cells_kept_twice(a: Seq<UpValue>, b: Seq<UpValue>, c: Seq<UpValue>, t: usize)
    requires
        cells_kept_for(a, b, t),
        cells_kept_for(b, c, t),
    ensures
        cells_kept_for(a, c, t),
{
    assert forall|id: int| 0 <= id < a.len() && #[trigger] c[id] != a[id] implies (
    a[id] matches UpValue::Open { thread, .. } && thread == t) by {
        if b[id] == a[id] {
            assert(c[id] != b[id]);
        }
    }
}

/// Unwinding keeps a thread well-formed.
proof fn lemma_unwind(
    thread: ThreadModel,
    cells: Seq<UpValue>,
    t: usize,
    closures: Seq<ClosureModel>,
    prototypes: Seq<PrototypeModel>,
)
    requires
        thread.well_formed(),
        cells_agree(thread.open_upvalues, cells, t),
        all_run(closures, prototypes, thread.frames),
    ensures
        ({
            let r = spec_unwind(thread, cells);
            &&& r.0.well_formed()
            &&& cells_agree(r.0.open_upvalues, r.1, t)
            &&& cells_kept_for(cells, r.1, t)
            &&& all_run(closures, prototypes, r.0.frames)
        }),
    decreases thread.frames.len(),
{
    if let Some(Frame::Script(frame)) = thread.top_frame() {
        lemma_leave(thread, cells, frame, t, closures, prototypes);
        let closed = spec_close_upvalues(thread, cells, frame.base);
        let left = ThreadModel { frames: thread.frames.drop_last(), ..closed.0 };
        crate::upvalue::lemma_closed_above(thread, cells, frame.base);
        assert(left == popped(closed.0));
        lemma_unwind(left, closed.1, t, closures, prototypes);
        lemma_cells_kept_twice(cells, closed.1, spec_unwind(left, closed.1).1, t);
    }
}

/// A thread that fails leaves the heap well-formed.
pub proof fn lemma_fail(heap: HeapModel, t: usize, error: VmError)
    requires
        heap.well_formed(),
    ensures
        heap.fail(t, error).well_formed(),
{
    if t < heap.threads.len() {
        lemma_thread_of(heap, t as int);
        lemma_unwind(heap.threads[t as int], heap.upvalues, t, heap.closures, heap.prototypes);
        let unwound = spec_unwind(heap.threads[t as int], heap.upvalues);
        let thread = ThreadModel {
            error: Some(error),
            status: if unwound.0.frames.len() == 0 {
                crate::state::ThreadStatus::Error
            } else {
                unwound.0.status
            },
            ..unwound.0
        };
        assert(first_frames(unwound.0.frames, thread.frames));
        lemma_thread_keeps(unwound.0, thread);
        lemma_thread_replaced(heap, t as int, thread, unwound.1);
        let failed = (HeapModel { upvalues: unwound.1, ..heap }).with_thread(t as int, thread);
        let barrier = heap.barrier + crate::driver::spec_unwind_notes(
            heap.threads[t as int],
            heap.upvalues,
        );
        lemma_barrier_changed(failed, barrier);
        assert(heap.fail(t, error) == (HeapModel { barrier, ..failed }));
    }
}

/// An error that the embedder raises leaves the heap well-formed.
pub proof fn lemma_raise(heap: HeapModel, t: usize, error: VmError)
    requires
        heap.well_formed(),
    ensures
        heap.raise(t, error).well_formed(),
{
    if t < heap.threads.len() {
        lemma_thread_of(heap, t as int);
        let thread = heap.threads[t as int];
        if thread.top_frame() matches Some(Frame::Host(_)) {
            let below = popped(thread);
            assert forall|i: int| 0 <= i < below.frames.len() implies same_frame(
                thread.frames[i],
                #[trigger] below.frames[i],
            ) by {}
            assert forall|k: int| 0 <= k < thread.open_upvalues.len() implies has_window(
                below.frames,
                (#[trigger] thread.open_upvalues[k]).index,
            ) by {
                let index = thread.open_upvalues[k].index;
                assert(has_window(thread.frames, index));
                let j = choose|j: int|
                    0 <= j < thread.frames.len() && in_window(#[trigger] thread.frames[j], index);
                assert(below.frames[j] == thread.frames[j]);
                assert(in_window(below.frames[j], index));
            }
            assert(thread.open_upvalues.take(thread.open_upvalues.len() as int)
                =~= thread.open_upvalues);
            assert forall|i: int| 0 <= i < below.frames.len() implies crate::wellformed::frame_end(
                #[trigger] below.frames[i],
            ) <= below.stack.len() by {
                assert(below.frames[i] == thread.frames[i]);
            }
            lemma_thread_shrinks(thread, below, thread.open_upvalues.len() as int);
            assert forall|i: int| 0 <= i < below.frames.len() implies frame_runs(
                heap.closures,
                heap.prototypes,
                #[trigger] below.frames[i],
            ) by {
                assert(below.frames[i] == thread.frames[i]);
            }
            lemma_thread_replaced(heap, t as int, below, heap.upvalues);
            lemma_fail(heap.with_thread(t as int, below), t, error);
        } else {
            lemma_same_heap(heap, t as int);
            lemma_fail(heap, t, error);
        }
    }
}

/// Starting a thread leaves the heap well-formed.
pub proof fn lemma_start(heap: HeapModel, t: usize, function: Value, args: Seq<Value>)
    requires
        heap.well_formed(),
    ensures
        heap.start(t, function, args).0.well_formed(),
{
    let r = heap.start(t, function, args);
    if r.1 is None {
        lemma_thread_of(heap, t as int);
        let thread = heap.threads[t as int];
        let fresh = ThreadModel {
            stack: seq![function] + args,
            status: crate::state::ThreadStatus::Running,
            error: None,
            ..thread
        };
        assert(thread.open_upvalues.len() == 0) by {
            if thread.open_upvalues.len() > 0 {
                assert(has_window(thread.frames, thread.open_upvalues[0].index));
            }
        }
        assert(fresh.well_formed());
        lemma_enter(
            fresh,
            heap.closures,
            heap.prototypes,
            0,
            args.len() as usize,
            Returns::Values(VarCount::Variable),
        );
        let entered = spec_enter(
            fresh,
            heap.closures,
            heap.prototypes,
            0,
            args.len() as usize,
            Returns::Values(VarCount::Variable),
        );
        assert forall|i: int| 0 <= i < entered.0.frames.len() implies frame_runs(
            heap.closures,
            heap.prototypes,
            #[trigger] entered.0.frames[i],
        ) by {}
        lemma_thread_replaced(heap, t as int, entered.0, heap.upvalues);
        lemma_same_heap(heap, t as int);
    }
}

/// A call of the embedder leaves the heap well-formed.
pub proof fn lemma_call_back(heap: HeapModel, t: usize, function: Value, args: Seq<Value>)
    requires
        heap.well_formed(),
    ensures
        heap.call_back(t, function, args).0.well_formed(),
{
    let r = heap.call_back(t, function, args);
    if r.1 is None {
        lemma_thread_of(heap, t as int);
        let thread = heap.threads[t as int];
        let pushed = thread.with_stack(thread.stack + (seq![function] + args));
        assert(first_frames(thread.frames, pushed.frames));
        lemma_thread_keeps(thread, pushed);
        assert forall|j: int| 0 <= j < pushed.frames.len() implies crate::wellformed::frame_end(
            #[trigger] pushed.frames[j],
        ) <= thread.stack.len() by {}
        lemma_enter(
            pushed,
            heap.closures,
            heap.prototypes,
            thread.stack.len() as usize,
            args.len() as usize,
            Returns::Values(VarCount::Variable),
        );
        let entered = spec_enter(
            pushed,
            heap.closures,
            heap.prototypes,
            thread.stack.len() as usize,
            args.len() as usize,
            Returns::Values(VarCount::Variable),
        );
        assert forall|i: int| 0 <= i < entered.0.frames.len() implies frame_runs(
            heap.closures,
            heap.prototypes,
            #[trigger] entered.0.frames[i],
        ) by {
            if i < pushed.frames.len() {
                assert(entered.0.frames.drop_last()[i] == thread.frames[i]);
            }
        }
        lemma_thread_replaced(heap, t as int, entered.0, heap.upvalues);
        lemma_same_heap(heap, t as int);
    }
}

impl HeapModel {
    /// The running host frame of thread `t` ends with these results.
    pub open spec fn host_return(self, t: usize, values: Seq<Value>) -> (HeapModel, Option<VmError>) {
        if t < self.threads.len() {
            let r = spec_host_return(self.threads[t as int], values);
            (self.with_thread(t as int, r.0), r.1)
        } else {
            (self, Some(VmError::Integrity(crate::error::IntegrityError::Reference)))
        }
    }
}

/// Ending a host frame leaves the heap well-formed.
pub proof fn lemma_host_return_heap(heap: HeapModel, t: usize, values: Seq<Value>)
    requires
        heap.well_formed(),
    ensures
        heap.host_return(t, values).0.well_formed(),
{
    if t < heap.threads.len() {
        lemma_thread_of(heap, t as int);
        lemma_host_return(heap.threads[t as int], values, heap.closures, heap.prototypes);
        let r = spec_host_return(heap.threads[t as int], values);
        lemma_thread_replaced(heap, t as int, r.0, heap.upvalues);
        lemma_same_heap(heap, t as int);
    }
}

/// Catching the error of a thread leaves the heap well-formed.
pub proof fn lemma_caught(heap: HeapModel, t: usize)
    requires
        heap.well_formed(),
    ensures
        heap.catch(t).0.well_formed(),
{
    if t < heap.threads.len() {
        lemma_thread_of(heap, t as int);
        let thread = ThreadModel { error: None, ..heap.threads[t as int] };
        assert(thread_gentle(heap.threads[t as int], thread)) by {
            assert forall|i: int| 0 <= i < thread.frames.len() implies same_frame(
                heap.threads[t as int].frames[i],
                #[trigger] thread.frames[i],
            ) by {}
        }
        lemma_with_thread_gentle(heap, t as int, thread);
        lemma_gentle_well_formed(heap, heap.with_thread(t as int, thread));
    }
}

/// An empty heap is well-formed.
pub proof fn lemma_empty_well_formed()
    ensures
        HeapModel::empty().well_formed(),
        ThreadModel::empty(0).well_formed(),
{
}

/// A heap stays well-formed when a prototype is added to it.
pub proof fn lemma_prototype_added(heap: HeapModel, prototype: PrototypeModel)
    requires
        heap.well_formed(),
    ensures
        (HeapModel { prototypes: heap.prototypes.push(prototype), ..heap }).well_formed(),
{
    let new = HeapModel { prototypes: heap.prototypes.push(prototype), ..heap };
    assert forall|c: int| 0 <= c < new.closures.len() implies (#[trigger] new.closures[c]).proto
        < new.prototypes.len() && new.closures[c].upvalues.len()
        == new.prototypes[new.closures[c].proto as int].upvalues.len() by {
        assert(heap.closures[c] == new.closures[c]);
    }
    assert forall|t: int| 0 <= t < new.threads.len() implies #[trigger] new.thread_well_formed(
        t,
    ) by {
        assert(heap.thread_well_formed(t));
        assert forall|i: int| 0 <= i < new.threads[t].frames.len() implies new.runs_closure(
            #[trigger] new.threads[t].frames[i],
        ) by {
            assert(heap.runs_closure(heap.threads[t].frames[i]));
            if let Frame::Script(f) = heap.threads[t].frames[i] {
                assert(heap.closures[f.closure as int] == new.closures[f.closure as int]);
            }
        }
    }
}

/// A heap stays well-formed when an upvalue cell is added to it.
pub proof fn lemma_upvalue_added(heap: HeapModel, upvalue: UpValue)
    requires
        heap.well_formed(),
    ensures
        (HeapModel { upvalues: heap.upvalues.push(upvalue), ..heap }).well_formed(),
{
    let new = HeapModel { upvalues: heap.upvalues.push(upvalue), ..heap };
    assert forall|c: int| 0 <= c < new.closures.len() implies (#[trigger] new.closures[c]).proto
        < new.prototypes.len() && new.closures[c].upvalues.len()
        == new.prototypes[new.closures[c].proto as int].upvalues.len() by {
        assert(heap.closures[c] == new.closures[c]);
    }
    assert forall|t: int| 0 <= t < new.threads.len() implies #[trigger] new.thread_well_formed(
        t,
    ) by {
        assert(heap.thread_well_formed(t));
        assert forall|i: int| 0 <= i < new.threads[t].frames.len() implies new.runs_closure(
            #[trigger] new.threads[t].frames[i],
        ) by {
            assert(heap.runs_closure(heap.threads[t].frames[i]));
        }
    }
}

/// A heap stays well-formed when a thread without frames is added to
/// it, as long as the threads can still be counted on this machine.
pub proof fn lemma_thread_added(heap: HeapModel, thread: ThreadModel)
    requires
        heap.well_formed(),
        thread.frames.len() == 0,
        thread.open_upvalues.len() == 0,
        thread.stack.len() <= usize::MAX,
        heap.threads.len() < usize::MAX,
    ensures
        (HeapModel { threads: heap.threads.push(thread), ..heap }).well_formed(),
{
    let new = HeapModel { threads: heap.threads.push(thread), ..heap };
    assert forall|c: int| 0 <= c < new.closures.len() implies (#[trigger] new.closures[c]).proto
        < new.prototypes.len() && new.closures[c].upvalues.len()
        == new.prototypes[new.closures[c].proto as int].upvalues.len() by {
        assert(heap.closures[c] == new.closures[c]);
    }
    assert forall|t: int| 0 <= t < new.threads.len() implies #[trigger] new.thread_well_formed(
        t,
    ) by {
        if t < heap.threads.len() {
            assert(heap.thread_well_formed(t));
            assert(new.threads[t] == heap.threads[t]);
            assert forall|i: int| 0 <= i < new.threads[t].frames.len() implies new.runs_closure(
                #[trigger] new.threads[t].frames[i],
            ) by {
                assert(heap.runs_closure(heap.threads[t].frames[i]));
            }
        }
    }
}

/// What a closure reads through an upvalue after the jump that closed
/// it is the value that the variable had at the jump: an upvalue that is
/// open on a register at or above the one that the jump names holds that
/// register's value from then on.
pub proof fn lemma_jump_closes_upvalues(
    heap: HeapModel,
    t: int,
    frame: ScriptFrame,
    offset: i16,
    register: RegisterIndex,
    j: int,
)
    requires
        heap.well_formed(),
        runs(heap, t, frame),
        0 <= j < heap.threads[t].open_upvalues.len(),
        heap.threads[t].open_upvalues[j].index >= frame.base + register.0,
        heap.jump_and_close(t, frame, offset, Some(register)).1 is Continue,
    ensures
        ({
            let entry = heap.threads[t].open_upvalues[j];
            let after = heap.jump_and_close(t, frame, offset, Some(register)).0;
            after.upvalue_get(entry.upvalue) == Some(slot_value(heap.threads[t].stack, entry.index))
        }),
{
    lemma_thread_of(heap, t);
    let jumped = heap.jump(t, frame, offset);
    let from = crate::thread::spec_slot(frame, register).unwrap();
    let entry = heap.threads[t].open_upvalues[j];
    assert(jumped.0.threads[t].open_upvalues == heap.threads[t].open_upvalues);
    assert(jumped.0.threads[t].stack == heap.threads[t].stack);
    assert(jumped.0.upvalues == heap.upvalues);
    lemma_close_captures(jumped.0.threads[t], jumped.0.upvalues, from, j);
    crate::upvalue::lemma_closed_above(jumped.0.threads[t], jumped.0.upvalues, from);
    let closed = spec_close_upvalues(jumped.0.threads[t], jumped.0.upvalues, from);
    let after = heap.jump_and_close(t, frame, offset, Some(register)).0;
    assert(after.upvalues == closed.1);
    assert(after.upvalues[entry.upvalue as int] == UpValue::Closed(
        slot_value(heap.threads[t].stack, entry.index),
    ));
}

/// What a closure reads through an upvalue after the return that closed
/// it is the value that the variable had at the return: an upvalue that
/// is open on a register of the frame that returns holds that register's
/// value from then on.
pub proof fn lemma_return_closes_upvalues(
    heap: HeapModel,
    t: int,
    frame: ScriptFrame,
    start: RegisterIndex,
    count: VarCount,
    j: int,
)
    requires
        heap.well_formed(),
        runs(heap, t, frame),
        0 <= j < heap.threads[t].open_upvalues.len(),
        heap.threads[t].open_upvalues[j].index >= frame.base,
        heap.return_values(t, frame, start, count).1 is Changed,
    ensures
        ({
            let entry = heap.threads[t].open_upvalues[j];
            let after = heap.return_values(t, frame, start, count).0;
            after.upvalue_get(entry.upvalue) == Some(slot_value(heap.threads[t].stack, entry.index))
        }),
{
    lemma_thread_of(heap, t);
    let entry = heap.threads[t].open_upvalues[j];
    lemma_close_captures(heap.threads[t], heap.upvalues, frame.base, j);
    crate::upvalue::lemma_closed_above(heap.threads[t], heap.upvalues, frame.base);
    let closed = spec_close_upvalues(heap.threads[t], heap.upvalues, frame.base);
    let after = heap.return_values(t, frame, start, count).0;
    assert(after.upvalues == closed.1);
    assert(after.upvalues[entry.upvalue as int] == UpValue::Closed(
        slot_value(heap.threads[t].stack, entry.index),
    ));
}

/// What a closure reads through an upvalue after the tail call that
/// closed it is the value that the variable had at the call.
pub proof fn lemma_tail_call_closes_upvalues(
    heap: HeapModel,
    t: int,
    frame: ScriptFrame,
    func: RegisterIndex,
    args: VarCount,
    j: int,
)
    requires
        heap.well_formed(),
        runs(heap, t, frame),
        0 <= j < heap.threads[t].open_upvalues.len(),
        heap.threads[t].open_upvalues[j].index >= frame.base,
        heap.tail_call(t, frame, func, args).1 is Changed,
    ensures
        ({
            let entry = heap.threads[t].open_upvalues[j];
            let after = heap.tail_call(t, frame, func, args).0;
            after.upvalue_get(entry.upvalue) == Some(slot_value(heap.threads[t].stack, entry.index))
        }),
{
    lemma_thread_of(heap, t);
    let entry = heap.threads[t].open_upvalues[j];
    lemma_close_captures(heap.threads[t], heap.upvalues, frame.base, j);
    crate::upvalue::lemma_closed_above(heap.threads[t], heap.upvalues, frame.base);
    let closed = spec_close_upvalues(heap.threads[t], heap.upvalues, frame.base);
    let after = heap.tail_call(t, frame, func, args).0;
    assert(after.upvalues == closed.1);
    assert(after.upvalues[entry.upvalue as int] == UpValue::Closed(
        slot_value(heap.threads[t].stack, entry.index),
    ));
}

/// In a well-formed heap, what the rules of a prototype say that a
/// frame of it holds is there when the frame runs: each register that
/// the prototype holds is a slot of the stack, each constant and each
/// upvalue that an opcode may name exists.
pub proof fn lemma_operands_exist(heap: HeapModel, t: int, frame: ScriptFrame)
    requires
        heap.well_formed(),
        runs(heap, t, frame),
    ensures
        heap.prototype_of(frame) is Some,
        ({
            let p = heap.prototypes[heap.prototype_of(frame).unwrap()];
            &&& forall|r: RegisterIndex| #[trigger]
                p.holds(r, 1) ==> heap.register(t, frame, r) is Some
            &&& forall|r: RegisterIndex, value: Value|
                p.holds(r, 1) ==> #[trigger] heap.store(t, frame, r, value).1 is Continue
            &&& forall|o: Operand| #[trigger] p.holds_operand(o) ==> heap.operand(t, frame, o) is Ok
            &&& forall|u: UpValueIndex|
                u.0 < p.upvalues.len() ==> #[trigger] heap.closure_upvalue(frame, u) is Some
        }),
{
    lemma_thread_of(heap, t);
    let thread = heap.threads[t];
    let last = thread.frames.len() - 1;
    assert(frame_runs(heap.closures, heap.prototypes, thread.frames[last]));
    assert(crate::wellformed::frame_end(thread.frames[last]) <= thread.stack.len());
    assert(heap.closures[frame.closure as int].upvalues.len()
        == heap.prototypes[heap.closures[frame.closure as int].proto as int].upvalues.len());
}

} // verus!
