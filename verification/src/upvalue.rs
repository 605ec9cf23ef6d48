//! Upvalues: opening one on a stack slot, closing those at or above a
//! slot, and reading and writing through one.

use crate::state::{
    lemma_models_update, Heap, HeapModel, OpenUpValue, Thread, ThreadModel, UpValue, Written,
};
use crate::value::Value;
use vstd::prelude::*;

verus! {

/// Where an upvalue for slot `index` belongs among the first `n` open
/// upvalues: after the last of them whose slot is not above `index`.
pub open spec fn insert_point(open: Seq<OpenUpValue>, index: usize, n: int) -> int
    decreases n,
{
    if 0 < n <= open.len() && open[n - 1].index > index {
        insert_point(open, index, n - 1)
    } else {
        n
    }
}

/// The open upvalue for slot `index`, if there is one already.
pub open spec fn find_open(open: Seq<OpenUpValue>, index: usize) -> Option<usize> {
    let p = insert_point(open, index, open.len() as int);
    if 0 < p <= open.len() && open[p - 1].index == index {
        Some(open[p - 1].upvalue)
    } else {
        None
    }
}

/// The open upvalues are in strictly ascending order of their slots, so
/// no slot has two, and no cell is open twice.
pub open spec fn open_upvalues_ordered(open: Seq<OpenUpValue>) -> bool {
    &&& forall|i: int, j: int| 0 <= i < j < open.len() ==> open[i].index < open[j].index
    &&& forall|i: int, j: int| 0 <= i < j < open.len() ==> open[i].upvalue != open[j].upvalue
}

/// The upvalue cell for slot `index` of thread `t`: the one that is open
/// on that slot already, or else a new cell, which is added to the cells
/// and to the thread's open upvalues at its place in their order.
pub open spec fn spec_open_upvalue(
    thread: ThreadModel,
    upvalues: Seq<UpValue>,
    t: usize,
    index: usize,
) -> (ThreadModel, Seq<UpValue>, usize) {
    match find_open(thread.open_upvalues, index) {
        Some(id) => (thread, upvalues, id),
        None => {
            let id = upvalues.len() as usize;
            let p = insert_point(thread.open_upvalues, index, thread.open_upvalues.len() as int);
            (
                ThreadModel {
                    open_upvalues: thread.open_upvalues.insert(
                        p,
                        OpenUpValue { index, upvalue: id },
                    ),
                    ..thread
                },
                upvalues.push(UpValue::Open { thread: t, index }),
                id,
            )
        },
    }
}

/// The value that an open upvalue takes when it is closed: the value in
/// its slot.
pub open spec fn slot_value(stack: Seq<Value>, index: usize) -> Value {
    if index < stack.len() {
        stack[index as int]
    } else {
        Value::Nil
    }
}

/// The cells with one of them closed on a value.
pub open spec fn close_cell(upvalues: Seq<UpValue>, id: usize, value: Value) -> Seq<UpValue> {
    if id < upvalues.len() {
        upvalues.update(id as int, UpValue::Closed(value))
    } else {
        upvalues
    }
}

/// Closes the open upvalues from the last one down while their slots are
/// at or above `from`: each cell takes the value of its slot and leaves
/// the thread's open upvalues.
pub open spec fn spec_close_upvalues(thread: ThreadModel, upvalues: Seq<UpValue>, from: usize) -> (
    ThreadModel,
    Seq<UpValue>,
)
    decreases thread.open_upvalues.len(),
{
    if thread.open_upvalues.len() > 0 && thread.open_upvalues.last().index >= from {
        let last = thread.open_upvalues.last();
        spec_close_upvalues(
            ThreadModel { open_upvalues: thread.open_upvalues.drop_last(), ..thread },
            close_cell(upvalues, last.upvalue, slot_value(thread.stack, last.index)),
            from,
        )
    } else {
        (thread, upvalues)
    }
}

/// The cells that closing at a slot writes a reference into: those of
/// the open upvalues that are closed whose slots hold a reference, from
/// the last one down.
pub open spec fn closing(open: Seq<OpenUpValue>, stack: Seq<Value>, from: usize) -> Seq<Written>
    decreases open.len(),
{
    if open.len() > 0 && open.last().index >= from {
        let rest = closing(open.drop_last(), stack, from);
        if slot_value(stack, open.last().index).spec_is_reference() {
            seq![Written::UpValue(open.last().upvalue)] + rest
        } else {
            rest
        }
    } else {
        Seq::empty()
    }
}

/// The upvalue cell for a slot of a thread: the one that is open on the slot,
/// or a new one.
pub fn open_upvalue(thread: &mut Thread, upvalues: &mut Vec<UpValue>, t: usize, index: usize) -> (id:
    usize)
    ensures
        (final(thread)@, final(upvalues)@, id) == spec_open_upvalue(
            old(thread)@,
            old(upvalues)@,
            t,
            index,
        ),
{
    let mut p: usize = thread.open_upvalues.len();
    while p > 0 && thread.open_upvalues[p - 1].index > index
        invariant
            p <= thread.open_upvalues.len(),
            thread@ == old(thread)@,
            insert_point(thread@.open_upvalues, index, thread@.open_upvalues.len() as int)
                == insert_point(thread@.open_upvalues, index, p as int),
        decreases p,
    {
        p = p - 1;
    }
    if p > 0 && thread.open_upvalues[p - 1].index == index {
        thread.open_upvalues[p - 1].upvalue
    } else {
        let id = upvalues.len();
        upvalues.push(UpValue::Open { thread: t, index });
        thread.open_upvalues.insert(p, OpenUpValue { index, upvalue: id });
        id
    }
}

/// Closes the open upvalues of a thread whose slots are at or above `from`.
pub fn close_upvalues(thread: &mut Thread, upvalues: &mut Vec<UpValue>, from: usize)
    ensures
        (final(thread)@, final(upvalues)@) == spec_close_upvalues(
            old(thread)@,
            old(upvalues)@,
            from,
        ),
{
    loop
        invariant
            spec_close_upvalues(old(thread)@, old(upvalues)@, from) == spec_close_upvalues(
                thread@,
                upvalues@,
                from,
            ),
        ensures
            (thread@, upvalues@) == spec_close_upvalues(old(thread)@, old(upvalues)@, from),
        decreases thread.open_upvalues.len(),
    {
        let n = thread.open_upvalues.len();
        if n == 0 {
            break ;
        }
        let last = thread.open_upvalues[n - 1];
        if last.index < from {
            break ;
        }
        let value = if last.index < thread.stack.len() {
            thread.stack[last.index]
        } else {
            Value::Nil
        };
        if last.upvalue < upvalues.len() {
            upvalues[last.upvalue] = UpValue::Closed(value);
        }
        thread.open_upvalues.pop();
    }
}

impl HeapModel {
    /// The value that an upvalue cell stands for: its own, if it is
    /// closed, or that of the stack slot it is open on. `None` where the
    /// cell or the slot does not exist.
    pub open spec fn upvalue_get(self, id: usize) -> Option<Value> {
        if id < self.upvalues.len() {
            match self.upvalues[id as int] {
                UpValue::Closed(v) => Some(v),
                UpValue::Open { thread, index } => if thread < self.threads.len() && index
                    < self.threads[thread as int].stack.len() {
                    Some(self.threads[thread as int].stack[index as int])
                } else {
                    None
                },
            }
        } else {
            None
        }
    }

    /// The heap after a value was written through an upvalue cell: into
    /// the cell, if it is closed, with the write barrier if the value is
    /// a reference, or into the stack slot it is open on. `None` where the
    /// cell or the slot does not exist.
    pub open spec fn upvalue_set(self, id: usize, value: Value) -> Option<HeapModel> {
        if id < self.upvalues.len() {
            match self.upvalues[id as int] {
                UpValue::Closed(_) => Some(
                    HeapModel {
                        upvalues: self.upvalues.update(id as int, UpValue::Closed(value)),
                        ..self
                    }.noted(Written::UpValue(id), value.spec_is_reference()),
                ),
                UpValue::Open { thread, index } => if thread < self.threads.len() && index
                    < self.threads[thread as int].stack.len() {
                    let th = self.threads[thread as int];
                    Some(
                        self.with_thread(
                            thread as int,
                            th.with_stack(th.stack.update(index as int, value)),
                        ),
                    )
                } else {
                    None
                },
            }
        } else {
            None
        }
    }
}

impl HeapModel {
    /// The heap after the write barrier was invoked for the closing of
    /// the upvalues of thread `t` at a slot.
    pub open spec fn note_closing(self, t: int, from: usize) -> HeapModel {
        HeapModel {
            barrier: self.barrier + closing(
                self.threads[t].open_upvalues,
                self.threads[t].stack,
                from,
            ),
            ..self
        }
    }
}

/// Invokes the write barrier for the closing of the upvalues of a thread
/// at a slot.
pub fn note_closing(thread: &Thread, from: usize, barrier: &mut Vec<Written>)
    ensures
        final(barrier)@ == old(barrier)@ + closing(thread@.open_upvalues, thread@.stack, from),
{
    let mut k: usize = thread.open_upvalues.len();
    let ghost open = thread.open_upvalues@;
    let ghost stack = thread.stack@;
    assert(open.take(k as int) =~= open);
    loop
        invariant
            k <= open.len(),
            open == thread.open_upvalues@,
            stack == thread.stack@,
            old(barrier)@ + closing(open, stack, from) == barrier@ + closing(
                open.take(k as int),
                stack,
                from,
            ),
        ensures
            barrier@ == old(barrier)@ + closing(open, stack, from),
        decreases k,
    {
        if k == 0 {
            assert(barrier@ + Seq::<Written>::empty() =~= barrier@);
            break ;
        }
        let entry = thread.open_upvalues[k - 1];
        if entry.index < from {
            assert(barrier@ + Seq::<Written>::empty() =~= barrier@);
            break ;
        }
        let value = if entry.index < thread.stack.len() {
            thread.stack[entry.index]
        } else {
            Value::Nil
        };
        proof {
            assert(open.take(k as int).drop_last() =~= open.take(k - 1));
            let rest = closing(open.take(k - 1), stack, from);
            if value.spec_is_reference() {
                assert((barrier@.push(Written::UpValue(entry.upvalue))) + rest =~= barrier@ + (
                seq![Written::UpValue(entry.upvalue)] + rest));
            }
        }
        if value.is_reference() {
            barrier.push(Written::UpValue(entry.upvalue));
        }
        k = k - 1;
    }
}

impl Heap {
    /// Invokes the write barrier for the closing of the upvalues of a
    /// thread at a slot.
    pub fn note_closing(&mut self, t: usize, from: usize)
        requires
            t < old(self).threads.len(),
        ensures
            final(self)@ == old(self)@.note_closing(t as int, from),
            final(self).threads == old(self).threads,
            final(self).upvalues == old(self).upvalues,
    {
        note_closing(&self.threads[t], from, &mut self.barrier);
    }

    /// The value that an upvalue cell stands for.
    pub fn upvalue_get(&self, id: usize) -> (r: Option<Value>)
        ensures
            r == self@.upvalue_get(id),
    {
        if id < self.upvalues.len() {
            match self.upvalues[id] {
                UpValue::Closed(v) => Some(v),
                UpValue::Open { thread, index } => if thread < self.threads.len() && index
                    < self.threads[thread].stack.len() {
                    Some(self.threads[thread].stack[index])
                } else {
                    None
                },
            }
        } else {
            None
        }
    }

    /// Writes through an upvalue cell. Returns whether the cell and, for
    /// an open one, its slot exist; the heap is unchanged if not.
    pub fn upvalue_set(&mut self, id: usize, value: Value) -> (r: bool)
        ensures
            match old(self)@.upvalue_set(id, value) {
                Some(h) => r && final(self)@ == h,
                None => !r && final(self)@ == old(self)@,
            },
            final(self).threads.len() == old(self).threads.len(),
    {
        if id < self.upvalues.len() {
            match self.upvalues[id] {
                UpValue::Closed(_) => {
                    self.upvalues[id] = UpValue::Closed(value);
                    self.note(Written::UpValue(id), value.is_reference());
                    true
                },
                UpValue::Open { thread, index } => if thread < self.threads.len() && index
                    < self.threads[thread].stack.len() {
                    self.threads[thread].stack[index] = value;
                    proof {
                        lemma_models_update(
                            old(self).threads@,
                            thread as int,
                            self.threads@[thread as int],
                        );
                        assert(self.threads@ =~= old(self).threads@.update(
                            thread as int,
                            self.threads@[thread as int],
                        ));
                    }
                    true
                } else {
                    false
                },
            }
        } else {
            false
        }
    }
}

/// After closing, no open upvalue is left at or above the slot.
pub proof fn lemma_closed_above(thread: ThreadModel, upvalues: Seq<UpValue>, from: usize)
    ensures
        ({
            let after = spec_close_upvalues(thread, upvalues, from).0;
            &&& after.open_upvalues.len() == 0 || after.open_upvalues.last().index < from
            &&& after.stack == thread.stack
            &&& after.frames == thread.frames
            &&& after.open_upvalues.len() <= thread.open_upvalues.len()
            &&& after.open_upvalues == thread.open_upvalues.take(after.open_upvalues.len() as int)
            &&& spec_close_upvalues(thread, upvalues, from).1.len() == upvalues.len()
        }),
    decreases thread.open_upvalues.len(),
{
    if thread.open_upvalues.len() > 0 && thread.open_upvalues.last().index >= from {
        let last = thread.open_upvalues.last();
        let shorter = ThreadModel { open_upvalues: thread.open_upvalues.drop_last(), ..thread };
        lemma_closed_above(
            shorter,
            close_cell(upvalues, last.upvalue, slot_value(thread.stack, last.index)),
            from,
        );
        let after = spec_close_upvalues(thread, upvalues, from).0;
        assert(after.open_upvalues =~= thread.open_upvalues.take(after.open_upvalues.len() as int));
    } else {
        assert(thread.open_upvalues =~= thread.open_upvalues.take(
            thread.open_upvalues.len() as int,
        ));
    }
}

/// Closing is idempotent: closing again at the same slot changes nothing.
pub proof fn lemma_close_twice(thread: ThreadModel, upvalues: Seq<UpValue>, from: usize)
    ensures
        ({
            let once = spec_close_upvalues(thread, upvalues, from);
            spec_close_upvalues(once.0, once.1, from) == once
        }),
{
    lemma_closed_above(thread, upvalues, from);
}

/// Closing keeps every cell that is not among the open upvalues being closed.
proof fn lemma_close_keeps(thread: ThreadModel, upvalues: Seq<UpValue>, from: usize, id: usize)
    requires
        id < upvalues.len(),
        forall|i: int|
            0 <= i < thread.open_upvalues.len() ==> #[trigger] thread.open_upvalues[i].upvalue
                != id,
    ensures
        spec_close_upvalues(thread, upvalues, from).1[id as int] == upvalues[id as int],
    decreases thread.open_upvalues.len(),
{
    lemma_closed_above(thread, upvalues, from);
    if thread.open_upvalues.len() > 0 && thread.open_upvalues.last().index >= from {
        let last = thread.open_upvalues.last();
        let shorter = ThreadModel { open_upvalues: thread.open_upvalues.drop_last(), ..thread };
        lemma_close_keeps(
            shorter,
            close_cell(upvalues, last.upvalue, slot_value(thread.stack, last.index)),
            from,
            id,
        );
    }
}

/// An upvalue that is open on a slot at or above `from` holds, after the
/// closing at `from`, the value that its slot had at that moment.
pub proof fn lemma_close_captures(thread: ThreadModel, upvalues: Seq<UpValue>, from: usize, j: int)
    requires
        open_upvalues_ordered(thread.open_upvalues),
        0 <= j < thread.open_upvalues.len(),
        thread.open_upvalues[j].index >= from,
        thread.open_upvalues[j].upvalue < upvalues.len(),
    ensures
        spec_close_upvalues(thread, upvalues, from).1[thread.open_upvalues[j].upvalue as int]
            == UpValue::Closed(slot_value(thread.stack, thread.open_upvalues[j].index)),
    decreases thread.open_upvalues.len(),
{
    let open = thread.open_upvalues;
    let last = open.last();
    assert(last.index >= open[j].index);
    let shorter = ThreadModel { open_upvalues: open.drop_last(), ..thread };
    let cells = close_cell(upvalues, last.upvalue, slot_value(thread.stack, last.index));
    if j == open.len() - 1 {
        assert forall|i: int| 0 <= i < shorter.open_upvalues.len() implies (
        #[trigger] shorter.open_upvalues[i].upvalue) != last.upvalue by {
            assert(shorter.open_upvalues[i] == open[i]);
        }
        lemma_close_keeps(shorter, cells, from, last.upvalue);
    } else {
        assert(shorter.open_upvalues[j] == open[j]);
        lemma_close_captures(shorter, cells, from, j);
    }
}

/// What a closure reads through an upvalue that was closed is the value
/// of the variable at the moment of closing, whatever is written to any
/// stack afterwards: a closed cell does not depend on the threads.
pub proof fn lemma_closed_upvalue_keeps_value(
    heap: HeapModel,
    t: int,
    from: usize,
    j: int,
    later_threads: Seq<ThreadModel>,
)
    requires
        0 <= t < heap.threads.len(),
        open_upvalues_ordered(heap.threads[t].open_upvalues),
        0 <= j < heap.threads[t].open_upvalues.len(),
        heap.threads[t].open_upvalues[j].index >= from,
        heap.threads[t].open_upvalues[j].upvalue < heap.upvalues.len(),
    ensures
        ({
            let entry = heap.threads[t].open_upvalues[j];
            let closed = spec_close_upvalues(heap.threads[t], heap.upvalues, from);
            let after = HeapModel { upvalues: closed.1, threads: later_threads, ..heap };
            after.upvalue_get(entry.upvalue) == Some(slot_value(heap.threads[t].stack, entry.index))
        }),
{
    lemma_close_captures(heap.threads[t], heap.upvalues, from, j);
    lemma_closed_above(heap.threads[t], heap.upvalues, from);
}

/// The write barrier is invoked on every cell that closing writes a
/// reference into: each open upvalue that is closed on a reference is
/// among the objects noted.
pub proof fn lemma_closing_notes(thread: ThreadModel, upvalues: Seq<UpValue>, from: usize, j: int)
    requires
        spec_close_upvalues(thread, upvalues, from).0.open_upvalues.len() <= j
            < thread.open_upvalues.len(),
        slot_value(thread.stack, thread.open_upvalues[j].index).spec_is_reference(),
    ensures
        closing(thread.open_upvalues, thread.stack, from).contains(
            Written::UpValue(thread.open_upvalues[j].upvalue),
        ),
    decreases thread.open_upvalues.len(),
{
    let open = thread.open_upvalues;
    lemma_closed_above(thread, upvalues, from);
    if open.len() > 0 && open.last().index >= from {
        let last = open.last();
        let shorter = ThreadModel { open_upvalues: open.drop_last(), ..thread };
        let cells = close_cell(upvalues, last.upvalue, slot_value(thread.stack, last.index));
        let rest = closing(open.drop_last(), thread.stack, from);
        let all = closing(open, thread.stack, from);
        if j == open.len() - 1 {
            assert(all[0] == Written::UpValue(last.upvalue));
        } else {
            assert(shorter.open_upvalues[j] == open[j]);
            lemma_closing_notes(shorter, cells, from, j);
            let k = choose|k: int|
                0 <= k < rest.len() && rest[k] == Written::UpValue(open[j].upvalue);
            if slot_value(thread.stack, last.index).spec_is_reference() {
                assert(all[k + 1] == rest[k]);
            } else {
                assert(all[k] == rest[k]);
            }
        }
    }
}

} // verus!
