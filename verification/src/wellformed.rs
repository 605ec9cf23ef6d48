//! What holds of the heap between opcodes, and why each operation of the
//! machine keeps it.
//!
//! Every frame lies within its thread's stack. A frame that the embedder
//! put there, or that stands for an operation asked of the embedder,
//! stands on clear ground: above everything that the frames below it use.
//! The open upvalues of a thread are in strictly ascending order of their
//! slots, each slot is a register of an active script frame, and each cell
//! is open on that slot. A closure has as many upvalues as its prototype
//! has descriptors, and a script frame has as many registers as the
//! prototype of its closure asks for.

use crate::opcode::{RegisterIndex, VarCount};
use crate::stack::{spec_slice, spec_write_at};
use crate::state::{
    ClosureModel, Frame, HeapModel, HostCall, OpenUpValue, PrototypeModel, Returns, ScriptFrame,
    ThreadModel, UpValue,
};
use crate::thread::{
    popped, settled, spec_call_function, spec_call_function_non_destructive, spec_deliver,
    spec_enter, spec_host_return, spec_request, spec_return_upper, spec_slot,
    spec_tail_call_function, spec_varargs,
};
use crate::value::Value;
use crate::upvalue::{
    close_cell, find_open, insert_point, open_upvalues_ordered, slot_value, spec_close_upvalues,
    spec_open_upvalue,
};
use vstd::prelude::*;

verus! {

/// The slot of the function of a frame, from which its results are returned.
pub open spec fn frame_bottom(frame: Frame) -> int {
    match frame {
        Frame::Script(f) => f.bottom as int,
        Frame::Host(h) => h.bottom as int,
    }
}

/// One past the last slot that a frame uses: the end of the registers of
/// a script frame, of the arguments of a host frame.
pub open spec fn frame_end(frame: Frame) -> int {
    match frame {
        Frame::Script(f) => f.base + f.size,
        Frame::Host(h) => h.base + h.arg_count,
    }
}

/// How the results of a frame are handed on.
pub open spec fn frame_results(frame: Frame) -> Returns {
    match frame {
        Frame::Script(f) => f.results,
        Frame::Host(h) => h.results,
    }
}

/// The slot of the function comes before the registers or arguments, and
/// the results of a script frame are those of a call.
pub open spec fn frame_shaped(frame: Frame) -> bool {
    match frame {
        Frame::Script(f) => f.bottom < f.base && f.results is Values,
        Frame::Host(h) => h.bottom <= h.base,
    }
}

/// Whether a slot is a register of a script frame.
pub open spec fn in_window(frame: Frame, index: usize) -> bool {
    frame matches Frame::Script(f) && f.base <= index < f.base + f.size
}

/// Whether a slot is a register of one of the frames.
pub open spec fn has_window(frames: Seq<Frame>, index: usize) -> bool {
    exists|j: int| 0 <= j < frames.len() && in_window(#[trigger] frames[j], index)
}

/// No frame below frame `i` reaches above the bottom of frame `i`.
pub open spec fn on_clear_ground(frames: Seq<Frame>, i: int) -> bool {
    forall|j: int| 0 <= j < i ==> frame_end(#[trigger] frames[j]) <= frame_bottom(frames[i])
}

/// Whether frame `i` has to stand on clear ground: it stands on a host
/// frame, or its results are not those of a call.
pub open spec fn needs_clear_ground(frames: Seq<Frame>, i: int) -> bool {
    (i > 0 && frames[i - 1] is Host) || !(frame_results(frames[i]) is Values)
}

impl ThreadModel {
    /// Every frame is shaped as it should be and lies within the stack.
    pub open spec fn frames_in_bounds(self) -> bool {
        forall|i: int|
            0 <= i < self.frames.len() ==> frame_shaped(#[trigger] self.frames[i]) && frame_end(
                self.frames[i],
            ) <= self.stack.len()
    }

    /// Every frame that has to stands on clear ground.
    pub open spec fn frames_stacked(self) -> bool {
        forall|i: int|
            0 <= i < self.frames.len() && needs_clear_ground(self.frames, i)
                ==> #[trigger] on_clear_ground(self.frames, i)
    }

    /// Every open upvalue is on a register of a script frame.
    pub open spec fn upvalues_in_frames(self) -> bool {
        forall|k: int|
            0 <= k < self.open_upvalues.len() ==> has_window(
                self.frames,
                (#[trigger] self.open_upvalues[k]).index,
            )
    }

    /// What holds of the thread between opcodes.
    pub open spec fn well_formed(self) -> bool {
        &&& self.stack.len() <= usize::MAX
        &&& self.frames_in_bounds()
        &&& self.frames_stacked()
        &&& open_upvalues_ordered(self.open_upvalues)
        &&& self.upvalues_in_frames()
    }
}

/// Each open upvalue of thread `t` has a cell, and the cell is open on
/// the upvalue's slot of that thread.
pub open spec fn cells_agree(open: Seq<OpenUpValue>, upvalues: Seq<UpValue>, t: usize) -> bool {
    forall|k: int|
        0 <= k < open.len() ==> (#[trigger] open[k]).upvalue < upvalues.len()
            && upvalues[open[k].upvalue as int] == (UpValue::Open { thread: t, index: open[k].index })
}

/// Whether a script frame runs a closure of the heap with the number of
/// registers that the closure's prototype asks for.
pub open spec fn frame_runs(
    closures: Seq<ClosureModel>,
    prototypes: Seq<PrototypeModel>,
    frame: Frame,
) -> bool {
    frame matches Frame::Script(f) ==> f.closure < closures.len() && closures[f.closure as int].proto
        < prototypes.len() && f.size
        == prototypes[closures[f.closure as int].proto as int].stack_size
}

impl HeapModel {
    /// Every closure has a prototype of the heap, and as many upvalues as the
    /// prototype has descriptors.
    pub open spec fn closures_well_formed(self) -> bool {
        forall|c: int|
            0 <= c < self.closures.len() ==> (#[trigger] self.closures[c]).proto
                < self.prototypes.len() && self.closures[c].upvalues.len()
                == self.prototypes[self.closures[c].proto as int].upvalues.len()
    }

    /// Whether a frame, if it is a script frame, runs a closure of the heap.
    pub open spec fn runs_closure(self, frame: Frame) -> bool {
        frame_runs(self.closures, self.prototypes, frame)
    }

    /// Every script frame of thread `t` runs a closure of the heap.
    pub open spec fn frames_run_closures(self, t: int) -> bool {
        forall|i: int|
            0 <= i < self.threads[t].frames.len() ==> self.runs_closure(
                #[trigger] self.threads[t].frames[i],
            )
    }

    /// What holds of thread `t` and of the cells of its open upvalues.
    pub open spec fn thread_well_formed(self, t: int) -> bool {
        &&& self.threads[t].well_formed()
        &&& cells_agree(self.threads[t].open_upvalues, self.upvalues, t as usize)
        &&& self.frames_run_closures(t)
    }

    /// What holds of the heap between opcodes.
    pub open spec fn well_formed(self) -> bool {
        &&& self.threads.len() <= usize::MAX
        &&& self.closures_well_formed()
        &&& forall|t: int| 0 <= t < self.threads.len() ==> #[trigger] self.thread_well_formed(t)
    }
}

/// What closing does, for an ordered list: the open upvalues below the
/// slot stay, in their order, and their cells are untouched; the others
/// are gone.
pub proof fn lemma_close_ordered(thread: ThreadModel, upvalues: Seq<UpValue>, from: usize)
    requires
        open_upvalues_ordered(thread.open_upvalues),
    ensures
        ({
            let closed = spec_close_upvalues(thread, upvalues, from);
            let n = closed.0.open_upvalues.len() as int;
            &&& closed.0 == (ThreadModel {
                open_upvalues: thread.open_upvalues.take(n),
                ..thread
            })
            &&& n <= thread.open_upvalues.len()
            &&& forall|k: int| 0 <= k < n ==> (#[trigger] thread.open_upvalues[k]).index < from
            &&& forall|k: int|
                n <= k < thread.open_upvalues.len() ==> (#[trigger] thread.open_upvalues[k]).index
                    >= from
            &&& closed.1.len() == upvalues.len()
            &&& forall|id: int|
                0 <= id < upvalues.len() && (forall|k: int|
                    n <= k < thread.open_upvalues.len() ==> (#[trigger] thread.open_upvalues[k]).upvalue
                        != id) ==> #[trigger] closed.1[id] == upvalues[id]
        }),
    decreases thread.open_upvalues.len(),
{
    let open = thread.open_upvalues;
    if open.len() > 0 && open.last().index >= from {
        let last = open.last();
        let shorter = ThreadModel { open_upvalues: open.drop_last(), ..thread };
        let cells = close_cell(upvalues, last.upvalue, slot_value(thread.stack, last.index));
        assert forall|i: int, j: int| 0 <= i < j < shorter.open_upvalues.len() implies shorter.open_upvalues[i].index
            < shorter.open_upvalues[j].index && shorter.open_upvalues[i].upvalue
            != shorter.open_upvalues[j].upvalue by {
            assert(shorter.open_upvalues[i] == open[i]);
            assert(shorter.open_upvalues[j] == open[j]);
        }
        lemma_close_ordered(shorter, cells, from);
        let closed = spec_close_upvalues(thread, upvalues, from);
        let n = closed.0.open_upvalues.len() as int;
        assert(closed.0.open_upvalues =~= open.take(n));
        assert forall|k: int| 0 <= k < n implies (#[trigger] open[k]).index < from by {
            assert(shorter.open_upvalues[k] == open[k]);
        }
        assert forall|k: int| n <= k < open.len() implies (#[trigger] open[k]).index >= from by {
            if k < open.len() - 1 {
                assert(shorter.open_upvalues[k] == open[k]);
            }
        }
        assert forall|id: int|
            0 <= id < upvalues.len() && (forall|k: int|
                n <= k < open.len() ==> (#[trigger] open[k]).upvalue != id) implies #[trigger] closed.1[id]
            == upvalues[id] by {
            assert(open[open.len() - 1].upvalue != id);
            assert forall|k: int| n <= k < shorter.open_upvalues.len() implies (
            #[trigger] shorter.open_upvalues[k]).upvalue != id by {
                assert(shorter.open_upvalues[k] == open[k]);
            }
            assert(cells[id] == upvalues[id]);
        }
    } else {
        assert(open.take(open.len() as int) =~= open);
    }
}

/// What opening does, for an ordered list whose cells agree with it: the
/// list stays ordered, and the cell that is returned is open on the slot.
pub proof fn lemma_open_ordered(
    thread: ThreadModel,
    upvalues: Seq<UpValue>,
    t: usize,
    index: usize,
)
    requires
        open_upvalues_ordered(thread.open_upvalues),
        cells_agree(thread.open_upvalues, upvalues, t),
        spec_open_upvalue(thread, upvalues, t, index).1.len() <= usize::MAX,
    ensures
        ({
            let opened = spec_open_upvalue(thread, upvalues, t, index);
            &&& open_upvalues_ordered(opened.0.open_upvalues)
            &&& cells_agree(opened.0.open_upvalues, opened.1, t)
            &&& opened.0.stack == thread.stack
            &&& opened.0.frames == thread.frames
            &&& opened.0.status == thread.status
            &&& opened.0.error == thread.error
            &&& opened.0.frame_limit == thread.frame_limit
            &&& opened.1.len() >= upvalues.len()
            &&& forall|id: int| 0 <= id < upvalues.len() ==> opened.1[id] == upvalues[id]
            &&& opened.2 < opened.1.len()
            &&& opened.1[opened.2 as int] == (UpValue::Open { thread: t, index })
            &&& forall|k: int|
                0 <= k < opened.0.open_upvalues.len() ==> (#[trigger] opened.0.open_upvalues[k]).index
                    == index || exists|m: int|
                    0 <= m < thread.open_upvalues.len() && thread.open_upvalues[m]
                        == opened.0.open_upvalues[k]
        }),
{
    let open = thread.open_upvalues;
    let p = insert_point(open, index, open.len() as int);
    lemma_insert_point(open, index, open.len() as int);
    match find_open(open, index) {
        Some(id) => {
            assert forall|k: int| 0 <= k < open.len() implies (#[trigger] open[k]).index == index
                || exists|m: int| 0 <= m < open.len() && open[m] == open[k] by {
                assert(open[k] == open[k]);
            }
        },
        None => {
            let id = upvalues.len() as usize;
            let entry = OpenUpValue { index, upvalue: id };
            let after = open.insert(p, entry);
            let cells = upvalues.push(UpValue::Open { thread: t, index });
            assert forall|i: int, j: int| 0 <= i < j < after.len() implies after[i].index
                < after[j].index && after[i].upvalue != after[j].upvalue by {
                let a = if i < p { i } else { i - 1 };
                let b = if j < p { j } else { j - 1 };
                if i != p {
                    assert(after[i] == open[a]);
                }
                if j != p {
                    assert(after[j] == open[b]);
                }
            }
            assert forall|k: int| 0 <= k < after.len() implies (#[trigger] after[k]).upvalue
                < cells.len() && cells[after[k].upvalue as int] == (UpValue::Open {
                thread: t,
                index: after[k].index,
            }) by {
                if k != p {
                    let a = if k < p { k } else { k - 1 };
                    assert(after[k] == open[a]);
                }
            }
            assert forall|k: int| 0 <= k < after.len() implies (#[trigger] after[k]).index
                == index || exists|m: int| 0 <= m < open.len() && open[m] == after[k] by {
                if k != p {
                    let a = if k < p { k } else { k - 1 };
                    assert(after[k] == open[a]);
                }
            }
        },
    }
}

/// Where an upvalue belongs in an ordered list: after the upvalues on
/// slots that are not above its slot, before the others.
pub proof fn lemma_insert_point(open: Seq<OpenUpValue>, index: usize, n: int)
    requires
        open_upvalues_ordered(open),
        0 <= n <= open.len(),
        forall|k: int| n <= k < open.len() ==> (#[trigger] open[k]).index > index,
    ensures
        ({
            let p = insert_point(open, index, n);
            &&& 0 <= p <= n
            &&& forall|k: int| p <= k < open.len() ==> (#[trigger] open[k]).index > index
            &&& forall|k: int| 0 <= k < p ==> (#[trigger] open[k]).index <= index
            &&& forall|k: int| 0 <= k < p - 1 ==> (#[trigger] open[k]).index < index
        }),
    decreases n,
{
    if 0 < n && open[n - 1].index > index {
        lemma_insert_point(open, index, n - 1);
    } else {
        assert forall|k: int| 0 <= k < n implies (#[trigger] open[k]).index <= index by {
            if k < n - 1 {
                assert(open[k].index < open[n - 1].index);
            }
        }
        assert forall|k: int| 0 <= k < n - 1 implies (#[trigger] open[k]).index < index by {
            assert(open[k].index < open[n - 1].index);
        }
    }
}

/// Whether two frames differ at most in where they stand in their code
/// and in where their live slots end.
pub open spec fn same_frame(a: Frame, b: Frame) -> bool {
    match (a, b) {
        (Frame::Script(f), Frame::Script(g)) => f.closure == g.closure && f.bottom == g.bottom
            && f.base == g.base && f.size == g.size && f.results == g.results,
        (Frame::Host(h), Frame::Host(k)) => h == k,
        _ => false,
    }
}

/// Whether the frames of `new` are the first frames of `old`, each the
/// same frame still.
pub open spec fn first_frames(old: Seq<Frame>, new: Seq<Frame>) -> bool {
    &&& new.len() <= old.len()
    &&& forall|i: int| 0 <= i < new.len() ==> same_frame(old[i], #[trigger] new[i])
}

proof fn lemma_same_frame(a: Frame, b: Frame)
    requires
        same_frame(a, b),
    ensures
        frame_bottom(a) == frame_bottom(b),
        frame_end(a) == frame_end(b),
        frame_results(a) == frame_results(b),
        frame_shaped(a) == frame_shaped(b),
        a is Host == b is Host,
        forall|index: usize| in_window(a, index) == in_window(b, index),
{
}

/// A thread stays well-formed when frames and open upvalues are taken
/// off it from above, as long as the stack still holds the frames that
/// are left and each open upvalue that is left is on a register of one of
/// them.
pub proof fn lemma_thread_shrinks(old: ThreadModel, new: ThreadModel, n: int)
    requires
        old.well_formed(),
        first_frames(old.frames, new.frames),
        0 <= n <= old.open_upvalues.len(),
        new.open_upvalues == old.open_upvalues.take(n),
        new.stack.len() <= usize::MAX,
        forall|i: int|
            0 <= i < new.frames.len() ==> frame_end(#[trigger] new.frames[i]) <= new.stack.len(),
        forall|k: int| 0 <= k < n ==> has_window(new.frames, (#[trigger] old.open_upvalues[k]).index),
    ensures
        new.well_formed(),
{
    assert forall|i: int| 0 <= i < new.frames.len() implies frame_shaped(
        #[trigger] new.frames[i],
    ) by {
        lemma_same_frame(old.frames[i], new.frames[i]);
    }
    assert forall|i: int|
        0 <= i < new.frames.len() && needs_clear_ground(
            new.frames,
            i,
        ) implies #[trigger] on_clear_ground(new.frames, i) by {
        lemma_same_frame(old.frames[i], new.frames[i]);
        if i > 0 {
            lemma_same_frame(old.frames[i - 1], new.frames[i - 1]);
        }
        assert(needs_clear_ground(old.frames, i));
        assert(on_clear_ground(old.frames, i));
        assert forall|j: int| 0 <= j < i implies frame_end(#[trigger] new.frames[j])
            <= frame_bottom(new.frames[i]) by {
            lemma_same_frame(old.frames[j], new.frames[j]);
        }
    }
    assert forall|k: int| 0 <= k < new.open_upvalues.len() implies has_window(
        new.frames,
        (#[trigger] new.open_upvalues[k]).index,
    ) by {
        assert(new.open_upvalues[k] == old.open_upvalues[k]);
    }
}

/// A thread stays well-formed when nothing changes but where its frames
/// stand in their code, and its stack, which does not get shorter.
pub proof fn lemma_thread_keeps(old: ThreadModel, new: ThreadModel)
    requires
        old.well_formed(),
        first_frames(old.frames, new.frames),
        new.frames.len() == old.frames.len(),
        new.open_upvalues == old.open_upvalues,
        old.stack.len() <= new.stack.len() <= usize::MAX,
    ensures
        new.well_formed(),
{
    assert forall|i: int| 0 <= i < new.frames.len() implies frame_end(#[trigger] new.frames[i])
        <= new.stack.len() by {
        lemma_same_frame(old.frames[i], new.frames[i]);
    }
    assert forall|k: int| 0 <= k < old.open_upvalues.len() implies has_window(
        new.frames,
        (#[trigger] old.open_upvalues[k]).index,
    ) by {
        let index = old.open_upvalues[k].index;
        assert(has_window(old.frames, index));
        let j = choose|j: int| 0 <= j < old.frames.len() && in_window(#[trigger] old.frames[j], index);
        lemma_same_frame(old.frames[j], new.frames[j]);
        assert(in_window(new.frames[j], index));
    }
    assert(old.open_upvalues.take(old.open_upvalues.len() as int) =~= old.open_upvalues);
    lemma_thread_shrinks(old, new, old.open_upvalues.len() as int);
}

/// A thread stays well-formed when a frame is put on it that lies within
/// the stack and, where it has to, stands on clear ground.
pub proof fn lemma_thread_grows(old: ThreadModel, new: ThreadModel, frame: Frame)
    requires
        old.well_formed(),
        new.frames == old.frames.push(frame),
        new.open_upvalues == old.open_upvalues,
        old.stack.len() <= new.stack.len() <= usize::MAX,
        frame_shaped(frame),
        frame_end(frame) <= new.stack.len(),
        needs_clear_ground(new.frames, old.frames.len() as int) ==> forall|j: int|
            0 <= j < old.frames.len() ==> frame_end(#[trigger] old.frames[j]) <= frame_bottom(frame),
    ensures
        new.well_formed(),
{
    let n = old.frames.len() as int;
    assert forall|i: int| 0 <= i < new.frames.len() implies frame_shaped(
        #[trigger] new.frames[i],
    ) && frame_end(new.frames[i]) <= new.stack.len() by {
        if i < n {
            assert(new.frames[i] == old.frames[i]);
        }
    }
    assert forall|i: int|
        0 <= i < new.frames.len() && needs_clear_ground(
            new.frames,
            i,
        ) implies #[trigger] on_clear_ground(new.frames, i) by {
        if i < n {
            assert(new.frames[i] == old.frames[i]);
            if i > 0 {
                assert(new.frames[i - 1] == old.frames[i - 1]);
            }
            assert(needs_clear_ground(old.frames, i));
            assert(on_clear_ground(old.frames, i));
            assert forall|j: int| 0 <= j < i implies frame_end(#[trigger] new.frames[j])
                <= frame_bottom(new.frames[i]) by {
                assert(new.frames[j] == old.frames[j]);
            }
        } else {
            assert forall|j: int| 0 <= j < i implies frame_end(#[trigger] new.frames[j])
                <= frame_bottom(new.frames[i]) by {
                assert(new.frames[j] == old.frames[j]);
            }
        }
    }
    assert forall|k: int| 0 <= k < new.open_upvalues.len() implies has_window(
        new.frames,
        (#[trigger] new.open_upvalues[k]).index,
    ) by {
        let index = old.open_upvalues[k].index;
        assert(has_window(old.frames, index));
        let j = choose|j: int| 0 <= j < old.frames.len() && in_window(#[trigger] old.frames[j], index);
        assert(new.frames[j] == old.frames[j]);
        assert(in_window(new.frames[j], index));
    }
}

/// Whether every frame of a thread ends at or below a slot.
pub open spec fn all_below(frames: Seq<Frame>, slot: int) -> bool {
    forall|j: int| 0 <= j < frames.len() ==> frame_end(#[trigger] frames[j]) <= slot
}

/// Entering a function keeps a thread well-formed, where the function is
/// called from a script frame, or from above everything that the frames
/// of the thread use. The frame of a closure runs that closure.
pub proof fn lemma_enter(
    thread: ThreadModel,
    closures: Seq<ClosureModel>,
    prototypes: Seq<PrototypeModel>,
    at: usize,
    argc: usize,
    results: Returns,
)
    requires
        thread.well_formed(),
        results is Values,
        !(thread.top_frame() matches Some(Frame::Script(_))) ==> all_below(thread.frames, at as int),
    ensures
        ({
            let entered = spec_enter(thread, closures, prototypes, at, argc, results);
            &&& entered.0.well_formed()
            &&& entered.0.open_upvalues == thread.open_upvalues
            &&& entered.1 is Some ==> entered.0 == thread
            &&& entered.1 is None ==> entered.0.frames.len() == thread.frames.len() + 1
                && entered.0.frames.drop_last() == thread.frames && frame_runs(
                closures,
                prototypes,
                entered.0.frames.last(),
            )
        }),
{
    let entered = spec_enter(thread, closures, prototypes, at, argc, results);
    if entered.1 is None {
        let frame = entered.0.frames.last();
        assert(entered.0.frames == thread.frames.push(frame));
        assert(entered.0.frames.drop_last() =~= thread.frames);
        let n = thread.frames.len() as int;
        if needs_clear_ground(entered.0.frames, n) {
            assert(entered.0.frames[n - 1] == thread.frames[n - 1]);
            assert(thread.top_frame() == Some(thread.frames[n - 1]));
        }
        lemma_thread_grows(thread, entered.0, frame);
    }
}

/// Handing results to the frame below keeps a thread well-formed, where
/// the frame that returned stood on clear ground if its results are not
/// those of a call or the frame below is a host frame.
pub proof fn lemma_deliver(thread: ThreadModel, bottom: usize, values: Seq<Value>, results: Returns)
    requires
        thread.well_formed(),
        (!(results is Values) || thread.top_frame() matches Some(Frame::Host(_))) ==> all_below(
            thread.frames,
            bottom as int,
        ),
    ensures
        ({
            let delivered = spec_deliver(thread, bottom, values, results);
            &&& delivered.0.well_formed()
            &&& delivered.0.open_upvalues == thread.open_upvalues
            &&& delivered.0.frames.len() == thread.frames.len()
            &&& first_frames(thread.frames, delivered.0.frames)
        }),
{
    let delivered = spec_deliver(thread, bottom, values, results);
    let n = thread.frames.len() as int;
    assert forall|i: int| 0 <= i < delivered.0.frames.len() implies same_frame(
        thread.frames[i],
        #[trigger] delivered.0.frames[i],
    ) by {}
    assert(thread.open_upvalues.take(thread.open_upvalues.len() as int) =~= thread.open_upvalues);
    assert forall|i: int| 0 <= i < delivered.0.frames.len() implies frame_end(
        #[trigger] delivered.0.frames[i],
    ) <= delivered.0.stack.len() by {
        lemma_same_frame(thread.frames[i], delivered.0.frames[i]);
        assert(frame_end(thread.frames[i]) <= thread.stack.len());
    }
    assert forall|k: int| 0 <= k < thread.open_upvalues.len() implies has_window(
        delivered.0.frames,
        (#[trigger] thread.open_upvalues[k]).index,
    ) by {
        let index = thread.open_upvalues[k].index;
        assert(has_window(thread.frames, index));
        let j = choose|j: int|
            0 <= j < thread.frames.len() && in_window(#[trigger] thread.frames[j], index);
        lemma_same_frame(thread.frames[j], delivered.0.frames[j]);
        assert(in_window(delivered.0.frames[j], index));
    }
    lemma_thread_shrinks(thread, delivered.0, thread.open_upvalues.len() as int);
}

/// Whether every frame runs a closure of the heap.
pub open spec fn all_run(
    closures: Seq<ClosureModel>,
    prototypes: Seq<PrototypeModel>,
    frames: Seq<Frame>,
) -> bool {
    forall|i: int| 0 <= i < frames.len() ==> frame_runs(closures, prototypes, #[trigger] frames[i])
}

/// Whether the running frame of a thread is this script frame, but for
/// where it stands in its code.
pub open spec fn top_is(thread: ThreadModel, frame: ScriptFrame) -> bool {
    thread.frames.len() > 0 && same_frame(thread.frames.last(), Frame::Script(frame))
}

/// Whether the cells differ at most where one was open on a slot of
/// thread `t`.
pub open spec fn cells_changed_for(old: Seq<UpValue>, new: Seq<UpValue>, t: usize) -> bool {
    &&& new.len() == old.len()
    &&& forall|id: int|
        0 <= id < old.len() && #[trigger] new[id] != old[id] ==> (old[id] matches UpValue::Open {
            thread,
            ..
        } && thread == t)
}

proof fn lemma_frames_kept(
    old: ThreadModel,
    new: ThreadModel,
    closures: Seq<ClosureModel>,
    prototypes: Seq<PrototypeModel>,
)
    requires
        all_run(closures, prototypes, old.frames),
        first_frames(old.frames, new.frames),
    ensures
        all_run(closures, prototypes, new.frames),
{
    assert forall|i: int| 0 <= i < new.frames.len() implies frame_runs(
        closures,
        prototypes,
        #[trigger] new.frames[i],
    ) by {
        assert(same_frame(old.frames[i], new.frames[i]));
        assert(frame_runs(closures, prototypes, old.frames[i]));
    }
}

/// Closing the upvalues of a thread at a slot keeps the thread
/// well-formed and its cells in agreement with it, and changes no cell
/// but cells that were open on slots of the thread.
pub proof fn lemma_close(thread: ThreadModel, upvalues: Seq<UpValue>, from: usize, t: usize)
    requires
        thread.well_formed(),
        cells_agree(thread.open_upvalues, upvalues, t),
    ensures
        ({
            let closed = spec_close_upvalues(thread, upvalues, from);
            let n = closed.0.open_upvalues.len() as int;
            &&& closed.0 == (ThreadModel {
                open_upvalues: thread.open_upvalues.take(n),
                ..thread
            })
            &&& n <= thread.open_upvalues.len()
            &&& forall|k: int| 0 <= k < n ==> (#[trigger] thread.open_upvalues[k]).index < from
            &&& closed.0.well_formed()
            &&& cells_agree(closed.0.open_upvalues, closed.1, t)
            &&& cells_changed_for(upvalues, closed.1, t)
        }),
{
    lemma_close_ordered(thread, upvalues, from);
    let closed = spec_close_upvalues(thread, upvalues, from);
    let n = closed.0.open_upvalues.len() as int;
    let open = thread.open_upvalues;
    assert forall|i: int| 0 <= i < closed.0.frames.len() implies same_frame(
        thread.frames[i],
        #[trigger] closed.0.frames[i],
    ) by {}
    assert forall|k: int| 0 <= k < n implies has_window(
        closed.0.frames,
        (#[trigger] open[k]).index,
    ) by {}
    lemma_thread_shrinks(thread, closed.0, n);
    assert forall|k: int| 0 <= k < n implies (#[trigger] closed.0.open_upvalues[k]).upvalue
        < closed.1.len() && closed.1[closed.0.open_upvalues[k].upvalue as int]
        == (UpValue::Open { thread: t, index: closed.0.open_upvalues[k].index }) by {
        assert(closed.0.open_upvalues[k] == open[k]);
        let id = open[k].upvalue as int;
        assert forall|m: int| n <= m < open.len() implies (#[trigger] open[m]).upvalue != id by {}
        assert(closed.1[id] == upvalues[id]);
    }
    assert forall|id: int|
        0 <= id < upvalues.len() && #[trigger] closed.1[id] != upvalues[id] implies (
    upvalues[id] matches UpValue::Open { thread, .. } && thread == t) by {
        if forall|m: int| n <= m < open.len() ==> (#[trigger] open[m]).upvalue != id {
            assert(closed.1[id] == upvalues[id]);
        } else {
            let m = choose|m: int| n <= m < open.len() && (#[trigger] open[m]).upvalue == id;
            assert(upvalues[open[m].upvalue as int] == (UpValue::Open {
                thread: t,
                index: open[m].index,
            }));
        }
    }
}

/// Closing the upvalues of the running frame and removing the frame
/// keeps a thread well-formed.
pub proof fn lemma_leave(
    thread: ThreadModel,
    upvalues: Seq<UpValue>,
    frame: ScriptFrame,
    t: usize,
    closures: Seq<ClosureModel>,
    prototypes: Seq<PrototypeModel>,
)
    requires
        thread.well_formed(),
        cells_agree(thread.open_upvalues, upvalues, t),
        all_run(closures, prototypes, thread.frames),
        top_is(thread, frame),
    ensures
        ({
            let closed = spec_close_upvalues(thread, upvalues, frame.base);
            let left = popped(closed.0);
            &&& left.well_formed()
            &&& left.frames == thread.frames.drop_last()
            &&& left.stack == thread.stack
            &&& cells_agree(left.open_upvalues, closed.1, t)
            &&& cells_changed_for(upvalues, closed.1, t)
            &&& all_run(closures, prototypes, left.frames)
            &&& (!(left.top_frame() matches Some(Frame::Script(_))) ==> all_below(
                left.frames,
                frame.bottom as int,
            ))
        }),
{
    lemma_close(thread, upvalues, frame.base, t);
    let closed = spec_close_upvalues(thread, upvalues, frame.base);
    let n = closed.0.open_upvalues.len() as int;
    let left = popped(closed.0);
    let open = thread.open_upvalues;
    let last = thread.frames.len() - 1;
    lemma_same_frame(thread.frames[last], Frame::Script(frame));
    assert forall|i: int| 0 <= i < left.frames.len() implies same_frame(
        closed.0.frames[i],
        #[trigger] left.frames[i],
    ) by {}
    assert forall|k: int| 0 <= k < n implies has_window(left.frames, (#[trigger] open[k]).index) by {
        let index = open[k].index;
        assert(has_window(thread.frames, index));
        let j = choose|j: int|
            0 <= j < thread.frames.len() && in_window(#[trigger] thread.frames[j], index);
        assert(j != last);
        assert(left.frames[j] == thread.frames[j]);
        assert(in_window(left.frames[j], index));
    }
    assert(closed.0.open_upvalues.take(n) =~= closed.0.open_upvalues);
    assert forall|i: int| 0 <= i < left.frames.len() implies frame_end(#[trigger] left.frames[i])
        <= left.stack.len() by {
        assert(left.frames[i] == thread.frames[i]);
    }
    lemma_thread_shrinks(closed.0, left, n);
    lemma_frames_kept(thread, left, closures, prototypes);
    if !(left.top_frame() matches Some(Frame::Script(_))) {
        if last > 0 {
            assert(left.top_frame() == Some(thread.frames[last - 1]));
            assert(needs_clear_ground(thread.frames, last));
            assert(on_clear_ground(thread.frames, last));
        }
        assert forall|j: int| 0 <= j < left.frames.len() implies frame_end(
            #[trigger] left.frames[j],
        ) <= frame.bottom by {
            assert(left.frames[j] == thread.frames[j]);
        }
    }
}

/// `Return` keeps a thread well-formed.
pub proof fn lemma_return_upper(
    thread: ThreadModel,
    upvalues: Seq<UpValue>,
    frame: ScriptFrame,
    start: RegisterIndex,
    count: VarCount,
    t: usize,
    closures: Seq<ClosureModel>,
    prototypes: Seq<PrototypeModel>,
)
    requires
        thread.well_formed(),
        cells_agree(thread.open_upvalues, upvalues, t),
        all_run(closures, prototypes, thread.frames),
        top_is(thread, frame),
    ensures
        ({
            let r = spec_return_upper(thread, upvalues, frame, start, count);
            &&& r.0.well_formed()
            &&& cells_agree(r.0.open_upvalues, r.1, t)
            &&& cells_changed_for(upvalues, r.1, t)
            &&& all_run(closures, prototypes, r.0.frames)
        }),
{
    let r = spec_return_upper(thread, upvalues, frame, start, count);
    lemma_same_frame(thread.frames.last(), Frame::Script(frame));
    if r.0 != thread || r.1 != upvalues {
        lemma_leave(thread, upvalues, frame, t, closures, prototypes);
        let closed = spec_close_upvalues(thread, upvalues, frame.base);
        let left = popped(closed.0);
        let values = spec_slice(
            thread.stack,
            spec_slot(frame, start).unwrap() as int,
            crate::thread::spec_taken(frame, spec_slot(frame, start).unwrap() as int, count).unwrap() as int,
        ).unwrap();
        lemma_deliver(left, frame.bottom, values, frame.results);
        lemma_frames_kept(left, r.0, closures, prototypes);
    }
}

/// `TailCall` keeps a thread well-formed.
pub proof fn lemma_tail_call_function(
    thread: ThreadModel,
    upvalues: Seq<UpValue>,
    closures: Seq<ClosureModel>,
    prototypes: Seq<PrototypeModel>,
    frame: ScriptFrame,
    func: RegisterIndex,
    args: VarCount,
    t: usize,
)
    requires
        thread.well_formed(),
        cells_agree(thread.open_upvalues, upvalues, t),
        all_run(closures, prototypes, thread.frames),
        top_is(thread, frame),
    ensures
        ({
            let r = spec_tail_call_function(
                thread,
                upvalues,
                closures,
                prototypes,
                frame,
                func,
                args,
            );
            &&& r.0.well_formed()
            &&& cells_agree(r.0.open_upvalues, r.1, t)
            &&& cells_changed_for(upvalues, r.1, t)
            &&& all_run(closures, prototypes, r.0.frames)
        }),
{
    let r = spec_tail_call_function(thread, upvalues, closures, prototypes, frame, func, args);
    lemma_same_frame(thread.frames.last(), Frame::Script(frame));
    if r.0 != thread || r.1 != upvalues {
        lemma_leave(thread, upvalues, frame, t, closures, prototypes);
        let closed = spec_close_upvalues(thread, upvalues, frame.base);
        let left = popped(closed.0);
        let at = spec_slot(frame, func).unwrap();
        let argc = crate::thread::spec_taken(frame, at + 1, args).unwrap();
        let values = spec_slice(thread.stack, at as int, argc + 1).unwrap();
        let moved = left.with_stack(spec_write_at(closed.0.stack, frame.bottom as int, values));
        assert(first_frames(left.frames, moved.frames));
        lemma_thread_keeps(left, moved);
        lemma_frames_kept(left, moved, closures, prototypes);
        lemma_enter(moved, closures, prototypes, frame.bottom, argc, frame.results);
        let entered = spec_enter(moved, closures, prototypes, frame.bottom, argc, frame.results);
        if entered.1 is None {
            assert forall|i: int| 0 <= i < entered.0.frames.len() implies frame_runs(
                closures,
                prototypes,
                #[trigger] entered.0.frames[i],
            ) by {
                if i < moved.frames.len() {
                    assert(entered.0.frames.drop_last()[i] == moved.frames[i]);
                }
            }
        }
    }
}

proof fn lemma_entered_runs(
    before: ThreadModel,
    closures: Seq<ClosureModel>,
    prototypes: Seq<PrototypeModel>,
    at: usize,
    argc: usize,
    results: Returns,
)
    requires
        before.well_formed(),
        all_run(closures, prototypes, before.frames),
        results is Values,
        !(before.top_frame() matches Some(Frame::Script(_))) ==> all_below(before.frames, at as int),
    ensures
        ({
            let entered = spec_enter(before, closures, prototypes, at, argc, results);
            &&& entered.0.well_formed()
            &&& entered.0.open_upvalues == before.open_upvalues
            &&& all_run(closures, prototypes, entered.0.frames)
        }),
{
    lemma_enter(before, closures, prototypes, at, argc, results);
    let entered = spec_enter(before, closures, prototypes, at, argc, results);
    if entered.1 is None {
        assert forall|i: int| 0 <= i < entered.0.frames.len() implies frame_runs(
            closures,
            prototypes,
            #[trigger] entered.0.frames[i],
        ) by {
            if i < before.frames.len() {
                assert(entered.0.frames.drop_last()[i] == before.frames[i]);
            }
        }
    }
}

/// The running frame with its top back at the end of its registers is
/// the same frame still.
proof fn lemma_settle(
    thread: ThreadModel,
    frame: ScriptFrame,
    stack: Seq<Value>,
    closures: Seq<ClosureModel>,
    prototypes: Seq<PrototypeModel>,
)
    requires
        thread.well_formed(),
        all_run(closures, prototypes, thread.frames),
        top_is(thread, frame),
        thread.stack.len() <= stack.len() <= usize::MAX,
    ensures
        ({
            let settled = thread.with_stack(stack).with_top_frame(Frame::Script(settled(frame)));
            &&& settled.well_formed()
            &&& settled.open_upvalues == thread.open_upvalues
            &&& all_run(closures, prototypes, settled.frames)
            &&& settled.top_frame() matches Some(Frame::Script(_))
            &&& top_is(settled, frame)
        }),
{
    let settled = thread.with_stack(stack).with_top_frame(Frame::Script(settled(frame)));
    assert forall|i: int| 0 <= i < settled.frames.len() implies same_frame(
        thread.frames[i],
        #[trigger] settled.frames[i],
    ) by {}
    lemma_thread_keeps(thread, settled);
    lemma_frames_kept(thread, settled, closures, prototypes);
}

/// `Call` keeps a thread well-formed.
pub proof fn lemma_call_function(
    thread: ThreadModel,
    closures: Seq<ClosureModel>,
    prototypes: Seq<PrototypeModel>,
    frame: ScriptFrame,
    func: RegisterIndex,
    args: VarCount,
    results: VarCount,
)
    requires
        thread.well_formed(),
        all_run(closures, prototypes, thread.frames),
        top_is(thread, frame),
    ensures
        ({
            let r = spec_call_function(thread, closures, prototypes, frame, func, args, results);
            &&& r.0.well_formed()
            &&& r.0.open_upvalues == thread.open_upvalues
            &&& all_run(closures, prototypes, r.0.frames)
        }),
{
    let r = spec_call_function(thread, closures, prototypes, frame, func, args, results);
    if r.0 != thread {
        lemma_settle(thread, frame, thread.stack, closures, prototypes);
        let before = thread.with_top_frame(Frame::Script(settled(frame)));
        assert(thread.with_stack(thread.stack) == thread);
        let at = spec_slot(frame, func).unwrap();
        let argc = crate::thread::spec_taken(frame, at + 1, args).unwrap();
        lemma_entered_runs(before, closures, prototypes, at, argc, Returns::Values(results));
    }
}

/// `GenericForCall` keeps a thread well-formed.
pub proof fn lemma_call_function_non_destructive(
    thread: ThreadModel,
    closures: Seq<ClosureModel>,
    prototypes: Seq<PrototypeModel>,
    frame: ScriptFrame,
    base: RegisterIndex,
    var_count: u8,
)
    requires
        thread.well_formed(),
        all_run(closures, prototypes, thread.frames),
        top_is(thread, frame),
    ensures
        ({
            let r = spec_call_function_non_destructive(
                thread,
                closures,
                prototypes,
                frame,
                base,
                var_count,
            );
            &&& r.0.well_formed()
            &&& r.0.open_upvalues == thread.open_upvalues
            &&& all_run(closures, prototypes, r.0.frames)
        }),
{
    let r = spec_call_function_non_destructive(
        thread,
        closures,
        prototypes,
        frame,
        base,
        var_count,
    );
    if r.0 != thread {
        let at = spec_slot(frame, base).unwrap();
        let values = spec_slice(thread.stack, at as int, 3).unwrap();
        let stack = spec_write_at(thread.stack, at + 3, values);
        lemma_settle(thread, frame, stack, closures, prototypes);
        let before = thread.with_stack(stack).with_top_frame(Frame::Script(settled(frame)));
        lemma_entered_runs(
            before,
            closures,
            prototypes,
            (at + 3) as usize,
            2,
            Returns::Values(VarCount::Constant(var_count)),
        );
    }
}

/// `VarArgs` keeps a thread well-formed.
pub proof fn lemma_varargs(
    thread: ThreadModel,
    frame: ScriptFrame,
    dest: RegisterIndex,
    count: VarCount,
    closures: Seq<ClosureModel>,
    prototypes: Seq<PrototypeModel>,
)
    requires
        thread.well_formed(),
        all_run(closures, prototypes, thread.frames),
        top_is(thread, frame),
    ensures
        ({
            let r = spec_varargs(thread, frame, dest, count);
            &&& r.0.well_formed()
            &&& r.0.open_upvalues == thread.open_upvalues
            &&& all_run(closures, prototypes, r.0.frames)
        }),
{
    let r = spec_varargs(thread, frame, dest, count);
    if r.0 != thread {
        assert forall|i: int| 0 <= i < r.0.frames.len() implies same_frame(
            thread.frames[i],
            #[trigger] r.0.frames[i],
        ) by {}
        lemma_thread_keeps(thread, r.0);
        lemma_frames_kept(thread, r.0, closures, prototypes);
    }
}

/// Asking the embedder for an operation keeps a thread well-formed.
pub proof fn lemma_request(
    thread: ThreadModel,
    function: HostCall,
    args: Seq<Value>,
    results: Returns,
    closures: Seq<ClosureModel>,
    prototypes: Seq<PrototypeModel>,
)
    requires
        thread.well_formed(),
        all_run(closures, prototypes, thread.frames),
    ensures
        ({
            let r = spec_request(thread, function, args, results);
            &&& r.0.well_formed()
            &&& r.0.open_upvalues == thread.open_upvalues
            &&& all_run(closures, prototypes, r.0.frames)
        }),
{
    let r = spec_request(thread, function, args, results);
    if r.1 is None {
        let frame = r.0.frames.last();
        assert(r.0.frames == thread.frames.push(frame));
        lemma_thread_grows(thread, r.0, frame);
        assert forall|i: int| 0 <= i < r.0.frames.len() implies frame_runs(
            closures,
            prototypes,
            #[trigger] r.0.frames[i],
        ) by {
            if i < thread.frames.len() {
                assert(r.0.frames[i] == thread.frames[i]);
            }
        }
    }
}

/// Ending a host frame with the results of the embedder keeps a thread
/// well-formed.
pub proof fn lemma_host_return(
    thread: ThreadModel,
    values: Seq<Value>,
    closures: Seq<ClosureModel>,
    prototypes: Seq<PrototypeModel>,
)
    requires
        thread.well_formed(),
        all_run(closures, prototypes, thread.frames),
    ensures
        ({
            let r = spec_host_return(thread, values);
            &&& r.0.well_formed()
            &&& r.0.open_upvalues == thread.open_upvalues
            &&& all_run(closures, prototypes, r.0.frames)
        }),
{
    let r = spec_host_return(thread, values);
    if let Some(Frame::Host(h)) = thread.top_frame() {
        let left = popped(thread);
        let last = thread.frames.len() - 1;
        assert forall|i: int| 0 <= i < left.frames.len() implies same_frame(
            thread.frames[i],
            #[trigger] left.frames[i],
        ) by {}
        assert forall|k: int| 0 <= k < thread.open_upvalues.len() implies has_window(
            left.frames,
            (#[trigger] thread.open_upvalues[k]).index,
        ) by {
            let index = thread.open_upvalues[k].index;
            assert(has_window(thread.frames, index));
            let j = choose|j: int|
                0 <= j < thread.frames.len() && in_window(#[trigger] thread.frames[j], index);
            assert(left.frames[j] == thread.frames[j]);
            assert(in_window(left.frames[j], index));
        }
        assert(thread.open_upvalues.take(thread.open_upvalues.len() as int)
            =~= thread.open_upvalues);
        assert forall|i: int| 0 <= i < left.frames.len() implies frame_end(
            #[trigger] left.frames[i],
        ) <= left.stack.len() by {
            assert(left.frames[i] == thread.frames[i]);
        }
        lemma_thread_shrinks(thread, left, thread.open_upvalues.len() as int);
        lemma_frames_kept(thread, left, closures, prototypes);
        if !(h.results is Values) || left.top_frame() matches Some(Frame::Host(_)) {
            if last > 0 {
                assert(left.top_frame() == Some(thread.frames[last - 1]));
            }
            assert(needs_clear_ground(thread.frames, last));
            assert(on_clear_ground(thread.frames, last));
            assert forall|j: int| 0 <= j < left.frames.len() implies frame_end(
                #[trigger] left.frames[j],
            ) <= h.bottom by {
                assert(left.frames[j] == thread.frames[j]);
            }
        }
        lemma_deliver(left, h.bottom, values, h.results);
        lemma_frames_kept(left, r.0, closures, prototypes);
    }
}

} // verus!
