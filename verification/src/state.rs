//! The state that the machine runs on: prototypes, closures, upvalues,
//! threads with their frames, and the heap that holds them, each with its
//! mathematical model.

use crate::error::VmError;
use crate::opcode::{BinaryOperator, OpCode, UpValueDescriptor, VarCount};
use crate::table::{Table, TableModel};
use crate::value::{contents, Constant, Value};
use vstd::prelude::*;

verus! {

/// The compiled form of a function body.
pub struct Prototype {
    pub opcodes: Vec<OpCode>,
    pub constants: Vec<Constant>,
    /// The places in the heap of the nested prototypes.
    pub prototypes: Vec<usize>,
    pub upvalues: Vec<UpValueDescriptor>,
    pub fixed_params: u8,
    pub has_varargs: bool,
    /// The number of registers that a frame of this prototype uses.
    pub stack_size: u16,
}

/// The mathematical content of a prototype.
pub struct PrototypeModel {
    pub opcodes: Seq<OpCode>,
    pub constants: Seq<Constant>,
    pub prototypes: Seq<usize>,
    pub upvalues: Seq<UpValueDescriptor>,
    pub fixed_params: u8,
    pub has_varargs: bool,
    pub stack_size: u16,
}

impl View for Prototype {
    type V = PrototypeModel;

    open spec fn view(&self) -> PrototypeModel {
        PrototypeModel {
            opcodes: self.opcodes@,
            constants: self.constants@,
            prototypes: self.prototypes@,
            upvalues: self.upvalues@,
            fixed_params: self.fixed_params,
            has_varargs: self.has_varargs,
            stack_size: self.stack_size,
        }
    }
}

/// A function value of the language: a prototype with the upvalues that
/// it captured, both by their places in the heap.
pub struct Closure {
    pub proto: usize,
    pub upvalues: Vec<usize>,
}

/// The mathematical content of a closure.
pub struct ClosureModel {
    pub proto: usize,
    pub upvalues: Seq<usize>,
}

impl View for Closure {
    type V = ClosureModel;

    open spec fn view(&self) -> ClosureModel {
        ClosureModel { proto: self.proto, upvalues: self.upvalues@ }
    }
}

/// A cell through which closures reach a variable of an enclosing function.
#[derive(Clone, Copy, Debug, PartialEq, Eq, Structural)]
pub enum UpValue {
    /// The variable still lives in a register: a slot of a thread's stack.
    Open { thread: usize, index: usize },
    /// The cell holds the value itself.
    Closed(Value),
}

/// An upvalue that is open on a thread's stack.
#[derive(Clone, Copy, Debug, PartialEq, Eq, Structural)]
pub struct OpenUpValue {
    /// The stack slot that the upvalue stands for.
    pub index: usize,
    /// The place of the cell in the heap.
    pub upvalue: usize,
}

/// What a host frame asks of the embedder.
#[derive(Clone, Copy, Debug, PartialEq, Eq, Structural)]
pub enum HostCall {
    /// A call of the embedder's function with this number.
    Function(usize),
    /// The operator applied to the two arguments in binary64 arithmetic;
    /// an integer or a numeric string argument is converted first. One
    /// result, a number.
    Arithmetic(BinaryOperator),
    /// One step of a numeric loop in binary64 arithmetic. The arguments
    /// are the index, the limit and the step; the results are the index
    /// plus the step, the limit and the step, all as numbers.
    ForLoop,
    /// The concatenation of the arguments, which are strings, integers
    /// and numbers. One result, a string.
    Concat,
}

/// How the results of a frame are handed to the frame below it.
#[derive(Clone, Copy, Debug, PartialEq, Eq, Structural)]
pub enum Returns {
    /// As the results of a call: from the callee's bottom slot on, a fixed
    /// number of them or all.
    Values(VarCount),
    /// The first result goes to this stack slot.
    Register(usize),
    /// The results finish a numeric loop opcode with this base slot and jump.
    ForLoop { base: usize, jump: i16 },
}

/// The frame of a closure that runs.
#[derive(Clone, Copy, Debug, PartialEq, Eq, Structural)]
pub struct ScriptFrame {
    pub closure: usize,
    /// The slot of the called function; results are returned from here on.
    pub bottom: usize,
    /// The slot of register 0.
    pub base: usize,
    /// The number of registers.
    pub size: usize,
    /// One past the last live slot: `base + size`, or where the values end
    /// that the opcode before left, if `is_variable`.
    pub top: usize,
    pub pc: usize,
    pub results: Returns,
    pub varargs_start: usize,
    pub varargs_count: usize,
    pub is_variable: bool,
}

/// The frame of an operation that the embedder carries out.
#[derive(Clone, Copy, Debug, PartialEq, Eq, Structural)]
pub struct HostFrame {
    pub function: HostCall,
    pub bottom: usize,
    /// The slot of the first argument.
    pub base: usize,
    pub arg_count: usize,
    pub results: Returns,
}

/// An entry of a thread's call stack.
#[derive(Clone, Copy, Debug, PartialEq, Eq, Structural)]
pub enum Frame {
    Script(ScriptFrame),
    Host(HostFrame),
}

/// The state of execution of a thread.
#[derive(Clone, Copy, Debug, PartialEq, Eq, Structural)]
pub enum ThreadStatus {
    Suspended,
    Running,
    Normal,
    Finished,
    Error,
}

/// An execution context: a value stack, the frames that are active on it,
/// and the upvalues that are open on it, in ascending order of their slots.
pub struct Thread {
    pub stack: Vec<Value>,
    pub frames: Vec<Frame>,
    pub open_upvalues: Vec<OpenUpValue>,
    pub status: ThreadStatus,
    /// The number of frames that the thread may hold.
    pub frame_limit: usize,
    /// The error that stopped the thread, once its status is `Error`.
    pub error: Option<VmError>,
}

/// The mathematical content of a thread.
pub struct ThreadModel {
    pub stack: Seq<Value>,
    pub frames: Seq<Frame>,
    pub open_upvalues: Seq<OpenUpValue>,
    pub status: ThreadStatus,
    pub frame_limit: usize,
    pub error: Option<VmError>,
}

impl View for Thread {
    type V = ThreadModel;

    open spec fn view(&self) -> ThreadModel {
        ThreadModel {
            stack: self.stack@,
            frames: self.frames@,
            open_upvalues: self.open_upvalues@,
            status: self.status,
            frame_limit: self.frame_limit,
            error: self.error,
        }
    }
}

/// An object of the heap that a reference to a heap object was written
/// into after the object was made.
#[derive(Clone, Copy, Debug, PartialEq, Eq, Structural)]
pub enum Written {
    Table(usize),
    UpValue(usize),
}

/// Everything that values refer to, each kind in an arena of its own.
/// A value holds the place of its object in the arena of its kind.
pub struct Heap {
    pub strings: Vec<Vec<u8>>,
    pub tables: Vec<Table>,
    pub closures: Vec<Closure>,
    pub upvalues: Vec<UpValue>,
    pub prototypes: Vec<Prototype>,
    pub threads: Vec<Thread>,
    /// The write barrier: every write of a reference into a table or
    /// into a closed upvalue cell adds the object that was written into.
    /// A collector takes the entries off as it looks at the objects again.
    pub barrier: Vec<Written>,
}

/// The mathematical content of a heap.
pub struct HeapModel {
    pub strings: Seq<Seq<u8>>,
    pub tables: Seq<TableModel>,
    pub closures: Seq<ClosureModel>,
    pub upvalues: Seq<UpValue>,
    pub prototypes: Seq<PrototypeModel>,
    pub threads: Seq<ThreadModel>,
    pub barrier: Seq<Written>,
}

/// The models of a sequence of objects.
pub open spec fn models<T: View>(s: Seq<T>) -> Seq<T::V> {
    Seq::new(s.len(), |i: int| s[i]@)
}

/// The models of a sequence with one more object.
pub proof fn lemma_models_push<T: View>(s: Seq<T>, x: T)
    ensures
        models(s.push(x)) == models(s).push(x@),
{
    assert(models(s.push(x)) =~= models(s).push(x@));
}

/// The models of a sequence with one object replaced.
pub proof fn lemma_models_update<T: View>(s: Seq<T>, i: int, x: T)
    requires
        0 <= i < s.len(),
    ensures
        models(s.update(i, x)) == models(s).update(i, x@),
{
    assert(models(s.update(i, x)) =~= models(s).update(i, x@));
}

/// The models of the threads after one of them changed.
pub proof fn lemma_thread_changed(before: Seq<Thread>, after: Seq<Thread>, t: int)
    requires
        0 <= t < before.len(),
        after.len() == before.len(),
        forall|i: int| 0 <= i < before.len() && i != t ==> after[i] == before[i],
    ensures
        models(after) == models(before).update(t, after[t]@),
{
    assert(models(after) =~= models(before).update(t, after[t]@));
}

impl View for Heap {
    type V = HeapModel;

    open spec fn view(&self) -> HeapModel {
        HeapModel {
            strings: contents(self.strings@),
            tables: models(self.tables@),
            closures: models(self.closures@),
            upvalues: self.upvalues@,
            prototypes: models(self.prototypes@),
            threads: models(self.threads@),
            barrier: self.barrier@,
        }
    }
}

impl ThreadModel {
    pub open spec fn empty(frame_limit: usize) -> ThreadModel {
        ThreadModel {
            stack: Seq::empty(),
            frames: Seq::empty(),
            open_upvalues: Seq::empty(),
            status: ThreadStatus::Suspended,
            frame_limit,
            error: None,
        }
    }

    /// The frame that runs: the last one.
    pub open spec fn top_frame(self) -> Option<Frame> {
        if self.frames.len() > 0 {
            Some(self.frames.last())
        } else {
            None
        }
    }

    /// The thread with another stack.
    pub open spec fn with_stack(self, stack: Seq<Value>) -> ThreadModel {
        ThreadModel { stack, ..self }
    }

    /// The thread with its running frame replaced.
    pub open spec fn with_top_frame(self, frame: Frame) -> ThreadModel {
        if self.frames.len() > 0 {
            ThreadModel { frames: self.frames.update(self.frames.len() - 1, frame), ..self }
        } else {
            self
        }
    }
}

impl HeapModel {
    /// The heap after the write barrier was invoked on an object, if a
    /// reference was written.
    pub open spec fn noted(self, object: Written, reference: bool) -> HeapModel {
        if reference {
            HeapModel { barrier: self.barrier.push(object), ..self }
        } else {
            self
        }
    }

    pub open spec fn empty() -> HeapModel {
        HeapModel {
            strings: Seq::empty(),
            tables: Seq::empty(),
            closures: Seq::empty(),
            upvalues: Seq::empty(),
            prototypes: Seq::empty(),
            threads: Seq::empty(),
            barrier: Seq::empty(),
        }
    }

    /// The heap with thread `t` replaced.
    pub open spec fn with_thread(self, t: int, thread: ThreadModel) -> HeapModel {
        if 0 <= t < self.threads.len() {
            HeapModel { threads: self.threads.update(t, thread), ..self }
        } else {
            self
        }
    }
}

impl Thread {
    /// A thread without frames, to hold at most `frame_limit` of them.
    pub fn new(frame_limit: usize) -> (r: Thread)
        ensures
            r@ == ThreadModel::empty(frame_limit),
    {
        Thread {
            stack: Vec::new(),
            frames: Vec::new(),
            open_upvalues: Vec::new(),
            status: ThreadStatus::Suspended,
            frame_limit,
            error: None,
        }
    }
}

impl Heap {
    /// Invokes the write barrier on an object, if a reference was
    /// written into it.
    pub fn note(&mut self, object: Written, reference: bool)
        ensures
            final(self)@ == old(self)@.noted(object, reference),
            final(self).threads.len() == old(self).threads.len(),
    {
        if reference {
            self.barrier.push(object);
        }
    }

    pub fn new() -> (r: Heap)
        ensures
            r@ == HeapModel::empty(),
            r@.well_formed(),
    {
        proof {
            crate::preservation::lemma_empty_well_formed();
        }
        let r = Heap {
            strings: Vec::new(),
            tables: Vec::new(),
            closures: Vec::new(),
            upvalues: Vec::new(),
            prototypes: Vec::new(),
            threads: Vec::new(),
            barrier: Vec::new(),
        };
        assert(r@.strings =~= Seq::empty());
        assert(r@.tables =~= Seq::empty());
        assert(r@.closures =~= Seq::empty());
        assert(r@.prototypes =~= Seq::empty());
        assert(r@.threads =~= Seq::empty());
        r
    }

    /// Puts a string into the heap and returns its place.
    pub fn add_string(&mut self, bytes: Vec<u8>) -> (id: usize)
        ensures
            id == old(self)@.strings.len(),
            final(self)@ == (HeapModel {
                strings: old(self)@.strings.push(bytes@),
                ..old(self)@
            }),
            final(self).threads.len() == old(self).threads.len(),
            old(self)@.well_formed() ==> final(self)@.well_formed(),
    {
        proof {
            if self@.well_formed() {
                crate::preservation::lemma_tables_and_strings(
                    self@,
                    HeapModel { strings: self@.strings.push(bytes@), ..self@ },
                );
                crate::preservation::lemma_gentle_well_formed(
                    self@,
                    HeapModel { strings: self@.strings.push(bytes@), ..self@ },
                );
            }
        }
        let id = self.strings.len();
        self.strings.push(bytes);
        assert(self@.strings =~= old(self)@.strings.push(bytes@));
        id
    }

    /// Puts an empty table into the heap and returns its place.
    pub fn add_table(&mut self) -> (id: usize)
        ensures
            id == old(self)@.tables.len(),
            final(self)@ == (HeapModel {
                tables: old(self)@.tables.push(TableModel::empty()),
                ..old(self)@
            }),
            final(self).threads.len() == old(self).threads.len(),
            old(self)@.well_formed() ==> final(self)@.well_formed(),
    {
        proof {
            if self@.well_formed() {
                crate::preservation::lemma_tables_and_strings(
                    self@,
                    HeapModel { tables: self@.tables.push(TableModel::empty()), ..self@ },
                );
                crate::preservation::lemma_gentle_well_formed(
                    self@,
                    HeapModel { tables: self@.tables.push(TableModel::empty()), ..self@ },
                );
            }
        }
        let id = self.tables.len();
        let table = Table::new();
        proof {
            lemma_models_push(self.tables@, table);
        }
        self.tables.push(table);
        id
    }

    /// Puts a closure into the heap and returns its place.
    pub fn add_closure(&mut self, proto: usize, upvalues: Vec<usize>) -> (id: usize)
        ensures
            id == old(self)@.closures.len(),
            final(self)@ == (HeapModel {
                closures: old(self)@.closures.push(ClosureModel { proto, upvalues: upvalues@ }),
                ..old(self)@
            }),
            final(self).threads.len() == old(self).threads.len(),
            (old(self)@.well_formed() && proto < old(self)@.prototypes.len() && upvalues@.len()
                == old(self)@.prototypes[proto as int].upvalues.len())
                ==> final(self)@.well_formed(),
    {
        proof {
            if self@.well_formed() && proto < self@.prototypes.len() && upvalues@.len()
                == self@.prototypes[proto as int].upvalues.len() {
                crate::preservation::lemma_closure_added(
                    self@,
                    ClosureModel { proto, upvalues: upvalues@ },
                );
            }
        }
        let id = self.closures.len();
        let closure = Closure { proto, upvalues };
        proof {
            lemma_models_push(self.closures@, closure);
        }
        self.closures.push(closure);
        id
    }

    /// Puts an upvalue cell into the heap and returns its place.
    pub fn add_upvalue(&mut self, upvalue: UpValue) -> (id: usize)
        ensures
            id == old(self)@.upvalues.len(),
            final(self)@ == (HeapModel {
                upvalues: old(self)@.upvalues.push(upvalue),
                ..old(self)@
            }),
            final(self).threads.len() == old(self).threads.len(),
            old(self)@.well_formed() ==> final(self)@.well_formed(),
    {
        proof {
            if self@.well_formed() {
                crate::preservation::lemma_upvalue_added(self@, upvalue);
            }
        }
        let id = self.upvalues.len();
        self.upvalues.push(upvalue);
        id
    }

    /// Puts a prototype into the heap and returns its place.
    pub fn add_prototype(&mut self, prototype: Prototype) -> (id: usize)
        ensures
            id == old(self)@.prototypes.len(),
            final(self)@ == (HeapModel {
                prototypes: old(self)@.prototypes.push(prototype@),
                ..old(self)@
            }),
            final(self).threads.len() == old(self).threads.len(),
            old(self)@.well_formed() ==> final(self)@.well_formed(),
    {
        proof {
            if self@.well_formed() {
                crate::preservation::lemma_prototype_added(self@, prototype@);
            }
        }
        let id = self.prototypes.len();
        proof {
            lemma_models_push(self.prototypes@, prototype);
        }
        self.prototypes.push(prototype);
        id
    }

    /// Puts a thread into the heap and returns its place.
    pub fn add_thread(&mut self, thread: Thread) -> (id: usize)
        ensures
            id == old(self)@.threads.len(),
            final(self)@ == (HeapModel {
                threads: old(self)@.threads.push(thread@),
                ..old(self)@
            }),
            (old(self)@.well_formed() && thread@.frames.len() == 0
                && thread@.open_upvalues.len() == 0) ==> final(self)@.well_formed(),
    {
        let id = self.threads.len();
        proof {
            lemma_models_push(self.threads@, thread);
        }
        let ghost model = thread@;
        assert(model.stack.len() == thread.stack.len());
        self.threads.push(thread);
        proof {
            if old(self)@.well_formed() && model.frames.len() == 0 && model.open_upvalues.len()
                == 0 {
                assert(old(self)@.threads.len() + 1 == self.threads.len());
                crate::preservation::lemma_thread_added(old(self)@, model);
            }
        }
        id
    }
}

} // verus!
