//! The rules that a prototype has to keep before the machine runs it:
//! every operand of every opcode lies within the prototype, every jump
//! lands on an opcode, and an opcode that leaves a variable number of
//! values is followed by one that takes them.

use crate::opcode::{OpCode, Operand, RegisterIndex, VarCount};
use crate::state::{Prototype, PrototypeModel};
use crate::thread::jump_target;
use vstd::prelude::*;

verus! {

impl PrototypeModel {
    /// Whether `count` registers from `first` on are registers of a frame
    /// of the prototype.
    pub open spec fn holds(self, first: RegisterIndex, count: int) -> bool {
        first.0 + count <= self.stack_size
    }

    /// Whether an operand is a register or a constant of the prototype.
    pub open spec fn holds_operand(self, operand: Operand) -> bool {
        match operand {
            Operand::Register(r) => self.holds(r, 1),
            Operand::Constant(k) => k.0 < self.constants.len(),
        }
    }

    /// Whether an opcode at `pc` may pass over the opcode after it: there
    /// is an opcode to go on with.
    pub open spec fn can_skip(self, pc: int) -> bool {
        pc + 2 < self.opcodes.len()
    }

    /// Whether a jump from the opcode at `pc` lands on an opcode.
    pub open spec fn can_jump(self, pc: int, offset: i16) -> bool {
        0 <= pc + 1 + offset < self.opcodes.len()
    }

    /// The registers that a count of values from `first` on takes up, if
    /// the count is fixed.
    pub open spec fn holds_count(self, first: RegisterIndex, count: VarCount) -> bool {
        match count {
            VarCount::Constant(n) => self.holds(first, n as int),
            VarCount::Variable => self.holds(first, 0),
        }
    }

    /// Whether the operands of the opcode at `pc` lie within the
    /// prototype, and the opcodes that it may go on with exist.
    pub open spec fn operands_fit(self, pc: int) -> bool {
        match self.opcodes[pc] {
            OpCode::Move { dest, source } => self.holds(dest, 1) && self.holds(source, 1),
            OpCode::LoadConstant { dest, constant } => self.holds(dest, 1) && constant.0
                < self.constants.len(),
            OpCode::LoadBool { dest, value, skip_next } => self.holds(dest, 1) && (skip_next
                ==> self.can_skip(pc)),
            OpCode::LoadNil { dest, count } => self.holds(dest, count as int),
            OpCode::NewTable { dest } => self.holds(dest, 1),
            OpCode::GetTable { dest, table, key } => self.holds(dest, 1) && self.holds(table, 1)
                && self.holds_operand(key),
            OpCode::SetTable { table, key, value } => self.holds(table, 1) && self.holds_operand(
                key,
            ) && self.holds_operand(value),
            OpCode::GetUpTable { dest, table, key } => self.holds(dest, 1) && table.0
                < self.upvalues.len() && self.holds_operand(key),
            OpCode::SetUpTable { table, key, value } => table.0 < self.upvalues.len()
                && self.holds_operand(key) && self.holds_operand(value),
            OpCode::GetUpValue { dest, source } => self.holds(dest, 1) && source.0
                < self.upvalues.len(),
            OpCode::SetUpValue { dest, source } => dest.0 < self.upvalues.len() && self.holds(
                source,
                1,
            ),
            OpCode::Call { func, args, returns: results } => self.holds(func, 1)
                && self.holds_count(func, results) && (args matches VarCount::Constant(n)
                ==> self.holds(func, n + 1)),
            OpCode::TailCall { func, args } => self.holds(func, 1) && (
            args matches VarCount::Constant(n) ==> self.holds(func, n + 1)),
            OpCode::Return { start, count } => self.holds_count(start, count),
            OpCode::VarArgs { dest, count } => self.has_varargs && self.holds_count(dest, count),
            OpCode::Jump { offset, close_upvalues } => self.can_jump(pc, offset) && (
            close_upvalues matches Some(r) ==> self.holds(r, 0)),
            OpCode::Test { value, is_true } => self.holds(value, 1) && self.can_skip(pc),
            OpCode::TestSet { dest, value, is_true } => self.holds(dest, 1) && self.holds(value, 1)
                && self.can_skip(pc),
            OpCode::Closure { dest, proto } => self.holds(dest, 1) && proto.0
                < self.prototypes.len(),
            OpCode::NumericForPrep { base, jump } => self.holds(base, 4) && self.can_jump(pc, jump),
            OpCode::NumericForLoop { base, jump } => self.holds(base, 4) && self.can_jump(pc, jump),
            OpCode::GenericForCall { base, var_count } => self.holds(base, 3 + var_count)
                && self.holds(base, 6),
            OpCode::GenericForLoop { base, jump } => self.holds(base, 2) && self.can_jump(pc, jump),
            OpCode::Method { base, table, key } => self.holds(base, 2) && self.holds(table, 1)
                && self.holds_operand(key),
            OpCode::Concat { dest, source, count } => self.holds(dest, 1) && self.holds(
                source,
                count as int,
            ),
            OpCode::Length { dest, source } => self.holds(dest, 1) && self.holds(source, 1),
            OpCode::Not { dest, source } => self.holds(dest, 1) && self.holds(source, 1),
            OpCode::Minus { dest, source } => self.holds(dest, 1) && self.holds(source, 1),
            OpCode::BitNot { dest, source } => self.holds(dest, 1) && self.holds(source, 1),
            OpCode::Binary { operator, dest, left, right } => self.holds(dest, 1)
                && self.holds_operand(left) && self.holds_operand(right),
            OpCode::Compare { comparison, skip_if, left, right } => self.holds_operand(left)
                && self.holds_operand(right) && self.can_skip(pc),
        }
    }

    /// Whether the machine goes on with the opcode after the one at `pc`:
    /// it does after every opcode but a return, a tail call and a jump.
    pub open spec fn falls_through(self, pc: int) -> bool {
        !(self.opcodes[pc] is Return || self.opcodes[pc] is TailCall || self.opcodes[pc] is Jump)
    }

    /// Whether the opcode at `pc` leaves a variable number of values.
    pub open spec fn leaves_variable(self, pc: int) -> bool {
        match self.opcodes[pc] {
            OpCode::Call { returns: VarCount::Variable, .. } => true,
            OpCode::VarArgs { count: VarCount::Variable, .. } => true,
            _ => false,
        }
    }

    /// Whether the opcode at `pc` takes a variable number of values.
    pub open spec fn takes_variable(self, pc: int) -> bool {
        match self.opcodes[pc] {
            OpCode::Call { args: VarCount::Variable, .. } => true,
            OpCode::TailCall { args: VarCount::Variable, .. } => true,
            OpCode::Return { count: VarCount::Variable, .. } => true,
            _ => false,
        }
    }

    /// Whether the opcode at `pc` keeps the rules.
    pub open spec fn opcode_fits(self, pc: int) -> bool {
        &&& self.operands_fit(pc)
        &&& self.falls_through(pc) ==> pc + 1 < self.opcodes.len()
        &&& self.leaves_variable(pc) ==> pc + 1 < self.opcodes.len() && self.opcodes[pc
            + 1].consumes_variable()
        &&& self.takes_variable(pc) ==> pc > 0 && self.leaves_variable(pc - 1)
    }

    /// The first opcode at or after `pc` that breaks a rule.
    pub open spec fn first_fault(self, pc: int) -> Option<usize>
        decreases self.opcodes.len() - pc,
    {
        if pc < 0 || pc >= self.opcodes.len() {
            None
        } else if !self.opcode_fits(pc) {
            Some(pc as usize)
        } else {
            self.first_fault(pc + 1)
        }
    }

    /// Whether the prototype keeps the rules: it has an opcode, and every
    /// opcode fits.
    pub open spec fn fits(self) -> bool {
        self.opcodes.len() > 0 && forall|pc: int| 0 <= pc < self.opcodes.len() ==> self.opcode_fits(pc)
    }
}

/// A prototype without a fault keeps the rules, and the other way round.
pub proof fn lemma_first_fault(p: PrototypeModel, pc: int)
    requires
        0 <= pc,
        p.opcodes.len() <= usize::MAX,
    ensures
        p.first_fault(pc) is None <==> (forall|i: int|
            pc <= i < p.opcodes.len() ==> p.opcode_fits(i)),
        p.first_fault(pc) matches Some(at) ==> pc <= at < p.opcodes.len() && !p.opcode_fits(
            at as int,
        ) && (forall|i: int| pc <= i < at ==> p.opcode_fits(i)),
    decreases p.opcodes.len() - pc,
{
    if pc < p.opcodes.len() {
        lemma_first_fault(p, pc + 1);
        if p.opcode_fits(pc) {
            if p.first_fault(pc + 1) is None {
                assert forall|i: int| pc <= i < p.opcodes.len() implies p.opcode_fits(i) by {
                    if i > pc {
                        assert(pc + 1 <= i);
                    }
                }
            }
        }
    }
}

impl Prototype {
    fn holds(&self, first: RegisterIndex, count: usize) -> (r: bool)
        requires
            count <= 1024,
        ensures
            r == self@.holds(first, count as int),
    {
        first.0 as usize + count <= self.stack_size as usize
    }

    fn holds_operand(&self, operand: Operand) -> (r: bool)
        ensures
            r == self@.holds_operand(operand),
    {
        match operand {
            Operand::Register(r) => self.holds(r, 1),
            Operand::Constant(k) => (k.0 as usize) < self.constants.len(),
        }
    }

    fn holds_count(&self, first: RegisterIndex, count: VarCount) -> (r: bool)
        ensures
            r == self@.holds_count(first, count),
    {
        match count {
            VarCount::Constant(n) => self.holds(first, n as usize),
            VarCount::Variable => self.holds(first, 0),
        }
    }

    fn can_skip(&self, pc: usize) -> (r: bool)
        requires
            pc < self.opcodes.len(),
        ensures
            r == self@.can_skip(pc as int),
    {
        self.opcodes.len() - pc > 2
    }

    fn can_jump(&self, pc: usize, offset: i16) -> (r: bool)
        requires
            pc < self.opcodes.len(),
        ensures
            r == self@.can_jump(pc as int, offset),
    {
        match jump_target(pc + 1, offset) {
            Some(target) => target < self.opcodes.len(),
            None => false,
        }
    }

    fn operands_fit(&self, pc: usize) -> (r: bool)
        requires
            pc < self.opcodes.len(),
        ensures
            r == self@.operands_fit(pc as int),
    {
        match self.opcodes[pc] {
            OpCode::Move { dest, source } => self.holds(dest, 1) && self.holds(source, 1),
            OpCode::LoadConstant { dest, constant } => self.holds(dest, 1) && (constant.0 as usize)
                < self.constants.len(),
            OpCode::LoadBool { dest, value: _, skip_next } => self.holds(dest, 1) && (!skip_next
                || self.can_skip(pc)),
            OpCode::LoadNil { dest, count } => self.holds(dest, count as usize),
            OpCode::NewTable { dest } => self.holds(dest, 1),
            OpCode::GetTable { dest, table, key } => self.holds(dest, 1) && self.holds(table, 1)
                && self.holds_operand(key),
            OpCode::SetTable { table, key, value } => self.holds(table, 1) && self.holds_operand(
                key,
            ) && self.holds_operand(value),
            OpCode::GetUpTable { dest, table, key } => self.holds(dest, 1) && (table.0 as usize)
                < self.upvalues.len() && self.holds_operand(key),
            OpCode::SetUpTable { table, key, value } => (table.0 as usize) < self.upvalues.len()
                && self.holds_operand(key) && self.holds_operand(value),
            OpCode::GetUpValue { dest, source } => self.holds(dest, 1) && (source.0 as usize)
                < self.upvalues.len(),
            OpCode::SetUpValue { dest, source } => (dest.0 as usize) < self.upvalues.len()
                && self.holds(source, 1),
            OpCode::Call { func, args, returns: results } => self.holds(func, 1)
                && self.holds_count(func, results) && (match args {
                VarCount::Constant(n) => self.holds(func, n as usize + 1),
                VarCount::Variable => true,
            }),
            OpCode::TailCall { func, args } => self.holds(func, 1) && (match args {
                VarCount::Constant(n) => self.holds(func, n as usize + 1),
                VarCount::Variable => true,
            }),
            OpCode::Return { start, count } => self.holds_count(start, count),
            OpCode::VarArgs { dest, count } => self.has_varargs && self.holds_count(dest, count),
            OpCode::Jump { offset, close_upvalues } => self.can_jump(pc, offset) && (
            match close_upvalues {
                Some(r) => self.holds(r, 0),
                None => true,
            }),
            OpCode::Test { value, is_true: _ } => self.holds(value, 1) && self.can_skip(pc),
            OpCode::TestSet { dest, value, is_true: _ } => self.holds(dest, 1) && self.holds(
                value,
                1,
            ) && self.can_skip(pc),
            OpCode::Closure { dest, proto } => self.holds(dest, 1) && (proto.0 as usize)
                < self.prototypes.len(),
            OpCode::NumericForPrep { base, jump } => self.holds(base, 4) && self.can_jump(pc, jump),
            OpCode::NumericForLoop { base, jump } => self.holds(base, 4) && self.can_jump(pc, jump),
            OpCode::GenericForCall { base, var_count } => self.holds(base, 3 + var_count as usize)
                && self.holds(base, 6),
            OpCode::GenericForLoop { base, jump } => self.holds(base, 2) && self.can_jump(pc, jump),
            OpCode::Method { base, table, key } => self.holds(base, 2) && self.holds(table, 1)
                && self.holds_operand(key),
            OpCode::Concat { dest, source, count } => self.holds(dest, 1) && self.holds(
                source,
                count as usize,
            ),
            OpCode::Length { dest, source } => self.holds(dest, 1) && self.holds(source, 1),
            OpCode::Not { dest, source } => self.holds(dest, 1) && self.holds(source, 1),
            OpCode::Minus { dest, source } => self.holds(dest, 1) && self.holds(source, 1),
            OpCode::BitNot { dest, source } => self.holds(dest, 1) && self.holds(source, 1),
            OpCode::Binary { operator: _, dest, left, right } => self.holds(dest, 1)
                && self.holds_operand(left) && self.holds_operand(right),
            OpCode::Compare { comparison: _, skip_if: _, left, right } => self.holds_operand(left)
                && self.holds_operand(right) && self.can_skip(pc),
        }
    }

    fn leaves_variable(&self, pc: usize) -> (r: bool)
        requires
            pc < self.opcodes.len(),
        ensures
            r == self@.leaves_variable(pc as int),
    {
        match self.opcodes[pc] {
            OpCode::Call { returns: VarCount::Variable, .. } => true,
            OpCode::VarArgs { count: VarCount::Variable, .. } => true,
            _ => false,
        }
    }

    fn takes_variable(&self, pc: usize) -> (r: bool)
        requires
            pc < self.opcodes.len(),
        ensures
            r == self@.takes_variable(pc as int),
    {
        match self.opcodes[pc] {
            OpCode::Call { args: VarCount::Variable, .. } => true,
            OpCode::TailCall { args: VarCount::Variable, .. } => true,
            OpCode::Return { count: VarCount::Variable, .. } => true,
            _ => false,
        }
    }

    fn opcode_fits(&self, pc: usize) -> (r: bool)
        requires
            pc < self.opcodes.len(),
        ensures
            r == self@.opcode_fits(pc as int),
    {
        let falls_through = !matches!(
            self.opcodes[pc],
            OpCode::Return { .. } | OpCode::TailCall { .. } | OpCode::Jump { .. }
        );
        let has_next = self.opcodes.len() - pc > 1;
        self.operands_fit(pc) && (!falls_through || has_next) && (!self.leaves_variable(pc) || (
        has_next && matches!(
            self.opcodes[pc + 1],
            OpCode::Call { .. } | OpCode::TailCall { .. } | OpCode::Return { .. } | OpCode::VarArgs { .. } | OpCode::GenericForCall { .. }
        ))) && (!self.takes_variable(pc) || (pc > 0 && self.leaves_variable(pc - 1)))
    }

    /// The first opcode that breaks a rule, or `None` if every opcode
    /// keeps the rules.
    pub fn first_fault(&self) -> (r: Option<usize>)
        ensures
            r == self@.first_fault(0),
            r is None && self.opcodes.len() > 0 <==> self@.fits(),
    {
        proof {
            assert(self@.opcodes.len() == self.opcodes.len());
            lemma_first_fault(self@, 0);
        }
        let mut pc: usize = 0;
        while pc < self.opcodes.len()
            invariant
                pc <= self.opcodes.len(),
                self@.first_fault(0) == self@.first_fault(pc as int),
            decreases self.opcodes.len() - pc,
        {
            if !self.opcode_fits(pc) {
                return Some(pc);
            }
            pc = pc + 1;
        }
        None
    }
}

} // verus!
