//! The instruction set of the virtual machine.

use vstd::prelude::*;

verus! {

/// A register of the running frame, counted from the frame's base.
#[derive(Clone, Copy, Debug, PartialEq, Eq, Structural)]
pub struct RegisterIndex(pub u8);

/// An entry of the running prototype's constant pool.
#[derive(Clone, Copy, Debug, PartialEq, Eq, Structural)]
pub struct ConstantIndex(pub u16);

/// An upvalue of the running closure.
#[derive(Clone, Copy, Debug, PartialEq, Eq, Structural)]
pub struct UpValueIndex(pub u8);

/// A nested prototype of the running prototype.
#[derive(Clone, Copy, Debug, PartialEq, Eq, Structural)]
pub struct PrototypeIndex(pub u8);

/// A count of values that is either fixed or "everything up to the top".
#[derive(Clone, Copy, Debug, PartialEq, Eq, Structural)]
pub enum VarCount {
    Variable,
    Constant(u8),
}

/// An operand taken from a register or from the constant pool.
#[derive(Clone, Copy, Debug, PartialEq, Eq, Structural)]
pub enum Operand {
    Register(RegisterIndex),
    Constant(ConstantIndex),
}

/// The binary operators of the arithmetic and bitwise opcode families.
#[derive(Clone, Copy, Debug, PartialEq, Eq, Structural)]
pub enum BinaryOperator {
    Add,
    Subtract,
    Multiply,
    FloatDivide,
    FloorDivide,
    Modulo,
    Exponentiate,
    BitAnd,
    BitOr,
    BitXor,
    ShiftLeft,
    ShiftRight,
}

/// The relations of the comparison opcode family.
#[derive(Clone, Copy, Debug, PartialEq, Eq, Structural)]
pub enum Comparison {
    Equal,
    Less,
    LessEqual,
}

/// Where a prototype's upvalue comes from when a closure is made of it.
#[derive(Clone, Copy, Debug, PartialEq, Eq, Structural)]
pub enum UpValueDescriptor {
    Environment,
    ParentLocal(RegisterIndex),
    Outer(UpValueIndex),
}

/// An instruction of the machine. Registers are those of the running frame;
/// constants, upvalues and nested prototypes are those of the running
/// closure.
#[derive(Clone, Copy, Debug, PartialEq, Eq, Structural)]
#[allow(inconsistent_fields)]
pub enum OpCode {
    Move { dest: RegisterIndex, source: RegisterIndex },
    LoadConstant { dest: RegisterIndex, constant: ConstantIndex },
    LoadBool { dest: RegisterIndex, value: bool, skip_next: bool },
    LoadNil { dest: RegisterIndex, count: u8 },
    NewTable { dest: RegisterIndex },
    GetTable { dest: RegisterIndex, table: RegisterIndex, key: Operand },
    SetTable { table: RegisterIndex, key: Operand, value: Operand },
    GetUpTable { dest: RegisterIndex, table: UpValueIndex, key: Operand },
    SetUpTable { table: UpValueIndex, key: Operand, value: Operand },
    GetUpValue { dest: RegisterIndex, source: UpValueIndex },
    SetUpValue { dest: UpValueIndex, source: RegisterIndex },
    Call { func: RegisterIndex, args: VarCount, returns: VarCount },
    TailCall { func: RegisterIndex, args: VarCount },
    Return { start: RegisterIndex, count: VarCount },
    VarArgs { dest: RegisterIndex, count: VarCount },
    Jump { offset: i16, close_upvalues: Option<RegisterIndex> },
    Test { value: RegisterIndex, is_true: bool },
    TestSet { dest: RegisterIndex, value: RegisterIndex, is_true: bool },
    Closure { dest: RegisterIndex, proto: PrototypeIndex },
    NumericForPrep { base: RegisterIndex, jump: i16 },
    NumericForLoop { base: RegisterIndex, jump: i16 },
    GenericForCall { base: RegisterIndex, var_count: u8 },
    GenericForLoop { base: RegisterIndex, jump: i16 },
    Method { base: RegisterIndex, table: RegisterIndex, key: Operand },
    Concat { dest: RegisterIndex, source: RegisterIndex, count: u8 },
    Length { dest: RegisterIndex, source: RegisterIndex },
    Not { dest: RegisterIndex, source: RegisterIndex },
    Minus { dest: RegisterIndex, source: RegisterIndex },
    BitNot { dest: RegisterIndex, source: RegisterIndex },
    Binary { operator: BinaryOperator, dest: RegisterIndex, left: Operand, right: Operand },
    Compare { comparison: Comparison, skip_if: bool, left: Operand, right: Operand },
}

impl OpCode {
    /// Whether this opcode may run in a frame whose top was set by the
    /// opcode before it: only the consumers of a variable number of values.
    pub open spec fn consumes_variable(self) -> bool {
        self is Call || self is TailCall || self is Return || self is VarArgs
            || self is GenericForCall
    }
}

} // verus!
