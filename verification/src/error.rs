//! The errors of the machine.

use crate::opcode::{BinaryOperator, Comparison};
use crate::table::InvalidKey;
use crate::value::TypeName;
use vstd::prelude::*;

verus! {

/// An operator that was given operands it is not defined on.
#[derive(Clone, Copy, Debug, PartialEq, Eq, Structural)]
pub enum BinaryOperatorError {
    Add,
    Subtract,
    Multiply,
    FloatDivide,
    FloorDivide,
    Modulo,
    Exponentiate,
    UnaryNegate,
    BitAnd,
    BitOr,
    BitXor,
    ShiftLeft,
    ShiftRight,
    LessThan,
    LessEqual,
}

/// A prototype or a machine state that breaks the rules of the bytecode.
#[derive(Clone, Copy, Debug, PartialEq, Eq, Structural)]
pub enum IntegrityError {
    /// `true`: an opcode takes everything up to the top, and the opcode
    /// before it did not set a top. `false`: the opcode before set a top,
    /// and this opcode does not take it.
    ExpectedVariable(bool),
    /// A register outside the frame or the stack.
    Register,
    /// A constant outside the pool.
    Constant,
    /// An upvalue that the closure does not have.
    UpValue,
    /// A nested prototype that the prototype does not have.
    Prototype,
    /// The program counter is outside the opcodes.
    ProgramCounter,
    /// A jump to before the first opcode or past the largest address.
    Jump,
    /// A place in the heap that holds no object.
    Reference,
    /// An environment upvalue in a nested prototype.
    Environment,
    /// The thread's running frame is not a script frame.
    Frame,
}

/// Why an opcode, or an operation of the embedder, failed.
#[derive(Clone, Copy, Debug, PartialEq, Eq, Structural)]
pub enum VmError {
    BinaryOperator(BinaryOperatorError),
    /// A value of one type where another is needed.
    Type { expected: TypeName, found: TypeName },
    /// A call of a value that is no function.
    Call(TypeName),
    /// A write to a table at a key that is nil or a NaN.
    Key(InvalidKey),
    Integrity(IntegrityError),
    /// More frames than the thread may hold.
    StackOverflow,
    /// An error that the embedder raised, with its value.
    User(crate::value::Value),
}

impl BinaryOperatorError {
    /// The error of a binary operator.
    pub open spec fn spec_of(operator: BinaryOperator) -> BinaryOperatorError {
        match operator {
            BinaryOperator::Add => BinaryOperatorError::Add,
            BinaryOperator::Subtract => BinaryOperatorError::Subtract,
            BinaryOperator::Multiply => BinaryOperatorError::Multiply,
            BinaryOperator::FloatDivide => BinaryOperatorError::FloatDivide,
            BinaryOperator::FloorDivide => BinaryOperatorError::FloorDivide,
            BinaryOperator::Modulo => BinaryOperatorError::Modulo,
            BinaryOperator::Exponentiate => BinaryOperatorError::Exponentiate,
            BinaryOperator::BitAnd => BinaryOperatorError::BitAnd,
            BinaryOperator::BitOr => BinaryOperatorError::BitOr,
            BinaryOperator::BitXor => BinaryOperatorError::BitXor,
            BinaryOperator::ShiftLeft => BinaryOperatorError::ShiftLeft,
            BinaryOperator::ShiftRight => BinaryOperatorError::ShiftRight,
        }
    }

    /// The error of a binary operator.
    #[verifier::when_used_as_spec(spec_of)]
    pub fn of(operator: BinaryOperator) -> (r: BinaryOperatorError)
        ensures
            r == Self::spec_of(operator),
    {
        match operator {
            BinaryOperator::Add => BinaryOperatorError::Add,
            BinaryOperator::Subtract => BinaryOperatorError::Subtract,
            BinaryOperator::Multiply => BinaryOperatorError::Multiply,
            BinaryOperator::FloatDivide => BinaryOperatorError::FloatDivide,
            BinaryOperator::FloorDivide => BinaryOperatorError::FloorDivide,
            BinaryOperator::Modulo => BinaryOperatorError::Modulo,
            BinaryOperator::Exponentiate => BinaryOperatorError::Exponentiate,
            BinaryOperator::BitAnd => BinaryOperatorError::BitAnd,
            BinaryOperator::BitOr => BinaryOperatorError::BitOr,
            BinaryOperator::BitXor => BinaryOperatorError::BitXor,
            BinaryOperator::ShiftLeft => BinaryOperatorError::ShiftLeft,
            BinaryOperator::ShiftRight => BinaryOperatorError::ShiftRight,
        }
    }

    /// The error of an order comparison.
    pub open spec fn spec_of_comparison(comparison: Comparison) -> BinaryOperatorError {
        match comparison {
            Comparison::LessEqual => BinaryOperatorError::LessEqual,
            _ => BinaryOperatorError::LessThan,
        }
    }

    /// The message of the error.
    pub fn message(&self) -> (r: &'static str)
        ensures
            r@ == self.spec_message(),
    {
        match self {
            BinaryOperatorError::Add => "cannot add values",
            BinaryOperatorError::Subtract => "cannot subtract values",
            BinaryOperatorError::Multiply => "cannot multiply values",
            BinaryOperatorError::FloatDivide => "cannot float divide values",
            BinaryOperatorError::FloorDivide => "cannot floor divide values",
            BinaryOperatorError::Modulo => "cannot modulo values",
            BinaryOperatorError::Exponentiate => "cannot exponentiate values",
            BinaryOperatorError::UnaryNegate => "cannot negate value",
            BinaryOperatorError::BitAnd => "cannot bitwise AND values",
            BinaryOperatorError::BitOr => "cannot bitwise OR values",
            BinaryOperatorError::BitXor => "cannot bitwise XOR values",
            BinaryOperatorError::ShiftLeft => "cannot shift value left",
            BinaryOperatorError::ShiftRight => "cannot shift value right",
            BinaryOperatorError::LessThan => "cannot compare values with <",
            BinaryOperatorError::LessEqual => "cannot compare values with <=",
        }
    }

    /// The message of the error.
    pub open spec fn spec_message(&self) -> Seq<char> {
        match self {
            BinaryOperatorError::Add => "cannot add values"@,
            BinaryOperatorError::Subtract => "cannot subtract values"@,
            BinaryOperatorError::Multiply => "cannot multiply values"@,
            BinaryOperatorError::FloatDivide => "cannot float divide values"@,
            BinaryOperatorError::FloorDivide => "cannot floor divide values"@,
            BinaryOperatorError::Modulo => "cannot modulo values"@,
            BinaryOperatorError::Exponentiate => "cannot exponentiate values"@,
            BinaryOperatorError::UnaryNegate => "cannot negate value"@,
            BinaryOperatorError::BitAnd => "cannot bitwise AND values"@,
            BinaryOperatorError::BitOr => "cannot bitwise OR values"@,
            BinaryOperatorError::BitXor => "cannot bitwise XOR values"@,
            BinaryOperatorError::ShiftLeft => "cannot shift value left"@,
            BinaryOperatorError::ShiftRight => "cannot shift value right"@,
            BinaryOperatorError::LessThan => "cannot compare values with <"@,
            BinaryOperatorError::LessEqual => "cannot compare values with <="@,
        }
    }
}

} // verus!
