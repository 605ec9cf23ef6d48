//! The value domain: the tagged values of the language, their truthiness,
//! equality and order, and the operators with their coercion rules.

use crate::integer::{
    floor_div, floor_mod, integer_add, integer_floor_div, integer_floor_mod, integer_multiply,
    integer_negate, integer_subtract, shift_left, shift_right, wrap,
};
use crate::number::{
    integer_le_number, integer_lt_number, lemma_equal_numbers_classify_alike, number_eq,
    number_le, number_le_integer, number_lt, number_lt_integer, number_negate, number_to_integer,
    spec_number_eq, spec_number_to_integer,
};
use crate::numeral::{is_numeral, spec_is_numeral};
use crate::opcode::BinaryOperator;
use vstd::prelude::*;

verus! {

/// A function value: a closure of the heap, or a function of the embedder.
#[derive(Clone, Copy, Debug, PartialEq, Eq, Structural)]
pub enum Function {
    Closure(usize),
    Host(usize),
}

/// A value of the language. Strings, tables, closures and threads are
/// held by their place in the heap; a number by its binary64 bit pattern.
#[derive(Clone, Copy, Debug, PartialEq, Eq, Structural)]
pub enum Value {
    Nil,
    Boolean(bool),
    Integer(i64),
    Number(u64),
    String(usize),
    Table(usize),
    Function(Function),
    Thread(usize),
}

/// An entry of a constant pool. A pool cannot hold a table, a function or
/// a thread.
#[derive(Clone, Copy, Debug, PartialEq, Eq, Structural)]
pub enum Constant {
    Nil,
    Boolean(bool),
    Integer(i64),
    Number(u64),
    String(usize),
}

/// The name of a value's type, as the language shows it.
#[derive(Clone, Copy, Debug, PartialEq, Eq, Structural)]
pub enum TypeName {
    Nil,
    Boolean,
    Number,
    String,
    Table,
    Function,
    Thread,
}

/// What a binary operator gives for two operands.
#[derive(Clone, Copy, Debug, PartialEq, Eq, Structural)]
pub enum Outcome {
    /// The result, computed on integers.
    Value(Value),
    /// Both operands convert to numbers and the result is a number: the
    /// operation is to be carried out in binary64 arithmetic.
    Deferred,
    /// The operands do not fit the operator, or an integer division has a
    /// zero divisor.
    Failed,
}

impl Constant {
    /// The constant as a value.
    pub open spec fn spec_to_value(self) -> Value {
        match self {
            Constant::Nil => Value::Nil,
            Constant::Boolean(b) => Value::Boolean(b),
            Constant::Integer(i) => Value::Integer(i),
            Constant::Number(n) => Value::Number(n),
            Constant::String(s) => Value::String(s),
        }
    }

    /// The constant as a value.
    #[verifier::when_used_as_spec(spec_to_value)]
    pub fn to_value(self) -> (r: Value)
        ensures
            r == self.spec_to_value(),
    {
        match self {
            Constant::Nil => Value::Nil,
            Constant::Boolean(b) => Value::Boolean(b),
            Constant::Integer(i) => Value::Integer(i),
            Constant::Number(n) => Value::Number(n),
            Constant::String(s) => Value::String(s),
        }
    }
}

impl Value {
    /// Every value is truthy but `Nil` and `false`.
    pub open spec fn spec_to_bool(self) -> bool {
        match self {
            Value::Nil => false,
            Value::Boolean(b) => b,
            _ => true,
        }
    }

    /// Every value is truthy but `Nil` and `false`.
    #[verifier::when_used_as_spec(spec_to_bool)]
    pub fn to_bool(self) -> (r: bool)
        ensures
            r == self.spec_to_bool(),
    {
        match self {
            Value::Nil => false,
            Value::Boolean(b) => b,
            _ => true,
        }
    }

    /// Logical negation of the value's truthiness.
    pub fn not(self) -> (r: Value)
        ensures
            r == Value::Boolean(!self.spec_to_bool()),
    {
        Value::Boolean(!self.to_bool())
    }

    /// The type of the value, as the language names it.
    pub open spec fn spec_kind(self) -> TypeName {
        match self {
            Value::Nil => TypeName::Nil,
            Value::Boolean(_) => TypeName::Boolean,
            Value::Integer(_) => TypeName::Number,
            Value::Number(_) => TypeName::Number,
            Value::String(_) => TypeName::String,
            Value::Table(_) => TypeName::Table,
            Value::Function(_) => TypeName::Function,
            Value::Thread(_) => TypeName::Thread,
        }
    }

    /// The type of the value, as the language names it.
    #[verifier::when_used_as_spec(spec_kind)]
    pub fn kind(self) -> (r: TypeName)
        ensures
            r == self.spec_kind(),
    {
        match self {
            Value::Nil => TypeName::Nil,
            Value::Boolean(_) => TypeName::Boolean,
            Value::Integer(_) => TypeName::Number,
            Value::Number(_) => TypeName::Number,
            Value::String(_) => TypeName::String,
            Value::Table(_) => TypeName::Table,
            Value::Function(_) => TypeName::Function,
            Value::Thread(_) => TypeName::Thread,
        }
    }

    /// Whether the value refers to an object of the heap: a string, a
    /// table, a closure or a thread.
    pub open spec fn spec_is_reference(self) -> bool {
        match self {
            Value::String(_) => true,
            Value::Table(_) => true,
            Value::Function(Function::Closure(_)) => true,
            Value::Thread(_) => true,
            _ => false,
        }
    }

    /// Whether the value refers to an object of the heap.
    #[verifier::when_used_as_spec(spec_is_reference)]
    pub fn is_reference(self) -> (r: bool)
        ensures
            r == self.spec_is_reference(),
    {
        match self {
            Value::String(_) => true,
            Value::Table(_) => true,
            Value::Function(Function::Closure(_)) => true,
            Value::Thread(_) => true,
            _ => false,
        }
    }

    /// The integer that the value is: an integer itself, or a number that
    /// equals a 64-bit integer.
    pub open spec fn spec_to_integer(self) -> Option<i64> {
        match self {
            Value::Integer(i) => Some(i),
            Value::Number(n) => spec_number_to_integer(n),
            _ => None,
        }
    }

    /// The integer that the value is, if it is one.
    #[verifier::when_used_as_spec(spec_to_integer)]
    pub fn to_integer(self) -> (r: Option<i64>)
        ensures
            r == self.spec_to_integer(),
    {
        match self {
            Value::Integer(i) => Some(i),
            Value::Number(n) => number_to_integer(n),
            _ => None,
        }
    }

    /// Unary minus: wraps on an integer, flips the sign of a number, and
    /// is not defined on anything else.
    pub open spec fn spec_negate(self) -> Option<Value> {
        match self {
            Value::Integer(i) => Some(Value::Integer(wrap(-i))),
            Value::Number(n) => Some(Value::Number(number_negate(n))),
            _ => None,
        }
    }

    /// Unary minus.
    #[verifier::when_used_as_spec(spec_negate)]
    pub fn negate(self) -> (r: Option<Value>)
        ensures
            r == self.spec_negate(),
    {
        match self {
            Value::Integer(i) => Some(Value::Integer(integer_negate(i))),
            Value::Number(n) => Some(Value::Number(number_negate(n))),
            _ => None,
        }
    }

    /// Bitwise complement of the integer that the value is.
    pub open spec fn spec_bitwise_not(self) -> Option<Value> {
        match self.spec_to_integer() {
            Some(i) => Some(Value::Integer(!i)),
            None => None,
        }
    }

    /// Bitwise complement of the integer that the value is.
    #[verifier::when_used_as_spec(spec_bitwise_not)]
    pub fn bitwise_not(self) -> (r: Option<Value>)
        ensures
            r == self.spec_bitwise_not(),
    {
        match self.to_integer() {
            Some(i) => Some(Value::Integer(!i)),
            None => None,
        }
    }
}

/// The contents of the strings of a heap, by their places.
pub open spec fn contents(strings: Seq<Vec<u8>>) -> Seq<Seq<u8>> {
    Seq::new(strings.len(), |i: int| strings[i]@)
}

/// The bytes of the string at a place; no bytes where no string is.
pub open spec fn string_bytes(strings: Seq<Seq<u8>>, id: usize) -> Seq<u8> {
    if id < strings.len() {
        strings[id as int]
    } else {
        Seq::empty()
    }
}

/// Whether `a` comes before `b` in the lexicographic order of bytes,
/// looking from position `i` on, the bytes before it being equal.
pub open spec fn bytes_lt_from(a: Seq<u8>, b: Seq<u8>, i: int) -> bool
    decreases a.len() - i,
{
    if i >= b.len() {
        false
    } else if i >= a.len() {
        true
    } else if i < 0 {
        false
    } else if a[i] != b[i] {
        a[i] < b[i]
    } else {
        bytes_lt_from(a, b, i + 1)
    }
}

/// Lexicographic order of byte strings.
pub open spec fn bytes_lt(a: Seq<u8>, b: Seq<u8>) -> bool {
    bytes_lt_from(a, b, 0)
}

fn bytes_equal(a: &Vec<u8>, b: &Vec<u8>) -> (r: bool)
    ensures
        r == (a@ == b@),
{
    if a.len() != b.len() {
        return false;
    }
    let mut i: usize = 0;
    while i < a.len()
        invariant
            a.len() == b.len(),
            i <= a.len(),
            forall|j: int| 0 <= j < i ==> a@[j] == b@[j],
        decreases a.len() - i,
    {
        if a[i] != b[i] {
            return false;
        }
        i = i + 1;
    }
    assert(a@ =~= b@);
    true
}

fn bytes_less(a: &Vec<u8>, b: &Vec<u8>) -> (r: bool)
    ensures
        r == bytes_lt(a@, b@),
{
    let mut i: usize = 0;
    loop
        invariant
            i <= a.len(),
            i <= b.len(),
            bytes_lt(a@, b@) == bytes_lt_from(a@, b@, i as int),
        decreases a.len() - i,
    {
        if i >= b.len() {
            return false;
        }
        if i >= a.len() {
            return true;
        }
        if a[i] != b[i] {
            return a[i] < b[i];
        }
        i = i + 1;
    }
}

/// Whether the value converts to a number: an integer, a number, or a
/// string that is a numeric literal.
pub open spec fn spec_is_numeric(strings: Seq<Seq<u8>>, v: Value) -> bool {
    match v {
        Value::Integer(_) => true,
        Value::Number(_) => true,
        Value::String(s) => s < strings.len() && spec_is_numeral(strings[s as int]),
        _ => false,
    }
}

/// Whether the value converts to a number.
pub fn is_numeric(strings: &Vec<Vec<u8>>, v: Value) -> (r: bool)
    ensures
        r == spec_is_numeric(contents(strings@), v),
{
    match v {
        Value::Integer(_) => true,
        Value::Number(_) => true,
        Value::String(s) => s < strings.len() && is_numeral(&strings[s]),
        _ => false,
    }
}

/// Equality of the language: by content for nil, booleans, integers,
/// numbers and strings, an integer and a number being equal when their
/// mathematical values are; by identity for tables, functions and threads.
pub open spec fn spec_values_equal(strings: Seq<Seq<u8>>, a: Value, b: Value) -> bool {
    match (a, b) {
        (Value::Nil, Value::Nil) => true,
        (Value::Boolean(x), Value::Boolean(y)) => x == y,
        (Value::Integer(x), Value::Integer(y)) => x == y,
        (Value::Number(x), Value::Number(y)) => number_eq(x, y),
        (Value::Integer(x), Value::Number(y)) => spec_number_to_integer(y) == Some(x),
        (Value::Number(x), Value::Integer(y)) => spec_number_to_integer(x) == Some(y),
        (Value::String(x), Value::String(y)) => string_bytes(strings, x) == string_bytes(
            strings,
            y,
        ),
        (Value::Table(x), Value::Table(y)) => x == y,
        (Value::Function(x), Value::Function(y)) => x == y,
        (Value::Thread(x), Value::Thread(y)) => x == y,
        _ => false,
    }
}

fn strings_equal(strings: &Vec<Vec<u8>>, x: usize, y: usize) -> (r: bool)
    ensures
        r == (string_bytes(contents(strings@), x) == string_bytes(contents(strings@), y)),
{
    if x < strings.len() && y < strings.len() {
        bytes_equal(&strings[x], &strings[y])
    } else if x < strings.len() {
        assert(strings[x as int]@.len() == 0 ==> strings[x as int]@ =~= Seq::<u8>::empty());
        strings[x].len() == 0
    } else if y < strings.len() {
        assert(strings[y as int]@.len() == 0 ==> strings[y as int]@ =~= Seq::<u8>::empty());
        strings[y].len() == 0
    } else {
        true
    }
}

/// Equality of the language.
pub fn values_equal(strings: &Vec<Vec<u8>>, a: Value, b: Value) -> (r: bool)
    ensures
        r == spec_values_equal(contents(strings@), a, b),
{
    match (a, b) {
        (Value::Nil, Value::Nil) => true,
        (Value::Boolean(x), Value::Boolean(y)) => x == y,
        (Value::Integer(x), Value::Integer(y)) => x == y,
        (Value::Number(x), Value::Number(y)) => number_eq(x, y),
        (Value::Integer(x), Value::Number(y)) => match number_to_integer(y) {
            Some(i) => i == x,
            None => false,
        },
        (Value::Number(x), Value::Integer(y)) => match number_to_integer(x) {
            Some(i) => i == y,
            None => false,
        },
        (Value::String(x), Value::String(y)) => strings_equal(strings, x, y),
        (Value::Table(x), Value::Table(y)) => x == y,
        (Value::Function(x), Value::Function(y)) => x == y,
        (Value::Thread(x), Value::Thread(y)) => x == y,
        _ => false,
    }
}

/// `a < b`: numeric order on integers and numbers, by their mathematical
/// values and false where a NaN is involved; lexicographic byte order on
/// two strings; not defined on any other pair.
pub open spec fn spec_less_than(strings: Seq<Seq<u8>>, a: Value, b: Value) -> Option<bool> {
    match (a, b) {
        (Value::Integer(x), Value::Integer(y)) => Some(x < y),
        (Value::Number(x), Value::Number(y)) => Some(number_lt(x, y)),
        (Value::Integer(x), Value::Number(y)) => Some(integer_lt_number(x, y)),
        (Value::Number(x), Value::Integer(y)) => Some(number_lt_integer(x, y)),
        (Value::String(x), Value::String(y)) => Some(
            bytes_lt(string_bytes(strings, x), string_bytes(strings, y)),
        ),
        _ => None,
    }
}

/// `a <= b`, on the pairs on which `<` is defined.
pub open spec fn spec_less_equal(strings: Seq<Seq<u8>>, a: Value, b: Value) -> Option<bool> {
    match (a, b) {
        (Value::Integer(x), Value::Integer(y)) => Some(x <= y),
        (Value::Number(x), Value::Number(y)) => Some(number_le(x, y)),
        (Value::Integer(x), Value::Number(y)) => Some(integer_le_number(x, y)),
        (Value::Number(x), Value::Integer(y)) => Some(number_le_integer(x, y)),
        (Value::String(x), Value::String(y)) => Some(
            !bytes_lt(string_bytes(strings, y), string_bytes(strings, x)),
        ),
        _ => None,
    }
}

fn strings_less(strings: &Vec<Vec<u8>>, x: usize, y: usize) -> (r: bool)
    ensures
        r == bytes_lt(string_bytes(contents(strings@), x), string_bytes(contents(strings@), y)),
{
    if x < strings.len() && y < strings.len() {
        bytes_less(&strings[x], &strings[y])
    } else if y < strings.len() {
        strings[y].len() > 0
    } else {
        false
    }
}

/// `a < b`, where it is defined.
pub fn less_than(strings: &Vec<Vec<u8>>, a: Value, b: Value) -> (r: Option<bool>)
    ensures
        r == spec_less_than(contents(strings@), a, b),
{
    match (a, b) {
        (Value::Integer(x), Value::Integer(y)) => Some(x < y),
        (Value::Number(x), Value::Number(y)) => Some(number_lt(x, y)),
        (Value::Integer(x), Value::Number(y)) => Some(integer_lt_number(x, y)),
        (Value::Number(x), Value::Integer(y)) => Some(number_lt_integer(x, y)),
        (Value::String(x), Value::String(y)) => Some(strings_less(strings, x, y)),
        _ => None,
    }
}

/// `a <= b`, where it is defined.
pub fn less_equal(strings: &Vec<Vec<u8>>, a: Value, b: Value) -> (r: Option<bool>)
    ensures
        r == spec_less_equal(contents(strings@), a, b),
{
    match (a, b) {
        (Value::Integer(x), Value::Integer(y)) => Some(x <= y),
        (Value::Number(x), Value::Number(y)) => Some(number_le(x, y)),
        (Value::Integer(x), Value::Number(y)) => Some(integer_le_number(x, y)),
        (Value::Number(x), Value::Integer(y)) => Some(number_le_integer(x, y)),
        (Value::String(x), Value::String(y)) => Some(!strings_less(strings, y, x)),
        _ => None,
    }
}

/// An operator of integer arithmetic on two integers.
pub open spec fn integer_arithmetic(operator: BinaryOperator, x: i64, y: i64) -> Outcome {
    match operator {
        BinaryOperator::Add => Outcome::Value(Value::Integer(wrap(x + y))),
        BinaryOperator::Subtract => Outcome::Value(Value::Integer(wrap(x - y))),
        BinaryOperator::Multiply => Outcome::Value(Value::Integer(wrap(x * y))),
        BinaryOperator::FloorDivide => if y == 0 {
            Outcome::Failed
        } else {
            Outcome::Value(Value::Integer(wrap(floor_div(x as int, y as int))))
        },
        BinaryOperator::Modulo => if y == 0 {
            Outcome::Failed
        } else {
            Outcome::Value(Value::Integer(floor_mod(x as int, y as int) as i64))
        },
        _ => Outcome::Deferred,
    }
}

/// An operator on the bits of two integers.
pub open spec fn integer_bitwise(operator: BinaryOperator, x: i64, y: i64) -> i64 {
    match operator {
        BinaryOperator::BitAnd => x & y,
        BinaryOperator::BitOr => x | y,
        BinaryOperator::BitXor => x ^ y,
        BinaryOperator::ShiftLeft => shift_left(x, y),
        _ => shift_right(x, y),
    }
}

/// Whether the operator works on the bits of integers.
pub open spec fn is_bitwise(operator: BinaryOperator) -> bool {
    operator is BitAnd || operator is BitOr || operator is BitXor || operator is ShiftLeft
        || operator is ShiftRight
}

/// A binary operator on two values.
///
/// A bitwise operator takes the integers that its operands are, and fails
/// on an operand that is none. An arithmetic operator on two integers is
/// integer arithmetic, but for `/` and `^`, which always give a number; on
/// any other pair of operands that both convert to numbers the result is a
/// number; on all others it fails.
pub open spec fn spec_arithmetic(
    strings: Seq<Seq<u8>>,
    operator: BinaryOperator,
    a: Value,
    b: Value,
) -> Outcome {
    if is_bitwise(operator) {
        match (a.spec_to_integer(), b.spec_to_integer()) {
            (Some(x), Some(y)) => Outcome::Value(Value::Integer(integer_bitwise(operator, x, y))),
            _ => Outcome::Failed,
        }
    } else {
        match (a, b) {
            (Value::Integer(x), Value::Integer(y)) => integer_arithmetic(operator, x, y),
            _ => if spec_is_numeric(strings, a) && spec_is_numeric(strings, b) {
                Outcome::Deferred
            } else {
                Outcome::Failed
            },
        }
    }
}

/// A binary operator on two values.
pub fn arithmetic(strings: &Vec<Vec<u8>>, operator: BinaryOperator, a: Value, b: Value) -> (r:
    Outcome)
    ensures
        r == spec_arithmetic(contents(strings@), operator, a, b),
{
    match operator {
        BinaryOperator::BitAnd
        | BinaryOperator::BitOr
        | BinaryOperator::BitXor
        | BinaryOperator::ShiftLeft
        | BinaryOperator::ShiftRight => {
            match (a.to_integer(), b.to_integer()) {
                (Some(x), Some(y)) => {
                    let bits = match operator {
                        BinaryOperator::BitAnd => x & y,
                        BinaryOperator::BitOr => x | y,
                        BinaryOperator::BitXor => x ^ y,
                        BinaryOperator::ShiftLeft => shift_left(x, y),
                        _ => shift_right(x, y),
                    };
                    Outcome::Value(Value::Integer(bits))
                },
                _ => Outcome::Failed,
            }
        },
        _ => {
            match (a, b) {
                (Value::Integer(x), Value::Integer(y)) => {
                    match operator {
                        BinaryOperator::Add => Outcome::Value(Value::Integer(integer_add(x, y))),
                        BinaryOperator::Subtract => Outcome::Value(
                            Value::Integer(integer_subtract(x, y)),
                        ),
                        BinaryOperator::Multiply => Outcome::Value(
                            Value::Integer(integer_multiply(x, y)),
                        ),
                        BinaryOperator::FloorDivide => if y == 0 {
                            Outcome::Failed
                        } else {
                            Outcome::Value(Value::Integer(integer_floor_div(x, y)))
                        },
                        BinaryOperator::Modulo => if y == 0 {
                            Outcome::Failed
                        } else {
                            Outcome::Value(Value::Integer(integer_floor_mod(x, y)))
                        },
                        _ => Outcome::Deferred,
                    }
                },
                _ => if is_numeric(strings, a) && is_numeric(strings, b) {
                    Outcome::Deferred
                } else {
                    Outcome::Failed
                },
            }
        },
    }
}

/// On two integers whose mathematical sum, difference or product fits in
/// 64 bits, the operator gives exactly that integer; so do floor division
/// and modulo for a nonzero divisor, `i64::MIN` by `-1` apart.
pub proof fn lemma_integer_operators_exact(strings: Seq<Seq<u8>>, x: i64, y: i64)
    ensures
        i64::MIN <= x + y <= i64::MAX ==> spec_arithmetic(
            strings,
            BinaryOperator::Add,
            Value::Integer(x),
            Value::Integer(y),
        ) == Outcome::Value(Value::Integer((x + y) as i64)),
        i64::MIN <= x - y <= i64::MAX ==> spec_arithmetic(
            strings,
            BinaryOperator::Subtract,
            Value::Integer(x),
            Value::Integer(y),
        ) == Outcome::Value(Value::Integer((x - y) as i64)),
        i64::MIN <= x * y <= i64::MAX ==> spec_arithmetic(
            strings,
            BinaryOperator::Multiply,
            Value::Integer(x),
            Value::Integer(y),
        ) == Outcome::Value(Value::Integer((x * y) as i64)),
        y != 0 && !(x == i64::MIN && y == -1) ==> spec_arithmetic(
            strings,
            BinaryOperator::FloorDivide,
            Value::Integer(x),
            Value::Integer(y),
        ) == Outcome::Value(Value::Integer(floor_div(x as int, y as int) as i64)) && i64::MIN
            <= floor_div(x as int, y as int) <= i64::MAX,
        y != 0 ==> spec_arithmetic(
            strings,
            BinaryOperator::Modulo,
            Value::Integer(x),
            Value::Integer(y),
        ) == Outcome::Value(Value::Integer(floor_mod(x as int, y as int) as i64)) && i64::MIN
            <= floor_mod(x as int, y as int) <= i64::MAX,
{
    crate::integer::lemma_integer_arithmetic_exact(x, y);
}

/// Equality of values is symmetric and transitive.
pub proof fn lemma_equality_is_an_equivalence(strings: Seq<Seq<u8>>, a: Value, b: Value, c: Value)
    ensures
        spec_values_equal(strings, a, b) == spec_values_equal(strings, b, a),
        spec_values_equal(strings, a, b) && spec_values_equal(strings, b, c) ==> spec_values_equal(
            strings,
            a,
            c,
        ),
{
    match (a, b, c) {
        (Value::Number(x), Value::Number(y), Value::Integer(_)) => {
            if spec_number_eq(x, y) {
                lemma_equal_numbers_classify_alike(x, y);
            }
        },
        (Value::Integer(_), Value::Number(x), Value::Number(y)) => {
            if spec_number_eq(x, y) {
                lemma_equal_numbers_classify_alike(x, y);
            }
        },
        (Value::Number(x), Value::Integer(i), Value::Number(y)) => {
            if spec_number_to_integer(x) == Some(i) && spec_number_to_integer(y) == Some(i) {
                crate::number::lemma_integers_are_equal(x, y);
            }
        },
        _ => {},
    }
}

} // verus!
