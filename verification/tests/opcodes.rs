use luster::driver::Pending;
use luster::error::{BinaryOperatorError, IntegrityError, VmError};
use luster::opcode::{
    BinaryOperator, Comparison, ConstantIndex, OpCode, Operand, PrototypeIndex, RegisterIndex,
    UpValueDescriptor, UpValueIndex, VarCount,
};
use luster::state::{
    Frame, Heap, HostCall, Prototype, Thread, ThreadStatus, UpValue, Written,
};
use luster::table::InvalidKey;
use luster::value::{Constant, Function, TypeName, Value};
use luster::upvalue::{close_upvalues, open_upvalue};
use luster::vm::{run_vm, step, Flow};

fn r(i: u8) -> RegisterIndex {
    RegisterIndex(i)
}

fn k(i: u16) -> Operand {
    Operand::Constant(ConstantIndex(i))
}

fn reg(i: u8) -> Operand {
    Operand::Register(RegisterIndex(i))
}

fn ret(start: u8, count: u8) -> OpCode {
    OpCode::Return { start: r(start), count: VarCount::Constant(count) }
}

fn load(dest: u8, constant: u16) -> OpCode {
    OpCode::LoadConstant { dest: r(dest), constant: ConstantIndex(constant) }
}

fn proto(opcodes: Vec<OpCode>, constants: Vec<Constant>, fixed_params: u8, stack_size: u16) -> Prototype {
    Prototype {
        opcodes,
        constants,
        prototypes: Vec::new(),
        upvalues: Vec::new(),
        fixed_params,
        has_varargs: false,
        stack_size,
    }
}

fn closure_of(heap: &mut Heap, p: Prototype) -> Value {
    let pid = heap.add_prototype(p);
    let cid = heap.add_closure(pid, Vec::new());
    Value::Function(Function::Closure(cid))
}

/// Runs a function to its end. The host function 0 returns its
/// arguments in reverse; the host function 1 raises its first argument.
fn run_on(heap: &mut Heap, f: Value, args: &[Value]) -> Result<Vec<Value>, VmError> {
    let t = heap.add_thread(Thread::new(50));
    assert_eq!(heap.start(t, f, &args.to_vec()), None);
    loop {
        heap.resume(t, 1000);
        match heap.pending(t) {
            Pending::Budget => {}
            Pending::Host(HostCall::Function(0)) => {
                let mut args = heap.threads[t].host_arguments().unwrap();
                args.reverse();
                assert_eq!(heap.host_return(t, &args), None);
            }
            Pending::Host(HostCall::Function(1)) => {
                let args = heap.threads[t].host_arguments().unwrap();
                heap.raise(t, VmError::User(args[0]));
            }
            Pending::Host(HostCall::Concat) => {
                let args = heap.threads[t].host_arguments().unwrap();
                let mut text = Vec::new();
                for v in args {
                    match v {
                        Value::String(s) => text.extend_from_slice(&heap.strings[s]),
                        Value::Integer(i) => text.extend_from_slice(format!("{}", i).as_bytes()),
                        Value::Number(b) => {
                            text.extend_from_slice(format!("{:?}", f64::from_bits(b)).as_bytes())
                        }
                        _ => unreachable!(),
                    }
                }
                let id = heap.add_string(text);
                assert_eq!(heap.host_return(t, &vec![Value::String(id)]), None);
            }
            Pending::Finished => return Ok(heap.threads[t].stack.clone()),
            Pending::Failed(e) => {
                assert!(heap.threads[t].open_upvalues.is_empty() || !heap.threads[t].frames.is_empty());
                return Err(e);
            }
            other => panic!("{:?}", other),
        }
    }
}

fn run_code(opcodes: Vec<OpCode>, constants: Vec<Constant>, stack_size: u16) -> Result<Vec<Value>, VmError> {
    let mut heap = Heap::new();
    let f = closure_of(&mut heap, proto(opcodes, constants, 0, stack_size));
    run_on(&mut heap, f, &[])
}

fn host(n: usize) -> Value {
    Value::Function(Function::Host(n))
}

#[test]
fn move_and_load() {
    assert_eq!(
        run_code(
            vec![
                load(0, 0),
                OpCode::Move { dest: r(1), source: r(0) },
                OpCode::LoadBool { dest: r(2), value: true, skip_next: false },
                OpCode::LoadNil { dest: r(0), count: 1 },
                ret(0, 3),
            ],
            vec![Constant::Integer(7)],
            3
        ),
        Ok(vec![Value::Nil, Value::Integer(7), Value::Boolean(true)])
    );
}

#[test]
fn load_bool_may_skip() {
    assert_eq!(
        run_code(
            vec![
                load(1, 0),
                OpCode::LoadBool { dest: r(0), value: false, skip_next: true },
                load(1, 1),
                ret(0, 2),
            ],
            vec![Constant::Integer(1), Constant::Integer(2)],
            2
        ),
        Ok(vec![Value::Boolean(false), Value::Integer(1)])
    );
}

#[test]
fn load_nil_fills_a_run_of_registers() {
    assert_eq!(
        run_code(
            vec![load(0, 0), load(1, 0), load(2, 0), load(3, 0), OpCode::LoadNil { dest: r(1), count: 2 }, ret(0, 4)],
            vec![Constant::Integer(1)],
            4
        ),
        Ok(vec![Value::Integer(1), Value::Nil, Value::Nil, Value::Integer(1)])
    );
    assert_eq!(
        run_code(vec![OpCode::LoadNil { dest: r(1), count: 2 }, ret(0, 0)], vec![], 2),
        Err(VmError::Integrity(IntegrityError::Register))
    );
}

#[test]
fn tables_in_registers() {
    assert_eq!(
        run_code(
            vec![
                OpCode::NewTable { dest: r(0) },
                load(1, 0),
                OpCode::SetTable { table: r(0), key: reg(1), value: k(1) },
                OpCode::SetTable { table: r(0), key: k(2), value: reg(1) },
                OpCode::GetTable { dest: r(2), table: r(0), key: k(0) },
                OpCode::GetTable { dest: r(3), table: r(0), key: k(2) },
                OpCode::GetTable { dest: r(4), table: r(0), key: k(1) },
                OpCode::Length { dest: r(5), source: r(0) },
                ret(2, 4),
            ],
            vec![Constant::Integer(1), Constant::Integer(10), Constant::Boolean(true)],
            6
        ),
        Ok(vec![Value::Integer(10), Value::Integer(1), Value::Nil, Value::Integer(1)])
    );
}

#[test]
fn table_errors() {
    assert_eq!(
        run_code(vec![load(0, 0), OpCode::GetTable { dest: r(1), table: r(0), key: k(0) }, ret(0, 0)], vec![Constant::Integer(1)], 2),
        Err(VmError::Type { expected: TypeName::Table, found: TypeName::Number })
    );
    assert_eq!(
        run_code(vec![OpCode::SetTable { table: r(0), key: k(0), value: k(0) }, ret(0, 0)], vec![Constant::Integer(1)], 2),
        Err(VmError::Type { expected: TypeName::Table, found: TypeName::Nil })
    );
    assert_eq!(
        run_code(
            vec![OpCode::NewTable { dest: r(0) }, OpCode::SetTable { table: r(0), key: k(0), value: k(1) }, ret(0, 0)],
            vec![Constant::Nil, Constant::Integer(1)],
            1
        ),
        Err(VmError::Key(InvalidKey::IsNil))
    );
    assert_eq!(
        run_code(
            vec![OpCode::NewTable { dest: r(0) }, OpCode::SetTable { table: r(0), key: k(0), value: k(1) }, ret(0, 0)],
            vec![Constant::Number(f64::NAN.to_bits()), Constant::Integer(1)],
            1
        ),
        Err(VmError::Key(InvalidKey::IsNaN))
    );
    assert_eq!(
        run_code(vec![load(0, 0), OpCode::Length { dest: r(1), source: r(0) }, ret(0, 0)], vec![Constant::Integer(1)], 2),
        Err(VmError::Type { expected: TypeName::Table, found: TypeName::Number })
    );
}

#[test]
fn method_loads_the_table_and_the_function() {
    assert_eq!(
        run_code(
            vec![
                OpCode::NewTable { dest: r(0) },
                OpCode::SetTable { table: r(0), key: k(0), value: k(1) },
                OpCode::Method { base: r(1), table: r(0), key: k(0) },
                OpCode::Compare { comparison: Comparison::Equal, skip_if: true, left: reg(0), right: reg(2) },
                OpCode::LoadNil { dest: r(1), count: 1 },
                ret(1, 1),
            ],
            vec![Constant::Integer(5), Constant::Integer(50)],
            3
        ),
        Ok(vec![Value::Integer(50)])
    );
}

#[test]
fn string_length_and_concatenation() {
    let mut heap = Heap::new();
    let a = heap.add_string(b"ab".to_vec());
    let b = heap.add_string(b"cde".to_vec());
    let f = closure_of(
        &mut heap,
        proto(
            vec![
                load(0, 0),
                load(1, 2),
                load(2, 1),
                load(3, 3),
                OpCode::Concat { dest: r(4), source: r(0), count: 4 },
                OpCode::Length { dest: r(5), source: r(4) },
                OpCode::Concat { dest: r(6), source: r(0), count: 0 },
                OpCode::Length { dest: r(7), source: r(6) },
                ret(4, 4),
            ],
            vec![Constant::String(a), Constant::String(b), Constant::Integer(-120), Constant::Integer(0)],
            0,
            8,
        ),
    );
    let got = run_on(&mut heap, f, &[]).unwrap();
    match (got[0], got[2]) {
        (Value::String(s), Value::String(e)) => {
            assert_eq!(heap.strings[s], b"ab-120cde0".to_vec());
            assert_eq!(heap.strings[e], b"".to_vec());
        }
        other => panic!("{:?}", other),
    }
    assert_eq!(got[1], Value::Integer(10));
    assert_eq!(got[3], Value::Integer(0));
}

#[test]
fn concatenation_of_numbers_is_asked_of_the_embedder() {
    let mut heap = Heap::new();
    let a = heap.add_string(b"x=".to_vec());
    let f = closure_of(
        &mut heap,
        proto(
            vec![load(0, 0), load(1, 1), OpCode::Concat { dest: r(0), source: r(0), count: 2 }, ret(0, 1)],
            vec![Constant::String(a), Constant::Number(1.5f64.to_bits())],
            0,
            2,
        ),
    );
    let got = run_on(&mut heap, f, &[]).unwrap();
    match got[0] {
        Value::String(s) => assert_eq!(heap.strings[s], b"x=1.5".to_vec()),
        other => panic!("{:?}", other),
    }
}

#[test]
fn concatenation_of_other_values_fails() {
    assert_eq!(
        run_code(
            vec![load(0, 0), OpCode::NewTable { dest: r(1) }, OpCode::Concat { dest: r(0), source: r(0), count: 2 }, ret(0, 1)],
            vec![Constant::Integer(1)],
            2
        ),
        Err(VmError::Type { expected: TypeName::String, found: TypeName::Table })
    );
    assert_eq!(
        run_code(vec![OpCode::Concat { dest: r(0), source: r(0), count: 1 }, ret(0, 1)], vec![], 1),
        Err(VmError::Type { expected: TypeName::String, found: TypeName::Nil })
    );
}

#[test]
fn unary_opcodes() {
    assert_eq!(
        run_code(
            vec![
                load(0, 0),
                OpCode::Not { dest: r(1), source: r(0) },
                OpCode::Minus { dest: r(2), source: r(0) },
                OpCode::BitNot { dest: r(3), source: r(0) },
                load(4, 1),
                OpCode::Minus { dest: r(4), source: r(4) },
                ret(1, 4),
            ],
            vec![Constant::Integer(5), Constant::Number(2.5f64.to_bits())],
            5
        ),
        Ok(vec![
            Value::Boolean(false),
            Value::Integer(-5),
            Value::Integer(-6),
            Value::Number((-2.5f64).to_bits())
        ])
    );
    assert_eq!(
        run_code(vec![OpCode::Minus { dest: r(0), source: r(0) }, ret(0, 1)], vec![], 1),
        Err(VmError::BinaryOperator(BinaryOperatorError::UnaryNegate))
    );
    assert_eq!(
        run_code(vec![OpCode::BitNot { dest: r(0), source: r(0) }, ret(0, 1)], vec![], 1),
        Err(VmError::BinaryOperator(BinaryOperatorError::UnaryNegate))
    );
}

#[test]
fn every_binary_operator_has_its_error() {
    for (operator, error) in [
        (BinaryOperator::Add, BinaryOperatorError::Add),
        (BinaryOperator::Subtract, BinaryOperatorError::Subtract),
        (BinaryOperator::Multiply, BinaryOperatorError::Multiply),
        (BinaryOperator::FloatDivide, BinaryOperatorError::FloatDivide),
        (BinaryOperator::FloorDivide, BinaryOperatorError::FloorDivide),
        (BinaryOperator::Modulo, BinaryOperatorError::Modulo),
        (BinaryOperator::Exponentiate, BinaryOperatorError::Exponentiate),
        (BinaryOperator::BitAnd, BinaryOperatorError::BitAnd),
        (BinaryOperator::BitOr, BinaryOperatorError::BitOr),
        (BinaryOperator::BitXor, BinaryOperatorError::BitXor),
        (BinaryOperator::ShiftLeft, BinaryOperatorError::ShiftLeft),
        (BinaryOperator::ShiftRight, BinaryOperatorError::ShiftRight),
    ] {
        assert_eq!(
            run_code(
                vec![OpCode::Binary { operator, dest: r(0), left: k(0), right: k(1) }, ret(0, 1)],
                vec![Constant::Boolean(true), Constant::Integer(1)],
                1
            ),
            Err(VmError::BinaryOperator(error))
        );
        assert_eq!(BinaryOperatorError::of(operator), error);
    }
}

fn compare(comparison: Comparison, a: Constant, b: Constant) -> Result<bool, VmError> {
    // the result is whether the opcode after the comparison was passed over
    let got = run_code(
        vec![
            OpCode::LoadBool { dest: r(0), value: true, skip_next: false },
            OpCode::Compare { comparison, skip_if: true, left: k(0), right: k(1) },
            OpCode::LoadBool { dest: r(0), value: false, skip_next: false },
            ret(0, 1),
        ],
        vec![a, b],
        1,
    )?;
    Ok(got[0] == Value::Boolean(true))
}

#[test]
fn comparisons() {
    let n = |x: f64| Constant::Number(x.to_bits());
    assert_eq!(compare(Comparison::Equal, Constant::Integer(1), n(1.0)), Ok(true));
    assert_eq!(compare(Comparison::Equal, Constant::Integer(1), Constant::Boolean(true)), Ok(false));
    assert_eq!(compare(Comparison::Equal, Constant::Nil, Constant::Nil), Ok(true));
    assert_eq!(compare(Comparison::Equal, n(f64::NAN), n(f64::NAN)), Ok(false));
    assert_eq!(compare(Comparison::Less, Constant::Integer(1), Constant::Integer(2)), Ok(true));
    assert_eq!(compare(Comparison::Less, Constant::Integer(2), Constant::Integer(2)), Ok(false));
    assert_eq!(compare(Comparison::LessEqual, Constant::Integer(2), Constant::Integer(2)), Ok(true));
    assert_eq!(compare(Comparison::LessEqual, n(2.5), Constant::Integer(2)), Ok(false));
    assert_eq!(compare(Comparison::Less, n(f64::NAN), Constant::Integer(2)), Ok(false));
    assert_eq!(
        compare(Comparison::Less, Constant::Nil, Constant::Integer(2)),
        Err(VmError::BinaryOperator(BinaryOperatorError::LessThan))
    );
    assert_eq!(
        compare(Comparison::LessEqual, Constant::Boolean(true), Constant::Boolean(true)),
        Err(VmError::BinaryOperator(BinaryOperatorError::LessEqual))
    );
}

#[test]
fn comparison_that_does_not_skip() {
    assert_eq!(
        run_code(
            vec![
                OpCode::LoadBool { dest: r(0), value: true, skip_next: false },
                OpCode::Compare { comparison: Comparison::Less, skip_if: false, left: k(0), right: k(1) },
                OpCode::LoadBool { dest: r(0), value: false, skip_next: false },
                ret(0, 1),
            ],
            vec![Constant::Integer(1), Constant::Integer(2)],
            1
        ),
        Ok(vec![Value::Boolean(false)])
    );
}

#[test]
fn test_and_test_set() {
    // Test skips on a truthy value when asked for truth
    assert_eq!(
        run_code(
            vec![load(0, 0), OpCode::Test { value: r(0), is_true: true }, load(0, 1), ret(0, 1)],
            vec![Constant::Integer(0), Constant::Integer(9)],
            1
        ),
        Ok(vec![Value::Integer(0)])
    );
    assert_eq!(
        run_code(
            vec![load(0, 0), OpCode::Test { value: r(0), is_true: false }, load(0, 1), ret(0, 1)],
            vec![Constant::Integer(0), Constant::Integer(9)],
            1
        ),
        Ok(vec![Value::Integer(9)])
    );
    // TestSet copies on fall-through only
    assert_eq!(
        run_code(
            vec![load(0, 0), OpCode::TestSet { dest: r(1), value: r(0), is_true: false }, load(0, 1), ret(0, 2)],
            vec![Constant::Integer(0), Constant::Integer(9)],
            2
        ),
        Ok(vec![Value::Integer(9), Value::Integer(0)])
    );
    assert_eq!(
        run_code(
            vec![load(0, 0), OpCode::TestSet { dest: r(1), value: r(0), is_true: true }, load(0, 1), ret(0, 2)],
            vec![Constant::Integer(0), Constant::Integer(9)],
            2
        ),
        Ok(vec![Value::Integer(0), Value::Nil])
    );
}

#[test]
fn integer_for_loop_runs_when_the_index_equals_the_limit() {
    // local s = 0; for i = 1, 4 do s = s + i end; return s, and downwards
    for (start, limit, step, sum) in [(1, 4, 1, 10), (4, 1, -1, 10), (1, 1, 1, 1), (2, 1, 1, 0), (1, 10, 3, 22), (5, 5, -1, 5), (1, 4, 0, 0), (4, 1, 0, 0)] {
        assert_eq!(
            run_code(
                vec![
                    load(0, 3),
                    load(1, 0),
                    load(2, 1),
                    load(3, 2),
                    OpCode::NumericForPrep { base: r(1), jump: 1 },
                    OpCode::Binary { operator: BinaryOperator::Add, dest: r(0), left: reg(0), right: reg(4) },
                    OpCode::NumericForLoop { base: r(1), jump: -2 },
                    ret(0, 1),
                ],
                vec![Constant::Integer(start), Constant::Integer(limit), Constant::Integer(step), Constant::Integer(0)],
                5
            ),
            Ok(vec![Value::Integer(sum)])
        );
    }
}

#[test]
fn for_loop_over_values_that_are_no_numbers_fails() {
    assert_eq!(
        run_code(
            vec![load(1, 0), load(2, 0), OpCode::NumericForLoop { base: r(0), jump: -1 }, ret(0, 1)],
            vec![Constant::Integer(1)],
            4
        ),
        Err(VmError::BinaryOperator(BinaryOperatorError::Add))
    );
    assert_eq!(
        run_code(
            vec![load(0, 0), OpCode::NumericForPrep { base: r(0), jump: 0 }, ret(0, 1)],
            vec![Constant::Integer(1)],
            4
        ),
        Err(VmError::BinaryOperator(BinaryOperatorError::Subtract))
    );
}

#[test]
fn calls_pass_arguments_and_results() {
    let mut heap = Heap::new();
    // function(a, b) return b, a end, with its results in its registers 2 and 3
    let swap = closure_of(
        &mut heap,
        proto(
            vec![OpCode::Move { dest: r(2), source: r(1) }, OpCode::Move { dest: r(3), source: r(0) }, ret(2, 2)],
            vec![],
            2,
            4,
        ),
    );
    let (one, two) = (Value::Integer(1), Value::Integer(2));
    // The caller's registers 1 to 4 after the call: the results replace
    // the function and its arguments, nil stands in for a missing one,
    // and a result that is not asked for is dropped. Register 4 was
    // register 2 of the callee.
    for (results, expected) in [
        (0u8, vec![swap, one, two, two]),
        (1, vec![two, one, two, two]),
        (2, vec![two, one, two, two]),
        (3, vec![two, one, Value::Nil, two]),
        (4, vec![two, one, Value::Nil, Value::Nil]),
    ] {
        let caller = closure_of(
            &mut heap,
            proto(
                vec![
                    OpCode::Move { dest: r(1), source: r(0) },
                    load(2, 0),
                    load(3, 1),
                    OpCode::Call { func: r(1), args: VarCount::Constant(2), returns: VarCount::Constant(results) },
                    ret(1, 4),
                ],
                vec![Constant::Integer(1), Constant::Integer(2)],
                1,
                5,
            ),
        );
        assert_eq!(run_on(&mut heap, caller, &[swap]), Ok(expected), "{} results", results);
    }
}

#[test]
fn missing_arguments_are_nil_and_extra_ones_are_dropped() {
    let mut heap = Heap::new();
    let f = closure_of(&mut heap, proto(vec![ret(0, 3)], vec![], 2, 3));
    assert_eq!(run_on(&mut heap, f, &[]), Ok(vec![Value::Nil, Value::Nil, Value::Nil]));
    assert_eq!(
        run_on(&mut heap, f, &[Value::Integer(1)]),
        Ok(vec![Value::Integer(1), Value::Nil, Value::Nil])
    );
    assert_eq!(
        run_on(&mut heap, f, &[Value::Integer(1), Value::Integer(2), Value::Integer(3)]),
        Ok(vec![Value::Integer(1), Value::Integer(2), Value::Nil])
    );
}

#[test]
fn variable_arguments() {
    let mut heap = Heap::new();
    // function(a, ...) return ... end
    let mut all = proto(
        vec![OpCode::VarArgs { dest: r(1), count: VarCount::Variable }, OpCode::Return { start: r(1), count: VarCount::Variable }],
        vec![],
        1,
        2,
    );
    all.has_varargs = true;
    let all = closure_of(&mut heap, all);
    let args: Vec<Value> = (1..=5).map(Value::Integer).collect();
    assert_eq!(run_on(&mut heap, all, &args), Ok(args[1..].to_vec()));
    assert_eq!(run_on(&mut heap, all, &args[..1]), Ok(vec![]));
    assert_eq!(run_on(&mut heap, all, &[]), Ok(vec![]));
    // function(...) local a, b, c = ...; return a, b, c end
    let mut three = proto(vec![OpCode::VarArgs { dest: r(0), count: VarCount::Constant(3) }, ret(0, 3)], vec![], 0, 3);
    three.has_varargs = true;
    let three = closure_of(&mut heap, three);
    assert_eq!(
        run_on(&mut heap, three, &args),
        Ok(vec![Value::Integer(1), Value::Integer(2), Value::Integer(3)])
    );
    assert_eq!(
        run_on(&mut heap, three, &args[..1]),
        Ok(vec![Value::Integer(1), Value::Nil, Value::Nil])
    );
}

#[test]
fn a_variable_top_must_be_taken_by_the_next_opcode() {
    let mut bad = proto(
        vec![OpCode::VarArgs { dest: r(0), count: VarCount::Variable }, OpCode::Move { dest: r(0), source: r(0) }, ret(0, 0)],
        vec![],
        0,
        2,
    );
    bad.has_varargs = true;
    let mut heap = Heap::new();
    let bad = closure_of(&mut heap, bad);
    assert_eq!(
        run_on(&mut heap, bad, &[]),
        Err(VmError::Integrity(IntegrityError::ExpectedVariable(false)))
    );
    assert_eq!(
        run_code(vec![OpCode::Return { start: r(0), count: VarCount::Variable }], vec![], 1),
        Err(VmError::Integrity(IntegrityError::ExpectedVariable(true)))
    );
    assert_eq!(
        run_code(vec![OpCode::Call { func: r(0), args: VarCount::Variable, returns: VarCount::Constant(0) }], vec![], 1),
        Err(VmError::Integrity(IntegrityError::ExpectedVariable(true)))
    );
}

#[test]
fn calls_with_all_results_feed_the_next_call() {
    let mut heap = Heap::new();
    // return host0(host0(1, 2, 3)): reversed twice
    let f = closure_of(
        &mut heap,
        proto(
            vec![
                OpCode::Move { dest: r(1), source: r(0) },
                OpCode::Move { dest: r(2), source: r(0) },
                load(3, 0),
                load(4, 1),
                load(5, 2),
                OpCode::Call { func: r(2), args: VarCount::Constant(3), returns: VarCount::Variable },
                OpCode::Call { func: r(1), args: VarCount::Variable, returns: VarCount::Variable },
                OpCode::Return { start: r(1), count: VarCount::Variable },
            ],
            vec![Constant::Integer(1), Constant::Integer(2), Constant::Integer(3)],
            1,
            6,
        ),
    );
    assert_eq!(
        run_on(&mut heap, f, &[host(0)]),
        Ok(vec![Value::Integer(1), Value::Integer(2), Value::Integer(3)])
    );
}

#[test]
fn generic_for_calls_the_iterator_without_touching_its_state() {
    let mut heap = Heap::new();
    // base = r1: iterator host0, state 7, control 8; one call, two variables
    let f = closure_of(
        &mut heap,
        proto(
            vec![
                OpCode::Move { dest: r(1), source: r(0) },
                load(2, 0),
                load(3, 1),
                OpCode::GenericForCall { base: r(1), var_count: 2 },
                OpCode::GenericForLoop { base: r(3), jump: 1 },
                OpCode::LoadNil { dest: r(0), count: 1 },
                ret(0, 6),
            ],
            vec![Constant::Integer(7), Constant::Integer(8)],
            1,
            7,
        ),
    );
    // host0 returns (control, state) reversed: r4 = 8, r5 = 7; the loop
    // test sees r4 truthy, copies it to r3 and jumps over the LoadNil
    assert_eq!(
        run_on(&mut heap, f, &[host(0)]),
        Ok(vec![host(0), host(0), Value::Integer(7), Value::Integer(8), Value::Integer(8), Value::Integer(7)])
    );
}

#[test]
fn generic_for_loop_ends_on_a_falsy_value() {
    assert_eq!(
        run_code(
            vec![load(0, 0), OpCode::GenericForLoop { base: r(0), jump: 1 }, load(0, 1), ret(0, 2)],
            vec![Constant::Integer(1), Constant::Integer(2)],
            2
        ),
        Ok(vec![Value::Integer(2), Value::Nil])
    );
}

#[test]
fn calling_what_is_no_function_fails() {
    assert_eq!(
        run_code(
            vec![load(0, 0), OpCode::Call { func: r(0), args: VarCount::Constant(0), returns: VarCount::Constant(0) }],
            vec![Constant::Integer(1)],
            1
        ),
        Err(VmError::Call(TypeName::Number))
    );
    assert_eq!(
        run_code(vec![OpCode::TailCall { func: r(0), args: VarCount::Constant(0) }], vec![], 1),
        Err(VmError::Call(TypeName::Nil))
    );
    let mut heap = Heap::new();
    let t = heap.add_thread(Thread::new(10));
    assert_eq!(heap.start(t, Value::Nil, &vec![]), Some(VmError::Call(TypeName::Nil)));
    assert_eq!(heap.pending(t), Pending::Idle);
    assert_eq!(heap.threads[t].status, ThreadStatus::Suspended);
    assert_eq!(heap.start(9, Value::Nil, &vec![]), Some(VmError::Integrity(IntegrityError::Reference)));
}

#[test]
fn too_many_frames_overflow_the_stack() {
    let mut heap = Heap::new();
    // function f() return 1 + f() end, through an upvalue
    let pid = heap.add_prototype(proto(
        vec![
            OpCode::GetUpValue { dest: r(0), source: UpValueIndex(0) },
            OpCode::Call { func: r(0), args: VarCount::Constant(0), returns: VarCount::Constant(1) },
            ret(0, 1),
        ],
        vec![],
        0,
        1,
    ));
    let cell = heap.add_upvalue(UpValue::Closed(Value::Nil));
    let cid = heap.add_closure(pid, vec![cell]);
    let f = Value::Function(Function::Closure(cid));
    heap.upvalues[cell] = UpValue::Closed(f);
    let t = heap.add_thread(Thread::new(50));
    assert_eq!(heap.start(t, f, &vec![]), None);
    heap.resume(t, 100_000);
    assert_eq!(heap.pending(t), Pending::Failed(VmError::StackOverflow));
    assert_eq!(heap.threads[t].status, ThreadStatus::Error);
    assert!(heap.threads[t].frames.is_empty());
    assert_eq!(heap.threads[t].error, Some(VmError::StackOverflow));
    // a thread that has failed does not run
    assert_eq!(heap.resume(t, 10), 10);
}

#[test]
fn integrity_errors() {
    let cases: Vec<(Vec<OpCode>, IntegrityError)> = vec![
        (vec![OpCode::Move { dest: r(0), source: r(5) }], IntegrityError::Register),
        (vec![OpCode::Move { dest: r(5), source: r(0) }], IntegrityError::Register),
        (vec![load(0, 3)], IntegrityError::Constant),
        (vec![OpCode::GetUpValue { dest: r(0), source: UpValueIndex(0) }], IntegrityError::UpValue),
        (vec![OpCode::SetUpValue { dest: UpValueIndex(2), source: r(0) }], IntegrityError::UpValue),
        (vec![OpCode::Closure { dest: r(0), proto: PrototypeIndex(0) }], IntegrityError::Prototype),
        (vec![load(0, 0)], IntegrityError::ProgramCounter),
        (vec![OpCode::Jump { offset: 5, close_upvalues: None }], IntegrityError::ProgramCounter),
        (vec![OpCode::Jump { offset: -5, close_upvalues: None }], IntegrityError::Jump),
        (vec![load(0, 1), OpCode::GetTable { dest: r(0), table: r(0), key: k(0) }], IntegrityError::Reference),
    ];
    for (opcodes, error) in cases {
        let mut heap = Heap::new();
        let mut p = proto(opcodes.clone(), vec![Constant::Integer(1)], 0, 2);
        p.constants.push(Constant::Nil);
        let f = closure_of(&mut heap, p);
        // a table that is not in the heap
        let t = heap.add_thread(Thread::new(10));
        assert_eq!(heap.start(t, f, &vec![]), None);
        if error == IntegrityError::Reference {
            let base = match heap.threads[t].top_frame() {
                Some(Frame::Script(frame)) => frame.base,
                _ => unreachable!(),
            };
            heap.resume(t, 1);
            heap.threads[t].stack[base] = Value::Table(77);
        }
        heap.resume(t, 10);
        assert_eq!(heap.pending(t), Pending::Failed(VmError::Integrity(error)), "{:?}", opcodes);
    }
}

#[test]
fn environment_upvalues_are_refused_in_nested_prototypes() {
    let mut heap = Heap::new();
    let mut inner = proto(vec![ret(0, 0)], vec![], 0, 1);
    inner.upvalues = vec![UpValueDescriptor::Environment];
    let inner = heap.add_prototype(inner);
    let mut outer = proto(vec![OpCode::Closure { dest: r(0), proto: PrototypeIndex(0) }, ret(0, 1)], vec![], 0, 1);
    outer.prototypes = vec![inner];
    let outer = closure_of(&mut heap, outer);
    assert_eq!(run_on(&mut heap, outer, &[]), Err(VmError::Integrity(IntegrityError::Environment)));
}

#[test]
fn closures_copy_outer_upvalues() {
    let mut heap = Heap::new();
    // function outer() local x = 5; return function() return function() return x end end end
    let mut innermost = proto(vec![OpCode::GetUpValue { dest: r(0), source: UpValueIndex(0) }, ret(0, 1)], vec![], 0, 1);
    innermost.upvalues = vec![UpValueDescriptor::Outer(UpValueIndex(0))];
    let innermost = heap.add_prototype(innermost);
    let mut middle = proto(vec![OpCode::Closure { dest: r(0), proto: PrototypeIndex(0) }, ret(0, 1)], vec![], 0, 1);
    middle.upvalues = vec![UpValueDescriptor::ParentLocal(r(0))];
    middle.prototypes = vec![innermost];
    let middle = heap.add_prototype(middle);
    let mut outer = proto(vec![load(0, 0), OpCode::Closure { dest: r(1), proto: PrototypeIndex(0) }, ret(1, 1)], vec![Constant::Integer(5)], 0, 2);
    outer.prototypes = vec![middle];
    let outer = closure_of(&mut heap, outer);
    let middle = run_on(&mut heap, outer, &[]).unwrap()[0];
    let inner = run_on(&mut heap, middle, &[]).unwrap()[0];
    assert_eq!(run_on(&mut heap, inner, &[]), Ok(vec![Value::Integer(5)]));
}

#[test]
fn jump_closes_upvalues_and_the_closure_keeps_the_value() {
    let mut heap = Heap::new();
    let mut getter = proto(vec![OpCode::GetUpValue { dest: r(0), source: UpValueIndex(0) }, ret(0, 1)], vec![], 0, 1);
    getter.upvalues = vec![UpValueDescriptor::ParentLocal(r(1))];
    let getter = heap.add_prototype(getter);
    // local x = 1; local f = function() return x end; x = 2 (seen);
    // close x; x = 3 (not seen); return f
    let mut outer = proto(
        vec![
            load(1, 0),
            OpCode::Closure { dest: r(0), proto: PrototypeIndex(0) },
            load(1, 1),
            OpCode::Jump { offset: 0, close_upvalues: Some(r(1)) },
            load(1, 2),
            OpCode::Jump { offset: 0, close_upvalues: Some(r(1)) },
            ret(0, 1),
        ],
        vec![Constant::Integer(1), Constant::Integer(2), Constant::Integer(3)],
        0,
        2,
    );
    outer.prototypes = vec![getter];
    let outer = closure_of(&mut heap, outer);
    let f = run_on(&mut heap, outer, &[]).unwrap()[0];
    assert_eq!(run_on(&mut heap, f, &[]), Ok(vec![Value::Integer(2)]));
}

#[test]
fn an_open_upvalue_is_the_register() {
    let mut heap = Heap::new();
    let mut setter = proto(vec![OpCode::SetUpValue { dest: UpValueIndex(0), source: r(0) }, ret(0, 0)], vec![], 1, 1);
    setter.upvalues = vec![UpValueDescriptor::ParentLocal(r(0))];
    let setter = heap.add_prototype(setter);
    // local x = 1; local set = function(v) x = v end; set(7); return x
    let mut outer = proto(
        vec![
            load(0, 0),
            OpCode::Closure { dest: r(1), proto: PrototypeIndex(0) },
            load(2, 1),
            OpCode::Call { func: r(1), args: VarCount::Constant(1), returns: VarCount::Constant(0) },
            ret(0, 1),
        ],
        vec![Constant::Integer(1), Constant::Integer(7)],
        0,
        3,
    );
    outer.prototypes = vec![setter];
    let outer = closure_of(&mut heap, outer);
    assert_eq!(run_on(&mut heap, outer, &[]), Ok(vec![Value::Integer(7)]));
}

#[test]
fn tables_through_upvalues() {
    let mut heap = Heap::new();
    let table = heap.add_table();
    let cell = heap.add_upvalue(UpValue::Closed(Value::Table(table)));
    let pid = heap.add_prototype(proto(
        vec![
            OpCode::SetUpTable { table: UpValueIndex(0), key: k(0), value: k(1) },
            OpCode::GetUpTable { dest: r(0), table: UpValueIndex(0), key: k(0) },
            ret(0, 1),
        ],
        vec![Constant::Integer(1), Constant::Integer(10)],
        0,
        1,
    ));
    let cid = heap.add_closure(pid, vec![cell]);
    assert_eq!(run_on(&mut heap, Value::Function(Function::Closure(cid)), &[]), Ok(vec![Value::Integer(10)]));
    assert_eq!(heap.tables[table].get(&heap.strings, Value::Integer(1)), Value::Integer(10));
}

#[test]
fn an_error_of_the_embedder_unwinds_the_thread_and_closes_its_upvalues() {
    let mut heap = Heap::new();
    let mut getter = proto(vec![OpCode::GetUpValue { dest: r(0), source: UpValueIndex(0) }, ret(0, 1)], vec![], 0, 1);
    getter.upvalues = vec![UpValueDescriptor::ParentLocal(r(1))];
    let getter = heap.add_prototype(getter);
    // local x = 4; g = function() return x end; raise(g)
    let mut outer = proto(
        vec![
            load(1, 0),
            OpCode::Move { dest: r(2), source: r(0) },
            OpCode::Closure { dest: r(3), proto: PrototypeIndex(0) },
            OpCode::Call { func: r(2), args: VarCount::Constant(1), returns: VarCount::Constant(0) },
            ret(0, 0),
        ],
        vec![Constant::Integer(4)],
        1,
        4,
    );
    outer.prototypes = vec![getter];
    let outer = closure_of(&mut heap, outer);
    let raised = run_on(&mut heap, outer, &[host(1)]).unwrap_err();
    let g = match raised {
        VmError::User(g) => g,
        other => panic!("{:?}", other),
    };
    assert_eq!(run_on(&mut heap, g, &[]), Ok(vec![Value::Integer(4)]));
    for cell in &heap.upvalues {
        assert!(matches!(cell, UpValue::Closed(_)));
    }
}

#[test]
fn the_embedder_calls_back_and_the_caller_keeps_its_registers() {
    let mut heap = Heap::new();
    let double = closure_of(
        &mut heap,
        proto(vec![OpCode::Binary { operator: BinaryOperator::Add, dest: r(0), left: reg(0), right: reg(0) }, ret(0, 1)], vec![], 1, 1),
    );
    // local a, b = host(3), 100 in high registers; return a, r9
    let main = closure_of(
        &mut heap,
        proto(
            vec![
                load(9, 1),
                OpCode::Move { dest: r(1), source: r(0) },
                load(2, 0),
                OpCode::Call { func: r(1), args: VarCount::Constant(1), returns: VarCount::Constant(1) },
                OpCode::Move { dest: r(2), source: r(9) },
                ret(1, 2),
            ],
            vec![Constant::Integer(3), Constant::Integer(100)],
            1,
            10,
        ),
    );
    let t = heap.add_thread(Thread::new(50));
    assert_eq!(heap.start(t, main, &vec![host(5)]), None);
    heap.resume(t, 100);
    assert_eq!(heap.pending(t), Pending::Host(HostCall::Function(5)));
    let args = heap.threads[t].host_arguments().unwrap();
    assert_eq!(args, vec![Value::Integer(3)]);
    // the host function calls `double` on its argument
    let depth = heap.threads[t].frames.len();
    let at = heap.threads[t].stack.len();
    assert_eq!(heap.call_back(t, double, &args), None);
    assert_eq!(heap.threads[t].frames.len(), depth + 1);
    heap.resume(t, 100);
    assert_eq!(heap.pending(t), Pending::Host(HostCall::Function(5)));
    assert_eq!(heap.threads[t].frames.len(), depth);
    let results = heap.threads[t].stack[at..].to_vec();
    assert_eq!(results, vec![Value::Integer(6)]);
    assert_eq!(heap.host_return(t, &results), None);
    heap.resume(t, 100);
    assert_eq!(heap.pending(t), Pending::Finished);
    assert_eq!(heap.threads[t].stack, vec![Value::Integer(6), Value::Integer(100)]);
}

#[test]
fn a_call_back_of_what_is_no_function_changes_nothing() {
    let mut heap = Heap::new();
    let t = heap.add_thread(Thread::new(50));
    heap.threads[t].stack = vec![Value::Integer(1)];
    assert_eq!(heap.call_back(t, Value::Integer(2), &vec![Value::Integer(3)]), Some(VmError::Call(TypeName::Number)));
    assert_eq!(heap.threads[t].stack, vec![Value::Integer(1)]);
    assert!(heap.threads[t].frames.is_empty());
}

#[test]
fn host_return_without_a_host_frame_fails() {
    let mut heap = Heap::new();
    let t = heap.add_thread(Thread::new(50));
    assert_eq!(heap.host_return(t, &vec![]), Some(VmError::Integrity(IntegrityError::Frame)));
    assert_eq!(heap.host_return(t + 1, &vec![]), Some(VmError::Integrity(IntegrityError::Reference)));
    assert_eq!(heap.threads[t].host_call(), None);
    assert_eq!(heap.threads[t].host_arguments(), None);
}

#[test]
fn stepping_one_opcode_at_a_time() {
    let mut heap = Heap::new();
    let f = closure_of(&mut heap, proto(vec![load(0, 0), ret(0, 1)], vec![Constant::Integer(3)], 0, 1));
    let t = heap.add_thread(Thread::new(5));
    assert_eq!(heap.start(t, f, &vec![]), None);
    assert_eq!(run_vm(&mut heap, t, 0), Ok(0));
    assert_eq!(step(&mut heap, t), Flow::Continue);
    assert_eq!(step(&mut heap, t), Flow::Changed);
    assert_eq!(step(&mut heap, t), Flow::Failed(VmError::Integrity(IntegrityError::Frame)));
    assert_eq!(heap.threads[t].status, ThreadStatus::Finished);
    assert_eq!(heap.pending(t), Pending::Finished);
    assert_eq!(heap.resume(t, 5), 5);
}

#[test]
fn a_thread_that_yields_waits_to_be_woken() {
    let mut heap = Heap::new();
    // return host0(1) + 1
    let f = closure_of(
        &mut heap,
        proto(
            vec![
                OpCode::Move { dest: r(1), source: r(0) },
                load(2, 0),
                OpCode::Call { func: r(1), args: VarCount::Constant(1), returns: VarCount::Constant(1) },
                OpCode::Binary { operator: BinaryOperator::Add, dest: r(1), left: reg(1), right: k(0) },
                ret(1, 1),
            ],
            vec![Constant::Integer(1)],
            1,
            3,
        ),
    );
    let t = heap.add_thread(Thread::new(5));
    assert_eq!(heap.pending(t), Pending::Idle);
    assert_eq!(heap.start(t, f, &vec![host(0)]), None);
    assert_eq!(heap.pending(t), Pending::Budget);
    heap.resume(t, 100);
    assert_eq!(heap.pending(t), Pending::Host(HostCall::Function(0)));
    // the host function yields: the thread waits, and does not run
    heap.threads[t].status = ThreadStatus::Suspended;
    assert_eq!(heap.pending(t), Pending::Suspended);
    assert_eq!(heap.resume(t, 100), 100);
    // it is woken with the value 41
    heap.threads[t].status = ThreadStatus::Running;
    assert_eq!(heap.host_return(t, &vec![Value::Integer(41)]), None);
    heap.resume(t, 100);
    assert_eq!(heap.pending(t), Pending::Finished);
    assert_eq!(heap.threads[t].stack, vec![Value::Integer(42)]);
}

#[test]
fn writes_of_references_invoke_the_write_barrier() {
    let mut heap = Heap::new();
    let text = heap.add_string(b"s".to_vec());
    let mut getter = proto(vec![OpCode::GetUpValue { dest: r(0), source: UpValueIndex(0) }, ret(0, 1)], vec![], 0, 1);
    getter.upvalues = vec![UpValueDescriptor::ParentLocal(r(0))];
    let getter = heap.add_prototype(getter);
    let mut setter = proto(vec![OpCode::SetUpValue { dest: UpValueIndex(0), source: r(0) }, ret(0, 0)], vec![], 1, 1);
    setter.upvalues = vec![UpValueDescriptor::ParentLocal(r(0))];
    let setter = heap.add_prototype(setter);
    let mut main = proto(
        vec![
            // r0 = {} (captured), r1 = {}
            OpCode::NewTable { dest: r(0) },
            OpCode::NewTable { dest: r(1) },
            // r1[1] = 2: no reference, no barrier
            OpCode::SetTable { table: r(1), key: k(0), value: k(1) },
            // r1[1] = r0 and r1["s"] = 1: the barrier on r1, twice
            OpCode::SetTable { table: r(1), key: k(0), value: reg(0) },
            OpCode::SetTable { table: r(1), key: k(2), value: k(0) },
            OpCode::Closure { dest: r(2), proto: PrototypeIndex(0) },
            OpCode::Closure { dest: r(3), proto: PrototypeIndex(1) },
            // the return closes the upvalue on r0, a table: the barrier on the cell
            ret(2, 2),
        ],
        vec![Constant::Integer(1), Constant::Integer(2), Constant::String(text)],
        0,
        4,
    );
    main.prototypes = vec![getter, setter];
    let main = closure_of(&mut heap, main);
    let got = run_on(&mut heap, main, &[]).unwrap();
    let cell = match got[0] {
        Value::Function(Function::Closure(c)) => heap.closures[c].upvalues[0],
        other => panic!("{:?}", other),
    };
    assert_eq!(heap.barrier, vec![Written::Table(1), Written::Table(1), Written::UpValue(cell)]);
    // a write of a reference through the closed cell: the barrier again
    heap.barrier.clear();
    assert_eq!(run_on(&mut heap, got[1], &[Value::Integer(5)]), Ok(vec![]));
    assert!(heap.barrier.is_empty());
    assert_eq!(run_on(&mut heap, got[1], &[Value::Table(0)]), Ok(vec![]));
    assert_eq!(heap.barrier, vec![Written::UpValue(cell)]);
    assert_eq!(run_on(&mut heap, got[0], &[]), Ok(vec![Value::Table(0)]));
}

#[test]
fn closing_twice_is_closing_once() {
    let mut thread = Thread::new(5);
    thread.stack = (0..6).map(Value::Integer).collect();
    let mut cells: Vec<UpValue> = Vec::new();
    // opened out of order, kept in order, one cell for each slot
    let c4 = open_upvalue(&mut thread, &mut cells, 0, 4);
    let c1 = open_upvalue(&mut thread, &mut cells, 0, 1);
    let c3 = open_upvalue(&mut thread, &mut cells, 0, 3);
    assert_eq!(open_upvalue(&mut thread, &mut cells, 0, 1), c1);
    assert_eq!(open_upvalue(&mut thread, &mut cells, 0, 4), c4);
    assert_eq!(cells.len(), 3);
    let slots: Vec<usize> = thread.open_upvalues.iter().map(|e| e.index).collect();
    assert_eq!(slots, vec![1, 3, 4]);
    assert_eq!(cells[c3], UpValue::Open { thread: 0, index: 3 });

    close_upvalues(&mut thread, &mut cells, 3);
    let once = (thread.open_upvalues.clone(), cells.clone());
    assert_eq!(cells[c3], UpValue::Closed(Value::Integer(3)));
    assert_eq!(cells[c4], UpValue::Closed(Value::Integer(4)));
    assert_eq!(cells[c1], UpValue::Open { thread: 0, index: 1 });
    assert_eq!(thread.open_upvalues.len(), 1);
    // a later write to the slot does not reach the closed cell
    thread.stack[3] = Value::Integer(33);
    close_upvalues(&mut thread, &mut cells, 3);
    assert_eq!((thread.open_upvalues.clone(), cells.clone()), once);
    close_upvalues(&mut thread, &mut cells, 5);
    assert_eq!((thread.open_upvalues.clone(), cells.clone()), once);
    // a new upvalue on a closed slot is a new cell
    let again = open_upvalue(&mut thread, &mut cells, 0, 3);
    assert_ne!(again, c3);
    assert_eq!(cells[again], UpValue::Open { thread: 0, index: 3 });
    close_upvalues(&mut thread, &mut cells, 0);
    assert!(thread.open_upvalues.is_empty());
    assert_eq!(cells[again], UpValue::Closed(Value::Integer(33)));
    assert_eq!(cells[c1], UpValue::Closed(Value::Integer(1)));
    assert_eq!(cells[c3], UpValue::Closed(Value::Integer(3)));
}

#[test]
fn a_host_frame_catches_the_error_of_what_it_called() {
    let mut heap = Heap::new();
    // the function that fails: it calls nil, with an open upvalue around
    let mut inner = proto(vec![ret(0, 0)], vec![], 0, 1);
    inner.upvalues = vec![UpValueDescriptor::ParentLocal(r(0))];
    let inner = heap.add_prototype(inner);
    let mut failing = proto(
        vec![
            OpCode::Closure { dest: r(1), proto: PrototypeIndex(0) },
            OpCode::Call { func: r(2), args: VarCount::Constant(0), returns: VarCount::Constant(0) },
            ret(0, 0),
        ],
        vec![],
        1,
        3,
    );
    failing.prototypes = vec![inner];
    let failing = closure_of(&mut heap, failing);
    // return protect(failing), 7
    let main = closure_of(
        &mut heap,
        proto(
            vec![
                OpCode::Move { dest: r(2), source: r(0) },
                OpCode::Move { dest: r(3), source: r(1) },
                OpCode::Call { func: r(2), args: VarCount::Constant(1), returns: VarCount::Constant(1) },
                load(3, 0),
                ret(2, 2),
            ],
            vec![Constant::Integer(7)],
            2,
            4,
        ),
    );
    let t = heap.add_thread(Thread::new(50));
    assert_eq!(heap.start(t, main, &vec![host(9), failing]), None);
    heap.resume(t, 100);
    assert_eq!(heap.pending(t), Pending::Host(HostCall::Function(9)));
    let args = heap.threads[t].host_arguments().unwrap();
    assert_eq!(heap.call_back(t, args[0], &vec![Value::Integer(1)]), None);
    let depth = heap.threads[t].frames.len();
    heap.resume(t, 100);
    // the frame of the function that failed is gone, its upvalue closed
    assert_eq!(heap.pending(t), Pending::Failed(VmError::Call(TypeName::Nil)));
    assert_eq!(heap.threads[t].frames.len(), depth - 1);
    assert_eq!(heap.threads[t].host_call(), Some(HostCall::Function(9)));
    assert!(heap.threads[t].open_upvalues.is_empty());
    assert_eq!(heap.upvalues.last(), Some(&UpValue::Closed(Value::Integer(1))));
    assert_eq!(heap.threads[t].status, ThreadStatus::Running);
    assert_eq!(heap.resume(t, 100), 100);
    // the host function catches the error and returns false
    assert_eq!(heap.catch(t), Some(VmError::Call(TypeName::Nil)));
    assert_eq!(heap.catch(t), None);
    assert_eq!(heap.pending(t), Pending::Host(HostCall::Function(9)));
    assert_eq!(heap.host_return(t, &vec![Value::Boolean(false)]), None);
    heap.resume(t, 100);
    assert_eq!(heap.pending(t), Pending::Finished);
    assert_eq!(heap.threads[t].stack, vec![Value::Boolean(false), Value::Integer(7)]);
}

#[test]
fn tail_calls_return_to_the_caller_of_the_caller() {
    let mut heap = Heap::new();
    // function g(a) return a, a end; function f(g) return g(5) end
    let g = closure_of(&mut heap, proto(vec![OpCode::Move { dest: r(1), source: r(0) }, ret(0, 2)], vec![], 1, 2));
    let f = closure_of(
        &mut heap,
        proto(
            vec![OpCode::Move { dest: r(1), source: r(0) }, load(2, 0), OpCode::TailCall { func: r(1), args: VarCount::Constant(1) }],
            vec![Constant::Integer(5)],
            1,
            3,
        ),
    );
    assert_eq!(run_on(&mut heap, f, &[g]), Ok(vec![Value::Integer(5), Value::Integer(5)]));
    // a tail call of a host function
    assert_eq!(run_on(&mut heap, f, &[host(0)]), Ok(vec![Value::Integer(5)]));
}
