use luster::driver::Pending;
use luster::error::{BinaryOperatorError, IntegrityError, VmError};
use luster::opcode::{
    BinaryOperator, Comparison, ConstantIndex, OpCode, Operand, PrototypeIndex, RegisterIndex,
    UpValueDescriptor, UpValueIndex, VarCount,
};
use luster::state::{Frame, Heap, HostCall, Prototype, Thread, ThreadStatus, UpValue};
use luster::value::{Constant, Function, TypeName, Value};
use luster::vm::{
    add_offset, get_table, index, new_index, run_vm, BinaryOperatorError as VmBinaryOperatorError,
    Flow,
};

fn integer(i: i64) -> Constant {
    Constant::Integer(i)
}

fn r(i: u8) -> RegisterIndex {
    RegisterIndex(i)
}

fn k(i: u16) -> Operand {
    Operand::Constant(ConstantIndex(i))
}

fn reg(i: u8) -> Operand {
    Operand::Register(RegisterIndex(i))
}

fn proto(opcodes: Vec<OpCode>, constants: Vec<Constant>, fixed_params: u8, stack_size: u16) -> Prototype {
    Prototype {
        opcodes,
        constants,
        prototypes: Vec::new(),
        upvalues: Vec::new(),
        fixed_params,
        has_varargs: false,
        stack_size,
    }
}

/// Runs a thread to its end, carrying out what it asks of the embedder
/// in `f64` arithmetic.
fn drive(heap: &mut Heap, t: usize) -> Pending {
    loop {
        heap.resume(t, 1000);
        match heap.pending(t) {
            Pending::Budget => {}
            Pending::Host(call) => {
                let args = heap.threads[t].host_arguments().unwrap();
                let results = host(heap, call, &args);
                assert_eq!(heap.host_return(t, &results), None);
            }
            other => return other,
        }
    }
}

fn number(heap: &Heap, v: Value) -> f64 {
    match v {
        Value::Integer(i) => i as f64,
        Value::Number(bits) => f64::from_bits(bits),
        Value::String(s) => String::from_utf8(heap.strings[s].clone()).unwrap().parse().unwrap(),
        _ => panic!("not a number"),
    }
}

fn host(heap: &mut Heap, call: HostCall, args: &[Value]) -> Vec<Value> {
    match call {
        HostCall::Arithmetic(op) => {
            let (a, b) = (number(heap, args[0]), number(heap, args[1]));
            let x = match op {
                BinaryOperator::Add => a + b,
                BinaryOperator::Subtract => a - b,
                BinaryOperator::Multiply => a * b,
                BinaryOperator::FloatDivide => a / b,
                BinaryOperator::FloorDivide => (a / b).floor(),
                BinaryOperator::Modulo => a - (a / b).floor() * b,
                BinaryOperator::Exponentiate => a.powf(b),
                _ => unreachable!(),
            };
            vec![Value::Number(x.to_bits())]
        }
        HostCall::ForLoop => {
            let (i, l, s) = (number(heap, args[0]), number(heap, args[1]), number(heap, args[2]));
            vec![
                Value::Number((i + s).to_bits()),
                Value::Number(l.to_bits()),
                Value::Number(s.to_bits()),
            ]
        }
        HostCall::Concat => {
            let mut text = Vec::new();
            for v in args {
                match *v {
                    Value::String(s) => text.extend_from_slice(&heap.strings[s]),
                    Value::Integer(i) => text.extend_from_slice(format!("{}", i).as_bytes()),
                    Value::Number(b) => {
                        text.extend_from_slice(format!("{:?}", f64::from_bits(b)).as_bytes())
                    }
                    _ => unreachable!(),
                }
            }
            vec![Value::String(heap.add_string(text))]
        }
        HostCall::Function(0) => {
            // table.insert(t, v)
            let id = get_table(args[0]).unwrap();
            let n = heap.tables[id].length(&heap.strings);
            assert_eq!(new_index(heap, args[0], Value::Integer(n + 1), args[1]), Flow::Continue);
            assert_eq!(index(heap, args[0], Value::Integer(n + 1)), Ok(args[1]));
            vec![]
        }
        HostCall::Function(_) => unreachable!(),
    }
}

fn closure_of(heap: &mut Heap, p: Prototype) -> Value {
    let pid = heap.add_prototype(p);
    let cid = heap.add_closure(pid, Vec::new());
    Value::Function(Function::Closure(cid))
}

fn run(heap: &mut Heap, f: Value, args: &[Value]) -> (usize, Pending) {
    let t = heap.add_thread(Thread::new(200));
    assert_eq!(heap.start(t, f, &args.to_vec()), None);
    let p = drive(heap, t);
    (t, p)
}

/// Evaluates one binary operator on two constants.
fn eval(op: BinaryOperator, a: Constant, b: Constant) -> Result<Value, VmError> {
    let mut heap = Heap::new();
    let f = closure_of(
        &mut heap,
        proto(
            vec![
                OpCode::Binary { operator: op, dest: r(0), left: k(0), right: k(1) },
                OpCode::Return { start: r(0), count: VarCount::Constant(1) },
            ],
            vec![a, b],
            0,
            1,
        ),
    );
    let (t, p) = run(&mut heap, f, &[]);
    match p {
        Pending::Finished => Ok(heap.threads[t].stack[0]),
        Pending::Failed(e) => Err(e),
        other => panic!("{:?}", other),
    }
}

#[test]
fn integer_arithmetic_wraps_and_floors() {
    assert_eq!(eval(BinaryOperator::Add, integer(2), integer(3)), Ok(Value::Integer(5)));
    assert_eq!(eval(BinaryOperator::Add, integer(i64::MAX), integer(1)), Ok(Value::Integer(i64::MIN)));
    assert_eq!(eval(BinaryOperator::Subtract, integer(i64::MIN), integer(1)), Ok(Value::Integer(i64::MAX)));
    assert_eq!(eval(BinaryOperator::Multiply, integer(i64::MAX), integer(2)), Ok(Value::Integer(-2)));
    assert_eq!(eval(BinaryOperator::FloorDivide, integer(7), integer(2)), Ok(Value::Integer(3)));
    assert_eq!(eval(BinaryOperator::FloorDivide, integer(-7), integer(2)), Ok(Value::Integer(-4)));
    assert_eq!(eval(BinaryOperator::FloorDivide, integer(7), integer(-2)), Ok(Value::Integer(-4)));
    assert_eq!(eval(BinaryOperator::FloorDivide, integer(-7), integer(-2)), Ok(Value::Integer(3)));
    assert_eq!(eval(BinaryOperator::FloorDivide, integer(i64::MIN), integer(-1)), Ok(Value::Integer(i64::MIN)));
    assert_eq!(eval(BinaryOperator::Modulo, integer(7), integer(3)), Ok(Value::Integer(1)));
    assert_eq!(eval(BinaryOperator::Modulo, integer(-7), integer(3)), Ok(Value::Integer(2)));
    assert_eq!(eval(BinaryOperator::Modulo, integer(7), integer(-3)), Ok(Value::Integer(-2)));
    assert_eq!(eval(BinaryOperator::Modulo, integer(-7), integer(-3)), Ok(Value::Integer(-1)));
    assert_eq!(eval(BinaryOperator::Modulo, integer(i64::MIN), integer(-1)), Ok(Value::Integer(0)));
    assert_eq!(eval(BinaryOperator::Modulo, integer(6), integer(3)), Ok(Value::Integer(0)));
}

#[test]
fn integer_division_by_zero_fails() {
    assert_eq!(
        eval(BinaryOperator::FloorDivide, integer(1), integer(0)),
        Err(VmError::BinaryOperator(BinaryOperatorError::FloorDivide))
    );
    assert_eq!(
        eval(BinaryOperator::Modulo, integer(1), integer(0)),
        Err(VmError::BinaryOperator(BinaryOperatorError::Modulo))
    );
}

#[test]
fn float_divide_and_power_always_give_numbers() {
    assert_eq!(
        eval(BinaryOperator::FloatDivide, integer(6), integer(3)),
        Ok(Value::Number(2.0f64.to_bits()))
    );
    assert_eq!(
        eval(BinaryOperator::Exponentiate, integer(2), integer(10)),
        Ok(Value::Number(1024.0f64.to_bits()))
    );
    assert_eq!(
        eval(BinaryOperator::Add, integer(1), Constant::Number(0.5f64.to_bits())),
        Ok(Value::Number(1.5f64.to_bits()))
    );
}

#[test]
fn bitwise_operators_and_shifts() {
    assert_eq!(eval(BinaryOperator::BitAnd, integer(0b1100), integer(0b1010)), Ok(Value::Integer(0b1000)));
    assert_eq!(eval(BinaryOperator::BitOr, integer(0b1100), integer(0b1010)), Ok(Value::Integer(0b1110)));
    assert_eq!(eval(BinaryOperator::BitXor, integer(0b1100), integer(0b1010)), Ok(Value::Integer(0b0110)));
    assert_eq!(eval(BinaryOperator::ShiftLeft, integer(1), integer(4)), Ok(Value::Integer(16)));
    assert_eq!(eval(BinaryOperator::ShiftLeft, integer(1), integer(63)), Ok(Value::Integer(i64::MIN)));
    assert_eq!(eval(BinaryOperator::ShiftLeft, integer(1), integer(64)), Ok(Value::Integer(0)));
    assert_eq!(eval(BinaryOperator::ShiftRight, integer(-1), integer(1)), Ok(Value::Integer(i64::MAX)));
    assert_eq!(eval(BinaryOperator::ShiftRight, integer(16), integer(-2)), Ok(Value::Integer(64)));
    assert_eq!(eval(BinaryOperator::ShiftLeft, integer(16), integer(-2)), Ok(Value::Integer(4)));
    assert_eq!(eval(BinaryOperator::ShiftRight, integer(16), integer(64)), Ok(Value::Integer(0)));
    assert_eq!(eval(BinaryOperator::ShiftRight, integer(16), integer(i64::MIN)), Ok(Value::Integer(0)));
    assert_eq!(
        eval(BinaryOperator::BitAnd, Constant::Number(3.0f64.to_bits()), integer(1)),
        Ok(Value::Integer(1))
    );
    assert_eq!(
        eval(BinaryOperator::BitAnd, Constant::Number(3.5f64.to_bits()), integer(1)),
        Err(VmError::BinaryOperator(BinaryOperatorError::BitAnd))
    );
}

#[test]
fn ill_typed_operands_fail_with_the_operator() {
    assert_eq!(
        eval(BinaryOperator::Add, Constant::Nil, Constant::Integer(1)),
        Err(VmError::BinaryOperator(BinaryOperatorError::Add))
    );
    assert_eq!(
        eval(BinaryOperator::Exponentiate, Constant::Boolean(true), Constant::Integer(1)),
        Err(VmError::BinaryOperator(BinaryOperatorError::Exponentiate))
    );
}

#[test]
fn upvalue_sharing() {
    let mut heap = Heap::new();
    let mut setter = proto(
        vec![
            OpCode::SetUpValue { dest: UpValueIndex(0), source: r(0) },
            OpCode::Return { start: r(0), count: VarCount::Constant(0) },
        ],
        vec![],
        1,
        1,
    );
    setter.upvalues = vec![UpValueDescriptor::ParentLocal(r(0))];
    let mut getter = proto(
        vec![
            OpCode::GetUpValue { dest: r(0), source: UpValueIndex(0) },
            OpCode::Return { start: r(0), count: VarCount::Constant(1) },
        ],
        vec![],
        0,
        1,
    );
    getter.upvalues = vec![UpValueDescriptor::ParentLocal(r(0))];
    let setter = heap.add_prototype(setter);
    let getter = heap.add_prototype(getter);
    let mut outer = proto(
        vec![
            OpCode::LoadConstant { dest: r(0), constant: ConstantIndex(0) },
            OpCode::Closure { dest: r(1), proto: PrototypeIndex(0) },
            OpCode::Closure { dest: r(2), proto: PrototypeIndex(1) },
            OpCode::Return { start: r(1), count: VarCount::Constant(2) },
        ],
        vec![Constant::Integer(1)],
        0,
        3,
    );
    outer.prototypes = vec![setter, getter];
    let outer = closure_of(&mut heap, outer);
    let (t, p) = run(&mut heap, outer, &[]);
    assert_eq!(p, Pending::Finished);
    assert_eq!(heap.threads[t].status, ThreadStatus::Finished);
    assert_eq!(heap.threads[t].stack.len(), 2);
    let (set, get) = (heap.threads[t].stack[0], heap.threads[t].stack[1]);
    let (set_id, get_id) = match (set, get) {
        (Value::Function(Function::Closure(a)), Value::Function(Function::Closure(b))) => (a, b),
        _ => panic!("two closures expected"),
    };
    // One cell, shared, closed on the value at the moment of the return.
    assert_eq!(heap.closures[set_id].upvalues, heap.closures[get_id].upvalues);
    let cell = heap.closures[set_id].upvalues[0];
    assert_eq!(heap.upvalues[cell], UpValue::Closed(Value::Integer(1)));
    assert!(heap.threads[t].open_upvalues.is_empty());

    let (reader, read) = run(&mut heap, get, &[]);
    assert_eq!(read, Pending::Finished);
    assert_eq!(heap.threads[reader].stack, vec![Value::Integer(1)]);
    let (_, written) = run(&mut heap, set, &[Value::Integer(42)]);
    assert_eq!(written, Pending::Finished);
    let (again, read_again) = run(&mut heap, get, &[]);
    assert_eq!(read_again, Pending::Finished);
    assert_eq!(heap.threads[again].stack, vec![Value::Integer(42)]);
}

#[test]
fn numeric_for_with_float_step() {
    let mut heap = Heap::new();
    let f = closure_of(
        &mut heap,
        proto(
            vec![
                OpCode::NewTable { dest: r(0) },
                OpCode::LoadConstant { dest: r(1), constant: ConstantIndex(0) },
                OpCode::LoadConstant { dest: r(2), constant: ConstantIndex(1) },
                OpCode::LoadConstant { dest: r(3), constant: ConstantIndex(2) },
                OpCode::NumericForPrep { base: r(1), jump: 4 },
                // body: insert(t, i)
                OpCode::LoadConstant { dest: r(5), constant: ConstantIndex(3) },
                OpCode::Move { dest: r(6), source: r(0) },
                OpCode::Move { dest: r(7), source: r(4) },
                OpCode::Call { func: r(5), args: VarCount::Constant(2), returns: VarCount::Constant(0) },
                OpCode::NumericForLoop { base: r(1), jump: -5 },
                OpCode::Return { start: r(0), count: VarCount::Constant(1) },
            ],
            vec![
                Constant::Integer(1),
                Constant::Integer(3),
                Constant::Number(0.5f64.to_bits()),
                Constant::Nil,
            ],
            0,
            8,
        ),
    );
    // The constant pool cannot hold a function: the host function is put
    // into the register by hand instead, in place of the `Nil` constant.
    let t = heap.add_thread(Thread::new(200));
    assert_eq!(heap.start(t, f, &vec![]), None);
    loop {
        // keep register 5 loaded with the host function
        heap.resume(t, 1);
        if let Some(Frame::Script(frame)) = heap.threads[t].top_frame() {
            if frame.pc == 6 {
                let base = frame.base;
                heap.threads[t].stack[base + 5] = Value::Function(Function::Host(0));
            }
        }
        match heap.pending(t) {
            Pending::Budget => {}
            Pending::Host(call) => {
                let args = heap.threads[t].host_arguments().unwrap();
                let results = host(&mut heap, call, &args);
                assert_eq!(heap.host_return(t, &results), None);
            }
            Pending::Finished => break,
            other => panic!("{:?}", other),
        }
    }
    let table = get_table(heap.threads[t].stack[0]).unwrap();
    let got: Vec<f64> = (1..=5)
        .map(|i| match heap.tables[table].get(&heap.strings, Value::Integer(i)) {
            Value::Number(b) => f64::from_bits(b),
            other => panic!("{:?}", other),
        })
        .collect();
    assert_eq!(got, vec![1.0, 1.5, 2.0, 2.5, 3.0]);
    assert_eq!(heap.tables[table].length(&heap.strings), 5);
    assert_eq!(heap.tables[table].get(&heap.strings, Value::Integer(6)), Value::Nil);
}

fn float_loop(start: f64, limit: f64, step: f64) -> Vec<f64> {
    // for i = start, limit, step do t[#t + 1] = i end
    let mut heap = Heap::new();
    let f = closure_of(
        &mut heap,
        proto(
            vec![
                OpCode::NewTable { dest: r(0) },
                OpCode::LoadConstant { dest: r(1), constant: ConstantIndex(0) },
                OpCode::LoadConstant { dest: r(2), constant: ConstantIndex(1) },
                OpCode::LoadConstant { dest: r(3), constant: ConstantIndex(2) },
                OpCode::NumericForPrep { base: r(1), jump: 3 },
                OpCode::Length { dest: r(5), source: r(0) },
                OpCode::Binary { operator: BinaryOperator::Add, dest: r(5), left: reg(5), right: k(3) },
                OpCode::SetTable { table: r(0), key: reg(5), value: reg(4) },
                OpCode::NumericForLoop { base: r(1), jump: -4 },
                OpCode::Return { start: r(0), count: VarCount::Constant(1) },
            ],
            vec![
                Constant::Number(start.to_bits()),
                Constant::Number(limit.to_bits()),
                Constant::Number(step.to_bits()),
                Constant::Integer(1),
            ],
            0,
            6,
        ),
    );
    let (t, p) = run(&mut heap, f, &[]);
    assert_eq!(p, Pending::Finished);
    let table = get_table(heap.threads[t].stack[0]).unwrap();
    let n = heap.tables[table].length(&heap.strings);
    (1..=n)
        .map(|i| match heap.tables[table].get(&heap.strings, Value::Integer(i)) {
            Value::Number(b) => f64::from_bits(b),
            other => panic!("{:?}", other),
        })
        .collect()
}

#[test]
fn float_loops_stop_at_the_limit() {
    assert_eq!(float_loop(1.0, 3.0, 0.5), vec![1.0, 1.5, 2.0, 2.5, 3.0]);
    assert_eq!(float_loop(3.0, 1.0, -1.0), vec![3.0, 2.0, 1.0]);
    assert_eq!(float_loop(1.0, 1.0, 1.0), vec![1.0]);
    assert_eq!(float_loop(2.0, 1.0, 1.0), Vec::<f64>::new());
    assert_eq!(float_loop(0.0, 1.0, 0.4), vec![0.0, 0.4, 0.8]);
    assert_eq!(float_loop(1.0, 3.0, 0.0), Vec::<f64>::new());
    assert_eq!(float_loop(1.0, 3.0, f64::NAN), Vec::<f64>::new());
    assert_eq!(float_loop(1.0, f64::NAN, 1.0), Vec::<f64>::new());
}

fn countdown(heap: &mut Heap) -> Value {
    // function f(n) if n == 0 then return n else return f(n - 1) end end
    let pid = heap.add_prototype(proto(
        vec![
            OpCode::Compare { comparison: Comparison::Equal, skip_if: true, left: reg(0), right: k(0) },
            OpCode::Jump { offset: 1, close_upvalues: None },
            OpCode::Return { start: r(0), count: VarCount::Constant(1) },
            OpCode::GetUpValue { dest: r(1), source: UpValueIndex(0) },
            OpCode::Binary { operator: BinaryOperator::Subtract, dest: r(2), left: reg(0), right: k(1) },
            OpCode::TailCall { func: r(1), args: VarCount::Constant(1) },
        ],
        vec![Constant::Integer(0), Constant::Integer(1)],
        1,
        3,
    ));
    let cell = heap.add_upvalue(UpValue::Closed(Value::Nil));
    let cid = heap.add_closure(pid, vec![cell]);
    let f = Value::Function(Function::Closure(cid));
    heap.upvalues[cell] = UpValue::Closed(f);
    f
}

#[test]
fn tail_call_does_not_grow_stack() {
    let mut heap = Heap::new();
    let f = countdown(&mut heap);
    let t = heap.add_thread(Thread::new(200));
    assert_eq!(heap.start(t, f, &vec![Value::Integer(1_000_000)]), None);
    let mut deepest = 0;
    let mut longest = 0;
    loop {
        heap.resume(t, 997);
        deepest = deepest.max(heap.threads[t].frames.len());
        longest = longest.max(heap.threads[t].stack.len());
        match heap.pending(t) {
            Pending::Budget => {}
            Pending::Finished => break,
            other => panic!("{:?}", other),
        }
    }
    assert!(deepest <= 2);
    assert!(longest <= 8);
    assert_eq!(heap.threads[t].stack, vec![Value::Integer(0)]);
}

#[test]
fn budget_may_be_spent_in_parts() {
    // The same program, run on one large budget and opcode by opcode.
    let mut whole = Heap::new();
    let f = countdown(&mut whole);
    let t = whole.add_thread(Thread::new(200));
    assert_eq!(whole.start(t, f, &vec![Value::Integer(50)]), None);
    let left = whole.resume(t, 10_000);

    let mut parts = Heap::new();
    let g = countdown(&mut parts);
    let u = parts.add_thread(Thread::new(200));
    assert_eq!(parts.start(u, g, &vec![Value::Integer(50)]), None);
    let mut spent = 0;
    while parts.pending(u) == Pending::Budget {
        assert_eq!(parts.resume(u, 1), 0);
        spent += 1;
    }
    assert_eq!(10_000 - left, spent);
    assert_eq!(whole.threads[t].stack, parts.threads[u].stack);
    assert_eq!(whole.pending(t), Pending::Finished);
    assert_eq!(parts.pending(u), Pending::Finished);
    // 50 rounds of 5 opcodes, and 2 for the last call
    assert_eq!(spent, 50 * 5 + 2);
}

#[test]
fn run_vm_returns_when_the_frame_changes() {
    let mut heap = Heap::new();
    let f = countdown(&mut heap);
    let t = heap.add_thread(Thread::new(200));
    assert_eq!(heap.start(t, f, &vec![Value::Integer(3)]), None);
    // Compare, Jump, GetUpValue, Subtract, TailCall: the fifth changes the frame.
    assert_eq!(run_vm(&mut heap, t, 100), Ok(95));
    assert_eq!(run_vm(&mut heap, t, 3), Ok(0));
    assert_eq!(run_vm(&mut heap, t, 100), Ok(98));
}

#[test]
fn run_vm_on_a_thread_without_script_frame_fails() {
    let mut heap = Heap::new();
    let t = heap.add_thread(Thread::new(200));
    assert_eq!(run_vm(&mut heap, t, 1), Err(VmError::Integrity(IntegrityError::Frame)));
    assert_eq!(run_vm(&mut heap, 7, 1), Err(VmError::Integrity(IntegrityError::Reference)));
}

#[test]
fn offsets_move_the_program_counter() {
    assert_eq!(add_offset(10, 5), 15);
    assert_eq!(add_offset(10, -10), 0);
    assert_eq!(add_offset(10, 0), 10);
    assert_eq!(add_offset(0, i16::MAX), 32767);
    assert_eq!(add_offset(40000, i16::MIN), 40000 - 32768);
}

#[test]
fn only_tables_are_tables() {
    assert_eq!(get_table(Value::Table(3)), Ok(3));
    assert_eq!(
        get_table(Value::Integer(3)),
        Err(VmError::Type { expected: TypeName::Table, found: TypeName::Number })
    );
    assert_eq!(
        get_table(Value::Nil),
        Err(VmError::Type { expected: TypeName::Table, found: TypeName::Nil })
    );
}

#[test]
fn operator_error_messages() {
    assert_eq!(VmBinaryOperatorError::Add.message(), "cannot add values");
    assert_eq!(VmBinaryOperatorError::UnaryNegate.message(), "cannot negate value");
    assert_eq!(VmBinaryOperatorError::LessEqual.message(), "cannot compare values with <=");
    assert_eq!(VmBinaryOperatorError::ShiftLeft.message(), "cannot shift value left");
}
