use luster::opcode::{
    BinaryOperator, Comparison, ConstantIndex, OpCode, Operand, PrototypeIndex, RegisterIndex,
    UpValueDescriptor, UpValueIndex, VarCount,
};
use luster::state::Prototype;
use luster::value::Constant;

fn r(i: u8) -> RegisterIndex {
    RegisterIndex(i)
}

fn ret(start: u8, count: u8) -> OpCode {
    OpCode::Return { start: r(start), count: VarCount::Constant(count) }
}

/// A prototype with four registers, two constants, one upvalue and one
/// nested prototype.
fn proto(opcodes: Vec<OpCode>) -> Prototype {
    Prototype {
        opcodes,
        constants: vec![Constant::Integer(1), Constant::Nil],
        prototypes: vec![0],
        upvalues: vec![UpValueDescriptor::Environment],
        fixed_params: 0,
        has_varargs: false,
        stack_size: 4,
    }
}

fn fault(opcodes: Vec<OpCode>) -> Option<usize> {
    proto(opcodes).first_fault()
}

#[test]
fn a_prototype_that_keeps_the_rules_has_no_fault() {
    assert_eq!(
        fault(vec![
            OpCode::LoadConstant { dest: r(0), constant: ConstantIndex(1) },
            OpCode::Move { dest: r(3), source: r(0) },
            OpCode::LoadNil { dest: r(1), count: 3 },
            OpCode::GetUpValue { dest: r(0), source: UpValueIndex(0) },
            OpCode::Closure { dest: r(1), proto: PrototypeIndex(0) },
            OpCode::Compare {
                comparison: Comparison::Less,
                skip_if: true,
                left: Operand::Register(r(0)),
                right: Operand::Constant(ConstantIndex(0)),
            },
            OpCode::Jump { offset: -7, close_upvalues: Some(r(4)) },
            OpCode::Binary {
                operator: BinaryOperator::Add,
                dest: r(0),
                left: Operand::Register(r(0)),
                right: Operand::Register(r(1)),
            },
            OpCode::Call { func: r(1), args: VarCount::Constant(2), returns: VarCount::Variable },
            OpCode::Return { start: r(1), count: VarCount::Variable },
        ]),
        None
    );
    assert_eq!(fault(vec![ret(4, 0)]), None);
    assert_eq!(fault(vec![ret(0, 4)]), None);
}

#[test]
fn operands_outside_the_prototype_are_faults() {
    let faults: Vec<OpCode> = vec![
        OpCode::Move { dest: r(4), source: r(0) },
        OpCode::Move { dest: r(0), source: r(4) },
        OpCode::LoadConstant { dest: r(0), constant: ConstantIndex(2) },
        OpCode::LoadNil { dest: r(2), count: 3 },
        OpCode::GetUpValue { dest: r(0), source: UpValueIndex(1) },
        OpCode::SetUpValue { dest: UpValueIndex(1), source: r(0) },
        OpCode::Closure { dest: r(0), proto: PrototypeIndex(1) },
        OpCode::Call { func: r(2), args: VarCount::Constant(2), returns: VarCount::Constant(0) },
        OpCode::Call { func: r(2), args: VarCount::Constant(0), returns: VarCount::Constant(3) },
        OpCode::Concat { dest: r(0), source: r(2), count: 3 },
        OpCode::NumericForLoop { base: r(1), jump: 0 },
        OpCode::GenericForCall { base: r(0), var_count: 0 },
        OpCode::Method { base: r(3), table: r(0), key: Operand::Constant(ConstantIndex(0)) },
        OpCode::VarArgs { dest: r(0), count: VarCount::Constant(1) },
        OpCode::GetTable { dest: r(0), table: r(0), key: Operand::Constant(ConstantIndex(9)) },
        OpCode::Jump { offset: 0, close_upvalues: Some(r(5)) },
    ];
    for op in faults {
        assert_eq!(fault(vec![op, ret(0, 0)]), Some(0), "{:?}", op);
        assert_eq!(fault(vec![ret(0, 0), OpCode::NewTable { dest: r(0) }, op, ret(0, 0)]), Some(2));
    }
}

#[test]
fn opcodes_that_lead_nowhere_are_faults() {
    assert_eq!(fault(vec![]), None);
    // the last opcode falls off the end
    assert_eq!(fault(vec![OpCode::NewTable { dest: r(0) }]), Some(0));
    assert_eq!(fault(vec![ret(0, 0), OpCode::NewTable { dest: r(0) }]), Some(1));
    // jumps that land outside
    assert_eq!(fault(vec![OpCode::Jump { offset: 1, close_upvalues: None }, ret(0, 0)]), Some(0));
    assert_eq!(fault(vec![OpCode::Jump { offset: -2, close_upvalues: None }, ret(0, 0)]), Some(0));
    assert_eq!(fault(vec![OpCode::Jump { offset: -1, close_upvalues: None }]), None);
    assert_eq!(fault(vec![OpCode::Jump { offset: 0, close_upvalues: None }, ret(0, 0)]), None);
    // an opcode that may skip needs two opcodes after it
    assert_eq!(fault(vec![OpCode::Test { value: r(0), is_true: true }, ret(0, 0)]), Some(0));
    assert_eq!(fault(vec![OpCode::Test { value: r(0), is_true: true }, ret(0, 0), ret(0, 0)]), None);
    assert_eq!(
        fault(vec![OpCode::LoadBool { dest: r(0), value: true, skip_next: true }, ret(0, 0)]),
        Some(0)
    );
    assert_eq!(
        fault(vec![OpCode::LoadBool { dest: r(0), value: true, skip_next: false }, ret(0, 0)]),
        None
    );
}

#[test]
fn a_variable_number_of_values_must_be_taken_at_once() {
    let all = OpCode::Call { func: r(0), args: VarCount::Constant(0), returns: VarCount::Variable };
    assert_eq!(fault(vec![all, OpCode::Return { start: r(0), count: VarCount::Variable }]), None);
    assert_eq!(fault(vec![all, OpCode::NewTable { dest: r(0) }, ret(0, 0)]), Some(0));
    assert_eq!(fault(vec![all]), Some(0));
    // nothing was left for the return to take
    assert_eq!(fault(vec![OpCode::Return { start: r(0), count: VarCount::Variable }]), Some(0));
    assert_eq!(
        fault(vec![OpCode::NewTable { dest: r(0) }, OpCode::TailCall { func: r(0), args: VarCount::Variable }]),
        Some(1)
    );
    let mut p = proto(vec![
        OpCode::VarArgs { dest: r(1), count: VarCount::Variable },
        OpCode::Call { func: r(0), args: VarCount::Variable, returns: VarCount::Constant(1) },
        ret(0, 1),
    ]);
    assert_eq!(p.first_fault(), Some(0));
    p.has_varargs = true;
    assert_eq!(p.first_fault(), None);
}
