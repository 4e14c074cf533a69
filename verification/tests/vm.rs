use calculator::bytecode::{Bytecode, Instruction, Opcode};
use calculator::vm::{Vm, VmError};

fn machine_arith(op: Opcode, a: u64, b: u64) -> u64 {
    let (a, b) = (f64::from_bits(a), f64::from_bits(b));
    let value = match op {
        Opcode::Add => a + b,
        Opcode::Subtract => a - b,
        Opcode::Multiply => a * b,
        Opcode::Divide => a / b,
        Opcode::Remainder => a % b,
        _ => unreachable!(),
    };
    value.to_bits()
}

fn binary_program(op: Opcode, a: f64, b: f64) -> Bytecode {
    let mut bytecode = Bytecode::default();
    let first = bytecode.add_constant(a.to_bits());
    let second = bytecode.add_constant(b.to_bits());
    bytecode.write_opcode(Opcode::Constant);
    bytecode.write_byte(first as u8);
    bytecode.write_opcode(Opcode::Constant);
    bytecode.write_byte(second as u8);
    bytecode.write_opcode(op);
    bytecode.write_opcode(Opcode::Return);
    bytecode
}

fn run_binary(op: Opcode, a: f64, b: f64) -> f64 {
    let mut vm = Vm::new(binary_program(op, a, b));
    assert!(vm.can_run());
    f64::from_bits(vm.run(machine_arith).unwrap())
}

#[test]
fn opcode_encoding_is_stable() {
    let opcodes = [
        Opcode::Constant,
        Opcode::Pop,
        Opcode::Return,
        Opcode::Add,
        Opcode::Subtract,
        Opcode::Multiply,
        Opcode::Divide,
        Opcode::Remainder,
        Opcode::Negate,
    ];
    for (byte, opcode) in opcodes.iter().enumerate() {
        assert_eq!(opcode.to_byte(), byte as u8);
        assert_eq!(Opcode::try_from(byte as u8), Ok(*opcode));
    }
    for byte in 9..=255u8 {
        assert_eq!(Opcode::try_from(byte), Err(()));
    }
}

#[test]
fn bytecode_is_built_byte_by_byte() {
    let mut bytecode = Bytecode::default();
    assert_eq!(bytecode.add_constant(1.5f64.to_bits()), 0);
    assert_eq!(bytecode.add_constant(2.5f64.to_bits()), 1);
    bytecode.write_opcode(Opcode::Constant);
    bytecode.write_byte(1);
    bytecode.write_opcode(Opcode::Negate);
    assert_eq!(bytecode.as_ref(), &[0u8, 1, 8][..]);
    assert_eq!(f64::from_bits(bytecode.constant(0u8)), 1.5);
    assert_eq!(f64::from_bits(bytecode.constant(1usize)), 2.5);
}

#[test]
fn instructions_are_listed() {
    let bytecode = binary_program(Opcode::Add, 1.0, 2.0);
    let listed = bytecode.instructions().unwrap();
    assert_eq!(
        listed,
        vec![
            Instruction { opcode: Opcode::Constant, operand: Some(0) },
            Instruction { opcode: Opcode::Constant, operand: Some(1) },
            Instruction { opcode: Opcode::Add, operand: None },
            Instruction { opcode: Opcode::Return, operand: None },
        ]
    );
    assert_eq!(Bytecode::default().instructions(), Some(vec![]));
}

#[test]
fn malformed_streams_are_not_listed() {
    let mut unknown = Bytecode::default();
    unknown.write_opcode(Opcode::Pop);
    unknown.write_byte(9);
    assert_eq!(unknown.instructions(), None);

    let mut cut = Bytecode::default();
    cut.write_opcode(Opcode::Constant);
    assert_eq!(cut.instructions(), None);
}

#[test]
fn arithmetic_instructions() {
    assert_eq!(run_binary(Opcode::Add, 1.5, 2.25), 3.75);
    assert_eq!(run_binary(Opcode::Subtract, 10.0, 2.0), 8.0);
    assert_eq!(run_binary(Opcode::Subtract, 2.0, 10.0), -8.0);
    assert_eq!(run_binary(Opcode::Multiply, 6.0, 7.0), 42.0);
    assert_eq!(run_binary(Opcode::Divide, 1.0, 4.0), 0.25);
    assert_eq!(run_binary(Opcode::Remainder, 7.5, 2.0), 1.5);
    assert_eq!(run_binary(Opcode::Remainder, -7.5, 2.0), -1.5);
}

#[test]
fn division_by_zero_is_no_error() {
    assert_eq!(run_binary(Opcode::Divide, 1.0, 0.0), f64::INFINITY);
    assert_eq!(run_binary(Opcode::Divide, -1.0, 0.0), f64::NEG_INFINITY);
    assert!(run_binary(Opcode::Divide, 0.0, 0.0).is_nan());
    assert!(run_binary(Opcode::Remainder, 1.0, 0.0).is_nan());
}

#[test]
fn negate_flips_the_sign() {
    for value in [0.0, -0.0, 1.0, -2.5, f64::INFINITY, f64::MIN_POSITIVE, f64::NAN] {
        let mut bytecode = Bytecode::default();
        bytecode.add_constant(value.to_bits());
        bytecode.write_opcode(Opcode::Constant);
        bytecode.write_byte(0);
        bytecode.write_opcode(Opcode::Negate);
        bytecode.write_opcode(Opcode::Return);
        let mut vm = Vm::new(bytecode);
        let result = vm.run(machine_arith).unwrap();
        assert_eq!(result, (-value).to_bits());
    }
}

#[test]
fn pop_discards_the_top() {
    let mut bytecode = Bytecode::default();
    bytecode.add_constant(1.0f64.to_bits());
    bytecode.add_constant(2.0f64.to_bits());
    bytecode.write_opcode(Opcode::Constant);
    bytecode.write_byte(0);
    bytecode.write_opcode(Opcode::Constant);
    bytecode.write_byte(1);
    bytecode.write_opcode(Opcode::Pop);
    bytecode.write_opcode(Opcode::Return);
    let mut vm = Vm::new(bytecode);
    assert_eq!(vm.run(machine_arith).map(f64::from_bits), Ok(1.0));
    assert_eq!(vm.ip, 6);
    assert!(vm.stack.is_empty());
}

#[test]
fn unknown_opcode_is_an_error() {
    for byte in [9u8, 42, 255] {
        let mut bytecode = Bytecode::default();
        bytecode.write_byte(byte);
        let mut vm = Vm::new(bytecode);
        assert!(vm.can_run());
        assert_eq!(vm.run(machine_arith), Err(VmError::InvalidOpcode));
    }
}

#[test]
fn unknown_opcode_after_valid_instructions() {
    let mut bytecode = Bytecode::default();
    bytecode.add_constant(1.0f64.to_bits());
    bytecode.write_opcode(Opcode::Constant);
    bytecode.write_byte(0);
    bytecode.write_byte(0x80);
    bytecode.write_opcode(Opcode::Return);
    let mut vm = Vm::new(bytecode);
    assert_eq!(vm.run(machine_arith), Err(VmError::InvalidOpcode));
    assert_eq!(vm.ip, 3);
    assert_eq!(vm.stack, vec![1.0f64.to_bits()]);
}

#[test]
fn add_with_one_operand_misses_one() {
    let mut bytecode = Bytecode::default();
    bytecode.add_constant(1.0f64.to_bits());
    bytecode.write_opcode(Opcode::Constant);
    bytecode.write_byte(0);
    bytecode.write_opcode(Opcode::Add);
    bytecode.write_opcode(Opcode::Return);
    let mut vm = Vm::new(bytecode);
    assert!(vm.can_run());
    assert_eq!(vm.run(machine_arith), Err(VmError::MissingOperand));
    assert!(vm.stack.is_empty());
}

#[test]
fn every_instruction_misses_operands_on_an_empty_stack() {
    for opcode in [
        Opcode::Pop,
        Opcode::Return,
        Opcode::Add,
        Opcode::Subtract,
        Opcode::Multiply,
        Opcode::Divide,
        Opcode::Remainder,
        Opcode::Negate,
    ] {
        let mut bytecode = Bytecode::default();
        bytecode.write_opcode(opcode);
        let mut vm = Vm::new(bytecode);
        assert!(vm.can_run());
        assert_eq!(vm.run(machine_arith), Err(VmError::MissingOperand));
    }
}

#[test]
fn programs_without_an_end_cannot_run() {
    assert!(!Vm::new(Bytecode::default()).can_run());

    let mut no_return = Bytecode::default();
    no_return.add_constant(1.0f64.to_bits());
    no_return.write_opcode(Opcode::Constant);
    no_return.write_byte(0);
    no_return.write_opcode(Opcode::Pop);
    assert!(!Vm::new(no_return).can_run());

    let mut no_operand = Bytecode::default();
    no_operand.add_constant(1.0f64.to_bits());
    no_operand.write_opcode(Opcode::Constant);
    assert!(!Vm::new(no_operand).can_run());

    let mut no_constant = Bytecode::default();
    no_constant.write_opcode(Opcode::Constant);
    no_constant.write_byte(0);
    no_constant.write_opcode(Opcode::Return);
    assert!(!Vm::new(no_constant).can_run());
}

#[test]
fn operands_reach_the_arithmetic_left_first() {
    let mut vm = Vm::new(binary_program(Opcode::Subtract, 10.0, 3.0));
    let result = vm.run(|op, a, b| {
        assert_eq!(op, Opcode::Subtract);
        assert_eq!(f64::from_bits(a), 10.0);
        assert_eq!(f64::from_bits(b), 3.0);
        77
    });
    assert_eq!(result, Ok(77));
}
