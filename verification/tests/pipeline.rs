use calculator::bytecode::Opcode;
use calculator::codegen::CodeGenerator;
use calculator::parser::Parser;
use calculator::vm::{Vm, VmError};

fn value_of(text: &str) -> u64 {
    text.parse::<f64>().unwrap().to_bits()
}

fn apply(op: Opcode, a: u64, b: u64) -> u64 {
    let (a, b) = (f64::from_bits(a), f64::from_bits(b));
    let value = match op {
        Opcode::Add => a + b,
        Opcode::Subtract => a - b,
        Opcode::Multiply => a * b,
        Opcode::Divide => a / b,
        Opcode::Remainder => a % b,
        _ => unreachable!(),
    };
    value.to_bits()
}

fn evaluate(source: &str) -> Result<f64, VmError> {
    let mut parser = Parser::new(source);
    let ast = parser.parse(value_of);
    assert!(ast.complete(), "errors: {:?}", parser.errors);
    let bytecode = CodeGenerator::default().generate(&ast).unwrap();
    let mut vm = Vm::new(bytecode);
    assert!(vm.can_run());
    vm.run(apply).map(f64::from_bits)
}

#[test]
fn precedence() {
    assert_eq!(evaluate("1 + 2 * 3;"), Ok(7.0));
}

#[test]
fn left_associativity() {
    assert_eq!(evaluate("10 - 2 - 3;"), Ok(5.0));
    assert_eq!(evaluate("64 / 4 / 2;"), Ok(8.0));
}

#[test]
fn parentheses() {
    assert_eq!(evaluate("(1 + 2) * 3;"), Ok(9.0));
    assert_eq!(evaluate("10 - (2 - 3);"), Ok(11.0));
}

#[test]
fn unary_negation() {
    assert_eq!(evaluate("-2 * 3;"), Ok(-6.0));
    assert_eq!(evaluate("- -5;"), Ok(5.0));
    assert_eq!(evaluate("2 - -3;"), Ok(5.0));
}

#[test]
fn results_follow_ieee_arithmetic() {
    assert_eq!(evaluate("0.1 + 0.2;"), Ok(0.1 + 0.2));
    assert_eq!(evaluate("1 / 3;"), Ok(1.0 / 3.0));
    assert_eq!(evaluate("7.5 % 2;"), Ok(1.5));
    assert_eq!(evaluate("1 / 0;"), Ok(f64::INFINITY));
    assert_eq!(evaluate("-1 / 0;"), Ok(f64::NEG_INFINITY));
    assert!(evaluate("0 / 0;").unwrap().is_nan());
    assert!(evaluate("1 % 0;").unwrap().is_nan());
    assert_eq!(evaluate("-0;").map(f64::to_bits), Ok((-0.0f64).to_bits()));
    assert_eq!(
        evaluate("(1.5 + 2.25) * -(3 - 10 / 4) % 7;"),
        Ok((1.5 + 2.25) * -(3.0 - 10.0 / 4.0) % 7.0)
    );
}

#[test]
fn last_statement_gives_the_result() {
    assert_eq!(evaluate("1; 2; 3 * 4;"), Ok(12.0));
    assert_eq!(evaluate("42;"), Ok(42.0));
}

#[test]
fn empty_program_does_not_run() {
    let mut parser = Parser::new("");
    let ast = parser.parse(value_of);
    assert!(ast.complete());
    let bytecode = CodeGenerator::default().generate(&ast).unwrap();
    assert!(!Vm::new(bytecode).can_run());
}

#[test]
fn largest_program_runs() {
    let terms: Vec<String> = (0..256).map(|i| i.to_string()).collect();
    let source = format!("{};", terms.join(" + "));
    assert_eq!(evaluate(&source), Ok((0..256).sum::<i32>() as f64));
}
