use calculator::ast::{Ast, Decl, Expr, ExprKind, Stmt};
use calculator::bytecode::{Bytecode, Opcode};
use calculator::codegen::{CodeGenerator, CodegenError, MAX_CONSTANTS};
use calculator::lexer::span::Span;
use calculator::parser::Parser;

fn generate(source: &str) -> Result<Bytecode, CodegenError> {
    let mut parser = Parser::new(source);
    let ast = parser.parse(|text: &str| text.parse::<f64>().unwrap().to_bits());
    assert!(ast.complete());
    CodeGenerator::default().generate(&ast)
}

fn constants(bytecode: &Bytecode) -> Vec<f64> {
    bytecode.constants.iter().map(|bits| f64::from_bits(*bits)).collect()
}

fn sum_of(count: usize) -> String {
    let terms: Vec<String> = (0..count).map(|i| i.to_string()).collect();
    format!("{};", terms.join(" + "))
}

#[test]
fn number_loads_a_constant() {
    let bytecode = generate("7;").unwrap();
    assert_eq!(bytecode.as_ref(), &[Opcode::Constant.to_byte(), 0, Opcode::Return.to_byte()][..]);
    assert_eq!(constants(&bytecode), vec![7.0]);
}

#[test]
fn operands_come_before_the_operator() {
    let bytecode = generate("1 + 2 * 3;").unwrap();
    assert_eq!(bytecode.as_ref(), &[0u8, 0, 0, 1, 0, 2, 5, 3, 2][..]);
    assert_eq!(constants(&bytecode), vec![1.0, 2.0, 3.0]);

    let bytecode = generate("10 - 2 - 3;").unwrap();
    assert_eq!(bytecode.as_ref(), &[0u8, 0, 0, 1, 4, 0, 2, 4, 2][..]);
}

#[test]
fn every_operator_has_its_instruction() {
    assert_eq!(generate("1 + 2;").unwrap().as_ref()[4], Opcode::Add.to_byte());
    assert_eq!(generate("1 - 2;").unwrap().as_ref()[4], Opcode::Subtract.to_byte());
    assert_eq!(generate("1 * 2;").unwrap().as_ref()[4], Opcode::Multiply.to_byte());
    assert_eq!(generate("1 / 2;").unwrap().as_ref()[4], Opcode::Divide.to_byte());
    assert_eq!(generate("1 % 2;").unwrap().as_ref()[4], Opcode::Remainder.to_byte());
    assert_eq!(generate("-1;").unwrap().as_ref(), &[0u8, 0, 8, 2][..]);
}

#[test]
fn statements_are_popped_but_the_last() {
    let bytecode = generate("1; 2; 3;").unwrap();
    assert_eq!(bytecode.as_ref(), &[0u8, 0, 1, 0, 1, 1, 0, 2, 2][..]);
    assert_eq!(constants(&bytecode), vec![1.0, 2.0, 3.0]);
}

#[test]
fn equal_literals_are_separate_constants() {
    let bytecode = generate("5 + 5;").unwrap();
    assert_eq!(bytecode.as_ref(), &[0u8, 0, 0, 1, 3, 2][..]);
    assert_eq!(constants(&bytecode), vec![5.0, 5.0]);
}

#[test]
fn empty_program_has_no_code() {
    let bytecode = generate("").unwrap();
    assert!(bytecode.as_ref().is_empty());
    assert!(bytecode.constants.is_empty());
}

#[test]
fn pool_holds_up_to_its_limit() {
    assert_eq!(MAX_CONSTANTS, 256);
    let bytecode = generate(&sum_of(256)).unwrap();
    assert_eq!(bytecode.constants.len(), 256);
    let code = bytecode.as_ref();
    assert_eq!(code[code.len() - 4..], [0u8, 255, 3, 2]);
}

#[test]
fn pool_overflow_is_an_error() {
    assert_eq!(generate(&sum_of(257)).unwrap_err(), CodegenError::TooManyConstants);
    let many_statements: String = (0..300).map(|i| format!("{};", i)).collect();
    assert_eq!(generate(&many_statements).unwrap_err(), CodegenError::TooManyConstants);
}

#[test]
fn generator_is_empty_after_use() {
    let mut generator = CodeGenerator::default();
    let number = |bits: u64| {
        Decl::stmt(Stmt::expr(Expr::new(Span::new(0, 1), ExprKind::Number(bits))))
    };
    let first = generator.generate(&Ast::new(vec![number(1), number(2)], true)).unwrap();
    assert_eq!(first.constants, vec![1, 2]);
    assert!(generator.bytecode.as_ref().is_empty());
    let second = generator.generate(&Ast::new(vec![number(3)], true)).unwrap();
    assert_eq!(second.constants, vec![3]);
    assert_eq!(second.as_ref(), &[0u8, 0, 2][..]);

    let too_many: Vec<Decl> = (0..257).map(number).collect();
    assert!(generator.generate(&Ast::new(too_many, true)).is_err());
    assert!(generator.bytecode.as_ref().is_empty());
    assert!(generator.bytecode.constants.is_empty());
}
