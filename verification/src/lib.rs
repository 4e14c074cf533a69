//! A small arithmetic expression language: a lexer, a precedence-climbing
//! parser, a code generator that lowers the syntax tree to a compact
//! bytecode, and a stack machine that executes it.
//!
//! Numbers are carried as the bit patterns of IEEE-754 binary64 values
//! (`u64`). The library never interprets those bits arithmetically, except to
//! flip the sign bit for negation: decoding a literal and the five binary
//! operations are supplied by the caller as functions on bit patterns.

pub mod ast;
pub mod bytecode;
pub mod codegen;
pub mod diagnostics;
pub mod lexer;
pub mod parser;
pub mod vm;
