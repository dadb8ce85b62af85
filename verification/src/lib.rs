//! A small expression language: a scanner, a single-pass compiler to
//! bytecode, and a stack machine that runs the bytecode.
//!
//! Every function in this crate is verified. Numbers are carried as IEEE-754
//! binary64 bit patterns; the arithmetic on them that needs floating-point
//! hardware is left to the caller, who is handed the operands and gives back
//! the result.

pub mod bytecode;
pub mod compiler;
pub mod grammar;
pub mod listing;
pub mod number;
pub mod programs;
pub mod scanner;
pub mod soundness;
pub mod text;
pub mod vm;
