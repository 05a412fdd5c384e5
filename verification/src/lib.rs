//! A single-pass compiler and a stack-based bytecode virtual machine for Lox.
//!
//! The scanner turns source text into tokens; the compiler reads the tokens
//! once and emits a chunk of bytecode; the virtual machine runs the chunk on
//! a stack of values. Strings live in a heap that interns them, so that equal
//! strings are one object.
//!
//! Numbers are held by their bit patterns in the IEEE 754 binary64 format.
//! The library compares and negates them; it leaves to its user the value of
//! each number literal (`scanner::number_literals` lists them, and
//! `compiler::Compiler::compile` takes the values), the four arithmetic
//! operations (`vm::Signal::Compute`), and the writing of what a program
//! prints (`vm::Signal::Print`).

pub mod array;
pub mod bytecode;
pub mod compiler;
pub mod disassembler;
pub mod hashmap;
pub mod heap;
pub mod object;
pub mod raw_array;
pub mod scanner;
pub mod stack;
pub mod string;
pub mod value;
pub mod vm;
