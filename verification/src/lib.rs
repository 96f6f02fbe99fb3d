//! A single-pass bytecode compiler and stack machine for a small expression
//! language: numbers, booleans, `nil`, strings, arithmetic and comparison.
//!
//! Source text is scanned on demand, parsed by precedence climbing straight
//! into a [`chunk::Chunk`], and executed by [`vm::VM`] on a value stack of
//! fixed capacity. Numbers are IEEE-754 doubles, carried as their 64 bits:
//! the library compares and negates them itself and asks its host for the
//! four arithmetic operations and for the value of a number literal.
pub mod text;
pub mod number;
pub mod object;
pub mod value;
pub mod chunk;
pub mod scanner;
pub mod compiler;
pub mod vm;
pub mod debug;
pub mod program;
