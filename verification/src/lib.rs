//! A single-pass bytecode compiler and stack machine for arithmetic
//! expressions: source text is cut into tokens, the tokens are compiled
//! straight into a chunk of bytecode, and the chunk is run on an operand
//! stack.
//!
//! Numbers are IEEE 754 binary64 values, held as their 64-bit encodings. The
//! library itself only negates and compares them; the four rounding
//! operations and the reading of a literal are handed in by the caller, and
//! every contract holds for whatever function those compute.

pub mod chunk;
pub mod compile;
pub mod correctness;
pub mod expr;
pub mod interpret;
pub mod number;
pub mod token;
pub mod unicode;
pub mod value;
pub mod vm;

pub use chunk::{Chunk, Opcode};
pub use compile::{compile, CompileError, CompileErrorKind, Compiler};
pub use interpret::{interpret, Error};
pub use number::Operator;
pub use token::{LexError, LexErrorKind, Token, TokenKind, Tokens};
pub use value::Value;
pub use vm::{execute, RuntimeError, VM};
