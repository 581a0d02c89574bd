//! The whole way from a source text to its value.

use crate::compile::{compile, compiled, parse, CompileError};
use crate::correctness::theorem_compiled_chunks_run;
use crate::expr::{eval, lemma_sizes, literals};
use crate::number::{computes, reads_all, reads_as, total, Operator};
use crate::token::stream;
use crate::value::Value;
use crate::vm::{execute, run_from, RuntimeError};
use vstd::prelude::*;

verus! {

/// Why a source text has no value.
#[derive(Clone, Copy, Debug, PartialEq, Eq, Structural)]
pub enum Error {
    /// The text is not one expression.
    Compile(CompileError),
    /// The run of its bytecode failed.
    Runtime(RuntimeError),
}

/// Compiles a source text and runs the chunk. Whatever reading of literals
/// `literal` carries out and whatever arithmetic `arith`: a text that
/// spells an expression has the value that the expression has when it is
/// evaluated directly, and any other text has the compiler's error. A
/// compiled expression never fails at run time.
pub fn interpret<L: Fn(&str) -> Option<u64>, A: Fn(Operator, u64, u64) -> u64>(
    source: &str,
    literal: L,
    arith: A,
) -> (result: Result<Value, Error>)
    requires
        reads_all(literal),
        total(arith),
    ensures
        forall|reading: spec_fn(Seq<char>) -> Option<u64>, m: spec_fn(Operator, u64, u64) -> u64|
            #![trigger reads_as(literal, reading), computes(arith, m)]
            reads_as(literal, reading) && computes(arith, m) ==> match parse(
                stream(source@, 0),
                reading,
            ) {
                Ok(e) => result == Ok::<Value, Error>(Value::Number(eval(e, reading, m))),
                Err(error) => result == Err::<Value, Error>(Error::Compile(error)),
            },
{
    let chunk = match compile(source, literal) {
        Ok(chunk) => chunk,
        Err(error) => {
            return Err(Error::Compile(error));
        },
    };
    proof {
        assert forall|
            reading: spec_fn(Seq<char>) -> Option<u64>,
            m: spec_fn(Operator, u64, u64) -> u64,
        |
            #![trigger reads_as(literal, reading), computes(arith, m)]
            reads_as(literal, reading) && computes(arith, m) implies parse(
            stream(source@, 0),
            reading,
        ) is Ok && run_from(chunk.code@, chunk.constants@, 0, Seq::empty(), m) == Ok::<
            Value,
            RuntimeError,
        >(Value::Number(eval(parse(stream(source@, 0), reading)->Ok_0, reading, m))) by {
            let e = parse(stream(source@, 0), reading)->Ok_0;
            assert(compiled(chunk, e, reading));
            lemma_sizes(e, 0, reading);
            assert(literals(e) == chunk.constants.len());
            theorem_compiled_chunks_run(stream(source@, 0), reading, m);
        }
    }
    match execute(chunk, arith) {
        Ok(value) => Ok(value),
        Err(error) => Err(Error::Runtime(error)),
    }
}

} // verus!
