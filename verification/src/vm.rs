//! The stack machine that runs a chunk.

use crate::chunk::{constants_in_range, Chunk, Opcode};
use crate::number::{computes, negate, negated, total, Operator};
use crate::value::Value;
use vstd::prelude::*;

verus! {

/// Why a run stopped without a value.
#[derive(Clone, Copy, Debug, PartialEq, Eq, Structural)]
pub enum RuntimeError {
    /// `Negate` found `Nil` on top of the stack.
    NegateNil,
    /// `Negate` found a `Bool` on top of the stack.
    NegateBool,
    /// A binary operation popped `Nil`.
    OperandNil,
    /// A binary operation popped a `Bool`.
    OperandBool,
    /// An instruction needed a value and the stack was empty.
    StackUnderflow,
    /// The instructions ran out before a `Return`.
    MissingReturn,
}

/// What one instruction leaves behind.
pub enum Outcome {
    /// The run goes on with this stack.
    Running(Seq<Value>),
    /// The run ends with this value.
    Returned(Value),
    /// The run ends with this error.
    Failed(RuntimeError),
}

/// The readable text of an error.
pub open spec fn message_of(error: RuntimeError) -> Seq<char> {
    match error {
        RuntimeError::NegateNil => "Cannot negate nil"@,
        RuntimeError::NegateBool => "Cannot negate bool"@,
        RuntimeError::OperandNil => "Operand must be a number, not nil"@,
        RuntimeError::OperandBool => "Operand must be a number, not a bool"@,
        RuntimeError::StackUnderflow => "Stack underflow"@,
        RuntimeError::MissingReturn => "No return statement in chunk"@,
    }
}

impl RuntimeError {
    /// The readable text of the error.
    pub fn message(&self) -> (text: &'static str)
        ensures
            text@ == message_of(*self),
    {
        match self {
            RuntimeError::NegateNil => "Cannot negate nil",
            RuntimeError::NegateBool => "Cannot negate bool",
            RuntimeError::OperandNil => "Operand must be a number, not nil",
            RuntimeError::OperandBool => "Operand must be a number, not a bool",
            RuntimeError::StackUnderflow => "Stack underflow",
            RuntimeError::MissingReturn => "No return statement in chunk",
        }
    }
}

/// The arithmetic instruction's operator, if the instruction is one.
pub open spec fn operator_of(op: Opcode) -> Option<Operator> {
    match op {
        Opcode::Add => Some(Operator::Add),
        Opcode::Subtract => Some(Operator::Subtract),
        Opcode::Multiply => Some(Operator::Multiply),
        Opcode::Divide => Some(Operator::Divide),
        _ => None,
    }
}

/// Popping a number: the number on top and the stack below it, or the
/// reason why there is none.
pub open spec fn popped_number(stack: Seq<Value>) -> Result<(u64, Seq<Value>), RuntimeError> {
    if stack.len() == 0 {
        Err(RuntimeError::StackUnderflow)
    } else {
        match stack.last() {
            Value::Number(n) => Ok((n, stack.drop_last())),
            Value::Nil => Err(RuntimeError::OperandNil),
            Value::Bool(_) => Err(RuntimeError::OperandBool),
        }
    }
}

/// A binary operation: the right operand is popped first, then the left
/// one, and the result is pushed.
pub open spec fn binary_step(
    operator: Operator,
    stack: Seq<Value>,
    m: spec_fn(Operator, u64, u64) -> u64,
) -> Outcome {
    match popped_number(stack) {
        Err(e) => Outcome::Failed(e),
        Ok((right, below)) => match popped_number(below) {
            Err(e) => Outcome::Failed(e),
            Ok((left, rest)) => Outcome::Running(rest.push(Value::Number(m(operator, left, right)))),
        },
    }
}

/// One instruction, run on `stack` under the arithmetic `m`.
pub open spec fn step(
    op: Opcode,
    constants: Seq<Value>,
    stack: Seq<Value>,
    m: spec_fn(Operator, u64, u64) -> u64,
) -> Outcome {
    match op {
        Opcode::Return => if stack.len() == 0 {
            Outcome::Failed(RuntimeError::StackUnderflow)
        } else {
            Outcome::Returned(stack.last())
        },
        Opcode::Constant(index) => Outcome::Running(stack.push(constants[index as int])),
        Opcode::Negate => if stack.len() == 0 {
            Outcome::Failed(RuntimeError::StackUnderflow)
        } else {
            match stack.last() {
                Value::Number(n) => Outcome::Running(
                    stack.drop_last().push(Value::Number(negated(n))),
                ),
                Value::Nil => Outcome::Failed(RuntimeError::NegateNil),
                Value::Bool(_) => Outcome::Failed(RuntimeError::NegateBool),
            }
        },
        Opcode::Add => binary_step(Operator::Add, stack, m),
        Opcode::Subtract => binary_step(Operator::Subtract, stack, m),
        Opcode::Multiply => binary_step(Operator::Multiply, stack, m),
        Opcode::Divide => binary_step(Operator::Divide, stack, m),
    }
}

/// The run of `code` from instruction `pc` on, starting with `stack`: the
/// value that the first `Return` hands back, or the first error.
pub open spec fn run_from(
    code: Seq<Opcode>,
    constants: Seq<Value>,
    pc: int,
    stack: Seq<Value>,
    m: spec_fn(Operator, u64, u64) -> u64,
) -> Result<Value, RuntimeError>
    decreases code.len() - pc,
{
    if pc < 0 || pc >= code.len() {
        Err(RuntimeError::MissingReturn)
    } else {
        match step(code[pc], constants, stack, m) {
            Outcome::Running(next) => run_from(code, constants, pc + 1, next, m),
            Outcome::Returned(value) => Ok(value),
            Outcome::Failed(e) => Err(e),
        }
    }
}

/// The machine: an operand stack.
#[derive(Debug)]
pub struct VM {
    stack: Vec<Value>,
}

impl View for VM {
    type V = Seq<Value>;

    /// The operand stack, bottom first.
    closed spec fn view(&self) -> Seq<Value> {
        self.stack@
    }
}

impl VM {
    /// A machine with an empty stack.
    pub fn new() -> (vm: VM)
        ensures
            vm@ == Seq::<Value>::empty(),
    {
        VM { stack: Vec::new() }
    }

    /// Pops the top of the stack, which has to be a number.
    pub fn pop_number(&mut self) -> (result: Result<u64, RuntimeError>)
        ensures
            match popped_number(old(self)@) {
                Ok((n, below)) => result == Ok::<u64, RuntimeError>(n) && final(self)@ == below,
                Err(e) => result == Err::<u64, RuntimeError>(e),
            },
    {
        match self.stack.pop() {
            None => Err(RuntimeError::StackUnderflow),
            Some(Value::Number(n)) => Ok(n),
            Some(Value::Nil) => Err(RuntimeError::OperandNil),
            Some(Value::Bool(_)) => Err(RuntimeError::OperandBool),
        }
    }

    /// Runs one instruction. `None` says that the run goes on.
    pub fn step<A: Fn(Operator, u64, u64) -> u64>(
        &mut self,
        op: Opcode,
        constants: &Vec<Value>,
        arith: &A,
    ) -> (outcome: Option<Result<Value, RuntimeError>>)
        requires
            constants_in_range(seq![op], constants@.len()),
            total(*arith),
        ensures
            forall|m: spec_fn(Operator, u64, u64) -> u64| #[trigger]
                computes(*arith, m) ==> match step(op, constants@, old(self)@, m) {
                    Outcome::Running(next) => outcome is None && final(self)@ == next,
                    Outcome::Returned(value) => outcome == Some(
                        Ok::<Value, RuntimeError>(value),
                    ),
                    Outcome::Failed(e) => outcome == Some(Err::<Value, RuntimeError>(e)),
                },
    {
        proof {
            assert(seq![op][0] == op);
        }
        let operator: Operator = match op {
            Opcode::Return => {
                return match self.stack.pop() {
                    Some(value) => Some(Ok(value)),
                    None => Some(Err(RuntimeError::StackUnderflow)),
                };
            },
            Opcode::Constant(index) => {
                self.stack.push(constants[index]);
                return None;
            },
            Opcode::Negate => {
                return match self.stack.pop() {
                    None => Some(Err(RuntimeError::StackUnderflow)),
                    Some(Value::Number(n)) => {
                        self.stack.push(Value::Number(negate(n)));
                        None
                    },
                    Some(Value::Nil) => Some(Err(RuntimeError::NegateNil)),
                    Some(Value::Bool(_)) => Some(Err(RuntimeError::NegateBool)),
                };
            },
            Opcode::Add => Operator::Add,
            Opcode::Subtract => Operator::Subtract,
            Opcode::Multiply => Operator::Multiply,
            Opcode::Divide => Operator::Divide,
        };
        let right: u64 = match self.pop_number() {
            Ok(n) => n,
            Err(e) => {
                return Some(Err(e));
            },
        };
        let left: u64 = match self.pop_number() {
            Ok(n) => n,
            Err(e) => {
                return Some(Err(e));
            },
        };
        let value: u64 = arith(operator, left, right);
        self.stack.push(Value::Number(value));
        proof {
            assert forall|m: spec_fn(Operator, u64, u64) -> u64| #[trigger]
                computes(*arith, m) implies step(op, constants@, old(self)@, m)
                == Outcome::Running(self@) by {
                assert(value == m(operator, left, right));
            }
        }
        None
    }

    /// Runs a chunk to its first `Return` or its first error. The four
    /// arithmetic operations are carried out by `arith`; whatever
    /// arithmetic that is, the result is that of the run under it.
    pub fn run<A: Fn(Operator, u64, u64) -> u64>(self, chunk: Chunk, arith: A) -> (result: Result<
        Value,
        RuntimeError,
    >)
        requires
            chunk.well_formed(),
            total(arith),
        ensures
            forall|m: spec_fn(Operator, u64, u64) -> u64| #[trigger]
                computes(arith, m) ==> result == run_from(
                    chunk.code@,
                    chunk.constants@,
                    0,
                    self@,
                    m,
                ),
    {
        let mut vm = self;
        let mut pc: usize = 0;
        while pc < chunk.code.len()
            invariant
                pc <= chunk.code@.len(),
                chunk.well_formed(),
                total(arith),
                forall|m: spec_fn(Operator, u64, u64) -> u64| #[trigger]
                    computes(arith, m) ==> run_from(chunk.code@, chunk.constants@, 0, self@, m)
                        == run_from(chunk.code@, chunk.constants@, pc as int, vm@, m),
            decreases chunk.code@.len() - pc,
        {
            let op: Opcode = chunk.code[pc];
            proof {
                assert(constants_in_range(seq![op], chunk.constants@.len())) by {
                    assert(chunk.code@[pc as int] == op);
                    assert(seq![op][0] == op);
                }
            }
            match vm.step(op, &chunk.constants, &arith) {
                Some(result) => {
                    return result;
                },
                None => {},
            }
            pc += 1;
        }
        Err(RuntimeError::MissingReturn)
    }
}

/// Runs a chunk on a new machine.
pub fn execute<A: Fn(Operator, u64, u64) -> u64>(chunk: Chunk, arith: A) -> (result: Result<
    Value,
    RuntimeError,
>)
    requires
        chunk.well_formed(),
        total(arith),
    ensures
        forall|m: spec_fn(Operator, u64, u64) -> u64| #[trigger]
            computes(arith, m) ==> result == run_from(
                chunk.code@,
                chunk.constants@,
                0,
                Seq::<Value>::empty(),
                m,
            ),
{
    VM::new().run(chunk, arith)
}

} // verus!
