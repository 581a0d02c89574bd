use lox_bytecode::number::{equal, negate};
use lox_bytecode::{execute, Chunk, Opcode, Operator, RuntimeError, Value, VM};

fn arith(op: Operator, a: u64, b: u64) -> u64 {
    let (a, b) = (f64::from_bits(a), f64::from_bits(b));
    let r = match op {
        Operator::Add => a + b,
        Operator::Subtract => a - b,
        Operator::Multiply => a * b,
        Operator::Divide => a / b,
    };
    r.to_bits()
}

fn number(n: f64) -> Value {
    Value::Number(n.to_bits())
}

fn program(constants: Vec<Value>, code: Vec<Opcode>) -> Chunk {
    let mut chunk = Chunk::new();
    for constant in constants {
        chunk.write_constant(constant, 1);
    }
    for op in code {
        chunk.write_code(op, 1);
    }
    assert!(chunk.is_well_formed());
    chunk
}

#[test]
fn vm1() {
    let mut chunk = Chunk::new();
    chunk.write_constant(number(50.0), 1);
    chunk.write_constant(number(-1.0), 1);
    chunk.write_constant(number(13.9), 1);
    chunk.write_code(Opcode::Negate, 1);
    chunk.write_code(Opcode::Subtract, 1);
    chunk.write_code(Opcode::Divide, 1);
    chunk.write_code(Opcode::Return, 2);

    let vm = VM::new();
    assert_eq!(vm.run(chunk, arith), Ok(number(50.0 / (-1.0 + 13.9))));
}

#[test]
fn literal_program_divides_exactly() {
    let chunk = program(
        vec![number(50.0), number(-1.0), number(13.9)],
        vec![Opcode::Negate, Opcode::Subtract, Opcode::Divide, Opcode::Return],
    );
    assert_eq!(execute(chunk, arith), Ok(number(50.0 / (-1.0 - (-13.9)))));
}

#[test]
fn chunk_records_what_is_written() {
    let mut chunk = Chunk::new();
    assert!(chunk.code.is_empty() && chunk.constants.is_empty() && chunk.lines.is_empty());
    chunk.write_constant(Value::Nil, 3);
    chunk.write_constant(number(2.0), 4);
    chunk.write_code(Opcode::Add, 5);
    assert_eq!(chunk.code, vec![Opcode::Constant(0), Opcode::Constant(1), Opcode::Add]);
    assert_eq!(chunk.constants, vec![Value::Nil, number(2.0)]);
    assert_eq!(chunk.lines, vec![3, 4, 5]);
    assert!(chunk.is_well_formed());
    let empty = Chunk::default();
    assert!(empty.code.is_empty() && empty.constants.is_empty() && empty.lines.is_empty());
}

#[test]
fn ill_formed_chunks_are_recognised() {
    let mut chunk = Chunk::new();
    chunk.write_code(Opcode::Constant(0), 1);
    assert!(!chunk.is_well_formed());
    chunk.constants.push(Value::Nil);
    assert!(chunk.is_well_formed());
    chunk.lines.push(7);
    assert!(!chunk.is_well_formed());
    chunk.code.push(Opcode::Constant(1));
    assert!(!chunk.is_well_formed());
}

#[test]
fn negate_rejects_nil_and_bool() {
    let chunk = program(vec![Value::Nil], vec![Opcode::Negate, Opcode::Return]);
    assert_eq!(execute(chunk, arith), Err(RuntimeError::NegateNil));
    let chunk = program(vec![Value::Bool(true)], vec![Opcode::Negate, Opcode::Return]);
    assert_eq!(execute(chunk, arith), Err(RuntimeError::NegateBool));
}

#[test]
fn negate_on_an_empty_stack_underflows() {
    let chunk = program(vec![], vec![Opcode::Negate, Opcode::Return]);
    assert_eq!(execute(chunk, arith), Err(RuntimeError::StackUnderflow));
}

#[test]
fn negate_flips_the_sign() {
    let chunk = program(vec![number(13.9)], vec![Opcode::Negate, Opcode::Return]);
    assert_eq!(execute(chunk, arith), Ok(number(-13.9)));
    let chunk = program(vec![number(0.0)], vec![Opcode::Negate, Opcode::Return]);
    match execute(chunk, arith) {
        Ok(Value::Number(bits)) => assert_eq!(bits, (-0.0f64).to_bits()),
        other => panic!("{:?}", other),
    }
    assert_eq!(negate(1.5f64.to_bits()), (-1.5f64).to_bits());
    assert_eq!(negate((-1.5f64).to_bits()), 1.5f64.to_bits());
    assert_eq!(negate(f64::INFINITY.to_bits()), f64::NEG_INFINITY.to_bits());
    assert_eq!(negate(0), 0x8000_0000_0000_0000);
    assert!(f64::from_bits(negate(f64::NAN.to_bits())).is_nan());
}

#[test]
fn binary_operations_need_two_values() {
    for op in [Opcode::Add, Opcode::Subtract, Opcode::Multiply, Opcode::Divide] {
        let chunk = program(vec![], vec![op, Opcode::Return]);
        assert_eq!(execute(chunk, arith), Err(RuntimeError::StackUnderflow));
        let chunk = program(vec![number(1.0)], vec![op, Opcode::Return]);
        assert_eq!(execute(chunk, arith), Err(RuntimeError::StackUnderflow));
    }
}

#[test]
fn binary_operations_need_numbers() {
    for op in [Opcode::Add, Opcode::Subtract, Opcode::Multiply, Opcode::Divide] {
        let chunk = program(vec![number(1.0), Value::Nil], vec![op, Opcode::Return]);
        assert_eq!(execute(chunk, arith), Err(RuntimeError::OperandNil));
        let chunk = program(vec![Value::Bool(false), number(1.0)], vec![op, Opcode::Return]);
        assert_eq!(execute(chunk, arith), Err(RuntimeError::OperandBool));
        let chunk = program(vec![Value::Nil], vec![op, Opcode::Return]);
        assert_eq!(execute(chunk, arith), Err(RuntimeError::OperandNil));
        let chunk = program(vec![Value::Nil, Value::Bool(true)], vec![op, Opcode::Return]);
        assert_eq!(execute(chunk, arith), Err(RuntimeError::OperandBool));
    }
}

#[test]
fn operands_are_taken_left_then_right() {
    let chunk = program(vec![number(7.0), number(2.0)], vec![Opcode::Subtract, Opcode::Return]);
    assert_eq!(execute(chunk, arith), Ok(number(5.0)));
    let chunk = program(vec![number(7.0), number(2.0)], vec![Opcode::Divide, Opcode::Return]);
    assert_eq!(execute(chunk, arith), Ok(number(3.5)));
    let chunk = program(vec![number(7.0), number(2.0)], vec![Opcode::Add, Opcode::Return]);
    assert_eq!(execute(chunk, arith), Ok(number(9.0)));
    let chunk = program(vec![number(7.0), number(2.0)], vec![Opcode::Multiply, Opcode::Return]);
    assert_eq!(execute(chunk, arith), Ok(number(14.0)));
}

#[test]
fn division_by_zero_is_no_error() {
    let chunk = program(vec![number(1.0), number(0.0)], vec![Opcode::Divide, Opcode::Return]);
    assert_eq!(execute(chunk, arith), Ok(number(f64::INFINITY)));
    let chunk = program(vec![number(0.0), number(0.0)], vec![Opcode::Divide, Opcode::Return]);
    match execute(chunk, arith) {
        Ok(Value::Number(bits)) => assert!(f64::from_bits(bits).is_nan()),
        other => panic!("{:?}", other),
    }
}

#[test]
fn a_chunk_without_return_misses_it() {
    let chunk = program(vec![number(1.0)], vec![]);
    assert_eq!(execute(chunk, arith), Err(RuntimeError::MissingReturn));
    assert_eq!(execute(Chunk::new(), arith), Err(RuntimeError::MissingReturn));
    let chunk = program(vec![number(1.0), number(2.0)], vec![Opcode::Add]);
    assert_eq!(execute(chunk, arith), Err(RuntimeError::MissingReturn));
}

#[test]
fn return_hands_back_the_top_and_ends_the_run() {
    let chunk = program(
        vec![Value::Bool(true), Value::Nil],
        vec![Opcode::Return, Opcode::Negate, Opcode::Return],
    );
    assert_eq!(execute(chunk, arith), Ok(Value::Nil));
    let chunk = program(vec![], vec![Opcode::Return]);
    assert_eq!(execute(chunk, arith), Err(RuntimeError::StackUnderflow));
}

#[test]
fn machine_steps_one_instruction_at_a_time() {
    let constants = vec![number(4.0), Value::Nil];
    let mut vm = VM::new();
    assert_eq!(vm.step(Opcode::Constant(0), &constants, &arith), None);
    assert_eq!(vm.step(Opcode::Negate, &constants, &arith), None);
    assert_eq!(vm.step(Opcode::Constant(0), &constants, &arith), None);
    assert_eq!(vm.step(Opcode::Subtract, &constants, &arith), None);
    assert_eq!(vm.pop_number(), Ok((-8.0f64).to_bits()));
    assert_eq!(vm.pop_number(), Err(RuntimeError::StackUnderflow));
    assert_eq!(vm.step(Opcode::Constant(1), &constants, &arith), None);
    assert_eq!(vm.step(Opcode::Return, &constants, &arith), Some(Ok(Value::Nil)));
    assert_eq!(
        vm.step(Opcode::Return, &constants, &arith),
        Some(Err(RuntimeError::StackUnderflow))
    );
    assert_eq!(vm.step(Opcode::Constant(1), &constants, &arith), None);
    assert_eq!(vm.step(Opcode::Add, &constants, &arith), Some(Err(RuntimeError::OperandNil)));
    assert_eq!(vm.step(Opcode::Constant(1), &constants, &arith), None);
    assert_eq!(vm.pop_number(), Err(RuntimeError::OperandNil));
}

#[test]
fn values_compare_within_their_variant() {
    assert_eq!(Value::Nil, Value::Nil);
    assert_eq!(Value::Bool(true), Value::Bool(true));
    assert_ne!(Value::Bool(true), Value::Bool(false));
    assert_eq!(number(1.5), number(1.5));
    assert_ne!(number(1.5), number(2.5));
    assert_ne!(Value::Nil, Value::Bool(false));
    assert_ne!(Value::Nil, number(0.0));
    assert_ne!(Value::Bool(false), number(0.0));
    assert_eq!(number(0.0), number(-0.0));
    assert_ne!(number(f64::NAN), number(f64::NAN));
    assert_eq!(number(f64::INFINITY), number(f64::INFINITY));
    assert_ne!(number(f64::INFINITY), number(f64::NEG_INFINITY));
    let copy = number(3.0);
    assert_eq!(copy.clone(), copy);
}

#[test]
fn numbers_compare_as_their_floats_do() {
    let samples = [
        0.0,
        -0.0,
        1.0,
        -1.0,
        13.9,
        f64::MIN_POSITIVE,
        f64::MAX,
        f64::MIN,
        f64::INFINITY,
        f64::NEG_INFINITY,
        f64::NAN,
        -f64::NAN,
        f64::from_bits(1),
        f64::from_bits(0x7FF0_0000_0000_0001),
    ];
    for a in samples {
        for b in samples {
            assert_eq!(equal(a.to_bits(), b.to_bits()), a == b, "{} {}", a, b);
        }
    }
}

#[test]
fn runtime_error_messages() {
    assert_eq!(RuntimeError::NegateNil.message(), "Cannot negate nil");
    assert_eq!(RuntimeError::NegateBool.message(), "Cannot negate bool");
    assert_eq!(RuntimeError::OperandNil.message(), "Operand must be a number, not nil");
    assert_eq!(RuntimeError::OperandBool.message(), "Operand must be a number, not a bool");
    assert_eq!(RuntimeError::StackUnderflow.message(), "Stack underflow");
    assert_eq!(RuntimeError::MissingReturn.message(), "No return statement in chunk");
}
