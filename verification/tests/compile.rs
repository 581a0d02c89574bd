use lox_bytecode::{
    compile, execute, interpret, Chunk, CompileError, CompileErrorKind, Compiler, Error,
    LexErrorKind, Opcode, Operator, RuntimeError, Tokens, Value,
};

fn literal(text: &str) -> Option<u64> {
    text.parse::<f64>().ok().map(f64::to_bits)
}

fn arith(op: Operator, a: u64, b: u64) -> u64 {
    let (a, b) = (f64::from_bits(a), f64::from_bits(b));
    let r = match op {
        Operator::Add => a + b,
        Operator::Subtract => a - b,
        Operator::Multiply => a * b,
        Operator::Divide => a / b,
    };
    r.to_bits()
}

fn number(n: f64) -> Value {
    Value::Number(n.to_bits())
}

fn value_of(source: &str) -> f64 {
    let chunk = compile(source, literal).unwrap();
    assert!(chunk.is_well_formed());
    match execute(chunk, arith) {
        Ok(Value::Number(bits)) => f64::from_bits(bits),
        other => panic!("{:?}", other),
    }
}

fn error_of(source: &str) -> CompileError {
    compile(source, literal).unwrap_err()
}

fn bits_of(constants: &[Value]) -> Vec<u64> {
    constants
        .iter()
        .map(|value| match value {
            Value::Number(bits) => *bits,
            other => panic!("{:?}", other),
        })
        .collect()
}

fn check(chunk: &Chunk, code: Vec<Opcode>, constants: Vec<f64>, lines: Vec<u32>) {
    assert_eq!(chunk.code, code);
    let expected: Vec<u64> = constants.into_iter().map(f64::to_bits).collect();
    assert_eq!(bits_of(&chunk.constants), expected);
    assert_eq!(chunk.lines, lines);
}

#[test]
fn multiplication_binds_tighter_than_addition() {
    let chunk = compile("1 + 2 * 3", literal).unwrap();
    assert_eq!(execute(chunk, arith), Ok(number(7.0)));
}

#[test]
fn grouping_overrides_precedence() {
    let chunk = compile("(1 + 2) * 3", literal).unwrap();
    assert_eq!(execute(chunk, arith), Ok(number(9.0)));
}

#[test]
fn compiler_reads_from_a_tokenizer() {
    let chunk = Compiler::new(Tokens::new("1 + 2 * 3")).compile(literal).unwrap();
    check(
        &chunk,
        vec![
            Opcode::Constant(0),
            Opcode::Constant(1),
            Opcode::Constant(2),
            Opcode::Multiply,
            Opcode::Add,
            Opcode::Return,
        ],
        vec![1.0, 2.0, 3.0],
        vec![1, 1, 1, 1, 1, 1],
    );
}

#[test]
fn a_literal_alone() {
    let chunk = compile("42.5", literal).unwrap();
    check(&chunk, vec![Opcode::Constant(0), Opcode::Return], vec![42.5], vec![1, 1]);
}

#[test]
fn operators_of_one_strength_group_from_the_left() {
    let chunk = compile("8 - 3 - 2", literal).unwrap();
    check(
        &chunk,
        vec![
            Opcode::Constant(0),
            Opcode::Constant(1),
            Opcode::Subtract,
            Opcode::Constant(2),
            Opcode::Subtract,
            Opcode::Return,
        ],
        vec![8.0, 3.0, 2.0],
        vec![1, 1, 1, 1, 1, 1],
    );
    assert_eq!(value_of("8 - 3 - 2"), 3.0);
    assert_eq!(value_of("8 / 4 / 2"), 1.0);
    assert_eq!(value_of("8 / 4 * 2"), 4.0);
}

#[test]
fn a_minus_sign_binds_tighter_than_any_operator() {
    let chunk = compile("-1 * 2", literal).unwrap();
    check(
        &chunk,
        vec![
            Opcode::Constant(0),
            Opcode::Negate,
            Opcode::Constant(1),
            Opcode::Multiply,
            Opcode::Return,
        ],
        vec![1.0, 2.0],
        vec![1, 1, 1, 1, 1],
    );
    assert_eq!(value_of("-1 * 2"), -2.0);
    assert_eq!(value_of("1 - -1"), 2.0);
    assert_eq!(value_of("--3"), 3.0);
    assert_eq!(value_of("-(1 + 2)"), -3.0);
    assert_eq!(value_of("2 * -3 + 1"), -5.0);
}

#[test]
fn each_instruction_has_the_line_of_its_token() {
    let chunk = compile("1 +\n2\n*\n-3\n", literal).unwrap();
    check(
        &chunk,
        vec![
            Opcode::Constant(0),
            Opcode::Constant(1),
            Opcode::Constant(2),
            Opcode::Negate,
            Opcode::Multiply,
            Opcode::Add,
            Opcode::Return,
        ],
        vec![1.0, 2.0, 3.0],
        vec![1, 2, 4, 4, 3, 1, 4],
    );
    let chunk = compile("(\n1\n)\n", literal).unwrap();
    check(&chunk, vec![Opcode::Constant(0), Opcode::Return], vec![1.0], vec![2, 3]);
}

#[test]
fn compiled_expressions_evaluate_as_written() {
    assert_eq!(value_of("0.1 + 0.2"), 0.1 + 0.2);
    assert_eq!(value_of("0.1 + 0.2 + 0.3"), (0.1 + 0.2) + 0.3);
    assert_eq!(value_of("0.1 + (0.2 + 0.3)"), 0.1 + (0.2 + 0.3));
    assert_eq!(value_of("50 / (-1 + 13.9)"), 50.0 / (-1.0 + 13.9));
    assert_eq!(value_of("1 / 3 * 3 - 7 / -2.5"), 1.0 / 3.0 * 3.0 - 7.0 / -2.5);
    assert_eq!(
        value_of("((1.5)) * (2 - (3 + 4) / 5) - -(6)"),
        1.5 * (2.0 - (3.0 + 4.0) / 5.0) - -6.0
    );
    assert_eq!(value_of("1 / 0"), f64::INFINITY);
    assert_eq!(value_of("-1 / 0"), f64::NEG_INFINITY);
    assert!(value_of("0 / 0").is_nan());
    assert_eq!(value_of("-0").to_bits(), (-0.0f64).to_bits());
}

#[test]
fn an_expression_has_to_start() {
    assert_eq!(error_of(""), CompileError { kind: CompileErrorKind::ExpectedExpression, line: 1 });
    assert_eq!(
        error_of("\n\n"),
        CompileError { kind: CompileErrorKind::ExpectedExpression, line: 1 }
    );
    assert_eq!(
        error_of("1 +\n\n"),
        CompileError { kind: CompileErrorKind::ExpectedExpression, line: 1 }
    );
    assert_eq!(
        error_of("1\n+\n*"),
        CompileError { kind: CompileErrorKind::ExpectedExpression, line: 3 }
    );
    assert_eq!(error_of(")"), CompileError { kind: CompileErrorKind::ExpectedExpression, line: 1 });
    assert_eq!(
        error_of("\n()"),
        CompileError { kind: CompileErrorKind::ExpectedExpression, line: 2 }
    );
    assert_eq!(
        error_of("nil"),
        CompileError { kind: CompileErrorKind::ExpectedExpression, line: 1 }
    );
    assert_eq!(
        error_of("-\n\"one\""),
        CompileError { kind: CompileErrorKind::ExpectedExpression, line: 2 }
    );
}

#[test]
fn a_group_has_to_be_closed() {
    assert_eq!(
        error_of("(1"),
        CompileError { kind: CompileErrorKind::ExpectedRightParen, line: 1 }
    );
    assert_eq!(
        error_of("(1\n+ 2\n\n"),
        CompileError { kind: CompileErrorKind::ExpectedRightParen, line: 2 }
    );
    assert_eq!(
        error_of("(1\n2)"),
        CompileError { kind: CompileErrorKind::ExpectedRightParen, line: 2 }
    );
    assert_eq!(
        error_of("((1)"),
        CompileError { kind: CompileErrorKind::ExpectedRightParen, line: 1 }
    );
}

#[test]
fn nothing_may_follow_the_expression() {
    assert_eq!(error_of("1 2"), CompileError { kind: CompileErrorKind::UnexpectedToken, line: 1 });
    assert_eq!(
        error_of("1\n)"),
        CompileError { kind: CompileErrorKind::UnexpectedToken, line: 2 }
    );
    assert_eq!(
        error_of("1 + 2;"),
        CompileError { kind: CompileErrorKind::UnexpectedToken, line: 1 }
    );
    assert_eq!(
        error_of("(1)(2)"),
        CompileError { kind: CompileErrorKind::UnexpectedToken, line: 1 }
    );
}

#[test]
fn a_lexical_error_is_reported_where_the_compiler_meets_it() {
    assert_eq!(
        error_of("1 +\n@"),
        CompileError { kind: CompileErrorKind::Lexical(LexErrorKind::UnexpectedCharacter), line: 2 }
    );
    assert_eq!(
        error_of("1 @"),
        CompileError { kind: CompileErrorKind::Lexical(LexErrorKind::UnexpectedCharacter), line: 1 }
    );
    assert_eq!(
        error_of("(1 \"abc"),
        CompileError { kind: CompileErrorKind::Lexical(LexErrorKind::UnterminatedString), line: 1 }
    );
    assert_eq!(
        error_of("1 2 @"),
        CompileError { kind: CompileErrorKind::UnexpectedToken, line: 1 }
    );
}

#[test]
fn a_number_token_that_is_no_number() {
    assert_eq!(error_of("1 + ٣"), CompileError { kind: CompileErrorKind::InvalidNumber, line: 1 });
    assert_eq!(error_of("\n²"), CompileError { kind: CompileErrorKind::InvalidNumber, line: 2 });
}

#[test]
fn compile_error_messages() {
    assert_eq!(error_of("").message(), "Expect expression");
    assert_eq!(error_of("(1").message(), "Expect ')' after expression");
    assert_eq!(error_of("1 2").message(), "Unexpected token after expression");
    assert_eq!(error_of("@").message(), "Unexpected character");
    assert_eq!(error_of("\"").message(), "Unterminated String");
    assert_eq!(error_of("²").message(), "Invalid number");
}

#[test]
fn interpret_compiles_and_runs() {
    assert_eq!(interpret("1 + 2 * 3", literal, arith), Ok(number(7.0)));
    assert_eq!(interpret("(1 + 2) * 3", literal, arith), Ok(number(9.0)));
    assert_eq!(
        interpret("50 / (-1 + 13.9)", literal, arith),
        Ok(number(50.0 / (-1.0 + 13.9)))
    );
    assert_eq!(
        interpret("1 +", literal, arith),
        Err(Error::Compile(CompileError { kind: CompileErrorKind::ExpectedExpression, line: 1 }))
    );
    assert_eq!(
        interpret("\"abc", literal, arith),
        Err(Error::Compile(CompileError {
            kind: CompileErrorKind::Lexical(LexErrorKind::UnterminatedString),
            line: 1
        }))
    );
    assert_ne!(
        interpret("1", literal, arith),
        Err(Error::Runtime(RuntimeError::MissingReturn))
    );
}

#[test]
fn compiled_code_agrees_with_direct_evaluation() {
    // A small deterministic generator of expressions: each is built
    // together with its value under direct floating-point evaluation.
    fn build(seed: &mut u64, depth: u32) -> (String, f64) {
        *seed = seed.wrapping_mul(6364136223846793005).wrapping_add(1442695040888963407);
        let pick = (*seed >> 33) % if depth == 0 { 2 } else { 8 };
        match pick {
            0 => {
                let n = (*seed >> 40) % 1000;
                (format!("{}", n), n as f64)
            }
            1 => {
                let n = (*seed >> 40) % 1000;
                let text = format!("{}.{}", n / 10, n % 10);
                let value: f64 = text.parse().unwrap();
                (text, value)
            }
            2 => {
                let (a, x) = build(seed, depth - 1);
                (format!("-({})", a), -x)
            }
            3 => {
                let (a, x) = build(seed, depth - 1);
                (format!("({})", a), x)
            }
            _ => {
                let (a, x) = build(seed, depth - 1);
                let (b, y) = build(seed, depth - 1);
                match pick {
                    4 => (format!("({}) + ({})", a, b), x + y),
                    5 => (format!("({}) - ({})", a, b), x - y),
                    6 => (format!("({}) * ({})", a, b), x * y),
                    _ => (format!("({}) / ({})", a, b), x / y),
                }
            }
        }
    }
    let mut seed = 2026u64;
    for _ in 0..200 {
        let (source, expected) = build(&mut seed, 4);
        match interpret(&source, literal, arith) {
            Ok(Value::Number(bits)) => {
                assert_eq!(bits, expected.to_bits(), "{}", source)
            }
            other => panic!("{}: {:?}", source, other),
        }
    }
}
