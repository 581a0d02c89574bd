//! What the compiler and the machine do together.

use crate::chunk::Opcode;
use crate::compile::{
    infix_operator, lemma_parse_consumes, lemma_prefix_consumes, parse, parse_infix,
    parse_precedence, parse_prefix, CompileError, Parsed,
};
use crate::expr::{
    emit, eval, lemma_sizes, level, literals, opcode_of, pool, precedence, readable, render,
    shaped, text_of, token_of, Expr, TERM, UNARY,
};
use crate::number::Operator;
use crate::token::{LexError, Lexeme, TokenKind};
use crate::value::Value;
use crate::vm::{operator_of, run_from, step, Outcome, RuntimeError};
use vstd::prelude::*;

verus! {

/// `piece` stands in `whole` from position `at` on.
pub open spec fn holds_at<T>(whole: Seq<T>, at: int, piece: Seq<T>) -> bool {
    &&& 0 <= at
    &&& at + piece.len() <= whole.len()
    &&& forall|i: int| 0 <= i < piece.len() ==> whole[at + i] == #[trigger] piece[i]
}

/// Running the instructions of an expression pushes the value of the
/// expression and touches nothing below it: wherever the instructions
/// stand in a chunk, with their constants in the pool, the run from their
/// first instruction goes on behind their last one with that value on top
/// of the stack.
pub proof fn lemma_emitted_code_evaluates(
    e: Expr,
    base: nat,
    code: Seq<Opcode>,
    constants: Seq<Value>,
    pc: int,
    stack: Seq<Value>,
    reading: spec_fn(Seq<char>) -> Option<u64>,
    m: spec_fn(Operator, u64, u64) -> u64,
)
    requires
        readable(e, reading),
        holds_at(code, pc, emit(e, base)),
        holds_at(constants, base as int, pool(e, reading)),
        constants.len() <= usize::MAX,
    ensures
        run_from(code, constants, pc, stack, m) == run_from(
            code,
            constants,
            pc + emit(e, base).len(),
            stack.push(Value::Number(eval(e, reading, m))),
            m,
        ),
    decreases e,
{
    lemma_sizes(e, base, reading);
    match e {
        Expr::Number { text, line } => {
            assert(code[pc + 0] == emit(e, base)[0]);
            assert(constants[base as int + 0] == pool(e, reading)[0]);
        },
        Expr::Negate { line, operand } => {
            let inner = emit(*operand, base);
            assert forall|i: int| 0 <= i < inner.len() implies code[pc + i] == #[trigger] inner[i] by {
                assert(emit(e, base)[i] == inner[i]);
            }
            lemma_emitted_code_evaluates(*operand, base, code, constants, pc, stack, reading, m);
            let after = stack.push(Value::Number(eval(*operand, reading, m)));
            assert(code[pc + inner.len()] == emit(e, base)[inner.len() as int]);
            assert(after.drop_last() =~= stack);
            assert(step(Opcode::Negate, constants, after, m) == Outcome::Running(
                stack.push(Value::Number(eval(e, reading, m))),
            ));
        },
        Expr::Binary { operator, line, left, right } => {
            let first = emit(*left, base);
            let second = emit(*right, base + literals(*left));
            lemma_sizes(*left, base, reading);
            lemma_sizes(*right, base + literals(*left), reading);
            assert forall|i: int| 0 <= i < first.len() implies code[pc + i] == #[trigger] first[i] by {
                assert(emit(e, base)[i] == first[i]);
            }
            assert forall|i: int| 0 <= i < second.len() implies code[pc + first.len() + i]
                == #[trigger] second[i] by {
                assert(emit(e, base)[first.len() + i] == second[i]);
            }
            assert forall|i: int| 0 <= i < pool(*left, reading).len() implies constants[base + i]
                == #[trigger] pool(*left, reading)[i] by {
                assert(pool(e, reading)[i] == pool(*left, reading)[i]);
            }
            assert forall|i: int| 0 <= i < pool(*right, reading).len() implies constants[base
                + literals(*left) + i] == #[trigger] pool(*right, reading)[i] by {
                assert(pool(e, reading)[literals(*left) + i] == pool(*right, reading)[i]);
            }
            lemma_emitted_code_evaluates(*left, base, code, constants, pc, stack, reading, m);
            let x = eval(*left, reading, m);
            let y = eval(*right, reading, m);
            let one = stack.push(Value::Number(x));
            lemma_emitted_code_evaluates(
                *right,
                base + literals(*left),
                code,
                constants,
                pc + first.len(),
                one,
                reading,
                m,
            );
            let two = one.push(Value::Number(y));
            let at = pc + first.len() + second.len();
            assert(code[at] == emit(e, base)[(first.len() + second.len()) as int]);
            assert(two.drop_last() =~= one);
            assert(one.drop_last() =~= stack);
            assert(step(opcode_of(operator), constants, two, m) == Outcome::Running(
                stack.push(Value::Number(m(operator, x, y))),
            ));
        },
        Expr::Group { open, inner, close } => {
            lemma_emitted_code_evaluates(*inner, base, code, constants, pc, stack, reading, m);
        },
    }
}

/// A chunk compiled from an expression runs to the value of the
/// expression: it meets no error, and `Return` hands back what evaluating
/// the expression directly gives.
pub proof fn lemma_compiled_chunk_evaluates(
    e: Expr,
    reading: spec_fn(Seq<char>) -> Option<u64>,
    m: spec_fn(Operator, u64, u64) -> u64,
)
    requires
        readable(e, reading),
        literals(e) <= usize::MAX,
    ensures
        run_from(emit(e, 0).push(Opcode::Return), pool(e, reading), 0, Seq::empty(), m) == Ok::<
            Value,
            RuntimeError,
        >(Value::Number(eval(e, reading, m))),
{
    let code = emit(e, 0).push(Opcode::Return);
    let constants = pool(e, reading);
    lemma_sizes(e, 0, reading);
    lemma_emitted_code_evaluates(e, 0, code, constants, 0, Seq::empty(), reading, m);
    let top = Seq::<Value>::empty().push(Value::Number(eval(e, reading, m)));
    assert(code[emit(e, 0).len() as int] == Opcode::Return);
    assert(step(Opcode::Return, constants, top, m) == Outcome::Returned(top.last()));
}

/// Tokens as the tokenizer hands them out when it meets no error.
pub open spec fn all_ok(tokens: Seq<Lexeme>) -> Seq<Result<Lexeme, LexError>> {
    Seq::new(tokens.len(), |i: int| Ok(tokens[i]))
}

/// `items` starts with an operator that binds more tightly than `bound`.
pub open spec fn binds_tighter(items: Seq<Result<Lexeme, LexError>>, bound: u8) -> bool {
    &&& items.len() > 0
    &&& items[0] is Ok
    &&& infix_operator(items[0]->Ok_0.kind) is Some
    &&& precedence(infix_operator(items[0]->Ok_0.kind)->0) > bound
}

/// Parsing the tokens of a well-shaped expression gives that expression
/// as the left operand of whatever follows: the parser reads the tokens
/// of `e`, wherever they stand, as `e` and as nothing else, unless an
/// operator that binds more tightly than `e` comes next and takes a part
/// of `e` as its left operand.
pub proof fn lemma_parse_rendered(
    e: Expr,
    rest: Seq<Result<Lexeme, LexError>>,
    line: u32,
    min: u8,
    reading: spec_fn(Seq<char>) -> Option<u64>,
)
    requires
        shaped(e),
        readable(e, reading),
        min <= level(e),
        !binds_tighter(rest, level(e)),
    ensures
        parse_precedence(all_ok(render(e)) + rest, line, min, reading) == parse_infix(
            e,
            rest,
            min,
            reading,
        ),
    decreases e,
{
    let items = all_ok(render(e)) + rest;
    lemma_parse_consumes(items, line, min, reading);
    match e {
        Expr::Number { text, line: at } => {
            assert(items.drop_first() =~= rest);
        },
        Expr::Negate { line: at, operand } => {
            assert(items.drop_first() =~= all_ok(render(*operand)) + rest);
            lemma_parse_rendered(*operand, rest, at, UNARY, reading);
            lemma_parse_consumes(items.drop_first(), at, UNARY, reading);
        },
        Expr::Binary { operator, line: at, left, right } => {
            let sign = Lexeme { kind: token_of(operator), text: text_of(operator), line: at };
            let tail = seq![Ok::<Lexeme, LexError>(sign)] + (all_ok(render(*right)) + rest);
            let next = (precedence(operator) + 1) as u8;
            assert(items =~= all_ok(render(*left)) + tail);
            assert(tail.drop_first() =~= all_ok(render(*right)) + rest);
            lemma_parse_rendered(*left, tail, line, min, reading);
            lemma_parse_rendered(*right, rest, at, next, reading);
            lemma_parse_consumes(tail.drop_first(), at, next, reading);
        },
        Expr::Group { open, inner, close } => {
            let paren = Lexeme { kind: TokenKind::RightParen, text: seq![')'], line: close };
            let tail = seq![Ok::<Lexeme, LexError>(paren)] + rest;
            assert(items.drop_first() =~= all_ok(render(*inner)) + tail);
            assert(tail.drop_first() =~= rest);
            lemma_parse_rendered(*inner, tail, open, TERM, reading);
            lemma_parse_consumes(items.drop_first(), open, TERM, reading);
        },
    }
}

/// The compiler and a direct evaluation agree. Take any expression whose
/// tree respects precedence and associativity and whose literals can be
/// read. From the tokens that spell it, the parser recovers exactly that
/// tree, and the bytecode compiled from it runs, without an error, to the
/// value that the tree has when it is evaluated directly: operands from
/// left to right, each operator on the values of its operands.
pub proof fn theorem_compile_then_run_evaluates(
    e: Expr,
    reading: spec_fn(Seq<char>) -> Option<u64>,
    m: spec_fn(Operator, u64, u64) -> u64,
)
    requires
        shaped(e),
        readable(e, reading),
        literals(e) <= usize::MAX,
    ensures
        parse(all_ok(render(e)), reading) == Ok::<Expr, CompileError>(e),
        run_from(emit(e, 0).push(Opcode::Return), pool(e, reading), 0, Seq::empty(), m) == Ok::<
            Value,
            RuntimeError,
        >(Value::Number(eval(e, reading, m))),
{
    let none = Seq::<Result<Lexeme, LexError>>::empty();
    lemma_parse_rendered(e, none, 1, TERM, reading);
    assert(all_ok(render(e)) + none =~= all_ok(render(e)));
    lemma_compiled_chunk_evaluates(e, reading, m);
}

/// `Negate` on a value that is no number is a type error, which names the
/// value's kind.
pub proof fn lemma_negate_rejects_other_values(
    code: Seq<Opcode>,
    constants: Seq<Value>,
    pc: int,
    stack: Seq<Value>,
    m: spec_fn(Operator, u64, u64) -> u64,
)
    requires
        0 <= pc < code.len(),
        code[pc] == Opcode::Negate,
        stack.len() > 0,
        !(stack.last() is Number),
    ensures
        stack.last() is Nil ==> run_from(code, constants, pc, stack, m) == Err::<
            Value,
            RuntimeError,
        >(RuntimeError::NegateNil),
        stack.last() is Bool ==> run_from(code, constants, pc, stack, m) == Err::<
            Value,
            RuntimeError,
        >(RuntimeError::NegateBool),
{
}

/// A binary operation on a stack of fewer than two values is a stack
/// underflow, where the one value that may be there is a number. (On
/// another value the operation fails before it finds the stack empty,
/// with a type error.)
pub proof fn lemma_binary_underflows(
    code: Seq<Opcode>,
    constants: Seq<Value>,
    pc: int,
    stack: Seq<Value>,
    m: spec_fn(Operator, u64, u64) -> u64,
)
    requires
        0 <= pc < code.len(),
        operator_of(code[pc]) is Some,
        stack.len() < 2,
        stack.len() == 1 ==> stack[0] is Number,
    ensures
        run_from(code, constants, pc, stack, m) == Err::<Value, RuntimeError>(
            RuntimeError::StackUnderflow,
        ),
{
    if stack.len() == 1 {
        assert(stack.drop_last().len() == 0);
    }
}

/// A run that hands back a value has executed a `Return`: where no
/// instruction from `pc` on is one, the run ends in an error.
pub proof fn lemma_no_return_no_value(
    code: Seq<Opcode>,
    constants: Seq<Value>,
    pc: int,
    stack: Seq<Value>,
    m: spec_fn(Operator, u64, u64) -> u64,
)
    requires
        forall|i: int| pc <= i < code.len() ==> #[trigger] code[i] != Opcode::Return,
    ensures
        run_from(code, constants, pc, stack, m) is Err,
    decreases code.len() - pc,
{
    if 0 <= pc < code.len() {
        match step(code[pc], constants, stack, m) {
            Outcome::Running(next) => {
                lemma_no_return_no_value(code, constants, pc + 1, next, m);
            },
            _ => {},
        }
    }
}

/// A run that reaches the end of the instructions fails for want of a
/// `Return`: where every instruction from `pc` on pushes a constant, that
/// is the error.
pub proof fn lemma_constants_alone_miss_return(
    code: Seq<Opcode>,
    constants: Seq<Value>,
    pc: int,
    stack: Seq<Value>,
    m: spec_fn(Operator, u64, u64) -> u64,
)
    requires
        forall|i: int| pc <= i < code.len() ==> #[trigger] code[i] is Constant,
    ensures
        run_from(code, constants, pc, stack, m) == Err::<Value, RuntimeError>(
            RuntimeError::MissingReturn,
        ),
    decreases code.len() - pc,
{
    if 0 <= pc < code.len() {
        assert(code[pc] is Constant);
        match step(code[pc], constants, stack, m) {
            Outcome::Running(next) => {
                lemma_constants_alone_miss_return(code, constants, pc + 1, next, m);
            },
            _ => {},
        }
    }
}

/// `item` is the token `token`: it has its kind and its line, and, where
/// it is a number, its text.
pub open spec fn same_token(item: Result<Lexeme, LexError>, token: Lexeme) -> bool {
    &&& item is Ok
    &&& item->Ok_0.kind == token.kind
    &&& item->Ok_0.line == token.line
    &&& token.kind == TokenKind::Number ==> item->Ok_0.text == token.text
}

/// `items` is the tokens that spell `e`, and then `rest`.
pub open spec fn spells(
    items: Seq<Result<Lexeme, LexError>>,
    e: Expr,
    rest: Seq<Result<Lexeme, LexError>>,
) -> bool {
    &&& items.len() == render(e).len() + rest.len()
    &&& rest =~= items.skip(render(e).len() as int)
    &&& forall|i: int| 0 <= i < render(e).len() ==> same_token(#[trigger] items[i], render(e)[i])
}

/// `items` goes on an expression whose operators bind at least as tightly
/// as `min`: it starts with such an operator, or with a lexical error.
pub open spec fn continues(items: Seq<Result<Lexeme, LexError>>, min: u8) -> bool {
    &&& items.len() > 0
    &&& items[0] is Ok ==> infix_operator(items[0]->Ok_0.kind) is Some && precedence(
        infix_operator(items[0]->Ok_0.kind)->0,
    ) >= min
}

/// `e` is a faithful reading of the head of `items` at strength `min`: a
/// well-shaped tree with readable literals, whose operators outside of
/// groups bind at least as tightly as `min`, whose tokens are the head of
/// `items`, and which takes all of `items` that such an expression can
/// take.
pub open spec fn faithful(
    items: Seq<Result<Lexeme, LexError>>,
    e: Expr,
    rest: Seq<Result<Lexeme, LexError>>,
    min: u8,
    reading: spec_fn(Seq<char>) -> Option<u64>,
) -> bool {
    &&& shaped(e)
    &&& readable(e, reading)
    &&& level(e) >= min
    &&& spells(items, e, rest)
    &&& !continues(rest, min)
}

/// An operand that the parser finds is a faithful reading of the tokens it
/// took.
pub proof fn lemma_prefix_faithful(
    items: Seq<Result<Lexeme, LexError>>,
    line: u32,
    reading: spec_fn(Seq<char>) -> Option<u64>,
)
    ensures
        match parse_prefix(items, line, reading) {
            Parsed::Done { expr, rest } => {
                &&& shaped(expr)
                &&& readable(expr, reading)
                &&& level(expr) == UNARY
                &&& spells(items, expr, rest)
            },
            Parsed::Failed(_) => true,
        },
    decreases items.len(), 0nat,
{
    if items.len() > 0 && items[0] is Ok {
        let token = items[0]->Ok_0;
        let behind = items.drop_first();
        match token.kind {
            TokenKind::Number => {},
            TokenKind::LeftParen => {
                lemma_parse_faithful(behind, token.line, TERM, reading);
                match parse_prefix(items, line, reading) {
                    Parsed::Done { expr, rest } => {
                        let inner = parse_precedence(behind, token.line, TERM, reading)->expr;
                        let after = parse_precedence(behind, token.line, TERM, reading)->rest;
                        let n = render(inner).len() as int;
                        assert(render(expr).len() == n + 2);
                        assert(after[0] == behind[n]);
                        assert forall|i: int| 0 <= i < render(expr).len() implies same_token(
                            #[trigger] items[i],
                            render(expr)[i],
                        ) by {
                            if 0 < i <= n {
                                assert(items[i] == behind[i - 1]);
                                assert(render(expr)[i] == render(inner)[i - 1]);
                            } else if i == n + 1 {
                                assert(items[i] == behind[n]);
                            }
                        }
                    },
                    Parsed::Failed(_) => {},
                }
            },
            TokenKind::Minus => {
                lemma_parse_faithful(behind, token.line, UNARY, reading);
                match parse_prefix(items, line, reading) {
                    Parsed::Done { expr, rest } => {
                        let inner = parse_precedence(behind, token.line, UNARY, reading)->expr;
                        assert forall|i: int| 0 <= i < render(expr).len() implies same_token(
                            #[trigger] items[i],
                            render(expr)[i],
                        ) by {
                            if 0 < i {
                                assert(items[i] == behind[i - 1]);
                                assert(render(expr)[i] == render(inner)[i - 1]);
                            }
                        }
                    },
                    Parsed::Failed(_) => {},
                }
            },
            _ => {},
        }
    }
}

/// What the parser makes of an operand and the operators that follow it
/// is a faithful reading of all the tokens it took, those of the operand
/// among them.
pub proof fn lemma_infix_faithful(
    whole: Seq<Result<Lexeme, LexError>>,
    left: Expr,
    items: Seq<Result<Lexeme, LexError>>,
    min: u8,
    reading: spec_fn(Seq<char>) -> Option<u64>,
)
    requires
        shaped(left),
        readable(left, reading),
        level(left) >= min,
        spells(whole, left, items),
        !binds_tighter(items, level(left)),
    ensures
        match parse_infix(left, items, min, reading) {
            Parsed::Done { expr, rest } => faithful(whole, expr, rest, min, reading),
            Parsed::Failed(_) => true,
        },
    decreases items.len(), 1nat,
{
    if items.len() > 0 && items[0] is Ok {
        let token = items[0]->Ok_0;
        match infix_operator(token.kind) {
            Some(operator) => {
                if precedence(operator) >= min {
                    let behind = items.drop_first();
                    let next = (precedence(operator) + 1) as u8;
                    lemma_parse_faithful(behind, token.line, next, reading);
                    lemma_parse_consumes(behind, token.line, next, reading);
                    match parse_precedence(behind, token.line, next, reading) {
                        Parsed::Done { expr: right, rest } => {
                            let both = Expr::Binary {
                                operator,
                                line: token.line,
                                left: Box::new(left),
                                right: Box::new(right),
                            };
                            let n = render(left).len() as int;
                            assert(items[0] == whole[n]);
                            assert forall|i: int| 0 <= i < render(both).len() implies same_token(
                                #[trigger] whole[i],
                                render(both)[i],
                            ) by {
                                if i < n {
                                    assert(render(both)[i] == render(left)[i]);
                                } else if i > n {
                                    assert(whole[i] == behind[i - n - 1]);
                                    assert(render(both)[i] == render(right)[i - n - 1]);
                                }
                            }
                            assert(rest =~= whole.skip(render(both).len() as int));
                            lemma_infix_faithful(whole, both, rest, min, reading);
                        },
                        Parsed::Failed(_) => {},
                    }
                }
            },
            None => {},
        }
    }
}

/// An expression that the parser finds is a faithful reading of the
/// tokens it took.
pub proof fn lemma_parse_faithful(
    items: Seq<Result<Lexeme, LexError>>,
    line: u32,
    min: u8,
    reading: spec_fn(Seq<char>) -> Option<u64>,
)
    requires
        min <= UNARY,
    ensures
        match parse_precedence(items, line, min, reading) {
            Parsed::Done { expr, rest } => faithful(items, expr, rest, min, reading),
            Parsed::Failed(_) => true,
        },
    decreases items.len(), 2nat,
{
    lemma_prefix_faithful(items, line, reading);
    lemma_prefix_consumes(items, line, reading);
    match parse_prefix(items, line, reading) {
        Parsed::Done { expr, rest } => {
            lemma_infix_faithful(items, expr, rest, min, reading);
        },
        Parsed::Failed(_) => {},
    }
}

/// The parser accepts nothing but expressions. Where it makes an
/// expression of a token sequence, the tree respects precedence and
/// associativity, its literals can be read, and its tokens are the whole
/// sequence, one for one.
pub proof fn theorem_parsed_tree_spells_the_tokens(
    items: Seq<Result<Lexeme, LexError>>,
    reading: spec_fn(Seq<char>) -> Option<u64>,
)
    ensures
        match parse(items, reading) {
            Ok(e) => shaped(e) && readable(e, reading) && spells(items, e, Seq::empty()),
            Err(_) => true,
        },
{
    lemma_parse_faithful(items, 1, TERM, reading);
}

/// Whatever the compiler accepts runs without an error: the chunk
/// compiled from a token sequence hands back the value of the expression
/// that the sequence spells.
pub proof fn theorem_compiled_chunks_run(
    items: Seq<Result<Lexeme, LexError>>,
    reading: spec_fn(Seq<char>) -> Option<u64>,
    m: spec_fn(Operator, u64, u64) -> u64,
)
    requires
        parse(items, reading) is Ok,
        literals(parse(items, reading)->Ok_0) <= usize::MAX,
    ensures
        ({
            let e = parse(items, reading)->Ok_0;
            run_from(emit(e, 0).push(Opcode::Return), pool(e, reading), 0, Seq::empty(), m)
                == Ok::<Value, RuntimeError>(Value::Number(eval(e, reading, m)))
        }),
{
    theorem_parsed_tree_spells_the_tokens(items, reading);
    lemma_compiled_chunk_evaluates(parse(items, reading)->Ok_0, reading, m);
}

} // verus!
