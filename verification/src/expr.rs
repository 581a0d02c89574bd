//! Arithmetic expressions as trees. The compiler never builds one: they
//! exist in contracts only, to say what a token sequence means and what
//! the bytecode compiled from it computes.

use crate::chunk::Opcode;
use crate::number::{negated, Operator};
use crate::token::{Lexeme, TokenKind};
use crate::value::Value;
use vstd::prelude::*;

verus! {

/// An arithmetic expression. Each node keeps the lines of its own tokens.
pub enum Expr {
    /// A number literal: its text and its line.
    Number { text: Seq<char>, line: u32 },
    /// A minus sign before an operand.
    Negate { line: u32, operand: Box<Expr> },
    /// An operator between two operands.
    Binary { operator: Operator, line: u32, left: Box<Expr>, right: Box<Expr> },
    /// An expression in parentheses.
    Group { open: u32, inner: Box<Expr>, close: u32 },
}

/// How tightly sums and differences bind.
pub const TERM: u8 = 1;

/// How tightly products and quotients bind.
pub const FACTOR: u8 = 2;

/// How tightly a minus sign binds its operand, and what a literal or a
/// group counts as.
pub const UNARY: u8 = 3;

/// How tightly an operator binds.
pub open spec fn precedence(operator: Operator) -> u8 {
    match operator {
        Operator::Add | Operator::Subtract => TERM,
        Operator::Multiply | Operator::Divide => FACTOR,
    }
}

/// The token that spells an operator.
pub open spec fn token_of(operator: Operator) -> TokenKind {
    match operator {
        Operator::Add => TokenKind::Plus,
        Operator::Subtract => TokenKind::Minus,
        Operator::Multiply => TokenKind::Star,
        Operator::Divide => TokenKind::Slash,
    }
}

/// The text of the token that spells an operator.
pub open spec fn text_of(operator: Operator) -> Seq<char> {
    match operator {
        Operator::Add => seq!['+'],
        Operator::Subtract => seq!['-'],
        Operator::Multiply => seq!['*'],
        Operator::Divide => seq!['/'],
    }
}

/// The instruction that carries out an operator.
pub open spec fn opcode_of(operator: Operator) -> Opcode {
    match operator {
        Operator::Add => Opcode::Add,
        Operator::Subtract => Opcode::Subtract,
        Operator::Multiply => Opcode::Multiply,
        Operator::Divide => Opcode::Divide,
    }
}

/// The binding strength of an expression's outermost construct.
pub open spec fn level(e: Expr) -> u8 {
    match e {
        Expr::Binary { operator, .. } => precedence(operator),
        _ => UNARY,
    }
}

/// The tree respects precedence and associativity: the left operand of an
/// operator binds at least as tightly as the operator, its right operand
/// more tightly, and the operand of a minus sign is not an operation.
/// Whatever binds too loosely for its place stands in a group.
pub open spec fn shaped(e: Expr) -> bool
    decreases e,
{
    match e {
        Expr::Number { .. } => true,
        Expr::Negate { operand, .. } => level(*operand) >= UNARY && shaped(*operand),
        Expr::Binary { operator, left, right, .. } => {
            &&& level(*left) >= precedence(operator)
            &&& level(*right) > precedence(operator)
            &&& shaped(*left)
            &&& shaped(*right)
        },
        Expr::Group { inner, .. } => shaped(*inner),
    }
}

/// Every literal of the expression can be read.
pub open spec fn readable(e: Expr, reading: spec_fn(Seq<char>) -> Option<u64>) -> bool
    decreases e,
{
    match e {
        Expr::Number { text, .. } => reading(text) is Some,
        Expr::Negate { operand, .. } => readable(*operand, reading),
        Expr::Binary { left, right, .. } => readable(*left, reading) && readable(
            *right,
            reading,
        ),
        Expr::Group { inner, .. } => readable(*inner, reading),
    }
}

/// The value of the expression: literals are read by `reading`, a minus
/// sign flips the sign, and `m` carries out the operators, each on the
/// values of its left and right operands.
pub open spec fn eval(
    e: Expr,
    reading: spec_fn(Seq<char>) -> Option<u64>,
    m: spec_fn(Operator, u64, u64) -> u64,
) -> u64
    decreases e,
{
    match e {
        Expr::Number { text, .. } => reading(text)->0,
        Expr::Negate { operand, .. } => negated(eval(*operand, reading, m)),
        Expr::Binary { operator, left, right, .. } => m(
            operator,
            eval(*left, reading, m),
            eval(*right, reading, m),
        ),
        Expr::Group { inner, .. } => eval(*inner, reading, m),
    }
}

/// The tokens that spell the expression, in order.
pub open spec fn render(e: Expr) -> Seq<Lexeme>
    decreases e,
{
    match e {
        Expr::Number { text, line } => seq![Lexeme { kind: TokenKind::Number, text, line }],
        Expr::Negate { line, operand } => seq![
            Lexeme { kind: TokenKind::Minus, text: seq!['-'], line },
        ] + render(*operand),
        Expr::Binary { operator, line, left, right } => render(*left) + seq![
            Lexeme { kind: token_of(operator), text: text_of(operator), line },
        ] + render(*right),
        Expr::Group { open, inner, close } => seq![
            Lexeme { kind: TokenKind::LeftParen, text: seq!['('], line: open },
        ] + render(*inner) + seq![
            Lexeme { kind: TokenKind::RightParen, text: seq![')'], line: close },
        ],
    }
}

/// The line of the expression's last token.
pub open spec fn last_line(e: Expr) -> u32
    decreases e,
{
    match e {
        Expr::Number { line, .. } => line,
        Expr::Negate { operand, .. } => last_line(*operand),
        Expr::Binary { right, .. } => last_line(*right),
        Expr::Group { close, .. } => close,
    }
}

/// The number of literals in the expression.
pub open spec fn literals(e: Expr) -> nat
    decreases e,
{
    match e {
        Expr::Number { .. } => 1,
        Expr::Negate { operand, .. } => literals(*operand),
        Expr::Binary { left, right, .. } => literals(*left) + literals(*right),
        Expr::Group { inner, .. } => literals(*inner),
    }
}

/// The constants of the expression: its literals, from left to right.
pub open spec fn pool(e: Expr, reading: spec_fn(Seq<char>) -> Option<u64>) -> Seq<Value>
    decreases e,
{
    match e {
        Expr::Number { text, .. } => seq![Value::Number(reading(text)->0)],
        Expr::Negate { operand, .. } => pool(*operand, reading),
        Expr::Binary { left, right, .. } => pool(*left, reading) + pool(*right, reading),
        Expr::Group { inner, .. } => pool(*inner, reading),
    }
}

/// The instructions of the expression, where its constants stand in the
/// pool from slot `base` on: the operands of an operator from left to
/// right, then the operator.
pub open spec fn emit(e: Expr, base: nat) -> Seq<Opcode>
    decreases e,
{
    match e {
        Expr::Number { .. } => seq![Opcode::Constant(base as usize)],
        Expr::Negate { operand, .. } => emit(*operand, base).push(Opcode::Negate),
        Expr::Binary { operator, left, right, .. } => (emit(*left, base) + emit(
            *right,
            base + literals(*left),
        )).push(opcode_of(operator)),
        Expr::Group { inner, .. } => emit(*inner, base),
    }
}

/// For each instruction of the expression, the line of the token it was
/// compiled from.
pub open spec fn lines(e: Expr) -> Seq<u32>
    decreases e,
{
    match e {
        Expr::Number { line, .. } => seq![line],
        Expr::Negate { line, operand } => lines(*operand).push(line),
        Expr::Binary { line, left, right, .. } => (lines(*left) + lines(*right)).push(line),
        Expr::Group { inner, .. } => lines(*inner),
    }
}

/// An expression has as many constants as literals, and one line for
/// each instruction.
pub proof fn lemma_sizes(e: Expr, base: nat, reading: spec_fn(Seq<char>) -> Option<u64>)
    ensures
        pool(e, reading).len() == literals(e),
        lines(e).len() == emit(e, base).len(),
        emit(e, base).len() >= 1,
    decreases e,
{
    match e {
        Expr::Number { .. } => {},
        Expr::Negate { operand, .. } => {
            lemma_sizes(*operand, base, reading);
        },
        Expr::Binary { left, right, .. } => {
            lemma_sizes(*left, base, reading);
            lemma_sizes(*right, base + literals(*left), reading);
        },
        Expr::Group { inner, .. } => {
            lemma_sizes(*inner, base, reading);
        },
    }
}

} // verus!
