//! The compiler: one pass over the tokens of an expression, which writes
//! bytecode as it goes and builds no tree.

use crate::chunk::{Chunk, Opcode};
use crate::expr::{
    emit, last_line, lemma_sizes, lines, opcode_of, pool, precedence, Expr, FACTOR, TERM, UNARY,
};
use crate::number::{reads_all, reads_as, Operator};
use crate::token::{item_view, stream, LexError, LexErrorKind, Lexeme, Token, TokenKind, Tokens};
use crate::value::Value;
use vstd::prelude::*;

verus! {

/// The ways in which a text can fail to be one arithmetic expression.
#[derive(Clone, Copy, Debug, PartialEq, Eq, Structural)]
pub enum CompileErrorKind {
    /// The tokenizer failed where the compiler looked for a token.
    Lexical(LexErrorKind),
    /// An expression had to start, and what stands there starts none.
    ExpectedExpression,
    /// A group was not closed where its expression ended.
    ExpectedRightParen,
    /// Something follows the expression.
    UnexpectedToken,
    /// A number token that the reading of literals makes no number of.
    InvalidNumber,
}

/// A compile error, and the line of the token that caused it. Where the
/// text ended too early, that is the line of its last token.
#[derive(Clone, Copy, Debug, PartialEq, Eq, Structural)]
pub struct CompileError {
    pub kind: CompileErrorKind,
    pub line: u32,
}

/// The readable text of a compile error.
pub open spec fn compile_message_of(kind: CompileErrorKind) -> Seq<char> {
    match kind {
        CompileErrorKind::Lexical(LexErrorKind::UnexpectedCharacter) => "Unexpected character"@,
        CompileErrorKind::Lexical(LexErrorKind::UnterminatedString) => "Unterminated String"@,
        CompileErrorKind::ExpectedExpression => "Expect expression"@,
        CompileErrorKind::ExpectedRightParen => "Expect ')' after expression"@,
        CompileErrorKind::UnexpectedToken => "Unexpected token after expression"@,
        CompileErrorKind::InvalidNumber => "Invalid number"@,
    }
}

impl CompileError {
    /// The readable text of the error.
    pub fn message(&self) -> (text: &'static str)
        ensures
            text@ == compile_message_of(self.kind),
    {
        match self.kind {
            CompileErrorKind::Lexical(LexErrorKind::UnexpectedCharacter) => "Unexpected character",
            CompileErrorKind::Lexical(LexErrorKind::UnterminatedString) => "Unterminated String",
            CompileErrorKind::ExpectedExpression => "Expect expression",
            CompileErrorKind::ExpectedRightParen => "Expect ')' after expression",
            CompileErrorKind::UnexpectedToken => "Unexpected token after expression",
            CompileErrorKind::InvalidNumber => "Invalid number",
        }
    }
}

/// The compile error that a lexical error becomes.
pub open spec fn lexical(error: LexError) -> CompileError {
    CompileError { kind: CompileErrorKind::Lexical(error.kind), line: error.line }
}

/// The operator that a token spells between two operands.
pub open spec fn infix_operator(kind: TokenKind) -> Option<Operator> {
    match kind {
        TokenKind::Plus => Some(Operator::Add),
        TokenKind::Minus => Some(Operator::Subtract),
        TokenKind::Star => Some(Operator::Multiply),
        TokenKind::Slash => Some(Operator::Divide),
        _ => None,
    }
}

/// What parsing a piece of the token sequence gives.
pub enum Parsed {
    /// An expression, and the tokens behind it.
    Done { expr: Expr, rest: Seq<Result<Lexeme, LexError>> },
    /// The first error.
    Failed(CompileError),
}

/// The error for a sequence that holds `found` where something else had to
/// stand: the lexical error if `found` is one, else an error of kind
/// `kind` on the line of the token, or on `line` where the sequence ends.
pub open spec fn mismatch(
    items: Seq<Result<Lexeme, LexError>>,
    line: u32,
    kind: CompileErrorKind,
) -> CompileError {
    if items.len() == 0 {
        CompileError { kind, line }
    } else {
        match items[0] {
            Err(error) => lexical(error),
            Ok(token) => CompileError { kind, line: token.line },
        }
    }
}

/// An operand at the head of `items`: a number, a group, or a minus sign
/// and its operand. `line` is the line of the token before `items`.
pub open spec fn parse_prefix(
    items: Seq<Result<Lexeme, LexError>>,
    line: u32,
    reading: spec_fn(Seq<char>) -> Option<u64>,
) -> Parsed
    decreases items.len(), 0nat,
{
    if items.len() > 0 && items[0] is Ok {
        let token = items[0]->Ok_0;
        let behind = items.drop_first();
        match token.kind {
            TokenKind::Number => if reading(token.text) is Some {
                Parsed::Done { expr: Expr::Number { text: token.text, line: token.line }, rest: behind }
            } else {
                Parsed::Failed(
                    CompileError { kind: CompileErrorKind::InvalidNumber, line: token.line },
                )
            },
            TokenKind::LeftParen => match parse_precedence(behind, token.line, TERM, reading) {
                Parsed::Failed(error) => Parsed::Failed(error),
                Parsed::Done { expr, rest } => if rest.len() > 0 && rest[0] is Ok
                    && rest[0]->Ok_0.kind == TokenKind::RightParen {
                    Parsed::Done {
                        expr: Expr::Group {
                            open: token.line,
                            inner: Box::new(expr),
                            close: rest[0]->Ok_0.line,
                        },
                        rest: rest.drop_first(),
                    }
                } else {
                    Parsed::Failed(
                        mismatch(rest, last_line(expr), CompileErrorKind::ExpectedRightParen),
                    )
                },
            },
            TokenKind::Minus => match parse_precedence(behind, token.line, UNARY, reading) {
                Parsed::Failed(error) => Parsed::Failed(error),
                Parsed::Done { expr, rest } => Parsed::Done {
                    expr: Expr::Negate { line: token.line, operand: Box::new(expr) },
                    rest,
                },
            },
            _ => Parsed::Failed(mismatch(items, line, CompileErrorKind::ExpectedExpression)),
        }
    } else {
        Parsed::Failed(mismatch(items, line, CompileErrorKind::ExpectedExpression))
    }
}

/// The operators and right operands that follow the operand `left`, as
/// long as the operators bind at least as tightly as `min`. Each right
/// operand takes what binds more tightly than its operator, so that
/// operators of one strength group from the left.
///
/// The test on the lengths is there to show that the recursion ends; it
/// never fails (`lemma_parse_consumes`).
pub open spec fn parse_infix(
    left: Expr,
    items: Seq<Result<Lexeme, LexError>>,
    min: u8,
    reading: spec_fn(Seq<char>) -> Option<u64>,
) -> Parsed
    decreases items.len(), 1nat,
{
    if items.len() == 0 {
        Parsed::Done { expr: left, rest: items }
    } else {
        match items[0] {
            Err(error) => Parsed::Failed(lexical(error)),
            Ok(token) => match infix_operator(token.kind) {
                Some(operator) => if precedence(operator) >= min {
                    match parse_precedence(
                        items.drop_first(),
                        token.line,
                        (precedence(operator) + 1) as u8,
                        reading,
                    ) {
                        Parsed::Failed(error) => Parsed::Failed(error),
                        Parsed::Done { expr, rest } => if rest.len() < items.len() {
                            parse_infix(
                                Expr::Binary {
                                    operator,
                                    line: token.line,
                                    left: Box::new(left),
                                    right: Box::new(expr),
                                },
                                rest,
                                min,
                                reading,
                            )
                        } else {
                            Parsed::Failed(no_progress())
                        },
                    }
                } else {
                    Parsed::Done { expr: left, rest: items }
                },
                None => Parsed::Done { expr: left, rest: items },
            },
        }
    }
}

/// An expression at the head of `items` whose operators outside of groups
/// bind at least as tightly as `min`: an operand, then the operators and
/// operands that follow it.
///
/// The test on the lengths is there to show that the recursion ends; it
/// never fails (`lemma_parse_consumes`).
pub open spec fn parse_precedence(
    items: Seq<Result<Lexeme, LexError>>,
    line: u32,
    min: u8,
    reading: spec_fn(Seq<char>) -> Option<u64>,
) -> Parsed
    decreases items.len(), 2nat,
{
    match parse_prefix(items, line, reading) {
        Parsed::Failed(error) => Parsed::Failed(error),
        Parsed::Done { expr, rest } => if rest.len() < items.len() {
            parse_infix(expr, rest, min, reading)
        } else {
            Parsed::Failed(no_progress())
        },
    }
}

/// What the two parsing functions give where their test on the lengths
/// fails, which it never does.
pub open spec fn no_progress() -> CompileError {
    CompileError { kind: CompileErrorKind::ExpectedExpression, line: 0 }
}

/// The expression that the whole of `items` spells, or the first error: a
/// token behind the expression is one.
pub open spec fn parse(
    items: Seq<Result<Lexeme, LexError>>,
    reading: spec_fn(Seq<char>) -> Option<u64>,
) -> Result<Expr, CompileError> {
    match parse_precedence(items, 1, TERM, reading) {
        Parsed::Failed(error) => Err(error),
        Parsed::Done { expr, rest } => if rest.len() == 0 {
            Ok(expr)
        } else {
            Err(mismatch(rest, 0, CompileErrorKind::UnexpectedToken))
        },
    }
}

/// An operand takes at least one token.
pub proof fn lemma_prefix_consumes(
    items: Seq<Result<Lexeme, LexError>>,
    line: u32,
    reading: spec_fn(Seq<char>) -> Option<u64>,
)
    ensures
        match parse_prefix(items, line, reading) {
            Parsed::Done { expr, rest } => rest.len() < items.len(),
            Parsed::Failed(_) => true,
        },
    decreases items.len(), 0nat,
{
    if items.len() > 0 && items[0] is Ok {
        let token = items[0]->Ok_0;
        let behind = items.drop_first();
        match token.kind {
            TokenKind::LeftParen => {
                lemma_parse_consumes(behind, token.line, TERM, reading);
            },
            TokenKind::Minus => {
                lemma_parse_consumes(behind, token.line, UNARY, reading);
            },
            _ => {},
        }
    }
}

/// What follows an operand leaves no more tokens than there were.
pub proof fn lemma_infix_consumes(
    left: Expr,
    items: Seq<Result<Lexeme, LexError>>,
    min: u8,
    reading: spec_fn(Seq<char>) -> Option<u64>,
)
    ensures
        match parse_infix(left, items, min, reading) {
            Parsed::Done { expr, rest } => rest.len() <= items.len(),
            Parsed::Failed(_) => true,
        },
    decreases items.len(), 1nat,
{
    if items.len() > 0 && items[0] is Ok {
        let token = items[0]->Ok_0;
        match infix_operator(token.kind) {
            Some(operator) => {
                if precedence(operator) >= min {
                    let next = (precedence(operator) + 1) as u8;
                    lemma_parse_consumes(items.drop_first(), token.line, next, reading);
                    match parse_precedence(items.drop_first(), token.line, next, reading) {
                        Parsed::Done { expr, rest } => {
                            lemma_infix_consumes(
                                Expr::Binary {
                                    operator,
                                    line: token.line,
                                    left: Box::new(left),
                                    right: Box::new(expr),
                                },
                                rest,
                                min,
                                reading,
                            );
                        },
                        Parsed::Failed(_) => {},
                    }
                }
            },
            None => {},
        }
    }
}

/// An expression takes at least one token.
pub proof fn lemma_parse_consumes(
    items: Seq<Result<Lexeme, LexError>>,
    line: u32,
    min: u8,
    reading: spec_fn(Seq<char>) -> Option<u64>,
)
    ensures
        match parse_precedence(items, line, min, reading) {
            Parsed::Done { expr, rest } => rest.len() < items.len(),
            Parsed::Failed(_) => true,
        },
    decreases items.len(), 2nat,
{
    lemma_prefix_consumes(items, line, reading);
    match parse_prefix(items, line, reading) {
        Parsed::Done { expr, rest } => {
            lemma_infix_consumes(expr, rest, min, reading);
        },
        Parsed::Failed(_) => {},
    }
}

/// The chunk `after` is the chunk `before` with the bytecode of `e`
/// written behind it.
pub open spec fn extended(
    after: Chunk,
    before: Chunk,
    e: Expr,
    reading: spec_fn(Seq<char>) -> Option<u64>,
) -> bool {
    &&& after.code@ == before.code@ + emit(e, before.constants@.len())
    &&& after.constants@ == before.constants@ + pool(e, reading)
    &&& after.lines@ == before.lines@ + lines(e)
}

/// The chunk is the bytecode of `e` and the `Return` that ends it.
pub open spec fn compiled(
    chunk: Chunk,
    e: Expr,
    reading: spec_fn(Seq<char>) -> Option<u64>,
) -> bool {
    &&& chunk.code@ == emit(e, 0).push(Opcode::Return)
    &&& chunk.constants@ == pool(e, reading)
    &&& chunk.lines@ == lines(e).push(last_line(e))
}

/// The operator that a token spells between two operands.
pub fn infix_operator_of(kind: TokenKind) -> (r: Option<Operator>)
    ensures
        r == infix_operator(kind),
{
    match kind {
        TokenKind::Plus => Some(Operator::Add),
        TokenKind::Minus => Some(Operator::Subtract),
        TokenKind::Star => Some(Operator::Multiply),
        TokenKind::Slash => Some(Operator::Divide),
        _ => None,
    }
}

/// How tightly an operator binds.
pub fn precedence_of(operator: Operator) -> (r: u8)
    ensures
        r == precedence(operator),
{
    match operator {
        Operator::Add | Operator::Subtract => TERM,
        Operator::Multiply | Operator::Divide => FACTOR,
    }
}

/// The instruction that carries out an operator.
pub fn instruction_of(operator: Operator) -> (r: Opcode)
    ensures
        r == opcode_of(operator),
{
    match operator {
        Operator::Add => Opcode::Add,
        Operator::Subtract => Opcode::Subtract,
        Operator::Multiply => Opcode::Multiply,
        Operator::Divide => Opcode::Divide,
    }
}

/// The compiler of one expression: the tokenizer it reads from, the token
/// it looks at, the line of the token before that one, and the chunk it
/// writes.
#[derive(Debug)]
pub struct Compiler<'a> {
    tokens: Tokens<'a>,
    lookahead: Option<Result<Token<'a>, LexError>>,
    previous: u32,
    chunk: Chunk,
}

impl<'a> Compiler<'a> {
    /// The tokens that the compiler has not consumed: the one it looks at,
    /// and those that the tokenizer still holds.
    pub closed spec fn pending(&self) -> Seq<Result<Lexeme, LexError>> {
        match self.lookahead {
            None => Seq::empty(),
            Some(item) => seq![item_view(item)] + self.tokens.remaining(),
        }
    }

    /// The compiler is consistent, whatever it has written.
    spec fn inv(&self) -> bool {
        &&& self.tokens.wf()
        &&& self.lookahead is None ==> self.tokens.remaining().len() == 0
        &&& self.chunk.well_formed()
    }

    /// The compiler is consistent and has written nothing yet.
    pub closed spec fn wf(&self) -> bool {
        &&& self.inv()
        &&& self.previous == 1
        &&& self.chunk.code@.len() == 0
        &&& self.chunk.constants@.len() == 0
        &&& self.chunk.lines@.len() == 0
    }

    /// The compiler has gone from `before` over the expression `e` to the
    /// tokens `rest`, and has written the bytecode of `e`.
    spec fn went(
        &self,
        before: &Compiler<'a>,
        e: Expr,
        rest: Seq<Result<Lexeme, LexError>>,
        reading: spec_fn(Seq<char>) -> Option<u64>,
    ) -> bool {
        &&& self.pending() == rest
        &&& self.previous == last_line(e)
        &&& extended(self.chunk, before.chunk, e, reading)
    }

    /// A compiler that reads from `tokens` and has an empty chunk.
    pub fn new(tokens: Tokens<'a>) -> (compiler: Compiler<'a>)
        requires
            tokens.wf(),
        ensures
            compiler.wf(),
            compiler.pending() == tokens.remaining(),
    {
        let mut tokens = tokens;
        let ghost before = tokens.remaining();
        let lookahead = tokens.next();
        let compiler = Compiler { tokens, lookahead, previous: 1, chunk: Chunk::new() };
        proof {
            assert(compiler.pending() =~= before);
        }
        compiler
    }

    /// Consumes the token that the compiler looks at.
    fn advance(&mut self)
        requires
            old(self).inv(),
            old(self).lookahead is Some,
            old(self).lookahead->0 is Ok,
        ensures
            final(self).inv(),
            final(self).pending() == old(self).pending().drop_first(),
            final(self).previous == old(self).lookahead->0->Ok_0.line,
            final(self).chunk == old(self).chunk,
    {
        if let Some(Ok(token)) = self.lookahead {
            self.previous = token.line;
        }
        let ghost held = self.tokens.remaining();
        self.lookahead = self.tokens.next();
        proof {
            assert(self.pending() =~= held);
            assert(held =~= old(self).pending().drop_first());
        }
    }

    /// The error for a token, or an end, that stands where something else
    /// had to stand.
    fn unexpected(&self, kind: CompileErrorKind) -> (error: CompileError)
        ensures
            error == mismatch(self.pending(), self.previous, kind),
    {
        match self.lookahead {
            None => CompileError { kind, line: self.previous },
            Some(Err(error)) => CompileError {
                kind: CompileErrorKind::Lexical(error.kind),
                line: error.line,
            },
            Some(Ok(token)) => CompileError { kind, line: token.line },
        }
    }

    /// Compiles the operand at the head of the tokens.
    fn prefix<L: Fn(&str) -> Option<u64>>(&mut self, literal: &L) -> (result: Result<
        (),
        CompileError,
    >)
        requires
            old(self).inv(),
            reads_all(*literal),
        ensures
            result is Ok ==> final(self).inv() && final(self).pending().len() < old(self).pending().len(),
            forall|reading: spec_fn(Seq<char>) -> Option<u64>| #[trigger]
                reads_as(*literal, reading) ==> match parse_prefix(
                    old(self).pending(),
                    old(self).previous,
                    reading,
                ) {
                    Parsed::Done { expr, rest } => result is Ok && final(self).went(
                        old(self),
                        expr,
                        rest,
                        reading,
                    ),
                    Parsed::Failed(error) => result == Err::<(), CompileError>(error),
                },
        decreases old(self).pending().len(), 0nat,
    {
        let ghost items = self.pending();
        let token: Token<'a> = match self.lookahead {
            Some(Ok(token)) => token,
            _ => {
                return Err(self.unexpected(CompileErrorKind::ExpectedExpression));
            },
        };
        assert(items[0] == Ok::<Lexeme, LexError>(token@));
        match token.kind {
            TokenKind::Number => {
                let read: Option<u64> = literal(token.source);
                match read {
                    Some(bits) => {
                        self.advance();
                        self.chunk.write_constant(Value::Number(bits), token.line);
                        proof {
                            assert forall|reading: spec_fn(Seq<char>) -> Option<u64>| #[trigger]
                                reads_as(*literal, reading) implies self.went(
                                old(self),
                                Expr::Number { text: token@.text, line: token.line },
                                items.drop_first(),
                                reading,
                            ) by {
                                let e = Expr::Number { text: token@.text, line: token.line };
                                assert(read == reading(token@.text));
                                assert(self.chunk.code@ =~= old(self).chunk.code@ + emit(
                                    e,
                                    old(self).chunk.constants@.len(),
                                ));
                                assert(self.chunk.constants@ =~= old(self).chunk.constants@ + pool(
                                    e,
                                    reading,
                                ));
                                assert(self.chunk.lines@ =~= old(self).chunk.lines@ + lines(e));
                            }
                        }
                        Ok(())
                    },
                    None => Err(
                        CompileError { kind: CompileErrorKind::InvalidNumber, line: token.line },
                    ),
                }
            },
            TokenKind::LeftParen => {
                self.advance();
                match self.expression(TERM, literal) {
                    Err(error) => {
                        return Err(error);
                    },
                    Ok(()) => {},
                }
                match self.lookahead {
                    Some(Ok(close)) => {
                        if close.kind == TokenKind::RightParen {
                            self.advance();
                            return Ok(());
                        }
                    },
                    _ => {},
                }
                Err(self.unexpected(CompileErrorKind::ExpectedRightParen))
            },
            TokenKind::Minus => {
                self.advance();
                match self.expression(UNARY, literal) {
                    Err(error) => {
                        return Err(error);
                    },
                    Ok(()) => {},
                }
                self.chunk.write_code(Opcode::Negate, token.line);
                Ok(())
            },
            _ => Err(self.unexpected(CompileErrorKind::ExpectedExpression)),
        }
    }

    /// Compiles the expression at the head of the tokens whose operators
    /// bind at least as tightly as `min`.
    fn expression<L: Fn(&str) -> Option<u64>>(&mut self, min: u8, literal: &L) -> (result: Result<
        (),
        CompileError,
    >)
        requires
            old(self).inv(),
            reads_all(*literal),
        ensures
            result is Ok ==> final(self).inv() && final(self).pending().len() < old(self).pending().len(),
            forall|reading: spec_fn(Seq<char>) -> Option<u64>| #[trigger]
                reads_as(*literal, reading) ==> match parse_precedence(
                    old(self).pending(),
                    old(self).previous,
                    min,
                    reading,
                ) {
                    Parsed::Done { expr, rest } => result is Ok && final(self).went(
                        old(self),
                        expr,
                        rest,
                        reading,
                    ),
                    Parsed::Failed(error) => result == Err::<(), CompileError>(error),
                },
        decreases old(self).pending().len(), 2nat,
    {
        let ghost items = self.pending();
        let ghost line = self.previous;
        match self.prefix(literal) {
            Err(error) => {
                return Err(error);
            },
            Ok(()) => {},
        }
        let ghost mut left = |reading: spec_fn(Seq<char>) -> Option<u64>|
            parse_prefix(items, line, reading)->expr;
        loop
            invariant
                self.inv(),
                reads_all(*literal),
                items == old(self).pending(),
                self.pending().len() < items.len(),
                forall|reading: spec_fn(Seq<char>) -> Option<u64>| #[trigger]
                    reads_as(*literal, reading) ==> {
                        &&& parse_precedence(items, line, min, reading) == parse_infix(
                            left(reading),
                            self.pending(),
                            min,
                            reading,
                        )
                        &&& self.went(old(self), left(reading), self.pending(), reading)
                    },
            decreases self.pending().len(),
        {
            let token: Token<'a> = match self.lookahead {
                None => {
                    return Ok(());
                },
                Some(Err(error)) => {
                    return Err(
                        CompileError {
                            kind: CompileErrorKind::Lexical(error.kind),
                            line: error.line,
                        },
                    );
                },
                Some(Ok(token)) => token,
            };
            let operator: Operator = match infix_operator_of(token.kind) {
                Some(operator) => operator,
                None => {
                    return Ok(());
                },
            };
            let binding: u8 = precedence_of(operator);
            if binding < min {
                return Ok(());
            }
            let ghost here = self.pending();
            assert(here[0] == Ok::<Lexeme, LexError>(token@));
            self.advance();
            match self.expression(binding + 1, literal) {
                Err(error) => {
                    return Err(error);
                },
                Ok(()) => {},
            }
            self.chunk.write_code(instruction_of(operator), token.line);
            proof {
                let before = left;
                let next = (binding + 1) as u8;
                left =
                |reading: spec_fn(Seq<char>) -> Option<u64>|
                    Expr::Binary {
                        operator,
                        line: token.line,
                        left: Box::new(before(reading)),
                        right: Box::new(
                            parse_precedence(here.drop_first(), token.line, next, reading)->expr,
                        ),
                    };
                assert forall|reading: spec_fn(Seq<char>) -> Option<u64>| #[trigger]
                    reads_as(*literal, reading) implies {
                    &&& parse_precedence(items, line, min, reading) == parse_infix(
                        left(reading),
                        self.pending(),
                        min,
                        reading,
                    )
                    &&& self.went(old(self), left(reading), self.pending(), reading)
                } by {
                    let whole = left(reading);
                    lemma_parse_consumes(here.drop_first(), token.line, next, reading);
                    lemma_sizes(before(reading), old(self).chunk.constants@.len(), reading);
                    assert(self.chunk.code@ =~= old(self).chunk.code@ + emit(
                        whole,
                        old(self).chunk.constants@.len(),
                    ));
                    assert(self.chunk.constants@ =~= old(self).chunk.constants@ + pool(
                        whole,
                        reading,
                    ));
                    assert(self.chunk.lines@ =~= old(self).chunk.lines@ + lines(whole));
                }
            }
        }
    }

    /// Compiles the tokens into a chunk: the bytecode of the one
    /// expression that they spell, ended by a `Return`. Number literals
    /// are read by `literal`; whatever reading that is, the result is the
    /// one that parsing under it gives.
    pub fn compile<L: Fn(&str) -> Option<u64>>(self, literal: L) -> (result: Result<
        Chunk,
        CompileError,
    >)
        requires
            self.wf(),
            reads_all(literal),
        ensures
            result is Ok ==> result->Ok_0.well_formed(),
            forall|reading: spec_fn(Seq<char>) -> Option<u64>| #[trigger]
                reads_as(literal, reading) ==> match parse(self.pending(), reading) {
                    Ok(e) => result is Ok && compiled(result->Ok_0, e, reading),
                    Err(error) => result == Err::<Chunk, CompileError>(error),
                },
    {
        let mut compiler = self;
        match compiler.expression(TERM, &literal) {
            Err(error) => {
                return Err(error);
            },
            Ok(()) => {},
        }
        if compiler.lookahead.is_some() {
            return Err(compiler.unexpected(CompileErrorKind::UnexpectedToken));
        }
        compiler.chunk.write_code(Opcode::Return, compiler.previous);
        proof {
            assert(seq![Opcode::Return][0] == Opcode::Return);
            assert forall|reading: spec_fn(Seq<char>) -> Option<u64>| #[trigger]
                reads_as(literal, reading) implies compiled(
                compiler.chunk,
                parse(self.pending(), reading)->Ok_0,
                reading,
            ) by {
                let e = parse(self.pending(), reading)->Ok_0;
                assert(compiler.chunk.code@ =~= emit(e, 0).push(Opcode::Return));
                assert(compiler.chunk.constants@ =~= pool(e, reading));
                assert(compiler.chunk.lines@ =~= lines(e).push(last_line(e)));
            }
        }
        Ok(compiler.chunk)
    }
}

/// Compiles a source text into a chunk. Number literals are read by
/// `literal`; whatever reading that is, the result is the one that parsing
/// the tokens of the text under it gives.
pub fn compile<L: Fn(&str) -> Option<u64>>(source: &str, literal: L) -> (result: Result<
    Chunk,
    CompileError,
>)
    requires
        reads_all(literal),
    ensures
        result is Ok ==> result->Ok_0.well_formed(),
        forall|reading: spec_fn(Seq<char>) -> Option<u64>| #[trigger]
            reads_as(literal, reading) ==> match parse(stream(source@, 0), reading) {
                Ok(e) => result is Ok && compiled(result->Ok_0, e, reading),
                Err(error) => result == Err::<Chunk, CompileError>(error),
            },
{
    Compiler::new(Tokens::new(source)).compile(literal)
}

} // verus!
