//! The tokenizer: one forward pass over the characters of a source text.

use crate::unicode::{alphabetic, numeric, whitespace};
use vstd::prelude::*;
use vstd::std_specs::iter::IteratorSpec;

verus! {

/// The kinds of token.
#[derive(Clone, Copy, Debug, PartialEq, Eq, Structural)]
pub enum TokenKind {
    LeftParen,
    RightParen,
    LeftBrace,
    RightBrace,
    Semicolon,
    Comma,
    Dot,
    Plus,
    Minus,
    Star,
    Slash,
    Equal,
    EqualEqual,
    Bang,
    BangEqual,
    Greater,
    GreaterEqual,
    Less,
    LessEqual,
    String,
    Number,
    Identifier,
    And,
    Class,
    Else,
    False,
    For,
    Fun,
    If,
    Nil,
    Or,
    Print,
    Return,
    Super,
    This,
    True,
    Var,
    While,
}

/// A token: its kind, the piece of the source text it was cut from, and the
/// line on which that piece starts.
#[derive(Clone, Copy, Debug, PartialEq)]
pub struct Token<'a> {
    pub kind: TokenKind,
    pub source: &'a str,
    pub line: u32,
}

/// A token as contracts see it.
pub struct Lexeme {
    pub kind: TokenKind,
    pub text: Seq<char>,
    pub line: u32,
}

impl<'a> View for Token<'a> {
    type V = Lexeme;

    open spec fn view(&self) -> Lexeme {
        Lexeme { kind: self.kind, text: self.source@, line: self.line }
    }
}

/// The two ways in which a text can fail to be cut into tokens.
#[derive(Clone, Copy, Debug, PartialEq, Eq, Structural)]
pub enum LexErrorKind {
    /// A character with which no token starts.
    UnexpectedCharacter,
    /// A string literal without its closing quote.
    UnterminatedString,
}

/// A lexical error, and the line on which the offending piece starts.
#[derive(Clone, Copy, Debug, PartialEq, Eq, Structural)]
pub struct LexError {
    pub kind: LexErrorKind,
    pub line: u32,
}

/// The readable text of a lexical error.
pub open spec fn lex_message_of(kind: LexErrorKind) -> Seq<char> {
    match kind {
        LexErrorKind::UnexpectedCharacter => "Unexpected character"@,
        LexErrorKind::UnterminatedString => "Unterminated String"@,
    }
}

impl LexError {
    /// The readable text of the error.
    pub fn message(&self) -> (text: &'static str)
        ensures
            text@ == lex_message_of(self.kind),
    {
        match self.kind {
            LexErrorKind::UnexpectedCharacter => "Unexpected character",
            LexErrorKind::UnterminatedString => "Unterminated String",
        }
    }
}

/// The classes of character of which the tokenizer consumes whole runs.
#[derive(Clone, Copy, Debug, PartialEq, Eq, Structural)]
pub enum CharClass {
    /// Blank space between tokens.
    Whitespace,
    /// Anything but the quote that closes a string.
    StringBody,
    /// A digit of a number.
    Digit,
    /// A letter, a digit or an underscore.
    Word,
}

/// `c` belongs to `class`.
pub open spec fn in_class(class: CharClass, c: char) -> bool {
    match class {
        CharClass::Whitespace => whitespace(c),
        CharClass::StringBody => c != '"',
        CharClass::Digit => numeric(c),
        CharClass::Word => alphabetic(c) || numeric(c) || c == '_',
    }
}

/// Where the longest run of characters of `class` that starts at `pos`
/// ends: the first position from `pos` on that holds another character, or
/// the end of the text.
pub open spec fn run_end(s: Seq<char>, pos: int, class: CharClass) -> int
    decreases s.len() - pos,
{
    if 0 <= pos < s.len() && in_class(class, s[pos]) {
        run_end(s, pos + 1, class)
    } else {
        pos
    }
}

/// The number of newlines before `pos`.
pub open spec fn newlines(s: Seq<char>, pos: int) -> nat
    decreases pos,
{
    if pos <= 0 || pos > s.len() {
        0
    } else {
        newlines(s, pos - 1) + if s[pos - 1] == '\n' {
            1nat
        } else {
            0nat
        }
    }
}

/// The line of position `pos`: one more than the newlines before it. The
/// count stops at the largest line number there is.
pub open spec fn line_at(s: Seq<char>, pos: int) -> u32 {
    if 1 + newlines(s, pos) >= u32::MAX {
        u32::MAX
    } else {
        (1 + newlines(s, pos)) as u32
    }
}

/// The token that a punctuation character is by itself.
pub open spec fn punctuation(c: char) -> Option<TokenKind> {
    if c == '(' {
        Some(TokenKind::LeftParen)
    } else if c == ')' {
        Some(TokenKind::RightParen)
    } else if c == '{' {
        Some(TokenKind::LeftBrace)
    } else if c == '}' {
        Some(TokenKind::RightBrace)
    } else if c == ';' {
        Some(TokenKind::Semicolon)
    } else if c == ',' {
        Some(TokenKind::Comma)
    } else if c == '.' {
        Some(TokenKind::Dot)
    } else if c == '+' {
        Some(TokenKind::Plus)
    } else if c == '-' {
        Some(TokenKind::Minus)
    } else if c == '*' {
        Some(TokenKind::Star)
    } else if c == '/' {
        Some(TokenKind::Slash)
    } else {
        None
    }
}

/// The operator that `c` starts, alone and followed by `=`.
pub open spec fn comparison(c: char) -> Option<(TokenKind, TokenKind)> {
    if c == '=' {
        Some((TokenKind::Equal, TokenKind::EqualEqual))
    } else if c == '!' {
        Some((TokenKind::Bang, TokenKind::BangEqual))
    } else if c == '>' {
        Some((TokenKind::Greater, TokenKind::GreaterEqual))
    } else if c == '<' {
        Some((TokenKind::Less, TokenKind::LessEqual))
    } else {
        None
    }
}

/// The kind of a word: the keyword it spells, or an identifier.
pub open spec fn word_kind(text: Seq<char>) -> TokenKind {
    if text == "and"@ {
        TokenKind::And
    } else if text == "class"@ {
        TokenKind::Class
    } else if text == "else"@ {
        TokenKind::Else
    } else if text == "false"@ {
        TokenKind::False
    } else if text == "for"@ {
        TokenKind::For
    } else if text == "fun"@ {
        TokenKind::Fun
    } else if text == "if"@ {
        TokenKind::If
    } else if text == "nil"@ {
        TokenKind::Nil
    } else if text == "or"@ {
        TokenKind::Or
    } else if text == "print"@ {
        TokenKind::Print
    } else if text == "return"@ {
        TokenKind::Return
    } else if text == "super"@ {
        TokenKind::Super
    } else if text == "this"@ {
        TokenKind::This
    } else if text == "true"@ {
        TokenKind::True
    } else if text == "var"@ {
        TokenKind::Var
    } else if text == "while"@ {
        TokenKind::While
    } else {
        TokenKind::Identifier
    }
}

/// Where a number ends whose first digit stands just before `pos`: after
/// the digits that follow, and, if a dot and a digit come next, after the
/// dot and the digits behind it.
pub open spec fn number_end(s: Seq<char>, pos: int) -> int {
    let whole = run_end(s, pos, CharClass::Digit);
    if whole + 1 < s.len() && s[whole] == '.' && numeric(s[whole + 1]) {
        run_end(s, whole + 2, CharClass::Digit)
    } else {
        whole
    }
}

/// What the tokenizer finds next.
pub enum Scan {
    /// Nothing but blank space is left.
    End,
    /// A token of this kind, cut from the positions `start` up to `end`.
    Token { kind: TokenKind, start: int, end: int },
    /// An error in the piece that starts at `start`.
    Error { error: LexErrorKind, start: int },
}

/// The token that starts at `start`, a position that holds a character
/// other than blank space.
pub open spec fn scan_token(s: Seq<char>, start: int) -> Scan {
    let c = s[start];
    if punctuation(c) is Some {
        Scan::Token { kind: punctuation(c)->0, start, end: start + 1 }
    } else if comparison(c) is Some {
        let (alone, followed) = comparison(c)->0;
        if start + 1 < s.len() && s[start + 1] == '=' {
            Scan::Token { kind: followed, start, end: start + 2 }
        } else {
            Scan::Token { kind: alone, start, end: start + 1 }
        }
    } else if c == '"' {
        let close = run_end(s, start + 1, CharClass::StringBody);
        if close < s.len() {
            Scan::Token { kind: TokenKind::String, start, end: close + 1 }
        } else {
            Scan::Error { error: LexErrorKind::UnterminatedString, start }
        }
    } else if numeric(c) {
        Scan::Token { kind: TokenKind::Number, start, end: number_end(s, start + 1) }
    } else if alphabetic(c) || c == '_' {
        let end = run_end(s, start + 1, CharClass::Word);
        Scan::Token { kind: word_kind(s.subrange(start, end)), start, end }
    } else {
        Scan::Error { error: LexErrorKind::UnexpectedCharacter, start }
    }
}

/// What the tokenizer finds from `pos` on: it skips blank space, then reads
/// one token.
pub open spec fn scan(s: Seq<char>, pos: int) -> Scan {
    let start = run_end(s, pos, CharClass::Whitespace);
    if start < s.len() {
        scan_token(s, start)
    } else {
        Scan::End
    }
}

/// A run ends at or after its start, and within the text.
pub proof fn lemma_run_end_bounds(s: Seq<char>, pos: int, class: CharClass)
    requires
        0 <= pos <= s.len(),
    ensures
        pos <= run_end(s, pos, class) <= s.len(),
        run_end(s, pos, class) < s.len() ==> !in_class(class, s[run_end(s, pos, class)]),
        forall|i: int| pos <= i < run_end(s, pos, class) ==> in_class(class, #[trigger] s[i]),
    decreases s.len() - pos,
{
    if pos < s.len() && in_class(class, s[pos]) {
        lemma_run_end_bounds(s, pos + 1, class);
    }
}

/// A token is not empty, and lies within the text, after `pos`.
pub proof fn lemma_scan_bounds(s: Seq<char>, pos: int)
    requires
        0 <= pos <= s.len(),
    ensures
        match scan(s, pos) {
            Scan::End => true,
            Scan::Token { kind, start, end } => pos <= start < end <= s.len(),
            Scan::Error { error, start } => pos <= start < s.len(),
        },
{
    lemma_run_end_bounds(s, pos, CharClass::Whitespace);
    let start = run_end(s, pos, CharClass::Whitespace);
    if start < s.len() {
        lemma_run_end_bounds(s, start + 1, CharClass::StringBody);
        lemma_run_end_bounds(s, start + 1, CharClass::Word);
        lemma_run_end_bounds(s, start + 1, CharClass::Digit);
        let whole = run_end(s, start + 1, CharClass::Digit);
        if whole + 1 < s.len() {
            lemma_run_end_bounds(s, whole + 2, CharClass::Digit);
        }
    }
}

/// The tokens of `s` from `pos` on, in order. A lexical error ends the
/// sequence: nothing follows it.
pub open spec fn stream(s: Seq<char>, pos: int) -> Seq<Result<Lexeme, LexError>>
    decreases s.len() - pos,
{
    if 0 <= pos <= s.len() {
        match scan(s, pos) {
            Scan::End => Seq::empty(),
            Scan::Token { kind, start, end } => {
                proof {
                    lemma_scan_bounds(s, pos);
                }
                seq![
                    Ok(Lexeme { kind, text: s.subrange(start, end), line: line_at(s, start) }),
                ] + stream(s, end)
            },
            Scan::Error { error, start } => seq![Err(LexError { kind: error, line: line_at(s, start) })],
        }
    } else {
        Seq::empty()
    }
}

/// A string literal without its closing quote is an error, and the end of
/// the sequence: where the first character behind the blank space from
/// `pos` on is a quote, and no quote stands after it, the tokens from `pos`
/// on are that one error.
pub proof fn lemma_unterminated_string(s: Seq<char>, pos: int)
    requires
        0 <= pos <= s.len(),
        run_end(s, pos, CharClass::Whitespace) < s.len(),
        s[run_end(s, pos, CharClass::Whitespace)] == '"',
        forall|i: int|
            run_end(s, pos, CharClass::Whitespace) < i < s.len() ==> #[trigger] s[i] != '"',
    ensures
        stream(s, pos) == seq![
            Err::<Lexeme, LexError>(
                LexError {
                    kind: LexErrorKind::UnterminatedString,
                    line: line_at(s, run_end(s, pos, CharClass::Whitespace)),
                },
            ),
        ],
{
    let start = run_end(s, pos, CharClass::Whitespace);
    lemma_run_end_bounds(s, pos, CharClass::Whitespace);
    lemma_run_end_bounds(s, start + 1, CharClass::StringBody);
}

/// One of `=`, `!`, `>`, `<` with `=` right behind it is one token of two
/// characters, not two tokens: the longest match wins.
pub proof fn lemma_longest_match(s: Seq<char>, start: int)
    requires
        0 <= start,
        start + 1 < s.len(),
        comparison(s[start]) is Some,
        s[start + 1] == '=',
    ensures
        ({
            let (alone, followed) = comparison(s[start])->0;
            scan_token(s, start) == (Scan::Token { kind: followed, start, end: start + 2 })
        }),
{
}

/// The tokenizer over one source text. It reads forward only: what it has
/// handed out it does not hand out again.
#[derive(Debug)]
pub struct Tokens<'a> {
    source: &'a str,
    chars: Vec<char>,
    start: usize,
    current: usize,
    line: u32,
    start_line: u32,
    halted: bool,
}

/// What `next` hands out, as contracts see it.
pub open spec fn item_view(item: Result<Token<'_>, LexError>) -> Result<Lexeme, LexError> {
    match item {
        Ok(token) => Ok(token@),
        Err(error) => Err(error),
    }
}

/// Whether `c` belongs to `class`.
pub fn is_in_class(class: CharClass, c: char) -> (r: bool)
    ensures
        r == in_class(class, c),
{
    match class {
        CharClass::Whitespace => c.is_whitespace(),
        CharClass::StringBody => c != '"',
        CharClass::Digit => c.is_numeric(),
        CharClass::Word => c.is_alphanumeric() || c == '_',
    }
}

impl<'a> Tokens<'a> {
    /// The tokenizer is consistent: it holds the characters of its text,
    /// its two positions lie within them in order, and its two line numbers
    /// are those of the two positions.
    pub closed spec fn wf(&self) -> bool {
        &&& self.chars@ == self.source@
        &&& self.start <= self.current <= self.chars@.len()
        &&& self.line == line_at(self.chars@, self.current as int)
        &&& self.start_line == line_at(self.chars@, self.start as int)
    }

    /// The text that is being cut into tokens.
    pub closed spec fn text(&self) -> Seq<char> {
        self.source@
    }

    /// What is still to come: the tokens from the current position on, and
    /// nothing once an error was handed out.
    pub closed spec fn remaining(&self) -> Seq<Result<Lexeme, LexError>> {
        if self.halted {
            Seq::empty()
        } else {
            stream(self.chars@, self.current as int)
        }
    }

    /// The tokenizer is `before`, moved on to position `to`.
    spec fn moved(&self, before: &Tokens<'a>, to: int) -> bool {
        &&& self.wf()
        &&& self.source == before.source
        &&& self.chars == before.chars
        &&& self.start == before.start
        &&& self.start_line == before.start_line
        &&& self.halted == before.halted
        &&& self.current == to
    }

    /// A tokenizer at the start of `source`.
    pub fn new(source: &'a str) -> (tokens: Tokens<'a>)
        ensures
            tokens.wf(),
            tokens.text() == source@,
            tokens.remaining() == stream(source@, 0),
    {
        broadcast use {vstd::string::axiom_spec_iter, vstd::string::next_postcondition};

        let mut chars: Vec<char> = Vec::new();
        let mut rest = source.chars();
        loop
            invariant
                chars@ + rest.remaining() == source@,
                rest.decrease() is Some,
            ensures
                rest.remaining().len() == 0,
            decreases rest.decrease()->0,
        {
            let ghost before = rest.remaining();
            match rest.next() {
                Some(c) => {
                    chars.push(c);
                    proof {
                        assert(chars@ + rest.remaining() =~= chars@.drop_last() + before);
                    }
                },
                None => {
                    break ;
                },
            }
        }
        proof {
            assert(chars@ =~= chars@ + rest.remaining());
        }
        Tokens { source, chars, start: 0, current: 0, line: 1, start_line: 1, halted: false }
    }

    /// The character at the current position, if there is one.
    fn peek(&self) -> (c: Option<char>)
        requires
            self.wf(),
        ensures
            self.current < self.chars@.len() ==> c == Some(self.chars@[self.current as int]),
            self.current >= self.chars@.len() ==> c is None,
    {
        if self.current < self.chars.len() {
            Some(self.chars[self.current])
        } else {
            None
        }
    }

    /// Whether a digit stands just behind the current position.
    fn digit_follows(&self) -> (r: bool)
        requires
            self.wf(),
        ensures
            r == (self.current + 1 < self.chars@.len() && numeric(
                self.chars@[self.current + 1],
            )),
    {
        self.current < self.chars.len() && self.current + 1 < self.chars.len()
            && self.chars[self.current + 1].is_numeric()
    }

    /// Moves over the character at the current position, if there is one,
    /// and counts the line it ends.
    fn advance(&mut self) -> (c: Option<char>)
        requires
            old(self).wf(),
        ensures
            old(self).current < old(self).chars@.len() ==> c == Some(
                old(self).chars@[old(self).current as int],
            ) && final(self).moved(old(self), old(self).current + 1),
            old(self).current >= old(self).chars@.len() ==> c is None && final(self).moved(
                old(self),
                old(self).current as int,
            ),
    {
        if self.current < self.chars.len() {
            let c: char = self.chars[self.current];
            if c == '\n' && self.line < u32::MAX {
                self.line += 1;
            }
            self.current += 1;
            Some(c)
        } else {
            None
        }
    }

    /// Moves over the character at the current position if it is
    /// `expected`.
    fn advance_if_eq(&mut self, expected: char) -> (r: bool)
        requires
            old(self).wf(),
        ensures
            r == (old(self).current < old(self).chars@.len() && old(self).chars@[old(self).current as int] == expected),
            final(self).moved(
                old(self),
                if r {
                    old(self).current + 1
                } else {
                    old(self).current as int
                },
            ),
    {
        match self.peek() {
            Some(c) => {
                if c == expected {
                    let _ = self.advance();
                    true
                } else {
                    false
                }
            },
            None => false,
        }
    }

    /// Moves to the end of the run of `class` that starts at the current
    /// position, and says whether a character stopped it.
    fn advance_while(&mut self, class: CharClass) -> (r: bool)
        requires
            old(self).wf(),
        ensures
            final(self).moved(old(self), run_end(old(self).chars@, old(self).current as int, class)),
            r == (final(self).current < final(self).chars@.len()),
    {
        loop
            invariant
                self.moved(old(self), self.current as int),
                run_end(self.chars@, self.current as int, class) == run_end(
                    old(self).chars@,
                    old(self).current as int,
                    class,
                ),
            decreases self.chars@.len() - self.current,
        {
            match self.peek() {
                None => {
                    return false;
                },
                Some(c) => {
                    if !is_in_class(class, c) {
                        return true;
                    }
                    let _ = self.advance();
                },
            }
        }
    }

    /// Moves over the blank space at the current position.
    fn skip_whitespace(&mut self)
        requires
            old(self).wf(),
        ensures
            final(self).moved(
                old(self),
                run_end(old(self).chars@, old(self).current as int, CharClass::Whitespace),
            ),
    {
        let _ = self.advance_while(CharClass::Whitespace);
    }

    /// Reads a string literal whose opening quote was just consumed, up to
    /// and with its closing quote.
    fn string(&mut self) -> (r: Result<TokenKind, LexErrorKind>)
        requires
            old(self).wf(),
        ensures
            ({
                let close = run_end(
                    old(self).chars@,
                    old(self).current as int,
                    CharClass::StringBody,
                );
                if close < old(self).chars@.len() {
                    r == Ok::<TokenKind, LexErrorKind>(TokenKind::String) && final(self).moved(
                        old(self),
                        close + 1,
                    )
                } else {
                    r == Err::<TokenKind, LexErrorKind>(LexErrorKind::UnterminatedString) && final(self).moved(old(self), close)
                }
            }),
    {
        if self.advance_while(CharClass::StringBody) {
            let _ = self.advance();
            Ok(TokenKind::String)
        } else {
            Err(LexErrorKind::UnterminatedString)
        }
    }

    /// Reads the rest of a number whose first digit was just consumed.
    fn number(&mut self) -> (kind: TokenKind)
        requires
            old(self).wf(),
        ensures
            kind == TokenKind::Number,
            final(self).moved(old(self), number_end(old(self).chars@, old(self).current as int)),
    {
        let _ = self.advance_while(CharClass::Digit);
        if self.peek() == Some('.') && self.digit_follows() {
            let _ = self.advance();
            let _ = self.advance();
            proof {
                lemma_run_end_bounds(self.chars@, self.current as int, CharClass::Digit);
                assert(run_end(self.chars@, self.current - 1, CharClass::Digit) == run_end(
                    self.chars@,
                    self.current as int,
                    CharClass::Digit,
                ));
            }
            let _ = self.advance_while(CharClass::Digit);
        }
        TokenKind::Number
    }

    /// Whether the piece being read spells `word`.
    fn lexeme_is(&self, word: &str) -> (r: bool)
        requires
            self.wf(),
        ensures
            r == (self.chars@.subrange(self.start as int, self.current as int) == word@),
    {
        let n: usize = word.unicode_len();
        if n != self.current - self.start {
            return false;
        }
        let mut i: usize = 0;
        while i < n
            invariant
                self.wf(),
                n == word@.len(),
                n == self.current - self.start,
                i <= n,
                forall|j: int| 0 <= j < i ==> self.chars@[self.start + j] == word@[j],
            decreases n - i,
        {
            if word.get_char(i) != self.chars[self.start + i] {
                proof {
                    assert(self.chars@.subrange(self.start as int, self.current as int)[i as int]
                        != word@[i as int]);
                }
                return false;
            }
            i += 1;
        }
        proof {
            assert(self.chars@.subrange(self.start as int, self.current as int) =~= word@);
        }
        true
    }

    /// Reads the rest of a word whose first character was just consumed,
    /// and tells a keyword from an identifier.
    fn word(&mut self) -> (kind: TokenKind)
        requires
            old(self).wf(),
        ensures
            final(self).moved(
                old(self),
                run_end(old(self).chars@, old(self).current as int, CharClass::Word),
            ),
            kind == word_kind(
                final(self).chars@.subrange(final(self).start as int, final(self).current as int),
            ),
    {
        let _ = self.advance_while(CharClass::Word);
        if self.lexeme_is("and") {
            TokenKind::And
        } else if self.lexeme_is("class") {
            TokenKind::Class
        } else if self.lexeme_is("else") {
            TokenKind::Else
        } else if self.lexeme_is("false") {
            TokenKind::False
        } else if self.lexeme_is("for") {
            TokenKind::For
        } else if self.lexeme_is("fun") {
            TokenKind::Fun
        } else if self.lexeme_is("if") {
            TokenKind::If
        } else if self.lexeme_is("nil") {
            TokenKind::Nil
        } else if self.lexeme_is("or") {
            TokenKind::Or
        } else if self.lexeme_is("print") {
            TokenKind::Print
        } else if self.lexeme_is("return") {
            TokenKind::Return
        } else if self.lexeme_is("super") {
            TokenKind::Super
        } else if self.lexeme_is("this") {
            TokenKind::This
        } else if self.lexeme_is("true") {
            TokenKind::True
        } else if self.lexeme_is("var") {
            TokenKind::Var
        } else if self.lexeme_is("while") {
            TokenKind::While
        } else {
            TokenKind::Identifier
        }
    }

    /// The piece of the source text that is being read.
    fn slice(&self) -> (piece: &'a str)
        requires
            self.wf(),
        ensures
            piece@ == self.chars@.subrange(self.start as int, self.current as int),
    {
        self.source.substring_char(self.start, self.current)
    }

    /// The token of kind `kind` for the piece that is being read.
    fn make_token(&self, kind: TokenKind) -> (token: Token<'a>)
        requires
            self.wf(),
        ensures
            token@ == (Lexeme {
                kind,
                text: self.chars@.subrange(self.start as int, self.current as int),
                line: line_at(self.chars@, self.start as int),
            }),
    {
        Token { kind, source: self.slice(), line: self.start_line }
    }

    /// Marks the piece that starts at the current position as the one
    /// being read.
    fn begin(&mut self)
        requires
            old(self).wf(),
        ensures
            final(self).wf(),
            final(self).source == old(self).source,
            final(self).chars == old(self).chars,
            final(self).halted == old(self).halted,
            final(self).current == old(self).current,
            final(self).start == old(self).current,
    {
        self.start = self.current;
        self.start_line = self.line;
    }

    /// Hands out the next token or the error that ends the sequence, and
    /// `None` when nothing is left.
    pub fn next(&mut self) -> (item: Option<Result<Token<'a>, LexError>>)
        requires
            old(self).wf(),
        ensures
            final(self).wf(),
            final(self).text() == old(self).text(),
            old(self).remaining().len() == 0 ==> item is None && final(self).remaining().len() == 0,
            old(self).remaining().len() > 0 ==> item is Some && item_view(item->0) == old(self).remaining()[0] && final(self).remaining() == old(self).remaining().drop_first(),
    {
        if self.halted {
            return None;
        }
        let ghost s = self.chars@;
        let ghost pos = self.current as int;
        proof {
            lemma_scan_bounds(s, pos);
        }
        self.skip_whitespace();
        self.begin();
        let c: char = match self.advance() {
            Some(c) => c,
            None => {
                proof {
                    lemma_scan_bounds(s, s.len() as int);
                    lemma_run_end_bounds(s, s.len() as int, CharClass::Whitespace);
                }
                return None;
            },
        };
        let kind: TokenKind = match c {
            '(' => TokenKind::LeftParen,
            ')' => TokenKind::RightParen,
            '{' => TokenKind::LeftBrace,
            '}' => TokenKind::RightBrace,
            ';' => TokenKind::Semicolon,
            ',' => TokenKind::Comma,
            '.' => TokenKind::Dot,
            '+' => TokenKind::Plus,
            '-' => TokenKind::Minus,
            '*' => TokenKind::Star,
            '/' => TokenKind::Slash,
            '=' => if self.advance_if_eq('=') {
                TokenKind::EqualEqual
            } else {
                TokenKind::Equal
            },
            '!' => if self.advance_if_eq('=') {
                TokenKind::BangEqual
            } else {
                TokenKind::Bang
            },
            '>' => if self.advance_if_eq('=') {
                TokenKind::GreaterEqual
            } else {
                TokenKind::Greater
            },
            '<' => if self.advance_if_eq('=') {
                TokenKind::LessEqual
            } else {
                TokenKind::Less
            },
            '"' => match self.string() {
                Ok(kind) => kind,
                Err(kind) => {
                    self.halted = true;
                    proof {
                        assert(stream(s, pos).drop_first() =~= Seq::empty());
                    }
                    return Some(Err(LexError { kind, line: self.start_line }));
                },
            },
            _ => if c.is_numeric() {
                self.number()
            } else if c.is_alphabetic() || c == '_' {
                self.word()
            } else {
                self.halted = true;
                proof {
                    assert(stream(s, pos).drop_first() =~= Seq::empty());
                }
                return Some(
                    Err(LexError { kind: LexErrorKind::UnexpectedCharacter, line: self.start_line }),
                );
            },
        };
        let token = self.make_token(kind);
        proof {
            assert(stream(s, pos).drop_first() =~= stream(s, self.current as int));
        }
        Some(Ok(token))
    }
}

} // verus!
