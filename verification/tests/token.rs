use lox_bytecode::token::{LexError, LexErrorKind, Token, TokenKind, Tokens};

fn all(source: &str) -> Vec<Result<Token<'_>, LexError>> {
    let mut tokens = Tokens::new(source);
    let mut items = Vec::new();
    while let Some(item) = tokens.next() {
        items.push(item);
    }
    items
}

fn kinds(source: &str) -> Vec<TokenKind> {
    all(source).into_iter().map(|item| item.unwrap().kind).collect()
}

fn token(kind: TokenKind, source: &str, line: u32) -> Result<Token<'_>, LexError> {
    Ok(Token { kind, source, line })
}

#[test]
fn one_plus_two() {
    assert_eq!(
        all("1+2"),
        vec![
            token(TokenKind::Number, "1", 1),
            token(TokenKind::Plus, "+", 1),
            token(TokenKind::Number, "2", 1),
        ]
    );
}

#[test]
fn unterminated_string() {
    assert_eq!(
        all("\"abc"),
        vec![Err(LexError { kind: LexErrorKind::UnterminatedString, line: 1 })]
    );
}

#[test]
fn greater_equal_is_one_token() {
    assert_eq!(all(">="), vec![token(TokenKind::GreaterEqual, ">=", 1)]);
}

#[test]
fn empty_and_blank_sources_have_no_tokens() {
    assert_eq!(all(""), vec![]);
    assert_eq!(all(" \t\r\n  \n"), vec![]);
}

#[test]
fn punctuation() {
    assert_eq!(
        kinds("(){};,.+-*/"),
        vec![
            TokenKind::LeftParen,
            TokenKind::RightParen,
            TokenKind::LeftBrace,
            TokenKind::RightBrace,
            TokenKind::Semicolon,
            TokenKind::Comma,
            TokenKind::Dot,
            TokenKind::Plus,
            TokenKind::Minus,
            TokenKind::Star,
            TokenKind::Slash,
        ]
    );
}

#[test]
fn one_and_two_character_operators() {
    assert_eq!(
        kinds("= == ! != > >= < <="),
        vec![
            TokenKind::Equal,
            TokenKind::EqualEqual,
            TokenKind::Bang,
            TokenKind::BangEqual,
            TokenKind::Greater,
            TokenKind::GreaterEqual,
            TokenKind::Less,
            TokenKind::LessEqual,
        ]
    );
    assert_eq!(
        all("==="),
        vec![token(TokenKind::EqualEqual, "==", 1), token(TokenKind::Equal, "=", 1)]
    );
    assert_eq!(
        all("<=>"),
        vec![token(TokenKind::LessEqual, "<=", 1), token(TokenKind::Greater, ">", 1)]
    );
}

#[test]
fn keywords_and_identifiers() {
    assert_eq!(
        kinds("and class else false for fun if nil or print return super this true var while"),
        vec![
            TokenKind::And,
            TokenKind::Class,
            TokenKind::Else,
            TokenKind::False,
            TokenKind::For,
            TokenKind::Fun,
            TokenKind::If,
            TokenKind::Nil,
            TokenKind::Or,
            TokenKind::Print,
            TokenKind::Return,
            TokenKind::Super,
            TokenKind::This,
            TokenKind::True,
            TokenKind::Var,
            TokenKind::While,
        ]
    );
    assert_eq!(
        all("andy _x1 If é"),
        vec![
            token(TokenKind::Identifier, "andy", 1),
            token(TokenKind::Identifier, "_x1", 1),
            token(TokenKind::Identifier, "If", 1),
            token(TokenKind::Identifier, "é", 1),
        ]
    );
}

#[test]
fn numbers() {
    assert_eq!(all("12.50"), vec![token(TokenKind::Number, "12.50", 1)]);
    assert_eq!(
        all("1."),
        vec![token(TokenKind::Number, "1", 1), token(TokenKind::Dot, ".", 1)]
    );
    assert_eq!(
        all("1.x"),
        vec![
            token(TokenKind::Number, "1", 1),
            token(TokenKind::Dot, ".", 1),
            token(TokenKind::Identifier, "x", 1),
        ]
    );
    assert_eq!(
        all("1.2.3"),
        vec![
            token(TokenKind::Number, "1.2", 1),
            token(TokenKind::Dot, ".", 1),
            token(TokenKind::Number, "3", 1),
        ]
    );
    assert_eq!(
        all(".5"),
        vec![token(TokenKind::Dot, ".", 1), token(TokenKind::Number, "5", 1)]
    );
    assert_eq!(
        all("7up"),
        vec![token(TokenKind::Number, "7", 1), token(TokenKind::Identifier, "up", 1)]
    );
}

#[test]
fn string_keeps_its_quotes() {
    assert_eq!(all("\"abc\""), vec![token(TokenKind::String, "\"abc\"", 1)]);
    assert_eq!(all("\"\""), vec![token(TokenKind::String, "\"\"", 1)]);
    assert_eq!(
        all("\"a b\"+"),
        vec![token(TokenKind::String, "\"a b\"", 1), token(TokenKind::Plus, "+", 1)]
    );
}

#[test]
fn lines_are_counted_at_the_start_of_a_token() {
    assert_eq!(
        all("1\n+\n\n2"),
        vec![
            token(TokenKind::Number, "1", 1),
            token(TokenKind::Plus, "+", 2),
            token(TokenKind::Number, "2", 4),
        ]
    );
    assert_eq!(
        all("\"a\nb\" x"),
        vec![token(TokenKind::String, "\"a\nb\"", 1), token(TokenKind::Identifier, "x", 2)]
    );
    assert_eq!(
        all("\n\n\"abc"),
        vec![Err(LexError { kind: LexErrorKind::UnterminatedString, line: 3 })]
    );
}

#[test]
fn unexpected_character_ends_the_sequence() {
    assert_eq!(
        all("1 @ 2"),
        vec![
            token(TokenKind::Number, "1", 1),
            Err(LexError { kind: LexErrorKind::UnexpectedCharacter, line: 1 }),
        ]
    );
    let mut tokens = Tokens::new("#");
    assert_eq!(
        tokens.next(),
        Some(Err(LexError { kind: LexErrorKind::UnexpectedCharacter, line: 1 }))
    );
    assert_eq!(tokens.next(), None);
    assert_eq!(tokens.next(), None);
}

#[test]
fn the_end_is_reported_again_and_again() {
    let mut tokens = Tokens::new("x");
    assert_eq!(tokens.next(), Some(token(TokenKind::Identifier, "x", 1)));
    assert_eq!(tokens.next(), None);
    assert_eq!(tokens.next(), None);
}

#[test]
fn characters_beyond_ascii() {
    assert_eq!(
        all("\u{a0}٣+é"),
        vec![
            token(TokenKind::Number, "٣", 1),
            token(TokenKind::Plus, "+", 1),
            token(TokenKind::Identifier, "é", 1),
        ]
    );
}

#[test]
fn lex_error_messages() {
    assert_eq!(
        LexError { kind: LexErrorKind::UnexpectedCharacter, line: 1 }.message(),
        "Unexpected character"
    );
    assert_eq!(
        LexError { kind: LexErrorKind::UnterminatedString, line: 1 }.message(),
        "Unterminated String"
    );
}
