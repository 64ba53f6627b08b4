//! Token classification: the kinds a token can have, their mathematical
//! models, and the registered table of fixed-text tokens.

use vstd::prelude::*;
use vstd::string::StringExecFns;

verus! {

/// The kind of a token, carrying the payload for identifiers, keywords and
/// numeric literals.
#[derive(Debug, PartialEq, Eq)]
pub enum TokenType {
    Keyword(String),
    Identifier(String),
    Number(i64),
    LeftBracket,
    RightBracket,
    LeftBrace,
    RightBrace,
    Equal,
    Semicolon,
    Plus,
    Minus,
    Multiply,
    Divide,
    Eof,
}

/// The mathematical model of a token kind: string payloads become character
/// sequences and the numeric payload a mathematical integer.
pub enum TokenKind {
    Keyword(Seq<char>),
    Identifier(Seq<char>),
    Number(int),
    LeftBracket,
    RightBracket,
    LeftBrace,
    RightBrace,
    Equal,
    Semicolon,
    Plus,
    Minus,
    Multiply,
    Divide,
    Eof,
}

impl View for TokenType {
    type V = TokenKind;

    open spec fn view(&self) -> TokenKind {
        match self {
            TokenType::Keyword(s) => TokenKind::Keyword(s@),
            TokenType::Identifier(s) => TokenKind::Identifier(s@),
            TokenType::Number(n) => TokenKind::Number(*n as int),
            TokenType::LeftBracket => TokenKind::LeftBracket,
            TokenType::RightBracket => TokenKind::RightBracket,
            TokenType::LeftBrace => TokenKind::LeftBrace,
            TokenType::RightBrace => TokenKind::RightBrace,
            TokenType::Equal => TokenKind::Equal,
            TokenType::Semicolon => TokenKind::Semicolon,
            TokenType::Plus => TokenKind::Plus,
            TokenType::Minus => TokenKind::Minus,
            TokenType::Multiply => TokenKind::Multiply,
            TokenType::Divide => TokenKind::Divide,
            TokenType::Eof => TokenKind::Eof,
        }
    }
}

impl Clone for TokenType {
    fn clone(&self) -> (r: Self)
        ensures
            r@ == self@,
    {
        match self {
            TokenType::Keyword(s) => TokenType::Keyword(s.clone()),
            TokenType::Identifier(s) => TokenType::Identifier(s.clone()),
            TokenType::Number(n) => TokenType::Number(*n),
            TokenType::LeftBracket => TokenType::LeftBracket,
            TokenType::RightBracket => TokenType::RightBracket,
            TokenType::LeftBrace => TokenType::LeftBrace,
            TokenType::RightBrace => TokenType::RightBrace,
            TokenType::Equal => TokenType::Equal,
            TokenType::Semicolon => TokenType::Semicolon,
            TokenType::Plus => TokenType::Plus,
            TokenType::Minus => TokenType::Minus,
            TokenType::Multiply => TokenType::Multiply,
            TokenType::Divide => TokenType::Divide,
            TokenType::Eof => TokenType::Eof,
        }
    }
}

/// Decides whether two token kinds model the same value, payloads included.
pub fn token_type_eq(a: &TokenType, b: &TokenType) -> (r: bool)
    ensures
        r == (a@ == b@),
{
    match a {
        TokenType::Keyword(x) => match b {
            TokenType::Keyword(y) => x.eq(y),
            _ => false,
        },
        TokenType::Identifier(x) => match b {
            TokenType::Identifier(y) => x.eq(y),
            _ => false,
        },
        TokenType::Number(x) => match b {
            TokenType::Number(y) => x == y,
            _ => false,
        },
        TokenType::LeftBracket => matches!(b, TokenType::LeftBracket),
        TokenType::RightBracket => matches!(b, TokenType::RightBracket),
        TokenType::LeftBrace => matches!(b, TokenType::LeftBrace),
        TokenType::RightBrace => matches!(b, TokenType::RightBrace),
        TokenType::Equal => matches!(b, TokenType::Equal),
        TokenType::Semicolon => matches!(b, TokenType::Semicolon),
        TokenType::Plus => matches!(b, TokenType::Plus),
        TokenType::Minus => matches!(b, TokenType::Minus),
        TokenType::Multiply => matches!(b, TokenType::Multiply),
        TokenType::Divide => matches!(b, TokenType::Divide),
        TokenType::Eof => matches!(b, TokenType::Eof),
    }
}

/// One entry of the registered table: an exact literal to match and the kind
/// of the token it produces.
#[derive(Debug)]
pub struct RegisteredToken {
    pub match_str: String,
    pub token_type: TokenType,
}

/// The registered table as a mathematical value: literal text paired with the
/// kind it produces, in match order. Matching is first-match-wins, so a
/// literal that is a prefix of another must stand strictly after the longer
/// one; in this table no literal is a prefix of another.
pub open spec fn registered_table() -> Seq<(Seq<char>, TokenKind)> {
    seq![
        ("void"@, TokenKind::Keyword("void"@)),
        ("("@, TokenKind::LeftBracket),
        (")"@, TokenKind::RightBracket),
        ("{"@, TokenKind::LeftBrace),
        ("}"@, TokenKind::RightBrace),
        ("="@, TokenKind::Equal),
        (";"@, TokenKind::Semicolon),
        ("+"@, TokenKind::Plus),
        ("-"@, TokenKind::Minus),
        ("*"@, TokenKind::Multiply),
        ("/"@, TokenKind::Divide),
    ]
}

/// Builds the registered table of fixed-text tokens, in match order.
pub fn registered_tokens() -> (v: Vec<RegisteredToken>)
    ensures
        v@.len() == registered_table().len(),
        forall|i: int|
            0 <= i < v@.len() ==> #[trigger] v@[i].match_str@ == registered_table()[i].0
                && v@[i].token_type@ == registered_table()[i].1,
{
    let mut v: Vec<RegisteredToken> = Vec::new();
    v.push(RegisteredToken {
        match_str: String::from_str("void"),
        token_type: TokenType::Keyword(String::from_str("void")),
    });
    v.push(RegisteredToken {
        match_str: String::from_str("("),
        token_type: TokenType::LeftBracket,
    });
    v.push(RegisteredToken {
        match_str: String::from_str(")"),
        token_type: TokenType::RightBracket,
    });
    v.push(RegisteredToken {
        match_str: String::from_str("{"),
        token_type: TokenType::LeftBrace,
    });
    v.push(RegisteredToken {
        match_str: String::from_str("}"),
        token_type: TokenType::RightBrace,
    });
    v.push(RegisteredToken { match_str: String::from_str("="), token_type: TokenType::Equal });
    v.push(RegisteredToken { match_str: String::from_str(";"), token_type: TokenType::Semicolon });
    v.push(RegisteredToken { match_str: String::from_str("+"), token_type: TokenType::Plus });
    v.push(RegisteredToken { match_str: String::from_str("-"), token_type: TokenType::Minus });
    v.push(RegisteredToken { match_str: String::from_str("*"), token_type: TokenType::Multiply });
    v.push(RegisteredToken { match_str: String::from_str("/"), token_type: TokenType::Divide });
    v
}

} // verus!
