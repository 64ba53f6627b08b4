//! Tokens: a classified unit of lexical meaning with the position and line of
//! its first character in the original input.

use vstd::prelude::*;
use crate::token_def::{TokenKind, TokenType};

verus! {

/// A token produced by the scanner. `pos` is the 0-based character offset of
/// the token's first character in the original input; `line` is its 1-based
/// line number.
#[derive(Debug, PartialEq, Eq)]
pub struct Token {
    pub pos: usize,
    pub line: usize,
    pub token_type: TokenType,
}

/// The mathematical model of a token.
pub struct TokenModel {
    pub pos: int,
    pub line: int,
    pub kind: TokenKind,
}

impl View for Token {
    type V = TokenModel;

    open spec fn view(&self) -> TokenModel {
        TokenModel { pos: self.pos as int, line: self.line as int, kind: self.token_type@ }
    }
}

impl Clone for Token {
    fn clone(&self) -> (r: Self)
        ensures
            r@ == self@,
    {
        Token { pos: self.pos, line: self.line, token_type: self.token_type.clone() }
    }
}

} // verus!
