//! The parser: consumes the scanner's token stream through one token of
//! lookahead and builds an abstract syntax tree with a three-level precedence
//! grammar:
//!
//! ```text
//! expression := term ( (PLUS|MINUS) term )*
//! term       := factor ( (MULTIPLY|DIVIDE) factor )*
//! factor     := NUMBER | LEFT_BRACKET expression RIGHT_BRACKET
//! ```
//!
//! The grammar is written down once more as the mathematical functions
//! [`g_expression`], [`g_term`] and [`g_factor`] over the character buffer,
//! and [`Parser::parse`] is proved to return exactly what [`g_parse`] — the
//! grammar plus the demand that nothing follow the expression — says: the
//! same tree on success, the same error otherwise. Trailing unconsumed input
//! is a parse error, never silently ignored.

use vstd::prelude::*;
use crate::ast::{ast_model, ast_wf, AstModel, AstNode};
use crate::lexer::{
    lemma_lexer_wf_facts, lemma_scan_progress, line_at, scan_end, scan_item, Lexer, LexerError,
    LexerErrorModel, ScanItem,
};
use crate::token::{Token, TokenModel};
use crate::token_def::{token_type_eq, TokenKind, TokenType};

verus! {

// ---------------------------------------------------------------------------
// Errors
// ---------------------------------------------------------------------------
/// A grammar violation: the parser met a token (or the end of the input)
/// where the grammar demanded something else. `expected` names the demanded
/// kind where one single kind was demanded; `found` is the offending token,
/// or nothing at the end of the input. `line` and `pos` locate the offence.
#[derive(Debug, PartialEq, Eq)]
pub struct SyntaxError {
    pub expected: Option<TokenType>,
    pub found: Option<Token>,
    pub line: usize,
    pub pos: usize,
}

/// The mathematical model of a syntax error.
pub struct SyntaxErrorModel {
    pub expected: Option<TokenKind>,
    pub found: Option<TokenModel>,
    pub line: int,
    pub pos: int,
}

impl View for SyntaxError {
    type V = SyntaxErrorModel;

    open spec fn view(&self) -> SyntaxErrorModel {
        SyntaxErrorModel {
            expected: match self.expected {
                Some(t) => Some(t@),
                None => None,
            },
            found: match self.found {
                Some(t) => Some(t@),
                None => None,
            },
            line: self.line as int,
            pos: self.pos as int,
        }
    }
}

/// Everything that can stop a parse: a scan failure met while pulling tokens,
/// or a grammar violation.
#[derive(Debug, PartialEq, Eq)]
pub enum ParserError {
    Lex(LexerError),
    Syntax(SyntaxError),
}

/// The mathematical model of a parse error.
pub enum ParserErrorModel {
    Lex(LexerErrorModel),
    Syntax(SyntaxErrorModel),
}

impl View for ParserError {
    type V = ParserErrorModel;

    open spec fn view(&self) -> ParserErrorModel {
        match self {
            ParserError::Lex(e) => ParserErrorModel::Lex(e@),
            ParserError::Syntax(e) => ParserErrorModel::Syntax(e@),
        }
    }
}

/// The scan error reported when the character at `p` matches no class.
pub open spec fn lex_fail_model(s: Seq<char>, p: int) -> LexerErrorModel {
    LexerErrorModel { line: line_at(s, p), pos: p, content: seq![s[p]] }
}

/// The syntax error reported when the input ends where a token was demanded.
pub open spec fn end_syntax_model(s: Seq<char>, expected: Option<TokenKind>) -> SyntaxErrorModel {
    SyntaxErrorModel { expected, found: None, pos: s.len() as int, line: line_at(s, s.len() as int) }
}

/// The syntax error reported when token `t` stands where something else was
/// demanded.
pub open spec fn tok_syntax_model(expected: Option<TokenKind>, t: TokenModel) -> SyntaxErrorModel {
    SyntaxErrorModel { expected, found: Some(t), pos: t.pos, line: t.line }
}

// ---------------------------------------------------------------------------
// The grammar, as mathematical functions
// ---------------------------------------------------------------------------
/// What one grammar production yields: the tree or the error, and the
/// position from which the lookahead token is scanned afterwards.
pub struct GOut {
    pub res: Result<AstModel, ParserErrorModel>,
    pub end: int,
}

/// `factor := NUMBER | LEFT_BRACKET expression RIGHT_BRACKET`, starting with
/// the token scanned at `pos`.
pub open spec fn g_factor(s: Seq<char>, pos: int) -> GOut
    decreases s.len() - pos, 0int,
{
    match scan_item(s, pos) {
        ScanItem::End => GOut {
            res: Err(ParserErrorModel::Syntax(end_syntax_model(s, None))),
            end: pos,
        },
        ScanItem::Fail(p) => GOut {
            res: Err(ParserErrorModel::Lex(lex_fail_model(s, p))),
            end: p,
        },
        ScanItem::Tok(t) => match t.kind {
            TokenKind::Number(n) => {
                let p1 = scan_end(s, pos);
                match scan_item(s, p1) {
                    ScanItem::Fail(q) => GOut {
                        res: Err(ParserErrorModel::Lex(lex_fail_model(s, q))),
                        end: q,
                    },
                    _ => GOut { res: Ok(AstModel::Int(n)), end: p1 },
                }
            },
            TokenKind::LeftBracket => {
                let p1 = scan_end(s, pos);
                if pos < p1 <= s.len() {
                    match scan_item(s, p1) {
                        ScanItem::Fail(q) => GOut {
                            res: Err(ParserErrorModel::Lex(lex_fail_model(s, q))),
                            end: q,
                        },
                        _ => {
                            let e = g_expression(s, p1);
                            match e.res {
                                Ok(node) => match scan_item(s, e.end) {
                                    ScanItem::Tok(t2) => if t2.kind == TokenKind::RightBracket {
                                        let p2 = scan_end(s, e.end);
                                        match scan_item(s, p2) {
                                            ScanItem::Fail(q) => GOut {
                                                res: Err(
                                                    ParserErrorModel::Lex(lex_fail_model(s, q)),
                                                ),
                                                end: q,
                                            },
                                            _ => GOut { res: Ok(node), end: p2 },
                                        }
                                    } else {
                                        GOut {
                                            res: Err(
                                                ParserErrorModel::Syntax(
                                                    tok_syntax_model(
                                                        Some(TokenKind::RightBracket),
                                                        t2,
                                                    ),
                                                ),
                                            ),
                                            end: e.end,
                                        }
                                    },
                                    ScanItem::End => GOut {
                                        res: Err(
                                            ParserErrorModel::Syntax(
                                                end_syntax_model(s, Some(TokenKind::RightBracket)),
                                            ),
                                        ),
                                        end: e.end,
                                    },
                                    ScanItem::Fail(q) => GOut {
                                        res: Err(ParserErrorModel::Lex(lex_fail_model(s, q))),
                                        end: q,
                                    },
                                },
                                Err(_) => e,
                            }
                        },
                    }
                } else {
                    // Dead arm: a scanned token always moves the cursor
                    // forward and stays inside the input (the progress
                    // lemmas), but the branch keeps the function total under
                    // its termination measure.
                    GOut { res: Ok(AstModel::Int(0)), end: pos }
                }
            },
            _ => GOut { res: Err(ParserErrorModel::Syntax(tok_syntax_model(None, t))), end: pos },
        },
    }
}

/// The folding tail of `term`: while the lookahead is MULTIPLY or DIVIDE,
/// consume it, parse a factor, and fold left. PLUS, MINUS, RIGHT_BRACKET and
/// the end of input stop the fold; any other token is a grammar violation.
pub open spec fn g_term_loop(acc: AstModel, s: Seq<char>, pos: int) -> GOut
    decreases s.len() - pos, 1int,
{
    match scan_item(s, pos) {
        ScanItem::End => GOut { res: Ok(acc), end: pos },
        ScanItem::Fail(p) => GOut {
            res: Err(ParserErrorModel::Lex(lex_fail_model(s, p))),
            end: p,
        },
        ScanItem::Tok(t) => {
            if t.kind == TokenKind::Multiply || t.kind == TokenKind::Divide {
                let p1 = scan_end(s, pos);
                if pos < p1 <= s.len() {
                    let f = g_factor(s, p1);
                    match f.res {
                        Ok(n) => {
                            let acc2 = AstModel::Bin {
                                op: t,
                                left: Box::new(acc),
                                right: Box::new(n),
                            };
                            if p1 < f.end <= s.len() {
                                g_term_loop(acc2, s, f.end)
                            } else {
                                // Dead arm: unreachable by the progress lemmas; kept so the
                                // function stays total under its termination measure.
                                GOut { res: Ok(acc2), end: f.end }
                            }
                        },
                        Err(_) => f,
                    }
                } else {
                    GOut { res: Ok(acc), end: pos }
                }
            } else if t.kind == TokenKind::Plus || t.kind == TokenKind::Minus || t.kind
                == TokenKind::RightBracket {
                GOut { res: Ok(acc), end: pos }
            } else {
                GOut { res: Err(ParserErrorModel::Syntax(tok_syntax_model(None, t))), end: pos }
            }
        },
    }
}

/// `term := factor ( (MULTIPLY|DIVIDE) factor )*`.
pub open spec fn g_term(s: Seq<char>, pos: int) -> GOut
    decreases s.len() - pos, 2int,
{
    let f = g_factor(s, pos);
    match f.res {
        Ok(n) => if pos < f.end <= s.len() {
            g_term_loop(n, s, f.end)
        } else {
            f
        },
        Err(_) => f,
    }
}

/// The folding tail of `expression`: while the lookahead is PLUS or MINUS,
/// consume it, parse a term, and fold left. RIGHT_BRACKET and the end of
/// input stop the fold; any other token is a grammar violation.
pub open spec fn g_expr_loop(acc: AstModel, s: Seq<char>, pos: int) -> GOut
    decreases s.len() - pos, 3int,
{
    match scan_item(s, pos) {
        ScanItem::End => GOut { res: Ok(acc), end: pos },
        ScanItem::Fail(p) => GOut {
            res: Err(ParserErrorModel::Lex(lex_fail_model(s, p))),
            end: p,
        },
        ScanItem::Tok(t) => {
            if t.kind == TokenKind::Plus || t.kind == TokenKind::Minus {
                let p1 = scan_end(s, pos);
                if pos < p1 <= s.len() {
                    let f = g_term(s, p1);
                    match f.res {
                        Ok(n) => {
                            let acc2 = AstModel::Bin {
                                op: t,
                                left: Box::new(acc),
                                right: Box::new(n),
                            };
                            if p1 < f.end <= s.len() {
                                g_expr_loop(acc2, s, f.end)
                            } else {
                                // Dead arm: unreachable by the progress lemmas; kept so the
                                // function stays total under its termination measure.
                                GOut { res: Ok(acc2), end: f.end }
                            }
                        },
                        Err(_) => f,
                    }
                } else {
                    GOut { res: Ok(acc), end: pos }
                }
            } else if t.kind == TokenKind::RightBracket {
                GOut { res: Ok(acc), end: pos }
            } else {
                GOut { res: Err(ParserErrorModel::Syntax(tok_syntax_model(None, t))), end: pos }
            }
        },
    }
}

/// `expression := term ( (PLUS|MINUS) term )*`.
pub open spec fn g_expression(s: Seq<char>, pos: int) -> GOut
    decreases s.len() - pos, 4int,
{
    let f = g_term(s, pos);
    match f.res {
        Ok(n) => if pos < f.end <= s.len() {
            g_expr_loop(n, s, f.end)
        } else {
            f
        },
        Err(_) => f,
    }
}

/// One complete top-level parse: an expression followed by the end of the
/// input. Trailing unconsumed input — an unmatched closing bracket included —
/// is a syntax error carrying the trailing token, never silently ignored.
pub open spec fn g_parse(s: Seq<char>, pos: int) -> GOut {
    let e = g_expression(s, pos);
    match e.res {
        Ok(_) => match scan_item(s, e.end) {
            ScanItem::End => e,
            ScanItem::Tok(t) => GOut {
                res: Err(ParserErrorModel::Syntax(tok_syntax_model(None, t))),
                end: e.end,
            },
            ScanItem::Fail(q) => GOut {
                res: Err(ParserErrorModel::Lex(lex_fail_model(s, q))),
                end: q,
            },
        },
        Err(_) => e,
    }
}

// ---------------------------------------------------------------------------
// Progress and well-formedness of the grammar
// ---------------------------------------------------------------------------
/// A successful factor consumes at least one token and stays inside the
/// input, and its tree is well-formed.
pub proof fn lemma_factor_progress(s: Seq<char>, pos: int)
    requires
        0 <= pos <= s.len(),
    ensures
        g_factor(s, pos).res matches Ok(n) ==> pos < g_factor(s, pos).end <= s.len() && ast_wf(n),
    decreases s.len() - pos, 0int,
{
    lemma_scan_progress(s, pos);
    match scan_item(s, pos) {
        ScanItem::Tok(t) => {
            if t.kind is LeftBracket {
                let p1 = scan_end(s, pos);
                if !(scan_item(s, p1) is Fail) {
                    lemma_expression_progress(s, p1);
                    let e = g_expression(s, p1);
                    if e.res is Ok {
                        lemma_scan_progress(s, e.end);
                    }
                }
            }
        },
        _ => {},
    }
}

/// A successful term tail never moves backward, stays inside the input, and
/// folds well-formed trees into well-formed trees.
pub proof fn lemma_term_loop_progress(acc: AstModel, s: Seq<char>, pos: int)
    requires
        0 <= pos <= s.len(),
    ensures
        g_term_loop(acc, s, pos).res matches Ok(n) ==> pos <= g_term_loop(acc, s, pos).end
            <= s.len() && (ast_wf(acc) ==> ast_wf(n)),
    decreases s.len() - pos, 1int,
{
    match scan_item(s, pos) {
        ScanItem::Tok(t) => {
            if t.kind == TokenKind::Multiply || t.kind == TokenKind::Divide {
                lemma_scan_progress(s, pos);
                let p1 = scan_end(s, pos);
                if pos < p1 <= s.len() {
                    lemma_factor_progress(s, p1);
                    let f = g_factor(s, p1);
                    match f.res {
                        Ok(n) => {
                            let acc2 = AstModel::Bin {
                                op: t,
                                left: Box::new(acc),
                                right: Box::new(n),
                            };
                            if p1 < f.end <= s.len() {
                                lemma_term_loop_progress(acc2, s, f.end);
                            }
                        },
                        Err(_) => {},
                    }
                }
            }
        },
        _ => {},
    }
}

/// A successful term consumes at least one token, stays inside the input,
/// and yields a well-formed tree.
pub proof fn lemma_term_progress(s: Seq<char>, pos: int)
    requires
        0 <= pos <= s.len(),
    ensures
        g_term(s, pos).res matches Ok(n) ==> pos < g_term(s, pos).end <= s.len() && ast_wf(n),
    decreases s.len() - pos, 2int,
{
    lemma_factor_progress(s, pos);
    let f = g_factor(s, pos);
    match f.res {
        Ok(n) => {
            if pos < f.end <= s.len() {
                lemma_term_loop_progress(n, s, f.end);
            }
        },
        Err(_) => {},
    }
}

/// A successful expression tail never moves backward, stays inside the
/// input, and folds well-formed trees into well-formed trees.
pub proof fn lemma_expr_loop_progress(acc: AstModel, s: Seq<char>, pos: int)
    requires
        0 <= pos <= s.len(),
    ensures
        g_expr_loop(acc, s, pos).res matches Ok(n) ==> pos <= g_expr_loop(acc, s, pos).end
            <= s.len() && (ast_wf(acc) ==> ast_wf(n)),
    decreases s.len() - pos, 3int,
{
    match scan_item(s, pos) {
        ScanItem::Tok(t) => {
            if t.kind == TokenKind::Plus || t.kind == TokenKind::Minus {
                lemma_scan_progress(s, pos);
                let p1 = scan_end(s, pos);
                if pos < p1 <= s.len() {
                    lemma_term_progress(s, p1);
                    let f = g_term(s, p1);
                    match f.res {
                        Ok(n) => {
                            let acc2 = AstModel::Bin {
                                op: t,
                                left: Box::new(acc),
                                right: Box::new(n),
                            };
                            if p1 < f.end <= s.len() {
                                lemma_expr_loop_progress(acc2, s, f.end);
                            }
                        },
                        Err(_) => {},
                    }
                }
            }
        },
        _ => {},
    }
}

/// A successful expression consumes at least one token, stays inside the
/// input, and yields a well-formed tree: the operator of every binary
/// operation in it is one of the four arithmetic operator kinds.
pub proof fn lemma_expression_progress(s: Seq<char>, pos: int)
    requires
        0 <= pos <= s.len(),
    ensures
        g_expression(s, pos).res matches Ok(n) ==> pos < g_expression(s, pos).end <= s.len()
            && ast_wf(n),
    decreases s.len() - pos, 4int,
{
    lemma_term_progress(s, pos);
    let f = g_term(s, pos);
    match f.res {
        Ok(n) => {
            if pos < f.end <= s.len() {
                lemma_expr_loop_progress(n, s, f.end);
            }
        },
        Err(_) => {},
    }
}

// ---------------------------------------------------------------------------
// The parser
// ---------------------------------------------------------------------------
/// The parser: the scanner it pulls from and one token of lookahead.
pub struct Parser {
    lexer: Lexer,
    current_token: Option<Token>,
    gp: Ghost<int>,
}

/// The mathematical model of a parser: the character buffer, the position
/// from which the lookahead was scanned, and the lookahead itself.
pub struct ParserModel {
    pub chars: Seq<char>,
    pub gp: int,
    pub cur: Option<TokenModel>,
}

impl View for Parser {
    type V = ParserModel;

    closed spec fn view(&self) -> ParserModel {
        ParserModel {
            chars: self.lexer@.chars,
            gp: self.gp@,
            cur: match self.current_token {
                Some(t) => Some(t@),
                None => None,
            },
        }
    }
}

impl Parser {
    /// Well-formedness: the scanner is well-formed, its cursor stands right
    /// after the lookahead token, and the lookahead is exactly what a scan
    /// from `gp` produces (no lookahead exactly at the end of the input).
    pub closed spec fn wf(&self) -> bool {
        &&& self.lexer.wf()
        &&& 0 <= self.gp@ <= self.lexer@.chars.len()
        &&& self.lexer@.pos == scan_end(self.lexer@.chars, self.gp@)
        &&& match self.current_token {
            Some(t) => scan_item(self.lexer@.chars, self.gp@) == ScanItem::Tok(t@),
            None => scan_item(self.lexer@.chars, self.gp@) is End,
        }
    }

    /// Builds a parser over the given scanner, priming one token of
    /// lookahead; fails with the scan error if that first pull fails.
    pub fn new(lexer: Lexer) -> (r: Result<Self, LexerError>)
        requires
            lexer.wf(),
        ensures
            match r {
                Ok(p) => p.wf() && p@.chars == lexer@.chars && p@.gp == lexer@.pos,
                Err(e) => scan_item(lexer@.chars, lexer@.pos) matches ScanItem::Fail(q) && e@
                    == lex_fail_model(lexer@.chars, q),
            },
    {
        let ghost gp = lexer@.pos;
        let mut lexer = lexer;
        proof {
            lemma_lexer_wf_facts(&lexer);
            lemma_scan_progress(lexer@.chars, gp);
        }
        match lexer.lex_next() {
            Ok(token) => Ok(Self { lexer, current_token: token, gp: Ghost(gp) }),
            Err(err) => Err(err),
        }
    }

    /// A copy of the lookahead token, if any.
    fn current_clone(&self) -> (r: Option<Token>)
        ensures
            match r {
                Some(t) => self@.cur matches Some(m) && t@ == m,
                None => self@.cur is None,
            },
    {
        match &self.current_token {
            Some(t) => Some(t.clone()),
            None => None,
        }
    }

    /// Advances the lookahead unconditionally, discarding the current token.
    fn consume(&mut self) -> (r: Result<(), ParserError>)
        requires
            old(self).wf(),
        ensures
            final(self)@.chars == old(self)@.chars,
            ({
                let s = old(self)@.chars;
                let q = scan_end(s, old(self)@.gp);
                match scan_item(s, q) {
                    ScanItem::Fail(p) => r matches Err(e) && e@ == ParserErrorModel::Lex(
                        lex_fail_model(s, p),
                    ),
                    _ => r matches Ok(u) && final(self).wf() && final(self)@.gp == q,
                }
            }),
    {
        let ghost s = self.lexer@.chars;
        let ghost q = scan_end(s, self.gp@);
        proof {
            lemma_scan_progress(s, self.gp@);
        }
        match self.lexer.lex_next() {
            Ok(token) => {
                self.current_token = token;
                proof {
                    self.gp@ = q;
                }
                Ok(())
            },
            Err(err) => Err(ParserError::Lex(err)),
        }
    }

    /// Demands that the lookahead has the given kind, then advances past it;
    /// reports a syntax error naming the demanded kind otherwise.
    fn eat(&mut self, token_type: TokenType) -> (r: Result<(), ParserError>)
        requires
            old(self).wf(),
        ensures
            final(self)@.chars == old(self)@.chars,
            ({
                let s = old(self)@.chars;
                match old(self)@.cur {
                    None => r matches Err(e) && e@ == ParserErrorModel::Syntax(
                        end_syntax_model(s, Some(token_type@)),
                    ),
                    Some(t) => if t.kind == token_type@ {
                        match scan_item(s, scan_end(s, old(self)@.gp)) {
                            ScanItem::Fail(p) => r matches Err(e) && e@ == ParserErrorModel::Lex(
                                lex_fail_model(s, p),
                            ),
                            _ => r matches Ok(u) && final(self).wf() && final(self)@.gp == scan_end(
                                s,
                                old(self)@.gp,
                            ),
                        }
                    } else {
                        r matches Err(e) && e@ == ParserErrorModel::Syntax(
                            tok_syntax_model(Some(token_type@), t),
                        )
                    },
                }
            }),
    {
        let cur = self.current_clone();
        match cur {
            Some(token) => {
                if token_type_eq(&token.token_type, &token_type) {
                    self.consume()
                } else {
                    let line = token.line;
                    let pos = token.pos;
                    Err(
                        ParserError::Syntax(
                            SyntaxError {
                                expected: Some(token_type),
                                found: Some(token),
                                line,
                                pos,
                            },
                        ),
                    )
                }
            },
            None => {
                proof {
                    lemma_lexer_wf_facts(&self.lexer);
                    lemma_scan_progress(self.lexer@.chars, self.gp@);
                }
                let line = self.lexer.line();
                let pos = self.lexer.position();
                Err(
                    ParserError::Syntax(
                        SyntaxError { expected: Some(token_type), found: None, line, pos },
                    ),
                )
            },
        }
    }

    /// `factor := NUMBER | LEFT_BRACKET expression RIGHT_BRACKET`: exactly
    /// what [`g_factor`] says of the old state.
    fn parse_factor(&mut self) -> (r: Result<AstNode, ParserError>)
        requires
            old(self).wf(),
        ensures
            final(self)@.chars == old(self)@.chars,
            ({
                let g = g_factor(old(self)@.chars, old(self)@.gp);
                match r {
                    Ok(node) => g.res matches Ok(m) && m == ast_model(node) && final(self).wf()
                        && final(self)@.gp == g.end,
                    Err(e) => g.res matches Err(em) && em == e@,
                }
            }),
        decreases old(self)@.chars.len() - old(self)@.gp, 0int,
    {
        let ghost s = self.lexer@.chars;
        let ghost gp = self.gp@;
        proof {
            lemma_scan_progress(s, gp);
        }
        let cur = self.current_clone();
        match cur {
            Some(token) => {
                match token.token_type {
                    TokenType::Number(number) => {
                        match self.consume() {
                            Ok(u) => Ok(AstNode::Int(number)),
                            Err(e) => Err(e),
                        }
                    },
                    TokenType::LeftBracket => {
                        match self.eat(TokenType::LeftBracket) {
                            Ok(u) => (),
                            Err(e) => {
                                return Err(e);
                            },
                        }
                        let node = match self.parse_expression() {
                            Ok(n) => n,
                            Err(e) => {
                                return Err(e);
                            },
                        };
                        match self.eat(TokenType::RightBracket) {
                            Ok(u) => Ok(node),
                            Err(e) => Err(e),
                        }
                    },
                    _ => {
                        let line = token.line;
                        let pos = token.pos;
                        Err(
                            ParserError::Syntax(
                                SyntaxError { expected: None, found: Some(token), line, pos },
                            ),
                        )
                    },
                }
            },
            None => {
                proof {
                    lemma_lexer_wf_facts(&self.lexer);
                }
                let line = self.lexer.line();
                let pos = self.lexer.position();
                Err(ParserError::Syntax(SyntaxError { expected: None, found: None, line, pos }))
            },
        }
    }

    /// `term := factor ( (MULTIPLY|DIVIDE) factor )*`, folded left: exactly
    /// what [`g_term`] says of the old state.
    #[verifier::rlimit(60)]
    fn parse_term(&mut self) -> (r: Result<AstNode, ParserError>)
        requires
            old(self).wf(),
        ensures
            final(self)@.chars == old(self)@.chars,
            ({
                let g = g_term(old(self)@.chars, old(self)@.gp);
                match r {
                    Ok(node) => g.res matches Ok(m) && m == ast_model(node) && final(self).wf()
                        && final(self)@.gp == g.end,
                    Err(e) => g.res matches Err(em) && em == e@,
                }
            }),
        decreases old(self)@.chars.len() - old(self)@.gp, 2int,
    {
        let ghost s = self.lexer@.chars;
        let ghost gp0 = self.gp@;
        let mut node = match self.parse_factor() {
            Ok(n) => n,
            Err(e) => {
                return Err(e);
            },
        };
        proof {
            lemma_factor_progress(s, gp0);
        }
        loop
            invariant
                self.wf(),
                self@.chars == s,
                s == old(self)@.chars,
                gp0 == old(self)@.gp,
                gp0 <= self@.gp,
                g_term_loop(ast_model(node), s, self@.gp) == g_term(s, gp0),
            ensures
                self.wf(),
                self@.chars == s,
                g_term(s, gp0).res matches Ok(m) && m == ast_model(node),
                g_term(s, gp0).end == self@.gp,
            decreases s.len() - self@.gp,
        {
            let ghost gp = self.gp@;
            proof {
                lemma_scan_progress(s, gp);
            }
            let cur = self.current_clone();
            match cur {
                None => {
                    break;
                },
                Some(token) => {
                    if matches!(token.token_type, TokenType::Multiply | TokenType::Divide) {
                        let ghost p1 = scan_end(s, gp);
                        match self.consume() {
                            Ok(u) => (),
                            Err(e) => {
                                proof {
                                    assert(g_factor(s, p1).res matches Err(em) && em == e@);
                                }
                                return Err(e);
                            },
                        }
                        let right = match self.parse_factor() {
                            Ok(n) => n,
                            Err(e) => {
                                return Err(e);
                            },
                        };
                        proof {
                            lemma_factor_progress(s, p1);
                        }
                        node = AstNode::BinaryOperation {
                            op: Box::new(token),
                            left: Box::new(node),
                            right: Box::new(right),
                        };
                    } else if matches!(
                        token.token_type,
                        TokenType::Plus | TokenType::Minus | TokenType::RightBracket
                    ) {
                        break;
                    } else {
                        let line = token.line;
                        let pos = token.pos;
                        return Err(
                            ParserError::Syntax(
                                SyntaxError { expected: None, found: Some(token), line, pos },
                            ),
                        );
                    }
                },
            }
        }
        Ok(node)
    }

    /// `expression := term ( (PLUS|MINUS) term )*`, folded left: exactly what
    /// [`g_expression`] says of the old state.
    #[verifier::rlimit(60)]
    fn parse_expression(&mut self) -> (r: Result<AstNode, ParserError>)
        requires
            old(self).wf(),
        ensures
            final(self)@.chars == old(self)@.chars,
            ({
                let g = g_expression(old(self)@.chars, old(self)@.gp);
                match r {
                    Ok(node) => g.res matches Ok(m) && m == ast_model(node) && final(self).wf()
                        && final(self)@.gp == g.end,
                    Err(e) => g.res matches Err(em) && em == e@,
                }
            }),
        decreases old(self)@.chars.len() - old(self)@.gp, 4int,
    {
        let ghost s = self.lexer@.chars;
        let ghost gp0 = self.gp@;
        let mut node = match self.parse_term() {
            Ok(n) => n,
            Err(e) => {
                return Err(e);
            },
        };
        proof {
            lemma_term_progress(s, gp0);
        }
        loop
            invariant
                self.wf(),
                self@.chars == s,
                s == old(self)@.chars,
                gp0 == old(self)@.gp,
                gp0 <= self@.gp,
                g_expr_loop(ast_model(node), s, self@.gp) == g_expression(s, gp0),
            ensures
                self.wf(),
                self@.chars == s,
                g_expression(s, gp0).res matches Ok(m) && m == ast_model(node),
                g_expression(s, gp0).end == self@.gp,
            decreases s.len() - self@.gp,
        {
            let ghost gp = self.gp@;
            proof {
                lemma_scan_progress(s, gp);
            }
            let cur = self.current_clone();
            match cur {
                None => {
                    break;
                },
                Some(token) => {
                    if matches!(token.token_type, TokenType::Plus | TokenType::Minus) {
                        let ghost p1 = scan_end(s, gp);
                        match self.consume() {
                            Ok(u) => (),
                            Err(e) => {
                                proof {
                                    assert(g_term(s, p1).res matches Err(em) && em == e@);
                                }
                                return Err(e);
                            },
                        }
                        let right = match self.parse_term() {
                            Ok(n) => n,
                            Err(e) => {
                                return Err(e);
                            },
                        };
                        proof {
                            lemma_term_progress(s, p1);
                        }
                        node = AstNode::BinaryOperation {
                            op: Box::new(token),
                            left: Box::new(node),
                            right: Box::new(right),
                        };
                    } else if matches!(token.token_type, TokenType::RightBracket) {
                        break;
                    } else {
                        let line = token.line;
                        let pos = token.pos;
                        return Err(
                            ParserError::Syntax(
                                SyntaxError { expected: None, found: Some(token), line, pos },
                            ),
                        );
                    }
                },
            }
        }
        Ok(node)
    }

    /// Parses exactly one complete expression starting at the current
    /// lookahead and demands that nothing follows it. On success the tree is
    /// what [`g_parse`] (the grammar plus the exhaustion demand) derives from
    /// the remaining input, the input after the expression is exhausted, and
    /// the operator of every binary operation in the tree is one of the four
    /// arithmetic operator kinds; on failure the error is exactly the
    /// grammar's — a trailing token, an unmatched closing bracket included,
    /// is a syntax error carrying that token — and no tree is produced.
    pub fn parse(&mut self) -> (r: Result<AstNode, ParserError>)
        requires
            old(self).wf(),
        ensures
            final(self)@.chars == old(self)@.chars,
            ({
                let g = g_parse(old(self)@.chars, old(self)@.gp);
                match r {
                    Ok(node) => g.res matches Ok(m) && m == ast_model(node) && ast_wf(
                        ast_model(node),
                    ) && final(self).wf() && final(self)@.gp == g.end && scan_item(
                        old(self)@.chars,
                        g.end,
                    ) is End,
                    Err(e) => g.res matches Err(em) && em == e@,
                }
            }),
    {
        proof {
            lemma_expression_progress(self.lexer@.chars, self.gp@);
        }
        let node = match self.parse_expression() {
            Ok(n) => n,
            Err(e) => {
                return Err(e);
            },
        };
        match self.current_clone() {
            None => Ok(node),
            Some(token) => {
                let line = token.line;
                let pos = token.pos;
                Err(
                    ParserError::Syntax(
                        SyntaxError { expected: None, found: Some(token), line, pos },
                    ),
                )
            },
        }
    }
}

} // verus!
