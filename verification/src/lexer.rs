//! The scanner: turns a character buffer into classified tokens, one token per
//! pull, tracking the 1-based line number for diagnostics.
//!
//! The whole scanning step is modelled by the spec functions [`scan_item`] and
//! [`scan_end`]: given the character buffer and the cursor, they say which
//! token (or end, or failure) the next pull produces and where the cursor
//! stands afterwards. [`Lexer::lex_next`] is proved to return exactly that.

use vstd::prelude::*;
use vstd::string::StrSliceExecFns;
use crate::token::{Token, TokenModel};
use crate::token_def::{registered_table, registered_tokens, RegisteredToken, TokenKind, TokenType};

verus! {

// ---------------------------------------------------------------------------
// Character classes
// ---------------------------------------------------------------------------
/// Whether a character outside the ASCII range has the Unicode `White_Space`
/// property. Only the trusted wrapper below gives this name a value.
pub uninterp spec fn ws_nonascii(c: char) -> bool;

/// Whether a character outside the ASCII range is alphabetic per Unicode.
pub uninterp spec fn alpha_nonascii(c: char) -> bool;

/// Whether a character outside the ASCII range is alphanumeric per Unicode.
pub uninterp spec fn alnum_nonascii(c: char) -> bool;

/// Whitespace: within ASCII exactly the characters with the Unicode
/// `White_Space` property (tab, line feed, vertical tab, form feed, carriage
/// return, space); outside ASCII whatever `char::is_whitespace` decides.
pub open spec fn is_ws(c: char) -> bool {
    if (c as u32) < 128 {
        c == ' ' || c == '\t' || c == '\n' || c == '\u{b}' || c == '\u{c}' || c == '\r'
    } else {
        ws_nonascii(c)
    }
}

/// Alphabetic: within ASCII exactly the letters; outside ASCII whatever
/// `char::is_alphabetic` decides.
pub open spec fn is_alpha(c: char) -> bool {
    if (c as u32) < 128 {
        (65 <= c as u32 && c as u32 <= 90) || (97 <= c as u32 && c as u32 <= 122)
    } else {
        alpha_nonascii(c)
    }
}

/// A decimal digit.
pub open spec fn is_digit(c: char) -> bool {
    48 <= c as u32 && c as u32 <= 57
}

/// Alphanumeric: within ASCII exactly the letters and decimal digits; outside
/// ASCII whatever `char::is_alphanumeric` decides.
pub open spec fn is_alnum(c: char) -> bool {
    if (c as u32) < 128 {
        is_alpha(c) || is_digit(c)
    } else {
        alnum_nonascii(c)
    }
}

/// A character that may start an identifier.
pub open spec fn is_ident_start(c: char) -> bool {
    is_alpha(c) || c == '_'
}

/// A character that may continue an identifier.
pub open spec fn is_ident_cont(c: char) -> bool {
    is_alnum(c) || c == '_'
}

/// Relies on char::is_whitespace: true exactly for characters with the
/// Unicode `White_Space` property, whose ASCII members are tab, line feed,
/// vertical tab, form feed, carriage return and space.
#[verifier::external_body]
fn char_is_whitespace(c: char) -> (r: bool)
    ensures
        r == is_ws(c),
        (c as u32) >= 128 ==> r == ws_nonascii(c),
{
    c.is_whitespace()
}

/// Relies on char::is_alphabetic: true exactly for characters with the
/// Unicode `Alphabetic` property, whose ASCII members are the letters.
#[verifier::external_body]
fn char_is_alphabetic(c: char) -> (r: bool)
    ensures
        r == is_alpha(c),
        (c as u32) >= 128 ==> r == alpha_nonascii(c),
{
    c.is_alphabetic()
}

/// Relies on char::is_alphanumeric: true exactly for alphabetic or numeric
/// characters, whose ASCII members are the letters and the decimal digits.
#[verifier::external_body]
fn char_is_alphanumeric(c: char) -> (r: bool)
    ensures
        r == is_alnum(c),
        (c as u32) >= 128 ==> r == alnum_nonascii(c),
{
    c.is_alphanumeric()
}

/// A decimal digit, decided without trust.
fn char_is_digit(c: char) -> (r: bool)
    ensures
        r == is_digit(c),
{
    let v = c as u32;
    48 <= v && v <= 57
}

// ---------------------------------------------------------------------------
// Counting newlines, skipping whitespace, consuming runs
// ---------------------------------------------------------------------------
/// The number of line feed characters among the first `n` characters of `s`.
pub open spec fn newlines_before(s: Seq<char>, n: int) -> int
    decreases n,
{
    if n <= 0 {
        0
    } else {
        newlines_before(s, n - 1) + if s[n - 1] == '\n' {
            1int
        } else {
            0int
        }
    }
}

/// The 1-based line number of position `n`: one more than the number of line
/// feeds strictly before it.
pub open spec fn line_at(s: Seq<char>, n: int) -> int {
    newlines_before(s, n) + 1
}

/// The first position at or after `pos` that is not whitespace (or the end of
/// the input).
pub open spec fn ws_end(s: Seq<char>, pos: int) -> int
    decreases s.len() - pos,
{
    if 0 <= pos < s.len() && is_ws(s[pos]) {
        ws_end(s, pos + 1)
    } else {
        pos
    }
}

/// The first position at or after `pos` that cannot continue an identifier.
pub open spec fn ident_end(s: Seq<char>, pos: int) -> int
    decreases s.len() - pos,
{
    if 0 <= pos < s.len() && is_ident_cont(s[pos]) {
        ident_end(s, pos + 1)
    } else {
        pos
    }
}

/// The first position at or after `pos` that is not a decimal digit.
pub open spec fn digit_end(s: Seq<char>, pos: int) -> int
    decreases s.len() - pos,
{
    if 0 <= pos < s.len() && is_digit(s[pos]) {
        digit_end(s, pos + 1)
    } else {
        pos
    }
}

/// Whether every character of `s` is a decimal digit.
pub open spec fn all_digits(s: Seq<char>) -> bool {
    forall|k: int| 0 <= k < s.len() ==> is_digit(#[trigger] s[k])
}

/// The value of a run of decimal digits, most significant first.
pub open spec fn run_value(s: Seq<char>) -> int
    decreases s.len(),
{
    if s.len() == 0 {
        0
    } else {
        run_value(s.drop_last()) * 10 + (s.last() as u32 - 48)
    }
}

/// Every run of consecutive decimal digits in `s` denotes a value that fits
/// in a signed 64-bit integer. The scanner needs this of its input so that a
/// numeric literal never overflows when its value is computed.
pub open spec fn digit_runs_fit(s: Seq<char>) -> bool {
    forall|i: int, j: int|
        0 <= i <= j <= s.len() && all_digits(#[trigger] s.subrange(i, j)) ==> run_value(
            s.subrange(i, j),
        ) <= i64::MAX
}

// ---------------------------------------------------------------------------
// The scan, as a mathematical function
// ---------------------------------------------------------------------------
/// Whether the registered literal `lit` stands at `pos` in `s`.
pub open spec fn lit_matches(s: Seq<char>, pos: int, lit: Seq<char>) -> bool {
    pos + lit.len() <= s.len() && s.subrange(pos, pos + lit.len()) == lit
}

/// The index of the first registered-table entry at or after `k` whose
/// literal stands at `pos`, or the table's length if none does.
pub open spec fn first_lit_match(s: Seq<char>, pos: int, k: int) -> int
    decreases registered_table().len() - k,
{
    if 0 <= k < registered_table().len() {
        if lit_matches(s, pos, registered_table()[k].0) {
            k
        } else {
            first_lit_match(s, pos, k + 1)
        }
    } else {
        registered_table().len() as int
    }
}

/// What one pull of the scanner produces.
pub enum ScanItem {
    /// The input is exhausted once whitespace is skipped: no further token.
    End,
    /// The next token.
    Tok(TokenModel),
    /// The character at this position matches no recognized class.
    Fail(int),
}

/// What the next pull of the scanner produces when the cursor stands at
/// `pos`: the end of input, a token, or a failure position.
pub open spec fn scan_item(s: Seq<char>, pos: int) -> ScanItem {
    let p = ws_end(s, pos);
    if p >= s.len() {
        ScanItem::End
    } else {
        let k = first_lit_match(s, p, 0);
        if k < registered_table().len() {
            ScanItem::Tok(
                TokenModel { pos: p, line: line_at(s, p), kind: registered_table()[k].1 },
            )
        } else if is_ident_start(s[p]) {
            ScanItem::Tok(
                TokenModel {
                    pos: p,
                    line: line_at(s, p),
                    kind: TokenKind::Identifier(s.subrange(p, ident_end(s, p + 1))),
                },
            )
        } else if is_digit(s[p]) {
            ScanItem::Tok(
                TokenModel {
                    pos: p,
                    line: line_at(s, p),
                    kind: TokenKind::Number(run_value(s.subrange(p, digit_end(s, p + 1)))),
                },
            )
        } else {
            ScanItem::Fail(p)
        }
    }
}

/// Where the cursor stands after one pull from `pos`: past the produced
/// token, at the end of input, or at the offending character.
pub open spec fn scan_end(s: Seq<char>, pos: int) -> int {
    let p = ws_end(s, pos);
    if p >= s.len() {
        p
    } else {
        let k = first_lit_match(s, p, 0);
        if k < registered_table().len() {
            p + registered_table()[k].0.len()
        } else if is_ident_start(s[p]) {
            ident_end(s, p + 1)
        } else if is_digit(s[p]) {
            digit_end(s, p + 1)
        } else {
            p
        }
    }
}

// ---------------------------------------------------------------------------
// Lemmas about the scan
// ---------------------------------------------------------------------------
/// The newline count of a prefix lies between zero and the prefix's length.
pub proof fn lemma_newlines_bound(s: Seq<char>, n: int)
    requires
        0 <= n,
    ensures
        0 <= newlines_before(s, n) <= n,
    decreases n,
{
    if n > 0 {
        lemma_newlines_bound(s, n - 1);
    }
}

/// Extending a prefix over characters that are not line feeds leaves the
/// newline count unchanged.
pub proof fn lemma_newlines_unchanged(s: Seq<char>, a: int, b: int)
    requires
        0 <= a <= b,
        forall|m: int| a <= m < b ==> s[m] != '\n',
    ensures
        newlines_before(s, b) == newlines_before(s, a),
    decreases b - a,
{
    if b > a {
        lemma_newlines_unchanged(s, a, b - 1);
    }
}

/// The end of a whitespace run lies between its start and the input's end.
pub proof fn lemma_ws_end_bounds(s: Seq<char>, pos: int)
    requires
        0 <= pos <= s.len(),
    ensures
        pos <= ws_end(s, pos) <= s.len(),
    decreases s.len() - pos,
{
    if pos < s.len() && is_ws(s[pos]) {
        lemma_ws_end_bounds(s, pos + 1);
    }
}

/// The end of an identifier run lies between its start and the input's end.
pub proof fn lemma_ident_end_bounds(s: Seq<char>, pos: int)
    requires
        0 <= pos <= s.len(),
    ensures
        pos <= ident_end(s, pos) <= s.len(),
    decreases s.len() - pos,
{
    if pos < s.len() && is_ident_cont(s[pos]) {
        lemma_ident_end_bounds(s, pos + 1);
    }
}

/// The end of a digit run lies between its start and the input's end.
pub proof fn lemma_digit_end_bounds(s: Seq<char>, pos: int)
    requires
        0 <= pos <= s.len(),
    ensures
        pos <= digit_end(s, pos) <= s.len(),
    decreases s.len() - pos,
{
    if pos < s.len() && is_digit(s[pos]) {
        lemma_digit_end_bounds(s, pos + 1);
    }
}

/// Shape of the registered table: every literal is non-empty, holds neither
/// whitespace nor a line feed, and no entry produces the end-of-input kind.
pub proof fn lemma_table_facts()
    ensures
        forall|k: int|
            0 <= k < registered_table().len() ==> 1 <= (#[trigger] registered_table()[k]).0.len(),
        forall|k: int, m: int|
            0 <= k < registered_table().len() && 0 <= m < registered_table()[k].0.len() ==> !is_ws(
                #[trigger] registered_table()[k].0[m],
            ) && registered_table()[k].0[m] != '\n',
        forall|k: int|
            0 <= k < registered_table().len() ==> (#[trigger] registered_table()[k]).1
                != TokenKind::Eof,
{
    reveal_strlit("void");
    reveal_strlit("(");
    reveal_strlit(")");
    reveal_strlit("{");
    reveal_strlit("}");
    reveal_strlit("=");
    reveal_strlit(";");
    reveal_strlit("+");
    reveal_strlit("-");
    reveal_strlit("*");
    reveal_strlit("/");
}

/// What the first-match search returns: an index no smaller than `k`, at most
/// the table's length; a matching literal when it is in range; and no match
/// anywhere between `k` and the returned index.
pub proof fn lemma_first_lit_match(s: Seq<char>, pos: int, k: int)
    requires
        0 <= k <= registered_table().len(),
    ensures
        k <= first_lit_match(s, pos, k) <= registered_table().len(),
        first_lit_match(s, pos, k) < registered_table().len() ==> lit_matches(
            s,
            pos,
            registered_table()[first_lit_match(s, pos, k)].0,
        ),
        forall|j: int|
            k <= j < first_lit_match(s, pos, k) ==> !lit_matches(
                s,
                pos,
                (#[trigger] registered_table()[j]).0,
            ),
    decreases registered_table().len() - k,
{
    if k < registered_table().len() && !lit_matches(s, pos, registered_table()[k].0) {
        lemma_first_lit_match(s, pos, k + 1);
    }
}

/// Skipping whitespace twice is the same as skipping it once.
pub proof fn lemma_ws_end_idempotent(s: Seq<char>, pos: int)
    requires
        0 <= pos <= s.len(),
    ensures
        ws_end(s, ws_end(s, pos)) == ws_end(s, pos),
    decreases s.len() - pos,
{
    if pos < s.len() && is_ws(s[pos]) {
        lemma_ws_end_idempotent(s, pos + 1);
    }
}

/// The first-match search from the table's start lands exactly on an entry
/// that matches and is preceded by no matching entry.
proof fn lemma_flm_from(s: Seq<char>, pos: int, a: int, k: int)
    requires
        0 <= a <= k < registered_table().len(),
        lit_matches(s, pos, registered_table()[k].0),
        forall|j: int| a <= j < k ==> !lit_matches(s, pos, (#[trigger] registered_table()[j]).0),
    ensures
        first_lit_match(s, pos, a) == k,
    decreases k - a,
{
    if a < k {
        lemma_flm_from(s, pos, a + 1, k);
    }
}

/// Round trip for the registered table: scanning a registered literal alone
/// yields exactly one token, of that entry's kind, at position 0 on line 1,
/// after which the input is exhausted.
pub proof fn lemma_registered_round_trip(k: int)
    requires
        0 <= k < registered_table().len(),
    ensures
        scan_item(registered_table()[k].0, 0) == ScanItem::Tok(
            TokenModel { pos: 0, line: 1, kind: registered_table()[k].1 },
        ),
        scan_end(registered_table()[k].0, 0) == registered_table()[k].0.len(),
        scan_item(registered_table()[k].0, registered_table()[k].0.len() as int) is End,
{
    lemma_table_facts();
    reveal_strlit("void");
    reveal_strlit("(");
    reveal_strlit(")");
    reveal_strlit("{");
    reveal_strlit("}");
    reveal_strlit("=");
    reveal_strlit(";");
    reveal_strlit("+");
    reveal_strlit("-");
    reveal_strlit("*");
    reveal_strlit("/");
    let lit = registered_table()[k].0;
    assert(lit.subrange(0, lit.len() as int) =~= lit);
    assert(lit_matches(lit, 0, lit));
    assert forall|j: int| 0 <= j < k implies !lit_matches(
        lit,
        0,
        (#[trigger] registered_table()[j]).0,
    ) by {
        let lj = registered_table()[j].0;
        if lit_matches(lit, 0, lj) {
            assert(lit.subrange(0, lj.len() as int)[0] == lj[0]);
        }
    }
    lemma_flm_from(lit, 0, 0, k);
    assert(ws_end(lit, 0) == 0);
    assert(ws_end(lit, lit.len() as int) == lit.len());
}

/// Re-scanning after a failure reproduces the identical failure: a failing
/// pull leaves the cursor at the offending character, where the next pull
/// finds the same character, the same position and the same line again.
pub proof fn lemma_rescan_after_failure(s: Seq<char>, pos: int)
    requires
        0 <= pos <= s.len(),
        scan_item(s, pos) is Fail,
    ensures
        scan_item(s, scan_end(s, pos)) == scan_item(s, pos),
        scan_end(s, scan_end(s, pos)) == scan_end(s, pos),
{
    lemma_ws_end_idempotent(s, pos);
}

/// What a well-formed scanner guarantees of its model: the cursor is inside
/// the input and the line counter names the cursor's line.
pub proof fn lemma_lexer_wf_facts(l: &Lexer)
    requires
        l.wf(),
    ensures
        0 <= l@.pos <= l@.chars.len(),
        l@.line == line_at(l@.chars, l@.pos),
{
}

/// One pull of the scanner moves the cursor forward: never backward, never
/// past the end, and past at least one character whenever a token comes out.
pub proof fn lemma_scan_progress(s: Seq<char>, pos: int)
    requires
        0 <= pos <= s.len(),
    ensures
        pos <= scan_end(s, pos) <= s.len(),
        scan_item(s, pos) is Tok ==> pos < scan_end(s, pos),
        scan_item(s, pos) is End ==> scan_end(s, pos) == s.len(),
        scan_item(s, pos) is Fail ==> scan_end(s, pos) == scan_item(s, pos)->Fail_0,
{
    lemma_ws_end_bounds(s, pos);
    let p = ws_end(s, pos);
    if p < s.len() {
        lemma_first_lit_match(s, p, 0);
        let k = first_lit_match(s, p, 0);
        if k < registered_table().len() {
            lemma_table_facts();
        } else if is_ident_start(s[p]) {
            lemma_ident_end_bounds(s, p + 1);
        } else if is_digit(s[p]) {
            lemma_digit_end_bounds(s, p + 1);
        }
    }
}

// ---------------------------------------------------------------------------
// The scanner
// ---------------------------------------------------------------------------
/// The error produced when the scanner meets a character that matches no
/// recognized class. It carries the 1-based line, the 0-based character
/// offset, and the offending text.
#[derive(Clone, Debug, PartialEq, Eq)]
pub struct LexerError {
    line: usize,
    pos: usize,
    content: String,
}

/// The mathematical model of a scan error.
pub struct LexerErrorModel {
    pub line: int,
    pub pos: int,
    pub content: Seq<char>,
}

impl View for LexerError {
    type V = LexerErrorModel;

    closed spec fn view(&self) -> LexerErrorModel {
        LexerErrorModel { line: self.line as int, pos: self.pos as int, content: self.content@ }
    }
}

impl LexerError {
    /// The 1-based line of the offending character.
    pub fn line(&self) -> (r: usize)
        ensures
            r == self@.line,
    {
        self.line
    }

    /// The 0-based character offset of the offending character.
    pub fn position(&self) -> (r: usize)
        ensures
            r == self@.pos,
    {
        self.pos
    }

    /// The offending text itself.
    pub fn content(&self) -> (r: &String)
        ensures
            r@ == self@.content,
    {
        &self.content
    }

    /// The human-readable diagnostic for this error.
    pub fn message(&self) -> (r: String)
        ensures
            r@ == "Unknown token at line "@ + dec_digits(self@.line) + " position "@ + dec_digits(
                self@.pos,
            ) + ": '"@ + self@.content + "'"@,
    {
        let mut s = String::new();
        s.append("Unknown token at line ");
        push_dec(self.line, &mut s);
        s.append(" position ");
        push_dec(self.pos, &mut s);
        s.append(": '");
        s.append(self.content.as_str());
        s.append("'");
        proof {
            assert(s@ =~= "Unknown token at line "@ + dec_digits(self@.line) + " position "@
                + dec_digits(self@.pos) + ": '"@ + self@.content + "'"@);
        }
        s
    }
}

/// The decimal digit character for a value below ten.
pub open spec fn digit_char(d: int) -> char {
    ((48 + d) as u8) as char
}

/// The decimal numeral of a non-negative number, most significant digit
/// first.
pub open spec fn dec_digits(n: int) -> Seq<char>
    recommends
        0 <= n,
    decreases n,
{
    if n < 10 {
        seq![digit_char(n)]
    } else {
        dec_digits(n / 10).push(digit_char(n % 10))
    }
}

/// Appends the decimal numeral of `n` to `s`.
fn push_dec(n: usize, s: &mut String)
    ensures
        final(s)@ == old(s)@ + dec_digits(n as int),
    decreases n,
{
    if n < 10 {
        string_push(s, (48 + n as u8) as char);
        proof {
            assert(old(s)@ + dec_digits(n as int) =~= old(s)@.push(digit_char(n as int)));
        }
    } else {
        push_dec(n / 10, s);
        string_push(s, (48 + (n % 10) as u8) as char);
        proof {
            assert(old(s)@ + dec_digits(n as int) =~= (old(s)@ + dec_digits(n as int / 10)).push(
                digit_char(n as int % 10),
            ));
        }
    }
}

/// Relies on String::push: appends the given character to the end of the
/// string.
#[verifier::external_body]
fn string_push(s: &mut String, c: char)
    ensures
        final(s)@ == old(s)@.push(c),
{
    s.push(c);
}

/// Copies the characters of `chars[from..to]` into a fresh string.
#[verifier::loop_isolation(false)]
fn chars_to_string(chars: &Vec<char>, from: usize, to: usize) -> (s: String)
    requires
        from <= to <= chars@.len(),
    ensures
        s@ == chars@.subrange(from as int, to as int),
{
    let mut s = String::new();
    let mut i: usize = from;
    while i < to
        invariant
            from <= i <= to <= chars@.len(),
            s@ == chars@.subrange(from as int, i as int),
        decreases to - i,
    {
        string_push(&mut s, chars[i]);
        i = i + 1;
        proof {
            assert(chars@.subrange(from as int, i as int) =~= chars@.subrange(
                from as int,
                i - 1,
            ).push(chars@[i - 1]));
        }
    }
    s
}

/// The scanner: holds the full character sequence, the registered table, the
/// cursor, and the 1-based line counter.
pub struct Lexer {
    chars: Vec<char>,
    table: Vec<RegisteredToken>,
    pos: usize,
    line: usize,
}

/// The mathematical model of a scanner: the character sequence, the cursor,
/// and the current line.
pub struct LexerModel {
    pub chars: Seq<char>,
    pub pos: int,
    pub line: int,
}

impl View for Lexer {
    type V = LexerModel;

    closed spec fn view(&self) -> LexerModel {
        LexerModel { chars: self.chars@, pos: self.pos as int, line: self.line as int }
    }
}

impl Lexer {
    /// Well-formedness: the cursor is inside the input, the line counter
    /// says which line the cursor stands on, every digit run's value fits a
    /// signed 64-bit integer, and the held table is the registered table.
    pub closed spec fn wf(&self) -> bool {
        &&& self.pos <= self.chars@.len()
        &&& self.chars@.len() < usize::MAX
        &&& self.line == line_at(self.chars@, self.pos as int)
        &&& digit_runs_fit(self.chars@)
        &&& self.table@.len() == registered_table().len()
        &&& forall|i: int|
            0 <= i < self.table@.len() ==> (#[trigger] self.table@[i]).match_str@
                == registered_table()[i].0 && self.table@[i].token_type@ == registered_table()[i].1
    }

    /// Builds a scanner over the given input, with the cursor at the start
    /// and the line counter at one.
    #[verifier::loop_isolation(false)]
    pub fn new(input: String) -> (l: Self)
        requires
            digit_runs_fit(input@),
            input@.len() < usize::MAX,
        ensures
            l.wf(),
            l@.chars == input@,
            l@.pos == 0,
            l@.line == 1,
    {
        let n = input.as_str().unicode_len();
        let mut chars: Vec<char> = Vec::new();
        let mut i: usize = 0;
        while i < n
            invariant
                i <= n,
                n == input@.len(),
                chars@ == input@.subrange(0, i as int),
            decreases n - i,
        {
            chars.push(input.as_str().get_char(i));
            i = i + 1;
            proof {
                assert(input@.subrange(0, i as int) =~= input@.subrange(0, i - 1).push(
                    input@[i - 1],
                ));
            }
        }
        proof {
            assert(input@.subrange(0, n as int) =~= input@);
        }
        Self { chars, table: registered_tokens(), pos: 0, line: 1 }
    }

    /// The cursor: the 0-based character offset the next pull starts from.
    pub fn position(&self) -> (r: usize)
        ensures
            r == self@.pos,
    {
        self.pos
    }

    /// The 1-based line the cursor stands on.
    pub fn line(&self) -> (r: usize)
        ensures
            r == self@.line,
    {
        self.line
    }

    /// One scanning step: skips whitespace (counting line feeds), then
    /// produces the next token, an end-of-input token, or the scan error,
    /// exactly as [`scan_item`] says, leaving the cursor at [`scan_end`].
    #[verifier::loop_isolation(false)]
    fn get_next_token(&mut self) -> (r: Result<Token, LexerError>)
        requires
            old(self).wf(),
        ensures
            final(self).wf(),
            final(self)@.chars == old(self)@.chars,
            final(self)@.pos == scan_end(old(self)@.chars, old(self)@.pos),
            match scan_item(old(self)@.chars, old(self)@.pos) {
                ScanItem::End => r matches Ok(t) && t@.kind == TokenKind::Eof && t@.pos
                    == final(self)@.pos && t@.line == final(self)@.line,
                ScanItem::Tok(m) => r matches Ok(t) && t@ == m,
                ScanItem::Fail(p) => r matches Err(e) && e@.pos == p && e@.line == line_at(
                    old(self)@.chars,
                    p,
                ) && e@.content == seq![old(self)@.chars[p]],
            },
    {
        let ghost s = self.chars@;
        let ghost p0 = self.pos as int;
        // Skip whitespace; every skipped line feed moves the line counter on.
        while self.pos < self.chars.len() && char_is_whitespace(self.chars[self.pos])
            invariant
                self.chars@ == s,
                self.table@ == old(self).table@,
                old(self).wf(),
                p0 <= self.pos as int <= s.len(),
                ws_end(s, p0) == ws_end(s, self.pos as int),
                self.line == line_at(s, self.pos as int),
            decreases s.len() - self.pos,
        {
            proof {
                lemma_newlines_bound(s, self.pos as int);
            }
            if self.chars[self.pos] == '\n' {
                self.line = self.line + 1;
            }
            self.pos = self.pos + 1;
        }
        proof {
            assert(self.pos as int == ws_end(s, p0));
        }
        if self.pos >= self.chars.len() {
            return Ok(Token { pos: self.pos, line: self.line, token_type: TokenType::Eof });
        }
        let p = self.pos;
        // Fixed-text tokens: scan the registered table in order; the first
        // entry whose literal stands here wins.
        let mut k: usize = 0;
        while k < self.table.len()
            invariant
                self.chars@ == s,
                self.table@ == old(self).table@,
                old(self).wf(),
                k <= self.table@.len(),
                self.pos == p,
                self.line == line_at(s, p as int),
                p as int == ws_end(s, p0),
                (p as int) < s.len(),
                first_lit_match(s, p as int, 0) == first_lit_match(s, p as int, k as int),
            decreases self.table@.len() - k,
        {
            let ghost lit = registered_table()[k as int].0;
            let lit_len = self.table[k].match_str.as_str().unicode_len();
            if self.chars.len() - p >= lit_len {
                let mut j: usize = 0;
                let mut matched = true;
                while j < lit_len
                    invariant
                        self.chars@ == s,
                        self.table@ == old(self).table@,
                        old(self).wf(),
                        k < self.table@.len(),
                        lit == registered_table()[k as int].0,
                        lit_len == lit.len(),
                        p + lit_len <= s.len(),
                        j <= lit_len,
                        matched ==> forall|m: int| 0 <= m < j ==> s[p + m] == lit[m],
                        !matched ==> !lit_matches(s, p as int, lit),
                    decreases lit_len - j,
                {
                    if self.chars[p + j] == self.table[k].match_str.as_str().get_char(j) {
                        j = j + 1;
                    } else {
                        proof {
                            if lit_matches(s, p as int, lit) {
                                assert(s.subrange(p as int, p + lit.len())[j as int] == lit[j as int]);
                            }
                        }
                        matched = false;
                        j = lit_len;
                    }
                }
                if matched {
                    proof {
                        assert(s.subrange(p as int, p + lit.len()) =~= lit);
                        assert(lit_matches(s, p as int, lit));
                        assert(first_lit_match(s, p as int, k as int) == k);
                        lemma_table_facts();
                        assert forall|m: int| p <= m < p + lit_len implies s[m] != '\n' by {
                            assert(s[m] == lit[m - p]);
                        }
                        lemma_newlines_unchanged(s, p as int, p + lit_len);
                    }
                    let start_pos = self.pos;
                    let token_type = self.table[k].token_type.clone();
                    self.pos = p + lit_len;
                    return Ok(Token { pos: start_pos, line: self.line, token_type });
                }
            } else {
                proof {
                    assert(!lit_matches(s, p as int, lit));
                }
            }
            k = k + 1;
        }
        proof {
            assert(first_lit_match(s, p as int, 0) == registered_table().len());
        }
        // Identifiers: a letter or underscore, then letters, digits and
        // underscores.
        let c = self.chars[p];
        if char_is_alphabetic(c) || c == '_' {
            proof {
                assert(s[p as int] != '\n');
            }
            self.pos = self.pos + 1;
            while self.pos < self.chars.len() && (char_is_alphanumeric(self.chars[self.pos])
                || self.chars[self.pos] == '_')
                invariant
                    self.chars@ == s,
                    self.table@ == old(self).table@,
                    old(self).wf(),
                    p as int == ws_end(s, p0),
                    (p as int) < s.len(),
                    p < self.pos <= s.len(),
                    ident_end(s, p + 1) == ident_end(s, self.pos as int),
                    self.line == line_at(s, self.pos as int),
                    self.line == line_at(s, p as int),
                decreases s.len() - self.pos,
            {
                proof {
                    assert(s[self.pos as int] != '\n');
                }
                self.pos = self.pos + 1;
            }
            proof {
                assert(self.pos as int == ident_end(s, p + 1));
            }
            let content = chars_to_string(&self.chars, p, self.pos);
            return Ok(
                Token { pos: p, line: self.line, token_type: TokenType::Identifier(content) },
            );
        }
        // Numbers: a run of decimal digits, read as a signed 64-bit value.
        if char_is_digit(c) {
            let mut value: i64 = (c as u32 - 48) as i64;
            self.pos = self.pos + 1;
            proof {
                assert(s.subrange(p as int, p + 1) =~= seq![s[p as int]]);
                assert(seq![s[p as int]].drop_last() =~= Seq::<char>::empty());
                assert(run_value(Seq::<char>::empty()) == 0);
                assert(run_value(s.subrange(p as int, p + 1)) == value);
                assert(s[p as int] != '\n');
            }
            while self.pos < self.chars.len() && char_is_digit(self.chars[self.pos])
                invariant
                    self.chars@ == s,
                    self.table@ == old(self).table@,
                    old(self).wf(),
                    p as int == ws_end(s, p0),
                    (p as int) < s.len(),
                    p < self.pos <= s.len(),
                    all_digits(s.subrange(p as int, self.pos as int)),
                    value == run_value(s.subrange(p as int, self.pos as int)),
                    0 <= value,
                    digit_end(s, p + 1) == digit_end(s, self.pos as int),
                    self.line == line_at(s, self.pos as int),
                    self.line == line_at(s, p as int),
                decreases s.len() - self.pos,
            {
                let d_char = self.chars[self.pos];
                proof {
                    let a = p as int;
                    let b = self.pos as int;
                    assert(s.subrange(a, b + 1).drop_last() =~= s.subrange(a, b));
                    assert(s.subrange(a, b + 1).last() == s[b]);
                    assert forall|m: int| 0 <= m < s.subrange(a, b + 1).len() implies is_digit(
                        #[trigger] s.subrange(a, b + 1)[m],
                    ) by {
                        if m < b - a {
                            assert(s.subrange(a, b + 1)[m] == s.subrange(a, b)[m]);
                            assert(is_digit(s.subrange(a, b)[m]));
                        }
                    }
                    assert(all_digits(s.subrange(a, b + 1)));
                    assert(run_value(s.subrange(a, b + 1)) == value * 10 + (s[b] as u32 - 48));
                    assert(run_value(s.subrange(a, b + 1)) <= i64::MAX);
                    assert(s[b] != '\n');
                }
                let d = (d_char as u32 - 48) as i64;
                value = value * 10 + d;
                self.pos = self.pos + 1;
            }
            proof {
                assert(self.pos as int == digit_end(s, p + 1));
            }
            return Ok(Token { pos: p, line: self.line, token_type: TokenType::Number(value) });
        }
        // Nothing recognized: report the offending character, leaving the
        // cursor on it so that a repeated call reproduces the same error.
        let content = chars_to_string(&self.chars, p, p + 1);
        proof {
            assert(s.subrange(p as int, p + 1) =~= seq![s[p as int]]);
        }
        Err(LexerError { line: self.line, pos: p, content })
    }

    /// Pulls the next token. Returns `Ok(None)` when the input is exhausted,
    /// `Ok(Some(token))` otherwise, and the scan error when the character at
    /// the cursor matches no recognized class.
    ///
    /// The result is exactly what [`scan_item`] says of the old state, and the
    /// cursor moves to [`scan_end`]. In particular a returned token's `line`
    /// is one more than the number of line feeds strictly before its first
    /// character, its `position` is the 0-based index of that character, and a
    /// failing call leaves the cursor at the offending character.
    pub fn lex_next(&mut self) -> (r: Result<Option<Token>, LexerError>)
        requires
            old(self).wf(),
        ensures
            final(self).wf(),
            final(self)@.chars == old(self)@.chars,
            final(self)@.pos == scan_end(old(self)@.chars, old(self)@.pos),
            match scan_item(old(self)@.chars, old(self)@.pos) {
                ScanItem::End => r matches Ok(o) && o is None,
                ScanItem::Tok(m) => r matches Ok(o) && o matches Some(t) && t@ == m,
                ScanItem::Fail(p) => r matches Err(e) && e@.pos == p && e@.line == line_at(
                    old(self)@.chars,
                    p,
                ) && e@.content == seq![old(self)@.chars[p]],
            },
            match r {
                Ok(Some(t)) => t@.line == line_at(old(self)@.chars, t@.pos) && t@.pos == ws_end(
                    old(self)@.chars,
                    old(self)@.pos,
                ),
                _ => true,
            },
    {
        let ghost s = self.chars@;
        let ghost p0 = self.pos as int;
        proof {
            lemma_table_facts();
            lemma_ws_end_bounds(s, p0);
            let p = ws_end(s, p0);
            if p < s.len() {
                lemma_first_lit_match(s, p, 0);
                let k = first_lit_match(s, p, 0);
                if k < registered_table().len() {
                    assert(registered_table()[k].1 != TokenKind::Eof);
                }
            }
        }
        match self.get_next_token() {
            Ok(next_token) => {
                proof {
                    assert(next_token.token_type is Eof <==> next_token@.kind == TokenKind::Eof);
                    match scan_item(s, p0) {
                        ScanItem::Tok(m) => {
                            assert(m.kind != TokenKind::Eof);
                        },
                        _ => {},
                    }
                }
                if matches!(next_token.token_type, TokenType::Eof) {
                    Ok(None)
                } else {
                    Ok(Some(next_token))
                }
            },
            Err(err) => Err(err),
        }
    }
}

} // verus!
