//! The scanner: a single left-to-right pass over the source text that
//! produces an ordered sequence of tokens terminated by an end-of-input
//! marker, collecting lexical errors without stopping at the first one.
//!
//! The whole pass is specified by two functions over the source character
//! sequence: [`step`], the effect of scanning one token (or skipping
//! whitespace, a comment, or an erroneous character) at a given position,
//! and [`scan_from`], the iterated closure of `step` to the end of input.

use vstd::prelude::*;

use crate::error::LoxError;
use crate::error::LoxErrorView;
use crate::token::Token;
use crate::token::TokenLiteral;
use crate::token::TokenLiteralView;
use crate::token::TokenType;
use crate::token::TokenView;

verus! {

// ---------------------------------------------------------------------------
// Character classes
// ---------------------------------------------------------------------------
/// A decimal digit.
pub open spec fn is_digit(c: char) -> bool {
    '0' <= c && c <= '9'
}

/// A character that may begin an identifier: a letter or an underscore.
pub open spec fn is_alpha(c: char) -> bool {
    c == '_' || ('a' <= c && c <= 'z') || ('A' <= c && c <= 'Z')
}

/// A character that may continue an identifier.
pub open spec fn is_alnum(c: char) -> bool {
    is_alpha(c) || is_digit(c)
}

fn is_digit_char(c: char) -> (r: bool)
    ensures
        r == is_digit(c),
{
    '0' <= c && c <= '9'
}

fn is_alpha_char(c: char) -> (r: bool)
    ensures
        r == is_alpha(c),
{
    c == '_' || ('a' <= c && c <= 'z') || ('A' <= c && c <= 'Z')
}

fn is_alnum_char(c: char) -> (r: bool)
    ensures
        r == is_alnum(c),
{
    is_alpha_char(c) || is_digit_char(c)
}

// ---------------------------------------------------------------------------
// Scan boundaries: where an identifier, a digit run, a comment, or a string
// body ends.
// ---------------------------------------------------------------------------
/// The first position at or after `i` holding no identifier character, or
/// the end of input.
pub open spec fn ident_end(s: Seq<char>, i: int) -> int
    decreases s.len() - i,
{
    if i < 0 || i >= s.len() || !is_alnum(s[i]) {
        i
    } else {
        ident_end(s, i + 1)
    }
}

/// The first position at or after `i` holding no decimal digit, or the end
/// of input.
pub open spec fn digits_end(s: Seq<char>, i: int) -> int
    decreases s.len() - i,
{
    if i < 0 || i >= s.len() || !is_digit(s[i]) {
        i
    } else {
        digits_end(s, i + 1)
    }
}

/// The first position at or after `i` holding a newline, or the end of
/// input: a comment runs up to here.
pub open spec fn comment_end(s: Seq<char>, i: int) -> int
    decreases s.len() - i,
{
    if i < 0 || i >= s.len() || s[i] == '\n' {
        i
    } else {
        comment_end(s, i + 1)
    }
}

/// The first position at or after `i` holding a closing double quote, or
/// the end of input.
pub open spec fn string_body_end(s: Seq<char>, i: int) -> int
    decreases s.len() - i,
{
    if i < 0 || i >= s.len() || s[i] == '"' {
        i
    } else {
        string_body_end(s, i + 1)
    }
}

/// How many newline characters `s` holds in positions `i <= p < j`.
pub open spec fn newline_count(s: Seq<char>, i: int, j: int) -> nat
    decreases j - i,
{
    if i < 0 || i >= j || j > s.len() {
        0
    } else {
        (if s[i] == '\n' {
            1nat
        } else {
            0nat
        }) + newline_count(s, i + 1, j)
    }
}

/// Where a number ends, scanning from `i`: a run of digits, then one `.`
/// only when a digit follows it, then the fractional digits.
pub open spec fn number_end(s: Seq<char>, i: int) -> int {
    let d = digits_end(s, i);
    if d < s.len() && s[d] == '.' && d + 1 < s.len() && is_digit(s[d + 1]) {
        digits_end(s, d + 2)
    } else {
        d
    }
}

pub proof fn lemma_ident_end(s: Seq<char>, i: int)
    requires
        0 <= i <= s.len(),
    ensures
        i <= ident_end(s, i) <= s.len(),
        forall|j: int| i <= j < ident_end(s, i) ==> is_alnum(s[j]),
        ident_end(s, i) < s.len() ==> !is_alnum(s[ident_end(s, i)]),
    decreases s.len() - i,
{
    if i < s.len() && is_alnum(s[i]) {
        lemma_ident_end(s, i + 1);
    }
}

pub proof fn lemma_digits_end(s: Seq<char>, i: int)
    requires
        0 <= i <= s.len(),
    ensures
        i <= digits_end(s, i) <= s.len(),
        forall|j: int| i <= j < digits_end(s, i) ==> is_digit(s[j]),
        digits_end(s, i) < s.len() ==> !is_digit(s[digits_end(s, i)]),
    decreases s.len() - i,
{
    if i < s.len() && is_digit(s[i]) {
        lemma_digits_end(s, i + 1);
    }
}

pub proof fn lemma_comment_end(s: Seq<char>, i: int)
    requires
        0 <= i <= s.len(),
    ensures
        i <= comment_end(s, i) <= s.len(),
        forall|j: int| i <= j < comment_end(s, i) ==> s[j] != '\n',
        comment_end(s, i) < s.len() ==> s[comment_end(s, i)] == '\n',
    decreases s.len() - i,
{
    if i < s.len() && s[i] != '\n' {
        lemma_comment_end(s, i + 1);
    }
}

pub proof fn lemma_string_body_end(s: Seq<char>, i: int)
    requires
        0 <= i <= s.len(),
    ensures
        i <= string_body_end(s, i) <= s.len(),
        forall|j: int| i <= j < string_body_end(s, i) ==> s[j] != '"',
        string_body_end(s, i) < s.len() ==> s[string_body_end(s, i)] == '"',
    decreases s.len() - i,
{
    if i < s.len() && s[i] != '"' {
        lemma_string_body_end(s, i + 1);
    }
}

/// Extending the right end of a newline count by one position adds the
/// count of that one position.
pub proof fn lemma_newline_count_extend(s: Seq<char>, i: int, j: int)
    requires
        0 <= i <= j < s.len(),
    ensures
        newline_count(s, i, j + 1) == newline_count(s, i, j) + (if s[j] == '\n' {
            1nat
        } else {
            0nat
        }),
    decreases j - i,
{
    if i < j {
        lemma_newline_count_extend(s, i + 1, j);
    } else {
        assert(newline_count(s, j + 1, j + 1) == 0);
        assert(newline_count(s, j, j) == 0);
    }
}

// ---------------------------------------------------------------------------
// Keywords
// ---------------------------------------------------------------------------
/// Exact-match, case-sensitive keyword recognition: the reserved word's
/// category when the scanned text matches one, otherwise `Identifier`.
pub open spec fn keyword_category(l: Seq<char>) -> TokenType {
    if l == "and"@ {
        TokenType::And
    } else if l == "class"@ {
        TokenType::Class
    } else if l == "else"@ {
        TokenType::Else
    } else if l == "false"@ {
        TokenType::False
    } else if l == "for"@ {
        TokenType::For
    } else if l == "fun"@ {
        TokenType::Fun
    } else if l == "if"@ {
        TokenType::If
    } else if l == "nil"@ {
        TokenType::Nil
    } else if l == "or"@ {
        TokenType::Or
    } else if l == "print"@ {
        TokenType::Print
    } else if l == "return"@ {
        TokenType::Return
    } else if l == "super"@ {
        TokenType::Super
    } else if l == "this"@ {
        TokenType::This
    } else if l == "true"@ {
        TokenType::True
    } else if l == "var"@ {
        TokenType::Var
    } else if l == "while"@ {
        TokenType::While
    } else {
        TokenType::Identifier
    }
}

fn str_eq(a: &str, b: &str) -> (r: bool)
    ensures
        r == (a@ == b@),
{
    let sa = String::from_str(a);
    let sb = String::from_str(b);
    sa == sb
}

/// Looks the scanned text up in the keyword table.
fn keyword_lookup(lexeme: &str) -> (t: TokenType)
    ensures
        t == keyword_category(lexeme@),
{
    if str_eq(lexeme, "and") {
        TokenType::And
    } else if str_eq(lexeme, "class") {
        TokenType::Class
    } else if str_eq(lexeme, "else") {
        TokenType::Else
    } else if str_eq(lexeme, "false") {
        TokenType::False
    } else if str_eq(lexeme, "for") {
        TokenType::For
    } else if str_eq(lexeme, "fun") {
        TokenType::Fun
    } else if str_eq(lexeme, "if") {
        TokenType::If
    } else if str_eq(lexeme, "nil") {
        TokenType::Nil
    } else if str_eq(lexeme, "or") {
        TokenType::Or
    } else if str_eq(lexeme, "print") {
        TokenType::Print
    } else if str_eq(lexeme, "return") {
        TokenType::Return
    } else if str_eq(lexeme, "super") {
        TokenType::Super
    } else if str_eq(lexeme, "this") {
        TokenType::This
    } else if str_eq(lexeme, "true") {
        TokenType::True
    } else if str_eq(lexeme, "var") {
        TokenType::Var
    } else if str_eq(lexeme, "while") {
        TokenType::While
    } else {
        TokenType::Identifier
    }
}

// ---------------------------------------------------------------------------
// The specification of one scanning step and of the whole pass
// ---------------------------------------------------------------------------
/// The effect of one scanning step: the position after it, the line counter
/// after it, and the token or error it produced, if any.
pub ghost struct ScanStep {
    pub next: int,
    pub line: nat,
    pub token: Option<TokenView>,
    pub error: Option<LoxErrorView>,
}

/// Everything a scan of `s` from a position onward produces: the tokens in
/// order, the errors in order, and the final line counter.
pub ghost struct ScanRest {
    pub tokens: Seq<TokenView>,
    pub errors: Seq<LoxErrorView>,
    pub end_line: nat,
}

pub open spec fn make_token(
    t: TokenType,
    lexeme: Seq<char>,
    literal: Option<TokenLiteralView>,
    line: nat,
) -> TokenView {
    TokenView { token_type: t, lexeme: lexeme, literal: literal, line: line }
}

/// A step that emits the single-character token starting at `i`.
pub open spec fn single_char_step(s: Seq<char>, i: int, line: nat, t: TokenType) -> ScanStep {
    ScanStep {
        next: i + 1,
        line: line,
        token: Some(make_token(t, s.subrange(i, i + 1), None, line)),
        error: None,
    }
}

/// A step for `! = < >`: the two-character category when `=` follows,
/// otherwise the one-character category (maximal munch).
pub open spec fn one_or_two_step(
    s: Seq<char>,
    i: int,
    line: nat,
    one: TokenType,
    two: TokenType,
) -> ScanStep {
    if i + 1 < s.len() && s[i + 1] == '=' {
        ScanStep {
            next: i + 2,
            line: line,
            token: Some(make_token(two, s.subrange(i, i + 2), None, line)),
            error: None,
        }
    } else {
        single_char_step(s, i, line, one)
    }
}

/// The message of the two lexical error kinds.
pub open spec fn unexpected_character_message() -> Seq<char> {
    "Unexpected character."@
}

pub open spec fn unterminated_string_message() -> Seq<char> {
    "Unterminated string."@
}

/// One scanning step at position `i` of `s` with line counter `line`:
/// dispatches on the character at `i` exactly as the scanner does.
pub open spec fn step(s: Seq<char>, i: int, line: nat) -> ScanStep {
    let c = s[i];
    if c == '(' {
        single_char_step(s, i, line, TokenType::LeftParen)
    } else if c == ')' {
        single_char_step(s, i, line, TokenType::RightParen)
    } else if c == '{' {
        single_char_step(s, i, line, TokenType::LeftBrace)
    } else if c == '}' {
        single_char_step(s, i, line, TokenType::RightBrace)
    } else if c == ',' {
        single_char_step(s, i, line, TokenType::Comma)
    } else if c == '.' {
        single_char_step(s, i, line, TokenType::Dot)
    } else if c == '-' {
        single_char_step(s, i, line, TokenType::Minus)
    } else if c == '+' {
        single_char_step(s, i, line, TokenType::Plus)
    } else if c == ';' {
        single_char_step(s, i, line, TokenType::Semicolon)
    } else if c == '*' {
        single_char_step(s, i, line, TokenType::Star)
    } else if c == '!' {
        one_or_two_step(s, i, line, TokenType::Bang, TokenType::BangEqual)
    } else if c == '=' {
        one_or_two_step(s, i, line, TokenType::Equal, TokenType::EqualEqual)
    } else if c == '<' {
        one_or_two_step(s, i, line, TokenType::Less, TokenType::LessEqual)
    } else if c == '>' {
        one_or_two_step(s, i, line, TokenType::Greater, TokenType::GreaterEqual)
    } else if c == '/' {
        if i + 1 < s.len() && s[i + 1] == '/' {
            // A comment: discard up to (not including) the next newline.
            ScanStep { next: comment_end(s, i + 2), line: line, token: None, error: None }
        } else {
            single_char_step(s, i, line, TokenType::Slash)
        }
    } else if is_alpha(c) {
        let e = ident_end(s, i + 1);
        let lex = s.subrange(i, e);
        ScanStep {
            next: e,
            line: line,
            token: Some(make_token(keyword_category(lex), lex, None, line)),
            error: None,
        }
    } else if c == '"' {
        let e = string_body_end(s, i + 1);
        if e >= s.len() {
            // Unterminated: every remaining character is consumed, newlines
            // inside it still count, and no token is emitted.
            let l = (line + newline_count(s, i + 1, s.len() as int)) as nat;
            ScanStep {
                next: s.len() as int,
                line: l,
                token: None,
                error: Some(
                    LoxErrorView {
                        line: l,
                        place: Seq::<char>::empty(),
                        message: unterminated_string_message(),
                    },
                ),
            }
        } else {
            let l = (line + newline_count(s, i + 1, e)) as nat;
            ScanStep {
                next: e + 1,
                line: l,
                token: Some(
                    make_token(
                        TokenType::String,
                        s.subrange(i, e + 1),
                        Some(TokenLiteralView::String(s.subrange(i + 1, e))),
                        l,
                    ),
                ),
                error: None,
            }
        }
    } else if is_digit(c) {
        let e = number_end(s, i + 1);
        let lex = s.subrange(i, e);
        ScanStep {
            next: e,
            line: line,
            token: Some(make_token(TokenType::Number, lex, Some(TokenLiteralView::Number(lex)), line)),
            error: None,
        }
    } else if c == ' ' || c == '\r' || c == '\t' {
        ScanStep { next: i + 1, line: line, token: None, error: None }
    } else if c == '\n' {
        ScanStep { next: i + 1, line: (line + 1) as nat, token: None, error: None }
    } else {
        ScanStep {
            next: i + 1,
            line: line,
            token: None,
            error: Some(
                LoxErrorView {
                    line: line,
                    place: Seq::<char>::empty(),
                    message: unexpected_character_message(),
                },
            ),
        }
    }
}

/// Every step consumes at least one character and stays inside the input.
pub proof fn lemma_step_bounds(s: Seq<char>, i: int, line: nat)
    requires
        0 <= i < s.len(),
    ensures
        i < step(s, i, line).next <= s.len(),
{
    lemma_ident_end(s, i + 1);
    lemma_digits_end(s, i + 1);
    if i + 2 <= s.len() {
        lemma_comment_end(s, i + 2);
    }
    lemma_string_body_end(s, i + 1);
    let d = digits_end(s, i + 1);
    if d < s.len() && s[d] == '.' && d + 1 < s.len() && is_digit(s[d + 1]) {
        lemma_digits_end(s, d + 2);
    }
}

pub open spec fn opt_token_seq(t: Option<TokenView>) -> Seq<TokenView> {
    match t {
        None => Seq::<TokenView>::empty(),
        Some(tv) => seq![tv],
    }
}

pub open spec fn opt_error_seq(e: Option<LoxErrorView>) -> Seq<LoxErrorView> {
    match e {
        None => Seq::<LoxErrorView>::empty(),
        Some(ev) => seq![ev],
    }
}

/// Everything scanning `s` from position `i` with line counter `line`
/// produces, up to but not including the final end-of-input token.
pub open spec fn scan_from(s: Seq<char>, i: int, line: nat) -> ScanRest
    decreases s.len() - i
        when 0 <= i <= s.len()
        via scan_from_decreases
{
    if i >= s.len() {
        ScanRest { tokens: Seq::<TokenView>::empty(), errors: Seq::<LoxErrorView>::empty(), end_line: line }
    } else {
        let st = step(s, i, line);
        let rest = scan_from(s, st.next, st.line);
        ScanRest {
            tokens: opt_token_seq(st.token) + rest.tokens,
            errors: opt_error_seq(st.error) + rest.errors,
            end_line: rest.end_line,
        }
    }
}

#[via_fn]
proof fn scan_from_decreases(s: Seq<char>, i: int, line: nat) {
    if i < s.len() {
        lemma_step_bounds(s, i, line);
    }
}

/// The end-of-input marker: empty lexeme, no literal, the final line.
pub open spec fn eof_token(line: nat) -> TokenView {
    TokenView { token_type: TokenType::EOF, lexeme: Seq::<char>::empty(), literal: None, line: line }
}

/// The full token sequence a scan of `s` returns: the scanned tokens
/// followed by exactly one end-of-input token.
pub open spec fn scanned_tokens(s: Seq<char>) -> Seq<TokenView> {
    scan_from(s, 0, 1).tokens.push(eof_token(scan_from(s, 0, 1).end_line))
}

/// The errors a scan of `s` collects, in order of detection.
pub open spec fn scanned_errors(s: Seq<char>) -> Seq<LoxErrorView> {
    scan_from(s, 0, 1).errors
}

/// Whether a scan of `s` reports failure: true iff at least one lexical
/// error was produced.
pub open spec fn scan_had_error(s: Seq<char>) -> bool {
    scanned_errors(s).len() > 0
}

/// The views of a sequence of tokens.
pub open spec fn token_views(ts: Seq<Token>) -> Seq<TokenView> {
    ts.map_values(|t: Token| t@)
}

/// The views of a sequence of errors.
pub open spec fn error_views(es: Seq<LoxError>) -> Seq<LoxErrorView> {
    es.map_values(|e: LoxError| e@)
}

pub open spec fn opt_literal_view(l: Option<TokenLiteral>) -> Option<TokenLiteralView> {
    match l {
        None => None,
        Some(lit) => Some(lit@),
    }
}

// ---------------------------------------------------------------------------
// The scanner itself
// ---------------------------------------------------------------------------
/// Per-invocation scanner state: the source text, the tokens and errors
/// accumulated so far, the start of the token being scanned, the cursor,
/// and the 1-based line counter.
pub struct Lexer {
    pub source: String,
    pub tokens: Vec<Token>,
    pub errors: Vec<LoxError>,
    pub start: usize,
    pub current: usize,
    pub line: usize,
}

impl Lexer {
    /// The scanner's internal invariant: the cursors stay inside the
    /// source, and the line counter never exceeds one more than the number
    /// of characters consumed (it starts at 1 and grows only on newlines).
    pub open spec fn wf(&self) -> bool {
        &&& self.start <= self.current
        &&& self.current <= self.source@.len()
        &&& 1 <= self.line
        &&& self.line <= self.current + 1
        &&& self.source@.len() < usize::MAX
    }

    /// A fresh scanner for one source text.
    pub fn new(source: String) -> (r: Lexer)
        requires
            source@.len() < usize::MAX,
        ensures
            r.wf(),
            r.source@ == source@,
            r.tokens@ == Seq::<Token>::empty(),
            r.errors@ == Seq::<LoxError>::empty(),
            r.start == 0,
            r.current == 0,
            r.line == 1,
    {
        Lexer {
            source,
            tokens: Vec::new(),
            errors: Vec::new(),
            start: 0,
            current: 0,
            line: 1,
        }
    }

    fn is_at_end(&self) -> (r: bool)
        ensures
            r == (self.current >= self.source@.len()),
    {
        self.current >= self.source.as_str().unicode_len()
    }

    /// The character under the cursor, or `'\0'` at end of input.
    fn peek(&self) -> (c: char)
        requires
            self.current <= self.source@.len(),
        ensures
            c == (if self.current < self.source@.len() {
                self.source@[self.current as int]
            } else {
                '\0'
            }),
    {
        if self.is_at_end() {
            '\0'
        } else {
            self.source.as_str().get_char(self.current)
        }
    }

    /// The character one past the cursor, or `'\0'` when none exists.
    fn peek_next(&self) -> (c: char)
        requires
            self.current <= self.source@.len(),
            self.source@.len() < usize::MAX,
        ensures
            c == (if self.current + 1 < self.source@.len() {
                self.source@[self.current as int + 1]
            } else {
                '\0'
            }),
    {
        if self.current + 1 >= self.source.as_str().unicode_len() {
            '\0'
        } else {
            self.source.as_str().get_char(self.current + 1)
        }
    }

    /// Consumes and returns the character under the cursor.
    fn advance(&mut self) -> (c: char)
        requires
            old(self).current < old(self).source@.len(),
            old(self).source@.len() < usize::MAX,
        ensures
            c == old(self).source@[old(self).current as int],
            final(self).current == old(self).current + 1,
            final(self).source == old(self).source,
            final(self).tokens == old(self).tokens,
            final(self).errors == old(self).errors,
            final(self).start == old(self).start,
            final(self).line == old(self).line,
    {
        let c = self.source.as_str().get_char(self.current);
        self.current = self.current + 1;
        c
    }

    /// Consumes the character under the cursor exactly when it equals
    /// `expected` (one-character lookahead for the two-character operators).
    fn match_next(&mut self, expected: char) -> (r: bool)
        requires
            old(self).current <= old(self).source@.len(),
            old(self).source@.len() < usize::MAX,
        ensures
            r == (old(self).current < old(self).source@.len()
                && old(self).source@[old(self).current as int] == expected),
            final(self).current == (if r {
                old(self).current + 1
            } else {
                old(self).current as int
            }),
            final(self).source == old(self).source,
            final(self).tokens == old(self).tokens,
            final(self).errors == old(self).errors,
            final(self).start == old(self).start,
            final(self).line == old(self).line,
    {
        if self.is_at_end() {
            return false;
        }
        if self.source.as_str().get_char(self.current) != expected {
            return false;
        }
        self.current = self.current + 1;
        true
    }

    /// Emits a token whose lexeme is the source text between the two
    /// cursors, tagged with the current line.
    fn add_token(&mut self, token_type: TokenType, literal: Option<TokenLiteral>)
        requires
            old(self).start <= old(self).current,
            old(self).current <= old(self).source@.len(),
        ensures
            token_views(final(self).tokens@) == token_views(old(self).tokens@).push(
                make_token(
                    token_type,
                    old(self).source@.subrange(old(self).start as int, old(self).current as int),
                    opt_literal_view(literal),
                    old(self).line as nat,
                ),
            ),
            final(self).source == old(self).source,
            final(self).errors == old(self).errors,
            final(self).start == old(self).start,
            final(self).current == old(self).current,
            final(self).line == old(self).line,
    {
        let lexeme = String::from_str(self.source.as_str().substring_char(self.start, self.current));
        let ghost lit_view = opt_literal_view(literal);
        let token = Token { token_type, lexeme, literal, line: self.line };
        proof {
            assert(token@ == make_token(
                token_type,
                self.source@.subrange(self.start as int, self.current as int),
                lit_view,
                self.line as nat,
            ));
        }
        self.tokens.push(token);
        proof {
            assert(token_views(self.tokens@) =~= token_views(old(self).tokens@).push(token@));
        }
    }

    /// Consumes the rest of an identifier or keyword and emits its token.
    fn scan_identifier(&mut self)
        requires
            old(self).wf(),
            old(self).start < old(self).current,
        ensures
            final(self).wf(),
            final(self).current as int == ident_end(old(self).source@, old(self).current as int),
            ({
                let e = ident_end(old(self).source@, old(self).current as int);
                let lex = old(self).source@.subrange(old(self).start as int, e);
                token_views(final(self).tokens@) == token_views(old(self).tokens@).push(
                    make_token(keyword_category(lex), lex, None, old(self).line as nat),
                )
            }),
            final(self).source == old(self).source,
            final(self).errors == old(self).errors,
            final(self).start == old(self).start,
            final(self).line == old(self).line,
    {
        let ghost pre = *self;
        let ghost s = pre.source@;
        let ghost p0 = pre.current as int;
        proof {
            lemma_ident_end(s, p0);
        }
        while is_alnum_char(self.peek())
            invariant
                self.wf(),
                self.source@ == s,
                self.source == pre.source,
                self.tokens == pre.tokens,
                self.errors == pre.errors,
                self.start == pre.start,
                self.line == pre.line,
                p0 <= self.current as int <= s.len(),
                ident_end(s, p0) == ident_end(s, self.current as int),
            decreases s.len() - self.current,
        {
            self.advance();
        }
        let lexeme = self.source.as_str().substring_char(self.start, self.current);
        let t = keyword_lookup(lexeme);
        self.add_token(t, None);
    }

    /// Consumes the rest of a number literal and emits its token: digits,
    /// then one `.` only when a digit follows, then the fractional digits.
    fn scan_number(&mut self)
        requires
            old(self).wf(),
            old(self).start < old(self).current,
        ensures
            final(self).wf(),
            final(self).current as int == number_end(old(self).source@, old(self).current as int),
            ({
                let e = number_end(old(self).source@, old(self).current as int);
                let lex = old(self).source@.subrange(old(self).start as int, e);
                token_views(final(self).tokens@) == token_views(old(self).tokens@).push(
                    make_token(
                        TokenType::Number,
                        lex,
                        Some(TokenLiteralView::Number(lex)),
                        old(self).line as nat,
                    ),
                )
            }),
            final(self).source == old(self).source,
            final(self).errors == old(self).errors,
            final(self).start == old(self).start,
            final(self).line == old(self).line,
    {
        let ghost pre = *self;
        let ghost s = pre.source@;
        let ghost p0 = pre.current as int;
        proof {
            lemma_digits_end(s, p0);
        }
        while is_digit_char(self.peek())
            invariant
                self.wf(),
                self.source@ == s,
                self.source == pre.source,
                self.tokens == pre.tokens,
                self.errors == pre.errors,
                self.start == pre.start,
                self.line == pre.line,
                p0 <= self.current as int <= s.len(),
                digits_end(s, p0) == digits_end(s, self.current as int),
            decreases s.len() - self.current,
        {
            self.advance();
        }
        let ghost d = digits_end(s, p0);
        if self.peek() == '.' && is_digit_char(self.peek_next()) {
            self.advance();
            proof {
                lemma_digits_end(s, d + 2);
                assert(digits_end(s, d + 1) == digits_end(s, d + 2));
            }
            while is_digit_char(self.peek())
                invariant
                    self.wf(),
                    self.source@ == s,
                    self.source == pre.source,
                    self.tokens == pre.tokens,
                    self.errors == pre.errors,
                    self.start == pre.start,
                    self.line == pre.line,
                    d + 1 <= self.current as int <= s.len(),
                    digits_end(s, d + 2) == digits_end(s, self.current as int),
                decreases s.len() - self.current,
            {
                self.advance();
            }
        }
        let lit = String::from_str(self.source.as_str().substring_char(self.start, self.current));
        self.add_token(TokenType::Number, Some(TokenLiteral::Number(lit)));
    }

    /// Consumes the rest of a string literal. Emits the string token with
    /// the text strictly between the quotes (no escape processing), or
    /// reports an unterminated string reaching end of input.
    fn scan_string(&mut self) -> (r: Result<(), LoxError>)
        requires
            old(self).wf(),
            old(self).current == old(self).start + 1,
        ensures
            final(self).wf(),
            final(self).source == old(self).source,
            final(self).start == old(self).start,
            final(self).errors == old(self).errors,
            ({
                let s = old(self).source@;
                let p0 = old(self).current as int;
                let e = string_body_end(s, p0);
                if e >= s.len() {
                    &&& final(self).current as int == s.len()
                    &&& final(self).line as nat == (old(self).line + newline_count(s, p0, s.len() as int)) as nat
                    &&& final(self).tokens == old(self).tokens
                    &&& (match r {
                        Ok(_) => false,
                        Err(err) => err@ == LoxErrorView {
                            line: (old(self).line + newline_count(s, p0, s.len() as int)) as nat,
                            place: Seq::<char>::empty(),
                            message: unterminated_string_message(),
                        },
                    })
                } else {
                    let l = (old(self).line + newline_count(s, p0, e)) as nat;
                    &&& final(self).current as int == e + 1
                    &&& final(self).line as nat == l
                    &&& token_views(final(self).tokens@) == token_views(old(self).tokens@).push(
                        make_token(
                            TokenType::String,
                            s.subrange(old(self).start as int, e + 1),
                            Some(TokenLiteralView::String(s.subrange(p0, e))),
                            l,
                        ),
                    )
                    &&& r is Ok
                }
            }),
    {
        let ghost pre = *self;
        let ghost s = pre.source@;
        let ghost p0 = pre.current as int;
        proof {
            lemma_string_body_end(s, p0);
        }
        while self.peek() != '"' && !self.is_at_end()
            invariant
                self.wf(),
                self.source@ == s,
                self.source == pre.source,
                self.tokens == pre.tokens,
                self.errors == pre.errors,
                self.start == pre.start,
                0 <= p0 <= self.current as int <= s.len(),
                string_body_end(s, p0) == string_body_end(s, self.current as int),
                self.line == pre.line + newline_count(s, p0, self.current as int),
            decreases s.len() - self.current,
        {
            proof {
                lemma_newline_count_extend(s, p0, self.current as int);
            }
            if self.peek() == '\n' {
                self.line = self.line + 1;
            }
            self.advance();
        }
        if self.is_at_end() {
            return Err(LoxError::new(self.line, None, "Unterminated string."));
        }
        self.advance();
        let lit = String::from_str(
            self.source.as_str().substring_char(self.start + 1, self.current - 1),
        );
        self.add_token(TokenType::String, Some(TokenLiteral::String(lit)));
        Ok(())
    }

    /// Scans one token (or skips whitespace, a comment, a newline, or an
    /// erroneous character) starting at the cursor: exactly one [`step`].
    fn scan_token(&mut self) -> (r: Result<(), LoxError>)
        requires
            old(self).wf(),
            old(self).current < old(self).source@.len(),
            old(self).start == old(self).current,
        ensures
            final(self).wf(),
            final(self).source == old(self).source,
            final(self).start == old(self).start,
            final(self).errors == old(self).errors,
            ({
                let st = step(old(self).source@, old(self).current as int, old(self).line as nat);
                &&& final(self).current as int == st.next
                &&& final(self).line as nat == st.line
                &&& token_views(final(self).tokens@) == token_views(old(self).tokens@)
                    + opt_token_seq(st.token)
                &&& (match r {
                    Ok(_) => st.error is None,
                    Err(e) => st.error == Some(e@),
                })
            }),
    {
        let ghost pre = *self;
        let ghost s = pre.source@;
        let ghost i = pre.current as int;
        let ghost st = step(s, i, pre.line as nat);
        let c = self.advance();
        if c == '(' {
            self.add_token(TokenType::LeftParen, None);
            proof {
                assert(token_views(self.tokens@) =~= token_views(pre.tokens@) + opt_token_seq(st.token));
            }
            Ok(())
        } else if c == ')' {
            self.add_token(TokenType::RightParen, None);
            proof {
                assert(token_views(self.tokens@) =~= token_views(pre.tokens@) + opt_token_seq(st.token));
            }
            Ok(())
        } else if c == '{' {
            self.add_token(TokenType::LeftBrace, None);
            proof {
                assert(token_views(self.tokens@) =~= token_views(pre.tokens@) + opt_token_seq(st.token));
            }
            Ok(())
        } else if c == '}' {
            self.add_token(TokenType::RightBrace, None);
            proof {
                assert(token_views(self.tokens@) =~= token_views(pre.tokens@) + opt_token_seq(st.token));
            }
            Ok(())
        } else if c == ',' {
            self.add_token(TokenType::Comma, None);
            proof {
                assert(token_views(self.tokens@) =~= token_views(pre.tokens@) + opt_token_seq(st.token));
            }
            Ok(())
        } else if c == '.' {
            self.add_token(TokenType::Dot, None);
            proof {
                assert(token_views(self.tokens@) =~= token_views(pre.tokens@) + opt_token_seq(st.token));
            }
            Ok(())
        } else if c == '-' {
            self.add_token(TokenType::Minus, None);
            proof {
                assert(token_views(self.tokens@) =~= token_views(pre.tokens@) + opt_token_seq(st.token));
            }
            Ok(())
        } else if c == '+' {
            self.add_token(TokenType::Plus, None);
            proof {
                assert(token_views(self.tokens@) =~= token_views(pre.tokens@) + opt_token_seq(st.token));
            }
            Ok(())
        } else if c == ';' {
            self.add_token(TokenType::Semicolon, None);
            proof {
                assert(token_views(self.tokens@) =~= token_views(pre.tokens@) + opt_token_seq(st.token));
            }
            Ok(())
        } else if c == '*' {
            self.add_token(TokenType::Star, None);
            proof {
                assert(token_views(self.tokens@) =~= token_views(pre.tokens@) + opt_token_seq(st.token));
            }
            Ok(())
        } else if c == '!' {
            let two = self.match_next('=');
            self.add_token(
                if two {
                    TokenType::BangEqual
                } else {
                    TokenType::Bang
                },
                None,
            );
            proof {
                assert(token_views(self.tokens@) =~= token_views(pre.tokens@) + opt_token_seq(st.token));
            }
            Ok(())
        } else if c == '=' {
            let two = self.match_next('=');
            self.add_token(
                if two {
                    TokenType::EqualEqual
                } else {
                    TokenType::Equal
                },
                None,
            );
            proof {
                assert(token_views(self.tokens@) =~= token_views(pre.tokens@) + opt_token_seq(st.token));
            }
            Ok(())
        } else if c == '<' {
            let two = self.match_next('=');
            self.add_token(
                if two {
                    TokenType::LessEqual
                } else {
                    TokenType::Less
                },
                None,
            );
            proof {
                assert(token_views(self.tokens@) =~= token_views(pre.tokens@) + opt_token_seq(st.token));
            }
            Ok(())
        } else if c == '>' {
            let two = self.match_next('=');
            self.add_token(
                if two {
                    TokenType::GreaterEqual
                } else {
                    TokenType::Greater
                },
                None,
            );
            proof {
                assert(token_views(self.tokens@) =~= token_views(pre.tokens@) + opt_token_seq(st.token));
            }
            Ok(())
        } else if c == '/' {
            if self.match_next('/') {
                // A comment runs to the end of the line and emits nothing.
                let ghost p0 = self.current as int;
                proof {
                    lemma_comment_end(s, p0);
                }
                while self.peek() != '\n' && !self.is_at_end()
                    invariant
                        self.wf(),
                        self.source@ == s,
                        self.source == pre.source,
                        self.tokens == pre.tokens,
                        self.errors == pre.errors,
                        self.start == pre.start,
                        self.line == pre.line,
                        0 <= p0 <= self.current as int <= s.len(),
                        comment_end(s, p0) == comment_end(s, self.current as int),
                    decreases s.len() - self.current,
                {
                    self.advance();
                }
                proof {
                    assert(token_views(self.tokens@) =~= token_views(pre.tokens@)
                        + opt_token_seq(st.token));
                }
                Ok(())
            } else {
                self.add_token(TokenType::Slash, None);
                proof {
                    assert(token_views(self.tokens@) =~= token_views(pre.tokens@)
                        + opt_token_seq(st.token));
                }
                Ok(())
            }
        } else if is_alpha_char(c) {
            self.scan_identifier();
            proof {
                assert(token_views(self.tokens@) =~= token_views(pre.tokens@) + opt_token_seq(st.token));
            }
            Ok(())
        } else if c == '"' {
            let r = self.scan_string();
            proof {
                assert(token_views(self.tokens@) =~= token_views(pre.tokens@) + opt_token_seq(st.token));
            }
            r
        } else if is_digit_char(c) {
            self.scan_number();
            proof {
                assert(token_views(self.tokens@) =~= token_views(pre.tokens@) + opt_token_seq(st.token));
            }
            Ok(())
        } else if c == ' ' || c == '\r' || c == '\t' {
            proof {
                assert(token_views(self.tokens@) =~= token_views(pre.tokens@) + opt_token_seq(st.token));
            }
            Ok(())
        } else if c == '\n' {
            self.line = self.line + 1;
            proof {
                assert(token_views(self.tokens@) =~= token_views(pre.tokens@) + opt_token_seq(st.token));
            }
            Ok(())
        } else {
            proof {
                assert(token_views(self.tokens@) =~= token_views(pre.tokens@) + opt_token_seq(st.token));
            }
            Err(LoxError::new(self.line, None, "Unexpected character."))
        }
    }

    /// Scans the whole source: the ordered token sequence terminated by
    /// exactly one end-of-input token, and whether any lexical error was
    /// produced. Each error is appended, in order of detection, to the
    /// scanner's error list, retrievable with [`Lexer::take_errors`].
    pub fn scan_tokens(&mut self) -> (r: (Vec<Token>, bool))
        requires
            old(self).wf(),
        ensures
            final(self).wf(),
            final(self).source == old(self).source,
            final(self).tokens@ == Seq::<Token>::empty(),
            ({
                let rest = scan_from(
                    old(self).source@,
                    old(self).current as int,
                    old(self).line as nat,
                );
                &&& token_views(r.0@) == token_views(old(self).tokens@) + rest.tokens + seq![
                    eof_token(rest.end_line),
                ]
                &&& r.1 == (rest.errors.len() > 0)
                &&& error_views(final(self).errors@) == error_views(old(self).errors@)
                    + rest.errors
            }),
            // On a fresh scanner the result is exactly the specified scan.
            (old(self).tokens@.len() == 0 && old(self).errors@.len() == 0 && old(self).current
                == 0 && old(self).line == 1) ==> ({
                &&& token_views(r.0@) == scanned_tokens(old(self).source@)
                &&& r.1 == scan_had_error(old(self).source@)
                &&& error_views(final(self).errors@) == scanned_errors(old(self).source@)
            }),
    {
        let ghost pre = *self;
        let ghost s = pre.source@;
        let ghost full = scan_from(s, pre.current as int, pre.line as nat);
        let mut had_error = false;
        while !self.is_at_end()
            invariant
                self.wf(),
                self.source@ == s,
                self.source == pre.source,
                pre.errors@.len() <= self.errors@.len(),
                full == scan_from(s, pre.current as int, pre.line as nat),
                ({
                    let rest = scan_from(s, self.current as int, self.line as nat);
                    &&& token_views(pre.tokens@) + full.tokens == token_views(self.tokens@)
                        + rest.tokens
                    &&& error_views(pre.errors@) + full.errors == error_views(self.errors@)
                        + rest.errors
                    &&& full.end_line == rest.end_line
                    &&& had_error == (self.errors@.len() > pre.errors@.len())
                }),
            decreases s.len() - self.current,
        {
            self.start = self.current;
            let ghost cur = self.current as int;
            let ghost ln = self.line as nat;
            let ghost st = step(s, cur, ln);
            let ghost mid_tokens = self.tokens@;
            let ghost mid_errors = self.errors@;
            proof {
                lemma_step_bounds(s, cur, ln);
            }
            let res = self.scan_token();
            match res {
                Ok(_) => {
                    proof {
                        assert(error_views(self.errors@) + opt_error_seq(st.error)
                            =~= error_views(self.errors@));
                    }
                },
                Err(e) => {
                    self.errors.push(e);
                    had_error = true;
                    proof {
                        assert(error_views(self.errors@) =~= error_views(mid_errors)
                            + opt_error_seq(st.error));
                    }
                },
            }
            proof {
                let rest_old = scan_from(s, cur, ln);
                let rest_new = scan_from(s, st.next, st.line);
                assert(rest_old.tokens == opt_token_seq(st.token) + rest_new.tokens);
                assert(rest_old.errors == opt_error_seq(st.error) + rest_new.errors);
                assert(token_views(pre.tokens@) + full.tokens =~= token_views(self.tokens@)
                    + rest_new.tokens) by {
                    assert(token_views(mid_tokens) + (opt_token_seq(st.token) + rest_new.tokens)
                        =~= (token_views(mid_tokens) + opt_token_seq(st.token)) + rest_new.tokens);
                }
                assert(error_views(pre.errors@) + full.errors =~= error_views(self.errors@)
                    + rest_new.errors) by {
                    assert(error_views(mid_errors) + (opt_error_seq(st.error) + rest_new.errors)
                        =~= (error_views(mid_errors) + opt_error_seq(st.error)) + rest_new.errors);
                }
            }
        }
        proof {
            let rest = scan_from(s, self.current as int, self.line as nat);
            assert(rest.tokens == Seq::<TokenView>::empty());
            assert(token_views(pre.tokens@) + full.tokens =~= token_views(self.tokens@));
            assert(error_views(pre.errors@) + full.errors =~= error_views(self.errors@));
        }
        let eof = Token {
            token_type: TokenType::EOF,
            lexeme: String::new(),
            literal: None,
            line: self.line,
        };
        self.tokens.push(eof);
        proof {
            assert(token_views(self.tokens@) =~= (token_views(pre.tokens@) + full.tokens) + seq![
                eof_token(full.end_line),
            ]);
        }
        let mut out: Vec<Token> = Vec::new();
        core::mem::swap(&mut out, &mut self.tokens);
        proof {
            if pre.tokens@.len() == 0 && pre.errors@.len() == 0 && pre.current == 0 && pre.line
                == 1 {
                assert(token_views(pre.tokens@) =~= Seq::<TokenView>::empty());
                assert(error_views(pre.errors@) =~= Seq::<LoxErrorView>::empty());
                assert(token_views(out@) =~= scanned_tokens(s));
                assert(error_views(self.errors@) =~= scanned_errors(s));
            }
        }
        (out, had_error)
    }

    /// Hands out the errors collected so far, in order of detection, and
    /// leaves the scanner's error list empty.
    pub fn take_errors(&mut self) -> (r: Vec<LoxError>)
        ensures
            r == old(self).errors,
            final(self).errors@ == Seq::<LoxError>::empty(),
            final(self).source == old(self).source,
            final(self).tokens == old(self).tokens,
            final(self).start == old(self).start,
            final(self).current == old(self).current,
            final(self).line == old(self).line,
    {
        let mut out: Vec<LoxError> = Vec::new();
        core::mem::swap(&mut out, &mut self.errors);
        out
    }
}


// ---------------------------------------------------------------------------
// Laws of the scan
// ---------------------------------------------------------------------------
/// No scanning step at or after position `i` produces a lexical error.
pub open spec fn error_free_from(s: Seq<char>, i: int, line: nat) -> bool
    decreases s.len() - i
        when 0 <= i <= s.len()
        via error_free_from_decreases
{
    if i >= s.len() {
        true
    } else {
        let st = step(s, i, line);
        st.error is None && error_free_from(s, st.next, st.line)
    }
}

#[via_fn]
proof fn error_free_from_decreases(s: Seq<char>, i: int, line: nat) {
    if i < s.len() {
        lemma_step_bounds(s, i, line);
    }
}

/// Valid source: a scan of it reaches end of input without producing a
/// lexical error (no unterminated string, no unrecognized character).
pub open spec fn valid_source(s: Seq<char>) -> bool {
    error_free_from(s, 0, 1)
}

/// A scan collects no error exactly when the source is error-free from the
/// given position on.
pub proof fn lemma_error_free_no_errors(s: Seq<char>, i: int, line: nat)
    requires
        0 <= i <= s.len(),
    ensures
        (scan_from(s, i, line).errors.len() == 0) <==> error_free_from(s, i, line),
    decreases s.len() - i,
{
    if i < s.len() {
        let st = step(s, i, line);
        lemma_step_bounds(s, i, line);
        lemma_error_free_no_errors(s, st.next, st.line);
    }
}

/// The scanned tokens (before the end-of-input marker) never include an
/// `EOF` token: the marker is appended exactly once, afterwards.
pub proof fn lemma_no_interior_eof(s: Seq<char>, i: int, line: nat)
    requires
        0 <= i <= s.len(),
    ensures
        forall|j: int|
            0 <= j < scan_from(s, i, line).tokens.len() ==> #[trigger] scan_from(
                s,
                i,
                line,
            ).tokens[j].token_type != TokenType::EOF,
    decreases s.len() - i,
{
    if i < s.len() {
        let st = step(s, i, line);
        lemma_step_bounds(s, i, line);
        lemma_no_interior_eof(s, st.next, st.line);
        assert forall|j: int| 0 <= j < scan_from(s, i, line).tokens.len() implies #[trigger] scan_from(
            s,
            i,
            line,
        ).tokens[j].token_type != TokenType::EOF by {
            let rest = scan_from(s, st.next, st.line);
            if st.token is Some && j == 0 {
                assert(scan_from(s, i, line).tokens[j] == st.token->0);
            } else {
                let k = if st.token is Some { j - 1 } else { j };
                assert(scan_from(s, i, line).tokens[j] == rest.tokens[k]);
            }
        }
    }
}

/// For all valid source with no unrecognized characters, a scan reports no
/// error; and for every input whatever, the token sequence is non-empty and
/// ends with exactly one `EOF` token whose lexeme is empty and whose line
/// is the final line counter.
pub proof fn lemma_scan_of_valid_source(s: Seq<char>)
    ensures
        valid_source(s) ==> !scan_had_error(s),
        scanned_tokens(s).len() >= 1,
        scanned_tokens(s).last() == eof_token(scan_from(s, 0, 1).end_line),
        scanned_tokens(s).last().token_type == TokenType::EOF,
        scanned_tokens(s).last().lexeme == Seq::<char>::empty(),
        forall|j: int|
            0 <= j < scanned_tokens(s).len() - 1 ==> #[trigger] scanned_tokens(
                s,
            )[j].token_type != TokenType::EOF,
{
    lemma_error_free_no_errors(s, 0, 1);
    lemma_no_interior_eof(s, 0, 1);
}

/// Total length of the lexemes of a token sequence.
pub open spec fn total_lexeme_len(ts: Seq<TokenView>) -> nat
    decreases ts.len(),
{
    if ts.len() == 0 {
        0
    } else {
        ts[0].lexeme.len() + total_lexeme_len(ts.skip(1))
    }
}

/// How many characters a scan from position `i` consumes without making
/// them part of a token's lexeme: whitespace, newlines, comment text, the
/// text of an unterminated string, and erroneous characters.
pub open spec fn skipped_from(s: Seq<char>, i: int, line: nat) -> nat
    decreases s.len() - i
        when 0 <= i <= s.len()
        via skipped_from_decreases
{
    if i >= s.len() {
        0
    } else {
        let st = step(s, i, line);
        (if st.token is None {
            (st.next - i) as nat
        } else {
            0nat
        }) + skipped_from(s, st.next, st.line)
    }
}

#[via_fn]
proof fn skipped_from_decreases(s: Seq<char>, i: int, line: nat) {
    if i < s.len() {
        lemma_step_bounds(s, i, line);
    }
}

/// A step that emits a token consumes exactly the token's lexeme.
proof fn lemma_step_token_extent(s: Seq<char>, i: int, line: nat)
    requires
        0 <= i < s.len(),
    ensures
        step(s, i, line).token matches Some(tv) ==> tv.lexeme.len() == step(s, i, line).next - i,
{
    lemma_step_bounds(s, i, line);
}

/// No character silently vanishes: every character consumed by a scan is
/// either part of exactly one emitted token's lexeme or skipped as
/// whitespace, a newline, a comment, an unterminated string, or an error.
pub proof fn lemma_characters_accounted_from(s: Seq<char>, i: int, line: nat)
    requires
        0 <= i <= s.len(),
    ensures
        total_lexeme_len(scan_from(s, i, line).tokens) + skipped_from(s, i, line) == s.len() - i,
    decreases s.len() - i,
{
    if i < s.len() {
        let st = step(s, i, line);
        lemma_step_bounds(s, i, line);
        lemma_step_token_extent(s, i, line);
        lemma_characters_accounted_from(s, st.next, st.line);
        let rest = scan_from(s, st.next, st.line);
        match st.token {
            Some(tv) => {
                assert(scan_from(s, i, line).tokens == seq![tv] + rest.tokens);
                assert((seq![tv] + rest.tokens).skip(1) =~= rest.tokens);
                assert(total_lexeme_len(seq![tv] + rest.tokens) == tv.lexeme.len()
                    + total_lexeme_len(rest.tokens));
            },
            None => {
                assert(scan_from(s, i, line).tokens =~= rest.tokens);
            },
        }
    }
}

/// The accounting law over a whole scan: the lexeme lengths of the scanned
/// tokens (the end-of-input marker has none) plus the skipped characters
/// cover the source exactly.
pub proof fn lemma_characters_accounted(s: Seq<char>)
    ensures
        total_lexeme_len(scan_from(s, 0, 1).tokens) + skipped_from(s, 0, 1) == s.len(),
{
    lemma_characters_accounted_from(s, 0, 1);
}

} // verus!
