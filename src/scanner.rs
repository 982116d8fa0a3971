use vstd::prelude::*;
use vstd::std_specs::iter::IteratorSpec;

use crate::lox::{decimal, report_line, report_text, Error, Lox};
use crate::token::{word_type, word_type_at, Token, TokenType, TokenView, Tokens};

verus! {

broadcast use vstd::string::group_string_axioms;

pub open spec fn is_digit(c: char) -> bool {
    '0' <= c && c <= '9'
}

pub open spec fn is_alpha(c: char) -> bool {
    ('a' <= c && c <= 'z') || ('A' <= c && c <= 'Z')
}

/// ASCII whitespace: space, tab, line feed, form feed, carriage return.
pub open spec fn is_space(c: char) -> bool {
    c == ' ' || c == '\t' || c == '\n' || c == '\x0C' || c == '\r'
}

/// Whether the character after `pos` is `d`.
pub open spec fn next_is(src: Seq<char>, pos: int, d: char) -> bool {
    pos + 1 < src.len() && src[pos + 1] == d
}

/// The number of line feeds in `src[a..b]`.
pub open spec fn newlines(src: Seq<char>, a: int, b: int) -> nat
    decreases b - a,
{
    if b <= a {
        0
    } else {
        newlines(src, a, b - 1) + if src[b - 1] == '\n' {
            1nat
        } else {
            0nat
        }
    }
}

/// Where a line comment whose text starts at `i` ends: at the next line feed,
/// which is left for the line count, or at the end of the source.
pub open spec fn line_end(src: Seq<char>, i: int) -> int
    decreases src.len() - i,
{
    if i >= src.len() || src[i] == '\n' {
        i
    } else {
        line_end(src, i + 1)
    }
}

/// Where a block comment whose text starts at `i` ends: just after the first
/// `*/`, or at the end of the source when it is never closed.
pub open spec fn block_end(src: Seq<char>, i: int) -> int
    decreases src.len() - i,
{
    if i >= src.len() {
        src.len() as int
    } else if src[i] == '*' && next_is(src, i, '/') {
        i + 2
    } else {
        block_end(src, i + 1)
    }
}

/// Where a string literal whose text starts at `i` ends: just after the next
/// `"`, or at the end of the source when it is never closed.
pub open spec fn string_end(src: Seq<char>, i: int) -> int
    decreases src.len() - i,
{
    if i >= src.len() {
        src.len() as int
    } else if src[i] == '"' {
        i + 1
    } else {
        string_end(src, i + 1)
    }
}

/// The end of the run of digits that starts at `i`.
pub open spec fn digits_end(src: Seq<char>, i: int) -> int
    decreases src.len() - i,
{
    if 0 <= i < src.len() && is_digit(src[i]) {
        digits_end(src, i + 1)
    } else {
        i
    }
}

/// The end of the run of letters that starts at `i`.
pub open spec fn alpha_end(src: Seq<char>, i: int) -> int
    decreases src.len() - i,
{
    if 0 <= i < src.len() && is_alpha(src[i]) {
        alpha_end(src, i + 1)
    } else {
        i
    }
}

/// The end of a number whose first digit stands just before `i`: digits,
/// then a `.` and more digits only when a digit follows the `.`.
pub open spec fn number_end(src: Seq<char>, i: int) -> int {
    let d = digits_end(src, i);
    if 0 <= d && d + 1 < src.len() && src[d] == '.' && is_digit(src[d + 1]) {
        digits_end(src, d + 2)
    } else {
        d
    }
}

/// The token of a character that stands alone or starts a two-character
/// operator; `None` for any other character.
pub open spec fn operator_type(src: Seq<char>, pos: int) -> Option<(TokenType, int)> {
    let c = src[pos];
    if c == '(' {
        Some((TokenType::LeftParen, 1))
    } else if c == ')' {
        Some((TokenType::RightParen, 1))
    } else if c == '{' {
        Some((TokenType::LeftBrace, 1))
    } else if c == '}' {
        Some((TokenType::RightBrace, 1))
    } else if c == ',' {
        Some((TokenType::Comma, 1))
    } else if c == '.' {
        Some((TokenType::Dot, 1))
    } else if c == '-' {
        Some((TokenType::Minus, 1))
    } else if c == '+' {
        Some((TokenType::Plus, 1))
    } else if c == '*' {
        Some((TokenType::Star, 1))
    } else if c == ';' {
        Some((TokenType::Semicolon, 1))
    } else if c == '/' {
        Some((TokenType::Slash, 1))
    } else if c == '>' {
        if next_is(src, pos, '=') {
            Some((TokenType::GreaterEqual, 2))
        } else {
            Some((TokenType::Greater, 1))
        }
    } else if c == '<' {
        if next_is(src, pos, '=') {
            Some((TokenType::LessEqual, 2))
        } else {
            Some((TokenType::Less, 1))
        }
    } else if c == '=' {
        if next_is(src, pos, '=') {
            Some((TokenType::EqualEqual, 2))
        } else {
            Some((TokenType::Equal, 1))
        }
    } else if c == '!' {
        if next_is(src, pos, '=') {
            Some((TokenType::BangEqual, 2))
        } else {
            Some((TokenType::Bang, 1))
        }
    } else {
        None
    }
}

/// What one step of the scanner does at `pos`: the token it emits, if any,
/// where the next step starts, and the line count after the step.
pub struct Lexed {
    pub token: Option<TokenType>,
    pub next: int,
    pub line: nat,
}

/// One step of the scanner on `src` at `pos`, on line `line`.
pub open spec fn lex_one(src: Seq<char>, pos: int, line: nat) -> Lexed {
    let c = src[pos];
    if is_space(c) {
        Lexed {
            token: None,
            next: pos + 1,
            line: if c == '\n' {
                line + 1
            } else {
                line
            },
        }
    } else if c == '/' && next_is(src, pos, '/') {
        Lexed { token: None, next: line_end(src, pos + 2), line }
    } else if c == '/' && next_is(src, pos, '*') {
        let e = block_end(src, pos + 2);
        Lexed { token: None, next: e, line: line + newlines(src, pos + 2, e) }
    } else if c == '"' {
        let e = string_end(src, pos + 1);
        Lexed { token: Some(TokenType::String), next: e, line: line + newlines(src, pos + 1, e) }
    } else if is_digit(c) {
        Lexed { token: Some(TokenType::Number), next: number_end(src, pos + 1), line }
    } else if is_alpha(c) {
        let e = alpha_end(src, pos + 1);
        Lexed { token: Some(word_type(src.subrange(pos, e))), next: e, line }
    } else {
        match operator_type(src, pos) {
            Some((t, w)) => Lexed { token: Some(t), next: pos + w, line },
            None => Lexed { token: Some(TokenType::Error), next: pos + 1, line },
        }
    }
}

pub proof fn lemma_line_end(src: Seq<char>, i: int)
    requires
        0 <= i <= src.len(),
    ensures
        i <= line_end(src, i) <= src.len(),
    decreases src.len() - i,
{
    if !(i >= src.len() || src[i] == '\n') {
        lemma_line_end(src, i + 1);
    }
}

pub proof fn lemma_block_end(src: Seq<char>, i: int)
    requires
        0 <= i <= src.len(),
    ensures
        i <= block_end(src, i) <= src.len(),
    decreases src.len() - i,
{
    if i < src.len() && !(src[i] == '*' && next_is(src, i, '/')) {
        lemma_block_end(src, i + 1);
    }
}

pub proof fn lemma_string_end(src: Seq<char>, i: int)
    requires
        0 <= i <= src.len(),
    ensures
        i <= string_end(src, i) <= src.len(),
    decreases src.len() - i,
{
    if i < src.len() && src[i] != '"' {
        lemma_string_end(src, i + 1);
    }
}

pub proof fn lemma_digits_end(src: Seq<char>, i: int)
    requires
        0 <= i <= src.len(),
    ensures
        i <= digits_end(src, i) <= src.len(),
    decreases src.len() - i,
{
    if i < src.len() && is_digit(src[i]) {
        lemma_digits_end(src, i + 1);
    }
}

pub proof fn lemma_alpha_end(src: Seq<char>, i: int)
    requires
        0 <= i <= src.len(),
    ensures
        i <= alpha_end(src, i) <= src.len(),
    decreases src.len() - i,
{
    if i < src.len() && is_alpha(src[i]) {
        lemma_alpha_end(src, i + 1);
    }
}

pub proof fn lemma_newlines_bound(src: Seq<char>, a: int, b: int)
    ensures
        a <= b ==> newlines(src, a, b) <= b - a,
    decreases b - a,
{
    if a < b {
        lemma_newlines_bound(src, a, b - 1);
    }
}

/// A step moves forward, stays within the source, and adds at most one line
/// per character it passes.
pub proof fn lemma_lex_one(src: Seq<char>, pos: int, line: nat)
    requires
        0 <= pos < src.len(),
    ensures
        pos < lex_one(src, pos, line).next <= src.len(),
        line <= lex_one(src, pos, line).line <= line + (lex_one(src, pos, line).next - pos),
{
    let c = src[pos];
    let l = lex_one(src, pos, line);
    if is_space(c) {
    } else if c == '/' && next_is(src, pos, '/') {
        lemma_line_end(src, pos + 2);
    } else if c == '/' && next_is(src, pos, '*') {
        lemma_block_end(src, pos + 2);
        lemma_newlines_bound(src, pos + 2, l.next);
    } else if c == '"' {
        lemma_string_end(src, pos + 1);
        lemma_newlines_bound(src, pos + 1, l.next);
    } else if is_digit(c) {
        lemma_digits_end(src, pos + 1);
        let d = digits_end(src, pos + 1);
        if d + 1 < src.len() && src[d] == '.' && is_digit(src[d + 1]) {
            lemma_digits_end(src, d + 2);
        }
    } else if is_alpha(c) {
        lemma_alpha_end(src, pos + 1);
    }
}

/// The end-of-input token on line `line`.
pub open spec fn eof_token(line: nat) -> TokenView {
    TokenView { token_type: TokenType::EOF, lexeme: Seq::empty(), line }
}

/// The tokens that scanning `src` from `pos` on line `line` emits.
pub open spec fn scan_from(src: Seq<char>, pos: int, line: nat) -> Seq<TokenView>
    decreases src.len() - pos,
    via scan_from_decreases
{
    if pos < 0 || pos >= src.len() {
        seq![eof_token(line)]
    } else {
        let l = lex_one(src, pos, line);
        let rest = scan_from(src, l.next, l.line);
        match l.token {
            Some(t) => seq![TokenView { token_type: t, lexeme: src.subrange(pos, l.next), line: l.line }]
                + rest,
            None => rest,
        }
    }
}

#[via_fn]
proof fn scan_from_decreases(src: Seq<char>, pos: int, line: nat) {
    if 0 <= pos < src.len() {
        lemma_lex_one(src, pos, line);
    }
}

/// The tokens of `src`, scanned from its start on line 1.
pub open spec fn scanned(src: Seq<char>) -> Seq<TokenView> {
    scan_from(src, 0, 1)
}

/// The lines of the error tokens in `ts`, in order.
pub open spec fn error_lines(ts: Seq<TokenView>) -> Seq<nat>
    decreases ts.len(),
{
    if ts.len() == 0 {
        Seq::empty()
    } else if ts.last().token_type == TokenType::Error {
        error_lines(ts.drop_last()).push(ts.last().line)
    } else {
        error_lines(ts.drop_last())
    }
}

/// The tokens end with exactly one end-of-input token, and their lines never
/// go down.
pub open spec fn well_ended(ts: Seq<TokenView>) -> bool {
    &&& ts.len() >= 1
    &&& ts.last().token_type == TokenType::EOF
    &&& forall|i: int| 0 <= i < ts.len() - 1 ==> ts[i].token_type != TokenType::EOF
    &&& forall|i: int, j: int| 0 <= i <= j < ts.len() ==> ts[i].line <= ts[j].line
}

pub proof fn lemma_scan_from_shape(src: Seq<char>, pos: int, line: nat)
    requires
        0 <= pos,
    ensures
        well_ended(scan_from(src, pos, line)),
        forall|i: int|
            0 <= i < scan_from(src, pos, line).len() ==> line <= #[trigger] scan_from(
                src,
                pos,
                line,
            )[i].line,
    decreases src.len() - pos,
{
    if pos < src.len() {
        let l = lex_one(src, pos, line);
        lemma_lex_one(src, pos, line);
        lemma_scan_from_shape(src, l.next, l.line);
        let rest = scan_from(src, l.next, l.line);
        match l.token {
            Some(t) => {
                let tv = TokenView { token_type: t, lexeme: src.subrange(pos, l.next), line: l.line };
                let ts = seq![tv] + rest;
                assert(ts == scan_from(src, pos, line));
                assert(t != TokenType::EOF);
                assert forall|i: int| 0 <= i < ts.len() - 1 implies ts[i].token_type
                    != TokenType::EOF by {
                    if i > 0 {
                        assert(ts[i] == rest[i - 1]);
                    }
                }
                assert forall|i: int, j: int| 0 <= i <= j < ts.len() implies ts[i].line
                    <= ts[j].line by {
                    if i > 0 {
                        assert(ts[i] == rest[i - 1]);
                        assert(ts[j] == rest[j - 1]);
                    } else if j > 0 {
                        assert(ts[j] == rest[j - 1]);
                    }
                }
                assert forall|i: int| 0 <= i < ts.len() implies line <= #[trigger] ts[i].line by {
                    if i > 0 {
                        assert(ts[i] == rest[i - 1]);
                    }
                }
            },
            None => {},
        }
    }
}

/// Scanning any source ends in exactly one end-of-input token, and the lines
/// of the tokens never go down.
pub proof fn lemma_scan_shape(src: Seq<char>)
    ensures
        well_ended(scanned(src)),
{
    lemma_scan_from_shape(src, 0, 1);
}

pub fn is_new_line(c: char) -> (r: bool)
    ensures
        r == (c == '\n'),
{
    c == '\n'
}

fn is_digit_char(c: char) -> (r: bool)
    ensures
        r == is_digit(c),
{
    '0' <= c && c <= '9'
}

fn is_alpha_char(c: char) -> (r: bool)
    ensures
        r == is_alpha(c),
{
    ('a' <= c && c <= 'z') || ('A' <= c && c <= 'Z')
}

fn is_space_char(c: char) -> (r: bool)
    ensures
        r == is_space(c),
{
    c == ' ' || c == '\t' || c == '\n' || c == '\x0C' || c == '\r'
}

fn follows(src: &Vec<char>, pos: usize, d: char) -> (r: bool)
    ensures
        r == next_is(src@, pos as int, d),
{
    pos < src.len() && pos + 1 < src.len() && src[pos + 1] == d
}

fn line_end_at(src: &Vec<char>, i: usize) -> (r: usize)
    requires
        i <= src@.len(),
    ensures
        r == line_end(src@, i as int),
{
    let mut j = i;
    while j < src.len() && src[j] != '\n'
        invariant
            i <= j <= src@.len(),
            line_end(src@, j as int) == line_end(src@, i as int),
        decreases src@.len() - j,
    {
        j += 1;
    }
    j
}

fn block_end_at(src: &Vec<char>, i: usize) -> (r: usize)
    requires
        i <= src@.len(),
    ensures
        r == block_end(src@, i as int),
{
    let mut j = i;
    while j < src.len()
        invariant
            i <= j <= src@.len(),
            block_end(src@, j as int) == block_end(src@, i as int),
        decreases src@.len() - j,
    {
        if src[j] == '*' && follows(src, j, '/') {
            return j + 2;
        }
        j += 1;
    }
    j
}

fn string_end_at(src: &Vec<char>, i: usize) -> (r: usize)
    requires
        i <= src@.len(),
    ensures
        r == string_end(src@, i as int),
{
    let mut j = i;
    while j < src.len()
        invariant
            i <= j <= src@.len(),
            string_end(src@, j as int) == string_end(src@, i as int),
        decreases src@.len() - j,
    {
        if src[j] == '"' {
            return j + 1;
        }
        j += 1;
    }
    j
}

fn digits_end_at(src: &Vec<char>, i: usize) -> (r: usize)
    requires
        i <= src@.len(),
    ensures
        r == digits_end(src@, i as int),
{
    let mut j = i;
    while j < src.len() && is_digit_char(src[j])
        invariant
            i <= j <= src@.len(),
            digits_end(src@, j as int) == digits_end(src@, i as int),
        decreases src@.len() - j,
    {
        j += 1;
    }
    j
}

fn alpha_end_at(src: &Vec<char>, i: usize) -> (r: usize)
    requires
        i <= src@.len(),
    ensures
        r == alpha_end(src@, i as int),
{
    let mut j = i;
    while j < src.len() && is_alpha_char(src[j])
        invariant
            i <= j <= src@.len(),
            alpha_end(src@, j as int) == alpha_end(src@, i as int),
        decreases src@.len() - j,
    {
        j += 1;
    }
    j
}

fn number_end_at(src: &Vec<char>, i: usize) -> (r: usize)
    requires
        i <= src@.len(),
    ensures
        r == number_end(src@, i as int),
{
    let d = digits_end_at(src, i);
    proof {
        lemma_digits_end(src@, i as int);
    }
    if d < src.len() && src[d] == '.' && d + 1 < src.len() && is_digit_char(src[d + 1]) {
        digits_end_at(src, d + 2)
    } else {
        d
    }
}

fn count_newlines(src: &Vec<char>, a: usize, b: usize) -> (r: usize)
    requires
        a <= b <= src@.len(),
    ensures
        r == newlines(src@, a as int, b as int),
        r <= b - a,
{
    let mut k: usize = 0;
    let mut j = a;
    while j < b
        invariant
            a <= j <= b <= src@.len(),
            k == newlines(src@, a as int, j as int),
            k <= j - a,
        decreases b - j,
    {
        if is_new_line(src[j]) {
            k += 1;
        }
        j += 1;
    }
    k
}

fn operator_at(src: &Vec<char>, pos: usize) -> (r: Option<(TokenType, usize)>)
    requires
        pos < src@.len(),
    ensures
        match operator_type(src@, pos as int) {
            Some((t, w)) => r == Some((t, w as usize)),
            None => r is None,
        },
{
    let c = src[pos];
    if c == '(' {
        Some((TokenType::LeftParen, 1))
    } else if c == ')' {
        Some((TokenType::RightParen, 1))
    } else if c == '{' {
        Some((TokenType::LeftBrace, 1))
    } else if c == '}' {
        Some((TokenType::RightBrace, 1))
    } else if c == ',' {
        Some((TokenType::Comma, 1))
    } else if c == '.' {
        Some((TokenType::Dot, 1))
    } else if c == '-' {
        Some((TokenType::Minus, 1))
    } else if c == '+' {
        Some((TokenType::Plus, 1))
    } else if c == '*' {
        Some((TokenType::Star, 1))
    } else if c == ';' {
        Some((TokenType::Semicolon, 1))
    } else if c == '/' {
        Some((TokenType::Slash, 1))
    } else if c == '>' {
        if follows(src, pos, '=') {
            Some((TokenType::GreaterEqual, 2))
        } else {
            Some((TokenType::Greater, 1))
        }
    } else if c == '<' {
        if follows(src, pos, '=') {
            Some((TokenType::LessEqual, 2))
        } else {
            Some((TokenType::Less, 1))
        }
    } else if c == '=' {
        if follows(src, pos, '=') {
            Some((TokenType::EqualEqual, 2))
        } else {
            Some((TokenType::Equal, 1))
        }
    } else if c == '!' {
        if follows(src, pos, '=') {
            Some((TokenType::BangEqual, 2))
        } else {
            Some((TokenType::Bang, 1))
        }
    } else {
        None
    }
}

/// One step of the scanner: the token it emits at `pos`, if any, where the
/// next step starts, and the line count after it.
pub fn lex_at(src: &Vec<char>, pos: usize, line: usize) -> (r: (Option<TokenType>, usize, usize))
    requires
        pos < src@.len() < usize::MAX,
        line + (src@.len() - pos) <= usize::MAX,
    ensures
        r.0 == lex_one(src@, pos as int, line as nat).token,
        r.1 == lex_one(src@, pos as int, line as nat).next,
        r.2 == lex_one(src@, pos as int, line as nat).line,
{
    proof {
        lemma_lex_one(src@, pos as int, line as nat);
    }
    let c = src[pos];
    if is_space_char(c) {
        if is_new_line(c) {
            (None, pos + 1, line + 1)
        } else {
            (None, pos + 1, line)
        }
    } else if c == '/' && follows(src, pos, '/') {
        (None, line_end_at(src, pos + 2), line)
    } else if c == '/' && follows(src, pos, '*') {
        let e = block_end_at(src, pos + 2);
        proof {
            lemma_block_end(src@, pos + 2);
        }
        (None, e, line + count_newlines(src, pos + 2, e))
    } else if c == '"' {
        let e = string_end_at(src, pos + 1);
        proof {
            lemma_string_end(src@, pos + 1);
        }
        (Some(TokenType::String), e, line + count_newlines(src, pos + 1, e))
    } else if is_digit_char(c) {
        (Some(TokenType::Number), number_end_at(src, pos + 1), line)
    } else if is_alpha_char(c) {
        let e = alpha_end_at(src, pos + 1);
        proof {
            lemma_alpha_end(src@, pos + 1);
        }
        (Some(word_type_at(src, pos, e)), e, line)
    } else {
        match operator_at(src, pos) {
            Some((t, w)) => (Some(t), pos + w, line),
            None => (Some(TokenType::Error), pos + 1, line),
        }
    }
}

/// The characters of `s`, in order.
pub fn chars_of(s: &str) -> (r: Vec<char>)
    ensures
        r@ == s@,
{
    let mut it = s.chars();
    let mut out: Vec<char> = Vec::new();
    loop
        invariant
            out@ + it.remaining() == s@,
            it.decrease() is Some,
        ensures
            out@ == s@,
        decreases it.decrease()->0,
    {
        match it.next() {
            Some(c) => {
                out.push(c);
            },
            None => {
                assert(out@ =~= out@ + it.remaining());
                break;
            },
        }
    }
    out
}

/// The message recorded for a character that starts no token.
pub open spec fn invalid_message() -> Seq<char> {
    "Invalid character"@
}

/// From index `from` on, `errors` holds exactly one report per line of
/// `lines`, in order, each of an invalid character with no place.
pub open spec fn reports_invalid(errors: Seq<Error>, from: int, lines: Seq<nat>) -> bool {
    &&& 0 <= from
    &&& errors.len() == from + lines.len()
    &&& forall|i: int|
        0 <= i < lines.len() ==> {
            &&& (#[trigger] errors[from + i]).line == lines[i]
            &&& errors[from + i].place@.len() == 0
            &&& errors[from + i].message@ == invalid_message()
        }
}

/// Turns source text into tokens in one left-to-right pass, and records each
/// character that starts no token.
pub struct Scanner {
    code: String,
    source: Vec<char>,
    tokens: Tokens,
    line: usize,
    current: usize,
    errors: Lox,
    reported_before: Ghost<nat>,
}

/// The report lines of invalid characters on `lines`, in order.
pub open spec fn invalid_report(lines: Seq<nat>) -> Seq<char>
    decreases lines.len(),
{
    if lines.len() == 0 {
        Seq::empty()
    } else {
        invalid_report(lines.drop_last()) + "[line "@ + decimal(lines.last()) + "] Error"@
            + ": "@ + invalid_message() + "\n"@
    }
}

/// The report of diagnostics that end in invalid-character reports is the
/// report of those before them followed by one line per invalid character.
pub proof fn lemma_report_invalid(errors: Seq<Error>, from: int, lines: Seq<nat>)
    requires
        reports_invalid(errors, from, lines),
    ensures
        report_text(errors) == report_text(errors.take(from)) + invalid_report(lines),
    decreases lines.len(),
{
    if lines.len() == 0 {
        assert(errors.take(from) =~= errors);
    } else {
        let shorter = errors.drop_last();
        let n = lines.len() - 1;
        assert forall|i: int| 0 <= i < lines.drop_last().len() implies {
            &&& (#[trigger] shorter[from + i]).line == lines.drop_last()[i]
            &&& shorter[from + i].place@.len() == 0
            &&& shorter[from + i].message@ == invalid_message()
        } by {
            assert(shorter[from + i] == errors[from + i]);
        }
        lemma_report_invalid(shorter, from, lines.drop_last());
        assert(shorter.take(from) =~= errors.take(from));
        let last = errors.last();
        assert(last == errors[from + n]);
        assert(last.place@ =~= Seq::<char>::empty());
        assert(report_line(last) =~= "[line "@ + decimal(lines.last()) + "] Error"@ + ": "@
            + invalid_message() + "\n"@);
        assert(report_text(errors) =~= report_text(errors.take(from)) + invalid_report(lines));
    }
}

/// A source of tokens that keeps its diagnostics.
pub trait Scan: Sized {
    /// The scanner can scan.
    spec fn ready(&self) -> bool;

    /// The source text, as characters.
    spec fn text(&self) -> Seq<char>;

    /// The diagnostics it holds.
    spec fn diagnostics(&self) -> Lox;

    /// How many diagnostics there were before scanning began.
    spec fn earlier_reports(&self) -> nat;

    /// Scans the whole source: the tokens end with one end-of-input token,
    /// and each invalid character is reported once, in order, after the
    /// diagnostics there were before.
    fn scan_tokens(&mut self) -> (r: Tokens)
        requires
            old(self).ready(),
            old(self).earlier_reports() <= old(self).diagnostics().errors@.len(),
        ensures
            final(self).ready(),
            final(self).text() == old(self).text(),
            final(self).earlier_reports() == old(self).earlier_reports(),
            r@ == scanned(old(self).text()),
            well_ended(r@),
            final(self).diagnostics().wf(),
            final(self).diagnostics().errors@.take(old(self).earlier_reports() as int) == old(
                self,
            ).diagnostics().errors@.take(old(self).earlier_reports() as int),
            reports_invalid(
                final(self).diagnostics().errors@,
                old(self).earlier_reports() as int,
                error_lines(r@),
            ),
    ;

    fn get_errors(&self) -> (r: &Lox)
        ensures
            *r == self.diagnostics(),
    ;
}

impl Scanner {
    pub closed spec fn wf(&self) -> bool {
        &&& self.source@ == self.code@
        &&& self.source@.len() < usize::MAX
        &&& self.current <= self.source@.len()
        &&& self.line <= self.current + 1
        &&& self.tokens@ + scan_from(self.source@, self.current as int, self.line as nat)
            == scanned(self.source@)
        &&& self.errors.wf()
        &&& reports_invalid(
            self.errors.errors@,
            self.reported_before@ as int,
            error_lines(self.tokens@),
        )
    }

    pub closed spec fn source(&self) -> Seq<char> {
        self.code@
    }

    pub closed spec fn spec_errors(&self) -> Lox {
        self.errors
    }

    pub closed spec fn before_count(&self) -> nat {
        self.reported_before@
    }

    pub fn new(code: String, errors: Lox) -> (r: Scanner)
        requires
            code@.len() < usize::MAX,
            errors.wf(),
        ensures
            r.ready(),
            r.text() == code@,
            r.diagnostics() == errors,
            r.earlier_reports() == errors.errors@.len(),
    {
        let source = chars_of(code.as_str());
        let ghost before = errors.errors@.len();
        let r = Scanner {
            code,
            source,
            tokens: Tokens::new(),
            line: 1,
            current: 0,
            errors,
            reported_before: Ghost(before),
        };
        assert(r.tokens@ + scanned(r.source@) =~= scanned(r.source@));
        r
    }
}

impl Scan for Scanner {
    open spec fn ready(&self) -> bool {
        self.wf()
    }

    open spec fn text(&self) -> Seq<char> {
        self.source()
    }

    open spec fn diagnostics(&self) -> Lox {
        self.spec_errors()
    }

    open spec fn earlier_reports(&self) -> nat {
        self.before_count()
    }

    fn scan_tokens(&mut self) -> (r: Tokens) {
        let ghost rb = self.reported_before@ as int;
        while self.current < self.source.len()
            invariant
                self.wf(),
                self.source@ == old(self).source@,
                self.code@ == old(self).code@,
                self.reported_before@ == rb,
                self.errors.errors@.take(rb) == old(self).errors.errors@.take(rb),
            decreases self.source@.len() - self.current,
        {
            let ghost src = self.source@;
            let ghost pos = self.current as int;
            let ghost old_tokens = self.tokens@;
            let ghost old_line = self.line as nat;
            let ghost old_errors = self.errors.errors@;
            let ghost old_el = error_lines(self.tokens@);
            let (tok, next, line) = lex_at(&self.source, self.current, self.line);
            proof {
                lemma_lex_one(src, pos, old_line);
            }
            let ghost rest = scan_from(src, next as int, line as nat);
            match tok {
                Some(t) => {
                    let lexeme = self.code.as_str().substring_char(self.current, next).to_string();
                    if t == TokenType::Error {
                        self.errors.error(line, "Invalid character".to_string());
                        proof {
                            assert(self.errors.errors@.take(rb) =~= old_errors.take(rb));
                        }
                    }
                    let token = Token::new(t, lexeme, line);
                    self.tokens.push(token);
                    proof {
                        let tv = token@;
                        assert(self.tokens@ + rest =~= old_tokens + (seq![tv] + rest));
                        assert(self.tokens@.drop_last() =~= old_tokens);
                        let el = error_lines(self.tokens@);
                        let errs = self.errors.errors@;
                        assert forall|i: int| 0 <= i < el.len() implies {
                            &&& (#[trigger] errs[rb + i]).line == el[i]
                            &&& errs[rb + i].place@.len() == 0
                            &&& errs[rb + i].message@ == invalid_message()
                        } by {
                            if i < old_el.len() {
                                if t == TokenType::Error {
                                    assert(errs.take(old_errors.len() as int)[rb + i] == errs[rb
                                        + i]);
                                }
                                assert(errs[rb + i] == old_errors[rb + i]);
                                assert(el[i] == old_el[i]);
                            }
                        }
                    }
                },
                None => {},
            }
            self.current = next;
            self.line = line;
        }
        let mut out = self.tokens.clone();
        out.push(Token::new(TokenType::EOF, String::new(), self.line));
        proof {
            lemma_scan_shape(self.source@);
            assert(out@ =~= self.tokens@ + scan_from(
                self.source@,
                self.current as int,
                self.line as nat,
            ));
            assert(out@.drop_last() =~= self.tokens@);
        }
        out
    }

    fn get_errors(&self) -> (r: &Lox) {
        &self.errors
    }
}

/// Scans `source` with a fresh diagnostics collector.
pub fn scan(source: &str) -> (r: (Tokens, Lox))
    requires
        source@.len() < usize::MAX,
    ensures
        r.0@ == scanned(source@),
        well_ended(r.0@),
        r.1.wf(),
        r.1.had_error == (error_lines(r.0@).len() > 0),
        reports_invalid(r.1.errors@, 0, error_lines(r.0@)),
{
    let mut scanner = Scanner::new(source.to_string(), Lox::new());
    let tokens = scanner.scan_tokens();
    (tokens, scanner.errors)
}

/// Scans with `scanner`: the tokens when no diagnostic is held afterwards,
/// else the report of all diagnostics.
pub fn run_with_scanner<S: Scan>(scanner: S) -> (r: Result<Tokens, String>)
    requires
        scanner.ready(),
        scanner.earlier_reports() <= scanner.diagnostics().errors@.len(),
    ensures
        ({
            let before = scanner.diagnostics().errors@.take(scanner.earlier_reports() as int);
            let lines = error_lines(scanned(scanner.text()));
            match r {
                Ok(tokens) => {
                    &&& tokens@ == scanned(scanner.text())
                    &&& before.len() == 0
                    &&& lines.len() == 0
                },
                Err(report) => {
                    &&& before.len() + lines.len() > 0
                    &&& report@ == report_text(before) + invalid_report(lines)
                },
            }
        }),
{
    let mut scanner = scanner;
    let tokens = scanner.scan_tokens();
    let errors = scanner.get_errors();
    proof {
        lemma_report_invalid(
            errors.errors@,
            scanner.earlier_reports() as int,
            error_lines(tokens@),
        );
    }
    if errors.has_errors() {
        Err(errors.report_string())
    } else {
        Ok(tokens)
    }
}

} // verus!
