use vstd::prelude::*;

use crate::ast::{Expr, ExprView, Object, ObjectView, Stmt, StmtView};
use crate::lox::{Error, Lox};
use crate::token::{Token, TokenType, TokenView, Tokens};

verus! {

broadcast use vstd::string::group_string_axioms;

/// A syntax error: the token at which it was found, and what was expected.
#[derive(Debug, PartialEq)]
pub struct ParseError {
    pub token: Token,
    pub message: String,
}

pub struct ParseErrorView {
    pub token: TokenView,
    pub message: Seq<char>,
}

impl View for ParseError {
    type V = ParseErrorView;

    open spec fn view(&self) -> ParseErrorView {
        ParseErrorView { token: self.token@, message: self.message@ }
    }
}

impl ParseError {
    pub fn new(token: Token, message: String) -> (r: ParseError)
        ensures
            r.token == token,
            r.message == message,
    {
        ParseError { token, message }
    }
}

/// A token sequence the parser can walk: it ends with an end-of-input token.
pub open spec fn well_formed(ts: Seq<Token>) -> bool {
    &&& ts.len() >= 1
    &&& ts.last().token_type == TokenType::EOF
}

/// Whether position `p` is at (or past) the end of input.
pub open spec fn at_end(ts: Seq<Token>, p: int) -> bool {
    !(0 <= p < ts.len()) || ts[p].token_type == TokenType::EOF
}

/// Whether the token at `p` is of kind `t`, end of input excluded.
pub open spec fn checks(ts: Seq<Token>, p: int, t: TokenType) -> bool {
    !at_end(ts, p) && ts[p].token_type == t
}

/// The operators of the binary precedence levels, from the tightest:
/// 1 factor, 2 term, 3 comparison, 4 equality.
pub open spec fn level_op(k: nat, t: TokenType) -> bool {
    if k == 1 {
        t == TokenType::Slash || t == TokenType::Star
    } else if k == 2 {
        t == TokenType::Minus || t == TokenType::Plus
    } else if k == 3 {
        t == TokenType::Greater || t == TokenType::GreaterEqual || t == TokenType::Less || t
            == TokenType::LessEqual
    } else if k == 4 {
        t == TokenType::BangEqual || t == TokenType::EqualEqual
    } else {
        false
    }
}

/// The level at which a whole expression is parsed.
pub open spec fn top_level() -> nat {
    4
}

/// The result of parsing at some position, and the position after it (for
/// an error, the position at which it was found).
pub struct Parsed {
    pub result: Result<ExprView, ParseErrorView>,
    pub next: int,
}

pub open spec fn error_at(ts: Seq<Token>, p: int, message: Seq<char>) -> Parsed {
    Parsed { result: Err(ParseErrorView { token: ts[p]@, message }), next: p }
}

/// The value of a string token: its text without the opening quote and,
/// when it was closed, without the closing one.
pub open spec fn string_value(lexeme: Seq<char>) -> Seq<char> {
    if lexeme.len() == 0 {
        lexeme
    } else if lexeme.len() >= 2 && lexeme.last() == '"' {
        lexeme.subrange(1, lexeme.len() - 1)
    } else {
        lexeme.subrange(1, lexeme.len() as int)
    }
}

/// An expression parsed at level `k` (0 is the unary level) from `p`.
pub open spec fn parse_level(ts: Seq<Token>, p: int, k: nat) -> Parsed
    decreases ts.len() - p, k, 2nat,
{
    if k == 0 {
        parse_unary(ts, p)
    } else {
        let first = parse_level(ts, p, (k - 1) as nat);
        match first.result {
            Ok(left) => if p <= first.next <= ts.len() {
                parse_level_rest(ts, first.next, k, left)
            } else {
                first
            },
            Err(_) => first,
        }
    }
}

/// The operators of level `k` that follow `left` at `p`, and their
/// operands, folded to the left.
pub open spec fn parse_level_rest(ts: Seq<Token>, p: int, k: nat, left: ExprView) -> Parsed
    decreases ts.len() - p, k, 0nat,
{
    if k > 0 && !at_end(ts, p) && level_op(k, ts[p].token_type) {
        let right = parse_level(ts, p + 1, (k - 1) as nat);
        match right.result {
            Ok(r) => if p < right.next <= ts.len() {
                parse_level_rest(
                    ts,
                    right.next,
                    k,
                    ExprView::Binary(Box::new(left), ts[p]@, Box::new(r)),
                )
            } else {
                right
            },
            Err(_) => right,
        }
    } else {
        Parsed { result: Ok(left), next: p }
    }
}

/// A prefix `!` or `-` applied to a unary expression, or a primary one.
pub open spec fn parse_unary(ts: Seq<Token>, p: int) -> Parsed
    decreases ts.len() - p, 0nat, 1nat,
{
    if checks(ts, p, TokenType::Bang) || checks(ts, p, TokenType::Minus) {
        let operand = parse_unary(ts, p + 1);
        match operand.result {
            Ok(e) => Parsed { result: Ok(ExprView::Unary(ts[p]@, Box::new(e))), next: operand.next },
            Err(_) => operand,
        }
    } else {
        parse_primary(ts, p)
    }
}

/// A literal, or an expression in parentheses.
pub open spec fn parse_primary(ts: Seq<Token>, p: int) -> Parsed
    decreases ts.len() - p, 0nat, 0nat,
{
    if checks(ts, p, TokenType::False) {
        Parsed { result: Ok(ExprView::Literal(ObjectView::Boolean(false))), next: p + 1 }
    } else if checks(ts, p, TokenType::True) {
        Parsed { result: Ok(ExprView::Literal(ObjectView::Boolean(true))), next: p + 1 }
    } else if checks(ts, p, TokenType::Nil) {
        Parsed { result: Ok(ExprView::Literal(ObjectView::Nil)), next: p + 1 }
    } else if checks(ts, p, TokenType::Number) {
        Parsed {
            result: Ok(ExprView::Literal(ObjectView::Number(ts[p].lexeme@))),
            next: p + 1,
        }
    } else if checks(ts, p, TokenType::String) {
        Parsed {
            result: Ok(ExprView::Literal(ObjectView::Str(string_value(ts[p].lexeme@)))),
            next: p + 1,
        }
    } else if checks(ts, p, TokenType::LeftParen) {
        let inner = parse_level(ts, p + 1, top_level());
        match inner.result {
            Ok(e) => if checks(ts, inner.next, TokenType::RightParen) {
                Parsed { result: Ok(ExprView::Grouping(Box::new(e))), next: inner.next + 1 }
            } else {
                error_at(ts, inner.next, "Expect ')' after expression."@)
            },
            Err(_) => inner,
        }
    } else {
        error_at(ts, p, "Expect expression."@)
    }
}

/// A statement parsed from some position, and the position after it (for an
/// error, the position at which it was found).
pub struct ParsedStmt {
    pub result: Result<StmtView, ParseErrorView>,
    pub next: int,
}

/// `print` expression `;`, or expression `;`.
pub open spec fn parse_statement(ts: Seq<Token>, p: int) -> ParsedStmt {
    let is_print = checks(ts, p, TokenType::Print);
    let start = if is_print {
        p + 1
    } else {
        p
    };
    let e = parse_level(ts, start, top_level());
    match e.result {
        Err(x) => ParsedStmt { result: Err(x), next: e.next },
        Ok(v) => if checks(ts, e.next, TokenType::Semicolon) {
            ParsedStmt {
                result: Ok(
                    if is_print {
                        StmtView::Print(v)
                    } else {
                        StmtView::Expression(v)
                    },
                ),
                next: e.next + 1,
            }
        } else {
            ParsedStmt {
                result: Err(ParseErrorView { token: ts[e.next]@, message: "Expect ';' after value."@ }),
                next: e.next,
            }
        },
    }
}

/// The keywords at which a statement may begin.
pub open spec fn starts_statement(t: TokenType) -> bool {
    t == TokenType::For || t == TokenType::Class || t == TokenType::Fn || t == TokenType::Var || t
        == TokenType::If || t == TokenType::While || t == TokenType::Print || t == TokenType::Return
}

/// The first position from `p` on that is the end of input, follows a `;`,
/// or holds a keyword that begins a statement.
pub open spec fn skip_from(ts: Seq<Token>, p: int) -> int
    decreases ts.len() - p,
{
    if at_end(ts, p) || p <= 0 {
        p
    } else if ts[p - 1].token_type == TokenType::Semicolon || starts_statement(ts[p].token_type) {
        p
    } else {
        skip_from(ts, p + 1)
    }
}

/// Where parsing goes on after an error at `p`: the offending token is
/// dropped, then tokens through the next `;` or up to the next keyword that
/// begins a statement.
pub open spec fn synchronize(ts: Seq<Token>, p: int) -> int {
    if at_end(ts, p) {
        p
    } else {
        skip_from(ts, p + 1)
    }
}

/// The statements and the syntax errors of a token sequence, each in order.
pub struct Program {
    pub stmts: Seq<StmtView>,
    pub errors: Seq<ParseErrorView>,
}

/// The statements and errors found from position `p` to the end of input.
pub open spec fn parse_from(ts: Seq<Token>, p: int) -> Program
    decreases ts.len() - p,
{
    if at_end(ts, p) {
        Program { stmts: Seq::empty(), errors: Seq::empty() }
    } else {
        let s = parse_statement(ts, p);
        match s.result {
            Ok(st) => if p < s.next <= ts.len() {
                let rest = parse_from(ts, s.next);
                Program { stmts: seq![st] + rest.stmts, errors: rest.errors }
            } else {
                Program { stmts: seq![st], errors: Seq::empty() }
            },
            Err(e) => {
                let q = synchronize(ts, s.next);
                if p < q <= ts.len() {
                    let rest = parse_from(ts, q);
                    Program { stmts: rest.stmts, errors: seq![e] + rest.errors }
                } else {
                    Program { stmts: Seq::empty(), errors: seq![e] }
                }
            },
        }
    }
}

pub open spec fn result_view(r: Result<Expr, ParseError>) -> Result<ExprView, ParseErrorView> {
    match r {
        Ok(e) => Ok(e@),
        Err(x) => Err(x@),
    }
}

pub fn at_eof(token_type: TokenType) -> (r: bool)
    ensures
        r == (token_type == TokenType::EOF),
{
    token_type == TokenType::EOF
}

fn check_at(ts: &Vec<Token>, p: usize, t: TokenType) -> (r: bool)
    requires
        well_formed(ts@),
        p < ts@.len(),
    ensures
        r == checks(ts@, p as int, t),
        r ==> p + 1 < ts@.len() <= usize::MAX,
{
    p < ts.len() - 1 && !at_eof(ts[p].token_type) && ts[p].token_type == t
}

fn is_level_op(k: usize, t: TokenType) -> (r: bool)
    ensures
        r == level_op(k as nat, t),
{
    if k == 1 {
        t == TokenType::Slash || t == TokenType::Star
    } else if k == 2 {
        t == TokenType::Minus || t == TokenType::Plus
    } else if k == 3 {
        t == TokenType::Greater || t == TokenType::GreaterEqual || t == TokenType::Less || t
            == TokenType::LessEqual
    } else if k == 4 {
        t == TokenType::BangEqual || t == TokenType::EqualEqual
    } else {
        false
    }
}

fn fail(ts: &Vec<Token>, p: usize, message: &str) -> (r: (Result<Expr, ParseError>, usize))
    requires
        p < ts@.len(),
    ensures
        result_view(r.0) == error_at(ts@, p as int, message@).result,
        r.1 == p,
{
    (Err(ParseError::new(ts[p].copy(), message.to_string())), p)
}

/// The value of the string token `lexeme`.
pub fn string_contents(lexeme: &String) -> (r: String)
    ensures
        r@ == string_value(lexeme@),
{
    let text = lexeme.as_str();
    let n = text.unicode_len();
    if n == 0 {
        String::new()
    } else if n >= 2 && text.get_char(n - 1) == '"' {
        text.substring_char(1, n - 1).to_string()
    } else {
        text.substring_char(1, n).to_string()
    }
}

fn parse_level_at(ts: &Vec<Token>, p: usize, k: usize) -> (r: (Result<Expr, ParseError>, usize))
    requires
        well_formed(ts@),
        p < ts@.len(),
        k <= top_level(),
    ensures
        p <= r.1 < ts@.len(),
        result_view(r.0) == parse_level(ts@, p as int, k as nat).result,
        r.1 == parse_level(ts@, p as int, k as nat).next,
    decreases ts@.len() - p, k, 2nat,
{
    if k == 0 {
        return parse_unary_at(ts, p);
    }
    let (first, q0) = parse_level_at(ts, p, k - 1);
    match first {
        Err(e) => (Err(e), q0),
        Ok(left0) => {
            let mut left = left0;
            let mut q = q0;
            while q < ts.len() - 1 && !at_eof(ts[q].token_type) && is_level_op(k, ts[q].token_type)
                invariant
                    well_formed(ts@),
                    p <= q < ts@.len(),
                    1 <= k <= top_level(),
                    parse_level_rest(ts@, q as int, k as nat, left@) == parse_level(
                        ts@,
                        p as int,
                        k as nat,
                    ),
                decreases ts@.len() - q,
            {
                let op = ts[q].copy();
                let (right, q2) = parse_level_at(ts, q + 1, k - 1);
                match right {
                    Err(e) => {
                        return (Err(e), q2);
                    },
                    Ok(r) => {
                        left = Expr::Binary(Box::new(left), op, Box::new(r));
                        q = q2;
                    },
                }
            }
            (Ok(left), q)
        },
    }
}

fn parse_unary_at(ts: &Vec<Token>, p: usize) -> (r: (Result<Expr, ParseError>, usize))
    requires
        well_formed(ts@),
        p < ts@.len(),
    ensures
        p <= r.1 < ts@.len(),
        result_view(r.0) == parse_unary(ts@, p as int).result,
        r.1 == parse_unary(ts@, p as int).next,
    decreases ts@.len() - p, 0nat, 1nat,
{
    if check_at(ts, p, TokenType::Bang) || check_at(ts, p, TokenType::Minus) {
        let op = ts[p].copy();
        let (operand, q) = parse_unary_at(ts, p + 1);
        match operand {
            Ok(e) => (Ok(Expr::Unary(op, Box::new(e))), q),
            Err(x) => (Err(x), q),
        }
    } else {
        parse_primary_at(ts, p)
    }
}

fn parse_primary_at(ts: &Vec<Token>, p: usize) -> (r: (Result<Expr, ParseError>, usize))
    requires
        well_formed(ts@),
        p < ts@.len(),
    ensures
        p <= r.1 < ts@.len(),
        result_view(r.0) == parse_primary(ts@, p as int).result,
        r.1 == parse_primary(ts@, p as int).next,
    decreases ts@.len() - p, 0nat, 0nat,
{
    if check_at(ts, p, TokenType::False) {
        (Ok(Expr::Literal(Object::Boolean(false))), p + 1)
    } else if check_at(ts, p, TokenType::True) {
        (Ok(Expr::Literal(Object::Boolean(true))), p + 1)
    } else if check_at(ts, p, TokenType::Nil) {
        (Ok(Expr::Literal(Object::Nil)), p + 1)
    } else if check_at(ts, p, TokenType::Number) {
        (Ok(Expr::Literal(Object::Number(ts[p].lexeme.clone()))), p + 1)
    } else if check_at(ts, p, TokenType::String) {
        (Ok(Expr::Literal(Object::String(string_contents(&ts[p].lexeme)))), p + 1)
    } else if check_at(ts, p, TokenType::LeftParen) {
        let (inner, q) = parse_level_at(ts, p + 1, 4);
        match inner {
            Ok(e) => {
                if check_at(ts, q, TokenType::RightParen) {
                    (Ok(Expr::Grouping(Box::new(e))), q + 1)
                } else {
                    fail(ts, q, "Expect ')' after expression.")
                }
            },
            Err(x) => (Err(x), q),
        }
    } else {
        fail(ts, p, "Expect expression.")
    }
}

pub open spec fn stmt_result_view(r: Result<Stmt, ParseError>) -> Result<StmtView, ParseErrorView> {
    match r {
        Ok(s) => Ok(s@),
        Err(x) => Err(x@),
    }
}

fn parse_statement_at(ts: &Vec<Token>, p: usize) -> (r: (Result<Stmt, ParseError>, usize))
    requires
        well_formed(ts@),
        p < ts@.len(),
    ensures
        p <= r.1 < ts@.len(),
        r.0 is Ok ==> p < r.1,
        stmt_result_view(r.0) == parse_statement(ts@, p as int).result,
        r.1 == parse_statement(ts@, p as int).next,
{
    let is_print = check_at(ts, p, TokenType::Print);
    let start = if is_print {
        p + 1
    } else {
        p
    };
    let (e, q) = parse_level_at(ts, start, 4);
    match e {
        Err(x) => (Err(x), q),
        Ok(v) => {
            if check_at(ts, q, TokenType::Semicolon) {
                if is_print {
                    (Ok(Stmt::Print(Box::new(v))), q + 1)
                } else {
                    (Ok(Stmt::Expression(Box::new(v))), q + 1)
                }
            } else {
                (Err(ParseError::new(ts[q].copy(), "Expect ';' after value.".to_string())), q)
            }
        },
    }
}

fn begins_statement(t: TokenType) -> (r: bool)
    ensures
        r == starts_statement(t),
{
    t == TokenType::For || t == TokenType::Class || t == TokenType::Fn || t == TokenType::Var || t
        == TokenType::If || t == TokenType::While || t == TokenType::Print || t == TokenType::Return
}

fn synchronize_at(ts: &Vec<Token>, p: usize) -> (r: usize)
    requires
        well_formed(ts@),
        p < ts@.len(),
    ensures
        r == synchronize(ts@, p as int),
        p <= r < ts@.len(),
        !at_end(ts@, p as int) ==> p < r,
{
    if at_eof(ts[p].token_type) || p >= ts.len() - 1 {
        return p;
    }
    let mut q = p + 1;
    while q < ts.len() - 1 && !at_eof(ts[q].token_type) && ts[q - 1].token_type
        != TokenType::Semicolon && !begins_statement(ts[q].token_type)
        invariant
            well_formed(ts@),
            p < q < ts@.len(),
            skip_from(ts@, q as int) == skip_from(ts@, p + 1),
        decreases ts@.len() - q,
    {
        q += 1;
    }
    q
}

pub open spec fn views_of_stmts(v: Seq<Stmt>) -> Seq<StmtView> {
    v.map_values(|s: Stmt| s@)
}

pub open spec fn views_of_errors(v: Seq<ParseError>) -> Seq<ParseErrorView> {
    v.map_values(|e: ParseError| e@)
}

/// Where on its line an error at token `t` stands, as a report shows it.
pub open spec fn place_of(t: TokenView) -> Seq<char> {
    if t.token_type == TokenType::EOF {
        " at end"@
    } else {
        " at '"@ + t.lexeme + "'"@
    }
}

/// `d` is the diagnostic of the syntax error `e`: its token's line, its
/// place and its message.
pub open spec fn diagnoses(d: Error, e: ParseErrorView) -> bool {
    &&& d.line == e.token.line
    &&& d.place@ == place_of(e.token)
    &&& d.message@ == e.message
}

impl ParseError {
    pub fn place(&self) -> (r: String)
        ensures
            r@ == place_of(self.token@),
    {
        if at_eof(self.token.token_type) {
            " at end".to_string()
        } else {
            let mut out = " at '".to_string();
            out.append(self.token.lexeme.as_str());
            out.append("'");
            out
        }
    }

    pub fn copy(&self) -> (r: ParseError)
        ensures
            r == *self,
    {
        ParseError { token: self.token.copy(), message: self.message.clone() }
    }
}

/// Turns a token sequence into statements.
pub trait Parse: Sized {
    /// The parser can run.
    spec fn ready(&self) -> bool;

    /// The statements and the syntax errors that parsing from the current
    /// position to the end of input yields.
    spec fn remaining(&self) -> Program;

    /// The syntax errors recorded so far, in order.
    spec fn recorded(&self) -> Seq<ParseErrorView>;

    /// Parses statements up to the end of input. A statement with a syntax
    /// error gives no statement but one recorded error.
    fn parse(&mut self) -> (r: Vec<Stmt>)
        requires
            old(self).ready(),
        ensures
            final(self).ready(),
            views_of_stmts(r@) == old(self).remaining().stmts,
            final(self).recorded() == old(self).recorded() + old(self).remaining().errors,
            final(self).remaining().stmts.len() == 0,
            final(self).remaining().errors.len() == 0,
    ;
}

/// A recursive-descent parser over one token sequence; it records each
/// syntax error and goes on at the next statement.
pub struct Parser {
    tokens: Vec<Token>,
    current: usize,
    errors: Vec<ParseError>,
}

impl Parser {
    pub closed spec fn spec_tokens(&self) -> Seq<Token> {
        self.tokens@
    }

    /// The position of the next token to read.
    pub closed spec fn position(&self) -> int {
        self.current as int
    }

    /// The syntax errors recorded so far, in order.
    pub closed spec fn spec_errors(&self) -> Seq<ParseErrorView> {
        views_of_errors(self.errors@)
    }

    pub closed spec fn wf(&self) -> bool {
        &&& well_formed(self.tokens@)
        &&& self.current < self.tokens@.len()
    }

    pub fn new(tokens: Tokens) -> (r: Parser)
        requires
            well_formed(tokens.0@),
        ensures
            r.wf(),
            r.spec_tokens() == tokens.0@,
            r.position() == 0,
            r.spec_errors().len() == 0,
    {
        let r = Parser { tokens: tokens.0, current: 0, errors: Vec::new() };
        assert(r.spec_errors() =~= Seq::<ParseErrorView>::empty());
        r
    }

    /// Parses one expression from the current position. On a syntax error the
    /// error is recorded and returned, and the parser moves on to the next
    /// statement.
    pub fn expression(&mut self) -> (r: Result<Expr, ParseError>)
        requires
            old(self).wf(),
        ensures
            final(self).wf(),
            final(self).spec_tokens() == old(self).spec_tokens(),
            result_view(r) == parse_level(
                old(self).spec_tokens(),
                old(self).position(),
                top_level(),
            ).result,
            ({
                let e = parse_level(old(self).spec_tokens(), old(self).position(), top_level());
                match e.result {
                    Ok(_) => final(self).position() == e.next && final(self).spec_errors() == old(
                        self,
                    ).spec_errors(),
                    Err(x) => final(self).position() == synchronize(
                        old(self).spec_tokens(),
                        e.next,
                    ) && final(self).spec_errors() == old(self).spec_errors().push(x),
                }
            }),
    {
        let (e, q) = parse_level_at(&self.tokens, self.current, 4);
        match e {
            Ok(v) => {
                self.current = q;
                Ok(v)
            },
            Err(x) => {
                self.errors.push(x.copy());
                proof {
                    assert(self.spec_errors() =~= old(self).spec_errors().push(x@));
                }
                self.current = synchronize_at(&self.tokens, q);
                Err(x)
            },
        }
    }

    /// Whether the next token is of kind `token_type`; never at end of input.
    pub fn check(&self, token_type: TokenType) -> (r: bool)
        requires
            self.wf(),
        ensures
            r == checks(self.spec_tokens(), self.position(), token_type),
    {
        check_at(&self.tokens, self.current, token_type)
    }

    /// Records each syntax error found so far in `lox`, in order.
    pub fn report_to(&self, lox: &mut Lox)
        requires
            old(lox).wf(),
        ensures
            final(lox).wf(),
            final(lox).errors@.len() == old(lox).errors@.len() + self.spec_errors().len(),
            final(lox).errors@.take(old(lox).errors@.len() as int) == old(lox).errors@,
            forall|i: int|
                0 <= i < self.spec_errors().len() ==> diagnoses(
                    #[trigger] final(lox).errors@[old(lox).errors@.len() + i],
                    self.spec_errors()[i],
                ),
    {
        let ghost start = lox.errors@.len();
        let mut i: usize = 0;
        while i < self.errors.len()
            invariant
                lox.wf(),
                i <= self.errors@.len(),
                start == old(lox).errors@.len(),
                lox.errors@.len() == start + i,
                lox.errors@.take(start as int) == old(lox).errors@,
                forall|j: int|
                    0 <= j < i ==> diagnoses(
                        #[trigger] lox.errors@[start + j],
                        self.errors@[j]@,
                    ),
            decreases self.errors@.len() - i,
        {
            let e = &self.errors[i];
            let ghost before = lox.errors@;
            lox.report(e.token.line, e.place(), e.message.clone());
            proof {
                assert(lox.errors@.take(start as int) =~= before.take(start as int));
                assert forall|j: int| 0 <= j < i + 1 implies diagnoses(
                    #[trigger] lox.errors@[start + j],
                    self.errors@[j]@,
                ) by {
                    if j < i {
                        assert(lox.errors@[start + j] == before[start + j]);
                    }
                }
            }
            i += 1;
        }
    }

    pub fn errors(&self) -> (r: &Vec<ParseError>)
        ensures
            views_of_errors(r@) == self.spec_errors(),
    {
        &self.errors
    }
}

impl Parse for Parser {
    open spec fn ready(&self) -> bool {
        self.wf()
    }

    open spec fn remaining(&self) -> Program {
        parse_from(self.spec_tokens(), self.position())
    }

    open spec fn recorded(&self) -> Seq<ParseErrorView> {
        self.spec_errors()
    }

    fn parse(&mut self) -> (r: Vec<Stmt>)
    {
        let ghost ts = self.tokens@;
        let ghost start = self.current as int;
        let mut stmts: Vec<Stmt> = Vec::new();
        while !at_eof(self.tokens[self.current].token_type)
            invariant
                self.wf(),
                self.tokens@ == ts,
                views_of_stmts(stmts@) + parse_from(ts, self.current as int).stmts == parse_from(
                    ts,
                    start,
                ).stmts,
                self.spec_errors() + parse_from(ts, self.current as int).errors == old(
                    self,
                ).spec_errors() + parse_from(ts, start).errors,
            decreases ts.len() - self.current,
        {
            let ghost p = self.current as int;
            let ghost old_stmts = views_of_stmts(stmts@);
            let ghost old_errors = self.spec_errors();
            let (s, q) = parse_statement_at(&self.tokens, self.current);
            match s {
                Ok(st) => {
                    let ghost sv = st@;
                    stmts.push(st);
                    self.current = q;
                    proof {
                        assert(p < q);
                        assert(parse_statement(ts, p).result == Ok::<StmtView, ParseErrorView>(sv));
                        let rest = parse_from(ts, q as int);
                        assert(views_of_stmts(stmts@) =~= old_stmts.push(sv));
                        assert(views_of_stmts(stmts@) + rest.stmts =~= old_stmts + (seq![sv]
                            + rest.stmts));
                    }
                },
                Err(e) => {
                    let ghost ev = e@;
                    self.errors.push(e);
                    self.current = synchronize_at(&self.tokens, q);
                    proof {
                        assert(!at_end(ts, p));
                        if at_end(ts, q as int) {
                            assert(q as int != p);
                        }
                        assert(p < self.current);
                        let rest = parse_from(ts, self.current as int);
                        assert(self.spec_errors() =~= old_errors.push(ev));
                        assert(self.spec_errors() + rest.errors =~= old_errors + (seq![ev]
                            + rest.errors));
                    }
                },
            }
        }
        proof {
            assert(views_of_stmts(stmts@) =~= views_of_stmts(stmts@) + parse_from(
                ts,
                self.current as int,
            ).stmts);
            assert(self.spec_errors() =~= self.spec_errors() + parse_from(
                ts,
                self.current as int,
            ).errors);
        }
        stmts
    }
}

} // verus!
