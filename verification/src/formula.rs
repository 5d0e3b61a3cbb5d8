//! Formula syntax: tokens, the expression tree and its parser.
//!
//! A formula is an arithmetic expression over numbers, identifiers, record fields
//! (`base.field`) and function calls, with `+ - * / ^`, unary signs and parentheses.
//! Spans are byte offsets into the source text.

use vstd::prelude::*;
use vstd::string::*;
use crate::strings::{decimal, decimal_text, push_char};
use crate::decimal::{digits_end, digits_end_of, is_digit_byte, is_finite_literal, literal_is_finite};

verus! {

/// A half-open byte range of the source text.
#[derive(Clone, Copy, Debug, PartialEq, Eq, Structural)]
pub struct Span {
    pub start: usize,
    pub end: usize,
}

#[derive(Clone, Copy, Debug, PartialEq, Eq, Structural)]
pub enum UnaryOp {
    Plus,
    Minus,
}

#[derive(Clone, Copy, Debug, PartialEq, Eq, Structural)]
pub enum BinaryOp {
    Add,
    Subtract,
    Multiply,
    Divide,
    Power,
}

/// The kinds of tokens of the formula language.
#[derive(Clone, Copy, Debug, PartialEq, Eq, Structural)]
pub enum TokenKind {
    Number,
    Identifier,
    LParen,
    RParen,
    Comma,
    Dot,
    Plus,
    Minus,
    Times,
    Divide,
    Caret,
    /// Any other character; no rule of the grammar accepts it.
    Unknown,
}

/// A token and the bytes it covers.
#[derive(Clone, Copy, Debug, PartialEq, Eq)]
pub struct Token {
    pub kind: TokenKind,
    pub start: usize,
    pub end: usize,
}

pub open spec fn is_space_byte(c: u8) -> bool {
    c == 32 || c == 9 || c == 13 || c == 10
}

pub open spec fn is_alpha_byte(c: u8) -> bool {
    (65 <= c && c <= 90) || (97 <= c && c <= 122) || c == 95
}

pub open spec fn is_word_byte(c: u8) -> bool {
    is_alpha_byte(c) || is_digit_byte(c)
}

/// The index of the first non-whitespace byte at or after `i`.
pub open spec fn skip_space(s: Seq<u8>, i: int) -> int
    decreases s.len() - i,
{
    if 0 <= i < s.len() && is_space_byte(s[i]) {
        skip_space(s, i + 1)
    } else {
        i
    }
}

/// The index after the identifier characters that start at `i`.
pub open spec fn word_end(s: Seq<u8>, i: int) -> int
    decreases s.len() - i,
{
    if 0 <= i < s.len() && is_word_byte(s[i]) {
        word_end(s, i + 1)
    } else {
        i
    }
}

/// The end of a number literal starting at `i`: `digits[.digits*]` or `.digits`,
/// then an exponent `(e|E)[+|-]digits` when digits follow the marker.
pub open spec fn number_end(s: Seq<u8>, i: int) -> int {
    let a = digits_end(s, i);
    let b = if a < s.len() && s[a] == 46 { digits_end(s, a + 1) } else { a };
    if b < s.len() && (s[b] == 101 || s[b] == 69) {
        let c = if b + 1 < s.len() && (s[b + 1] == 43 || s[b + 1] == 45) { b + 2 } else { b + 1 };
        let d = digits_end(s, c);
        if d > c { d } else { b }
    } else {
        b
    }
}

/// Whether a number literal starts at `i`.
pub open spec fn starts_number(s: Seq<u8>, i: int) -> bool {
    0 <= i < s.len() && (is_digit_byte(s[i]) || (s[i] == 46 && i + 1 < s.len() && is_digit_byte(s[i + 1])))
}

/// The kind of the single-character token `c`.
pub open spec fn punctuation(c: u8) -> TokenKind {
    if c == 40 {
        TokenKind::LParen
    } else if c == 41 {
        TokenKind::RParen
    } else if c == 44 {
        TokenKind::Comma
    } else if c == 46 {
        TokenKind::Dot
    } else if c == 43 {
        TokenKind::Plus
    } else if c == 45 {
        TokenKind::Minus
    } else if c == 42 {
        TokenKind::Times
    } else if c == 47 {
        TokenKind::Divide
    } else if c == 94 {
        TokenKind::Caret
    } else {
        TokenKind::Unknown
    }
}

/// The token that starts at `i`, which is not whitespace.
pub open spec fn token_at(s: Seq<u8>, i: int) -> Token {
    if starts_number(s, i) {
        Token { kind: TokenKind::Number, start: i as usize, end: number_end(s, i) as usize }
    } else if is_alpha_byte(s[i]) {
        Token { kind: TokenKind::Identifier, start: i as usize, end: word_end(s, i) as usize }
    } else {
        Token { kind: punctuation(s[i]), start: i as usize, end: (i + 1) as usize }
    }
}

/// The tokens of `s` from byte `i` on; whitespace separates tokens.
pub open spec fn tokens_from(s: Seq<u8>, i: int) -> Seq<Token>
    decreases s.len() - i,
{
    let j = skip_space(s, i);
    if 0 <= i <= j < s.len() {
        let t = token_at(s, j);
        if j < t.end <= s.len() {
            seq![t] + tokens_from(s, t.end as int)
        } else {
            seq![]
        }
    } else {
        seq![]
    }
}

pub open spec fn tokens(s: Seq<u8>) -> Seq<Token> {
    tokens_from(s, 0)
}


fn skip_space_of(s: &[u8], i: usize) -> (r: usize)
    requires
        i <= s.len(),
    ensures
        r as int == skip_space(s@, i as int),
        i <= r <= s.len(),
{
    let mut j = i;
    while j < s.len() && (s[j] == 32 || s[j] == 9 || s[j] == 13 || s[j] == 10)
        invariant
            i <= j <= s.len(),
            skip_space(s@, i as int) == skip_space(s@, j as int),
        decreases s.len() - j,
    {
        j = j + 1;
    }
    j
}

fn word_end_of(s: &[u8], i: usize) -> (r: usize)
    requires
        i <= s.len(),
    ensures
        r as int == word_end(s@, i as int),
        i <= r <= s.len(),
{
    let mut j = i;
    while j < s.len() && ((65 <= s[j] && s[j] <= 90) || (97 <= s[j] && s[j] <= 122) || s[j] == 95
        || (48 <= s[j] && s[j] <= 57))
        invariant
            i <= j <= s.len(),
            word_end(s@, i as int) == word_end(s@, j as int),
        decreases s.len() - j,
    {
        j = j + 1;
    }
    j
}

fn number_end_of(s: &[u8], i: usize) -> (r: usize)
    requires
        i <= s.len(),
    ensures
        r as int == number_end(s@, i as int),
        r <= s.len(),
{
    let a = digits_end_of(s, i);
    let b = if a < s.len() && s[a] == 46 { digits_end_of(s, a + 1) } else { a };
    if b < s.len() && (s[b] == 101 || s[b] == 69) {
        let c = if b + 1 < s.len() && (s[b + 1] == 43 || s[b + 1] == 45) { b + 2 } else { b + 1 };
        let d = digits_end_of(s, c);
        if d > c { d } else { b }
    } else {
        b
    }
}

fn punctuation_of(c: u8) -> (r: TokenKind)
    ensures
        r == punctuation(c),
{
    if c == 40 {
        TokenKind::LParen
    } else if c == 41 {
        TokenKind::RParen
    } else if c == 44 {
        TokenKind::Comma
    } else if c == 46 {
        TokenKind::Dot
    } else if c == 43 {
        TokenKind::Plus
    } else if c == 45 {
        TokenKind::Minus
    } else if c == 42 {
        TokenKind::Times
    } else if c == 47 {
        TokenKind::Divide
    } else if c == 94 {
        TokenKind::Caret
    } else {
        TokenKind::Unknown
    }
}

proof fn lemma_token_advances(s: Seq<u8>, i: int)
    requires
        0 <= i < s.len(),
        s.len() <= usize::MAX,
        !is_space_byte(s[i]),
    ensures
        i < token_at(s, i).end <= s.len(),
        token_at(s, i).start == i,
{
    crate::decimal::lemma_digits_run(s, i);
    if starts_number(s, i) {
        let a = digits_end(s, i);
        if a < s.len() && s[a] == 46 {
            crate::decimal::lemma_digits_run(s, a + 1);
        }
        let b = if a < s.len() && s[a] == 46 { digits_end(s, a + 1) } else { a };
        if b + 1 < s.len() {
            crate::decimal::lemma_digits_run(s, b + 2);
        }
        if b < s.len() {
            crate::decimal::lemma_digits_run(s, b + 1);
        }
    } else if is_alpha_byte(s[i]) {
        lemma_word_run(s, i);
    }
}

proof fn lemma_skip_space(s: Seq<u8>, i: int)
    requires
        0 <= i <= s.len(),
    ensures
        i <= skip_space(s, i) <= s.len(),
        skip_space(s, i) < s.len() ==> !is_space_byte(s[skip_space(s, i)]),
    decreases s.len() - i,
{
    if i < s.len() && is_space_byte(s[i]) {
        lemma_skip_space(s, i + 1);
    }
}

proof fn lemma_word_run(s: Seq<u8>, i: int)
    requires
        0 <= i <= s.len(),
    ensures
        i <= word_end(s, i) <= s.len(),
        i < s.len() && is_word_byte(s[i]) ==> i < word_end(s, i),
    decreases s.len() - i,
{
    if i < s.len() && is_word_byte(s[i]) {
        lemma_word_run(s, i + 1);
    }
}

/// Splits a formula's bytes into tokens.
pub fn lex(s: &[u8]) -> (r: Vec<Token>)
    ensures
        r@ == tokens(s@),
{
    let mut r: Vec<Token> = Vec::new();
    let mut i: usize = 0;
    while i < s.len()
        invariant
            i <= s.len(),
            r@ + tokens_from(s@, i as int) == tokens(s@),
        decreases s.len() - i,
    {
        let j = skip_space_of(s, i);
        if j == s.len() {
            assert(tokens_from(s@, i as int) == Seq::<Token>::empty());
            i = j;
        } else {
            proof {
                lemma_skip_space(s@, i as int);
                lemma_token_advances(s@, j as int);
            }
            let c = s[j];
            let t = if (48 <= c && c <= 57) || (c == 46 && j + 1 < s.len() && 48 <= s[j + 1] && s[j + 1] <= 57) {
                Token { kind: TokenKind::Number, start: j, end: number_end_of(s, j) }
            } else if (65 <= c && c <= 90) || (97 <= c && c <= 122) || c == 95 {
                Token { kind: TokenKind::Identifier, start: j, end: word_end_of(s, j) }
            } else {
                Token { kind: punctuation_of(c), start: j, end: j + 1 }
            };
            assert(t == token_at(s@, j as int));
            assert(tokens_from(s@, i as int) == seq![t] + tokens_from(s@, t.end as int));
            r.push(t);
            assert(r@ + tokens_from(s@, t.end as int) == tokens(s@));
            i = t.end;
        }
    }
    assert(tokens_from(s@, i as int) == Seq::<Token>::empty());
    assert(r@ + Seq::<Token>::empty() == r@);
    r
}


/// What a parse error says was expected at its position.
#[derive(Clone, Copy, Debug, PartialEq, Eq, Structural)]
pub enum Expected {
    Number,
    Identifier,
    LParen,
    RParen,
    Comma,
    Dot,
    Plus,
    Minus,
    Times,
    Divide,
    Power,
    End,
}

/// The mathematical shape of a parsed expression.
pub enum Shape {
    Number(Seq<char>),
    Variable(Seq<char>),
    Field(Seq<char>, Seq<char>),
    Unary(UnaryOp, Box<Node>),
    Binary(BinaryOp, Box<Node>, Box<Node>),
    Call(Seq<char>, Seq<Node>),
    Grouped(Box<Node>),
}

/// A parsed expression with the byte range it covers.
pub struct Node {
    pub shape: Shape,
    pub start: int,
    pub end: int,
}

/// A successful parse step gives a tree and the index of the next token; a failed
/// one the index of the offending token and what was expected there.
pub type Step = Result<(Node, int), (int, Seq<Expected>)>;

/// The text of the bytes `a..b` (which hold ASCII characters).
pub open spec fn text(s: Seq<u8>, a: int, b: int) -> Seq<char> {
    s.subrange(a, b).map_values(|c: u8| c as char)
}

pub open spec fn is_kind(ts: Seq<Token>, i: int, k: TokenKind) -> bool {
    0 <= i < ts.len() && ts[i].kind == k
}

/// What may begin an operand.
pub open spec fn operand_expected() -> Seq<Expected> {
    seq![Expected::Number, Expected::Identifier, Expected::LParen, Expected::Plus, Expected::Minus]
}

/// What may follow a complete operand.
pub open spec fn operator_expected() -> Seq<Expected> {
    seq![Expected::Power, Expected::Times, Expected::Divide, Expected::Plus, Expected::Minus]
}

/// `sum := product (('+' | '-') product)*`, left associative.
pub open spec fn parse_sum(s: Seq<u8>, ts: Seq<Token>, i: int) -> Step
    decreases ts.len() - i, 5int,
{
    match parse_product(s, ts, i) {
        Ok((left, j)) => if i < j <= ts.len() {
            parse_sum_rest(s, ts, j, left)
        } else {
            Err((j, seq![]))
        },
        Err(e) => Err(e),
    }
}

pub open spec fn parse_sum_rest(s: Seq<u8>, ts: Seq<Token>, j: int, left: Node) -> Step
    decreases ts.len() - j, 5int,
{
    if is_kind(ts, j, TokenKind::Plus) || is_kind(ts, j, TokenKind::Minus) {
        let op = if is_kind(ts, j, TokenKind::Plus) { BinaryOp::Add } else { BinaryOp::Subtract };
        match parse_product(s, ts, j + 1) {
            Ok((right, k)) => if j + 1 < k <= ts.len() {
                let start = left.start;
                let end = right.end;
                parse_sum_rest(
                    s,
                    ts,
                    k,
                    Node { shape: Shape::Binary(op, Box::new(left), Box::new(right)), start, end },
                )
            } else {
                Err((k, seq![]))
            },
            Err(e) => Err(e),
        }
    } else {
        Ok((left, j))
    }
}

/// `product := unary (('*' | '/') unary)*`, left associative.
pub open spec fn parse_product(s: Seq<u8>, ts: Seq<Token>, i: int) -> Step
    decreases ts.len() - i, 4int,
{
    match parse_unary(s, ts, i) {
        Ok((left, j)) => if i < j <= ts.len() {
            parse_product_rest(s, ts, j, left)
        } else {
            Err((j, seq![]))
        },
        Err(e) => Err(e),
    }
}

pub open spec fn parse_product_rest(s: Seq<u8>, ts: Seq<Token>, j: int, left: Node) -> Step
    decreases ts.len() - j, 4int,
{
    if is_kind(ts, j, TokenKind::Times) || is_kind(ts, j, TokenKind::Divide) {
        let op = if is_kind(ts, j, TokenKind::Times) { BinaryOp::Multiply } else { BinaryOp::Divide };
        match parse_unary(s, ts, j + 1) {
            Ok((right, k)) => if j + 1 < k <= ts.len() {
                let start = left.start;
                let end = right.end;
                parse_product_rest(
                    s,
                    ts,
                    k,
                    Node { shape: Shape::Binary(op, Box::new(left), Box::new(right)), start, end },
                )
            } else {
                Err((k, seq![]))
            },
            Err(e) => Err(e),
        }
    } else {
        Ok((left, j))
    }
}

/// `unary := ('+' | '-')* power`; the sign binds looser than `^`.
pub open spec fn parse_unary(s: Seq<u8>, ts: Seq<Token>, i: int) -> Step
    decreases ts.len() - i, 3int,
{
    if is_kind(ts, i, TokenKind::Plus) || is_kind(ts, i, TokenKind::Minus) {
        let op = if is_kind(ts, i, TokenKind::Plus) { UnaryOp::Plus } else { UnaryOp::Minus };
        match parse_unary(s, ts, i + 1) {
            Ok((operand, k)) => {
                let start = ts[i].start as int;
                let end = operand.end;
                Ok((Node { shape: Shape::Unary(op, Box::new(operand)), start, end }, k))
            },
            Err(e) => Err(e),
        }
    } else {
        parse_power(s, ts, i)
    }
}

/// `power := primary ('^' unary)?`, so `^` is right associative.
pub open spec fn parse_power(s: Seq<u8>, ts: Seq<Token>, i: int) -> Step
    decreases ts.len() - i, 2int,
{
    match parse_primary(s, ts, i) {
        Ok((left, j)) => if i < j <= ts.len() {
            if is_kind(ts, j, TokenKind::Caret) {
                match parse_unary(s, ts, j + 1) {
                    Ok((right, k)) => {
                        let start = left.start;
                        let end = right.end;
                        Ok((
                            Node {
                                shape: Shape::Binary(BinaryOp::Power, Box::new(left), Box::new(right)),
                                start,
                                end,
                            },
                            k,
                        ))
                    },
                    Err(e) => Err(e),
                }
            } else {
                Ok((left, j))
            }
        } else {
            Err((j, seq![]))
        },
        Err(e) => Err(e),
    }
}

/// `primary := number | name '(' arguments ')' | name '.' name | name | '(' sum ')'`.
pub open spec fn parse_primary(s: Seq<u8>, ts: Seq<Token>, i: int) -> Step
    decreases ts.len() - i, 1int,
{
    if is_kind(ts, i, TokenKind::Number) {
        let t = ts[i];
        Ok((Node { shape: Shape::Number(text(s, t.start as int, t.end as int)), start: t.start as int, end: t.end as int }, i + 1))
    } else if is_kind(ts, i, TokenKind::Identifier) {
        let t = ts[i];
        let name = text(s, t.start as int, t.end as int);
        if is_kind(ts, i + 1, TokenKind::LParen) {
            parse_arguments(s, ts, i + 2, name, t.start as int, seq![])
        } else if is_kind(ts, i + 1, TokenKind::Dot) && is_kind(ts, i + 2, TokenKind::Identifier) {
            let m = ts[i + 2];
            Ok((
                Node {
                    shape: Shape::Field(name, text(s, m.start as int, m.end as int)),
                    start: t.start as int,
                    end: m.end as int,
                },
                i + 3,
            ))
        } else {
            Ok((Node { shape: Shape::Variable(name), start: t.start as int, end: t.end as int }, i + 1))
        }
    } else if is_kind(ts, i, TokenKind::LParen) {
        match parse_sum(s, ts, i + 1) {
            Ok((inner, j)) => if is_kind(ts, j, TokenKind::RParen) {
                Ok((
                    Node {
                        shape: Shape::Grouped(Box::new(inner)),
                        start: ts[i].start as int,
                        end: ts[j].end as int,
                    },
                    j + 1,
                ))
            } else {
                Err((j, operator_expected().push(Expected::RParen)))
            },
            Err(e) => Err(e),
        }
    } else {
        Err((i, operand_expected()))
    }
}

/// The arguments of a call after its `(`: none, or sums separated by `,`, then `)`.
pub open spec fn parse_arguments(
    s: Seq<u8>,
    ts: Seq<Token>,
    i: int,
    name: Seq<char>,
    start: int,
    args: Seq<Node>,
) -> Step
    decreases ts.len() - i, 7int,
{
    if args.len() == 0 && is_kind(ts, i, TokenKind::RParen) {
        Ok((Node { shape: Shape::Call(name, args), start, end: ts[i].end as int }, i + 1))
    } else {
        match parse_sum(s, ts, i) {
            Ok((arg, j)) => if i < j <= ts.len() {
                if is_kind(ts, j, TokenKind::Comma) {
                    parse_arguments(s, ts, j + 1, name, start, args.push(arg))
                } else if is_kind(ts, j, TokenKind::RParen) {
                    Ok((Node { shape: Shape::Call(name, args.push(arg)), start, end: ts[j].end as int }, j + 1))
                } else {
                    Err((j, operator_expected().push(Expected::Comma).push(Expected::RParen)))
                }
            } else {
                Err((j, seq![]))
            },
            Err(e) => Err(e),
        }
    }
}

/// The syntax of a whole token sequence: one sum and nothing after it.
pub open spec fn parse_tokens(s: Seq<u8>, ts: Seq<Token>) -> Result<Node, (int, Seq<Expected>)> {
    match parse_sum(s, ts, 0) {
        Ok((e, j)) => if j == ts.len() {
            Ok(e)
        } else {
            Err((j, operator_expected().push(Expected::End)))
        },
        Err(e) => Err(e),
    }
}


/// A number literal, kept as written.
#[derive(Clone, Debug, PartialEq)]
pub struct Number {
    pub lexeme: String,
}

#[derive(Debug, PartialEq)]
pub enum ExprKind {
    Number(Number),
    Variable(String),
    Field { base: String, field: String },
    Unary { op: UnaryOp, operand: Box<Expr> },
    Binary { op: BinaryOp, left: Box<Expr>, right: Box<Expr> },
    Call { name: String, args: Vec<Expr> },
    Grouped(Box<Expr>),
}

/// A parsed formula expression and the bytes of the source it covers.
#[derive(Debug, PartialEq)]
pub struct Expr {
    pub kind: ExprKind,
    pub span: Span,
}

impl Expr {
    /// The tree that this expression stands for.
    pub open spec fn node(&self) -> Node
        decreases self,
    {
        Node {
            shape: match self.kind {
                ExprKind::Number(n) => Shape::Number(n.lexeme@),
                ExprKind::Variable(name) => Shape::Variable(name@),
                ExprKind::Field { base, field } => Shape::Field(base@, field@),
                ExprKind::Unary { op, operand } => Shape::Unary(op, Box::new(operand.node())),
                ExprKind::Binary { op, left, right } => Shape::Binary(
                    op,
                    Box::new(left.node()),
                    Box::new(right.node()),
                ),
                ExprKind::Call { name, args } => Shape::Call(
                    name@,
                    Seq::new(args.len() as nat, |k: int| if 0 <= k < args.len() { args@[k].node() } else { Node { shape: Shape::Variable(seq![]), start: 0, end: 0 } }),
                ),
                ExprKind::Grouped(inner) => Shape::Grouped(Box::new(inner.node())),
            },
            start: self.span.start as int,
            end: self.span.end as int,
        }
    }
}

fn text_of(s: &[u8], a: usize, b: usize) -> (r: String)
    requires
        a <= b <= s.len(),
    ensures
        r@ == text(s@, a as int, b as int),
{
    let mut r = String::new();
    let mut k = a;
    while k < b
        invariant
            a <= k <= b <= s.len(),
            r@ == text(s@, a as int, k as int),
        decreases b - k,
    {
        let c = s[k] as char;
        push_char(&mut r, c);
        k = k + 1;
        assert(text(s@, a as int, k as int) == text(s@, a as int, k - 1).push(c));
    }
    r
}


/// Every token lies within the source.
pub open spec fn valid_tokens(s: Seq<u8>, ts: Seq<Token>) -> bool {
    forall|k: int| 0 <= k < ts.len() ==> #[trigger] ts[k].start <= ts[k].end && ts[k].end <= s.len()
}

pub open spec fn nodes(args: Seq<Expr>) -> Seq<Node> {
    args.map_values(|e: Expr| e.node())
}

/// The outcome of a parse step as trees and token indices.
pub open spec fn step_of(r: Result<(Expr, usize), (usize, Vec<Expected>)>) -> Step {
    match r {
        Ok((e, j)) => Ok((e.node(), j as int)),
        Err((p, x)) => Err((p as int, x@)),
    }
}

/// The binary operator of `+`, `-`, `*` and `/` tokens.
pub open spec fn binary_operator_of(kind: TokenKind) -> Option<BinaryOp> {
    match kind {
        TokenKind::Plus => Some(BinaryOp::Add),
        TokenKind::Minus => Some(BinaryOp::Subtract),
        TokenKind::Times => Some(BinaryOp::Multiply),
        TokenKind::Divide => Some(BinaryOp::Divide),
        _ => None,
    }
}

pub fn binary_operator(kind: TokenKind) -> (r: Option<BinaryOp>)
    ensures
        r == binary_operator_of(kind),
{
    match kind {
        TokenKind::Plus => Some(BinaryOp::Add),
        TokenKind::Minus => Some(BinaryOp::Subtract),
        TokenKind::Times => Some(BinaryOp::Multiply),
        TokenKind::Divide => Some(BinaryOp::Divide),
        _ => None,
    }
}

fn operand_list() -> (r: Vec<Expected>)
    ensures
        r@ == operand_expected(),
{
    let r = vec![Expected::Number, Expected::Identifier, Expected::LParen, Expected::Plus, Expected::Minus];
    assert(r@ == operand_expected());
    r
}

fn operator_list() -> (r: Vec<Expected>)
    ensures
        r@ == operator_expected(),
{
    let r = vec![Expected::Power, Expected::Times, Expected::Divide, Expected::Plus, Expected::Minus];
    assert(r@ == operator_expected());
    r
}

fn has_kind(ts: &Vec<Token>, i: usize, k: TokenKind) -> (r: bool)
    ensures
        r == is_kind(ts@, i as int, k),
{
    i < ts.len() && ts[i].kind == k
}

fn sum(s: &[u8], ts: &Vec<Token>, i: usize) -> (r: Result<(Expr, usize), (usize, Vec<Expected>)>)
    requires
        valid_tokens(s@, ts@),
        i <= ts.len(),
    ensures
        step_of(r) == parse_sum(s@, ts@, i as int),
        r matches Ok((_, j)) ==> i < j <= ts.len(),
    decreases ts.len() - i, 5int,
{
    match product(s, ts, i) {
        Ok((left, j)) => if i < j && j <= ts.len() {
            sum_rest(s, ts, j, left)
        } else {
            Err((j, Vec::new()))
        },
        Err(e) => Err(e),
    }
}

fn sum_rest(s: &[u8], ts: &Vec<Token>, j: usize, left: Expr) -> (r: Result<(Expr, usize), (usize, Vec<Expected>)>)
    requires
        valid_tokens(s@, ts@),
        j <= ts.len(),
    ensures
        step_of(r) == parse_sum_rest(s@, ts@, j as int, left.node()),
        r matches Ok((_, k)) ==> j <= k <= ts.len(),
    decreases ts.len() - j, 5int,
{
    if has_kind(ts, j, TokenKind::Plus) || has_kind(ts, j, TokenKind::Minus) {
        let op = match binary_operator(ts[j].kind) {
            Some(op) => op,
            None => BinaryOp::Add,
        };
        match product(s, ts, j + 1) {
            Ok((right, k)) => if j + 1 < k && k <= ts.len() {
                let span = Span { start: left.span.start, end: right.span.end };
                let e = Expr { kind: ExprKind::Binary { op, left: Box::new(left), right: Box::new(right) }, span };
                sum_rest(s, ts, k, e)
            } else {
                Err((k, Vec::new()))
            },
            Err(e) => Err(e),
        }
    } else {
        Ok((left, j))
    }
}

fn product(s: &[u8], ts: &Vec<Token>, i: usize) -> (r: Result<(Expr, usize), (usize, Vec<Expected>)>)
    requires
        valid_tokens(s@, ts@),
        i <= ts.len(),
    ensures
        step_of(r) == parse_product(s@, ts@, i as int),
        r matches Ok((_, j)) ==> i < j <= ts.len(),
    decreases ts.len() - i, 4int,
{
    match unary(s, ts, i) {
        Ok((left, j)) => if i < j && j <= ts.len() {
            product_rest(s, ts, j, left)
        } else {
            Err((j, Vec::new()))
        },
        Err(e) => Err(e),
    }
}

fn product_rest(s: &[u8], ts: &Vec<Token>, j: usize, left: Expr) -> (r: Result<(Expr, usize), (usize, Vec<Expected>)>)
    requires
        valid_tokens(s@, ts@),
        j <= ts.len(),
    ensures
        step_of(r) == parse_product_rest(s@, ts@, j as int, left.node()),
        r matches Ok((_, k)) ==> j <= k <= ts.len(),
    decreases ts.len() - j, 4int,
{
    if has_kind(ts, j, TokenKind::Times) || has_kind(ts, j, TokenKind::Divide) {
        let op = match binary_operator(ts[j].kind) {
            Some(op) => op,
            None => BinaryOp::Multiply,
        };
        match unary(s, ts, j + 1) {
            Ok((right, k)) => if j + 1 < k && k <= ts.len() {
                let span = Span { start: left.span.start, end: right.span.end };
                let e = Expr { kind: ExprKind::Binary { op, left: Box::new(left), right: Box::new(right) }, span };
                product_rest(s, ts, k, e)
            } else {
                Err((k, Vec::new()))
            },
            Err(e) => Err(e),
        }
    } else {
        Ok((left, j))
    }
}

fn unary(s: &[u8], ts: &Vec<Token>, i: usize) -> (r: Result<(Expr, usize), (usize, Vec<Expected>)>)
    requires
        valid_tokens(s@, ts@),
        i <= ts.len(),
    ensures
        step_of(r) == parse_unary(s@, ts@, i as int),
        r matches Ok((_, j)) ==> i < j <= ts.len(),
    decreases ts.len() - i, 3int,
{
    if has_kind(ts, i, TokenKind::Plus) || has_kind(ts, i, TokenKind::Minus) {
        let op = if has_kind(ts, i, TokenKind::Plus) { UnaryOp::Plus } else { UnaryOp::Minus };
        match unary(s, ts, i + 1) {
            Ok((operand, k)) => {
                let span = Span { start: ts[i].start, end: operand.span.end };
                Ok((Expr { kind: ExprKind::Unary { op, operand: Box::new(operand) }, span }, k))
            },
            Err(e) => Err(e),
        }
    } else {
        power(s, ts, i)
    }
}

fn power(s: &[u8], ts: &Vec<Token>, i: usize) -> (r: Result<(Expr, usize), (usize, Vec<Expected>)>)
    requires
        valid_tokens(s@, ts@),
        i <= ts.len(),
    ensures
        step_of(r) == parse_power(s@, ts@, i as int),
        r matches Ok((_, j)) ==> i < j <= ts.len(),
    decreases ts.len() - i, 2int,
{
    match primary(s, ts, i) {
        Ok((left, j)) => if i < j && j <= ts.len() {
            if has_kind(ts, j, TokenKind::Caret) {
                match unary(s, ts, j + 1) {
                    Ok((right, k)) => {
                        let span = Span { start: left.span.start, end: right.span.end };
                        Ok((
                            Expr {
                                kind: ExprKind::Binary { op: BinaryOp::Power, left: Box::new(left), right: Box::new(right) },
                                span,
                            },
                            k,
                        ))
                    },
                    Err(e) => Err(e),
                }
            } else {
                Ok((left, j))
            }
        } else {
            Err((j, Vec::new()))
        },
        Err(e) => Err(e),
    }
}

fn primary(s: &[u8], ts: &Vec<Token>, i: usize) -> (r: Result<(Expr, usize), (usize, Vec<Expected>)>)
    requires
        valid_tokens(s@, ts@),
        i <= ts.len(),
    ensures
        step_of(r) == parse_primary(s@, ts@, i as int),
        r matches Ok((_, j)) ==> i < j <= ts.len(),
    decreases ts.len() - i, 1int,
{
    if has_kind(ts, i, TokenKind::Number) {
        let t = ts[i];
        assert(valid_tokens(s@, ts@) && 0 <= i < ts.len());
        assert(ts@[i as int].start <= ts@[i as int].end);
        let lexeme = text_of(s, t.start, t.end);
        let e = Expr { kind: ExprKind::Number(Number { lexeme }), span: Span { start: t.start, end: t.end } };
        assert(t == ts@[i as int]);
        assert(e.node().shape == Shape::Number(text(s@, t.start as int, t.end as int)));
        assert(e.node().start == t.start as int);
        let r = Ok((e, i + 1));
        assert(step_of(r) == parse_primary(s@, ts@, i as int));
        r
    } else if has_kind(ts, i, TokenKind::Identifier) {
        let t = ts[i];
        assert(ts@[i as int].start <= ts@[i as int].end);
        let name = text_of(s, t.start, t.end);
        if has_kind(ts, i + 1, TokenKind::LParen) {
            let args: Vec<Expr> = Vec::new();
            assert(nodes(args@) =~= Seq::<Node>::empty());
            arguments(s, ts, i + 2, name, t.start, args)
        } else if has_kind(ts, i + 1, TokenKind::Dot) && has_kind(ts, i + 2, TokenKind::Identifier) {
            let m = ts[i + 2];
            assert(ts@[i + 2].start <= ts@[i + 2].end);
            let field = text_of(s, m.start, m.end);
            let r = Ok((Expr { kind: ExprKind::Field { base: name, field }, span: Span { start: t.start, end: m.end } }, i + 3));
            assert(step_of(r) == parse_primary(s@, ts@, i as int));
            r
        } else {
            let r = Ok((Expr { kind: ExprKind::Variable(name), span: Span { start: t.start, end: t.end } }, i + 1));
            assert(step_of(r) == parse_primary(s@, ts@, i as int));
            r
        }
    } else if has_kind(ts, i, TokenKind::LParen) {
        match sum(s, ts, i + 1) {
            Ok((inner, j)) => if has_kind(ts, j, TokenKind::RParen) {
                let span = Span { start: ts[i].start, end: ts[j].end };
                Ok((Expr { kind: ExprKind::Grouped(Box::new(inner)), span }, j + 1))
            } else {
                let mut x = operator_list();
                x.push(Expected::RParen);
                Err((j, x))
            },
            Err(e) => Err(e),
        }
    } else {
        Err((i, operand_list()))
    }
}

pub proof fn lemma_call_node(e: &Expr)
    ensures
        e.kind matches ExprKind::Call { name, args } ==> e.node().shape == Shape::Call(name@, nodes(args@)),
{
    if let ExprKind::Call { name, args } = e.kind {
        if let Shape::Call(n, a) = e.node().shape {
            assert(a =~= nodes(args@));
        }
    }
}

fn arguments(
    s: &[u8],
    ts: &Vec<Token>,
    i: usize,
    name: String,
    start: usize,
    args: Vec<Expr>,
) -> (r: Result<(Expr, usize), (usize, Vec<Expected>)>)
    requires
        valid_tokens(s@, ts@),
        i <= ts.len(),
    ensures
        step_of(r) == parse_arguments(s@, ts@, i as int, name@, start as int, nodes(args@)),
        r matches Ok((_, j)) ==> i < j <= ts.len(),
    decreases ts.len() - i, 7int,
{
    if args.len() == 0 && has_kind(ts, i, TokenKind::RParen) {
        let span = Span { start, end: ts[i].end };
        let e = Expr { kind: ExprKind::Call { name, args }, span };
        proof {
            lemma_call_node(&e);
        }
        Ok((e, i + 1))
    } else {
        match sum(s, ts, i) {
            Ok((arg, j)) => if i < j && j <= ts.len() {
                let ghost before = nodes(args@);
                let ghost arg_node = arg.node();
                let mut args = args;
                args.push(arg);
                assert(nodes(args@) == before.push(arg_node));
                if has_kind(ts, j, TokenKind::Comma) {
                    arguments(s, ts, j + 1, name, start, args)
                } else if has_kind(ts, j, TokenKind::RParen) {
                    let span = Span { start, end: ts[j].end };
                    let e = Expr { kind: ExprKind::Call { name, args }, span };
                    proof {
                        lemma_call_node(&e);
                    }
                    Ok((e, j + 1))
                } else {
                    let mut x = operator_list();
                    x.push(Expected::Comma);
                    x.push(Expected::RParen);
                    Err((j, x))
                }
            } else {
                Err((j, Vec::new()))
            },
            Err(e) => Err(e),
        }
    }
}


/// How many bytes the UTF-8 sequence led by `c` has.
pub open spec fn utf8_width(c: u8) -> int {
    if c < 128 {
        1
    } else if c >= 240 {
        4
    } else if c >= 224 {
        3
    } else {
        2
    }
}

/// The bytes an error at token index `pos` points to: the first character of that
/// token, or the empty range at the end of the source.
pub open spec fn error_span(s: Seq<u8>, ts: Seq<Token>, pos: int) -> (int, int) {
    let start = if 0 <= pos < ts.len() { ts[pos].start as int } else { s.len() as int };
    let end = if 0 <= start < s.len() {
        if start + utf8_width(s[start]) <= s.len() { start + utf8_width(s[start]) } else { s.len() as int }
    } else {
        start
    };
    (start, end)
}

/// The index of the first number token at or after `i` whose value is not a finite
/// binary64 number.
pub open spec fn first_infinite(s: Seq<u8>, ts: Seq<Token>, i: int) -> Option<int>
    decreases ts.len() - i,
{
    if 0 <= i < ts.len() {
        if ts[i].kind == TokenKind::Number && !literal_is_finite(s.subrange(ts[i].start as int, ts[i].end as int)) {
            Some(i)
        } else {
            first_infinite(s, ts, i + 1)
        }
    } else {
        None
    }
}

/// The meaning of a formula's bytes: its tree, or the byte range and expectations of
/// the error. Syntax is checked first; then each number must be finite.
pub open spec fn parsed(s: Seq<u8>) -> Result<Node, (int, int, Seq<Expected>)> {
    let ts = tokens(s);
    match parse_tokens(s, ts) {
        Err((pos, expected)) => {
            let (a, b) = error_span(s, ts, pos);
            Err((a, b, expected))
        },
        Ok(e) => match first_infinite(s, ts, 0) {
            Some(k) => Err((ts[k].start as int, ts[k].end as int, seq![Expected::Number])),
            None => Ok(e),
        },
    }
}

/// A formula that could not be parsed.
#[derive(Clone, Debug, PartialEq, Eq)]
pub struct ParseError {
    pub location: String,
    pub span: Span,
    pub expected: Vec<Expected>,
}

/// How an expectation is named in messages.
pub open spec fn expected_text(e: Expected) -> Seq<char> {
    match e {
        Expected::Number => "a finite number"@,
        Expected::Identifier => "an identifier"@,
        Expected::LParen => "`(`"@,
        Expected::RParen => "`)`"@,
        Expected::Comma => "`,`"@,
        Expected::Dot => "`.`"@,
        Expected::Plus => "`+`"@,
        Expected::Minus => "`-`"@,
        Expected::Times => "`*`"@,
        Expected::Divide => "`/`"@,
        Expected::Power => "`^`"@,
        Expected::End => "end of expression"@,
    }
}

pub fn expected_token(e: Expected) -> (r: &'static str)
    ensures
        r@ == expected_text(e),
{
    match e {
        Expected::Number => "a finite number",
        Expected::Identifier => "an identifier",
        Expected::LParen => "`(`",
        Expected::RParen => "`)`",
        Expected::Comma => "`,`",
        Expected::Dot => "`.`",
        Expected::Plus => "`+`",
        Expected::Minus => "`-`",
        Expected::Times => "`*`",
        Expected::Divide => "`/`",
        Expected::Power => "`^`",
        Expected::End => "end of expression",
    }
}

/// The expectations joined by `" or "`.
pub open spec fn joined_expected(x: Seq<Expected>) -> Seq<char>
    decreases x.len(),
{
    if x.len() == 0 {
        seq![]
    } else if x.len() == 1 {
        expected_text(x[0])
    } else {
        joined_expected(x.drop_last()) + " or "@ + expected_text(x.last())
    }
}

/// `location:start..end: expected a or b`.
pub open spec fn error_message(location: Seq<char>, start: nat, end: nat, x: Seq<Expected>) -> Seq<char> {
    location + ":"@ + decimal(start) + ".."@ + decimal(end) + ": expected "@ + joined_expected(x)
}

impl ParseError {
    /// The message of the error, naming its location, span and expectations.
    pub fn message(&self) -> (r: String)
        ensures
            r@ == error_message(self.location@, self.span.start as nat, self.span.end as nat, self.expected@),
    {
        let mut r = self.location.clone();
        r.append(":");
        r.append(decimal_text(self.span.start).as_str());
        r.append("..");
        r.append(decimal_text(self.span.end).as_str());
        r.append(": expected ");
        let ghost head = r@;
        let mut k: usize = 0;
        while k < self.expected.len()
            invariant
                k <= self.expected.len(),
                r@ == head + joined_expected(self.expected@.take(k as int)),
            decreases self.expected.len() - k,
        {
            assert(self.expected@.take(k + 1).drop_last() == self.expected@.take(k as int));
            if k > 0 {
                r.append(" or ");
            } else {
                assert(self.expected@.take(0) =~= Seq::<Expected>::empty());
            }
            r.append(expected_token(self.expected[k]));
            k = k + 1;
        }
        assert(self.expected@.take(self.expected.len() as int) == self.expected@);
        r
    }
}

proof fn lemma_tokens_valid(s: Seq<u8>, i: int)
    requires
        0 <= i <= s.len(),
        s.len() <= usize::MAX,
    ensures
        valid_tokens(s, tokens_from(s, i)),
    decreases s.len() - i,
{
    let j = skip_space(s, i);
    lemma_skip_space(s, i);
    if 0 <= i <= j < s.len() {
        lemma_token_advances(s, j);
        let t = token_at(s, j);
        lemma_tokens_valid(s, t.end as int);
        let rest = tokens_from(s, t.end as int);
        assert(tokens_from(s, i) == seq![t] + rest);
        assert forall|k: int| 0 <= k < tokens_from(s, i).len() implies #[trigger] tokens_from(s, i)[k].start
            <= tokens_from(s, i)[k].end && tokens_from(s, i)[k].end <= s.len() by {
            if k > 0 {
                assert(tokens_from(s, i)[k] == rest[k - 1]);
            }
        }
    }
}

fn first_infinite_of(s: &[u8], ts: &Vec<Token>) -> (r: Option<usize>)
    requires
        valid_tokens(s@, ts@),
    ensures
        r matches Some(k) ==> k < ts.len() && first_infinite(s@, ts@, 0) == Some(k as int),
        r is None ==> first_infinite(s@, ts@, 0) is None,
{
    let mut i: usize = 0;
    while i < ts.len()
        invariant
            i <= ts.len(),
            valid_tokens(s@, ts@),
            first_infinite(s@, ts@, 0) == first_infinite(s@, ts@, i as int),
        decreases ts.len() - i,
    {
        let t = ts[i];
        if t.kind == TokenKind::Number {
            assert(ts@[i as int].start <= ts@[i as int].end);
            let lexeme = vstd::slice::slice_subrange(s, t.start, t.end);
            if !is_finite_literal(lexeme) {
                return Some(i);
            }
        }
        i = i + 1;
    }
    None
}

/// Parses a formula; `location` names where it was written, for the error.
pub fn parse(location: &str, source: &str) -> (r: Result<Expr, ParseError>)
    ensures
        r matches Ok(e) ==> parsed(source.spec_bytes()) == Ok::<Node, (int, int, Seq<Expected>)>(e.node()),
        r matches Err(err) ==> err.location@ == location@ && parsed(source.spec_bytes()) == Err::<
            Node,
            (int, int, Seq<Expected>),
        >((err.span.start as int, err.span.end as int, err.expected@)),
{
    let s = source.as_bytes();
    let n = s.len();
    assert(s@.len() <= usize::MAX);
    let ts = lex(s);
    proof {
        lemma_tokens_valid(s@, 0);
    }
    let location = location.to_owned();
    match sum(s, &ts, 0) {
        Ok((e, j)) => if j == ts.len() {
            match first_infinite_of(s, &ts) {
                Some(k) => {
                    let t = ts[k];
                    let expected = vec![Expected::Number];
                    assert(expected@ == seq![Expected::Number]);
                    Err(ParseError { location, span: Span { start: t.start, end: t.end }, expected })
                },
                None => Ok(e),
            }
        } else {
            let mut x = operator_list();
            x.push(Expected::End);
            Err(syntax_error(s, &ts, location, j, x))
        },
        Err((pos, x)) => Err(syntax_error(s, &ts, location, pos, x)),
    }
}

fn syntax_error(s: &[u8], ts: &Vec<Token>, location: String, pos: usize, expected: Vec<Expected>) -> (r: ParseError)
    requires
        valid_tokens(s@, ts@),
    ensures
        r.location == location,
        r.expected == expected,
        (r.span.start as int, r.span.end as int) == error_span(s@, ts@, pos as int),
{
    let start = if pos < ts.len() { ts[pos].start } else { s.len() };
    let end = if start < s.len() {
        let c = s[start];
        let w: usize = if c < 128 { 1 } else if c >= 240 { 4 } else if c >= 224 { 3 } else { 2 };
        if w <= s.len() - start { start + w } else { s.len() }
    } else {
        start
    };
    ParseError { location, span: Span { start, end }, expected }
}

/// The operator at the top of a tree, if it is a binary operation.
pub open spec fn top_operator(n: Node) -> Option<BinaryOp> {
    match n.shape {
        Shape::Binary(op, _, _) => Some(op),
        _ => None,
    }
}

pub open spec fn is_sum_operator(op: BinaryOp) -> bool {
    op == BinaryOp::Add || op == BinaryOp::Subtract
}

pub open spec fn is_product_operator(op: BinaryOp) -> bool {
    op == BinaryOp::Multiply || op == BinaryOp::Divide
}

/// Every `+`/`-` node of the tree has a right operand that is no `+`/`-` node, and every
/// `*`/`/` node a right operand that is no `+`, `-`, `*` or `/` node: operators of one
/// level are grouped from the left, and an operand grouped otherwise must have been
/// written in parentheses (a `Grouped` node).
pub open spec fn associates_left(n: Node) -> bool
    decreases n,
{
    match n.shape {
        Shape::Binary(op, left, right) => {
            &&& (is_sum_operator(op) ==> !(top_operator(*right) matches Some(o) && is_sum_operator(o)))
            &&& (is_product_operator(op) ==> !(top_operator(*right) matches Some(o) && (is_sum_operator(o)
                || is_product_operator(o))))
            &&& associates_left(*left)
            &&& associates_left(*right)
        },
        Shape::Unary(_, operand) => associates_left(*operand),
        Shape::Grouped(inner) => associates_left(*inner),
        Shape::Call(_, args) => all_associate_left(args),
        _ => true,
    }
}

pub open spec fn all_associate_left(args: Seq<Node>) -> bool
    decreases args,
{
    if args.len() == 0 {
        true
    } else {
        all_associate_left(args.drop_last()) && associates_left(args.last())
    }
}

/// Below the level of sums and products: no `+`, `-`, `*` or `/` at the top.
pub open spec fn operand_level(n: Node) -> bool {
    !(top_operator(n) matches Some(o) && (is_sum_operator(o) || is_product_operator(o)))
}

proof fn lemma_sum_associates(s: Seq<u8>, ts: Seq<Token>, i: int)
    ensures
        parse_sum(s, ts, i) matches Ok((n, _)) ==> associates_left(n),
    decreases ts.len() - i, 5int,
{
    lemma_product_associates(s, ts, i);
    match parse_product(s, ts, i) {
        Ok((left, j)) => if i < j <= ts.len() {
            lemma_sum_rest_associates(s, ts, j, left);
        },
        Err(_) => {},
    }
}

proof fn lemma_sum_rest_associates(s: Seq<u8>, ts: Seq<Token>, j: int, left: Node)
    requires
        associates_left(left),
    ensures
        parse_sum_rest(s, ts, j, left) matches Ok((n, _)) ==> associates_left(n),
    decreases ts.len() - j, 5int,
{
    if is_kind(ts, j, TokenKind::Plus) || is_kind(ts, j, TokenKind::Minus) {
        let op = if is_kind(ts, j, TokenKind::Plus) { BinaryOp::Add } else { BinaryOp::Subtract };
        lemma_product_associates(s, ts, j + 1);
        match parse_product(s, ts, j + 1) {
            Ok((right, k)) => if j + 1 < k <= ts.len() {
                let next = Node { shape: Shape::Binary(op, Box::new(left), Box::new(right)), start: left.start, end: right.end };
                assert(associates_left(next));
                lemma_sum_rest_associates(s, ts, k, next);
            },
            Err(_) => {},
        }
    }
}

proof fn lemma_product_associates(s: Seq<u8>, ts: Seq<Token>, i: int)
    ensures
        parse_product(s, ts, i) matches Ok((n, _)) ==> associates_left(n) && !(top_operator(n) matches Some(o)
            && is_sum_operator(o)),
    decreases ts.len() - i, 4int,
{
    lemma_unary_associates(s, ts, i);
    match parse_unary(s, ts, i) {
        Ok((left, j)) => if i < j <= ts.len() {
            lemma_product_rest_associates(s, ts, j, left);
        },
        Err(_) => {},
    }
}

proof fn lemma_product_rest_associates(s: Seq<u8>, ts: Seq<Token>, j: int, left: Node)
    requires
        associates_left(left),
        !(top_operator(left) matches Some(o) && is_sum_operator(o)),
    ensures
        parse_product_rest(s, ts, j, left) matches Ok((n, _)) ==> associates_left(n) && !(top_operator(n) matches Some(o)
            && is_sum_operator(o)),
    decreases ts.len() - j, 4int,
{
    if is_kind(ts, j, TokenKind::Times) || is_kind(ts, j, TokenKind::Divide) {
        let op = if is_kind(ts, j, TokenKind::Times) { BinaryOp::Multiply } else { BinaryOp::Divide };
        lemma_unary_associates(s, ts, j + 1);
        match parse_unary(s, ts, j + 1) {
            Ok((right, k)) => if j + 1 < k <= ts.len() {
                let next = Node { shape: Shape::Binary(op, Box::new(left), Box::new(right)), start: left.start, end: right.end };
                assert(associates_left(next));
                lemma_product_rest_associates(s, ts, k, next);
            },
            Err(_) => {},
        }
    }
}

proof fn lemma_unary_associates(s: Seq<u8>, ts: Seq<Token>, i: int)
    ensures
        parse_unary(s, ts, i) matches Ok((n, _)) ==> associates_left(n) && operand_level(n),
    decreases ts.len() - i, 3int,
{
    if is_kind(ts, i, TokenKind::Plus) || is_kind(ts, i, TokenKind::Minus) {
        lemma_unary_associates(s, ts, i + 1);
    } else {
        lemma_power_associates(s, ts, i);
    }
}

proof fn lemma_power_associates(s: Seq<u8>, ts: Seq<Token>, i: int)
    ensures
        parse_power(s, ts, i) matches Ok((n, _)) ==> associates_left(n) && operand_level(n),
    decreases ts.len() - i, 2int,
{
    lemma_primary_associates(s, ts, i);
    match parse_primary(s, ts, i) {
        Ok((left, j)) => if i < j <= ts.len() && is_kind(ts, j, TokenKind::Caret) {
            lemma_unary_associates(s, ts, j + 1);
        },
        Err(_) => {},
    }
}

proof fn lemma_primary_associates(s: Seq<u8>, ts: Seq<Token>, i: int)
    ensures
        parse_primary(s, ts, i) matches Ok((n, _)) ==> associates_left(n) && top_operator(n) is None,
    decreases ts.len() - i, 1int,
{
    if is_kind(ts, i, TokenKind::Number) {
    } else if is_kind(ts, i, TokenKind::Identifier) {
        let t = ts[i];
        let name = text(s, t.start as int, t.end as int);
        if is_kind(ts, i + 1, TokenKind::LParen) {
            lemma_arguments_associate(s, ts, i + 2, name, t.start as int, seq![]);
        }
    } else if is_kind(ts, i, TokenKind::LParen) {
        lemma_sum_associates(s, ts, i + 1);
    }
}

proof fn lemma_arguments_associate(s: Seq<u8>, ts: Seq<Token>, i: int, name: Seq<char>, start: int, args: Seq<Node>)
    requires
        all_associate_left(args),
    ensures
        parse_arguments(s, ts, i, name, start, args) matches Ok((n, _)) ==> associates_left(n) && top_operator(n) is None,
    decreases ts.len() - i, 7int,
{
    if args.len() == 0 && is_kind(ts, i, TokenKind::RParen) {
    } else {
        lemma_sum_associates(s, ts, i);
        match parse_sum(s, ts, i) {
            Ok((arg, j)) => if i < j <= ts.len() {
                assert(args.push(arg).drop_last() =~= args);
                assert(args.push(arg).last() == arg);
                assert(all_associate_left(args.push(arg)));
                if is_kind(ts, j, TokenKind::Comma) {
                    lemma_arguments_associate(s, ts, j + 1, name, start, args.push(arg));
                }
            },
            Err(_) => {},
        }
    }
}

/// Law: sums and products group from the left, while a power's exponent may be a signed
/// power: in every parse, the right operand of a `+` or `-` is no `+` or `-`, and the
/// right operand of a `*` or `/` is no `+`, `-`, `*` or `/`, unless written in
/// parentheses. So `a / b * c` is `(a / b) * c` and `a - b + c` is `(a - b) + c`.
pub proof fn law_sums_and_products_group_from_the_left(source: Seq<u8>)
    ensures
        parsed(source) matches Ok(n) ==> associates_left(n),
{
    lemma_sum_associates(source, tokens(source), 0);
}

} // verus!
