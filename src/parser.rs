use vstd::prelude::*;
use crate::ast::{
    exprs_view, op_of, precedence_of, rank, stmts_view, strings_view, BlockStatment, Expression,
    Op, Precedence, Program, SpecExpr, SpecStmt, Statement,
};
use crate::lexer::{lemma_token_views, lex_all, scan_all, token_views, LexError, Lexer, SpecLexError, SpecToken};
use crate::text::chars_of;
use crate::token::{Token, TokenType};

verus! {

/// Why a program could not be parsed.
#[derive(Clone, Debug, PartialEq)]
pub enum ParseError {
    /// The text could not be scanned.
    Lex(LexError),
    /// A token of one kind was required and another was found.
    Expected { expected: TokenType, found: TokenType },
    /// A token of this kind cannot start an expression.
    NoPrefix(TokenType),
    /// A number literal that is not an integer of 64 bits.
    InvalidNumber(String),
}

/// The model of a `ParseError`.
pub enum SpecParseError {
    Lex(SpecLexError),
    Expected { expected: TokenType, found: TokenType },
    NoPrefix(TokenType),
    InvalidNumber(Seq<char>),
}

impl ParseError {
    pub open spec fn view(&self) -> SpecParseError {
        match self {
            ParseError::Lex(e) => SpecParseError::Lex(e@),
            ParseError::Expected { expected, found } => SpecParseError::Expected {
                expected: *expected,
                found: *found,
            },
            ParseError::NoPrefix(t) => SpecParseError::NoPrefix(*t),
            ParseError::InvalidNumber(s) => SpecParseError::InvalidNumber(s@),
        }
    }
}

// ---------------------------------------------------------------------------
// Number literals
pub open spec fn digit_value(c: char) -> int {
    c as int - '0' as int
}

/// The value of a run of decimal digits.
pub open spec fn digits_value(s: Seq<char>) -> int
    decreases s.len(),
{
    if s.len() == 0 {
        0
    } else {
        digits_value(s.drop_last()) * 10 + digit_value(s.last())
    }
}

/// The first position at or after `i` that holds no digit (or the end).
pub open spec fn digits_end(s: Seq<char>, i: int) -> int
    decreases s.len() - i,
{
    if 0 <= i < s.len() && '0' <= s[i] <= '9' {
        digits_end(s, i + 1)
    } else {
        i
    }
}

/// The value of a number literal: digits, then optionally `.` and digits that
/// are all zero; `None` when it is not of that form or too large for an `i64`.
pub open spec fn number_value(lit: Seq<char>) -> Option<i64> {
    let k = digits_end(lit, 0);
    if k == 0 {
        None
    } else if k < lit.len() && !(lit[k] == '.' && forall|i: int|
        k < i < lit.len() ==> #[trigger] lit[i] == '0') {
        None
    } else if digits_value(lit.subrange(0, k)) > i64::MAX {
        None
    } else {
        Some(digits_value(lit.subrange(0, k)) as i64)
    }
}

proof fn lemma_digits_grow(s: Seq<char>, i: int, j: int)
    requires
        0 <= i <= j <= s.len(),
        forall|k: int| 0 <= k < j ==> '0' <= #[trigger] s[k] <= '9',
    ensures
        0 <= digits_value(s.subrange(0, i)) <= digits_value(s.subrange(0, j)),
    decreases j - i,
{
    if i < j {
        lemma_digits_grow(s, i, j - 1);
        assert(s.subrange(0, j).drop_last() =~= s.subrange(0, j - 1));
    } else {
        lemma_digits_nonneg(s.subrange(0, i));
    }
}

proof fn lemma_digits_nonneg(s: Seq<char>)
    requires
        forall|k: int| 0 <= k < s.len() ==> '0' <= #[trigger] s[k] <= '9',
    ensures
        digits_value(s) >= 0,
    decreases s.len(),
{
    if s.len() > 0 {
        lemma_digits_nonneg(s.drop_last());
    }
}

proof fn lemma_digits_end_bounds(s: Seq<char>, i: int)
    requires
        0 <= i <= s.len(),
    ensures
        i <= digits_end(s, i) <= s.len(),
        forall|k: int| i <= k < digits_end(s, i) ==> '0' <= #[trigger] s[k] <= '9',
    decreases s.len() - i,
{
    if i < s.len() && '0' <= s[i] <= '9' {
        lemma_digits_end_bounds(s, i + 1);
    }
}

proof fn lemma_digits_end(s: Seq<char>, i: int, j: int)
    requires
        0 <= i <= j <= s.len(),
        forall|k: int| i <= k < j ==> '0' <= #[trigger] s[k] <= '9',
    ensures
        digits_end(s, i) == digits_end(s, j),
    decreases j - i,
{
    if i < j {
        lemma_digits_end(s, i + 1, j);
    }
}

/// The value of a number literal, as `number_value` states it.
pub fn parse_number(lit: &Vec<char>) -> (r: Option<i64>)
    ensures
        r == number_value(lit@),
{
    let ghost s = lit@;
    let mut v: i64 = 0;
    let mut k: usize = 0;
    while k < lit.len() && '0' <= lit[k] && lit[k] <= '9'
        invariant
            s == lit@,
            k <= lit.len(),
            forall|j: int| 0 <= j < k ==> '0' <= #[trigger] s[j] <= '9',
            v == digits_value(s.subrange(0, k as int)),
            v >= 0,
            digits_end(s, 0) == digits_end(s, k as int),
        decreases lit.len() - k,
    {
        let d = (lit[k] as u32 - '0' as u32) as i64;
        assert(0 <= d <= 9);
        assert(s.subrange(0, k + 1).drop_last() =~= s.subrange(0, k as int));
        assert(digits_value(s.subrange(0, k + 1)) == v * 10 + d);
        if v > (i64::MAX - d) / 10 {
            proof {
                assert(v * 10 + d > i64::MAX) by (nonlinear_arith)
                    requires
                        v > (i64::MAX - d) / 10,
                        0 <= d <= 9,
                ;
                lemma_digits_end(s, 0, k + 1);
                lemma_digits_end_bounds(s, k + 1);
                lemma_digits_grow(s, k + 1, digits_end(s, 0));
            }
            return None;
        }
        assert(v * 10 + d <= i64::MAX) by (nonlinear_arith)
            requires
                v <= (i64::MAX - d) / 10,
                0 <= d <= 9,
                v >= 0,
        ;
        v = v * 10 + d;
        k = k + 1;
    }
    assert(digits_end(s, k as int) == k);
    if k == 0 {
        return None;
    }
    if k < lit.len() {
        if lit[k] != '.' {
            return None;
        }
        let mut i = k + 1;
        while i < lit.len()
            invariant
                s == lit@,
                k < i <= lit.len(),
                k == digits_end(s, 0),
                s[k as int] == '.',
                v == digits_value(s.subrange(0, k as int)),
                forall|j: int| k < j < i ==> #[trigger] s[j] == '0',
            decreases lit.len() - i,
        {
            if lit[i] != '0' {
                assert(s[i as int] != '0');
                return None;
            }
            i = i + 1;
        }
    }
    Some(v)
}

// ---------------------------------------------------------------------------
// The grammar, over the token sequence
pub open spec fn kind_at(ts: Seq<SpecToken>, i: int) -> TokenType {
    if 0 <= i < ts.len() {
        ts[i].0
    } else {
        TokenType::EOF
    }
}

pub open spec fn text_at(ts: Seq<SpecToken>, i: int) -> Seq<char> {
    if 0 <= i < ts.len() {
        ts[i].1
    } else {
        Seq::empty()
    }
}

pub open spec fn true_text(t: Seq<char>) -> bool {
    t == seq!['T', 'r', 'u', 'e'] || t == seq!['t', 'r', 'u', 'e']
}

pub open spec fn expected(e: TokenType, ts: Seq<SpecToken>, i: int) -> SpecParseError {
    SpecParseError::Expected { expected: e, found: kind_at(ts, i) }
}

/// How many tokens remain from `p` on.
pub open spec fn remaining(ts: Seq<SpecToken>, p: int) -> nat {
    if 0 <= p < ts.len() {
        (ts.len() - p) as nat
    } else {
        0
    }
}

/// Parsing results carry the offset, from where parsing began, of the last
/// token consumed.
pub type Parsed<T> = Result<(T, nat), SpecParseError>;

/// The expression that starts at `p`, continued by operators that bind more
/// tightly than `prec`.
pub open spec fn parse_expr(ts: Seq<SpecToken>, p: int, prec: Precedence) -> Parsed<SpecExpr>
    decreases remaining(ts, p), 3int,
{
    if !(0 <= p < ts.len()) {
        Err(SpecParseError::NoPrefix(TokenType::EOF))
    } else {
        match parse_prefix(ts, p) {
            Err(e) => Err(e),
            Ok((left, n)) => match infix_loop(ts, p + n, left, prec) {
                Err(e) => Err(e),
                Ok((e, m)) => Ok((e, n + m)),
            },
        }
    }
}

/// Folds `left`, whose last token is at `q`, into the operators and calls that
/// follow and bind more tightly than `prec`.
pub open spec fn infix_loop(ts: Seq<SpecToken>, q: int, left: SpecExpr, prec: Precedence) -> Parsed<
    SpecExpr,
>
    decreases remaining(ts, q), 1int,
{
    let k = kind_at(ts, q + 1);
    if !(0 <= q < ts.len()) {
        Ok((left, 0))
    } else if rank(prec) < rank(precedence_of(k)) {
        if k == TokenType::LeftParen {
            match call_args(ts, q + 1) {
                Err(e) => Err(e),
                Ok((args, m)) => match infix_loop(
                    ts,
                    q + 1 + m,
                    SpecExpr::Call { callee: Box::new(left), args },
                    prec,
                ) {
                    Err(e) => Err(e),
                    Ok((e, j)) => Ok((e, 1 + m + j)),
                },
            }
        } else {
            match parse_expr(ts, q + 2, precedence_of(k)) {
                Err(e) => Err(e),
                Ok((right, m)) => match infix_loop(
                    ts,
                    q + 2 + m,
                    SpecExpr::Infix { left: Box::new(left), op: op_of(k)->0, right: Box::new(right) },
                    prec,
                ) {
                    Err(e) => Err(e),
                    Ok((e, j)) => Ok((e, 2 + m + j)),
                },
            }
        }
    } else {
        Ok((left, 0))
    }
}

/// The arguments of a call whose `(` is at `p`; the offset is that of `)`.
pub open spec fn call_args(ts: Seq<SpecToken>, p: int) -> Parsed<Seq<SpecExpr>>
    decreases remaining(ts, p), 0int,
{
    if !(0 <= p < ts.len()) {
        Err(expected(TokenType::RightParen, ts, p + 1))
    } else if kind_at(ts, p + 1) == TokenType::RightParen {
        Ok((Seq::empty(), 1))
    } else {
        match parse_expr(ts, p + 1, Precedence::Lowest) {
            Err(e) => Err(e),
            Ok((first, n)) => match args_rest(ts, p + 1 + n) {
                Err(e) => Err(e),
                Ok((rest, m)) => Ok((seq![first] + rest, 1 + n + m)),
            },
        }
    }
}

/// The arguments after one that ends at `q`; the offset is that of `)`.
pub open spec fn args_rest(ts: Seq<SpecToken>, q: int) -> Parsed<Seq<SpecExpr>>
    decreases remaining(ts, q), 0int,
{
    let k = kind_at(ts, q + 1);
    if !(0 <= q < ts.len()) {
        Err(expected(TokenType::RightParen, ts, q + 1))
    } else if k == TokenType::Comma {
        match parse_expr(ts, q + 2, Precedence::Lowest) {
            Err(e) => Err(e),
            Ok((next, n)) => match args_rest(ts, q + 2 + n) {
                Err(e) => Err(e),
                Ok((rest, m)) => Ok((seq![next] + rest, 2 + n + m)),
            },
        }
    } else if k == TokenType::RightParen {
        Ok((Seq::empty(), 1))
    } else {
        Err(expected(TokenType::RightParen, ts, q + 1))
    }
}

/// The parameter names of a function literal whose `(` is at `p`; the offset
/// is that of `)`.
pub open spec fn params(ts: Seq<SpecToken>, p: int) -> Parsed<Seq<Seq<char>>> {
    let k = kind_at(ts, p + 1);
    if k == TokenType::RightParen {
        Ok((Seq::empty(), 1))
    } else if k == TokenType::Identifier {
        match params_rest(ts, p + 1) {
            Err(e) => Err(e),
            Ok((rest, m)) => Ok((seq![text_at(ts, p + 1)] + rest, 1 + m)),
        }
    } else {
        Err(expected(TokenType::Identifier, ts, p + 1))
    }
}

/// The parameter names after one at `q`; the offset is that of `)`.
pub open spec fn params_rest(ts: Seq<SpecToken>, q: int) -> Parsed<Seq<Seq<char>>>
    decreases remaining(ts, q),
{
    let k = kind_at(ts, q + 1);
    if !(0 <= q < ts.len()) {
        Err(expected(TokenType::RightParen, ts, q + 1))
    } else if k == TokenType::Comma {
        if kind_at(ts, q + 2) != TokenType::Identifier {
            Err(expected(TokenType::Identifier, ts, q + 2))
        } else {
            match params_rest(ts, q + 2) {
                Err(e) => Err(e),
                Ok((rest, m)) => Ok((seq![text_at(ts, q + 2)] + rest, 2 + m)),
            }
        }
    } else if k == TokenType::RightParen {
        Ok((Seq::empty(), 1))
    } else {
        Err(expected(TokenType::RightParen, ts, q + 1))
    }
}

/// The block whose `{` is at `p`; the offset is that of `}`.
pub open spec fn parse_block(ts: Seq<SpecToken>, p: int) -> Parsed<Seq<SpecStmt>>
    decreases remaining(ts, p), 0int,
{
    if !(0 <= p < ts.len()) {
        Err(expected(TokenType::RightBrace, ts, p + 1))
    } else {
        match block_rest(ts, p + 1) {
            Err(e) => Err(e),
            Ok((stmts, m)) => Ok((stmts, 1 + m)),
        }
    }
}

/// The statements of a block from `p` on; the offset is that of `}`.
pub open spec fn block_rest(ts: Seq<SpecToken>, p: int) -> Parsed<Seq<SpecStmt>>
    decreases remaining(ts, p), 6int,
{
    let k = kind_at(ts, p);
    if k == TokenType::RightBrace {
        Ok((Seq::empty(), 0))
    } else if k == TokenType::EOF {
        Err(expected(TokenType::RightBrace, ts, p))
    } else {
        match parse_statement(ts, p) {
            Err(e) => Err(e),
            Ok((s, n)) => match block_rest(ts, p + n + 1) {
                Err(e) => Err(e),
                Ok((rest, m)) => Ok((seq![s] + rest, n + 1 + m)),
            },
        }
    }
}

/// One more token when the next one is a `;`.
pub open spec fn semicolon(ts: Seq<SpecToken>, q: int) -> nat {
    if kind_at(ts, q + 1) == TokenType::SemiColon {
        1
    } else {
        0
    }
}

/// The statement that starts at `p`, with its `;` if one follows.
pub open spec fn parse_statement(ts: Seq<SpecToken>, p: int) -> Parsed<SpecStmt>
    decreases remaining(ts, p), 5int,
{
    if !(0 <= p < ts.len()) {
        Err(SpecParseError::NoPrefix(TokenType::EOF))
    } else if kind_at(ts, p) == TokenType::Let {
        if kind_at(ts, p + 1) != TokenType::Identifier {
            Err(expected(TokenType::Identifier, ts, p + 1))
        } else if kind_at(ts, p + 2) != TokenType::Assign {
            Err(expected(TokenType::Assign, ts, p + 2))
        } else {
            match parse_expr(ts, p + 3, Precedence::Lowest) {
                Err(e) => Err(e),
                Ok((value, n)) => Ok(
                    (
                        SpecStmt::Let { name: text_at(ts, p + 1), value },
                        3 + n + semicolon(ts, p + 3 + n),
                    ),
                ),
            }
        }
    } else if kind_at(ts, p) == TokenType::Return {
        match parse_expr(ts, p + 1, Precedence::Lowest) {
            Err(e) => Err(e),
            Ok((value, n)) => Ok((SpecStmt::Return { value }, 1 + n + semicolon(ts, p + 1 + n))),
        }
    } else {
        match parse_expr(ts, p, Precedence::Lowest) {
            Err(e) => Err(e),
            Ok((value, n)) => Ok((SpecStmt::Expr { value }, n + semicolon(ts, p + n))),
        }
    }
}

/// The `if` expression whose `if` is at `p`.
pub open spec fn parse_if(ts: Seq<SpecToken>, p: int) -> Parsed<SpecExpr>
    decreases remaining(ts, p), 1int,
{
    if !(0 <= p < ts.len()) {
        Err(SpecParseError::NoPrefix(TokenType::EOF))
    } else if kind_at(ts, p + 1) != TokenType::LeftParen {
        Err(expected(TokenType::LeftParen, ts, p + 1))
    } else {
        match parse_expr(ts, p + 2, Precedence::Lowest) {
            Err(e) => Err(e),
            Ok((cond, n)) => {
                let q = p + 2 + n;
                if kind_at(ts, q + 1) != TokenType::RightParen {
                    Err(expected(TokenType::RightParen, ts, q + 1))
                } else if kind_at(ts, q + 2) != TokenType::LeftBrace {
                    Err(expected(TokenType::LeftBrace, ts, q + 2))
                } else {
                    match parse_block(ts, q + 2) {
                        Err(e) => Err(e),
                        Ok((cons, m)) => {
                            let r = q + 2 + m;
                            if kind_at(ts, r + 1) != TokenType::Else {
                                Ok(
                                    (
                                        SpecExpr::If { cond: Box::new(cond), cons, alt: None },
                                        (r - p) as nat,
                                    ),
                                )
                            } else if kind_at(ts, r + 2) != TokenType::LeftBrace {
                                Err(expected(TokenType::LeftBrace, ts, r + 2))
                            } else {
                                match parse_block(ts, r + 2) {
                                    Err(e) => Err(e),
                                    Ok((alt, k)) => Ok(
                                        (
                                            SpecExpr::If {
                                                cond: Box::new(cond),
                                                cons,
                                                alt: Some(alt),
                                            },
                                            (r + 2 + k - p) as nat,
                                        ),
                                    ),
                                }
                            }
                        },
                    }
                }
            },
        }
    }
}

/// The function literal whose `fn` is at `p`.
pub open spec fn parse_function(ts: Seq<SpecToken>, p: int) -> Parsed<SpecExpr>
    decreases remaining(ts, p), 1int,
{
    if !(0 <= p < ts.len()) {
        Err(SpecParseError::NoPrefix(TokenType::EOF))
    } else if kind_at(ts, p + 1) != TokenType::LeftParen {
        Err(expected(TokenType::LeftParen, ts, p + 1))
    } else {
        match params(ts, p + 1) {
            Err(e) => Err(e),
            Ok((names, n)) => {
                let q = p + 1 + n;
                if kind_at(ts, q + 1) != TokenType::LeftBrace {
                    Err(expected(TokenType::LeftBrace, ts, q + 1))
                } else {
                    match parse_block(ts, q + 1) {
                        Err(e) => Err(e),
                        Ok((body, m)) => Ok(
                            (SpecExpr::Function { params: names, body }, (q + 1 + m - p) as nat),
                        ),
                    }
                }
            },
        }
    }
}

/// The parenthesised expression whose `(` is at `p`.
pub open spec fn parse_grouped(ts: Seq<SpecToken>, p: int) -> Parsed<SpecExpr>
    decreases remaining(ts, p), 1int,
{
    if !(0 <= p < ts.len()) {
        Err(SpecParseError::NoPrefix(TokenType::EOF))
    } else {
        match parse_expr(ts, p + 1, Precedence::Lowest) {
            Err(e) => Err(e),
            Ok((e, n)) => if kind_at(ts, p + 2 + n) == TokenType::RightParen {
                Ok((e, n + 2))
            } else {
                Err(expected(TokenType::RightParen, ts, p + 2 + n))
            },
        }
    }
}

/// The `-` or `!` expression whose operator is at `p`.
pub open spec fn parse_prefix_op(ts: Seq<SpecToken>, p: int) -> Parsed<SpecExpr>
    decreases remaining(ts, p), 1int,
{
    if !(0 <= p < ts.len()) {
        Err(SpecParseError::NoPrefix(TokenType::EOF))
    } else {
        match parse_expr(ts, p + 1, Precedence::Prefix) {
            Err(e) => Err(e),
            Ok((e, n)) => Ok(
                (SpecExpr::Prefix { op: op_of(kind_at(ts, p))->0, right: Box::new(e) }, n + 1),
            ),
        }
    }
}

/// The expression that a token at `p` starts, before any operator that follows.
pub open spec fn parse_prefix(ts: Seq<SpecToken>, p: int) -> Parsed<SpecExpr>
    decreases remaining(ts, p), 2int,
{
    let k = kind_at(ts, p);
    let t = text_at(ts, p);
    if !(0 <= p < ts.len()) {
        Err(SpecParseError::NoPrefix(TokenType::EOF))
    } else if k == TokenType::Number {
        match number_value(t) {
            Some(v) => Ok((SpecExpr::Number(v), 0)),
            None => Err(SpecParseError::InvalidNumber(t)),
        }
    } else if k == TokenType::String {
        Ok((SpecExpr::Str(t), 0))
    } else if k == TokenType::Identifier {
        Ok((SpecExpr::Ident(t), 0))
    } else if k == TokenType::Bool {
        Ok((SpecExpr::Bool(true_text(t)), 0))
    } else if k == TokenType::LeftParen {
        parse_grouped(ts, p)
    } else if k == TokenType::Minus || k == TokenType::Bang {
        parse_prefix_op(ts, p)
    } else if k == TokenType::If {
        parse_if(ts, p)
    } else if k == TokenType::Fn {
        parse_function(ts, p)
    } else {
        Err(SpecParseError::NoPrefix(k))
    }
}

/// The statements from `p` to the end of input.
pub open spec fn parse_from(ts: Seq<SpecToken>, p: int) -> Result<Seq<SpecStmt>, SpecParseError>
    decreases remaining(ts, p), 6int,
{
    if kind_at(ts, p) == TokenType::EOF {
        Ok(Seq::empty())
    } else {
        match parse_statement(ts, p) {
            Err(e) => Err(e),
            Ok((s, n)) => match parse_from(ts, p + n + 1) {
                Err(e) => Err(e),
                Ok(rest) => Ok(seq![s] + rest),
            },
        }
    }
}

/// The program that `src` holds, or why there is none.
pub open spec fn parse_source(src: Seq<char>) -> Result<Seq<SpecStmt>, SpecParseError> {
    let (ts, err) = lex_all(src, 0);
    match err {
        Some(e) => Err(SpecParseError::Lex(e)),
        None => parse_from(ts, 0),
    }
}


/// Does the executable result `r` of parsing from `p` agree with the model `m`?
pub open spec fn agrees<T, V>(
    r: Result<(T, usize), ParseError>,
    p: int,
    m: Parsed<V>,
    view: spec_fn(T) -> V,
) -> bool {
    match m {
        Ok((v, n)) => r matches Ok((x, q)) && view(x) == v && q == p + n,
        Err(e) => r matches Err(x) && x@ == e,
    }
}

/// Every position a result reports lies among the tokens, at or after `p`.
pub open spec fn within<T>(r: Result<(T, usize), ParseError>, p: int, len: int) -> bool {
    r matches Ok((_, q)) ==> p <= q < len
}

pub open spec fn expr_view(e: Expression) -> SpecExpr {
    e@
}

pub open spec fn stmt_view(s: Statement) -> SpecStmt {
    s@
}

pub open spec fn exprs_vec_view(v: Vec<Expression>) -> Seq<SpecExpr> {
    exprs_view(v@)
}

pub open spec fn stmts_vec_view(v: Vec<Statement>) -> Seq<SpecStmt> {
    stmts_view(v@)
}

pub open spec fn strings_vec_view(v: Vec<String>) -> Seq<Seq<char>> {
    strings_view(v@)
}

pub proof fn lemma_exprs_view_cons(x: Expression, s: Seq<Expression>)
    ensures
        exprs_view(seq![x] + s) == seq![x@] + exprs_view(s),
    decreases s.len(),
{
    if s.len() == 0 {
        assert((seq![x] + s).drop_last() =~= s);
        assert(exprs_view(seq![x] + s) =~= seq![x@] + exprs_view(s));
    } else {
        lemma_exprs_view_cons(x, s.drop_last());
        assert((seq![x] + s).drop_last() =~= seq![x] + s.drop_last());
        assert(exprs_view(seq![x] + s) =~= seq![x@] + exprs_view(s));
    }
}

pub proof fn lemma_stmts_view_cons(x: Statement, s: Seq<Statement>)
    ensures
        stmts_view(seq![x] + s) == seq![x@] + stmts_view(s),
    decreases s.len(),
{
    if s.len() == 0 {
        assert((seq![x] + s).drop_last() =~= s);
        assert(stmts_view(seq![x] + s) =~= seq![x@] + stmts_view(s));
    } else {
        lemma_stmts_view_cons(x, s.drop_last());
        assert((seq![x] + s).drop_last() =~= seq![x] + s.drop_last());
        assert(stmts_view(seq![x] + s) =~= seq![x@] + stmts_view(s));
    }
}

pub proof fn lemma_stmts_view_push(s: Seq<Statement>, x: Statement)
    ensures
        stmts_view(s.push(x)) == stmts_view(s).push(x@),
{
    assert(s.push(x).drop_last() =~= s);
}

/// A Pratt parser over the tokens of one source text.
pub struct Parser {
    tokens: Vec<Token>,
    lex_error: Option<LexError>,
    position: usize,
}

impl Parser {
    /// The tokens, as the grammar sees them.
    pub closed spec fn tokens(&self) -> Seq<SpecToken> {
        token_views(self.tokens@)
    }

    /// The failure that stopped the scanner, if one did.
    pub closed spec fn lex_failure(&self) -> Option<SpecLexError> {
        match self.lex_error {
            Some(e) => Some(e@),
            None => None,
        }
    }

    /// The position of the next statement to parse.
    pub closed spec fn position(&self) -> int {
        self.position as int
    }

    /// Scans all of the lexer's remaining text.
    pub fn new(lexer: Lexer) -> (r: Self)
        requires
            lexer.wf(),
        ensures
            (r.tokens(), r.lex_failure()) == lex_all(lexer.source(), lexer.position()),
            r.position() == 0,
    {
        let mut lexer = lexer;
        let (tokens, lex_error) = scan_all(&mut lexer);
        Parser { tokens, lex_error, position: 0 }
    }

    /// Skips one token.
    pub fn read(&mut self)
        ensures
            final(self).tokens() == old(self).tokens(),
            final(self).lex_failure() == old(self).lex_failure(),
            final(self).position() == if old(self).position() < old(self).tokens().len() {
                old(self).position() + 1
            } else {
                old(self).position()
            },
    {
        if self.position < self.tokens.len() {
            self.position = self.position + 1;
        }
    }

    /// The kind of the token `k` places after `q`.
    fn kind(&self, q: usize, k: usize) -> (r: TokenType)
        ensures
            r == kind_at(self.tokens(), q + k),
            self.tokens().len() <= usize::MAX,
    {
        proof {
            lemma_token_views(self.tokens@);
        }
        if q >= self.tokens.len() || k >= self.tokens.len() - q {
            TokenType::EOF
        } else {
            let i = q + k;
            assert(self.tokens()[i as int] == (self.tokens@[i as int].token_type, self.tokens@[i as int].literal@));
            self.tokens[i].token_type
        }
    }

    /// The text of the token at `i`.
    fn text(&self, i: usize) -> (r: String)
        requires
            i < self.tokens().len(),
        ensures
            r@ == text_at(self.tokens(), i as int),
    {
        proof {
            lemma_token_views(self.tokens@);
        }
        self.tokens[i].literal.clone()
    }

    fn expected(&self, e: TokenType, q: usize, k: usize) -> (r: ParseError)
        ensures
            r@ == expected(e, self.tokens(), q + k),
    {
        proof {
            lemma_token_views(self.tokens@);
        }
        ParseError::Expected { expected: e, found: self.kind(q, k) }
    }

    /// Parses the statement at the current position and moves past it;
    /// `None` at the end of input.
    pub fn next(&mut self) -> (r: Option<Result<Statement, ParseError>>)
        ensures
            final(self).tokens() == old(self).tokens(),
            final(self).lex_failure() == old(self).lex_failure(),
            match old(self).lex_failure() {
                Some(e) => r matches Some(Err(x)) && x@ == SpecParseError::Lex(e)
                    && final(self).position() == old(self).position(),
                None => if kind_at(old(self).tokens(), old(self).position()) == TokenType::EOF {
                    r is None && final(self).position() == old(self).position()
                } else {
                    match parse_statement(old(self).tokens(), old(self).position()) {
                        Ok((s, n)) => r matches Some(Ok(x)) && x@ == s && final(self).position()
                            == old(self).position() + n + 1,
                        Err(e) => r matches Some(Err(x)) && x@ == e && final(self).position()
                            == old(self).position(),
                    }
                },
            },
    {
        proof {
            lemma_token_views(self.tokens@);
        }
        match &self.lex_error {
            Some(e) => {
                return Some(Err(ParseError::Lex(e.copy())));
            },
            None => {},
        }
        if self.kind(self.position, 0) == TokenType::EOF {
            return None;
        }
        match self.parse_statements(self.position) {
            Ok((s, q)) => {
                self.position = q + 1;
                Some(Ok(s))
            },
            Err(e) => Some(Err(e)),
        }
    }

    /// Parses the whole program from the current position on.
    pub fn parse(&self) -> (r: Result<Program, ParseError>)
        ensures
            match self.lex_failure() {
                Some(e) => r matches Err(x) && x@ == SpecParseError::Lex(e),
                None => match parse_from(self.tokens(), self.position()) {
                    Ok(v) => r matches Ok(x) && stmts_view(x@) == v,
                    Err(e) => r matches Err(x) && x@ == e,
                },
            },
    {
        match &self.lex_error {
            Some(e) => {
                return Err(ParseError::Lex(e.copy()));
            },
            None => {},
        }
        self.parse_program_from(self.position)
    }

    /// The statements from `p` to the end of input.
    fn parse_program_from(&self, p: usize) -> (r: Result<Program, ParseError>)
        ensures
            match parse_from(self.tokens(), p as int) {
                Ok(v) => r matches Ok(x) && stmts_view(x@) == v,
                Err(e) => r matches Err(x) && x@ == e,
            },
        decreases remaining(self.tokens(), p as int), 6int,
    {
        proof {
            lemma_token_views(self.tokens@);
        }
        if self.kind(p, 0) == TokenType::EOF {
            return Ok(Vec::new());
        }
        let (first, n) = self.parse_statements(p)?;
        let mut rest = self.parse_program_from(n + 1)?;
        let ghost tail = rest@;
        proof {
            lemma_stmts_view_cons(first, tail);
        }
        rest.insert(0, first);
        assert(rest@ =~= seq![first] + tail);
        Ok(rest)
    }

    /// The statement that starts at `p`; also the position of its last token.
    pub fn parse_statements(&self, p: usize) -> (r: Result<(Statement, usize), ParseError>)
        ensures
            agrees(r, p as int, parse_statement(self.tokens(), p as int), |x: Statement| x@),
            within(r, p as int, self.tokens().len() as int),
        decreases remaining(self.tokens(), p as int), 5int,
    {
        proof {
            lemma_token_views(self.tokens@);
        }
        if p >= self.tokens.len() {
            return Err(ParseError::NoPrefix(TokenType::EOF));
        }
        let k = self.kind(p, 0);
        if k == TokenType::Let {
            if self.kind(p, 1) != TokenType::Identifier {
                return Err(self.expected(TokenType::Identifier, p, 1));
            }
            if self.kind(p, 2) != TokenType::Assign {
                return Err(self.expected(TokenType::Assign, p, 2));
            }
            let name = self.text(p + 1);
            let (value, q) = self.parse_expression(p + 3, Precedence::Lowest)?;
            let end = if self.kind(q, 1) == TokenType::SemiColon {
                q + 1
            } else {
                q
            };
            Ok((Statement::Let { name, value }, end))
        } else if k == TokenType::Return {
            let (value, q) = self.parse_expression(p + 1, Precedence::Lowest)?;
            let end = if self.kind(q, 1) == TokenType::SemiColon {
                q + 1
            } else {
                q
            };
            Ok((Statement::Return { value }, end))
        } else {
            let (value, q) = self.parse_expression(p, Precedence::Lowest)?;
            let end = if self.kind(q, 1) == TokenType::SemiColon {
                q + 1
            } else {
                q
            };
            Ok((Statement::StatmentExpression { value }, end))
        }
    }

    /// The expression that starts at `p` and takes in the operators that bind
    /// more tightly than `precedence`; also the position of its last token.
    pub fn parse_expression(&self, p: usize, precedence: Precedence) -> (r: Result<
        (Expression, usize),
        ParseError,
    >)
        ensures
            agrees(r, p as int, parse_expr(self.tokens(), p as int, precedence), |x: Expression| x@),
            within(r, p as int, self.tokens().len() as int),
        decreases remaining(self.tokens(), p as int), 3int,
    {
        proof {
            lemma_token_views(self.tokens@);
        }
        if p >= self.tokens.len() {
            return Err(ParseError::NoPrefix(TokenType::EOF));
        }
        let (left, q) = self.parse_prefix_expression(p)?;
        self.parse_infix_expression(q, left, precedence)
    }

    /// Folds `left`, whose last token is at `q`, into the operators and calls
    /// that follow it and bind more tightly than `precedence`.
    pub fn parse_infix_expression(&self, q: usize, left: Expression, precedence: Precedence) -> (r:
        Result<(Expression, usize), ParseError>)
        ensures
            agrees(r, q as int, infix_loop(self.tokens(), q as int, left@, precedence), |x: Expression| x@),
            q < self.tokens().len() ==> within(r, q as int, self.tokens().len() as int),
        decreases remaining(self.tokens(), q as int), 1int,
    {
        proof {
            lemma_token_views(self.tokens@);
        }
        if q >= self.tokens.len() {
            return Ok((left, q));
        }
        let k = self.kind(q, 1);
        let next = Precedence::get_precedence(&k);
        if !precedence.is_below(&next) {
            return Ok((left, q));
        }
        if k == TokenType::LeftParen {
            let (arguments, r) = self.parse_call_arguments(q + 1)?;
            let call = Expression::CallExpression { function: Box::new(left), arguments };
            let (e, j) = self.parse_infix_expression(r, call, precedence)?;
            Ok((e, j))
        } else {
            let op = Op::token(&k);
            let (right, r) = self.parse_expression(q + 2, next)?;
            let infix = Expression::InfixExpression { left: Box::new(left), op, right: Box::new(right) };
            let (e, j) = self.parse_infix_expression(r, infix, precedence)?;
            Ok((e, j))
        }
    }

    /// The arguments of a call whose `(` is at `p`; also the position of `)`.
    fn parse_call_arguments(&self, p: usize) -> (r: Result<(Vec<Expression>, usize), ParseError>)
        ensures
            agrees(r, p as int, call_args(self.tokens(), p as int), |x: Vec<Expression>| exprs_view(x@)),
            within(r, p as int, self.tokens().len() as int),
        decreases remaining(self.tokens(), p as int), 0int,
    {
        proof {
            lemma_token_views(self.tokens@);
        }
        if p >= self.tokens.len() {
            return Err(self.expected(TokenType::RightParen, p, 1));
        }
        if self.kind(p, 1) == TokenType::RightParen {
            return Ok((Vec::new(), p + 1));
        }
        let (first, n) = self.parse_expression(p + 1, Precedence::Lowest)?;
        let (mut rest, m) = self.parse_more_arguments(n)?;
        let ghost tail = rest@;
        proof {
            lemma_exprs_view_cons(first, tail);
        }
        rest.insert(0, first);
        assert(rest@ =~= seq![first] + tail);
        Ok((rest, m))
    }

    /// The arguments after one whose last token is at `q`; also the position of `)`.
    fn parse_more_arguments(&self, q: usize) -> (r: Result<(Vec<Expression>, usize), ParseError>)
        ensures
            agrees(r, q as int, args_rest(self.tokens(), q as int), |x: Vec<Expression>| exprs_view(x@)),
            within(r, q as int, self.tokens().len() as int),
        decreases remaining(self.tokens(), q as int), 0int,
    {
        proof {
            lemma_token_views(self.tokens@);
        }
        if q >= self.tokens.len() {
            return Err(self.expected(TokenType::RightParen, q, 1));
        }
        let k = self.kind(q, 1);
        if k == TokenType::Comma {
            let (next, n) = self.parse_expression(q + 2, Precedence::Lowest)?;
            let (mut rest, m) = self.parse_more_arguments(n)?;
            let ghost tail = rest@;
            proof {
                lemma_exprs_view_cons(next, tail);
            }
            rest.insert(0, next);
            assert(rest@ =~= seq![next] + tail);
            Ok((rest, m))
        } else if k == TokenType::RightParen {
            Ok((Vec::new(), q + 1))
        } else {
            Err(self.expected(TokenType::RightParen, q, 1))
        }
    }

    /// The parameter names of a function literal whose `(` is at `p`; also
    /// the position of `)`.
    fn parse_fn_parameters(&self, p: usize) -> (r: Result<(Vec<String>, usize), ParseError>)
        requires
            p < self.tokens().len(),
        ensures
            agrees(r, p as int, params(self.tokens(), p as int), |x: Vec<String>| strings_view(x@)),
            within(r, p as int, self.tokens().len() as int),
    {
        proof {
            lemma_token_views(self.tokens@);
        }
        let k = self.kind(p, 1);
        if k == TokenType::RightParen {
            let none: Vec<String> = Vec::new();
            assert(strings_view(none@) =~= Seq::<Seq<char>>::empty());
            Ok((none, p + 1))
        } else if k == TokenType::Identifier {
            let first = self.text(p + 1);
            let (mut rest, m) = self.parse_more_parameters(p + 1)?;
            let ghost tail = rest@;
            rest.insert(0, first);
            assert(rest@ =~= seq![first] + tail);
            assert(strings_view(rest@) =~= seq![first@] + strings_view(tail));
            Ok((rest, m))
        } else {
            Err(self.expected(TokenType::Identifier, p, 1))
        }
    }

    /// The parameter names after one at `q`; also the position of `)`.
    fn parse_more_parameters(&self, q: usize) -> (r: Result<(Vec<String>, usize), ParseError>)
        ensures
            agrees(r, q as int, params_rest(self.tokens(), q as int), |x: Vec<String>| strings_view(x@)),
            within(r, q as int, self.tokens().len() as int),
        decreases remaining(self.tokens(), q as int),
    {
        proof {
            lemma_token_views(self.tokens@);
        }
        if q >= self.tokens.len() {
            return Err(self.expected(TokenType::RightParen, q, 1));
        }
        let k = self.kind(q, 1);
        if k == TokenType::Comma {
            if self.kind(q, 2) != TokenType::Identifier {
                return Err(self.expected(TokenType::Identifier, q, 2));
            }
            let name = self.text(q + 2);
            let (mut rest, m) = self.parse_more_parameters(q + 2)?;
            let ghost tail = rest@;
            rest.insert(0, name);
            assert(rest@ =~= seq![name] + tail);
            assert(strings_view(rest@) =~= seq![name@] + strings_view(tail));
            Ok((rest, m))
        } else if k == TokenType::RightParen {
            let none: Vec<String> = Vec::new();
            assert(strings_view(none@) =~= Seq::<Seq<char>>::empty());
            Ok((none, q + 1))
        } else {
            Err(self.expected(TokenType::RightParen, q, 1))
        }
    }

    /// The block whose `{` is at `p`; also the position of `}`.
    pub fn parse_block_statment(&self, p: usize) -> (r: Result<(BlockStatment, usize), ParseError>)
        ensures
            agrees(r, p as int, parse_block(self.tokens(), p as int), |x: BlockStatment| stmts_view(x.statements@)),
            within(r, p as int, self.tokens().len() as int),
        decreases remaining(self.tokens(), p as int), 0int,
    {
        proof {
            lemma_token_views(self.tokens@);
        }
        if p >= self.tokens.len() {
            return Err(self.expected(TokenType::RightBrace, p, 1));
        }
        let (statements, m) = self.parse_block_rest(p + 1)?;
        Ok((BlockStatment { statements }, m))
    }

    /// The statements of a block from `p` on; also the position of `}`.
    fn parse_block_rest(&self, p: usize) -> (r: Result<(Vec<Statement>, usize), ParseError>)
        ensures
            agrees(r, p as int, block_rest(self.tokens(), p as int), |x: Vec<Statement>| stmts_view(x@)),
            within(r, p as int, self.tokens().len() as int),
        decreases remaining(self.tokens(), p as int), 6int,
    {
        proof {
            lemma_token_views(self.tokens@);
        }
        let k = self.kind(p, 0);
        if k == TokenType::RightBrace {
            return Ok((Vec::new(), p));
        }
        if k == TokenType::EOF {
            return Err(self.expected(TokenType::RightBrace, p, 0));
        }
        let (first, n) = self.parse_statements(p)?;
        let (mut rest, m) = self.parse_block_rest(n + 1)?;
        let ghost tail = rest@;
        proof {
            lemma_stmts_view_cons(first, tail);
        }
        rest.insert(0, first);
        assert(rest@ =~= seq![first] + tail);
        Ok((rest, m))
    }

    /// The `if` expression whose `if` is at `p`; also the position of its last token.
    pub fn parse_if_expressions(&self, p: usize) -> (r: Result<(Expression, usize), ParseError>)
        ensures
            agrees(r, p as int, parse_if(self.tokens(), p as int), |x: Expression| x@),
            within(r, p as int, self.tokens().len() as int),
        decreases remaining(self.tokens(), p as int), 1int,
    {
        proof {
            lemma_token_views(self.tokens@);
        }
        if p >= self.tokens.len() {
            return Err(ParseError::NoPrefix(TokenType::EOF));
        }
        if self.kind(p, 1) != TokenType::LeftParen {
            return Err(self.expected(TokenType::LeftParen, p, 1));
        }
        let (condition, q) = self.parse_expression(p + 2, Precedence::Lowest)?;
        if self.kind(q, 1) != TokenType::RightParen {
            return Err(self.expected(TokenType::RightParen, q, 1));
        }
        if self.kind(q, 2) != TokenType::LeftBrace {
            return Err(self.expected(TokenType::LeftBrace, q, 2));
        }
        let (consequence, r) = self.parse_block_statment(q + 2)?;
        if self.kind(r, 1) != TokenType::Else {
            return Ok(
                (
                    Expression::IfExpression {
                        condition: Box::new(condition),
                        consequence,
                        alternative: None,
                    },
                    r,
                ),
            );
        }
        if self.kind(r, 2) != TokenType::LeftBrace {
            return Err(self.expected(TokenType::LeftBrace, r, 2));
        }
        let (alternative, s) = self.parse_block_statment(r + 2)?;
        Ok(
            (
                Expression::IfExpression {
                    condition: Box::new(condition),
                    consequence,
                    alternative: Some(alternative),
                },
                s,
            ),
        )
    }

    /// The function literal whose `fn` is at `p`; also the position of its last token.
    pub fn parse_function(&self, p: usize) -> (r: Result<(Expression, usize), ParseError>)
        ensures
            agrees(r, p as int, parse_function(self.tokens(), p as int), |x: Expression| x@),
            within(r, p as int, self.tokens().len() as int),
        decreases remaining(self.tokens(), p as int), 1int,
    {
        proof {
            lemma_token_views(self.tokens@);
        }
        if p >= self.tokens.len() {
            return Err(ParseError::NoPrefix(TokenType::EOF));
        }
        if self.kind(p, 1) != TokenType::LeftParen {
            return Err(self.expected(TokenType::LeftParen, p, 1));
        }
        let (parameters, q) = self.parse_fn_parameters(p + 1)?;
        if self.kind(q, 1) != TokenType::LeftBrace {
            return Err(self.expected(TokenType::LeftBrace, q, 1));
        }
        let (body, r) = self.parse_block_statment(q + 1)?;
        Ok((Expression::FunctionLiteral { parameters, body }, r))
    }

    /// The parenthesised expression whose `(` is at `p`; also the position of `)`.
    pub fn parse_grouped_expresion(&self, p: usize) -> (r: Result<(Expression, usize), ParseError>)
        ensures
            agrees(r, p as int, parse_grouped(self.tokens(), p as int), |x: Expression| x@),
            within(r, p as int, self.tokens().len() as int),
        decreases remaining(self.tokens(), p as int), 1int,
    {
        proof {
            lemma_token_views(self.tokens@);
        }
        if p >= self.tokens.len() {
            return Err(ParseError::NoPrefix(TokenType::EOF));
        }
        let (e, n) = self.parse_expression(p + 1, Precedence::Lowest)?;
        if self.kind(n, 1) == TokenType::RightParen {
            Ok((e, n + 1))
        } else {
            Err(self.expected(TokenType::RightParen, n, 1))
        }
    }

    /// The `-` or `!` expression whose operator is at `p`; also the position
    /// of its last token.
    fn parse_prefix_operator(&self, p: usize) -> (r: Result<(Expression, usize), ParseError>)
        requires
            op_of(kind_at(self.tokens(), p as int)) is Some,
        ensures
            agrees(r, p as int, parse_prefix_op(self.tokens(), p as int), |x: Expression| x@),
            within(r, p as int, self.tokens().len() as int),
        decreases remaining(self.tokens(), p as int), 1int,
    {
        proof {
            lemma_token_views(self.tokens@);
        }
        if p >= self.tokens.len() {
            return Err(ParseError::NoPrefix(TokenType::EOF));
        }
        let op = Op::token(&self.kind(p, 0));
        let (right, n) = self.parse_expression(p + 1, Precedence::Prefix)?;
        Ok((Expression::PrefixExpression { op, right: Box::new(right) }, n))
    }

    /// The expression that the token at `p` starts, before any operator that
    /// follows; also the position of its last token.
    pub fn parse_prefix_expression(&self, p: usize) -> (r: Result<(Expression, usize), ParseError>)
        ensures
            agrees(r, p as int, parse_prefix(self.tokens(), p as int), |x: Expression| x@),
            within(r, p as int, self.tokens().len() as int),
        decreases remaining(self.tokens(), p as int), 2int,
    {
        proof {
            lemma_token_views(self.tokens@);
        }
        if p >= self.tokens.len() {
            return Err(ParseError::NoPrefix(TokenType::EOF));
        }
        let k = self.kind(p, 0);
        match k {
            TokenType::Number => {
                let lit = self.text(p);
                match parse_number(&chars_of(lit.as_str())) {
                    Some(v) => Ok((Expression::Number(v), p)),
                    None => Err(ParseError::InvalidNumber(lit)),
                }
            },
            TokenType::String => Ok((Expression::String(self.text(p)), p)),
            TokenType::Identifier => Ok((Expression::Identifier(self.text(p)), p)),
            TokenType::Bool => {
                let lit = self.text(p);
                let t = chars_of(lit.as_str());
                let b = t.len() == 4 && (t[0] == 'T' || t[0] == 't') && t[1] == 'r' && t[2] == 'u'
                    && t[3] == 'e';
                assert(b == true_text(t@)) by {
                    if t@.len() == 4 {
                        assert(b ==> t@ == seq!['T', 'r', 'u', 'e'] || t@ == seq!['t', 'r', 'u', 'e']);
                    }
                };
                Ok((Expression::Boolean(b), p))
            },
            TokenType::LeftParen => self.parse_grouped_expresion(p),
            TokenType::Minus | TokenType::Bang => self.parse_prefix_operator(p),
            TokenType::If => self.parse_if_expressions(p),
            TokenType::Fn => self.parse_function(p),
            _ => Err(ParseError::NoPrefix(k)),
        }
    }
}

} // verus!
