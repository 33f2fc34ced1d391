use vstd::prelude::*;
use crate::text::{alphabetic, chars_of, is_alphabetic, string_from};
use crate::token::{Token, TokenType};

verus! {

/// What can stop the scanner.
#[derive(Clone, Debug, PartialEq)]
pub enum LexError {
    /// A string literal whose closing quote never comes.
    UnterminatedString,
    /// A run of operator symbols that names no operator.
    UnknownOperator(String),
    /// A character that starts no token.
    UnexpectedCharacter(char),
}

/// The model of a `LexError`.
pub enum SpecLexError {
    UnterminatedString,
    UnknownOperator(Seq<char>),
    UnexpectedCharacter(char),
}

impl LexError {
    /// A copy of the error.
    pub fn copy(&self) -> (r: Self)
        ensures
            r@ == self@,
    {
        match self {
            LexError::UnterminatedString => LexError::UnterminatedString,
            LexError::UnknownOperator(s) => LexError::UnknownOperator(s.clone()),
            LexError::UnexpectedCharacter(c) => LexError::UnexpectedCharacter(*c),
        }
    }

    pub open spec fn view(&self) -> SpecLexError {
        match self {
            LexError::UnterminatedString => SpecLexError::UnterminatedString,
            LexError::UnknownOperator(s) => SpecLexError::UnknownOperator(s@),
            LexError::UnexpectedCharacter(c) => SpecLexError::UnexpectedCharacter(*c),
        }
    }
}

/// One step of the scanner: a token with the position after it, or a failure.
pub enum LexStep {
    Emit { kind: TokenType, text: Seq<char>, next: int },
    Fail(SpecLexError),
}

/// Whitespace as Unicode's White_Space property lists it.
pub open spec fn whitespace(c: char) -> bool {
    ||| '\t' <= c <= '\r'
    ||| c == ' '
    ||| c == '\u{85}'
    ||| c == '\u{A0}'
    ||| c == '\u{1680}'
    ||| '\u{2000}' <= c <= '\u{200A}'
    ||| c == '\u{2028}'
    ||| c == '\u{2029}'
    ||| c == '\u{202F}'
    ||| c == '\u{205F}'
    ||| c == '\u{3000}'
}

pub open spec fn digit(c: char) -> bool {
    '0' <= c <= '9'
}

pub open spec fn number_char(c: char) -> bool {
    digit(c) || c == '_' || c == '.'
}

/// The first position at or after `pos` that holds no whitespace (or the end).
pub open spec fn skip_ws(src: Seq<char>, pos: int) -> int
    decreases src.len() - pos,
{
    if 0 <= pos < src.len() && whitespace(src[pos]) {
        skip_ws(src, pos + 1)
    } else {
        pos
    }
}

/// The first position at or after `pos` that holds no `=` (or the end).
pub open spec fn equals_end(src: Seq<char>, pos: int) -> int
    decreases src.len() - pos,
{
    if 0 <= pos < src.len() && src[pos] == '=' {
        equals_end(src, pos + 1)
    } else {
        pos
    }
}

/// The first position at or after `pos` that holds the quote `q` (or the end).
pub open spec fn quote_end(src: Seq<char>, pos: int, q: char) -> int
    decreases src.len() - pos,
{
    if 0 <= pos < src.len() && src[pos] != q {
        quote_end(src, pos + 1, q)
    } else {
        pos
    }
}

/// The first position at or after `pos` that holds no digit, `_` or `.` (or the end).
pub open spec fn number_end(src: Seq<char>, pos: int) -> int
    decreases src.len() - pos,
{
    if 0 <= pos < src.len() && number_char(src[pos]) {
        number_end(src, pos + 1)
    } else {
        pos
    }
}

/// The first position at or after `pos` that holds no letter (or the end).
pub open spec fn word_end(src: Seq<char>, pos: int) -> int
    decreases src.len() - pos,
{
    if 0 <= pos < src.len() && alphabetic(src[pos]) {
        word_end(src, pos + 1)
    } else {
        pos
    }
}

/// The text without its `_` separators.
pub open spec fn strip_underscores(s: Seq<char>) -> Seq<char>
    decreases s.len(),
{
    if s.len() == 0 {
        s
    } else if s.last() == '_' {
        strip_underscores(s.drop_last())
    } else {
        strip_underscores(s.drop_last()).push(s.last())
    }
}

/// The kind of a run of letters: a keyword, or else an identifier.
pub open spec fn word_kind(w: Seq<char>) -> TokenType {
    if w == seq!['l', 'e', 't'] {
        TokenType::Let
    } else if w == seq!['i', 'f'] {
        TokenType::If
    } else if w == seq!['e', 'l', 's', 'e'] {
        TokenType::Else
    } else if w == seq!['f', 'n'] {
        TokenType::Fn
    } else if w == seq!['r', 'e', 't', 'u', 'r', 'n'] {
        TokenType::Return
    } else if w == seq!['n', 'i', 'l'] {
        TokenType::Nil
    } else if w == seq!['T', 'r', 'u', 'e'] || w == seq!['t', 'r', 'u', 'e'] || w == seq![
        'F',
        'a',
        'l',
        's',
        'e',
    ] || w == seq!['f', 'a', 'l', 's', 'e'] {
        TokenType::Bool
    } else {
        TokenType::Identifier
    }
}

/// The kind of a one-character delimiter or operator, if `c` is one.
pub open spec fn single_kind(c: char) -> Option<TokenType> {
    if c == '(' {
        Some(TokenType::LeftParen)
    } else if c == ')' {
        Some(TokenType::RightParen)
    } else if c == '{' {
        Some(TokenType::LeftBrace)
    } else if c == '}' {
        Some(TokenType::RightBrace)
    } else if c == ',' {
        Some(TokenType::Comma)
    } else if c == ';' {
        Some(TokenType::SemiColon)
    } else if c == '+' {
        Some(TokenType::Addition)
    } else if c == '-' {
        Some(TokenType::Minus)
    } else if c == '*' {
        Some(TokenType::Star)
    } else if c == '/' {
        Some(TokenType::Division)
    } else {
        None
    }
}

pub open spec fn operator_start(c: char) -> bool {
    c == '=' || c == '!' || c == '<' || c == '>'
}

/// The operator that a symbol run names, if any.
pub open spec fn operator_kind(run: Seq<char>) -> Option<TokenType> {
    if run == seq!['='] {
        Some(TokenType::Assign)
    } else if run == seq!['=', '='] {
        Some(TokenType::EqualEqual)
    } else if run == seq!['!'] {
        Some(TokenType::Bang)
    } else if run == seq!['!', '='] {
        Some(TokenType::BangEqual)
    } else if run == seq!['<'] {
        Some(TokenType::Greater)
    } else if run == seq!['<', '='] {
        Some(TokenType::GreaterEqual)
    } else if run == seq!['>'] {
        Some(TokenType::Less)
    } else if run == seq!['>', '='] {
        Some(TokenType::LessEqual)
    } else {
        None
    }
}

/// The token that starts at the first non-whitespace position at or after `pos`.
pub open spec fn lex_step(src: Seq<char>, pos: int) -> LexStep {
    let s = skip_ws(src, pos);
    if !(0 <= s < src.len()) {
        LexStep::Emit { kind: TokenType::EOF, text: Seq::empty(), next: s }
    } else {
        let c = src[s];
        if single_kind(c) is Some {
            LexStep::Emit { kind: single_kind(c)->0, text: seq![c], next: s + 1 }
        } else if operator_start(c) {
            let e = equals_end(src, s + 1);
            let run = src.subrange(s, e);
            if operator_kind(run) is Some {
                LexStep::Emit { kind: operator_kind(run)->0, text: run, next: e }
            } else {
                LexStep::Fail(SpecLexError::UnknownOperator(run))
            }
        } else if c == '"' || c == '\'' {
            let e = quote_end(src, s + 1, c);
            if e < src.len() {
                LexStep::Emit { kind: TokenType::String, text: src.subrange(s + 1, e), next: e + 1 }
            } else {
                LexStep::Fail(SpecLexError::UnterminatedString)
            }
        } else if digit(c) {
            let e = number_end(src, s);
            LexStep::Emit {
                kind: TokenType::Number,
                text: strip_underscores(src.subrange(s, e)),
                next: e,
            }
        } else if alphabetic(c) {
            let e = word_end(src, s);
            let w = src.subrange(s, e);
            LexStep::Emit { kind: word_kind(w), text: w, next: e }
        } else {
            LexStep::Fail(SpecLexError::UnexpectedCharacter(c))
        }
    }
}

/// Does the executable outcome `r` agree with `step`?
pub open spec fn step_agrees(r: Result<Token, LexError>, step: LexStep) -> bool {
    match step {
        LexStep::Emit { kind, text, .. } => r matches Ok(t) && t.token_type == kind && t.literal@
            == text,
        LexStep::Fail(e) => r matches Err(x) && x@ == e,
    }
}

proof fn lemma_ends_bounded(src: Seq<char>, pos: int, q: char)
    requires
        0 <= pos <= src.len(),
    ensures
        pos <= skip_ws(src, pos) <= src.len(),
        pos <= equals_end(src, pos) <= src.len(),
        pos <= quote_end(src, pos, q) <= src.len(),
        pos <= number_end(src, pos) <= src.len(),
        pos <= word_end(src, pos) <= src.len(),
    decreases src.len() - pos,
{
    if pos < src.len() {
        lemma_ends_bounded(src, pos + 1, q);
    }
}

/// Every step that emits a token other than end of input moves forward.
pub proof fn lemma_lex_step_progress(src: Seq<char>, pos: int)
    requires
        0 <= pos <= src.len(),
    ensures
        lex_step(src, pos) matches LexStep::Emit { kind, next, .. } ==> pos <= next <= src.len()
            && (kind != TokenType::EOF ==> pos < next) && (kind == TokenType::EOF ==> next
            == src.len()),
{
    let s = skip_ws(src, pos);
    lemma_ends_bounded(src, pos, ' ');
    if 0 <= s < src.len() {
        lemma_ends_bounded(src, s, ' ');
        lemma_ends_bounded(src, s + 1, src[s]);
    }
}

/// Is `c` whitespace? Mirrors `char::is_whitespace`.
pub fn is_whitespace(c: char) -> (r: bool)
    ensures
        r == whitespace(c),
{
    ('\t' <= c && c <= '\r') || c == ' ' || c == '\u{85}' || c == '\u{A0}' || c == '\u{1680}'
        || ('\u{2000}' <= c && c <= '\u{200A}') || c == '\u{2028}' || c == '\u{2029}' || c
        == '\u{202F}' || c == '\u{205F}' || c == '\u{3000}'
}

fn is_digit(c: char) -> (r: bool)
    ensures
        r == digit(c),
{
    '0' <= c && c <= '9'
}

fn single_token_kind(c: char) -> (r: Option<TokenType>)
    ensures
        r == single_kind(c),
{
    match c {
        '(' => Some(TokenType::LeftParen),
        ')' => Some(TokenType::RightParen),
        '{' => Some(TokenType::LeftBrace),
        '}' => Some(TokenType::RightBrace),
        ',' => Some(TokenType::Comma),
        ';' => Some(TokenType::SemiColon),
        '+' => Some(TokenType::Addition),
        '-' => Some(TokenType::Minus),
        '*' => Some(TokenType::Star),
        '/' => Some(TokenType::Division),
        _ => None,
    }
}

fn operator_token_kind(run: &Vec<char>) -> (r: Option<TokenType>)
    ensures
        r == operator_kind(run@),
{
    let n = run.len();
    if n == 1 {
        let c = run[0];
        assert(run@ == seq![c]);
        match c {
            '=' => Some(TokenType::Assign),
            '!' => Some(TokenType::Bang),
            '<' => Some(TokenType::Greater),
            '>' => Some(TokenType::Less),
            _ => None,
        }
    } else if n == 2 && run[1] == '=' {
        let c = run[0];
        assert(run@ == seq![c, '=']);
        match c {
            '=' => Some(TokenType::EqualEqual),
            '!' => Some(TokenType::BangEqual),
            '<' => Some(TokenType::GreaterEqual),
            '>' => Some(TokenType::LessEqual),
            _ => None,
        }
    } else {
        None
    }
}

fn word_token_kind(w: &Vec<char>) -> (r: TokenType)
    ensures
        r == word_kind(w@),
{
    let n = w.len();
    if n == 2 {
        assert(w@ == seq![w@[0], w@[1]]);
        if w[0] == 'i' && w[1] == 'f' {
            return TokenType::If;
        } else if w[0] == 'f' && w[1] == 'n' {
            return TokenType::Fn;
        }
    } else if n == 3 {
        assert(w@ == seq![w@[0], w@[1], w@[2]]);
        if w[0] == 'l' && w[1] == 'e' && w[2] == 't' {
            return TokenType::Let;
        } else if w[0] == 'n' && w[1] == 'i' && w[2] == 'l' {
            return TokenType::Nil;
        }
    } else if n == 4 {
        assert(w@ == seq![w@[0], w@[1], w@[2], w@[3]]);
        if w[0] == 'e' && w[1] == 'l' && w[2] == 's' && w[3] == 'e' {
            return TokenType::Else;
        } else if (w[0] == 'T' || w[0] == 't') && w[1] == 'r' && w[2] == 'u' && w[3] == 'e' {
            return TokenType::Bool;
        }
    } else if n == 5 {
        assert(w@ == seq![w@[0], w@[1], w@[2], w@[3], w@[4]]);
        if (w[0] == 'F' || w[0] == 'f') && w[1] == 'a' && w[2] == 'l' && w[3] == 's' && w[4]
            == 'e' {
            return TokenType::Bool;
        }
    } else if n == 6 {
        assert(w@ == seq![w@[0], w@[1], w@[2], w@[3], w@[4], w@[5]]);
        if w[0] == 'r' && w[1] == 'e' && w[2] == 't' && w[3] == 'u' && w[4] == 'r' && w[5]
            == 'n' {
            return TokenType::Return;
        }
    }
    TokenType::Identifier
}

/// Reads the token that starts at the first non-whitespace position at or after
/// `pos`; also returns the position after it.
pub(crate) fn scan_at(src: &Vec<char>, pos: usize) -> (r: (Result<Token, LexError>, usize))
    requires
        pos <= src.len(),
    ensures
        step_agrees(r.0, lex_step(src@, pos as int)),
        lex_step(src@, pos as int) is Emit ==> r.1 == lex_step(src@, pos as int)->next,
        r.1 <= src.len(),
{
    let ghost s = src@;
    let mut i = pos;
    while i < src.len() && is_whitespace(src[i])
        invariant
            pos <= i <= src.len(),
            s == src@,
            skip_ws(s, i as int) == skip_ws(s, pos as int),
        decreases src.len() - i,
    {
        i = i + 1;
    }
    let start = i;
    if start >= src.len() {
        return (Ok(Token::new(TokenType::EOF, String::new())), start);
    }
    let c = src[start];
    if let Some(kind) = single_token_kind(c) {
        let mut text: Vec<char> = Vec::new();
        text.push(c);
        assert(text@ == seq![c]);
        return (Ok(Token::new(kind, string_from(&text))), start + 1);
    }
    if c == '=' || c == '!' || c == '<' || c == '>' {
        let mut run: Vec<char> = Vec::new();
        run.push(c);
        let mut j = start + 1;
        while j < src.len() && src[j] == '='
            invariant
                start < j <= src.len(),
                s == src@,
                start < s.len(),
                run@ == s.subrange(start as int, j as int),
                equals_end(s, j as int) == equals_end(s, start + 1),
            decreases src.len() - j,
        {
            run.push(src[j]);
            j = j + 1;
            assert(run@ =~= s.subrange(start as int, j as int));
        }
        return match operator_token_kind(&run) {
            Some(kind) => (Ok(Token::new(kind, string_from(&run))), j),
            None => (Err(LexError::UnknownOperator(string_from(&run))), j),
        };
    }
    if c == '"' || c == '\'' {
        let mut text: Vec<char> = Vec::new();
        let mut j = start + 1;
        while j < src.len() && src[j] != c
            invariant
                start < j <= src.len(),
                s == src@,
                start < s.len(),
                text@ == s.subrange(start + 1, j as int),
                quote_end(s, j as int, c) == quote_end(s, start + 1, c),
            decreases src.len() - j,
        {
            text.push(src[j]);
            j = j + 1;
            assert(text@ =~= s.subrange(start + 1, j as int));
        }
        if j >= src.len() {
            return (Err(LexError::UnterminatedString), j);
        }
        return (Ok(Token::new(TokenType::String, string_from(&text))), j + 1);
    }
    if is_digit(c) {
        let mut text: Vec<char> = Vec::new();
        let mut j = start;
        while j < src.len() && (is_digit(src[j]) || src[j] == '_' || src[j] == '.')
            invariant
                start <= j <= src.len(),
                s == src@,
                text@ == strip_underscores(s.subrange(start as int, j as int)),
                number_end(s, j as int) == number_end(s, start as int),
            decreases src.len() - j,
        {
            let d = src[j];
            assert(s.subrange(start as int, j + 1).drop_last() =~= s.subrange(
                start as int,
                j as int,
            ));
            if d != '_' {
                text.push(d);
            }
            j = j + 1;
        }
        return (Ok(Token::new(TokenType::Number, string_from(&text))), j);
    }
    if is_alphabetic(c) {
        let mut word: Vec<char> = Vec::new();
        let mut j = start;
        while j < src.len() && is_alphabetic(src[j])
            invariant
                start <= j <= src.len(),
                s == src@,
                word@ == s.subrange(start as int, j as int),
                word_end(s, j as int) == word_end(s, start as int),
            decreases src.len() - j,
        {
            word.push(src[j]);
            j = j + 1;
            assert(word@ =~= s.subrange(start as int, j as int));
        }
        let kind = word_token_kind(&word);
        return (Ok(Token::new(kind, string_from(&word))), j);
    }
    (Err(LexError::UnexpectedCharacter(c)), start)
}

/// A token as the parser sees it: its kind and its text.
pub type SpecToken = (TokenType, Seq<char>);

pub open spec fn token_views(ts: Seq<Token>) -> Seq<SpecToken> {
    ts.map_values(|t: Token| (t.token_type, t.literal@))
}

pub proof fn lemma_token_views(ts: Seq<Token>)
    ensures
        token_views(ts).len() == ts.len(),
        forall|i: int|
            0 <= i < ts.len() ==> #[trigger] token_views(ts)[i] == (ts[i].token_type, ts[i].literal@),
{
}

/// Every token from `pos` on, through the end-of-input token, or up to the
/// first failure (then also the failure).
pub open spec fn lex_all(src: Seq<char>, pos: int) -> (Seq<SpecToken>, Option<SpecLexError>)
    decreases src.len() - pos,
{
    match lex_step(src, pos) {
        LexStep::Emit { kind, text, next } => {
            if kind == TokenType::EOF || !(pos < next <= src.len()) {
                (seq![(kind, text)], None)
            } else {
                let rest = lex_all(src, next);
                (seq![(kind, text)] + rest.0, rest.1)
            }
        },
        LexStep::Fail(e) => (Seq::empty(), Some(e)),
    }
}

/// Reads every remaining token of `lexer`: through the end-of-input token, or
/// up to the first failure, which is returned beside them.
pub fn scan_all(lexer: &mut Lexer) -> (r: (Vec<Token>, Option<LexError>))
    requires
        old(lexer).wf(),
    ensures
        token_views(r.0@) == lex_all(old(lexer).source(), old(lexer).position()).0,
        match lex_all(old(lexer).source(), old(lexer).position()).1 {
            Some(e) => r.1 matches Some(x) && x@ == e,
            None => r.1 is None,
        },
{
    let ghost src = lexer.source();
    let ghost start = lexer.position();
    let mut out: Vec<Token> = Vec::new();
    loop
        invariant
            lexer.wf(),
            lexer.source() == src,
            src == old(lexer).source(),
            start == old(lexer).position(),
            token_views(out@) + lex_all(src, lexer.position()).0 == lex_all(src, start).0,
            lex_all(src, lexer.position()).1 == lex_all(src, start).1,
        decreases src.len() - lexer.position(),
    {
        let ghost before = lexer.position();
        proof {
            lemma_lex_step_progress(src, before);
        }
        let t = lexer.next_token();
        match t {
            Ok(tok) => {
                let eof = tok.token_type == TokenType::EOF;
                let ghost tv = (tok.token_type, tok.literal@);
                let ghost prev = out@;
                out.push(tok);
                assert(token_views(out@) =~= token_views(prev).push(tv));
                if eof {
                    assert(token_views(out@) =~= lex_all(src, start).0);
                    return (out, None);
                }
                assert(token_views(out@) + lex_all(src, lexer.position()).0 =~= lex_all(
                    src,
                    start,
                ).0);
            },
            Err(e) => {
                assert(token_views(out@) =~= lex_all(src, start).0);
                return (out, Some(e));
            },
        }
    }
}

/// A forward-only scanner over source text.
#[derive(Debug)]
pub struct Lexer {
    source: Vec<char>,
    current: usize,
}

impl Lexer {
    /// The text being scanned.
    pub closed spec fn source(&self) -> Seq<char> {
        self.source@
    }

    /// The position of the next character to be read.
    pub closed spec fn position(&self) -> int {
        self.current as int
    }

    pub open spec fn wf(&self) -> bool {
        0 <= self.position() <= self.source().len()
    }

    pub fn new(source: String) -> (r: Self)
        ensures
            r.wf(),
            r.source() == source@,
            r.position() == 0,
    {
        Lexer { source: chars_of(source.as_str()), current: 0 }
    }

    /// Moves past one character, unless the text is exhausted.
    pub fn read(&mut self)
        requires
            old(self).wf(),
        ensures
            final(self).wf(),
            final(self).source() == old(self).source(),
            final(self).position() == if old(self).position() < old(self).source().len() {
                old(self).position() + 1
            } else {
                old(self).position()
            },
    {
        if self.current < self.source.len() {
            self.current = self.current + 1;
        }
    }

    /// Moves past any whitespace.
    pub fn skip_whitespace(&mut self)
        requires
            old(self).wf(),
        ensures
            final(self).wf(),
            final(self).source() == old(self).source(),
            final(self).position() == skip_ws(old(self).source(), old(self).position()),
    {
        while self.current < self.source.len() && is_whitespace(self.source[self.current])
            invariant
                self.wf(),
                self.source() == old(self).source(),
                skip_ws(self.source(), self.position()) == skip_ws(
                    old(self).source(),
                    old(self).position(),
                ),
            decreases self.source.len() - self.current,
        {
            self.current = self.current + 1;
        }
    }

    /// The next token, without consuming it.
    pub fn peek(&self) -> (r: Result<Token, LexError>)
        requires
            self.wf(),
        ensures
            step_agrees(r, lex_step(self.source(), self.position())),
    {
        let (r, n) = scan_at(&self.source, self.current);
        r
    }

    /// Consumes and returns the next token; at the end of the text, an `EOF`
    /// token, every time.
    pub fn next_token(&mut self) -> (r: Result<Token, LexError>)
        requires
            old(self).wf(),
        ensures
            final(self).wf(),
            final(self).source() == old(self).source(),
            step_agrees(r, lex_step(old(self).source(), old(self).position())),
            r is Ok ==> final(self).position() == lex_step(old(self).source(), old(self).position())->next,
            r is Err ==> final(self).position() == old(self).position(),
    {
        let (r, n) = scan_at(&self.source, self.current);
        if r.is_ok() {
            self.current = n;
        }
        r
    }
}

} // verus!
