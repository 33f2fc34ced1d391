use vstd::prelude::*;
use crate::lexer::{
    is_whitespace, lemma_lex_step_progress, lex_all, lex_step, scan_at, skip_ws, whitespace,
    LexError, LexStep, SpecToken,
};
use crate::text::chars_of;
use crate::token::TokenType;

verus! {

/// A token together with the line it starts on.
#[derive(Clone, Debug, PartialEq)]
pub struct Lexeme {
    pub token_type: TokenType,
    pub lexeme: String,
    pub line: usize,
}

impl Lexeme {
    pub fn new(token_type: TokenType, lexeme: String, line: usize) -> (r: Lexeme)
        ensures
            r.token_type == token_type,
            r.lexeme == lexeme,
            r.line == line,
    {
        Lexeme { token_type, lexeme, line }
    }
}

/// How many line breaks `s` holds.
pub open spec fn newlines(s: Seq<char>) -> nat
    decreases s.len(),
{
    if s.len() == 0 {
        0
    } else {
        newlines(s.drop_last()) + if s.last() == '\n' {
            1nat
        } else {
            0nat
        }
    }
}

/// The line, counted from 1, that position `i` lies on.
pub open spec fn line_at(src: Seq<char>, i: int) -> nat {
    1 + newlines(src.subrange(0, i))
}

/// The line on which each token of `lex_all(src, pos).0` starts.
pub open spec fn lex_lines(src: Seq<char>, pos: int) -> Seq<nat>
    decreases src.len() - pos,
{
    match lex_step(src, pos) {
        LexStep::Emit { kind, next, .. } => {
            let line = line_at(src, skip_ws(src, pos));
            if kind == TokenType::EOF || !(pos < next <= src.len()) {
                seq![line]
            } else {
                seq![line] + lex_lines(src, next)
            }
        },
        LexStep::Fail(_) => Seq::empty(),
    }
}

pub open spec fn lexeme_views(ts: Seq<Lexeme>) -> Seq<SpecToken> {
    ts.map_values(|t: Lexeme| (t.token_type, t.lexeme@))
}

pub open spec fn lexeme_lines(ts: Seq<Lexeme>) -> Seq<nat> {
    ts.map_values(|t: Lexeme| t.line as nat)
}

proof fn lemma_skip_ws_bounds(src: Seq<char>, pos: int)
    requires
        0 <= pos <= src.len(),
    ensures
        pos <= skip_ws(src, pos) <= src.len(),
        skip_ws(src, skip_ws(src, pos)) == skip_ws(src, pos),
        forall|k: int| pos <= k < skip_ws(src, pos) ==> whitespace(#[trigger] src[k]),
    decreases src.len() - pos,
{
    if pos < src.len() && whitespace(src[pos]) {
        lemma_skip_ws_bounds(src, pos + 1);
    }
}

/// Starting where the whitespace ends changes nothing of the step.
proof fn lemma_lex_step_after_ws(src: Seq<char>, pos: int)
    requires
        0 <= pos <= src.len(),
    ensures
        lex_step(src, skip_ws(src, pos)) == lex_step(src, pos),
{
    lemma_skip_ws_bounds(src, pos);
}

/// Scans a whole source text at once, noting the line of every token.
pub struct Scanner {
    source: Vec<char>,
    tokens: Vec<Lexeme>,
}

impl Scanner {
    /// The text being scanned.
    pub closed spec fn source(&self) -> Seq<char> {
        self.source@
    }

    /// The tokens read so far.
    pub closed spec fn scanned(&self) -> Seq<Lexeme> {
        self.tokens@
    }

    pub fn new(source: String) -> (r: Scanner)
        ensures
            r.source() == source@,
            r.scanned() == Seq::<Lexeme>::empty(),
    {
        Scanner { source: chars_of(source.as_str()), tokens: Vec::new() }
    }

    /// Reads the whole text: every token through the end-of-input token, or
    /// the tokens before the first failure and the failure. Each token notes
    /// the line it starts on.
    pub fn scan_tokens(&mut self) -> (r: Result<(), LexError>)
        requires
            old(self).source().len() < usize::MAX,
        ensures
            final(self).source() == old(self).source(),
            lexeme_views(final(self).scanned()) == lex_all(old(self).source(), 0).0,
            lexeme_lines(final(self).scanned()) == lex_lines(old(self).source(), 0),
            match lex_all(old(self).source(), 0).1 {
                Some(e) => r matches Err(x) && x@ == e,
                None => r is Ok,
            },
    {
        let ghost src = self.source@;
        let mut out: Vec<Lexeme> = Vec::new();
        let mut pos: usize = 0;
        let mut counted: usize = 0;
        let mut line: usize = 1;
        loop
            invariant
                src == self.source@,
                src == old(self).source@,
                src.len() < usize::MAX,
                pos <= src.len(),
                counted <= pos,
                line == line_at(src, counted as int),
                line <= counted + 1,
                lexeme_views(out@) + lex_all(src, pos as int).0 == lex_all(src, 0).0,
                lexeme_lines(out@) + lex_lines(src, pos as int) == lex_lines(src, 0),
                lex_all(src, pos as int).1 == lex_all(src, 0).1,
            decreases src.len() - pos,
        {
            proof {
                lemma_lex_step_progress(src, pos as int);
                lemma_skip_ws_bounds(src, pos as int);
                lemma_lex_step_after_ws(src, pos as int);
            }
            let mut start = pos;
            while start < self.source.len() && is_whitespace(self.source[start])
                invariant
                    src == self.source@,
                    pos <= start <= src.len(),
                    skip_ws(src, start as int) == skip_ws(src, pos as int),
                decreases self.source.len() - start,
            {
                start = start + 1;
            }
            assert(skip_ws(src, start as int) == start);
            proof {
                lemma_lex_step_progress(src, start as int);
            }
            while counted < start
                invariant
                    src == self.source@,
                    src.len() < usize::MAX,
                    counted <= start <= src.len(),
                    line == line_at(src, counted as int),
                    line <= counted + 1,
                decreases start - counted,
            {
                assert(src.subrange(0, counted + 1).drop_last() =~= src.subrange(0, counted as int));
                if self.source[counted] == '\n' {
                    line = line + 1;
                }
                counted = counted + 1;
            }
            let (t, next) = scan_at(&self.source, start);
            match t {
                Ok(tok) => {
                    let eof = tok.token_type == TokenType::EOF;
                    let lx = Lexeme::new(tok.token_type, tok.literal, line);
                    let ghost prev = out@;
                    out.push(lx);
                    assert(lexeme_views(out@) =~= lexeme_views(prev).push(
                        (lx.token_type, lx.lexeme@),
                    ));
                    assert(lexeme_lines(out@) =~= lexeme_lines(prev).push(line as nat));
                    if eof {
                        assert(lexeme_views(out@) =~= lex_all(src, 0).0);
                        assert(lexeme_lines(out@) =~= lex_lines(src, 0));
                        self.tokens = out;
                        return Ok(());
                    }
                    assert(lexeme_views(out@) + lex_all(src, next as int).0 =~= lex_all(src, 0).0);
                    assert(lexeme_lines(out@) + lex_lines(src, next as int) =~= lex_lines(src, 0));
                    pos = next;
                },
                Err(e) => {
                    assert(lexeme_views(out@) =~= lex_all(src, 0).0);
                    assert(lexeme_lines(out@) =~= lex_lines(src, 0));
                    self.tokens = out;
                    return Err(e);
                },
            }
        }
    }

    /// The tokens read so far.
    pub fn tokens(&self) -> (r: &Vec<Lexeme>)
        ensures
            r@ == self.scanned(),
    {
        &self.tokens
    }
}

} // verus!
