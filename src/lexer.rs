use vstd::prelude::*;

use crate::text::{chars_of, push_char};
use crate::token::{Span, Token, TokenTy};

verus! {

/// A class of characters whose maximal runs the scanner measures.
#[derive(Clone, Copy)]
pub enum Run {
    Space,
    Alnum,
    Digit,
    CommentBody,
}

pub open spec fn is_space(c: char) -> bool {
    c == ' ' || c == '\t' || c == '\n' || c == '\r' || c == '\u{b}' || c == '\u{c}'
}

pub open spec fn is_letter(c: char) -> bool {
    ('a' <= c && c <= 'z') || ('A' <= c && c <= 'Z')
}

pub open spec fn is_digit(c: char) -> bool {
    '0' <= c && c <= '9'
}

pub open spec fn is_alnum(c: char) -> bool {
    is_letter(c) || is_digit(c)
}

pub open spec fn in_run(r: Run, c: char) -> bool {
    match r {
        Run::Space => is_space(c),
        Run::Alnum => is_alnum(c),
        Run::Digit => is_digit(c),
        Run::CommentBody => c != ']',
    }
}

/// Where the maximal run of class `r` that starts at `i` ends.
pub open spec fn run_end(s: Seq<char>, i: int, r: Run) -> int
    decreases s.len() - i,
{
    if 0 <= i < s.len() && in_run(r, s[i]) {
        run_end(s, i + 1, r)
    } else {
        i
    }
}

/// The kind of a one-character punctuation token.
pub open spec fn punct_kind(c: char) -> Option<TokenTy> {
    if c == '?' {
        Some(TokenTy::QuestionMark)
    } else if c == ':' {
        Some(TokenTy::Colon)
    } else if c == ';' {
        Some(TokenTy::Semicolon)
    } else if c == '(' {
        Some(TokenTy::LeftParen)
    } else if c == ')' {
        Some(TokenTy::RightParen)
    } else if c == '+' {
        Some(TokenTy::Plus)
    } else if c == '&' {
        Some(TokenTy::Ampersand)
    } else if c == '<' {
        Some(TokenTy::Less)
    } else if c == '=' {
        Some(TokenTy::Equal)
    } else {
        None
    }
}

/// The kind of a maximal word: a keyword, a boolean literal, or an identifier.
pub open spec fn word_kind(w: Seq<char>) -> TokenTy {
    if w == seq!['b', 'o', 'o', 'l'] {
        TokenTy::BoolDecl
    } else if w == seq!['n', 'a', 't'] {
        TokenTy::NatDecl
    } else if w == seq!['f', 'u', 'n'] {
        TokenTy::FuncDecl
    } else if w == seq!['T'] || w == seq!['F'] {
        TokenTy::Literal
    } else {
        TokenTy::Identifier
    }
}

/// The token that starts at `i`, a position that holds no whitespace: its kind and where
/// it ends. Words and numbers are matched maximally, `->` wins over a lone `-`, and a
/// character that starts no token is a one-character `Invalid` token.
pub open spec fn scan(s: Seq<char>, i: int) -> (TokenTy, int) {
    let c = s[i];
    if is_letter(c) {
        let e = run_end(s, i, Run::Alnum);
        (word_kind(s.subrange(i, e)), e)
    } else if c == '0' {
        (TokenTy::Literal, i + 1)
    } else if is_digit(c) {
        (TokenTy::Literal, run_end(s, i, Run::Digit))
    } else if c == '-' {
        if i + 1 < s.len() && s[i + 1] == '>' {
            (TokenTy::Arrow, i + 2)
        } else {
            (TokenTy::Invalid, i + 1)
        }
    } else if c == '[' {
        let j = run_end(s, i + 1, Run::CommentBody);
        if j < s.len() {
            (TokenTy::Comment, j + 1)
        } else {
            (TokenTy::Invalid, i + 1)
        }
    } else {
        match punct_kind(c) {
            Some(k) => (k, i + 1),
            None => (TokenTy::Invalid, i + 1),
        }
    }
}

/// The tokens of `s` from position `i` on, each as its kind and span. Whitespace
/// yields none, and the end of the input closes the sequence.
pub open spec fn lex_from(s: Seq<char>, i: int) -> Seq<(TokenTy, int, int)>
    decreases s.len() - i,
{
    if i < 0 || i >= s.len() {
        seq![]
    } else if is_space(s[i]) {
        lex_from(s, i + 1)
    } else {
        proof {
            lemma_scan_bounds(s, i);
        }
        seq![(scan(s, i).0, i, scan(s, i).1)] + lex_from(s, scan(s, i).1)
    }
}

/// The tokens of the whole of `s`.
pub open spec fn lex(s: Seq<char>) -> Seq<(TokenTy, int, int)> {
    lex_from(s, 0)
}

/// A run stays within the input, holds only characters of its class, and stops at
/// the first one outside it.
pub proof fn lemma_run_end(s: Seq<char>, i: int, r: Run)
    requires
        0 <= i <= s.len(),
    ensures
        i <= run_end(s, i, r) <= s.len(),
        forall|j: int| i <= j < run_end(s, i, r) ==> in_run(r, #[trigger] s[j]),
        run_end(s, i, r) < s.len() ==> !in_run(r, s[run_end(s, i, r)]),
    decreases s.len() - i,
{
    if i < s.len() && in_run(r, s[i]) {
        lemma_run_end(s, i + 1, r);
    }
}

/// A stretch of characters of class `r` that is followed by the end of the input or by
/// a character outside the class is exactly the run from its start.
pub proof fn lemma_run_end_at(s: Seq<char>, i: int, q: int, r: Run)
    requires
        0 <= i <= q <= s.len(),
        forall|j: int| i <= j < q ==> in_run(r, #[trigger] s[j]),
        q == s.len() || !in_run(r, s[q]),
    ensures
        run_end(s, i, r) == q,
    decreases q - i,
{
    if i < q {
        lemma_run_end_at(s, i + 1, q, r);
    }
}

/// Every token takes at least one character and stays within the input.
pub proof fn lemma_scan_bounds(s: Seq<char>, i: int)
    requires
        0 <= i < s.len(),
    ensures
        i < scan(s, i).1 <= s.len(),
{
    lemma_run_end(s, i, Run::Alnum);
    lemma_run_end(s, i, Run::Digit);
    lemma_run_end(s, i + 1, Run::CommentBody);
}

/// Whitespace in front of a position adds no token.
pub proof fn lemma_skip_space(s: Seq<char>, i: int)
    requires
        0 <= i <= s.len(),
    ensures
        lex_from(s, i) == lex_from(s, run_end(s, i, Run::Space)),
    decreases s.len() - i,
{
    if i < s.len() && is_space(s[i]) {
        lemma_skip_space(s, i + 1);
    }
}

/// From any position there are at most as many tokens left as characters, so repeated
/// calls of `next_token`, each of which hands out the first of them, reach `Eof`.
pub proof fn lemma_tokens_bounded(s: Seq<char>, i: int)
    requires
        0 <= i <= s.len(),
    ensures
        lex_from(s, i).len() <= s.len() - i,
    decreases s.len() - i,
{
    if i < s.len() {
        if is_space(s[i]) {
            lemma_tokens_bounded(s, i + 1);
        } else {
            lemma_scan_bounds(s, i);
            lemma_tokens_bounded(s, scan(s, i).1);
        }
    }
}

pub(crate) fn space(c: char) -> (b: bool)
    ensures
        b == is_space(c),
{
    c == ' ' || c == '\t' || c == '\n' || c == '\r' || c == '\u{b}' || c == '\u{c}'
}

pub(crate) fn letter(c: char) -> (b: bool)
    ensures
        b == is_letter(c),
{
    ('a' <= c && c <= 'z') || ('A' <= c && c <= 'Z')
}

pub(crate) fn digit(c: char) -> (b: bool)
    ensures
        b == is_digit(c),
{
    '0' <= c && c <= '9'
}

fn in_run_exec(r: Run, c: char) -> (b: bool)
    ensures
        b == in_run(r, c),
{
    match r {
        Run::Space => space(c),
        Run::Alnum => letter(c) || digit(c),
        Run::Digit => digit(c),
        Run::CommentBody => c != ']',
    }
}

/// Where the maximal run of class `r` that starts at `i` ends.
pub(crate) fn run_end_exec(s: &Vec<char>, i: usize, r: Run) -> (e: usize)
    requires
        i <= s.len(),
    ensures
        e == run_end(s@, i as int, r),
{
    let mut j = i;
    while j < s.len() && in_run_exec(r, s[j])
        invariant
            i <= j <= s.len(),
            run_end(s@, i as int, r) == run_end(s@, j as int, r),
        decreases s.len() - j,
    {
        j += 1;
    }
    j
}

pub(crate) fn punct_kind_exec(c: char) -> (k: Option<TokenTy>)
    ensures
        k == punct_kind(c),
{
    if c == '?' {
        Some(TokenTy::QuestionMark)
    } else if c == ':' {
        Some(TokenTy::Colon)
    } else if c == ';' {
        Some(TokenTy::Semicolon)
    } else if c == '(' {
        Some(TokenTy::LeftParen)
    } else if c == ')' {
        Some(TokenTy::RightParen)
    } else if c == '+' {
        Some(TokenTy::Plus)
    } else if c == '&' {
        Some(TokenTy::Ampersand)
    } else if c == '<' {
        Some(TokenTy::Less)
    } else if c == '=' {
        Some(TokenTy::Equal)
    } else {
        None
    }
}

pub(crate) fn word_kind_exec(s: &Vec<char>, start: usize, end: usize) -> (k: TokenTy)
    requires
        start <= end <= s.len(),
    ensures
        k == word_kind(s@.subrange(start as int, end as int)),
{
    let ghost w = s@.subrange(start as int, end as int);
    let n = end - start;
    if n == 4 && s[start] == 'b' && s[start + 1] == 'o' && s[start + 2] == 'o' && s[start + 3]
        == 'l' {
        assert(w =~= seq!['b', 'o', 'o', 'l']);
        TokenTy::BoolDecl
    } else if n == 3 && s[start] == 'n' && s[start + 1] == 'a' && s[start + 2] == 't' {
        assert(w =~= seq!['n', 'a', 't']);
        TokenTy::NatDecl
    } else if n == 3 && s[start] == 'f' && s[start + 1] == 'u' && s[start + 2] == 'n' {
        assert(w =~= seq!['f', 'u', 'n']);
        assert(w[0] != seq!['n', 'a', 't'][0]);
        TokenTy::FuncDecl
    } else if n == 1 && (s[start] == 'T' || s[start] == 'F') {
        assert(w =~= seq!['T'] || w =~= seq!['F']);
        assert(w.len() == 1);
        TokenTy::Literal
    } else {
        assert(w != seq!['b', 'o', 'o', 'l']) by {
            if w == seq!['b', 'o', 'o', 'l'] {
                assert(w.len() == 4);
                assert(w[0] == 'b' && w[1] == 'o' && w[2] == 'o' && w[3] == 'l');
                assert(s@[start as int] == w[0] && s@[start + 1] == w[1]);
                assert(s@[start + 2] == w[2] && s@[start + 3] == w[3]);
            }
        }
        assert(w != seq!['n', 'a', 't']) by {
            if w == seq!['n', 'a', 't'] {
                assert(w.len() == 3);
                assert(w[0] == 'n' && w[1] == 'a' && w[2] == 't');
                assert(s@[start as int] == w[0] && s@[start + 1] == w[1]);
                assert(s@[start + 2] == w[2]);
            }
        }
        assert(w != seq!['f', 'u', 'n']) by {
            if w == seq!['f', 'u', 'n'] {
                assert(w.len() == 3);
                assert(w[0] == 'f' && w[1] == 'u' && w[2] == 'n');
                assert(s@[start as int] == w[0] && s@[start + 1] == w[1]);
                assert(s@[start + 2] == w[2]);
            }
        }
        assert(w != seq!['T'] && w != seq!['F']) by {
            if w == seq!['T'] || w == seq!['F'] {
                assert(w.len() == 1);
                assert(w[0] == 'T' || w[0] == 'F');
                assert(s@[start as int] == w[0]);
            }
        }
        TokenTy::Identifier
    }
}

/// A lexer over one source text. It hands out the tokens one at a time, from the
/// start of the text to its end, and then `Eof` for good.
pub struct Lexer {
    src: Vec<char>,
    pos: usize,
}

impl Lexer {
    /// The text being tokenized.
    pub closed spec fn source(&self) -> Seq<char> {
        self.src@
    }

    /// How far the scan has come.
    pub closed spec fn position(&self) -> int {
        self.pos as int
    }

    /// The scan position lies within the source.
    pub closed spec fn wf(&self) -> bool {
        self.pos <= self.src.len()
    }

    /// The tokens that this lexer has yet to hand out.
    pub open spec fn remaining(&self) -> Seq<(TokenTy, int, int)> {
        lex_from(self.source(), self.position())
    }

    /// A lexer at the start of `src`.
    pub fn new(src: &str) -> (l: Lexer)
        ensures
            l.wf(),
            l.source() == src@,
            l.position() == 0,
    {
        Lexer { src: chars_of(src), pos: 0 }
    }

    fn scan_exec(&self, i: usize) -> (r: (TokenTy, usize))
        requires
            i < self.src.len(),
        ensures
            r.0 == scan(self.src@, i as int).0,
            r.1 == scan(self.src@, i as int).1,
    {
        let c = self.src[i];
        if letter(c) {
            let e = run_end_exec(&self.src, i, Run::Alnum);
            proof {
                lemma_run_end(self.src@, i as int, Run::Alnum);
            }
            (word_kind_exec(&self.src, i, e), e)
        } else if c == '0' {
            (TokenTy::Literal, i + 1)
        } else if digit(c) {
            (TokenTy::Literal, run_end_exec(&self.src, i, Run::Digit))
        } else if c == '-' {
            if i + 1 < self.src.len() && self.src[i + 1] == '>' {
                (TokenTy::Arrow, i + 2)
            } else {
                (TokenTy::Invalid, i + 1)
            }
        } else if c == '[' {
            let j = run_end_exec(&self.src, i + 1, Run::CommentBody);
            if j < self.src.len() {
                (TokenTy::Comment, j + 1)
            } else {
                (TokenTy::Invalid, i + 1)
            }
        } else {
            match punct_kind_exec(c) {
                Some(k) => (k, i + 1),
                None => (TokenTy::Invalid, i + 1),
            }
        }
    }

    /// The characters `start..end` of the source, as a string.
    fn text(&self, start: usize, end: usize) -> (t: String)
        requires
            start <= end <= self.src.len(),
        ensures
            t@ == self.src@.subrange(start as int, end as int),
    {
        let mut t = String::new();
        let mut k = start;
        while k < end
            invariant
                start <= k <= end <= self.src.len(),
                t@ == self.src@.subrange(start as int, k as int),
            decreases end - k,
        {
            push_char(&mut t, self.src[k]);
            assert(self.src@.subrange(start as int, k + 1) =~= self.src@.subrange(
                start as int,
                k as int,
            ).push(self.src@[k as int]));
            k += 1;
        }
        t
    }

    /// Skips whitespace and hands out the next token. Past the last token it hands out
    /// `Eof`, with an empty span at the end of the source, and keeps doing so.
    pub fn next_token(&mut self) -> (t: Token)
        requires
            old(self).wf(),
        ensures
            final(self).wf(),
            final(self).source() == old(self).source(),
            t.span.start <= t.span.end <= old(self).source().len(),
            t.lexeme@ == old(self).source().subrange(t.span.start as int, t.span.end as int),
            old(self).remaining().len() == 0 ==> {
                &&& t.ty == TokenTy::Eof
                &&& t.span.start == old(self).source().len()
                &&& t.span.end == old(self).source().len()
                &&& final(self).position() == old(self).source().len()
            },
            old(self).remaining().len() > 0 ==> {
                &&& t.shape() == old(self).remaining()[0]
                &&& final(self).remaining() == old(self).remaining().drop_first()
                &&& final(self).position() > old(self).position()
            },
            old(self).position() == old(self).source().len() ==> t.ty == TokenTy::Eof
                && *final(self) == *old(self),
    {
        let ghost s = self.src@;
        proof {
            lemma_skip_space(s, self.pos as int);
            lemma_run_end(s, self.pos as int, Run::Space);
        }
        let start = run_end_exec(&self.src, self.pos, Run::Space);
        if start >= self.src.len() {
            self.pos = start;
            Token { lexeme: String::new(), ty: TokenTy::Eof, span: Span { start, end: start } }
        } else {
            let (ty, end) = self.scan_exec(start);
            proof {
                lemma_scan_bounds(s, start as int);
                let rest = lex_from(s, end as int);
                assert(lex_from(s, start as int) == seq![(ty, start as int, end as int)] + rest);
                assert((seq![(ty, start as int, end as int)] + rest).drop_first() =~= rest);
            }
            let lexeme = self.text(start, end);
            self.pos = end;
            Token { lexeme, ty, span: Span { start, end } }
        }
    }

    /// The next token, or `None` once the end of the source is reached.
    pub fn next(&mut self) -> (r: Option<Token>)
        requires
            old(self).wf(),
        ensures
            final(self).wf(),
            final(self).source() == old(self).source(),
            old(self).remaining().len() == 0 ==> r is None && final(self).remaining().len() == 0,
            old(self).remaining().len() > 0 ==> r is Some && {
                let t = r->0;
                &&& t.shape() == old(self).remaining()[0]
                &&& t.lexeme@ == old(self).source().subrange(
                    t.span.start as int,
                    t.span.end as int,
                )
                &&& final(self).remaining() == old(self).remaining().drop_first()
            },
    {
        proof {
            lemma_no_eof(self.source(), self.position());
        }
        let t = self.next_token();
        if t.ty == TokenTy::Eof {
            None
        } else {
            Some(t)
        }
    }

    /// All the tokens that remain, in order, without the closing `Eof`. The lexer is
    /// left at the end of the source.
    pub fn collect_tokens(&mut self) -> (r: Vec<Token>)
        requires
            old(self).wf(),
        ensures
            final(self).wf(),
            final(self).source() == old(self).source(),
            final(self).position() == old(self).source().len(),
            r@.len() == old(self).remaining().len(),
            forall|k: int|
                0 <= k < r@.len() ==> (#[trigger] r@[k]).shape() == old(self).remaining()[k],
            forall|k: int|
                0 <= k < r@.len() ==> (#[trigger] r@[k]).lexeme@ == old(self).source().subrange(
                    r@[k].span.start as int,
                    r@[k].span.end as int,
                ),
    {
        let ghost all = self.remaining();
        let mut out: Vec<Token> = Vec::new();
        loop
            invariant
                self.wf(),
                self.source() == old(self).source(),
                all == old(self).remaining(),
                out@.len() + self.remaining().len() == all.len(),
                self.remaining() == all.subrange(out@.len() as int, all.len() as int),
                forall|k: int| 0 <= k < out@.len() ==> (#[trigger] out@[k]).shape() == all[k],
                forall|k: int|
                    0 <= k < out@.len() ==> (#[trigger] out@[k]).lexeme@
                        == self.source().subrange(
                        out@[k].span.start as int,
                        out@[k].span.end as int,
                    ),
            decreases self.remaining().len(),
        {
            let ghost before = self.remaining();
            let ghost p0 = self.position();
            let t = self.next_token();
            if t.ty == TokenTy::Eof {
                proof {
                    lemma_no_eof(self.source(), p0);
                    if before.len() > 0 {
                        assert(before[0].0 != TokenTy::Eof);
                    }
                }
                return out;
            }
            assert(before.len() > 0);
            assert(self.remaining() =~= all.subrange(out@.len() + 1 as int, all.len() as int));
            out.push(t);
        }
    }
}

/// `Eof` ends the token stream and never stands in it.
pub proof fn lemma_no_eof(s: Seq<char>, i: int)
    ensures
        forall|k: int| 0 <= k < lex_from(s, i).len() ==> (#[trigger] lex_from(s, i)[k]).0 != TokenTy::Eof,
    decreases s.len() - i,
{
    if 0 <= i < s.len() {
        if is_space(s[i]) {
            lemma_no_eof(s, i + 1);
        } else {
            lemma_scan_bounds(s, i);
            lemma_no_eof(s, scan(s, i).1);
            assert forall|k: int| 0 <= k < lex_from(s, i).len() implies (#[trigger] lex_from(s, i)[k]).0 != TokenTy::Eof by {
                if k > 0 {
                    assert(lex_from(s, i)[k] == lex_from(s, scan(s, i).1)[k - 1]);
                }
            }
        }
    }
}

/// `r` is the token list of `src`: the kinds and spans of `lex(src)`, in order, each token
/// carrying its slice of the source as lexeme.
pub open spec fn tokenizes(src: Seq<char>, r: Seq<Token>) -> bool {
    &&& r.len() == lex(src).len()
    &&& forall|k: int| 0 <= k < r.len() ==> (#[trigger] r[k]).shape() == lex(src)[k]
    &&& forall|k: int|
        0 <= k < r.len() ==> (#[trigger] r[k]).lexeme@ == src.subrange(
            r[k].span.start as int,
            r[k].span.end as int,
        )
}

/// All the tokens of `src`, in order, without the closing `Eof`.
pub fn tokenize(src: &str) -> (r: Vec<Token>)
    ensures
        tokenizes(src@, r@),
{
    let mut l = Lexer::new(src);
    l.collect_tokens()
}

} // verus!
