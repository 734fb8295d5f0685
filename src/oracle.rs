use vstd::prelude::*;

use crate::fuzz::{
    is_blank_text, is_content, is_nat_text, is_punct_text, is_word_text, join, visible_count,
    well_spaced,
};
use crate::lexer::{
    in_run, is_alnum, is_space, lemma_run_end_at, lex, lex_from, punct_kind, scan, tokenizes, Run,
};
use crate::token::Token;

verus! {

/// Whitespace between two positions adds no token.
proof fn lemma_skip_blank(s: Seq<char>, p: int, q: int)
    requires
        0 <= p <= q <= s.len(),
        forall|j: int| p <= j < q ==> is_space(#[trigger] s[j]),
    ensures
        lex_from(s, p) == lex_from(s, q),
    decreases q - p,
{
    if p < q {
        lemma_skip_blank(s, p + 1, q);
    }
}

/// A punctuation or content fragment at `p` is read as one token that spans it exactly,
/// provided that a content fragment is followed by the end of the input or by a
/// character that cannot extend it.
proof fn lemma_scan_fragment(s: Seq<char>, p: int, f: Seq<char>)
    requires
        0 <= p,
        p + f.len() <= s.len(),
        s.subrange(p, p + f.len()) == f,
        is_punct_text(f) || is_content(f),
        is_content(f) ==> p + f.len() == s.len() || !is_alnum(s[p + f.len()]),
    ensures
        p < s.len(),
        !is_space(s[p]),
        scan(s, p).1 == p + f.len(),
{
    let q = p + f.len();
    assert(f.len() > 0) by {
        if f == seq!['-', '>'] {
            assert(f.len() == 2);
        }
        if f == seq!['0'] {
            assert(f.len() == 1);
        }
    }
    assert(s[p] == f[0]);
    if is_word_text(f) {
        assert forall|j: int| p <= j < q implies in_run(Run::Alnum, #[trigger] s[j]) by {
            assert(s[j] == f[j - p]);
        }
        lemma_run_end_at(s, p, q, Run::Alnum);
    } else if is_nat_text(f) {
        if f == seq!['0'] {
            assert(f[0] == '0');
        } else {
            assert forall|j: int| p <= j < q implies in_run(Run::Digit, #[trigger] s[j]) by {
                assert(s[j] == f[j - p]);
            }
            lemma_run_end_at(s, p, q, Run::Digit);
        }
    } else if f == seq!['-', '>'] {
        assert(f[0] == '-' && f[1] == '>');
        assert(s[p + 1] == f[1]);
    } else {
        assert(punct_kind(f[0]) is Some);
    }
}

/// Where the fragments `fs` make up the input from `p` to its end, the lexer reads one
/// token from `p` on for each fragment that is not whitespace.
proof fn lemma_lex_fragments(s: Seq<char>, fs: Seq<Seq<char>>, p: int)
    requires
        well_spaced(fs),
        0 <= p <= s.len(),
        s.subrange(p, s.len() as int) == join(fs),
    ensures
        lex_from(s, p).len() == visible_count(fs),
    decreases fs.len(),
{
    if fs.len() == 0 {
        assert(s.subrange(p, s.len() as int).len() == 0);
    } else {
        let f = fs[0];
        let rest = fs.drop_first();
        let tail = join(rest);
        let q = p + f.len();
        assert(join(fs) == f + tail);
        assert(well_spaced(rest)) by {
            assert forall|i: int| 0 <= i < rest.len() implies is_blank_text(#[trigger] rest[i])
                || is_punct_text(rest[i]) || is_content(rest[i]) by {
                assert(rest[i] == fs[i + 1]);
            }
            assert forall|i: int| 1 <= i < rest.len() && is_content(rest[i - 1]) implies !is_content(
                #[trigger] rest[i],
            ) by {
                assert(rest[i] == fs[i + 1]);
                assert(rest[i - 1] == fs[i]);
            }
        }
        assert(s.subrange(p, q) =~= f) by {
            assert forall|j: int| 0 <= j < f.len() implies s.subrange(p, q)[j] == f[j] by {
                assert(s.subrange(p, s.len() as int)[j] == (f + tail)[j]);
            }
        }
        assert(s.subrange(q, s.len() as int) =~= tail) by {
            assert forall|j: int| 0 <= j < tail.len() implies s.subrange(q, s.len() as int)[j]
                == tail[j] by {
                assert(s.subrange(p, s.len() as int)[f.len() + j] == (f + tail)[f.len() + j]);
            }
        }
        lemma_lex_fragments(s, rest, q);
        assert(is_blank_text(f) || is_punct_text(f) || is_content(f));
        if is_blank_text(f) {
            assert forall|j: int| p <= j < q implies is_space(#[trigger] s[j]) by {
                assert(s.subrange(p, q)[j - p] == f[j - p]);
            }
            lemma_skip_blank(s, p, q);
        } else {
            if is_content(f) && q < s.len() {
                assert(rest.len() > 0);
                let g = rest[0];
                assert(g == fs[1]);
                assert(!is_content(g));
                assert(is_blank_text(g) || is_punct_text(g));
                assert(g.len() > 0) by {
                    if g == seq!['-', '>'] {
                        assert(g.len() == 2);
                    }
                }
                assert(tail == g + join(rest.drop_first()));
                assert(s[q] == tail[0]);
                assert(tail[0] == g[0]);
                if g == seq!['-', '>'] {
                    assert(g[0] == '-');
                }
            }
            assert(s.subrange(p, p + f.len()) == f);
            lemma_scan_fragment(s, p, f);
        }
    }
}

/// Lexing the text of a well-spaced fragment stream, as the fuzz generator produces,
/// yields exactly one token for each fragment that is not whitespace.
pub proof fn lemma_count_oracle(fs: Seq<Seq<char>>)
    requires
        well_spaced(fs),
    ensures
        lex(join(fs)).len() == visible_count(fs),
{
    let s = join(fs);
    assert(s.subrange(0, s.len() as int) =~= s);
    lemma_lex_fragments(s, fs, 0);
}

/// Tokenizing is deterministic: two token lists of one source agree token by token, in
/// kind, lexeme and span.
pub proof fn lemma_deterministic(src: Seq<char>, a: Seq<Token>, b: Seq<Token>)
    requires
        tokenizes(src, a),
        tokenizes(src, b),
    ensures
        a.len() == b.len(),
        forall|k: int|
            0 <= k < a.len() ==> (#[trigger] a[k]).ty == b[k].ty && a[k].span == b[k].span
                && a[k].lexeme@ == b[k].lexeme@,
{
    assert forall|k: int| 0 <= k < a.len() implies (#[trigger] a[k]).ty == b[k].ty && a[k].span
        == b[k].span && a[k].lexeme@ == b[k].lexeme@ by {
        assert(a[k].shape() == lex(src)[k]);
        assert(b[k].shape() == lex(src)[k]);
    }
}

} // verus!
