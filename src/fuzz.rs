use vstd::prelude::*;

use crate::lexer::{
    digit, is_alnum, is_digit, is_letter, is_space, letter, punct_kind, punct_kind_exec,
    run_end, run_end_exec, word_kind, word_kind_exec, lemma_run_end, Run,
};
use crate::text::chars_of;
use crate::token::TokenTy;
use rand::Rng;

verus! {

/// How many repetitions a `*` or `+` in a fragment pattern may take, at most, plus one.
pub const MAX_REPEAT: u32 = 100;

/// The same bound for runs of whitespace.
pub const BLANK_MAX_REPEAT: u32 = 5;

/// The longest whitespace fragment.
pub const BLANK_MAX_LEN: usize = 5;

/// How many whitespace fragments in a row the generator draws before it draws a
/// punctuation token in their place.
pub const MAX_BLANK_RUN: usize = 32;

/// The category of a fragment that the generator emits.
#[derive(Debug, Clone, Copy, PartialEq, Eq, Structural)]
pub enum FuzzyTokenTy {
    Ident,
    Whitespace,
    Punctuation,
    BoolLit,
    NatLit,
    Decl,
}

/// A letter followed by letters and digits.
pub open spec fn is_word_text(f: Seq<char>) -> bool {
    &&& f.len() > 0
    &&& is_letter(f[0])
    &&& forall|i: int| 0 <= i < f.len() ==> is_alnum(#[trigger] f[i])
}

/// A non-empty run of whitespace.
pub open spec fn is_blank_text(f: Seq<char>) -> bool {
    &&& f.len() > 0
    &&& forall|i: int| 0 <= i < f.len() ==> is_space(#[trigger] f[i])
}

/// One punctuation token: a symbol of the one-character table, or `->`.
pub open spec fn is_punct_text(f: Seq<char>) -> bool {
    (f.len() == 1 && punct_kind(f[0]) is Some) || f == seq!['-', '>']
}

/// `T` or `F`.
pub open spec fn is_bool_text(f: Seq<char>) -> bool {
    f == seq!['T'] || f == seq!['F']
}

/// `0`, or digits that do not start with `0`.
pub open spec fn is_nat_text(f: Seq<char>) -> bool {
    f == seq!['0'] || (f.len() > 0 && f[0] != '0' && forall|i: int|
        0 <= i < f.len() ==> is_digit(#[trigger] f[i]))
}

/// One of the keywords `bool`, `nat`, `fun`.
pub open spec fn is_decl_text(f: Seq<char>) -> bool {
    let k = word_kind(f);
    k == TokenTy::BoolDecl || k == TokenTy::NatDecl || k == TokenTy::FuncDecl
}

/// `f` is a fragment of category `ty`.
pub open spec fn fits(ty: FuzzyTokenTy, f: Seq<char>) -> bool {
    match ty {
        FuzzyTokenTy::Ident => is_word_text(f),
        FuzzyTokenTy::Whitespace => is_blank_text(f) && f.len() <= BLANK_MAX_LEN,
        FuzzyTokenTy::Punctuation => is_punct_text(f),
        FuzzyTokenTy::BoolLit => is_bool_text(f),
        FuzzyTokenTy::NatLit => is_nat_text(f),
        FuzzyTokenTy::Decl => is_decl_text(f),
    }
}

/// `f` is a fragment of some category.
pub open spec fn is_fragment(f: Seq<char>) -> bool {
    ||| fits(FuzzyTokenTy::Ident, f)
    ||| fits(FuzzyTokenTy::Whitespace, f)
    ||| fits(FuzzyTokenTy::Punctuation, f)
    ||| fits(FuzzyTokenTy::BoolLit, f)
    ||| fits(FuzzyTokenTy::NatLit, f)
    ||| fits(FuzzyTokenTy::Decl, f)
}

/// The categories in the order in which the generator numbers them.
pub open spec fn category(i: int) -> FuzzyTokenTy {
    if i == 0 {
        FuzzyTokenTy::Ident
    } else if i == 1 {
        FuzzyTokenTy::Whitespace
    } else if i == 2 {
        FuzzyTokenTy::Punctuation
    } else if i == 3 {
        FuzzyTokenTy::BoolLit
    } else if i == 4 {
        FuzzyTokenTy::NatLit
    } else {
        FuzzyTokenTy::Decl
    }
}

/// The fragment patterns that the generator hands to regex_generate, each with the
/// repetition bound it is used with.
pub open spec fn known_pattern(p: Seq<char>, max_repeat: u32) -> bool {
    ||| p == "[a-zA-Z][a-zA-Z0-9]*"@ && max_repeat == MAX_REPEAT
    ||| p == "[\\r\\n\\t\\f\\v ]+"@ && max_repeat == BLANK_MAX_REPEAT
    ||| p == "[\\?:;()+&<=]|->"@ && max_repeat == MAX_REPEAT
    ||| p == "T|F"@ && max_repeat == MAX_REPEAT
    ||| p == "0|[1-9][0-9]*"@ && max_repeat == MAX_REPEAT
    ||| p == "bool|nat|fun"@ && max_repeat == MAX_REPEAT
}

/// A fragment that a neighbour of the same sort would merge with.
pub open spec fn is_content(f: Seq<char>) -> bool {
    is_word_text(f) || is_nat_text(f)
}

pub open spec fn is_content_ty(ty: FuzzyTokenTy) -> bool {
    ty != FuzzyTokenTy::Whitespace && ty != FuzzyTokenTy::Punctuation
}

/// Every fragment is whitespace, punctuation or content, and no two content fragments
/// stand side by side.
pub open spec fn well_spaced(fs: Seq<Seq<char>>) -> bool {
    &&& forall|i: int|
        0 <= i < fs.len() ==> is_blank_text(#[trigger] fs[i]) || is_punct_text(fs[i])
            || is_content(fs[i])
    &&& forall|i: int| 1 <= i < fs.len() && is_content(fs[i - 1]) ==> !is_content(#[trigger] fs[i])
}

/// The number of fragments that are not whitespace.
pub open spec fn visible_count(fs: Seq<Seq<char>>) -> nat
    decreases fs.len(),
{
    if fs.len() == 0 {
        0
    } else {
        (if is_blank_text(fs[0]) { 0nat } else { 1nat }) + visible_count(fs.drop_first())
    }
}

/// The fragments written one after the other.
pub open spec fn join(fs: Seq<Seq<char>>) -> Seq<char>
    decreases fs.len(),
{
    if fs.len() == 0 {
        seq![]
    } else {
        fs[0] + join(fs.drop_first())
    }
}

/// A fragment of any category is whitespace, punctuation or content, and it is content
/// exactly when its category is.
pub proof fn lemma_fits_content(ty: FuzzyTokenTy, f: Seq<char>)
    requires
        fits(ty, f),
    ensures
        is_blank_text(f) || is_punct_text(f) || is_content(f),
        is_content(f) <==> is_content_ty(ty),
        is_blank_text(f) <==> ty == FuzzyTokenTy::Whitespace,
{
    if is_decl_text(f) {
        assert(f[0] == 'b' || f[0] == 'n' || f[0] == 'f');
    }
    if is_bool_text(f) {
        assert(f[0] == 'T' || f[0] == 'F');
    }
    if f == seq!['-', '>'] {
        assert(f[0] == '-');
    }
    if f.len() > 0 {
        assert(is_space(f[0]) ==> !is_alnum(f[0]));
    }
    if f == seq!['0'] {
        assert(f[0] == '0');
    }
}

/// Appending a fragment counts it once unless it is whitespace.
pub proof fn lemma_count_push(fs: Seq<Seq<char>>, f: Seq<char>)
    ensures
        visible_count(fs.push(f)) == visible_count(fs) + (if is_blank_text(f) { 0nat } else { 1nat }),
    decreases fs.len(),
{
    if fs.len() > 0 {
        lemma_count_push(fs.drop_first(), f);
        assert(fs.push(f)[0] == fs[0]);
        assert(fs.push(f).drop_first() =~= fs.drop_first().push(f));
    } else {
        assert(fs.push(f)[0] == f);
        assert(fs.push(f).drop_first() =~= fs);
    }
}

/// Relies on regex_generate's `Generator::new` and `Generator::generate`: parses `pattern`
/// and writes one random string that it matches, each `*` or `+` repeating fewer than
/// `max_repeat` times. What comes back is random, so nothing is stated of it. Only the
/// generator's own patterns are admitted: other patterns can panic inside the crate
/// (a `{m,}` with `m >= max_repeat`, an empty class).
#[verifier::external_body]
fn random_pattern(pattern: &str, max_repeat: u32) -> (r: Option<String>)
    requires
        known_pattern(pattern@, max_repeat),
{
    let mut gen = regex_generate::Generator::new(pattern, rand::thread_rng(), max_repeat).ok()?;
    let mut buffer: Vec<u8> = Vec::new();
    gen.generate(&mut buffer).ok()?;
    String::from_utf8(buffer).ok()
}

/// Relies on rand's `Rng::gen_ratio` on the thread-local generator: `true` with probability
/// `numerator / denominator`; always when the two are equal, never when `numerator` is 0.
#[verifier::external_body]
fn gen_ratio(numerator: u32, denominator: u32) -> (b: bool)
    requires
        0 < denominator,
        numerator <= denominator,
    ensures
        numerator == denominator ==> b,
        numerator == 0 ==> !b,
{
    rand::thread_rng().gen_ratio(numerator, denominator)
}

/// Relies on rand's `Rng::gen_range` on the thread-local generator: a number in `0..len`.
#[verifier::external_body]
fn gen_index(len: usize) -> (i: usize)
    requires
        0 < len,
    ensures
        i < len,
{
    rand::thread_rng().gen_range(0..len)
}

/// Decides whether `v` is a fragment of category `ty`.
pub fn fits_exec(ty: FuzzyTokenTy, v: &Vec<char>) -> (b: bool)
    ensures
        b == fits(ty, v@),
{
    let n = v.len();
    match ty {
        FuzzyTokenTy::Ident => {
            if n == 0 || !letter(v[0]) {
                return false;
            }
            let e = run_end_exec(v, 0, Run::Alnum);
            proof {
                lemma_run_end(v@, 0, Run::Alnum);
            }
            e == n
        },
        FuzzyTokenTy::Whitespace => {
            let e = run_end_exec(v, 0, Run::Space);
            proof {
                lemma_run_end(v@, 0, Run::Space);
            }
            n > 0 && n <= BLANK_MAX_LEN && e == n
        },
        FuzzyTokenTy::Punctuation => {
            let one = n == 1 && punct_kind_exec(v[0]).is_some();
            let arrow = n == 2 && v[0] == '-' && v[1] == '>';
            proof {
                if v@ == seq!['-', '>'] {
                    assert(v@[0] == '-' && v@[1] == '>');
                }
                if arrow {
                    assert(v@ =~= seq!['-', '>']);
                }
            }
            one || arrow
        },
        FuzzyTokenTy::BoolLit => {
            let b = n == 1 && (v[0] == 'T' || v[0] == 'F');
            proof {
                if v@ == seq!['T'] || v@ == seq!['F'] {
                    assert(v@[0] == 'T' || v@[0] == 'F');
                }
                if b {
                    assert(v@ =~= seq!['T'] || v@ =~= seq!['F']);
                }
            }
            b
        },
        FuzzyTokenTy::NatLit => {
            if n == 0 {
                return false;
            }
            if v[0] == '0' {
                proof {
                    if v@ == seq!['0'] {
                        assert(v@.len() == 1);
                    }
                    if n == 1 {
                        assert(v@ =~= seq!['0']);
                    }
                }
                return n == 1;
            }
            if !digit(v[0]) {
                return false;
            }
            let e = run_end_exec(v, 0, Run::Digit);
            proof {
                lemma_run_end(v@, 0, Run::Digit);
                if v@ == seq!['0'] {
                    assert(v@[0] == '0');
                }
            }
            e == n
        },
        FuzzyTokenTy::Decl => {
            let k = word_kind_exec(v, 0, n);
            proof {
                assert(v@.subrange(0, n as int) =~= v@);
            }
            k == TokenTy::BoolDecl || k == TokenTy::NatDecl || k == TokenTy::FuncDecl
        },
    }
}

/// The plainest fragment of each category.
pub open spec fn canonical_text(ty: FuzzyTokenTy) -> Seq<char> {
    match ty {
        FuzzyTokenTy::Ident => seq!['x'],
        FuzzyTokenTy::Whitespace => seq![' '],
        FuzzyTokenTy::Punctuation => seq![';'],
        FuzzyTokenTy::BoolLit => seq!['T'],
        FuzzyTokenTy::NatLit => seq!['0'],
        FuzzyTokenTy::Decl => seq!['n', 'a', 't'],
    }
}

/// The plainest fragment of category `ty`.
pub fn canonical(ty: FuzzyTokenTy) -> (r: String)
    ensures
        r@ == canonical_text(ty),
        fits(ty, r@),
{
    match ty {
        FuzzyTokenTy::Ident => {
            let r = "x".to_owned();
            proof {
                reveal_strlit("x");
            }
            assert(r@ =~= seq!['x']);
            r
        },
        FuzzyTokenTy::Whitespace => {
            let r = " ".to_owned();
            proof {
                reveal_strlit(" ");
            }
            assert(r@ =~= seq![' ']);
            r
        },
        FuzzyTokenTy::Punctuation => {
            let r = ";".to_owned();
            proof {
                reveal_strlit(";");
            }
            assert(r@ =~= seq![';']);
            r
        },
        FuzzyTokenTy::BoolLit => {
            let r = "T".to_owned();
            proof {
                reveal_strlit("T");
            }
            assert(r@ =~= seq!['T']);
            r
        },
        FuzzyTokenTy::NatLit => {
            let r = "0".to_owned();
            proof {
                reveal_strlit("0");
            }
            assert(r@ =~= seq!['0']);
            r
        },
        FuzzyTokenTy::Decl => {
            let r = "nat".to_owned();
            proof {
                reveal_strlit("nat");
            }
            assert(r@ =~= seq!['n', 'a', 't']);
            r
        },
    }
}

/// `text` if it is a fragment of category `ty`, else the plainest such fragment.
pub fn checked(ty: FuzzyTokenTy, text: Option<String>) -> (r: String)
    ensures
        fits(ty, r@),
        text is Some && fits(ty, text->0@) ==> r@ == text->0@,
        !(text is Some && fits(ty, text->0@)) ==> r@ == canonical_text(ty),
{
    match text {
        Some(t) => {
            let v = chars_of(t.as_str());
            if fits_exec(ty, &v) {
                t
            } else {
                canonical(ty)
            }
        },
        None => canonical(ty),
    }
}

/// A random identifier: a letter, then letters and digits.
pub fn ident() -> (r: String)
    ensures
        is_word_text(r@),
{
    checked(FuzzyTokenTy::Ident, random_pattern("[a-zA-Z][a-zA-Z0-9]*", MAX_REPEAT))
}

/// A random run of one to four whitespace characters (never more than five).
pub fn whitespace() -> (r: String)
    ensures
        is_blank_text(r@),
        r@.len() <= BLANK_MAX_LEN,
{
    checked(FuzzyTokenTy::Whitespace, random_pattern("[\\r\\n\\t\\f\\v ]+", BLANK_MAX_REPEAT))
}

/// A random punctuation token.
pub fn punctuation() -> (r: String)
    ensures
        is_punct_text(r@),
{
    checked(FuzzyTokenTy::Punctuation, random_pattern("[\\?:;()+&<=]|->", MAX_REPEAT))
}

/// A random boolean literal.
pub fn bool_lit() -> (r: String)
    ensures
        is_bool_text(r@),
{
    checked(FuzzyTokenTy::BoolLit, random_pattern("T|F", MAX_REPEAT))
}

/// A random natural-number literal.
pub fn nat_lit() -> (r: String)
    ensures
        is_nat_text(r@),
{
    checked(FuzzyTokenTy::NatLit, random_pattern("0|[1-9][0-9]*", MAX_REPEAT))
}

/// A random declaration keyword.
pub fn declaration() -> (r: String)
    ensures
        is_decl_text(r@),
{
    checked(FuzzyTokenTy::Decl, random_pattern("bool|nat|fun", MAX_REPEAT))
}

/// A random fragment of category `ty`.
pub fn rand_token(ty: FuzzyTokenTy) -> (r: String)
    ensures
        fits(ty, r@),
{
    match ty {
        FuzzyTokenTy::Ident => ident(),
        FuzzyTokenTy::Whitespace => whitespace(),
        FuzzyTokenTy::Punctuation => punctuation(),
        FuzzyTokenTy::BoolLit => bool_lit(),
        FuzzyTokenTy::NatLit => nat_lit(),
        FuzzyTokenTy::Decl => declaration(),
    }
}

/// The category numbered `i`.
pub fn category_at(i: usize) -> (r: FuzzyTokenTy)
    requires
        i < 6,
    ensures
        r == category(i as int),
{
    if i == 0 {
        FuzzyTokenTy::Ident
    } else if i == 1 {
        FuzzyTokenTy::Whitespace
    } else if i == 2 {
        FuzzyTokenTy::Punctuation
    } else if i == 3 {
        FuzzyTokenTy::BoolLit
    } else if i == 4 {
        FuzzyTokenTy::NatLit
    } else {
        FuzzyTokenTy::Decl
    }
}

/// A category drawn uniformly from the six.
pub fn rand_token_ty() -> (r: FuzzyTokenTy)
    ensures
        exists|i: int| 0 <= i < 6 && r == category(i),
{
    let idx = gen_index(6);
    category_at(idx)
}

fn is_content_exec(ty: FuzzyTokenTy) -> (b: bool)
    ensures
        b == is_content_ty(ty),
{
    !(ty == FuzzyTokenTy::Whitespace || ty == FuzzyTokenTy::Punctuation)
}

/// Appends `f` to `fs`, keeping the stream well spaced.
fn push_fragment(fs: &mut Vec<String>, f: String, Ghost(ty): Ghost<FuzzyTokenTy>)
    requires
        well_spaced(old(fs).deep_view()),
        forall|i: int| 0 <= i < old(fs).len() ==> is_fragment(#[trigger] old(fs).deep_view()[i]),
        fits(ty, f@),
        old(fs).len() > 0 && is_content(old(fs).deep_view().last()) ==> !is_content_ty(ty),
    ensures
        well_spaced(final(fs).deep_view()),
        forall|i: int|
            0 <= i < final(fs).len() ==> is_fragment(#[trigger] final(fs).deep_view()[i]),
        final(fs).deep_view() == old(fs).deep_view().push(f@),
        is_content(f@) <==> is_content_ty(ty),
        is_blank_text(f@) <==> ty == FuzzyTokenTy::Whitespace,
        visible_count(final(fs).deep_view()) == visible_count(old(fs).deep_view()) + (if ty
            == FuzzyTokenTy::Whitespace { 0nat } else { 1nat }),
{
    let ghost before = fs.deep_view();
    proof {
        lemma_fits_content(ty, f@);
        lemma_count_push(before, f@);
    }
    fs.push(f);
    assert(fs.deep_view() =~= before.push(f@));
    assert forall|i: int| 0 <= i < fs.len() implies is_fragment(#[trigger] fs.deep_view()[i]) by {
        if i < before.len() {
            assert(fs.deep_view()[i] == before[i]);
        } else {
            assert(fits(ty, fs.deep_view()[i]));
        }
    }
}

/// Random source text, as fragments: exactly `n` of them are tokens, the rest is
/// whitespace, and a content fragment (identifier, literal, keyword) is always followed
/// by whitespace or punctuation, so that a correct lexer reads back exactly `n` tokens.
pub fn rand_tokens(n: usize) -> (r: Vec<String>)
    ensures
        well_spaced(r.deep_view()),
        forall|i: int| 0 <= i < r.len() ==> is_fragment(#[trigger] r.deep_view()[i]),
        visible_count(r.deep_view()) == n,
        n == 0 ==> r.len() == 0,
        n > 0 ==> r.len() > 0 && !is_blank_text(r.deep_view().last()),
{
    let mut tokens: Vec<String> = Vec::new();
    let mut prev = rand_token_ty();
    let mut count = n;
    let mut blank_run: usize = 0;
    assert(tokens.deep_view() =~= Seq::<Seq<char>>::empty());
    while count > 0
        invariant
            well_spaced(tokens.deep_view()),
            forall|i: int|
                0 <= i < tokens.len() ==> is_fragment(#[trigger] tokens.deep_view()[i]),
            visible_count(tokens.deep_view()) + count == n,
            n == 0 ==> tokens.len() == 0,
            n > 0 && count == 0 ==> tokens.len() > 0 && !is_blank_text(tokens.deep_view().last()),
            tokens.len() > 0 && is_content(tokens.deep_view().last()) ==> is_content_ty(prev),
            blank_run <= MAX_BLANK_RUN,
        decreases count, MAX_BLANK_RUN - blank_run,
    {
        if is_content_exec(prev) {
            if gen_ratio(1, 2) {
                push_fragment(&mut tokens, whitespace(), Ghost(FuzzyTokenTy::Whitespace));
            } else {
                push_fragment(&mut tokens, punctuation(), Ghost(FuzzyTokenTy::Punctuation));
                count -= 1;
            }
        }
        if count > 0 {
            let mut ty = rand_token_ty();
            if ty == FuzzyTokenTy::Whitespace && blank_run >= MAX_BLANK_RUN {
                ty = FuzzyTokenTy::Punctuation;
            }
            prev = ty;
            push_fragment(&mut tokens, rand_token(ty), Ghost(ty));
            if ty == FuzzyTokenTy::Whitespace {
                blank_run += 1;
            } else {
                count -= 1;
                blank_run = 0;
            }
        }
    }
    tokens
}

} // verus!
