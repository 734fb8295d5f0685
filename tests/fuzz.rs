use mini_compiler::fuzz::{
    bool_lit, canonical, category_at, checked, declaration, fits_exec, ident, nat_lit, punctuation,
    rand_token, rand_token_ty, rand_tokens, whitespace, FuzzyTokenTy,
};
use mini_compiler::lexer::{tokenize, Lexer};
use mini_compiler::text::chars_of;

const ALL: [FuzzyTokenTy; 6] = [
    FuzzyTokenTy::Ident,
    FuzzyTokenTy::Whitespace,
    FuzzyTokenTy::Punctuation,
    FuzzyTokenTy::BoolLit,
    FuzzyTokenTy::NatLit,
    FuzzyTokenTy::Decl,
];

fn visible(fragments: &[String]) -> usize {
    fragments
        .iter()
        .filter(|tok| !tok.chars().all(char::is_whitespace))
        .count()
}

#[test]
fn fuzzy_tokens() {
    let src_tokens = rand_tokens(100000);
    let src = src_tokens.join("");

    let src_tokens = src_tokens
        .into_iter()
        .filter(|tok| !tok.chars().all(char::is_whitespace))
        .collect::<Vec<_>>();

    let token = Lexer::new(&src).collect_tokens();

    let actual_tokens = token
        .iter()
        .map(|tok| tok.lexeme.clone())
        .collect::<Vec<_>>();
    assert_eq!(src_tokens.len(), actual_tokens.len())
}

#[test]
fn fuzzy_tokens_lexemes_match_fragments() {
    let fragments = rand_tokens(500);
    let src = fragments.join("");
    let expected: Vec<String> = fragments
        .iter()
        .filter(|tok| !tok.chars().all(char::is_whitespace))
        .cloned()
        .collect();
    let actual: Vec<String> = tokenize(&src).into_iter().map(|t| t.lexeme).collect();
    assert_eq!(expected, actual);
}

#[test]
fn count_oracle_over_many_trials() {
    for trial in 0..1000usize {
        let n = trial % 40;
        let fragments = rand_tokens(n);
        assert_eq!(visible(&fragments), n);
        let src = fragments.join("");
        assert_eq!(tokenize(&src).len(), n);
    }
}

#[test]
fn zero_tokens_gives_only_eof() {
    for _ in 0..50 {
        let fragments = rand_tokens(0);
        assert_eq!(visible(&fragments), 0);
        let src = fragments.join("");
        let mut lexer = Lexer::new(&src);
        assert_eq!(lexer.next_token().ty, mini_compiler::token::TokenTy::Eof);
    }
}

#[test]
fn one_token() {
    for _ in 0..50 {
        let fragments = rand_tokens(1);
        assert_eq!(visible(&fragments), 1);
        assert_eq!(tokenize(&fragments.join("")).len(), 1);
    }
}

#[test]
fn fragments_fit_their_category() {
    for _ in 0..200 {
        for ty in ALL {
            let f = rand_token(ty);
            assert!(fits_exec(ty, &chars_of(&f)), "{:?} {:?}", ty, f);
        }
    }
}

#[test]
fn identifiers_are_random_words() {
    let mut seen = std::collections::HashSet::new();
    for _ in 0..200 {
        let f = ident();
        let mut chars = f.chars();
        assert!(chars.next().unwrap().is_ascii_alphabetic());
        assert!(chars.all(|c| c.is_ascii_alphanumeric()));
        seen.insert(f);
    }
    assert!(seen.len() > 10);
}

#[test]
fn whitespace_runs_are_short() {
    let mut lengths = std::collections::HashSet::new();
    for _ in 0..300 {
        let f = whitespace();
        let n = f.chars().count();
        assert!((1..=4).contains(&n), "{:?}", f);
        assert!(f.chars().all(|c| " \t\n\r\u{b}\u{c}".contains(c)));
        lengths.insert(n);
    }
    assert!(lengths.len() > 1);
}

#[test]
fn punctuation_comes_from_the_table() {
    let table = ["?", ":", ";", "(", ")", "+", "&", "<", "=", "->"];
    let mut seen = std::collections::HashSet::new();
    for _ in 0..500 {
        let f = punctuation();
        assert!(table.contains(&f.as_str()), "{:?}", f);
        seen.insert(f);
    }
    assert!(seen.len() > 5);
}

#[test]
fn literals_and_keywords() {
    let mut bools = std::collections::HashSet::new();
    let mut decls = std::collections::HashSet::new();
    for _ in 0..200 {
        let b = bool_lit();
        assert!(b == "T" || b == "F");
        bools.insert(b);
        let d = declaration();
        assert!(["bool", "nat", "fun"].contains(&d.as_str()));
        decls.insert(d);
        let n = nat_lit();
        assert!(n == "0" || (!n.starts_with('0') && n.chars().all(|c| c.is_ascii_digit())));
    }
    assert_eq!(bools.len(), 2);
    assert_eq!(decls.len(), 3);
}

#[test]
fn categories_are_all_drawn() {
    let mut seen = std::collections::HashSet::new();
    for _ in 0..600 {
        seen.insert(format!("{:?}", rand_token_ty()));
    }
    assert_eq!(seen.len(), 6);
}

#[test]
fn fits_exec_decides_categories() {
    let fits = |ty, s: &str| fits_exec(ty, &chars_of(s));
    assert!(fits(FuzzyTokenTy::Ident, "a1B"));
    assert!(!fits(FuzzyTokenTy::Ident, "1a"));
    assert!(!fits(FuzzyTokenTy::Ident, ""));
    assert!(fits(FuzzyTokenTy::Whitespace, " \t"));
    assert!(!fits(FuzzyTokenTy::Whitespace, ""));
    assert!(fits(FuzzyTokenTy::Punctuation, "->"));
    assert!(fits(FuzzyTokenTy::Punctuation, "&"));
    assert!(!fits(FuzzyTokenTy::Punctuation, "-"));
    assert!(fits(FuzzyTokenTy::BoolLit, "F"));
    assert!(!fits(FuzzyTokenTy::BoolLit, "TF"));
    assert!(fits(FuzzyTokenTy::NatLit, "0"));
    assert!(fits(FuzzyTokenTy::NatLit, "907"));
    assert!(!fits(FuzzyTokenTy::NatLit, "07"));
    assert!(fits(FuzzyTokenTy::Decl, "fun"));
    assert!(!fits(FuzzyTokenTy::Decl, "funny"));
}

#[test]
fn checked_keeps_fitting_text_and_replaces_the_rest() {
    assert_eq!(checked(FuzzyTokenTy::Ident, Some("abc".to_string())), "abc");
    assert_eq!(checked(FuzzyTokenTy::Ident, Some("1a".to_string())), "x");
    assert_eq!(checked(FuzzyTokenTy::NatLit, Some("05".to_string())), "0");
    assert_eq!(checked(FuzzyTokenTy::Decl, None), "nat");
    for ty in ALL {
        assert!(fits_exec(ty, &chars_of(&canonical(ty))));
    }
}

#[test]
fn zero_tokens_gives_no_fragments() {
    for _ in 0..50 {
        assert!(rand_tokens(0).is_empty());
    }
}

#[test]
fn last_fragment_is_a_token() {
    for n in 1..200usize {
        let fragments = rand_tokens(n);
        let last = fragments.last().unwrap();
        assert!(!last.chars().all(char::is_whitespace), "{:?}", last);
    }
}

#[test]
fn every_fragment_fits_some_category() {
    for n in 0..100usize {
        for f in rand_tokens(n) {
            let v = chars_of(&f);
            assert!(ALL.iter().any(|ty| fits_exec(*ty, &v)), "{:?}", f);
        }
    }
}

#[test]
fn whitespace_longer_than_five_does_not_fit() {
    assert!(fits_exec(FuzzyTokenTy::Whitespace, &chars_of("     ")));
    assert!(!fits_exec(FuzzyTokenTy::Whitespace, &chars_of("      ")));
    assert_eq!(checked(FuzzyTokenTy::Whitespace, Some("         ".to_string())), " ");
}

#[test]
fn categories_are_numbered() {
    for (i, ty) in ALL.iter().enumerate() {
        assert_eq!(category_at(i), *ty);
    }
}
