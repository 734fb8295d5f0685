use mini_compiler::lexer::{tokenize, Lexer};
use mini_compiler::text::chars_of;
use mini_compiler::token::{Span, Token, TokenTy};

fn kinds(tokens: &[Token]) -> Vec<TokenTy> {
    tokens.iter().map(|t| t.ty).collect()
}

fn lexemes(tokens: &[Token]) -> Vec<String> {
    tokens.iter().map(|t| t.lexeme.clone()).collect()
}

#[test]
fn lexer_it_works() {
    let mut lexer = Lexer::new("abc");
    println!("{:?}", lexer.next_token());
    println!("{:?}", lexer.next_token());
    println!("{:?}", lexer.next_token());
    println!("{:?}", lexer.next_token());

    let tokens = Lexer::new("abc").collect_tokens();
    assert_eq!(tokens.len(), 1);
}

#[test]
fn maximal_munch_keeps_keyword_prefix_in_identifier() {
    let tokens = tokenize("nat123");
    assert_eq!(tokens.len(), 1);
    assert_eq!(tokens[0].ty, TokenTy::Identifier);
    assert_eq!(tokens[0].lexeme, "nat123");
    assert_eq!(tokens[0].span, Span { start: 0, end: 6 });
}

#[test]
fn arrow_is_one_token() {
    let tokens = tokenize("->");
    assert_eq!(kinds(&tokens), vec![TokenTy::Arrow]);
    assert_eq!(tokens[0].lexeme, "->");
    assert_eq!(tokens[0].span, Span { start: 0, end: 2 });
}

#[test]
fn less_alone() {
    let tokens = tokenize("<");
    assert_eq!(kinds(&tokens), vec![TokenTy::Less]);
    assert_eq!(tokens[0].lexeme, "<");
    assert_eq!(tokens[0].span, Span { start: 0, end: 1 });
}

#[test]
fn split_arrow_is_two_invalid_tokens() {
    let tokens = tokenize("- >");
    assert_eq!(kinds(&tokens), vec![TokenTy::Invalid, TokenTy::Invalid]);
    assert_eq!(lexemes(&tokens), vec!["-", ">"]);
    assert_eq!(tokens[1].span, Span { start: 2, end: 3 });
}

#[test]
fn lone_minus_is_invalid() {
    let tokens = tokenize("-");
    assert_eq!(kinds(&tokens), vec![TokenTy::Invalid]);
    let tokens = tokenize("-1");
    assert_eq!(kinds(&tokens), vec![TokenTy::Invalid, TokenTy::Literal]);
}

#[test]
fn whitespace_is_skipped() {
    let tokens = tokenize("  bool  ");
    assert_eq!(tokens.len(), 1);
    assert_eq!(tokens[0].ty, TokenTy::BoolDecl);
    assert_eq!(tokens[0].lexeme, "bool");
    assert_eq!(tokens[0].span, Span { start: 2, end: 6 });
}

#[test]
fn all_whitespace_characters_are_skipped() {
    let tokens = tokenize(" \t\n\r\u{b}\u{c}x");
    assert_eq!(tokens.len(), 1);
    assert_eq!(tokens[0].span, Span { start: 6, end: 7 });
}

#[test]
fn comment_is_a_token() {
    let tokens = tokenize("a [note: x] b");
    assert_eq!(
        kinds(&tokens),
        vec![TokenTy::Identifier, TokenTy::Comment, TokenTy::Identifier]
    );
    assert_eq!(tokens[1].lexeme, "[note: x]");
    assert_eq!(tokens[1].span, Span { start: 2, end: 11 });
}

#[test]
fn unclosed_comment_is_invalid() {
    let tokens = tokenize("[ab");
    assert_eq!(kinds(&tokens), vec![TokenTy::Invalid, TokenTy::Identifier]);
    assert_eq!(lexemes(&tokens), vec!["[", "ab"]);
}

#[test]
fn empty_input_gives_only_eof() {
    let mut lexer = Lexer::new("");
    let t = lexer.next_token();
    assert_eq!(t.ty, TokenTy::Eof);
    assert_eq!(t.lexeme, "");
    assert_eq!(t.span, Span { start: 0, end: 0 });
    assert!(tokenize("").is_empty());
    assert!(Lexer::new("").next().is_none());
}

#[test]
fn eof_repeats_after_the_end() {
    let mut lexer = Lexer::new("x  ");
    assert_eq!(lexer.next_token().ty, TokenTy::Identifier);
    for _ in 0..5 {
        let t = lexer.next_token();
        assert_eq!(t.ty, TokenTy::Eof);
        assert_eq!(t.span, Span { start: 3, end: 3 });
    }
}

#[test]
fn keywords_and_literals() {
    let tokens = tokenize("bool nat fun T F Tx x1 0 05 123");
    assert_eq!(
        kinds(&tokens),
        vec![
            TokenTy::BoolDecl,
            TokenTy::NatDecl,
            TokenTy::FuncDecl,
            TokenTy::Literal,
            TokenTy::Literal,
            TokenTy::Identifier,
            TokenTy::Identifier,
            TokenTy::Literal,
            TokenTy::Literal,
            TokenTy::Literal,
            TokenTy::Literal,
        ]
    );
    assert_eq!(
        lexemes(&tokens),
        vec!["bool", "nat", "fun", "T", "F", "Tx", "x1", "0", "0", "5", "123"]
    );
}

#[test]
fn punctuation_table() {
    let tokens = tokenize("?:;()+&<=");
    assert_eq!(
        kinds(&tokens),
        vec![
            TokenTy::QuestionMark,
            TokenTy::Colon,
            TokenTy::Semicolon,
            TokenTy::LeftParen,
            TokenTy::RightParen,
            TokenTy::Plus,
            TokenTy::Ampersand,
            TokenTy::Less,
            TokenTy::Equal,
        ]
    );
}

#[test]
fn stray_characters_are_invalid() {
    let tokens = tokenize("$é#");
    assert_eq!(kinds(&tokens), vec![TokenTy::Invalid; 3]);
    assert_eq!(lexemes(&tokens), vec!["$", "é", "#"]);
    assert_eq!(tokens[2].span, Span { start: 2, end: 3 });
}

#[test]
fn spans_cover_lexemes() {
    let src = "fun f: nat -> bool = [id] (x<1)&T;";
    let chars = chars_of(src);
    let tokens = tokenize(src);
    assert_eq!(tokens.len(), 16);
    for t in &tokens {
        let slice: String = chars[t.span.start..t.span.end].iter().collect();
        assert_eq!(t.lexeme, slice);
    }
}

#[test]
fn tokenizing_twice_is_deterministic() {
    let src = "x1 -> [c] 42 ?? bool";
    let a = tokenize(src);
    let b = tokenize(src);
    assert_eq!(a.len(), b.len());
    for (x, y) in a.iter().zip(b.iter()) {
        assert_eq!(x.ty, y.ty);
        assert_eq!(x.lexeme, y.lexeme);
        assert_eq!(x.span, y.span);
    }
}

#[test]
fn next_stops_at_eof() {
    let mut lexer = Lexer::new("a b");
    assert_eq!(lexer.next().unwrap().lexeme, "a");
    assert_eq!(lexer.next().unwrap().lexeme, "b");
    assert!(lexer.next().is_none());
    assert!(lexer.next().is_none());
}

#[test]
fn chars_of_keeps_every_character() {
    assert_eq!(chars_of("aé b"), vec!['a', 'é', ' ', 'b']);
}
