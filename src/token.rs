use vstd::prelude::*;

verus! {

/// The kinds of token that the lexer produces.
#[derive(Debug, Clone, Copy, PartialEq, Eq, Structural)]
pub enum TokenTy {
    /// A boolean (`T`, `F`) or natural-number literal.
    Literal,
    /// The keyword `bool`.
    BoolDecl,
    /// The keyword `nat`.
    NatDecl,
    /// The keyword `fun`.
    FuncDecl,
    /// `?`
    QuestionMark,
    /// `:`
    Colon,
    /// `;`
    Semicolon,
    /// `(`
    LeftParen,
    /// `)`
    RightParen,
    /// `+`
    Plus,
    /// `&`
    Ampersand,
    /// `->`
    Arrow,
    /// `<`
    Less,
    /// `=`
    Equal,
    /// A bracketed comment, `[ ... ]`.
    Comment,
    /// A word that is neither a keyword nor a boolean literal.
    Identifier,
    /// The end of the input.
    Eof,
    /// A character that starts no token.
    Invalid,
}

/// A half-open range `start..end` of character offsets into the source.
#[derive(Debug, Clone, Copy, PartialEq, Eq, Structural)]
pub struct Span {
    pub start: usize,
    pub end: usize,
}

/// One token: its text, its kind and where it stands in the source.
#[derive(Debug)]
pub struct Token {
    pub lexeme: String,
    pub ty: TokenTy,
    pub span: Span,
}

impl Token {
    /// The kind and the span of the token, as the lexer's model states them.
    pub open spec fn shape(&self) -> (TokenTy, int, int) {
        (self.ty, self.span.start as int, self.span.end as int)
    }
}

} // verus!
