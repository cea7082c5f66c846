//! Token types produced by the lexer.

use vstd::prelude::*;
use crate::span::Span;
use crate::text::str_eq;

verus! {

/// A reserved word, kept distinct from identifiers.
#[derive(Debug, Clone, Copy, PartialEq, Eq, Hash, Structural)]
pub enum Keyword {
    Fn,
    Let,
    Mut,
    Return,
    Uses,
    Requires,
    Ensures,
    If,
    Else,
    Match,
    True,
    False,
}

/// The keyword spelled by a text, if any.
pub open spec fn keyword_of(s: Seq<char>) -> Option<Keyword> {
    if s == "fn"@ { Some(Keyword::Fn) }
    else if s == "let"@ { Some(Keyword::Let) }
    else if s == "mut"@ { Some(Keyword::Mut) }
    else if s == "return"@ { Some(Keyword::Return) }
    else if s == "uses"@ { Some(Keyword::Uses) }
    else if s == "requires"@ { Some(Keyword::Requires) }
    else if s == "ensures"@ { Some(Keyword::Ensures) }
    else if s == "if"@ { Some(Keyword::If) }
    else if s == "else"@ { Some(Keyword::Else) }
    else if s == "match"@ { Some(Keyword::Match) }
    else if s == "true"@ { Some(Keyword::True) }
    else if s == "false"@ { Some(Keyword::False) }
    else { None }
}

impl Keyword {
    /// Map an identifier string to a keyword, if it is one.
    pub fn lookup(s: &str) -> (k: Option<Keyword>)
        ensures
            k == keyword_of(s@),
    {
        if str_eq(s, "fn") { Some(Keyword::Fn) }
        else if str_eq(s, "let") { Some(Keyword::Let) }
        else if str_eq(s, "mut") { Some(Keyword::Mut) }
        else if str_eq(s, "return") { Some(Keyword::Return) }
        else if str_eq(s, "uses") { Some(Keyword::Uses) }
        else if str_eq(s, "requires") { Some(Keyword::Requires) }
        else if str_eq(s, "ensures") { Some(Keyword::Ensures) }
        else if str_eq(s, "if") { Some(Keyword::If) }
        else if str_eq(s, "else") { Some(Keyword::Else) }
        else if str_eq(s, "match") { Some(Keyword::Match) }
        else if str_eq(s, "true") { Some(Keyword::True) }
        else if str_eq(s, "false") { Some(Keyword::False) }
        else { None }
    }
}

/// The lexical category of a token, carrying any decoded payload.
#[derive(Debug, Clone, PartialEq, Eq)]
pub enum TokenKind {
    /// An integer literal, already parsed into its value.
    Int(i64),
    /// A text literal, with escape sequences already decoded.
    Text(String),
    /// An identifier that is not a keyword.
    Ident(String),
    /// A reserved word.
    Keyword(Keyword),
    Plus,
    Minus,
    Star,
    Slash,
    Percent,
    EqEq,
    NotEq,
    Lt,
    LtEq,
    Gt,
    GtEq,
    Eq,
    Bang,
    AmpAmp,
    PipePipe,
    /// `->`, the return-type arrow.
    Arrow,
    /// `=>`, separating a match pattern from its arm.
    FatArrow,
    /// `|`, separating sum-type variants.
    Pipe,
    /// `.`, qualifying a module member.
    Dot,
    LParen,
    RParen,
    LBrace,
    RBrace,
    Comma,
    Colon,
    Semicolon,
    /// End of input. Carries a zero-width span at the end of the source.
    Eof,
}

/// A token: a lexical category paired with the exact byte span it came from.
#[derive(Debug, Clone, PartialEq, Eq)]
pub struct Token {
    pub kind: TokenKind,
    pub span: Span,
}

impl Token {
    /// Pair a kind with its span.
    pub fn new(kind: TokenKind, span: Span) -> (t: Token)
        ensures
            t.kind == kind,
            t.span == span,
    {
        Token { kind, span }
    }
}

} // verus!
