use vstd::prelude::*;

use crate::lexer::src_location::SrcLocation;

verus! {

/// A token kind at the specification level: text as a sequence of characters.
pub enum SpecTokenKind {
    Str(Seq<char>),
    Number(u64),
    LParen,
    RParen,
    Id(Seq<char>),
    UnterminatedString(Seq<char>),
}

/// A token at the specification level, with its position as plain integers.
pub struct SpecToken {
    pub kind: SpecTokenKind,
    pub line: int,
    pub col: int,
}

/// What a token is.  A number is carried as the 64-bit encoding of a
/// double-precision float; the tokenizer itself emits every word as `Id`, and
/// [`Token::classified`] turns a word into a `Number` once the driver has
/// tried the word's text as a float.
#[derive(PartialEq, Debug, Clone)]
pub enum TokenKind {
    String(String),
    Number(u64),
    LParen,
    RParen,
    Id(String),
    UnterminatedString(String),
}

impl View for TokenKind {
    type V = SpecTokenKind;

    open spec fn view(&self) -> SpecTokenKind {
        match self {
            TokenKind::String(s) => SpecTokenKind::Str(s@),
            TokenKind::Number(b) => SpecTokenKind::Number(*b),
            TokenKind::LParen => SpecTokenKind::LParen,
            TokenKind::RParen => SpecTokenKind::RParen,
            TokenKind::Id(s) => SpecTokenKind::Id(s@),
            TokenKind::UnterminatedString(s) => SpecTokenKind::UnterminatedString(s@),
        }
    }
}

#[derive(PartialEq, Debug, Clone)]
pub struct Token {
    pub kind: TokenKind,
    pub loc: SrcLocation,
}

impl View for Token {
    type V = SpecToken;

    open spec fn view(&self) -> SpecToken {
        SpecToken { kind: self.kind@, line: self.loc.line as int, col: self.loc.col as int }
    }
}

impl Token {
    pub fn new(kind: TokenKind, loc: SrcLocation) -> (r: Self)
        ensures
            r.kind == kind && r.loc == loc,
    {
        Self { kind, loc }
    }

    /// A structural copy whose model is the same.
    pub fn duplicate(&self) -> (r: Self)
        ensures
            r@ == self@,
            r.loc == self.loc,
    {
        let kind = match &self.kind {
            TokenKind::String(s) => TokenKind::String(s.clone()),
            TokenKind::Number(b) => TokenKind::Number(*b),
            TokenKind::LParen => TokenKind::LParen,
            TokenKind::RParen => TokenKind::RParen,
            TokenKind::Id(s) => TokenKind::Id(s.clone()),
            TokenKind::UnterminatedString(s) => TokenKind::UnterminatedString(s.clone()),
        };
        Token { kind, loc: SrcLocation { line: self.loc.line, col: self.loc.col } }
    }

    /// The token once the driver has tried an `Id` word as a number.
    ///
    /// The tokenizer cannot read a word's numeric value itself: whether the
    /// text parses as a double-precision float, and to which 64-bit encoding,
    /// is the driver's to answer.  The driver hands that answer in as `bits`
    /// (and `None` for any token that is not a word), and the word becomes a
    /// number token exactly when the parse succeeded.
    pub fn classified(self, bits: Option<u64>) -> (r: Self)
        ensures
            r.loc == self.loc,
            match bits {
                Some(b) => r@.kind == (if self.kind is Id {
                    SpecTokenKind::Number(b)
                } else {
                    self.kind@
                }),
                None => r@.kind == self.kind@,
            },
    {
        match (self.kind, bits) {
            (TokenKind::Id(_), Some(b)) => Token { kind: TokenKind::Number(b), loc: self.loc },
            (kind, _) => Token { kind, loc: self.loc },
        }
    }
}

} // verus!
