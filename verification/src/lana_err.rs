use vstd::prelude::*;

use crate::lexer::token::{SpecToken, Token};

verus! {

/// An error at the specification level.
pub enum SpecErr {
    Reason(Seq<char>),
    UnexpectedToken(SpecToken),
    UnterminatedExpr(char, SpecToken),
}

/// Everything that can go wrong: a free-form reason for runtime errors, a
/// close parenthesis with no opener, and an opening token whose closing
/// counterpart is missing (carried with the character that would close it).
#[derive(PartialEq, Debug, Clone)]
pub enum LanaErr {
    Reason(String),
    UnexpectedToken(Token),
    UnterminatedExpr(char, Token),
}

impl View for LanaErr {
    type V = SpecErr;

    open spec fn view(&self) -> SpecErr {
        match self {
            LanaErr::Reason(s) => SpecErr::Reason(s@),
            LanaErr::UnexpectedToken(t) => SpecErr::UnexpectedToken(t@),
            LanaErr::UnterminatedExpr(c, t) => SpecErr::UnterminatedExpr(*c, t@),
        }
    }
}

} // verus!
