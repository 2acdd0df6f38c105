//! What can go wrong.

use vstd::prelude::*;

verus! {

/// Why a pattern string was rejected.
#[derive(Clone, Copy, Debug, PartialEq, Eq, Structural)]
pub enum ParseError {
    /// `\` with no byte after it.
    DanglingEscape,
    /// `?`, `+` or `{..}` with no unit before it.
    ModifierWithoutToken,
    /// `(`, `[` or `{` without its closing byte.
    UnterminatedGroup,
    /// `()`, `[]` or `{}`.
    EmptyGroup,
    /// The contents of `{..}` are not `n`, `n,` or `n,m`.
    BadQuantifier,
    /// The contents of `{..}` are not well-formed UTF-8.
    NonUtf8Quantifier,
}

impl ParseError {
    /// The text of the diagnostic for this error.
    pub open spec fn text(self) -> Seq<char> {
        match self {
            ParseError::DanglingEscape => "incorrect pattern: \\ symbol without value after it"@,
            ParseError::ModifierWithoutToken => "incorrect modifier usage: used without token"@,
            ParseError::UnterminatedGroup => "incorrect pattern group: group open without end"@,
            ParseError::EmptyGroup => "incorrect group pattern: empty group"@,
            ParseError::BadQuantifier => "incorrect quantifier: value is not a number"@,
            ParseError::NonUtf8Quantifier => "incorrect quantifier: contents are not UTF-8"@,
        }
    }

    /// The diagnostic for this error, for a person to read.
    pub fn message(&self) -> (message: String)
        ensures
            message@ == self.text(),
    {
        match self {
            ParseError::DanglingEscape => "incorrect pattern: \\ symbol without value after it".to_owned(),
            ParseError::ModifierWithoutToken => "incorrect modifier usage: used without token".to_owned(),
            ParseError::UnterminatedGroup => "incorrect pattern group: group open without end".to_owned(),
            ParseError::EmptyGroup => "incorrect group pattern: empty group".to_owned(),
            ParseError::BadQuantifier => "incorrect quantifier: value is not a number".to_owned(),
            ParseError::NonUtf8Quantifier => "incorrect quantifier: contents are not UTF-8".to_owned(),
        }
    }
}

/// Why a line could not be evaluated. The error channel is kept for later
/// use: matching as it stands never fails.
#[derive(Clone, Copy, Debug, PartialEq, Eq, Structural)]
pub enum MatchError {
    /// The evaluation was given up. The matcher does not return it.
    Timeout,
}

} // verus!
