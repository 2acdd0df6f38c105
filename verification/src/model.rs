//! Patterns as plain values: what the contracts of the library speak of.

use vstd::prelude::*;
use crate::token::CharType;

verus! {

/// What a character token is, as a plain value: a predicate on one byte, or
/// an anchor that takes no byte.
pub enum CharTokenView {
    /// The byte itself.
    Exact(u8),
    /// Any byte.
    Wildcard,
    /// One of the listed bytes.
    Group(Seq<u8>),
    /// Any byte but the listed ones.
    NegativeGroup(Seq<u8>),
    /// A byte of the kind.
    CharType(CharType),
    /// The start of the line.
    StartLine,
    /// The end of the line.
    EndLine,
}

/// What a text token is, as a plain value: the branches of an alternation,
/// in the order in which they were written, each a sequence of units.
pub enum TextTokenView {
    Alteration(Seq<Seq<PatternItemView>>),
}

/// What a token is, as a plain value.
pub enum TokenView {
    Char(CharTokenView),
    Text(TextTokenView),
}

/// What a unit of a pattern is, as a plain value: a token and its modifiers.
pub struct PatternItemView {
    pub token: TokenView,
    /// Whether the unit may be skipped where its token fails.
    pub optional: bool,
    /// The minimum of the quantifier, where the unit has one.
    pub more_than: Option<usize>,
    /// The maximum of the quantifier, where it sets one.
    pub less_than: Option<usize>,
}

} // verus!
