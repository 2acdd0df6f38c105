//! Modifiers: what `?`, `+` and `{..}` ask of the unit before them.

use vstd::prelude::*;

verus! {

/// A quantifier or optionality mark that follows a pattern unit.
#[derive(Clone, Copy, Debug)]
pub enum TokenModifier {
    /// `?`: the unit may be skipped.
    Optional,
    /// `+`: once at least, with no maximum.
    OneOrMore,
    /// `{n}`: `n` times.
    Exact(usize),
    /// `{n,}`: `n` times at least, with no maximum.
    AtLeast(usize),
    /// `{n,m}`: `n` times at least and `m` times at most.
    Between(usize, usize),
}

} // verus!
