//! Compiled patterns and their evaluation against lines.

use vstd::prelude::*;
use vstd::slice::slice_subrange;
use vstd::string::*;
use crate::error::{MatchError, ParseError};
use crate::grammar::parse;
use crate::match_pattern::consume_here;
use crate::model::{CharTokenView, PatternItemView, TokenView};
use crate::pattern_item::PatternItem;
use crate::pattern_list::PatternList;
use crate::semantics::{from_cursor, here_consumed, line_matches};
use crate::token::CharToken;

verus! {

/// A compiled pattern, ready to be evaluated against lines.
#[derive(Debug)]
pub struct Pattern {
    /// The units of the pattern and the cursor into them.
    pub pattern: PatternList,
}

impl Clone for Pattern {
    fn clone(&self) -> (copy: Self)
        ensures
            copy.pattern.units() == self.pattern.units(),
            copy.pattern.cursor == self.pattern.cursor,
    {
        Self { pattern: self.pattern.clone() }
    }
}

impl Pattern {
    /// Whether the pattern matches the line `line`. The answer rests on the
    /// units alone, not on where the cursor stands.
    pub open spec fn matches(&self, line: Seq<u8>) -> bool {
        line_matches(self.pattern.units(), line)
    }

    /// A pattern that holds the units of `pattern_list`.
    pub fn new(pattern_list: PatternList) -> (pattern: Self)
        ensures
            pattern.pattern == pattern_list,
    {
        Self { pattern: pattern_list }
    }

    /// Compiles a pattern string.
    pub fn parse(s: &str) -> (compiled: Result<Pattern, ParseError>)
        ensures
            match compiled {
                Ok(pattern) => parse(s.spec_bytes()) == Ok::<Seq<PatternItemView>, ParseError>(
                    pattern.pattern.units(),
                ) && pattern.pattern.cursor == 0,
                Err(e) => parse(s.spec_bytes()) == Err::<Seq<PatternItemView>, ParseError>(e),
            },
    {
        match PatternList::parse_bytes(s.as_bytes()) {
            Ok(pattern) => Ok(Self { pattern }),
            Err(e) => Err(e),
        }
    }

    /// Whether the pattern matches anywhere in `input`, or at its start
    /// where the pattern begins with a start anchor. The verdict depends on
    /// the units and the line alone: the cursor is put on the first unit
    /// before the evaluation and again after it, so that a pattern serves
    /// any number of lines, one after the other.
    pub fn match_line(&mut self, input: &str) -> (verdict: Result<bool, MatchError>)
        ensures
            verdict == Ok::<bool, MatchError>(old(self).matches(input.spec_bytes())),
            final(self).pattern.inner == old(self).pattern.inner,
            final(self).pattern.cursor == 0,
    {
        self.pattern.reset();
        let res = self.match_line_proceed(input.as_bytes());
        self.pattern.reset();
        res
    }

    /// The evaluation itself, with the cursor on the first unit: one
    /// attempt at the head of the line behind a start anchor, else one
    /// attempt at each position of the line in turn.
    fn match_line_proceed(&mut self, input: &[u8]) -> (verdict: Result<bool, MatchError>)
        requires
            old(self).pattern.cursor == 0,
        ensures
            verdict == Ok::<bool, MatchError>(line_matches(old(self).pattern.units(), input@)),
            final(self).pattern.inner == old(self).pattern.inner,
    {
        let ghost units = self.pattern.units();
        if self.pattern.is_next_token(CharToken::StartLine) {
            self.pattern.next();
            return Ok(self.match_here(input));
        }
        let mut start: usize = 0;
        loop
            invariant
                start <= input@.len(),
                self.pattern.cursor == 0,
                self.pattern.inner == old(self).pattern.inner,
                units == self.pattern.units(),
                !(units.len() > 0 && units[0].token == TokenView::Char(CharTokenView::StartLine)),
                forall|k: int| 0 <= k < start ==> here_consumed(units, input@.skip(k)) is None,
            decreases input@.len() - start,
        {
            assert(from_cursor(units, 0) =~= units);
            if self.match_here(slice_subrange(input, start, input.len())) {
                return Ok(true);
            }
            if start == input.len() {
                return Ok(false);
            }
            start += 1;
            self.pattern.reset();
        }
    }

    /// Anchored match of the units from the cursor on at the head of
    /// `input`. The cursor stays where it is.
    pub fn match_here(&self, input: &[u8]) -> (matched: bool)
        ensures
            matched == (here_consumed(self.pattern.remaining(), input@) is Some),
    {
        consume_here(input, &self.pattern, self.pattern.cursor).is_some()
    }

    /// Whether the unit under the cursor holds the character token
    /// `token_to_check`, whatever its modifiers.
    pub fn is_next_token(&self, token_to_check: CharToken) -> (same: bool)
        ensures
            same == (self.pattern.next_unit() matches Some(u) && u.token == TokenView::Char(
                token_to_check@,
            )),
    {
        self.pattern.is_next_token(token_to_check)
    }

    /// Whether the unit under the cursor is optional.
    pub fn is_next_optional(&self) -> (optional: bool)
        ensures
            optional == (self.pattern.next_unit() matches Some(u) && u.optional),
    {
        self.pattern.is_next_optional()
    }

    /// Hands out the unit under the cursor and moves the cursor on by one,
    /// also where it has passed the last unit and there is nothing to hand
    /// out. Only a cursor that has reached the largest `usize` stays.
    pub fn next(&mut self) -> (item: Option<&PatternItem>)
        ensures
            final(self).pattern.inner == old(self).pattern.inner,
            item is Some == (old(self).pattern.cursor < old(self).pattern.inner@.len()),
            item matches Some(unit) ==> *unit == old(self).pattern.inner@[old(self).pattern.cursor as int],
            final(self).pattern.cursor == if old(self).pattern.cursor < usize::MAX {
                old(self).pattern.cursor + 1
            } else {
                old(self).pattern.cursor as int
            },
    {
        self.pattern.next()
    }

    /// The unit under the cursor.
    pub fn peek(&self) -> (item: Option<&PatternItem>)
        ensures
            item is Some == (self.pattern.cursor < self.pattern.inner@.len()),
            item matches Some(unit) ==> *unit == self.pattern.inner@[self.pattern.cursor as int],
    {
        self.pattern.peek()
    }
}

impl std::ops::Index<usize> for Pattern {
    type Output = PatternItem;

    /// The unit at `index`, which must be the index of a unit.
    fn index(&self, index: usize) -> (item: &PatternItem)
        ensures
            *item == self.pattern.inner@[index as int],
    {
        &self.pattern.inner[index]
    }
}

impl vstd::std_specs::core::IndexSpecImpl<usize> for Pattern {
    open spec fn index_req(&self, index: &usize) -> bool {
        *index < self.pattern.inner@.len()
    }
}

impl std::str::FromStr for Pattern {
    type Err = ParseError;

    /// Compiles a pattern string, as `Pattern::parse` does.
    fn from_str(s: &str) -> (compiled: Result<Self, Self::Err>)
        ensures
            match compiled {
                Ok(pattern) => parse(s.spec_bytes()) == Ok::<Seq<PatternItemView>, ParseError>(
                    pattern.pattern.units(),
                ) && pattern.pattern.cursor == 0,
                Err(e) => parse(s.spec_bytes()) == Err::<Seq<PatternItemView>, ParseError>(e),
            },
    {
        Pattern::parse(s)
    }
}

} // verus!
