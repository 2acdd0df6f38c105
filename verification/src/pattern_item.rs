//! Units: a token with its modifiers.

use vstd::prelude::*;
use crate::model::PatternItemView;
use crate::semantics::{can_repeat, count_of, enough, is_multiple, item_consumed, plain_item, with_modifier};
use crate::text_token::TextToken;
use crate::token::{CharToken, CharType, Token};
use crate::token_modifier::TokenModifier;

verus! {

/// One entry of a compiled pattern: a token and its modifiers.
///
/// A unit without a quantifier holds neither bound and is tried once. A
/// quantifier sets the minimum and, where it has one, the maximum; the unit
/// is then tried again as long as it may. The bounds are kept as they were
/// written: they are not compared with each other.
#[derive(Debug)]
pub struct PatternItem {
    pub token: Token,
    /// Whether the unit may be skipped where its token fails.
    pub optional: bool,
    /// The minimum of the quantifier, where the unit has one. A unit
    /// without one must match once.
    pub more_than: Option<usize>,
    /// The maximum of the quantifier, where it sets one.
    pub less_than: Option<usize>,
}

impl Clone for PatternItem {
    fn clone(&self) -> (copy: Self)
        ensures
            copy@ == self@,
        decreases self,
    {
        Self {
            token: self.token.clone(),
            optional: self.optional,
            more_than: self.more_than,
            less_than: self.less_than,
        }
    }
}

impl View for PatternItem {
    type V = PatternItemView;

    open spec fn view(&self) -> PatternItemView
        decreases self,
    {
        PatternItemView {
            token: self.token@,
            optional: self.optional,
            more_than: self.more_than,
            less_than: self.less_than,
        }
    }
}

impl PatternItem {
    /// A unit that matches `token` exactly once.
    pub fn new(token: Token) -> (item: Self)
        ensures
            item@ == plain_item(token@),
    {
        Self { token, optional: false, more_than: None, less_than: None }
    }

    /// A unit that matches the text token exactly once.
    pub fn new_text(token: TextToken) -> (item: Self)
        ensures
            item@ == plain_item(Token::Text(token)@),
    {
        Self::new(Token::Text(token))
    }

    /// A unit that matches the character token exactly once.
    pub fn new_char(char: CharToken) -> (item: Self)
        ensures
            item@ == plain_item(Token::Char(char)@),
    {
        Self::new(Token::Char(char))
    }

    /// A unit that matches one byte of the kind.
    pub fn new_char_type(char: CharType) -> (item: Self)
        ensures
            item@ == plain_item(Token::Char(CharToken::CharType(char))@),
    {
        Self::new(Token::Char(CharToken::CharType(char)))
    }

    /// Applies a modifier. A quantifier replaces the bounds that an earlier
    /// one has set; the optional mark stays once it is set.
    pub fn apply_modifier(&mut self, modifier: TokenModifier)
        ensures
            final(self)@ == with_modifier(old(self)@, modifier),
    {
        match modifier {
            TokenModifier::Optional => {
                self.optional = true;
            },
            TokenModifier::OneOrMore => {
                self.more_than = Some(1);
                self.less_than = None;
            },
            TokenModifier::Exact(exact) => {
                self.more_than = Some(exact);
                self.less_than = Some(exact);
            },
            TokenModifier::AtLeast(at_least) => {
                self.more_than = Some(at_least);
                self.less_than = None;
            },
            TokenModifier::Between(more_than, less_than) => {
                self.more_than = Some(more_than);
                self.less_than = Some(less_than);
            },
        }
    }

    /// Tries the unit at the head of `input`: what its token takes, or
    /// nothing at all where the token fails and the unit is optional.
    pub fn match_input(&self, input: &[u8]) -> (consumed: Option<usize>)
        ensures
            count_of(consumed) == item_consumed(self@, input@),
            consumed matches Some(n) ==> n <= input@.len(),
        decreases self@,
    {
        match self.token.match_input(input) {
            Some(count) => Some(count),
            None => {
                if self.optional {
                    Some(0)
                } else {
                    None
                }
            },
        }
    }

    /// Whether the unit carries a quantifier.
    pub fn is_multiple_match(&self) -> (multiple: bool)
        ensures
            multiple == is_multiple(self@),
    {
        self.more_than.is_some() || self.less_than.is_some()
    }

    /// Whether `current_times` matches reach the minimum of the unit.
    pub fn is_least_matched(&self, current_times: usize) -> (reached: bool)
        ensures
            reached == enough(self@, current_times as nat),
    {
        match self.more_than {
            Some(more_than) => current_times >= more_than,
            None => current_times >= 1,
        }
    }

    /// Whether the unit, after `current_times` matches, may match once more
    /// without passing its maximum.
    pub fn can_match_more(&self, current_times: usize) -> (allowed: bool)
        ensures
            allowed == can_repeat(self@, current_times as nat),
    {
        match self.less_than {
            Some(less_than) => current_times < less_than,
            None => true,
        }
    }
}

} // verus!
