//! Tokens: what one unit of a pattern matches with.

use vstd::prelude::*;
use crate::ascii::{
    CARRIAGE_RETURN, DIGIT_0, DIGIT_9, FORM_FEED, LINE_FEED, LOWER_A, LOWER_Z, SPACE, TAB, UPPER_A,
    UPPER_Z,
};
use crate::model::{CharTokenView, TokenView};
use crate::semantics::{char_token_accepts, count_of, token_consumed};
use crate::text_token::TextToken;

verus! {

/// A shorthand predicate over a single ASCII byte.
#[derive(Clone, Copy, Debug, PartialEq, Eq, Structural)]
pub enum CharType {
    Digit,
    Alphanumeric,
    Whitespace,
    NonDigit,
    NonAlphanumeric,
    NonWhitespace,
}

/// An ASCII decimal digit.
pub open spec fn is_digit(b: u8) -> bool {
    DIGIT_0 <= b <= DIGIT_9
}

/// An ASCII letter or digit.
pub open spec fn is_alphanumeric(b: u8) -> bool {
    is_digit(b) || UPPER_A <= b <= UPPER_Z || LOWER_A <= b <= LOWER_Z
}

/// An ASCII space, tab, line feed, form feed or carriage return.
pub open spec fn is_whitespace(b: u8) -> bool {
    b == SPACE || b == TAB || b == LINE_FEED || b == FORM_FEED || b == CARRIAGE_RETURN
}

impl CharType {
    /// Whether the byte `b` is of this kind.
    pub open spec fn accepts(self, b: u8) -> bool {
        match self {
            CharType::Digit => is_digit(b),
            CharType::Alphanumeric => is_alphanumeric(b),
            CharType::Whitespace => is_whitespace(b),
            CharType::NonDigit => !is_digit(b),
            CharType::NonAlphanumeric => !is_alphanumeric(b),
            CharType::NonWhitespace => !is_whitespace(b),
        }
    }

    /// Whether the byte is of this kind.
    pub fn match_char(&self, input_ch: &u8) -> (hit: bool)
        ensures
            hit == self.accepts(*input_ch),
    {
        let b: u8 = *input_ch;
        let digit = DIGIT_0 <= b && b <= DIGIT_9;
        let alnum = digit || (UPPER_A <= b && b <= UPPER_Z) || (LOWER_A <= b && b <= LOWER_Z);
        let space = b == SPACE || b == TAB || b == LINE_FEED || b == FORM_FEED
            || b == CARRIAGE_RETURN;
        match self {
            CharType::Digit => digit,
            CharType::Alphanumeric => alnum,
            CharType::Whitespace => space,
            CharType::NonDigit => !digit,
            CharType::NonAlphanumeric => !alnum,
            CharType::NonWhitespace => !space,
        }
    }
}

/// One position's worth of matching: a predicate on one byte, or an anchor
/// that takes no byte.
#[derive(Debug)]
pub enum CharToken {
    /// The byte itself.
    Exact(u8),
    /// Any byte.
    Wildcard,
    /// One of the listed bytes.
    Group(Vec<u8>),
    /// Any byte but the listed ones.
    NegativeGroup(Vec<u8>),
    /// A byte of the kind.
    CharType(CharType),
    /// The start of the line.
    StartLine,
    /// The end of the line.
    EndLine,
}

impl Clone for CharToken {
    fn clone(&self) -> (copy: Self)
        ensures
            copy@ == self@,
    {
        match self {
            CharToken::Exact(c) => CharToken::Exact(*c),
            CharToken::Wildcard => CharToken::Wildcard,
            CharToken::Group(set) => CharToken::Group(set.clone()),
            CharToken::NegativeGroup(set) => CharToken::NegativeGroup(set.clone()),
            CharToken::CharType(kind) => CharToken::CharType(*kind),
            CharToken::StartLine => CharToken::StartLine,
            CharToken::EndLine => CharToken::EndLine,
        }
    }
}

impl PartialEq for CharToken {
    /// Whether the two tokens are the same token.
    fn eq(&self, other: &CharToken) -> (same: bool) {
        self.same_as(other)
    }
}

impl vstd::std_specs::cmp::PartialEqSpecImpl for CharToken {
    open spec fn obeys_eq_spec() -> bool {
        true
    }

    /// In executable code, `==` compares what the tokens hold.
    open spec fn eq_spec(&self, other: &CharToken) -> bool {
        self@ == other@
    }
}

impl View for CharToken {
    type V = CharTokenView;

    open spec fn view(&self) -> CharTokenView {
        match self {
            CharToken::Exact(c) => CharTokenView::Exact(*c),
            CharToken::Wildcard => CharTokenView::Wildcard,
            CharToken::Group(set) => CharTokenView::Group(set@),
            CharToken::NegativeGroup(set) => CharTokenView::NegativeGroup(set@),
            CharToken::CharType(kind) => CharTokenView::CharType(*kind),
            CharToken::StartLine => CharTokenView::StartLine,
            CharToken::EndLine => CharTokenView::EndLine,
        }
    }
}

/// Whether `b` occurs in `set`.
pub fn contains_byte(set: &Vec<u8>, b: u8) -> (found: bool)
    ensures
        found == set@.contains(b),
{
    let mut i: usize = 0;
    while i < set.len()
        invariant
            i <= set.len(),
            forall|j: int| 0 <= j < i ==> set@[j] != b,
        decreases set.len() - i,
    {
        if set[i] == b {
            return true;
        }
        i += 1;
    }
    false
}

/// Whether `a` and `b` hold the same bytes in the same order.
pub fn same_bytes(a: &Vec<u8>, b: &Vec<u8>) -> (same: bool)
    ensures
        same == (a@ == b@),
{
    if a.len() != b.len() {
        return false;
    }
    let mut i: usize = 0;
    while i < a.len()
        invariant
            i <= a.len(),
            a.len() == b.len(),
            forall|j: int| 0 <= j < i ==> a@[j] == b@[j],
        decreases a.len() - i,
    {
        if a[i] != b[i] {
            return false;
        }
        i += 1;
    }
    assert(a@ =~= b@);
    true
}

impl CharToken {
    /// Whether the two tokens are the same token.
    pub fn same_as(&self, other: &CharToken) -> (same: bool)
        ensures
            same == (self@ == other@),
    {
        match (self, other) {
            (CharToken::Exact(a), CharToken::Exact(b)) => *a == *b,
            (CharToken::Wildcard, CharToken::Wildcard) => true,
            (CharToken::Group(a), CharToken::Group(b)) => same_bytes(a, b),
            (CharToken::NegativeGroup(a), CharToken::NegativeGroup(b)) => same_bytes(a, b),
            (CharToken::CharType(a), CharToken::CharType(b)) => *a == *b,
            (CharToken::StartLine, CharToken::StartLine) => true,
            (CharToken::EndLine, CharToken::EndLine) => true,
            _ => false,
        }
    }

    /// Whether the token accepts the byte. The anchors accept no byte.
    pub fn match_char(&self, input_ch: &u8) -> (hit: bool)
        ensures
            hit == char_token_accepts(self@, *input_ch),
    {
        match self {
            CharToken::Exact(ch) => *input_ch == *ch,
            CharToken::CharType(char_type) => char_type.match_char(input_ch),
            CharToken::Group(group) => contains_byte(group, *input_ch),
            CharToken::NegativeGroup(group) => !contains_byte(group, *input_ch),
            CharToken::Wildcard => true,
            _ => false,
        }
    }
}

/// What one pattern unit matches with: a character token or a text token.
#[derive(Debug)]
pub enum Token {
    Char(CharToken),
    Text(TextToken),
}

impl Token {
    /// Tries the token at the head of `input` and says how many bytes it takes.
    pub fn match_input(&self, input: &[u8]) -> (consumed: Option<usize>)
        ensures
            count_of(consumed) == token_consumed(self@, input@),
            consumed matches Some(n) ==> n <= input@.len(),
        decreases self@,
    {
        match self {
            Token::Char(token) => match token {
                CharToken::StartLine => None,
                CharToken::EndLine => if input.len() == 0 {
                    Some(0)
                } else {
                    None
                },
                _ => if input.len() > 0 && token.match_char(&input[0]) {
                    Some(1)
                } else {
                    None
                },
            },
            Token::Text(token) => token.match_input(input),
        }
    }
}

impl Clone for Token {
    fn clone(&self) -> (copy: Self)
        ensures
            copy@ == self@,
        decreases self,
    {
        match self {
            Token::Char(token) => Token::Char(token.clone()),
            Token::Text(token) => Token::Text(token.clone()),
        }
    }
}

impl View for Token {
    type V = TokenView;

    open spec fn view(&self) -> TokenView
        decreases self,
    {
        match self {
            Token::Char(c) => TokenView::Char(c@),
            Token::Text(t) => TokenView::Text(t@),
        }
    }
}

} // verus!
