//! The pattern dialect: what a pattern string compiles to.

use vstd::prelude::*;
use vstd::utf8::valid_utf8;
use crate::ascii::{
    BACKSLASH, BAR, CARET, CLOSE_BRACE, CLOSE_BRACKET, CLOSE_PAREN, COMMA, DIGIT_0, DOLLAR, DOT,
    LOWER_D, LOWER_S, LOWER_W, OPEN_BRACE, OPEN_BRACKET, OPEN_PAREN, PLUS, QUESTION, STAR, UPPER_D,
    UPPER_S, UPPER_W,
};
use crate::error::ParseError;
use crate::model::{CharTokenView, PatternItemView, TextTokenView, TokenView};
use crate::semantics::{plain_item, with_modifier};
use crate::token::{is_digit, CharType};
use crate::token_modifier::TokenModifier;

verus! {

/// The index of the first `b` in `s` at or after `from`.
pub open spec fn first_index_of(s: Seq<u8>, from: int, b: u8) -> Option<int>
    decreases s.len() - from,
{
    if from < 0 || from >= s.len() {
        None
    } else if s[from] == b {
        Some(from)
    } else {
        first_index_of(s, from + 1, b)
    }
}

/// `first_index_of` finds the least index that holds `b`, if there is one.
pub proof fn lemma_first_index_of(s: Seq<u8>, from: int, b: u8)
    requires
        0 <= from,
    ensures
        match first_index_of(s, from, b) {
            Some(j) => from <= j < s.len() && s[j] == b && forall|k: int| from <= k < j ==> s[k] != b,
            None => forall|k: int| from <= k < s.len() ==> s[k] != b,
        },
    decreases s.len() - from,
{
    if from < s.len() && s[from] != b {
        lemma_first_index_of(s, from + 1, b);
    }
}

/// The group that opens just before `from`: its bytes up to the first
/// `close`, and the index after that `close`.
pub open spec fn group_at(s: Seq<u8>, from: int, close: u8) -> Result<(Seq<u8>, int), ParseError> {
    match first_index_of(s, from, close) {
        None => Err(ParseError::UnterminatedGroup),
        Some(j) => if j == from {
            Err(ParseError::EmptyGroup)
        } else {
            Ok((s.subrange(from, j), j + 1))
        },
    }
}

/// The number that a run of ASCII digits writes in base ten.
pub open spec fn decimal_value(digits: Seq<u8>) -> nat
    decreases digits.len(),
{
    if digits.len() == 0 {
        0
    } else {
        decimal_value(digits.drop_last()) * 10 + (digits.last() - DIGIT_0) as nat
    }
}

/// Whether every byte of `s` is an ASCII digit.
pub open spec fn all_digits(s: Seq<u8>) -> bool {
    forall|i: int| 0 <= i < s.len() ==> is_digit(#[trigger] s[i])
}

/// A number as a quantifier writes it: an optional `+`, then one or more
/// ASCII digits whose value fits in `usize`.
pub open spec fn number_of(s: Seq<u8>) -> Option<usize> {
    let digits = if s.len() > 0 && s[0] == PLUS {
        s.skip(1)
    } else {
        s
    };
    if digits.len() > 0 && all_digits(digits) && decimal_value(digits) <= usize::MAX {
        Some(decimal_value(digits) as usize)
    } else {
        None
    }
}

/// The modifier that the contents of `{..}` stand for.
pub open spec fn quantifier_of(group: Seq<u8>) -> Result<TokenModifier, ParseError> {
    if !valid_utf8(group) {
        Err(ParseError::NonUtf8Quantifier)
    } else {
        match first_index_of(group, 0, COMMA) {
            Some(comma) => match number_of(group.subrange(0, comma)) {
                None => Err(ParseError::BadQuantifier),
                Some(at_least) => if comma + 1 == group.len() {
                    Ok(TokenModifier::AtLeast(at_least))
                } else {
                    match number_of(group.subrange(comma + 1, group.len() as int)) {
                        None => Err(ParseError::BadQuantifier),
                        Some(less_than) => Ok(TokenModifier::Between(at_least, less_than)),
                    }
                },
            },
            None => match number_of(group) {
                None => Err(ParseError::BadQuantifier),
                Some(exact) => Ok(TokenModifier::Exact(exact)),
            },
        }
    }
}

/// The token that `\` and the byte after it stand for.
pub open spec fn escape_token(b: u8) -> CharTokenView {
    if b == LOWER_D {
        CharTokenView::CharType(CharType::Digit)
    } else if b == UPPER_D {
        CharTokenView::CharType(CharType::NonDigit)
    } else if b == LOWER_W {
        CharTokenView::CharType(CharType::Alphanumeric)
    } else if b == UPPER_W {
        CharTokenView::CharType(CharType::NonAlphanumeric)
    } else if b == LOWER_S {
        CharTokenView::CharType(CharType::Whitespace)
    } else if b == UPPER_S {
        CharTokenView::CharType(CharType::NonWhitespace)
    } else {
        CharTokenView::Exact(b)
    }
}

/// The token that the contents of `[..]` stand for.
pub open spec fn class_token(group: Seq<u8>) -> CharTokenView {
    if group.len() > 0 && group[0] == CARET {
        CharTokenView::NegativeGroup(group.skip(1))
    } else {
        CharTokenView::Group(group)
    }
}

/// A unit that matches the character token exactly once.
pub open spec fn char_item(token: CharTokenView) -> PatternItemView {
    plain_item(TokenView::Char(token))
}

/// `units` with `modifier` applied to its last unit.
pub open spec fn modify_last(units: Seq<PatternItemView>, modifier: TokenModifier) -> Seq<PatternItemView> {
    units.update(units.len() - 1, with_modifier(units.last(), modifier))
}

/// The units that a pattern string compiles to.
pub open spec fn parse(bytes: Seq<u8>) -> Result<Seq<PatternItemView>, ParseError>
    decreases bytes.len(), 2nat, 0nat,
{
    parse_from(bytes, 0, Seq::empty())
}

/// The branches of an alternation, from the bytes between `(` and `)`: the
/// pieces between the `|` bytes, each compiled as a pattern of its own. The
/// first piece that does not compile gives its error to the whole.
pub open spec fn branches_in(group: Seq<u8>) -> Result<Seq<Seq<PatternItemView>>, ParseError>
    decreases group.len(), 3nat, 0nat,
{
    match first_index_of(group, 0, BAR) {
        None => match parse(group) {
            Ok(units) => Ok(seq![units]),
            Err(e) => Err(e),
        },
        Some(bar) => {
            proof {
                lemma_first_index_of(group, 0, BAR);
            }
            match parse(group.subrange(0, bar)) {
                Err(e) => Err(e),
                Ok(units) => match branches_in(group.subrange(bar + 1, group.len() as int)) {
                    Ok(later) => Ok(seq![units] + later),
                    Err(e) => Err(e),
                },
            }
        },
    }
}

/// Compiles `bytes` from index `i` on, after `units` were emitted for the
/// bytes before `i`.
pub open spec fn parse_from(bytes: Seq<u8>, i: int, units: Seq<PatternItemView>) -> Result<
    Seq<PatternItemView>,
    ParseError,
>
    decreases bytes.len(), 1nat, bytes.len() - i,
{
    if i < 0 || i >= bytes.len() {
        Ok(units)
    } else if bytes[i] == QUESTION {
        if units.len() == 0 {
            Err(ParseError::ModifierWithoutToken)
        } else {
            parse_from(bytes, i + 1, modify_last(units, TokenModifier::Optional))
        }
    } else if bytes[i] == PLUS {
        if units.len() == 0 {
            Err(ParseError::ModifierWithoutToken)
        } else {
            parse_from(bytes, i + 1, modify_last(units, TokenModifier::OneOrMore))
        }
    } else if bytes[i] == CARET && i == 0 {
        parse_from(bytes, i + 1, units.push(char_item(CharTokenView::StartLine)))
    } else if bytes[i] == DOLLAR && i == bytes.len() - 1 {
        parse_from(bytes, i + 1, units.push(char_item(CharTokenView::EndLine)))
    } else if bytes[i] == DOT {
        parse_from(bytes, i + 1, units.push(char_item(CharTokenView::Wildcard)))
    } else if bytes[i] == STAR {
        let any = with_modifier(char_item(CharTokenView::Wildcard), TokenModifier::OneOrMore);
        if i + 1 < bytes.len() && bytes[i + 1] == DOT {
            parse_from(bytes, i + 2, units.push(any).push(char_item(CharTokenView::Exact(DOT))))
        } else {
            parse_from(bytes, i + 1, units.push(any))
        }
    } else if bytes[i] == BACKSLASH {
        if i + 1 >= bytes.len() {
            Err(ParseError::DanglingEscape)
        } else {
            parse_from(bytes, i + 2, units.push(char_item(escape_token(bytes[i + 1]))))
        }
    } else if bytes[i] == OPEN_PAREN {
        match group_at(bytes, i + 1, CLOSE_PAREN) {
            Err(e) => Err(e),
            Ok((group, next)) => {
                proof {
                    lemma_first_index_of(bytes, i + 1, CLOSE_PAREN);
                }
                match branches_in(group) {
                    Err(e) => Err(e),
                    Ok(branches) => parse_from(
                        bytes,
                        next,
                        units.push(plain_item(TokenView::Text(TextTokenView::Alteration(branches)))),
                    ),
                }
            },
        }
    } else if bytes[i] == OPEN_BRACKET {
        match group_at(bytes, i + 1, CLOSE_BRACKET) {
            Err(e) => Err(e),
            Ok((group, next)) => {
                proof {
                    lemma_first_index_of(bytes, i + 1, CLOSE_BRACKET);
                }
                parse_from(bytes, next, units.push(char_item(class_token(group))))
            },
        }
    } else if bytes[i] == OPEN_BRACE {
        match group_at(bytes, i + 1, CLOSE_BRACE) {
            Err(e) => Err(e),
            Ok((group, next)) => match quantifier_of(group) {
                Err(e) => Err(e),
                Ok(modifier) => if units.len() == 0 {
                    Err(ParseError::ModifierWithoutToken)
                } else {
                    proof {
                        lemma_first_index_of(bytes, i + 1, CLOSE_BRACE);
                    }
                    parse_from(bytes, next, modify_last(units, modifier))
                },
            },
        }
    } else {
        parse_from(bytes, i + 1, units.push(char_item(CharTokenView::Exact(bytes[i]))))
    }
}

} // verus!
