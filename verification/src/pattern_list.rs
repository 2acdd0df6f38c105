//! Unit lists with a cursor, and the compiler from pattern strings to them.

use vstd::prelude::*;
use vstd::slice::{slice_subrange, slice_to_vec};
use vstd::string::*;
use vstd::utf8::valid_utf8;
use crate::ascii::{
    BACKSLASH, BAR, CARET, CLOSE_BRACE, CLOSE_BRACKET, CLOSE_PAREN, COMMA, DIGIT_0, DIGIT_9,
    DOLLAR, DOT, LOWER_D, LOWER_S, LOWER_W, OPEN_BRACE, OPEN_BRACKET, OPEN_PAREN, PLUS, QUESTION,
    STAR, UPPER_D, UPPER_S, UPPER_W,
};
use crate::error::ParseError;
use crate::grammar::{
    all_digits, branches_in, decimal_value, escape_token, first_index_of, group_at,
    lemma_first_index_of, modify_last, number_of, parse, parse_from, quantifier_of,
};
use crate::model::{PatternItemView, TokenView};
use crate::pattern_item::PatternItem;
use crate::semantics::from_cursor;
use crate::text_token::TextToken;
use crate::token::{CharToken, CharType, Token};
use crate::token_modifier::TokenModifier;

verus! {

/// An ordered sequence of pattern units with a read cursor.
#[derive(Debug)]
pub struct PatternList {
    /// The units, in the order in which they are matched.
    pub inner: Vec<PatternItem>,
    /// The index of the unit that is due next.
    pub cursor: usize,
}

/// The units of `items`, as plain values.
pub open spec fn items_view(items: Seq<PatternItem>) -> Seq<PatternItemView>
    decreases items,
{
    Seq::new(
        items.len(),
        |i: int|
            if 0 <= i < items.len() {
                items[i]@
            } else {
                arbitrary()
            },
    )
}

/// The units of each of `lists`, as plain values.
pub open spec fn lists_view(lists: Seq<PatternList>) -> Seq<Seq<PatternItemView>>
    decreases lists,
{
    Seq::new(
        lists.len(),
        |j: int|
            if 0 <= j < lists.len() {
                lists[j].units()
            } else {
                Seq::empty()
            },
    )
}

impl Clone for PatternList {
    fn clone(&self) -> (copy: Self)
        ensures
            copy.units() == self.units(),
            copy.cursor == self.cursor,
        decreases self,
    {
        let mut inner: Vec<PatternItem> = Vec::new();
        let mut i: usize = 0;
        while i < self.inner.len()
            invariant
                i <= self.inner.len(),
                inner@.len() == i,
                forall|k: int| 0 <= k < i ==> inner@[k]@ == self.inner@[k]@,
            decreases self.inner.len() - i,
        {
            inner.push(self.inner[i].clone());
            i += 1;
        }
        Self { inner, cursor: self.cursor }
    }
}

impl PatternList {
    /// The units of the list, as plain values.
    pub open spec fn units(&self) -> Seq<PatternItemView>
        decreases self,
    {
        items_view(self.inner@)
    }

    /// The unit under the cursor, if the cursor has not passed the last one.
    pub open spec fn next_unit(&self) -> Option<PatternItemView> {
        if self.cursor < self.inner@.len() {
            Some(self.units()[self.cursor as int])
        } else {
            None
        }
    }

    /// The units from the cursor on.
    pub open spec fn remaining(&self) -> Seq<PatternItemView> {
        from_cursor(self.units(), self.cursor as int)
    }

    /// Whether the unit under the cursor holds the character token
    /// `token_to_check`, whatever its modifiers.
    pub fn is_next_token(&self, token_to_check: CharToken) -> (same: bool)
        ensures
            same == (self.next_unit() matches Some(u) && u.token == TokenView::Char(
                token_to_check@,
            )),
    {
        if self.cursor < self.inner.len() {
            match &self.inner[self.cursor].token {
                Token::Char(token) => *token == token_to_check,
                _ => false,
            }
        } else {
            false
        }
    }

    /// Whether the unit under the cursor is optional.
    pub fn is_next_optional(&self) -> (optional: bool)
        ensures
            optional == (self.next_unit() matches Some(u) && u.optional),
    {
        if self.cursor < self.inner.len() {
            self.inner[self.cursor].optional
        } else {
            false
        }
    }

    /// Hands out the unit under the cursor and moves the cursor on by one,
    /// also where it has passed the last unit and there is nothing to hand
    /// out. Only a cursor that has reached the largest `usize` stays.
    pub fn next(&mut self) -> (item: Option<&PatternItem>)
        ensures
            final(self).inner == old(self).inner,
            item is Some == (old(self).cursor < old(self).inner@.len()),
            item matches Some(unit) ==> *unit == old(self).inner@[old(self).cursor as int],
            final(self).cursor == if old(self).cursor < usize::MAX {
                old(self).cursor + 1
            } else {
                old(self).cursor as int
            },
    {
        let at = self.cursor;
        if at < usize::MAX {
            self.cursor = at + 1;
        }
        if at < self.inner.len() {
            Some(&self.inner[at])
        } else {
            None
        }
    }

    /// The unit under the cursor.
    pub fn peek(&self) -> (item: Option<&PatternItem>)
        ensures
            item is Some == (self.cursor < self.inner@.len()),
            item matches Some(unit) ==> *unit == self.inner@[self.cursor as int],
    {
        if self.cursor < self.inner.len() {
            Some(&self.inner[self.cursor])
        } else {
            None
        }
    }

    /// Puts the cursor back on the first unit.
    pub fn reset(&mut self)
        ensures
            final(self).inner == old(self).inner,
            final(self).cursor == 0,
    {
        self.cursor = 0;
    }
}

impl std::ops::Index<usize> for PatternList {
    type Output = PatternItem;

    /// The unit at `index`, which must be the index of a unit.
    fn index(&self, index: usize) -> (item: &PatternItem)
        ensures
            *item == self.inner@[index as int],
    {
        &self.inner[index]
    }
}

impl vstd::std_specs::core::IndexSpecImpl<usize> for PatternList {
    open spec fn index_req(&self, index: &usize) -> bool {
        *index < self.inner@.len()
    }
}

/// The index of the first `b` in `bytes` at or after `from`.
pub fn find_byte(bytes: &[u8], from: usize, b: u8) -> (found: Option<usize>)
    ensures
        match found {
            Some(j) => first_index_of(bytes@, from as int, b) == Some(j as int),
            None => first_index_of(bytes@, from as int, b) is None,
        },
        match found {
            Some(j) => from <= j < bytes.len() && bytes@[j as int] == b && forall|k: int|
                from <= k < j ==> bytes@[k] != b,
            None => forall|k: int| from <= k < bytes.len() ==> bytes@[k] != b,
        },
{
    let mut j: usize = from;
    while j < bytes.len()
        invariant
            from <= j,
            first_index_of(bytes@, from as int, b) == first_index_of(bytes@, j as int, b),
        decreases bytes.len() - j,
    {
        if bytes[j] == b {
            proof {
                lemma_first_index_of(bytes@, from as int, b);
            }
            return Some(j);
        }
        j += 1;
    }
    proof {
        lemma_first_index_of(bytes@, from as int, b);
    }
    None
}

/// Reads a group whose opening byte stands just before `start`: the bytes up
/// to the first `end_char`, and the index after it.
pub fn parse_group(pattern: &[u8], start: usize, end_char: u8) -> (group: Result<
    (Vec<u8>, usize),
    ParseError,
>)
    ensures
        match group {
            Ok((bytes, next)) => group_at(pattern@, start as int, end_char) == Ok::<
                (Seq<u8>, int),
                ParseError,
            >((bytes@, next as int)) && start < next <= pattern@.len() && bytes@.len() == next
                - 1 - start,
            Err(e) => group_at(pattern@, start as int, end_char) == Err::<(Seq<u8>, int), ParseError>(
                e,
            ),
        },
{
    proof {
        lemma_first_index_of(pattern@, start as int, end_char);
    }
    match find_byte(pattern, start, end_char) {
        None => Err(ParseError::UnterminatedGroup),
        Some(end) => {
            if end == start {
                Err(ParseError::EmptyGroup)
            } else {
                Ok((slice_to_vec(slice_subrange(pattern, start, end)), end + 1))
            }
        },
    }
}

/// The value of a prefix of a run of digits is at most that of the run.
pub proof fn lemma_decimal_value_prefix(digits: Seq<u8>, n: int)
    requires
        0 <= n <= digits.len(),
    ensures
        decimal_value(digits.take(n)) <= decimal_value(digits),
    decreases digits.len(),
{
    if n == digits.len() {
        assert(digits.take(n) =~= digits);
    } else {
        assert(digits.drop_last().take(n) =~= digits.take(n));
        lemma_decimal_value_prefix(digits.drop_last(), n);
    }
}

/// Reads a number: an optional `+`, then one or more ASCII digits.
pub fn parse_number(text: &[u8]) -> (value: Option<usize>)
    ensures
        value == number_of(text@),
{
    let start: usize = if text.len() > 0 && text[0] == PLUS {
        1
    } else {
        0
    };
    let digits = slice_subrange(text, start, text.len());
    assert(digits@ =~= if start == 1 {
        text@.skip(1)
    } else {
        text@
    });
    if digits.len() == 0 {
        return None;
    }
    let mut value: usize = 0;
    let mut i: usize = 0;
    while i < digits.len()
        invariant
            i <= digits.len(),
            digits@.len() > 0,
            number_of(text@) == if all_digits(digits@) && decimal_value(digits@) <= usize::MAX {
                Some(decimal_value(digits@) as usize)
            } else {
                None
            },
            all_digits(digits@.take(i as int)),
            value == decimal_value(digits@.take(i as int)),
        decreases digits.len() - i,
    {
        let b = digits[i];
        proof {
            assert(digits@.take(i + 1).drop_last() =~= digits@.take(i as int));
            lemma_decimal_value_prefix(digits@, i + 1);
        }
        if b < DIGIT_0 || b > DIGIT_9 {
            return None;
        }
        let shifted = match value.checked_mul(10) {
            Some(v) => v,
            None => {
                return None;
            },
        };
        value = match shifted.checked_add((b - DIGIT_0) as usize) {
            Some(v) => v,
            None => {
                return None;
            },
        };
        i += 1;
    }
    assert(digits@.take(i as int) =~= digits@);
    Some(value)
}

/// `core::str::from_utf8`, asked only whether it accepts: the bytes are
/// well-formed UTF-8. The claim rests on the standard library; it is not
/// proved here.
#[verifier::external_body]
fn is_utf8(bytes: &[u8]) -> (ok: bool)
    ensures
        ok == valid_utf8(bytes@),
{
    core::str::from_utf8(bytes).is_ok()
}

/// Reads the contents of `{..}`: `n`, `n,` or `n,m`.
pub fn parse_quantifier(group: &[u8]) -> (modifier: Result<TokenModifier, ParseError>)
    ensures
        modifier == quantifier_of(group@),
{
    if !is_utf8(group) {
        return Err(ParseError::NonUtf8Quantifier);
    }
    proof {
        lemma_first_index_of(group@, 0, COMMA);
    }
    match find_byte(group, 0, COMMA) {
        Some(comma) => {
            let at_least = match parse_number(slice_subrange(group, 0, comma)) {
                Some(n) => n,
                None => {
                    return Err(ParseError::BadQuantifier);
                },
            };
            if comma + 1 == group.len() {
                Ok(TokenModifier::AtLeast(at_least))
            } else {
                match parse_number(slice_subrange(group, comma + 1, group.len())) {
                    Some(less_than) => Ok(TokenModifier::Between(at_least, less_than)),
                    None => Err(ParseError::BadQuantifier),
                }
            }
        },
        None => match parse_number(group) {
            Some(exact) => Ok(TokenModifier::Exact(exact)),
            None => Err(ParseError::BadQuantifier),
        },
    }
}

/// Reads the branches of an alternation from the bytes between `(` and `)`.
/// The first piece that does not compile gives its error to the whole.
pub fn parse_branches(group: &[u8]) -> (branches: Result<Vec<PatternList>, ParseError>)
    ensures
        match branches {
            Ok(lists) => branches_in(group@) == Ok::<Seq<Seq<PatternItemView>>, ParseError>(
                lists_view(lists@),
            ),
            Err(e) => branches_in(group@) == Err::<Seq<Seq<PatternItemView>>, ParseError>(e),
        },
    decreases group@.len(), 3nat,
{
    let mut branches: Vec<PatternList> = Vec::new();
    let mut from: usize = 0;
    assert(group@.subrange(0, group@.len() as int) =~= group@);
    loop
        invariant
            from <= group@.len(),
            branches_in(group@) == match branches_in(
                group@.subrange(from as int, group@.len() as int),
            ) {
                Ok(later) => Ok::<Seq<Seq<PatternItemView>>, ParseError>(
                    lists_view(branches@) + later,
                ),
                Err(e) => Err(e),
            },
        decreases group@.len() - from,
    {
        let rest = slice_subrange(group, from, group.len());
        let ghost before = lists_view(branches@);
        proof {
            lemma_first_index_of(rest@, 0, BAR);
        }
        match find_byte(rest, 0, BAR) {
            Some(bar) => {
                let list = match PatternList::parse_bytes(slice_subrange(rest, 0, bar)) {
                    Ok(list) => list,
                    Err(e) => {
                        return Err(e);
                    },
                };
                branches.push(list);
                proof {
                    assert(rest@.subrange(bar + 1, rest@.len() as int) =~= group@.subrange(
                        from + bar + 1,
                        group@.len() as int,
                    ));
                    assert(lists_view(branches@) =~= before + seq![list.units()]);
                    // Whatever the rest gives, the branches read so far
                    // stand in front of it.
                    assert forall|later: Seq<Seq<PatternItemView>>|
                        before + (seq![list.units()] + later) == #[trigger] (lists_view(branches@)
                            + later) by {
                        assert(before + (seq![list.units()] + later) =~= lists_view(branches@)
                            + later);
                    }
                }
                from = from + bar + 1;
            },
            None => {
                let list = match PatternList::parse_bytes(rest) {
                    Ok(list) => list,
                    Err(e) => {
                        return Err(e);
                    },
                };
                branches.push(list);
                assert(lists_view(branches@) =~= before + seq![list.units()]);
                return Ok(branches);
            },
        }
    }
}

/// Applies `modifier` to the last of `items`.
fn modify_last_item(items: &mut Vec<PatternItem>, modifier: TokenModifier)
    requires
        old(items)@.len() > 0,
    ensures
        items_view(final(items)@) == modify_last(items_view(old(items)@), modifier),
{
    let mut item = items.pop().unwrap();
    item.apply_modifier(modifier);
    items.push(item);
}

/// Appends `item` to `items`.
fn push_item(items: &mut Vec<PatternItem>, item: PatternItem)
    ensures
        items_view(final(items)@) == items_view(old(items)@).push(item@),
{
    items.push(item);
}

/// The token that `\` and the byte `b` after it stand for.
fn escaped(b: u8) -> (token: CharToken)
    ensures
        token@ == escape_token(b),
{
    if b == LOWER_D {
        CharToken::CharType(CharType::Digit)
    } else if b == UPPER_D {
        CharToken::CharType(CharType::NonDigit)
    } else if b == LOWER_W {
        CharToken::CharType(CharType::Alphanumeric)
    } else if b == UPPER_W {
        CharToken::CharType(CharType::NonAlphanumeric)
    } else if b == LOWER_S {
        CharToken::CharType(CharType::Whitespace)
    } else if b == UPPER_S {
        CharToken::CharType(CharType::NonWhitespace)
    } else {
        CharToken::Exact(b)
    }
}

impl PatternList {
    /// Compiles a pattern string, given as its bytes, into its units.
    pub fn parse_bytes(pattern: &[u8]) -> (compiled: Result<PatternList, ParseError>)
        ensures
            match compiled {
                Ok(list) => parse(pattern@) == Ok::<Seq<PatternItemView>, ParseError>(list.units())
                    && list.cursor == 0,
                Err(e) => parse(pattern@) == Err::<Seq<PatternItemView>, ParseError>(e),
            },
        decreases pattern@.len(), 2nat,
    {
        let mut inner: Vec<PatternItem> = Vec::new();
        let length = pattern.len();
        let mut i: usize = 0;
        assert(items_view(inner@) =~= Seq::empty());
        while i < length
            invariant
                length == pattern@.len(),
                i <= length,
                parse(pattern@) == parse_from(pattern@, i as int, items_view(inner@)),
            decreases length - i,
        {
            let char = pattern[i];
            if char == QUESTION {
                if inner.len() == 0 {
                    return Err(ParseError::ModifierWithoutToken);
                }
                modify_last_item(&mut inner, TokenModifier::Optional);
                i += 1;
            } else if char == PLUS {
                if inner.len() == 0 {
                    return Err(ParseError::ModifierWithoutToken);
                }
                modify_last_item(&mut inner, TokenModifier::OneOrMore);
                i += 1;
            } else if char == CARET && i == 0 {
                push_item(&mut inner, PatternItem::new_char(CharToken::StartLine));
                i += 1;
            } else if char == DOLLAR && i == length - 1 {
                push_item(&mut inner, PatternItem::new_char(CharToken::EndLine));
                i += 1;
            } else if char == DOT {
                push_item(&mut inner, PatternItem::new_char(CharToken::Wildcard));
                i += 1;
            } else if char == STAR {
                let mut item = PatternItem::new_char(CharToken::Wildcard);
                item.apply_modifier(TokenModifier::OneOrMore);
                push_item(&mut inner, item);
                if i + 1 < length && pattern[i + 1] == DOT {
                    push_item(&mut inner, PatternItem::new_char(CharToken::Exact(DOT)));
                    i += 2;
                } else {
                    i += 1;
                }
            } else if char == BACKSLASH {
                if i + 1 >= length {
                    return Err(ParseError::DanglingEscape);
                }
                push_item(&mut inner, PatternItem::new_char(escaped(pattern[i + 1])));
                i += 2;
            } else if char == OPEN_PAREN {
                let (group, next) = match parse_group(pattern, i + 1, CLOSE_PAREN) {
                    Ok(found) => found,
                    Err(e) => {
                        return Err(e);
                    },
                };
                let alterations = match parse_branches(group.as_slice()) {
                    Ok(alterations) => alterations,
                    Err(e) => {
                        return Err(e);
                    },
                };
                push_item(&mut inner, PatternItem::new_text(TextToken::Alteration(alterations)));
                i = next;
            } else if char == OPEN_BRACKET {
                let (group, next) = match parse_group(pattern, i + 1, CLOSE_BRACKET) {
                    Ok(found) => found,
                    Err(e) => {
                        return Err(e);
                    },
                };
                let mut group = group;
                if group[0] == CARET {
                    group.remove(0);
                    push_item(&mut inner, PatternItem::new_char(CharToken::NegativeGroup(group)));
                } else {
                    push_item(&mut inner, PatternItem::new_char(CharToken::Group(group)));
                }
                i = next;
            } else if char == OPEN_BRACE {
                let (group, next) = match parse_group(pattern, i + 1, CLOSE_BRACE) {
                    Ok(found) => found,
                    Err(e) => {
                        return Err(e);
                    },
                };
                let modifier = match parse_quantifier(group.as_slice()) {
                    Ok(modifier) => modifier,
                    Err(e) => {
                        return Err(e);
                    },
                };
                if inner.len() == 0 {
                    return Err(ParseError::ModifierWithoutToken);
                }
                modify_last_item(&mut inner, modifier);
                i = next;
            } else {
                push_item(&mut inner, PatternItem::new_char(CharToken::Exact(char)));
                i += 1;
            }
        }
        Ok(Self { inner, cursor: 0 })
    }
}

impl std::str::FromStr for PatternList {
    type Err = ParseError;

    /// Compiles a pattern string, as `PatternList::parse_bytes` does with
    /// its bytes.
    fn from_str(pattern: &str) -> (compiled: Result<Self, Self::Err>)
        ensures
            match compiled {
                Ok(list) => parse(pattern.spec_bytes()) == Ok::<Seq<PatternItemView>, ParseError>(
                    list.units(),
                ) && list.cursor == 0,
                Err(e) => parse(pattern.spec_bytes()) == Err::<Seq<PatternItemView>, ParseError>(e),
            },
    {
        PatternList::parse_bytes(pattern.as_bytes())
    }
}

} // verus!
