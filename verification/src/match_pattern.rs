//! The matcher: anchored matching of a unit list at the head of an input.

use vstd::prelude::*;
use vstd::slice::slice_subrange;
use vstd::string::*;
use crate::error::ParseError;
use crate::grammar::parse;
use crate::pattern::Pattern;
use crate::pattern_list::PatternList;
use crate::semantics::{
    count_of, from_cursor, hands_off, here_consumed, line_matches, item_consumed, repeat_consumed,
    unit_consumed,
};
use crate::token::{CharToken, Token};

verus! {

/// Compiles `pattern` and says whether it matches the line `input`.
pub fn match_pattern(input: &str, pattern: &str) -> (verdict: Result<bool, ParseError>)
    ensures
        match parse(pattern.spec_bytes()) {
            Ok(units) => verdict == Ok::<bool, ParseError>(line_matches(units, input.spec_bytes())),
            Err(e) => verdict == Err::<bool, ParseError>(e),
        },
{
    let mut pattern = match Pattern::parse(pattern) {
        Ok(pattern) => pattern,
        Err(e) => {
            return Err(e);
        },
    };
    match pattern.match_line(input) {
        Ok(matched) => Ok(matched),
        Err(_) => Ok(false),
    }
}

/// Anchored match of `pattern`, from its cursor on, at the head of `input`.
pub fn match_here(input: &[u8], pattern: &Pattern) -> (matched: bool)
    ensures
        matched == (here_consumed(pattern.pattern.remaining(), input@) is Some),
{
    pattern.match_here(input)
}

/// Anchored match of the units from `cursor` on at the head of `input`: the
/// number of bytes the match advanced, or `None` where it fails.
pub fn consume_here(input: &[u8], pattern: &PatternList, cursor: usize) -> (consumed: Option<usize>)
    ensures
        count_of(consumed) == here_consumed(from_cursor(pattern.units(), cursor as int), input@),
        consumed matches Some(n) ==> n <= input@.len(),
    decreases pattern.units(), pattern.inner.len() - cursor, 2nat,
{
    if cursor >= pattern.inner.len() {
        return Some(0);
    }
    let ghost rest = from_cursor(pattern.units(), cursor as int);
    assert(rest.skip(1) =~= from_cursor(pattern.units(), cursor + 1));
    let item = &pattern.inner[cursor];
    if input.len() == 0 && (item.optional || matches!(item.token, Token::Char(CharToken::EndLine))) {
        return Some(0);
    }
    match handle_match_option(input, pattern, cursor) {
        None => None,
        Some(skip_count) => {
            let tail = slice_subrange(input, skip_count, input.len());
            match consume_here(tail, pattern, cursor + 1) {
                Some(more) => Some(skip_count + more),
                None => None,
            }
        },
    }
}

/// What the unit at `cursor` takes from the head of `input`, repetitions
/// included; the unit after it is consulted for the hand-off.
pub fn handle_match_option(input: &[u8], pattern: &PatternList, cursor: usize) -> (consumed: Option<usize>)
    ensures
        count_of(consumed) == unit_consumed(from_cursor(pattern.units(), cursor as int), input@),
        consumed matches Some(n) ==> n <= input@.len(),
    decreases pattern.units(), pattern.inner.len() - cursor, 1nat,
{
    if cursor >= pattern.inner.len() {
        return None;
    }
    let pattern_item = &pattern.inner[cursor];
    let skip_count = match pattern_item.match_input(input) {
        Some(count) => count,
        None => {
            return None;
        },
    };
    if skip_count == 0 || !pattern_item.is_multiple_match() {
        return Some(skip_count);
    }
    let tail = slice_subrange(input, skip_count, input.len());
    match match_more(tail, pattern, cursor) {
        Some(count) => Some(skip_count + count),
        None => None,
    }
}

/// The bytes that further repetitions of the unit at `cursor` take from the
/// head of `input`, after the unit has matched once. Nothing more is taken
/// from where the minimum is reached and the unit after it can start.
pub fn match_more(input: &[u8], pattern: &PatternList, cursor: usize) -> (consumed: Option<usize>)
    ensures
        count_of(consumed) == repeat_consumed(from_cursor(pattern.units(), cursor as int), input@, 1),
        consumed matches Some(n) ==> n <= input@.len(),
    decreases pattern.units(), pattern.inner.len() - cursor, 0nat,
{
    if cursor >= pattern.inner.len() {
        return None;
    }
    let ghost rest = from_cursor(pattern.units(), cursor as int);
    let pattern_item = &pattern.inner[cursor];
    let mut skip_count: usize = 0;
    let mut match_times: usize = 1;
    assert(input@.skip(0) =~= input@);
    loop
        invariant
            cursor < pattern.inner.len(),
            rest == from_cursor(pattern.units(), cursor as int),
            rest.len() > 0,
            rest[0] == pattern_item@,
            *pattern_item == pattern.inner@[cursor as int],
            skip_count <= input@.len(),
            1 <= match_times <= skip_count + 1,
            repeat_consumed(rest, input@, 1) == match repeat_consumed(
                rest,
                input@.skip(skip_count as int),
                match_times as nat,
            ) {
                Some(extra) => Some(skip_count as nat + extra),
                None => None,
            },
        decreases input@.len() - skip_count,
    {
        let ghost tail = input@.skip(skip_count as int);
        let rest_input = slice_subrange(input, skip_count, input.len());
        let reached = pattern_item.is_least_matched(match_times);
        assert(hands_off(rest, tail) == (rest.len() > 1 && item_consumed(rest[1], tail) is Some));
        if reached && cursor + 1 < pattern.inner.len() {
            if pattern.inner[cursor + 1].match_input(rest_input).is_some() {
                return Some(skip_count);
            }
        }
        if !pattern_item.can_match_more(match_times) || skip_count == input.len() {
            return if reached {
                Some(skip_count)
            } else {
                None
            };
        }
        let match_count = match pattern_item.token.match_input(rest_input) {
            Some(count) => count,
            None => {
                return if reached {
                    Some(skip_count)
                } else {
                    None
                };
            },
        };
        if match_count == 0 {
            // A match that takes nothing can be repeated without end: it
            // reaches every minimum that the maximum leaves room for.
            let in_order = match pattern_item.less_than {
                Some(less_than) => pattern_item.is_least_matched(less_than),
                None => true,
            };
            return if in_order {
                Some(skip_count)
            } else {
                None
            };
        }
        assert(tail.skip(match_count as int) =~= input@.skip(skip_count + match_count));
        skip_count += match_count;
        if match_times == usize::MAX {
            // Only on an input of `usize::MAX` bytes: the count has passed
            // every bound a unit can hold, and the input is used up.
            assert(repeat_consumed(rest, input@.skip(skip_count as int), (match_times + 1) as nat)
                == Some(0nat));
            return Some(skip_count);
        }
        match_times += 1;
    }
}

} // verus!
