//! What matching means, over patterns and inputs as plain values.
//!
//! The pattern is a sequence of units, the input a sequence of bytes. Every
//! function takes the tail of the input that is still to be matched and says
//! how many bytes are taken from its head, or `None` where the match fails.

use vstd::prelude::*;
use crate::model::{CharTokenView, PatternItemView, TextTokenView, TokenView};
use crate::token_modifier::TokenModifier;

verus! {

/// Whether the character token accepts the byte `b`. The anchors accept no
/// byte.
pub open spec fn char_token_accepts(t: CharTokenView, b: u8) -> bool {
    match t {
        CharTokenView::Exact(c) => b == c,
        CharTokenView::Wildcard => true,
        CharTokenView::Group(set) => set.contains(b),
        CharTokenView::NegativeGroup(set) => !set.contains(b),
        CharTokenView::CharType(kind) => kind.accepts(b),
        CharTokenView::StartLine => false,
        CharTokenView::EndLine => false,
    }
}

/// What a character token takes from the head of `tail`: one byte that it
/// accepts, or nothing for an end anchor at the end of the input. A start
/// anchor never matches as a token: only a line match steps over one, in
/// front of its first attempt.
pub open spec fn char_token_consumed(t: CharTokenView, tail: Seq<u8>) -> Option<nat> {
    match t {
        CharTokenView::StartLine => None,
        CharTokenView::EndLine => if tail.len() == 0 { Some(0nat) } else { None },
        _ => if tail.len() > 0 && char_token_accepts(t, tail[0]) { Some(1nat) } else { None },
    }
}

/// A byte count that executable code returns, as a natural number.
pub open spec fn count_of(consumed: Option<usize>) -> Option<nat> {
    match consumed {
        Some(n) => Some(n as nat),
        None => None,
    }
}

/// The units that are still to be matched when the cursor stands at `cursor`.
pub open spec fn from_cursor(units: Seq<PatternItemView>, cursor: int) -> Seq<PatternItemView> {
    if 0 <= cursor <= units.len() {
        units.skip(cursor)
    } else {
        Seq::empty()
    }
}

/// A unit that matches `token` exactly once.
pub open spec fn plain_item(token: TokenView) -> PatternItemView {
    PatternItemView { token, optional: false, more_than: None, less_than: None }
}

/// What a unit becomes when a modifier is applied to it.
pub open spec fn with_modifier(u: PatternItemView, modifier: TokenModifier) -> PatternItemView {
    match modifier {
        TokenModifier::Optional => PatternItemView { optional: true, ..u },
        TokenModifier::OneOrMore => PatternItemView { more_than: Some(1usize), less_than: None, ..u },
        TokenModifier::Exact(n) => PatternItemView { more_than: Some(n), less_than: Some(n), ..u },
        TokenModifier::AtLeast(n) => PatternItemView { more_than: Some(n), less_than: None, ..u },
        TokenModifier::Between(n, m) => PatternItemView { more_than: Some(n), less_than: Some(m), ..u },
    }
}

/// The least number of matches that a repetition of `u` must reach: the
/// minimum of its quantifier, or one. That an optional unit may take
/// nothing at all is decided when it is first tried, not by this number.
pub open spec fn min_times(u: PatternItemView) -> nat {
    match u.more_than {
        Some(n) => n as nat,
        None => 1,
    }
}

/// Whether `u` carries a quantifier, and so is tried more than once.
pub open spec fn is_multiple(u: PatternItemView) -> bool {
    u.more_than is Some || u.less_than is Some
}

/// Whether `u`, after `count` matches, may match once more without passing
/// its maximum.
pub open spec fn can_repeat(u: PatternItemView, count: nat) -> bool {
    match u.less_than {
        Some(m) => count + 1 <= m,
        None => true,
    }
}

/// Whether `count` matches reach the minimum of `u`.
pub open spec fn enough(u: PatternItemView, count: nat) -> bool {
    count >= min_times(u)
}

/// Whether the maximum of `u`, where it has one, leaves room for its
/// minimum.
pub open spec fn bounds_in_order(u: PatternItemView) -> bool {
    u.less_than matches Some(m) ==> min_times(u) <= m
}

/// Whether `u` holds an end anchor.
pub open spec fn is_end_anchor(u: PatternItemView) -> bool {
    u.token == TokenView::Char(CharTokenView::EndLine)
}

/// What a token takes from the head of `tail`.
pub open spec fn token_consumed(t: TokenView, tail: Seq<u8>) -> Option<nat>
    decreases t, 0nat,
{
    match t {
        TokenView::Char(c) => char_token_consumed(c, tail),
        TokenView::Text(TextTokenView::Alteration(branches)) => first_branch_consumed(branches, tail),
    }
}

/// What an alternation takes from the head of `tail`: what its first branch
/// that matches there takes. The branches after it are not looked at.
pub open spec fn first_branch_consumed(branches: Seq<Seq<PatternItemView>>, tail: Seq<u8>) -> Option<nat>
    decreases branches, 0nat,
{
    if branches.len() == 0 {
        None
    } else {
        match here_consumed(branches[0], tail) {
            Some(n) => Some(n),
            None => first_branch_consumed(branches.skip(1), tail),
        }
    }
}

/// What a unit takes when it is tried once: what its token takes, or
/// nothing where the token fails and the unit is optional.
pub open spec fn item_consumed(u: PatternItemView, tail: Seq<u8>) -> Option<nat>
    decreases u, 0nat,
{
    match token_consumed(u.token, tail) {
        Some(k) => Some(k),
        None => if u.optional { Some(0nat) } else { None },
    }
}

/// Whether the unit after the repeated one can start at `tail`: the
/// repetition then stops and hands the tail over.
pub open spec fn hands_off(rest: Seq<PatternItemView>, tail: Seq<u8>) -> bool
    decreases rest, 0nat, 0nat,
{
    rest.len() > 1 && item_consumed(rest[1], tail) is Some
}

/// What is owed when the repetition of `u` stops after `count` matches:
/// nothing more is taken, and the minimum must have been reached.
pub open spec fn repeat_stops(u: PatternItemView, count: nat) -> Option<nat> {
    if enough(u, count) {
        Some(0nat)
    } else {
        None
    }
}

/// The bytes that further matches of `rest[0]` take from the head of `tail`
/// after it has matched `count` times; `rest[1]` is the unit to hand off to.
///
/// The repetition stops, before it tries to go on, as soon as the minimum
/// is reached and the next unit can start at the tail. It also stops when
/// another match would pass the maximum, when the tail is empty, and when
/// the token no longer matches. A further match that takes no byte could
/// be repeated without end and without moving: it reaches every minimum
/// that the maximum leaves room for, and the repetition stops there.
pub open spec fn repeat_consumed(rest: Seq<PatternItemView>, tail: Seq<u8>, count: nat) -> Option<nat>
    decreases rest, 0nat, tail.len() + 1,
{
    if rest.len() == 0 {
        None
    } else if enough(rest[0], count) && hands_off(rest, tail) {
        Some(0nat)
    } else if !can_repeat(rest[0], count) || tail.len() == 0 {
        repeat_stops(rest[0], count)
    } else {
        match token_consumed(rest[0].token, tail) {
            None => repeat_stops(rest[0], count),
            Some(k) => {
                if k == 0 {
                    if bounds_in_order(rest[0]) {
                        Some(0nat)
                    } else {
                        None
                    }
                } else if k > tail.len() {
                    // Not reached: a token takes no more than the tail holds.
                    None
                } else {
                    match repeat_consumed(rest, tail.skip(k as int), count + 1) {
                        Some(extra) => Some(k + extra),
                        None => None,
                    }
                }
            },
        }
    }
}

/// What the unit `rest[0]` takes from the head of `tail`, repetitions
/// included. A first match that takes nothing is not repeated.
pub open spec fn unit_consumed(rest: Seq<PatternItemView>, tail: Seq<u8>) -> Option<nat>
    decreases rest, 1nat,
{
    if rest.len() == 0 {
        None
    } else {
        match item_consumed(rest[0], tail) {
            None => None,
            Some(k) => {
                if k == 0 || !is_multiple(rest[0]) {
                    Some(k)
                } else {
                    match repeat_consumed(rest, tail.skip(k as int), 1) {
                        Some(extra) => Some(k + extra),
                        None => None,
                    }
                }
            },
        }
    }
}

/// Anchored match: the bytes by which the units `rest`, matched one after
/// the other from the head of `tail`, advance.
///
/// The match ends at once, with what it has, where no unit is left, and at
/// the end of the input where the unit that is due is optional or an end
/// anchor. No unit is tried a second time in another way once a later unit
/// has failed.
pub open spec fn here_consumed(rest: Seq<PatternItemView>, tail: Seq<u8>) -> Option<nat>
    decreases rest, 2nat,
{
    if rest.len() == 0 {
        Some(0nat)
    } else if tail.len() == 0 && (rest[0].optional || is_end_anchor(rest[0])) {
        Some(0nat)
    } else {
        match unit_consumed(rest, tail) {
            None => None,
            Some(k) => match here_consumed(rest.skip(1), tail.skip(k as int)) {
                Some(n) => Some(k + n),
                None => None,
            },
        }
    }
}

/// Whether the units match the line: at its head where the first unit is a
/// start anchor, else at some position, the end of the line included.
pub open spec fn line_matches(units: Seq<PatternItemView>, line: Seq<u8>) -> bool {
    if units.len() > 0 && units[0].token == TokenView::Char(CharTokenView::StartLine) {
        here_consumed(units.skip(1), line) is Some
    } else {
        exists|i: int| 0 <= i <= line.len() && here_consumed(units, line.skip(i)) is Some
    }
}

} // verus!
