//! What holds of the matcher on every pattern and every line.

use vstd::prelude::*;
use crate::grammar::char_item;
use crate::model::{CharTokenView, PatternItemView, TextTokenView, TokenView};
use crate::pattern::Pattern;
use crate::semantics::{
    bounds_in_order, can_repeat, char_token_accepts, enough, first_branch_consumed, hands_off,
    here_consumed, is_end_anchor, is_multiple, item_consumed, line_matches, min_times,
    repeat_consumed, token_consumed, unit_consumed,
};

verus! {

/// A token takes no more bytes than the tail holds.
pub proof fn lemma_token_within_tail(t: TokenView, tail: Seq<u8>)
    ensures
        token_consumed(t, tail) matches Some(n) ==> n <= tail.len(),
    decreases t, 0nat,
{
    match t {
        TokenView::Char(c) => {},
        TokenView::Text(TextTokenView::Alteration(branches)) => {
            lemma_branches_within_tail(branches, tail);
        },
    }
}

/// An alternation takes no more bytes than the tail holds.
pub proof fn lemma_branches_within_tail(branches: Seq<Seq<PatternItemView>>, tail: Seq<u8>)
    ensures
        first_branch_consumed(branches, tail) matches Some(n) ==> n <= tail.len(),
    decreases branches, 0nat,
{
    if branches.len() > 0 {
        lemma_here_within_tail(branches[0], tail);
        lemma_branches_within_tail(branches.skip(1), tail);
    }
}

/// A unit, tried once, takes no more bytes than the tail holds.
pub proof fn lemma_item_within_tail(u: PatternItemView, tail: Seq<u8>)
    ensures
        item_consumed(u, tail) matches Some(n) ==> n <= tail.len(),
    decreases u, 0nat,
{
    lemma_token_within_tail(u.token, tail);
}

/// Further repetitions take no more bytes than the tail holds.
pub proof fn lemma_repeat_within_tail(rest: Seq<PatternItemView>, tail: Seq<u8>, count: nat)
    ensures
        repeat_consumed(rest, tail, count) matches Some(n) ==> n <= tail.len(),
    decreases rest, 0nat, tail.len() + 1,
{
    if rest.len() > 0 && can_repeat(rest[0], count) && tail.len() > 0 {
        lemma_token_within_tail(rest[0].token, tail);
        match token_consumed(rest[0].token, tail) {
            Some(k) => {
                if 0 < k <= tail.len() {
                    lemma_repeat_within_tail(rest, tail.skip(k as int), count + 1);
                }
            },
            None => {},
        }
    }
}

/// A unit with its repetitions takes no more bytes than the tail holds.
pub proof fn lemma_unit_within_tail(rest: Seq<PatternItemView>, tail: Seq<u8>)
    ensures
        unit_consumed(rest, tail) matches Some(n) ==> n <= tail.len(),
    decreases rest, 1nat,
{
    if rest.len() > 0 {
        lemma_item_within_tail(rest[0], tail);
        match item_consumed(rest[0], tail) {
            Some(k) => {
                if k != 0 && is_multiple(rest[0]) {
                    lemma_repeat_within_tail(rest, tail.skip(k as int), 1);
                }
            },
            None => {},
        }
    }
}

/// An anchored match advances by no more bytes than the tail holds.
pub proof fn lemma_here_within_tail(rest: Seq<PatternItemView>, tail: Seq<u8>)
    ensures
        here_consumed(rest, tail) matches Some(n) ==> n <= tail.len(),
    decreases rest, 2nat,
{
    if rest.len() > 0 && !(tail.len() == 0 && (rest[0].optional || is_end_anchor(rest[0]))) {
        lemma_unit_within_tail(rest, tail);
        match unit_consumed(rest, tail) {
            Some(k) => {
                lemma_here_within_tail(rest.skip(1), tail.skip(k as int));
            },
            None => {},
        }
    }
}

/// Whether two units repeat alike: the same token within the same bounds.
pub open spec fn same_repetition(a: PatternItemView, b: PatternItemView) -> bool {
    a.token == b.token && a.more_than == b.more_than && a.less_than == b.less_than
}

/// Whether two unit sequences hand a repetition off on the same non-empty
/// tails.
pub open spec fn same_hand_off(r1: Seq<PatternItemView>, r2: Seq<PatternItemView>) -> bool {
    forall|t: Seq<u8>| t.len() > 0 ==> #[trigger] hands_off(r1, t) == hands_off(r2, t)
}

/// A repetition looks at nothing but the repeated unit's token and bounds
/// and at whether the unit after it can start. Whether it can start at the
/// very end of the input makes no difference: the repetition stops there
/// anyway.
pub proof fn lemma_repeat_local(
    r1: Seq<PatternItemView>,
    r2: Seq<PatternItemView>,
    tail: Seq<u8>,
    count: nat,
)
    requires
        r1.len() > 0,
        r2.len() > 0,
        same_repetition(r1[0], r2[0]),
        same_hand_off(r1, r2),
    ensures
        repeat_consumed(r1, tail, count) == repeat_consumed(r2, tail, count),
    decreases tail.len(),
{
    if tail.len() > 0 {
        assert(hands_off(r1, tail) == hands_off(r2, tail));
        if can_repeat(r1[0], count) {
            match token_consumed(r1[0].token, tail) {
                Some(k) => {
                    if 0 < k <= tail.len() {
                        lemma_repeat_local(r1, r2, tail.skip(k as int), count + 1);
                    }
                },
                None => {},
            }
        }
    }
}

/// A unit with its repetitions looks at nothing but that unit and at
/// whether the unit after it can start.
pub proof fn lemma_unit_local(r1: Seq<PatternItemView>, r2: Seq<PatternItemView>, tail: Seq<u8>)
    requires
        r1.len() > 0,
        r2.len() > 0,
        r1[0] == r2[0],
        same_hand_off(r1, r2),
    ensures
        unit_consumed(r1, tail) == unit_consumed(r2, tail),
{
    match item_consumed(r1[0], tail) {
        Some(k) => {
            if k != 0 && is_multiple(r1[0]) {
                lemma_repeat_local(r1, r2, tail.skip(k as int), 1);
            }
        },
        None => {},
    }
}

/// The unit that a trailing `$` compiles to.
pub open spec fn end_anchor() -> PatternItemView {
    char_item(CharTokenView::EndLine)
}

/// With an end anchor behind it, a sequence of units matches at the head of
/// a tail exactly when the sequence alone matches there and takes the whole
/// tail.
pub proof fn lemma_end_anchor_here(q: Seq<PatternItemView>, tail: Seq<u8>)
    ensures
        (here_consumed(q.push(end_anchor()), tail) is Some) == (here_consumed(q, tail) == Some(
            tail.len(),
        )),
    decreases q.len(),
{
    let anchored = q.push(end_anchor());
    if q.len() == 0 {
        // Alone, the anchor matches at the end of the input and nowhere
        // else.
        if tail.len() > 0 {
            assert(unit_consumed(anchored, tail) is None);
        }
    } else if !(tail.len() == 0 && (q[0].optional || is_end_anchor(q[0]))) {
        // The first unit takes the same with and without the anchor: the
        // anchor can only be handed off to at the end of the input.
        assert(anchored.skip(1) =~= q.skip(1).push(end_anchor()));
        assert(same_hand_off(anchored, q));
        lemma_unit_local(anchored, q, tail);
        lemma_unit_within_tail(q, tail);
        match unit_consumed(q, tail) {
            Some(k) => {
                let t2 = tail.skip(k as int);
                lemma_end_anchor_here(q.skip(1), t2);
                lemma_here_within_tail(q.skip(1), t2);
            },
            None => {},
        }
    }
}

/// Reset purity: a pattern that has evaluated lines holds the units it was
/// compiled to, as `match_line` says, and so gives every line the verdict
/// that a freshly compiled pattern gives, wherever the cursors stand.
pub proof fn law_reset_purity(used: Pattern, fresh: Pattern, line: Seq<u8>)
    requires
        used.pattern.units() == fresh.pattern.units(),
    ensures
        used.matches(line) == fresh.matches(line),
{
}

/// Whether the first unit is a start anchor, whatever its modifiers.
pub open spec fn starts_anchored(units: Seq<PatternItemView>) -> bool {
    units.len() > 0 && units[0].token == TokenView::Char(CharTokenView::StartLine)
}

/// Start anchor: a pattern that begins with `^` matches a line exactly when
/// the units after the anchor match at the head of the line.
pub proof fn law_start_anchor(units: Seq<PatternItemView>, line: Seq<u8>)
    requires
        starts_anchored(units),
    ensures
        line_matches(units, line) == (here_consumed(units.skip(1), line) is Some),
{
}

/// Substring search: a pattern that does not begin with `^` matches a line
/// exactly when its units match at the head of the line from some position
/// on, the position after the last byte included.
pub proof fn law_unanchored_search(units: Seq<PatternItemView>, line: Seq<u8>)
    requires
        !starts_anchored(units),
    ensures
        line_matches(units, line) == exists|i: int|
            0 <= i <= line.len() && here_consumed(units, line.skip(i)) is Some,
{
}

/// Substring search: what a pattern without `^` finds in a line, it finds
/// again behind any bytes put in front of the line.
pub proof fn law_unanchored_prefix(units: Seq<PatternItemView>, before: Seq<u8>, line: Seq<u8>)
    requires
        !starts_anchored(units),
        line_matches(units, line),
    ensures
        line_matches(units, before + line),
{
    let i = choose|i: int| 0 <= i <= line.len() && here_consumed(units, line.skip(i)) is Some;
    assert((before + line).skip(before.len() + i) =~= line.skip(i));
}

/// Substring search: a match that starts at or behind the first byte of
/// `line` in `before + line` is a match in `line` alone.
pub proof fn law_unanchored_within(
    units: Seq<PatternItemView>,
    before: Seq<u8>,
    line: Seq<u8>,
    start: int,
)
    requires
        !starts_anchored(units),
        before.len() <= start <= before.len() + line.len(),
        here_consumed(units, (before + line).skip(start)) is Some,
    ensures
        line_matches(units, line),
{
    assert((before + line).skip(start) =~= line.skip(start - before.len()));
}

/// End anchor: a pattern `q$` matches a line exactly when `q` matches a
/// suffix of the line in full, that is from some position up to the last
/// byte; where `q` begins with `^`, that suffix is the whole line.
pub proof fn law_end_anchor(q: Seq<PatternItemView>, line: Seq<u8>)
    ensures
        starts_anchored(q) ==> line_matches(q.push(end_anchor()), line) == (here_consumed(
            q.skip(1),
            line,
        ) == Some(line.len())),
        !starts_anchored(q) ==> line_matches(q.push(end_anchor()), line) == exists|i: int|
            0 <= i <= line.len() && here_consumed(q, line.skip(i)) == Some(
                (line.len() - i) as nat,
            ),
{
    let anchored = q.push(end_anchor());
    if starts_anchored(q) {
        assert(anchored.skip(1) =~= q.skip(1).push(end_anchor()));
        lemma_end_anchor_here(q.skip(1), line);
    } else {
        assert(!starts_anchored(anchored));
        assert forall|i: int| 0 <= i <= line.len() implies (here_consumed(anchored, line.skip(i))
            is Some) == (here_consumed(q, line.skip(i)) == Some((line.len() - i) as nat)) by {
            lemma_end_anchor_here(q, line.skip(i));
        }
    }
}

/// Alternation, first win: the branches before `winner` fail at the head of
/// the tail and `winner` matches there, so the alternation takes what
/// `winner` takes, whatever the branches after it would do.
pub proof fn law_alternation_first_win(
    branches: Seq<Seq<PatternItemView>>,
    tail: Seq<u8>,
    winner: int,
)
    requires
        0 <= winner < branches.len(),
        here_consumed(branches[winner], tail) is Some,
        forall|j: int| 0 <= j < winner ==> here_consumed(#[trigger] branches[j], tail) is None,
    ensures
        first_branch_consumed(branches, tail) == here_consumed(branches[winner], tail),
    decreases winner,
{
    if winner > 0 {
        law_alternation_first_win(branches.skip(1), tail, winner - 1);
    }
}

/// Alternation: where no branch matches at the head of the tail, the
/// alternation fails.
pub proof fn law_alternation_all_fail(branches: Seq<Seq<PatternItemView>>, tail: Seq<u8>)
    requires
        forall|j: int| 0 <= j < branches.len() ==> here_consumed(#[trigger] branches[j], tail) is None,
    ensures
        first_branch_consumed(branches, tail) is None,
    decreases branches.len(),
{
    if branches.len() > 0 {
        law_alternation_all_fail(branches.skip(1), tail);
    }
}

/// The unit `u` with the optional mark.
pub open spec fn optional_of(u: PatternItemView) -> PatternItemView {
    PatternItemView { optional: true, ..u }
}

/// The unit `u` without the optional mark.
pub open spec fn required_of(u: PatternItemView) -> PatternItemView {
    PatternItemView { optional: false, ..u }
}

/// Optional unit: tried on its own, `u?` takes what the token of `u` takes,
/// and takes nothing where that token fails.
pub proof fn law_optional_unit(u: PatternItemView, tail: Seq<u8>)
    ensures
        item_consumed(optional_of(u), tail) == match token_consumed(u.token, tail) {
            Some(k) => Some(k),
            None => Some(0nat),
        },
{
}

/// Optional unit: in front of the units `rest` and at a tail that is not
/// empty, `u?` behaves as `u` where the token of `u` matches, and is
/// skipped where it does not.
pub proof fn law_optional_in_sequence(u: PatternItemView, rest: Seq<PatternItemView>, tail: Seq<u8>)
    requires
        tail.len() > 0,
    ensures
        here_consumed(seq![optional_of(u)] + rest, tail) == if token_consumed(u.token, tail) is Some {
            here_consumed(seq![required_of(u)] + rest, tail)
        } else {
            here_consumed(rest, tail)
        },
{
    let with_mark = seq![optional_of(u)] + rest;
    let without = seq![required_of(u)] + rest;
    assert(with_mark.skip(1) =~= rest);
    assert(without.skip(1) =~= rest);
    match token_consumed(u.token, tail) {
        Some(k) => {
            assert(same_hand_off(with_mark, without));
            lemma_repeat_local(with_mark, without, tail.skip(k as int), 1);
            assert(unit_consumed(with_mark, tail) == unit_consumed(without, tail));
        },
        None => {
            assert(tail.skip(0) =~= tail);
        },
    }
}

/// The bytes that `k` further matches of the token in a row take from the
/// head of `tail`, each match starting where the one before it ended. No
/// further match is tried at the end of the input.
pub open spec fn further_run(t: TokenView, tail: Seq<u8>, k: nat) -> Option<nat>
    decreases k,
{
    if k == 0 {
        Some(0nat)
    } else if tail.len() == 0 {
        None
    } else {
        match token_consumed(t, tail) {
            None => None,
            Some(j) => if j > tail.len() {
                None
            } else {
                match further_run(t, tail.skip(j as int), (k - 1) as nat) {
                    Some(later) => Some(j + later),
                    None => None,
                }
            },
        }
    }
}

/// Whether `k` further matches after `count` keep to the bounds of `u`:
/// the minimum is reached, and no further match passes the maximum.
pub open spec fn further_allowed(u: PatternItemView, count: nat, k: nat) -> bool {
    enough(u, count + k) && (k >= 1 ==> can_repeat(u, (count + k - 1) as nat))
}

/// A match that takes no byte can be had again, as often as one likes.
pub proof fn lemma_further_run_stands_still(t: TokenView, tail: Seq<u8>, k: nat)
    requires
        tail.len() > 0,
        token_consumed(t, tail) == Some(0nat),
    ensures
        further_run(t, tail, k) == Some(0nat),
    decreases k,
{
    if k > 0 {
        assert(tail.skip(0) =~= tail);
        lemma_further_run_stands_still(t, tail, (k - 1) as nat);
    }
}

/// Once the minimum is reached, a repetition does not fail.
pub proof fn lemma_repeat_succeeds_once_enough(rest: Seq<PatternItemView>, tail: Seq<u8>, count: nat)
    requires
        rest.len() > 0,
        enough(rest[0], count),
    ensures
        repeat_consumed(rest, tail, count) is Some,
    decreases tail.len(),
{
    if can_repeat(rest[0], count) && tail.len() > 0 {
        lemma_token_within_tail(rest[0].token, tail);
        match token_consumed(rest[0].token, tail) {
            Some(k) => {
                if k > 0 {
                    lemma_repeat_succeeds_once_enough(rest, tail.skip(k as int), count + 1);
                }
            },
            None => {},
        }
    }
}

/// Quantifier bounds, for every token: what further repetitions take after
/// `count` matches is what some number `k` of further matches in a row
/// take, where `count + k` reaches the minimum and no further match passes
/// the maximum; and the repetition fails exactly when no such number of
/// further matches is to be had at the head of the tail. (A first match is
/// not undone: where the maximum is below `count`, `k` is 0.)
pub proof fn law_repetition_bounds(rest: Seq<PatternItemView>, tail: Seq<u8>, count: nat)
    requires
        rest.len() > 0,
    ensures
        repeat_consumed(rest, tail, count) matches Some(extra) ==> exists|k: nat|
            further_allowed(rest[0], count, k) && #[trigger] further_run(rest[0].token, tail, k)
                == Some(extra),
        repeat_consumed(rest, tail, count) is None <==> forall|k: nat|
            further_allowed(rest[0], count, k) ==> #[trigger] further_run(rest[0].token, tail, k)
                is None,
    decreases tail.len(),
{
    let u = rest[0];
    let t = u.token;
    let extending = !(enough(u, count) && hands_off(rest, tail)) && can_repeat(u, count)
        && tail.len() > 0;
    if !extending || token_consumed(t, tail) is None {
        // The repetition stops here, with nothing more taken.
        if enough(u, count) {
            assert(further_allowed(u, count, 0) && further_run(t, tail, 0) == Some(0nat));
        } else {
            assert forall|k: nat| further_allowed(u, count, k) implies #[trigger] further_run(
                t,
                tail,
                k,
            ) is None by {
                assert(k >= 1);
            }
        }
    } else {
        let j = token_consumed(t, tail).unwrap();
        lemma_token_within_tail(t, tail);
        if j == 0 {
            if bounds_in_order(u) {
                let k: nat = if min_times(u) > count {
                    (min_times(u) - count) as nat
                } else {
                    1
                };
                lemma_further_run_stands_still(t, tail, k);
                assert(further_allowed(u, count, k) && further_run(t, tail, k) == Some(0nat));
            } else {
                // The bounds are out of order: no number of matches keeps
                // to them.
                assert(forall|k: nat| !#[trigger] further_allowed(u, count, k));
            }
        } else {
            let t2 = tail.skip(j as int);
            law_repetition_bounds(rest, t2, count + 1);
            match repeat_consumed(rest, t2, count + 1) {
                Some(extra2) => {
                    let k2 = choose|k: nat|
                        further_allowed(u, count + 1, k) && #[trigger] further_run(t, t2, k)
                            == Some(extra2);
                    assert(further_allowed(u, count, k2 + 1) && further_run(t, tail, k2 + 1)
                        == Some(j + extra2));
                },
                None => {
                    if enough(u, count) {
                        lemma_repeat_succeeds_once_enough(rest, t2, count + 1);
                    }
                    assert forall|k: nat| further_allowed(u, count, k) implies #[trigger] further_run(
                        t,
                        tail,
                        k,
                    ) is None by {
                        assert(k >= 1);
                        assert(further_allowed(u, count + 1, (k - 1) as nat));
                        assert(further_run(t, t2, (k - 1) as nat) is None);
                    }
                },
            }
        }
    }
}

/// Hand-off, for every token: a repetition takes nothing more from a place
/// where the minimum is reached and the unit after it can start; and before
/// the place where it stops it has passed no such place.
pub proof fn law_hand_off(rest: Seq<PatternItemView>, tail: Seq<u8>, count: nat)
    requires
        rest.len() > 0,
    ensures
        enough(rest[0], count) && hands_off(rest, tail) ==> repeat_consumed(rest, tail, count)
            == Some(0nat),
        repeat_consumed(rest, tail, count) matches Some(extra) ==> forall|k: nat|
            #[trigger] further_run(rest[0].token, tail, k) matches Some(e) ==> e < extra ==> !(
            enough(rest[0], count + k) && hands_off(rest, tail.skip(e as int))),
    decreases tail.len(),
{
    let u = rest[0];
    let t = u.token;
    assert(tail.skip(0) =~= tail);
    if !(enough(u, count) && hands_off(rest, tail)) && can_repeat(u, count) && tail.len() > 0 {
        lemma_token_within_tail(t, tail);
        match token_consumed(t, tail) {
            Some(j) => {
                if j > 0 {
                    let t2 = tail.skip(j as int);
                    law_hand_off(rest, t2, count + 1);
                    match repeat_consumed(rest, t2, count + 1) {
                        Some(extra2) => {
                            assert forall|k: nat| #[trigger]
                                further_run(t, tail, k) matches Some(e) && e < j + extra2 implies !(
                            enough(u, count + k) && hands_off(
                                rest,
                                tail.skip(further_run(t, tail, k)->0 as int),
                            )) by {
                                if k > 0 {
                                    let e2 = further_run(t, t2, (k - 1) as nat)->0;
                                    lemma_repeat_within_tail(rest, t2, count + 1);
                                    assert(further_run(t, tail, k) == Some(j + e2));
                                    assert(t2.skip(e2 as int) =~= tail.skip((j + e2) as int));
                                }
                            }
                        },
                        None => {},
                    }
                }
            },
            None => {},
        }
    }
}

/// Quantifier bounds, for every token: a unit with a quantifier whose first
/// match takes `first` bytes, and at least one, takes these and what some
/// number `k` of further matches in a row take, with `1 + k` within the
/// bounds; it fails exactly when no such number of further matches is to be
/// had behind the first.
pub proof fn law_quantified_unit(rest: Seq<PatternItemView>, tail: Seq<u8>, first: nat)
    requires
        rest.len() > 0,
        is_multiple(rest[0]),
        item_consumed(rest[0], tail) == Some(first),
        first > 0,
    ensures
        unit_consumed(rest, tail) matches Some(taken) ==> exists|k: nat|
            further_allowed(rest[0], 1, k) && #[trigger] further_run(
                rest[0].token,
                tail.skip(first as int),
                k,
            ) == Some((taken - first) as nat) && taken >= first,
        unit_consumed(rest, tail) is None <==> forall|k: nat|
            further_allowed(rest[0], 1, k) ==> #[trigger] further_run(
                rest[0].token,
                tail.skip(first as int),
                k,
            ) is None,
{
    law_repetition_bounds(rest, tail.skip(first as int), 1);
    match repeat_consumed(rest, tail.skip(first as int), 1) {
        Some(extra) => {
            let k = choose|k: nat|
                further_allowed(rest[0], 1, k) && #[trigger] further_run(
                    rest[0].token,
                    tail.skip(first as int),
                    k,
                ) == Some(extra);
            assert(unit_consumed(rest, tail) == Some(first + extra));
            assert((first + extra - first) as nat == extra);
        },
        None => {},
    }
}

/// Whether `c` is a predicate on one byte, that is no anchor.
pub open spec fn byte_class(c: CharTokenView) -> bool {
    !(c is StartLine) && !(c is EndLine)
}

/// Whether `tail` begins with `k` bytes that `c` accepts.
pub open spec fn run_of(c: CharTokenView, tail: Seq<u8>, k: nat) -> bool {
    k <= tail.len() && forall|j: int| 0 <= j < k ==> char_token_accepts(c, #[trigger] tail[j])
}

/// Whether a repetition may stop after `k` matches of the byte class `c` at
/// the head of `tail`: the maximum is reached, the tail is used up, the
/// next byte is not in the class, or the unit after it can start.
pub open spec fn run_may_stop(rest: Seq<PatternItemView>, c: CharTokenView, tail: Seq<u8>, k: nat) -> bool {
    ||| rest[0].less_than == Some(k as usize)
    ||| k == tail.len()
    ||| (k < tail.len() && !char_token_accepts(c, tail[k as int]))
    ||| hands_off(rest, tail.skip(k as int))
}

/// Whether `rest[0]` repeats the byte class `c` between bounds that can be
/// met: it is not optional, carries a quantifier, asks for one match at
/// least, and for no more matches than its maximum allows.
pub open spec fn repeats_class(rest: Seq<PatternItemView>, c: CharTokenView) -> bool {
    &&& rest.len() > 0
    &&& rest[0].token == TokenView::Char(c)
    &&& byte_class(c)
    &&& !rest[0].optional
    &&& is_multiple(rest[0])
    &&& 1 <= min_times(rest[0])
    &&& bounds_in_order(rest[0])
}

/// The matches still owed after `count` of them.
pub open spec fn still_owed(u: PatternItemView, count: nat) -> nat {
    if min_times(u) > count {
        (min_times(u) - count) as nat
    } else {
        0
    }
}

/// A run of `k + 1` bytes is a first byte of the class and a run of `k`
/// bytes behind it.
pub proof fn lemma_run_shift(c: CharTokenView, tail: Seq<u8>, k: nat)
    requires
        tail.len() > 0,
    ensures
        run_of(c, tail, k + 1) == (char_token_accepts(c, tail[0]) && run_of(c, tail.skip(1), k)),
{
    let t2 = tail.skip(1);
    if char_token_accepts(c, tail[0]) && run_of(c, t2, k) {
        assert forall|j: int| 0 <= j < k + 1 implies char_token_accepts(c, #[trigger] tail[j]) by {
            if j > 0 {
                assert(tail[j] == t2[j - 1]);
            }
        }
    }
    if run_of(c, tail, k + 1) {
        assert forall|j: int| 0 <= j < k implies char_token_accepts(c, #[trigger] t2[j]) by {
            assert(t2[j] == tail[j + 1]);
        }
    }
}

/// What further repetitions of a byte class take, after `count` matches.
pub proof fn lemma_repeat_run(rest: Seq<PatternItemView>, c: CharTokenView, tail: Seq<u8>, count: nat)
    requires
        repeats_class(rest, c),
        count >= 1,
        rest[0].less_than matches Some(m) ==> count <= m,
    ensures
        (repeat_consumed(rest, tail, count) is Some) == run_of(c, tail, still_owed(rest[0], count)),
        repeat_consumed(rest, tail, count) matches Some(e) ==> {
            &&& within_bounds(rest[0], count + e)
            &&& run_of(c, tail, e)
            &&& (rest[0].less_than matches Some(m) && count + e == m) || e == tail.len() || (e
                < tail.len() && !char_token_accepts(c, tail[e as int])) || hands_off(
                rest,
                tail.skip(e as int),
            )
            &&& forall|j: int|
                0 <= j < e && count + j >= min_times(rest[0]) ==> !#[trigger] hands_off(
                    rest,
                    tail.skip(j),
                )
        },
    decreases tail.len(),
{
    let u = rest[0];
    assert(tail.skip(0) =~= tail);
    if !(enough(u, count) && hands_off(rest, tail)) && can_repeat(u, count) && tail.len() > 0 {
        let t2 = tail.skip(1);
        if still_owed(u, count) > 0 {
            lemma_run_shift(c, tail, still_owed(u, count + 1));
        }
        if !char_token_accepts(c, tail[0]) {
            assert(token_consumed(u.token, tail) is None);
        } else {
            lemma_repeat_run(rest, c, t2, count + 1);
            match repeat_consumed(rest, t2, count + 1) {
                Some(e2) => {
                    let e = e2 + 1;
                    lemma_run_shift(c, tail, e2);
                    assert(t2.skip(e2 as int) =~= tail.skip(e as int));
                    assert forall|j: int|
                        0 <= j < e && count + j >= min_times(u) implies !#[trigger] hands_off(
                        rest,
                        tail.skip(j),
                    ) by {
                        if j > 0 {
                            assert(t2.skip(j - 1) =~= tail.skip(j));
                        }
                    }
                },
                None => {},
            }
        }
    }
}

/// Whether `k` matches are a number that the quantifier of `u` allows.
pub open spec fn within_bounds(u: PatternItemView, k: nat) -> bool {
    min_times(u) <= k && (u.less_than matches Some(m) ==> k <= m)
}

/// Quantifier bounds: a byte class `x` that must match `n` times at least
/// and, where a maximum is set, `m` times at most, with `1 <= n <= m`,
/// matches at the head of a tail exactly when the tail begins with a run of
/// bytes of the class whose length the bounds allow, which is to say with
/// `n` such bytes. It then takes `k` such bytes with `n <= k <= m`, and
/// stops where it may: at the maximum, at the end of the tail, in front of
/// a byte that is not in the class or, hand-off, in front of what the next
/// unit can start with. It does not pass a place where it has reached `n`
/// and could hand off.
pub proof fn law_quantifier_bounds(rest: Seq<PatternItemView>, c: CharTokenView, tail: Seq<u8>)
    requires
        repeats_class(rest, c),
    ensures
        (unit_consumed(rest, tail) is Some) == exists|k: nat|
            within_bounds(rest[0], k) && #[trigger] run_of(c, tail, k),
        (unit_consumed(rest, tail) is Some) == run_of(c, tail, min_times(rest[0])),
        unit_consumed(rest, tail) matches Some(k) ==> {
            &&& within_bounds(rest[0], k)
            &&& run_of(c, tail, k)
            &&& run_may_stop(rest, c, tail, k)
            &&& forall|j: int|
                1 <= j < k && j >= min_times(rest[0]) ==> !#[trigger] hands_off(rest, tail.skip(j))
        },
{
    let u = rest[0];
    let n = min_times(u);
    assert(run_of(c, tail, n) == exists|k: nat| within_bounds(u, k) && #[trigger] run_of(c, tail, k));
    if tail.len() > 0 {
        lemma_run_shift(c, tail, still_owed(u, 1));
    }
    if tail.len() > 0 && char_token_accepts(c, tail[0]) {
        let t2 = tail.skip(1);
        lemma_repeat_run(rest, c, t2, 1);
        match repeat_consumed(rest, t2, 1) {
            Some(e) => {
                let k = e + 1;
                lemma_run_shift(c, tail, e);
                assert(t2.skip(e as int) =~= tail.skip(k as int));
                assert forall|j: int| 1 <= j < k && j >= n implies !#[trigger] hands_off(
                    rest,
                    tail.skip(j),
                ) by {
                    assert(t2.skip(j - 1) =~= tail.skip(j));
                }
            },
            None => {},
        }
    }
}

} // verus!
