//! Tokens that take a variable number of bytes.

use vstd::prelude::*;
use crate::model::TextTokenView;
use crate::match_pattern::consume_here;
use crate::pattern_list::{lists_view, PatternList};
use crate::semantics::{count_of, first_branch_consumed, from_cursor};

verus! {

/// A token that takes a variable number of bytes.
#[derive(Debug)]
pub enum TextToken {
    /// The branches of `(a|b|..)`, in the order in which they were written.
    /// A branch is matched from its first unit on, wherever its cursor
    /// stands.
    Alteration(Vec<PatternList>),
}

impl Clone for TextToken {
    fn clone(&self) -> (copy: Self)
        ensures
            copy@ == self@,
        decreases self,
    {
        match self {
            TextToken::Alteration(variants) => {
                let mut copies: Vec<PatternList> = Vec::new();
                let mut j: usize = 0;
                while j < variants.len()
                    invariant
                        j <= variants.len(),
                        *self == TextToken::Alteration(*variants),
                        copies@.len() == j,
                        forall|k: int| 0 <= k < j ==> copies@[k].units() == variants@[k].units(),
                    decreases variants.len() - j,
                {
                    assert(decreases_to!(*self => self->Alteration_0));
                    copies.push(variants[j].clone());
                    j += 1;
                }
                assert(lists_view(copies@) =~= lists_view(variants@));
                TextToken::Alteration(copies)
            },
        }
    }
}

impl View for TextToken {
    type V = TextTokenView;

    open spec fn view(&self) -> TextTokenView
        decreases self,
    {
        match self {
            TextToken::Alteration(variants) => TextTokenView::Alteration(lists_view(variants@)),
        }
    }
}

impl TextToken {
    /// Tries the branches in declaration order at the head of `input`; the
    /// first branch that matches decides how many bytes are taken.
    pub fn match_input(&self, input: &[u8]) -> (consumed: Option<usize>)
        ensures
            self@ matches TextTokenView::Alteration(branches) && count_of(consumed)
                == first_branch_consumed(branches, input@),
            consumed matches Some(n) ==> n <= input@.len(),
        decreases self@,
    {
        match self {
            TextToken::Alteration(variants) => {
                let ghost branches = self@->Alteration_0;
                let mut j: usize = 0;
                assert(branches.skip(0) =~= branches);
                while j < variants.len()
                    invariant
                        j <= variants.len(),
                        self@ == TextTokenView::Alteration(branches),
                        *self == TextToken::Alteration(*variants),
                        branches.len() == variants@.len(),
                        first_branch_consumed(branches, input@) == first_branch_consumed(
                            branches.skip(j as int),
                            input@,
                        ),
                    decreases variants.len() - j,
                {
                    proof {
                        assert(branches.skip(j as int).skip(1) =~= branches.skip(j + 1));
                        assert(from_cursor(variants@[j as int].units(), 0) =~= variants@[j as int].units());
                    }
                    match consume_here(input, &variants[j], 0) {
                        Some(n) => {
                            return Some(n);
                        },
                        None => {},
                    }
                    j += 1;
                }
                None
            },
        }
    }
}

} // verus!
