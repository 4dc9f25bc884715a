//! Choosing the winning rule among those that matched at one offset.
//!
//! The candidates are given as one entry per rule, in declaration order: the
//! length in bytes of that rule's match at the current offset, or `None` where it
//! did not match. A match of length zero can never win, since it would not move
//! the scan forward.
use vstd::prelude::*;

verus! {

/// Rule `i` matched here, and its match consumes at least one byte.
pub open spec fn usable(lens: Seq<Option<usize>>, i: int) -> bool {
    0 <= i < lens.len() && lens[i] is Some && lens[i]->Some_0 > 0
}

/// The length of rule `i`'s match (meaningful where `usable(lens, i)`).
pub open spec fn len_of(lens: Seq<Option<usize>>, i: int) -> int {
    lens[i]->Some_0 as int
}

/// Rule `i` wins: its match is the longest, and no later rule matches as long.
pub open spec fn is_winner(lens: Seq<Option<usize>>, i: int) -> bool {
    &&& usable(lens, i)
    &&& forall|j: int| #[trigger] usable(lens, j) ==> len_of(lens, j) <= len_of(lens, i)
    &&& forall|j: int| i < j && #[trigger] usable(lens, j) ==> len_of(lens, j) < len_of(lens, i)
}

/// No rule can move the scan forward here.
pub open spec fn none_usable(lens: Seq<Option<usize>>) -> bool {
    forall|j: int| !#[trigger] usable(lens, j)
}

/// Picks the rule with the longest non-empty match; among rules with equally
/// long matches the one declared last wins. `None` where no rule has a
/// non-empty match.
pub fn pick_rule(lens: &Vec<Option<usize>>) -> (r: Option<usize>)
    ensures
        match r {
            Some(i) => is_winner(lens@, i as int),
            None => none_usable(lens@),
        },
{
    let mut best: Option<usize> = None;
    let mut best_len: usize = 0;
    let mut i: usize = 0;
    while i < lens.len()
        invariant
            i <= lens.len(),
            match best {
                Some(b) => {
                    &&& b < i
                    &&& usable(lens@, b as int)
                    &&& best_len == len_of(lens@, b as int)
                    &&& forall|j: int|
                        0 <= j < i && #[trigger] usable(lens@, j) ==> len_of(lens@, j) <= best_len
                    &&& forall|j: int|
                        b < j < i && #[trigger] usable(lens@, j) ==> len_of(lens@, j) < best_len
                },
                None => forall|j: int| 0 <= j < i ==> !#[trigger] usable(lens@, j),
            },
        decreases lens.len() - i,
    {
        match lens[i] {
            Some(l) => {
                if l > 0 && (best.is_none() || l >= best_len) {
                    best = Some(i);
                    best_len = l;
                }
            },
            None => {},
        }
        i = i + 1;
    }
    best
}

/// At most one rule wins at a given offset.
pub proof fn lemma_winner_unique(lens: Seq<Option<usize>>, a: int, b: int)
    requires
        is_winner(lens, a),
        is_winner(lens, b),
    ensures
        a == b,
{
    if a < b {
        assert(usable(lens, b));
    } else if b < a {
        assert(usable(lens, a));
    }
}

/// Where several rules match with the same maximal length, the last declared of
/// them wins, whatever the other rules are and in whatever order they stand.
pub proof fn lemma_tie_goes_to_last_declared(lens: Seq<Option<usize>>, w: int)
    requires
        usable(lens, w),
        forall|j: int| #[trigger] usable(lens, j) ==> len_of(lens, j) <= len_of(lens, w),
        forall|j: int| w < j && #[trigger] usable(lens, j) ==> len_of(lens, j) != len_of(lens, w),
    ensures
        is_winner(lens, w),
        forall|r: int| #[trigger] is_winner(lens, r) ==> r == w,
{
    assert forall|r: int| #[trigger] is_winner(lens, r) implies r == w by {
        lemma_winner_unique(lens, r, w);
    }
}

/// Where two rules match, the one with the longer match wins, whichever of the
/// two was declared first.
pub proof fn lemma_longest_match_wins(lens: Seq<Option<usize>>, shorter: int, longer: int)
    requires
        usable(lens, shorter),
        usable(lens, longer),
        len_of(lens, shorter) < len_of(lens, longer),
        forall|k: int| k != shorter && k != longer ==> !#[trigger] usable(lens, k),
    ensures
        is_winner(lens, longer),
        !is_winner(lens, shorter),
{
    assert forall|j: int| #[trigger] usable(lens, j) implies len_of(lens, j) <= len_of(
        lens,
        longer,
    ) by {
        if j != shorter && j != longer {
            assert(!usable(lens, j));
        }
    }
    assert forall|j: int| longer < j && #[trigger] usable(lens, j) implies len_of(lens, j) < len_of(
        lens,
        longer,
    ) by {
        if j != shorter && j != longer {
            assert(!usable(lens, j));
        }
    }
}

} // verus!
