//! Which move wins once each has its score.

use vstd::prelude::*;
use crate::game::Direction;

verus! {

/// Whether the `k`-th of `scores` is the first of the highest, and above
/// zero.
pub open spec fn leads(scores: Seq<(i64, Direction)>, k: int) -> bool {
    &&& 0 <= k < scores.len()
    &&& scores[k].0 > 0
    &&& forall|j: int| 0 <= j < scores.len() ==> (#[trigger] scores[j]).0 <= scores[k].0
    &&& forall|j: int| 0 <= j < k ==> (#[trigger] scores[j]).0 < scores[k].0
}

/// The move that wins with these scores: that of the first of the highest
/// scores, and `Left` where no score is above zero.
pub open spec fn best_of(scores: Seq<(i64, Direction)>) -> Direction {
    if exists|k: int| leads(scores, k) {
        scores[choose|k: int| leads(scores, k)].1
    } else {
        Direction::Left
    }
}

/// The move that wins. A score is given by its rank: a whole number, such
/// that a higher score has a higher rank and the score nought has rank 0.
/// The moves are looked at in the order given, and one replaces the best so
/// far only with a strictly higher score; the best at the start is `Left`
/// with a score of nought.
pub fn choose_direction(scores: &Vec<(i64, Direction)>) -> (best: Direction)
    ensures
        best == best_of(scores@),
{
    let mut top: i64 = 0;
    let mut best = Direction::Left;
    let ghost mut at: int = -1;
    let mut i: usize = 0;
    while i < scores.len()
        invariant
            i <= scores@.len(),
            at < 0 ==> top == 0 && best == Direction::Left && forall|j: int|
                0 <= j < i ==> (#[trigger] scores@[j]).0 <= 0,
            at >= 0 ==> {
                &&& at < i
                &&& scores@[at] == (top, best)
                &&& top > 0
                &&& forall|j: int| 0 <= j < i ==> (#[trigger] scores@[j]).0 <= top
                &&& forall|j: int| 0 <= j < at ==> (#[trigger] scores@[j]).0 < top
            },
        decreases scores@.len() - i,
    {
        if scores[i].0 > top {
            top = scores[i].0;
            best = scores[i].1;
            proof {
                at = i as int;
            }
        }
        i += 1;
    }
    proof {
        if at >= 0 {
            assert(leads(scores@, at));
            let k = choose|k: int| leads(scores@, k);
            assert(leads(scores@, k));
            assert(scores@[k].0 <= top && top <= scores@[k].0);
            if k < at {
                assert(scores@[k].0 < top);
            }
            if at < k {
                assert(scores@[at].0 < scores@[k].0);
            }
        } else {
            assert forall|k: int| !leads(scores@, k) by {
                if 0 <= k < scores@.len() {
                    assert(scores@[k].0 <= 0);
                }
            }
        }
    }
    best
}

/// Where no score is above zero, `Left` wins.
pub proof fn law_left_wins_by_default(scores: Seq<(i64, Direction)>)
    requires
        forall|j: int| 0 <= j < scores.len() ==> (#[trigger] scores[j]).0 <= 0,
    ensures
        best_of(scores) == Direction::Left,
{
    assert forall|k: int| !leads(scores, k) by {
        if 0 <= k < scores.len() {
            assert(scores[k].0 <= 0);
        }
    }
}

/// A score above zero that is strictly higher than every other wins,
/// wherever it stands among the scores.
pub proof fn law_single_highest_wins(scores: Seq<(i64, Direction)>, k: int)
    requires
        0 <= k < scores.len(),
        scores[k].0 > 0,
        forall|j: int| 0 <= j < scores.len() && j != k ==> (#[trigger] scores[j]).0 < scores[k].0,
    ensures
        best_of(scores) == scores[k].1,
{
    assert(leads(scores, k));
    let c = choose|c: int| leads(scores, c);
    assert(leads(scores, c));
    if c != k {
        assert(scores[c].0 < scores[k].0);
        assert(scores[k].0 <= scores[c].0);
    }
}

} // verus!
