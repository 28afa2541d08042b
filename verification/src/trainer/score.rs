use crate::network::Network;
use vstd::prelude::*;

verus! {

/// The factor by which a score total is scaled before it is divided by the
/// number of scores, so that the division loses less.
pub const SCORE_SCALE: isize = 10;

/// Scores whose magnitudes stay within a limit have sums that stay within the
/// limit times their number.
pub proof fn lemma_bounded_scores_fit(scores: Seq<isize>, limit: int)
    requires
        limit >= 0,
        forall|i: int| 0 <= i < scores.len() ==> -limit <= #[trigger] scores[i] <= limit,
        scores.len() * limit * SCORE_SCALE <= isize::MAX,
    ensures
        scores_fit(scores),
{
    assert forall|k: int| 0 <= k <= scores.len() implies isize::MIN <= #[trigger] score_sum(
        scores.take(k),
    ) * SCORE_SCALE <= isize::MAX by {
        lemma_sum_bound(scores.take(k), limit);
        let sum = score_sum(scores.take(k));
        assert(-(scores.len() * limit) <= sum <= scores.len() * limit) by (nonlinear_arith)
            requires
                -(k * limit) <= sum <= k * limit,
                0 <= k <= scores.len(),
                limit >= 0,
        ;
        assert(scores.len() * limit * 10 == (scores.len() * limit) * 10) by (nonlinear_arith);
    }
}

/// The sum of scores whose magnitudes stay within a limit stays within the
/// limit times their number.
pub proof fn lemma_sum_bound(scores: Seq<isize>, limit: int)
    requires
        limit >= 0,
        forall|i: int| 0 <= i < scores.len() ==> -limit <= #[trigger] scores[i] <= limit,
    ensures
        -(scores.len() * limit) <= score_sum(scores) <= scores.len() * limit,
    decreases scores.len(),
{
    if scores.len() > 0 {
        let shorter = scores.drop_last();
        assert forall|i: int| 0 <= i < shorter.len() implies -limit <= #[trigger] shorter[i]
            <= limit by {
            assert(shorter[i] == scores[i]);
        }
        lemma_sum_bound(shorter, limit);
        assert(scores.len() * limit == shorter.len() * limit + limit) by (nonlinear_arith)
            requires
                scores.len() == shorter.len() + 1,
        ;
    } else {
        assert(scores.len() * limit == 0) by (nonlinear_arith)
            requires
                scores.len() == 0,
        ;
    }
}

/// The sum of the scores.
pub open spec fn score_sum(scores: Seq<isize>) -> int
    decreases scores.len(),
{
    if scores.len() == 0 {
        0
    } else {
        score_sum(scores.drop_last()) + scores.last()
    }
}

/// The quotient of `a` by a positive `b`, rounded towards zero.
pub open spec fn quotient_towards_zero(a: int, b: int) -> int {
    if a >= 0 {
        a / b
    } else {
        -((-a) / b)
    }
}

/// The single score of a contender: the sum of its scores, scaled, divided by
/// their number and rounded towards zero.
pub open spec fn aggregate_of(scores: Seq<isize>) -> int {
    quotient_towards_zero(score_sum(scores) * SCORE_SCALE, scores.len() as int)
}

/// Whether the scaled sum of every leading part of the scores can be held.
pub open spec fn scores_fit(scores: Seq<isize>) -> bool {
    forall|k: int|
        0 <= k <= scores.len() ==> isize::MIN <= #[trigger] score_sum(scores.take(k)) * SCORE_SCALE
            <= isize::MAX
}

/// The single score of a contender.
pub fn aggregate(scores: &Vec<isize>) -> (total: isize)
    requires
        scores@.len() > 0,
        scores_fit(scores@),
    ensures
        total == aggregate_of(scores@),
{
    let mut sum: isize = 0;
    let mut index: usize = 0;
    proof {
        assert(scores@.take(0) =~= Seq::<isize>::empty());
    }
    while index < scores.len()
        invariant
            index <= scores@.len(),
            scores_fit(scores@),
            sum == score_sum(scores@.take(index as int)),
        decreases scores@.len() - index,
    {
        proof {
            assert(scores@.take(index + 1).drop_last() =~= scores@.take(index as int));
            assert(isize::MIN <= score_sum(scores@.take(index + 1)) * SCORE_SCALE <= isize::MAX);
        }
        sum = sum + scores[index];
        index += 1;
    }
    proof {
        assert(scores@.take(index as int) =~= scores@);
        assert(isize::MIN <= score_sum(scores@.take(index as int)) * SCORE_SCALE <= isize::MAX);
    }
    let scaled: isize = sum * SCORE_SCALE;
    let count: usize = scores.len();
    if scaled >= 0 {
        ((scaled as usize) / count) as isize
    } else {
        let magnitude: usize = (-(scaled + 1)) as usize + 1;
        let quotient: usize = magnitude / count;
        proof {
            assert(quotient <= magnitude) by (nonlinear_arith)
                requires
                    quotient == magnitude / count,
                    count >= 1,
            ;
        }
        if quotient == 0 {
            0
        } else {
            -((quotient - 1) as isize) - 1
        }
    }
}

/// The single score of a contender, if it has scores and the scaled sum of
/// every leading part of them can be held.
pub fn try_aggregate(scores: &Vec<isize>) -> (total: Option<isize>)
    ensures
        total is Some <==> scores@.len() > 0 && scores_fit(scores@),
        total matches Some(value) ==> value == aggregate_of(scores@),
{
    if scores.len() == 0 {
        return None;
    }
    let mut sum: isize = 0;
    let mut index: usize = 0;
    proof {
        assert(scores@.take(0) =~= Seq::<isize>::empty());
    }
    while index < scores.len()
        invariant
            index <= scores@.len(),
            sum == score_sum(scores@.take(index as int)),
            forall|k: int|
                0 <= k <= index ==> isize::MIN <= #[trigger] score_sum(scores@.take(k)) * SCORE_SCALE
                    <= isize::MAX,
        decreases scores@.len() - index,
    {
        proof {
            assert(scores@.take(index + 1).drop_last() =~= scores@.take(index as int));
        }
        let next: isize = match sum.checked_add(scores[index]) {
            Some(next) => next,
            None => {
                proof {
                    let longer = score_sum(scores@.take(index + 1));
                    assert(!(isize::MIN <= longer * SCORE_SCALE <= isize::MAX));
                }
                return None;
            },
        };
        if next.checked_mul(SCORE_SCALE).is_none() {
            proof {
                assert(next == score_sum(scores@.take(index + 1)));
            }
            return None;
        }
        sum = next;
        index += 1;
    }
    Some(aggregate(scores))
}

/// The place of the contender that wins: the one with the greatest score, and
/// of several such the one enumerated last.
pub open spec fn winner_index(scores: Seq<isize>) -> int
    decreases scores.len(),
{
    if scores.len() <= 1 {
        0
    } else {
        let earlier = winner_index(scores.drop_last());
        if scores[earlier] > scores.last() {
            earlier
        } else {
            scores.len() - 1
        }
    }
}

/// No score is greater than the winner's, and every score after the winner's
/// is smaller.
pub proof fn lemma_winner_index(scores: Seq<isize>)
    requires
        scores.len() > 0,
    ensures
        0 <= winner_index(scores) < scores.len(),
        forall|i: int|
            0 <= i < scores.len() ==> (#[trigger] scores[i]) <= scores[winner_index(scores)],
        forall|i: int|
            winner_index(scores) < i < scores.len() ==> (#[trigger] scores[i]) < scores[winner_index(
                scores,
            )],
    decreases scores.len(),
{
    if scores.len() > 1 {
        let shorter = scores.drop_last();
        lemma_winner_index(shorter);
        assert forall|i: int| 0 <= i < shorter.len() implies shorter[i] == scores[i] by {}
    }
}

/// A contender whose score is greater than every other contender's wins.
pub proof fn lemma_unique_maximum_wins(scores: Seq<isize>, best: int)
    requires
        0 <= best < scores.len(),
        forall|i: int| 0 <= i < scores.len() && i != best ==> (#[trigger] scores[i]) < scores[best],
    ensures
        winner_index(scores) == best,
{
    lemma_winner_index(scores);
}

/// The contender enumerated last wins whenever no other contender's score is
/// greater than its own: a tie favours the last.
pub proof fn lemma_tie_favours_last(scores: Seq<isize>)
    requires
        scores.len() > 0,
        forall|i: int| 0 <= i < scores.len() ==> (#[trigger] scores[i]) <= scores.last(),
    ensures
        winner_index(scores) == scores.len() - 1,
{
    lemma_winner_index(scores);
}

/// The scores of the contenders, in their order.
pub open spec fn scores_of(scored: Seq<(Network, isize)>) -> Seq<isize> {
    Seq::new(scored.len(), |i: int| scored[i].1)
}

/// The place of the winning score.
pub fn winning_index(scores: &Vec<isize>) -> (best: usize)
    requires
        scores@.len() > 0,
    ensures
        best == winner_index(scores@),
        best < scores@.len(),
{
    let mut best: usize = 0;
    let mut index: usize = 1;
    proof {
        assert(scores@.take(1).len() == 1);
    }
    while index < scores.len()
        invariant
            1 <= index <= scores@.len(),
            best < index,
            best == winner_index(scores@.take(index as int)),
        decreases scores@.len() - index,
    {
        proof {
            assert(scores@.take(index + 1).drop_last() =~= scores@.take(index as int));
        }
        if !(scores[best] > scores[index]) {
            best = index;
        }
        index += 1;
    }
    proof {
        assert(scores@.take(index as int) =~= scores@);
    }
    best
}

/// The contender that wins, with its score.
pub fn select_winner(scored: Vec<(Network, isize)>) -> (winner: (Network, isize))
    requires
        scored@.len() > 0,
    ensures
        winner == scored@[winner_index(scores_of(scored@))],
{
    let mut scored = scored;
    let mut scores: Vec<isize> = Vec::new();
    let mut index: usize = 0;
    while index < scored.len()
        invariant
            index <= scored@.len(),
            scores@.len() == index,
            forall|i: int| 0 <= i < index ==> #[trigger] scores@[i] == scored@[i].1,
        decreases scored@.len() - index,
    {
        scores.push(scored[index].1);
        index += 1;
    }
    proof {
        assert(scores@ =~= scores_of(scored@));
    }
    let best = winning_index(&scores);
    scored.swap_remove(best)
}

} // verus!
