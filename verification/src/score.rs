//! The score of an election result and the order in which scores are ranked.

use vstd::prelude::*;

verus! {

/// The stake that backs one elected validator.
#[derive(Clone, Copy, Debug, PartialEq, Eq, Structural)]
pub struct Support {
    pub validator: u64,
    pub stake: u128,
}

/// The measure of an election result: the smallest backing of a winner, the
/// sum of all backings, and the sum of their squares.
#[derive(Clone, Copy, Debug, PartialEq, Eq, Structural)]
pub struct ElectionScore {
    pub minimal_stake: u128,
    pub sum_stake: u128,
    pub sum_stake_squared: u128,
}

/// `n`, or the largest balance if `n` is beyond it.
pub open spec fn capped(n: nat) -> u128 {
    if n > u128::MAX {
        u128::MAX
    } else {
        n as u128
    }
}

/// The smallest stake among `supports`; the largest balance if there is none.
pub open spec fn least_stake(supports: Seq<Support>) -> u128
    decreases supports.len(),
{
    if supports.len() == 0 {
        u128::MAX
    } else {
        let rest = least_stake(supports.drop_last());
        if supports.last().stake < rest {
            supports.last().stake
        } else {
            rest
        }
    }
}

/// The sum of the stakes of `supports`.
pub open spec fn total_stake(supports: Seq<Support>) -> nat
    decreases supports.len(),
{
    if supports.len() == 0 {
        0
    } else {
        total_stake(supports.drop_last()) + supports.last().stake as nat
    }
}

/// The sum of the squared stakes of `supports`.
pub open spec fn total_stake_squared(supports: Seq<Support>) -> nat
    decreases supports.len(),
{
    if supports.len() == 0 {
        0
    } else {
        total_stake_squared(supports.drop_last()) + (supports.last().stake as nat)
            * (supports.last().stake as nat)
    }
}

/// The score of the result `supports`. The two sums stop at the largest
/// balance.
pub open spec fn score_of(supports: Seq<Support>) -> ElectionScore {
    ElectionScore {
        minimal_stake: least_stake(supports),
        sum_stake: capped(total_stake(supports)),
        sum_stake_squared: capped(total_stake_squared(supports)),
    }
}

impl ElectionScore {
    /// Whether `self` ranks strictly above `other`: by the larger minimal
    /// stake; if those are equal, by the larger sum; if those are equal too, by
    /// the smaller sum of squares.
    pub open spec fn better(self, other: ElectionScore) -> bool {
        ||| self.minimal_stake > other.minimal_stake
        ||| self.minimal_stake == other.minimal_stake && self.sum_stake > other.sum_stake
        ||| self.minimal_stake == other.minimal_stake && self.sum_stake == other.sum_stake
            && self.sum_stake_squared < other.sum_stake_squared
    }

    /// Whether `self` ranks no lower than `other`.
    pub open spec fn at_least(self, other: ElectionScore) -> bool {
        self == other || self.better(other)
    }

    /// Whether `self` ranks strictly above `other`.
    pub fn is_better(&self, other: &ElectionScore) -> (b: bool)
        ensures
            b == self.better(*other),
    {
        if self.minimal_stake != other.minimal_stake {
            self.minimal_stake > other.minimal_stake
        } else if self.sum_stake != other.sum_stake {
            self.sum_stake > other.sum_stake
        } else {
            self.sum_stake_squared < other.sum_stake_squared
        }
    }

    /// Whether `self` ranks no lower than `other`.
    pub fn is_at_least(&self, other: &ElectionScore) -> (b: bool)
        ensures
            b == self.at_least(*other),
    {
        !other.is_better(self)
    }

    /// The score of the result `supports`.
    pub fn of(supports: &Vec<Support>) -> (score: ElectionScore)
        ensures
            score == score_of(supports@),
    {
        let mut minimal_stake: u128 = u128::MAX;
        let mut sum_stake: u128 = 0;
        let mut sum_stake_squared: u128 = 0;
        let mut i: usize = 0;
        while i < supports.len()
            invariant
                i <= supports.len(),
                minimal_stake == least_stake(supports@.take(i as int)),
                sum_stake == capped(total_stake(supports@.take(i as int))),
                sum_stake_squared == capped(total_stake_squared(supports@.take(i as int))),
            decreases supports.len() - i,
        {
            let stake = supports[i].stake;
            proof {
                assert(supports@.take(i + 1).drop_last() =~= supports@.take(i as int));
            }
            if stake < minimal_stake {
                minimal_stake = stake;
            }
            sum_stake = sum_stake.saturating_add(stake);
            let squared = match stake.checked_mul(stake) {
                Some(s) => s,
                None => u128::MAX,
            };
            sum_stake_squared = sum_stake_squared.saturating_add(squared);
            i = i + 1;
        }
        proof {
            assert(supports@.take(i as int) =~= supports@);
        }
        ElectionScore { minimal_stake, sum_stake, sum_stake_squared }
    }
}

/// The ranking of scores is a strict total order: no score ranks above itself,
/// of two different scores exactly one ranks above the other, and ranking
/// above carries over a score in between.
pub proof fn lemma_score_order(a: ElectionScore, b: ElectionScore, c: ElectionScore)
    ensures
        !a.better(a),
        a != b ==> (a.better(b) || b.better(a)),
        !(a.better(b) && b.better(a)),
        a.better(b) && b.better(c) ==> a.better(c),
        a.at_least(b) <==> !b.better(a),
{
}

} // verus!
