//! Aggregation of strategy summaries across nodes.

use vstd::prelude::*;
use crate::ternary::Ternary;
use crate::strategy::Strategy;

verus! {

/// Method for aggregating strategies across nodes.
#[derive(Clone, Copy, Debug, PartialEq, Eq, Structural)]
pub enum AggregationMethod {
    /// Each position takes the value most common across nodes.
    MajorityVote,
    /// Nodes contribute proportionally to their fitness scores.
    WeightedAverage,
    /// Adopt the strategy from the highest-fitness node.
    BestOf,
}

/// Aggregates strategy summaries from multiple nodes.
pub struct Aggregator;

/// The number of strategies among the first `m` that are longer than `i` and
/// hold `t` at position `i`.
pub open spec fn votes(strategies: Seq<Seq<Ternary>>, i: int, t: Ternary, m: nat) -> nat
    decreases m,
{
    if m == 0 {
        0
    } else {
        votes(strategies, i, t, (m - 1) as nat) + if i < strategies[m - 1].len()
            && strategies[m - 1][i] == t {
            1nat
        } else {
            0nat
        }
    }
}

/// The value with the most votes; a tie goes to the greater value.
pub open spec fn majority_value(neg: nat, zero: nat, pos: nat) -> Ternary {
    if pos >= neg && pos >= zero {
        Ternary::Pos
    } else if zero >= neg {
        Ternary::Zero
    } else {
        Ternary::Neg
    }
}

/// The majority value at each of the first `len` positions.
pub open spec fn majority_values(strategies: Seq<Seq<Ternary>>, len: nat) -> Seq<Ternary> {
    let n = strategies.len();
    Seq::new(
        len,
        |i: int|
            majority_value(
                votes(strategies, i, Ternary::Neg, n),
                votes(strategies, i, Ternary::Zero, n),
                votes(strategies, i, Ternary::Pos, n),
            ),
    )
}

/// The values of each strategy.
pub open spec fn strategy_views(strategies: Seq<Strategy>) -> Seq<Seq<Ternary>> {
    strategies.map_values(|s: Strategy| s@)
}

proof fn lemma_votes_bound(strategies: Seq<Seq<Ternary>>, i: int, t: Ternary, m: nat)
    ensures
        votes(strategies, i, t, m) <= m,
    decreases m,
{
    if m > 0 {
        lemma_votes_bound(strategies, i, t, (m - 1) as nat);
    }
}

/// The majority-vote aggregate of some strategies: nothing for no strategies,
/// otherwise the majority value at each position of the first strategy.
pub open spec fn majority_aggregate(strategies: Seq<Seq<Ternary>>) -> Seq<Ternary> {
    if strategies.len() == 0 {
        Seq::empty()
    } else {
        majority_values(strategies, strategies[0].len())
    }
}

impl Aggregator {
    /// Aggregates strategies by majority vote over the positions of the first
    /// one; no strategies aggregate to an empty strategy.
    pub fn aggregate_by_majority(strategies: &[Strategy]) -> (r: Strategy)
        ensures
            r@ == majority_aggregate(strategy_views(strategies@)),
    {
        if strategies.len() == 0 {
            let r = Strategy::zeros(0);
            assert(r@ =~= Seq::<Ternary>::empty());
            return r;
        }
        let len = strategies[0].len();
        assert(strategy_views(strategies@)[0] == strategies@[0]@);
        Self::majority_vote(strategies, len)
    }

    /// Each of the first `len` positions takes the value held there by the
    /// most strategies; strategies too short for a position cast no vote
    /// there, and a tie goes to the greater value.
    pub fn majority_vote(strategies: &[Strategy], len: usize) -> (r: Strategy)
        ensures
            r@ == majority_values(strategy_views(strategies@), len as nat),
    {
        let ghost views = strategy_views(strategies@);
        let n = strategies.len();
        let mut result: Vec<Ternary> = Vec::new();
        let mut i: usize = 0;
        while i < len
            invariant
                i <= len,
                n == strategies@.len(),
                views == strategy_views(strategies@),
                result@ == majority_values(views, len as nat).subrange(0, i as int),
            decreases len - i,
        {
            let mut neg: usize = 0;
            let mut zero: usize = 0;
            let mut pos: usize = 0;
            let mut j: usize = 0;
            while j < n
                invariant
                    j <= n,
                    n == strategies@.len(),
                    views == strategy_views(strategies@),
                    neg == votes(views, i as int, Ternary::Neg, j as nat),
                    zero == votes(views, i as int, Ternary::Zero, j as nat),
                    pos == votes(views, i as int, Ternary::Pos, j as nat),
                decreases n - j,
            {
                proof {
                    lemma_votes_bound(views, i as int, Ternary::Neg, j as nat);
                    lemma_votes_bound(views, i as int, Ternary::Zero, j as nat);
                    lemma_votes_bound(views, i as int, Ternary::Pos, j as nat);
                }
                let s = &strategies[j];
                assert(views[j as int] == s@);
                if i < s.values.len() {
                    match s.values[i] {
                        Ternary::Neg => {
                            neg = neg + 1;
                        },
                        Ternary::Zero => {
                            zero = zero + 1;
                        },
                        Ternary::Pos => {
                            pos = pos + 1;
                        },
                    }
                }
                j = j + 1;
            }
            let v = if pos >= neg && pos >= zero {
                Ternary::Pos
            } else if zero >= neg {
                Ternary::Zero
            } else {
                Ternary::Neg
            };
            result.push(v);
            i = i + 1;
            assert(result@ =~= majority_values(views, len as nat).subrange(0, i as int));
        }
        assert(result@ =~= majority_values(views, len as nat));
        Strategy { values: result }
    }
}

} // verus!
