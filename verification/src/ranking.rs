//! Stable ordering of agents by descending fitness.
//!
//! All agents of a node are evaluated against the same target, so their
//! fitness fractions share one denominator and order exactly as their hit
//! counts do. An agent's place in the ordering is the number of agents with
//! more hits plus the number of earlier agents with as many hits.

use vstd::prelude::*;
use vstd::set_lib::{set_int_range, lemma_int_range, lemma_subset_equality, lemma_map_size};
use crate::node::{Agent, AgentModel, agent_views};

verus! {

/// Agent `i` comes before agent `j`: it has more hits, or as many and stands
/// earlier.
pub open spec fn goes_before(s: Seq<AgentModel>, i: int, j: int) -> bool {
    ||| s[i].fitness.hits > s[j].fitness.hits
    ||| (s[i].fitness.hits == s[j].fitness.hits && i < j)
}

/// The number of agents below position `m` that come before agent `j`.
pub open spec fn count_before(s: Seq<AgentModel>, j: int, m: nat) -> nat
    decreases m,
{
    if m == 0 {
        0
    } else {
        count_before(s, j, (m - 1) as nat) + if goes_before(s, m - 1, j) {
            1nat
        } else {
            0nat
        }
    }
}

/// The position of agent `j` in the ordering.
pub open spec fn rank(s: Seq<AgentModel>, j: int) -> nat {
    count_before(s, j, s.len())
}

/// The agents in descending order of hits; agents with equal hits keep their
/// relative order.
pub open spec fn ranked(s: Seq<AgentModel>) -> Seq<AgentModel> {
    Seq::new(s.len(), |p: int| s[choose|j: int| 0 <= j < s.len() && rank(s, j) == p])
}

proof fn lemma_count_before_bound(s: Seq<AgentModel>, j: int, m: nat)
    ensures
        count_before(s, j, m) <= m,
        0 <= j < m ==> count_before(s, j, m) < m,
    decreases m,
{
    if m > 0 {
        lemma_count_before_bound(s, j, (m - 1) as nat);
    }
}

proof fn lemma_count_before_mono(s: Seq<AgentModel>, a: int, b: int, m: nat)
    requires
        goes_before(s, a, b),
        0 <= a,
    ensures
        count_before(s, a, m) <= count_before(s, b, m),
        a < m ==> count_before(s, a, m) < count_before(s, b, m),
    decreases m,
{
    if m > 0 {
        lemma_count_before_mono(s, a, b, (m - 1) as nat);
    }
}

/// An agent that comes before another has a lower rank.
pub proof fn lemma_rank_order(s: Seq<AgentModel>, a: int, b: int)
    requires
        0 <= a < s.len(),
        goes_before(s, a, b),
    ensures
        rank(s, a) < rank(s, b),
{
    lemma_count_before_mono(s, a, b, s.len());
}

/// Ranks are positions of the ordering, and distinct agents have distinct
/// ranks.
pub proof fn lemma_rank_bounds(s: Seq<AgentModel>, j: int)
    requires
        0 <= j < s.len(),
    ensures
        rank(s, j) < s.len(),
{
    lemma_count_before_bound(s, j, s.len());
}

proof fn lemma_rank_injective(s: Seq<AgentModel>, a: int, b: int)
    requires
        0 <= a < s.len(),
        0 <= b < s.len(),
        a != b,
    ensures
        rank(s, a) != rank(s, b),
{
    if goes_before(s, a, b) {
        lemma_rank_order(s, a, b);
    } else {
        lemma_rank_order(s, b, a);
    }
}

/// Every position of the ordering is the rank of some agent.
proof fn lemma_rank_onto(s: Seq<AgentModel>, p: int)
    requires
        0 <= p < s.len(),
    ensures
        exists|j: int| 0 <= j < s.len() && rank(s, j) == p,
{
    let n = s.len() as int;
    let positions = set_int_range(0, n);
    let f = |j: int| rank(s, j) as int;
    lemma_int_range(0, n);
    assert(vstd::relations::injective_on(f, positions)) by {
        assert forall|a: int, b: int|
            positions.contains(a) && positions.contains(b) && #[trigger] f(a) == #[trigger] f(b)
            implies a == b by {
            if a != b {
                lemma_rank_injective(s, a, b);
            }
        }
    }
    let image = positions.map(f);
    lemma_map_size(positions, image, f);
    assert(image.subset_of(positions)) by {
        assert forall|q: int| image.contains(q) implies positions.contains(q) by {
            let j = choose|j: int| positions.contains(j) && f(j) == q;
            lemma_rank_bounds(s, j);
        }
    }
    lemma_subset_equality(image, positions);
    assert(positions.contains(p));
    assert(image.contains(p));
    let j = choose|j: int| positions.contains(j) && f(j) == p;
    assert(0 <= j < s.len() && rank(s, j) == p);
}

/// The ordering holds every agent at its rank.
pub proof fn lemma_ranked_at_rank(s: Seq<AgentModel>, j: int)
    requires
        0 <= j < s.len(),
    ensures
        ranked(s).len() == s.len(),
        rank(s, j) < s.len(),
        ranked(s)[rank(s, j) as int] == s[j],
{
    lemma_rank_bounds(s, j);
    let p = rank(s, j) as int;
    lemma_rank_onto(s, p);
    let c = choose|c: int| 0 <= c < s.len() && rank(s, c) == p;
    if c != j {
        lemma_rank_injective(s, c, j);
    }
}

/// The ordering is a rearrangement: each of its positions holds an agent of
/// `s` whose rank is that position.
pub proof fn lemma_ranked_position(s: Seq<AgentModel>, p: int)
    requires
        0 <= p < s.len(),
    ensures
        exists|j: int| 0 <= j < s.len() && rank(s, j) == p && ranked(s)[p] == s[j],
{
    lemma_rank_onto(s, p);
}

/// Exec counterpart of `rank`.
fn rank_of(agents: &Vec<Agent>, j: usize) -> (r: usize)
    requires
        j < agents.len(),
    ensures
        r == rank(agent_views(agents@), j as int),
{
    let ghost s = agent_views(agents@);
    let n = agents.len();
    let hj = agents[j].fitness.hits;
    let mut count: usize = 0;
    let mut i: usize = 0;
    while i < n
        invariant
            i <= n,
            n == agents.len(),
            s == agent_views(agents@),
            s.len() == n,
            j < n,
            hj == s[j as int].fitness.hits,
            count == count_before(s, j as int, i as nat),
        decreases n - i,
    {
        proof {
            lemma_count_before_bound(s, j as int, i as nat);
        }
        let hi = agents[i].fitness.hits;
        assert(hi == s[i as int].fitness.hits);
        if hi > hj || (hi == hj && i < j) {
            count = count + 1;
        }
        i = i + 1;
    }
    count
}

/// The agents in descending order of hits, agents with equal hits keeping
/// their relative order.
pub fn rank_agents(agents: &Vec<Agent>) -> (r: Vec<Agent>)
    ensures
        agent_views(r@) == ranked(agent_views(agents@)),
{
    let ghost s = agent_views(agents@);
    let n = agents.len();
    let mut result: Vec<Agent> = Vec::new();
    let mut k: usize = 0;
    while k < n
        invariant
            k <= n,
            n == agents.len(),
            result.len() == k,
        decreases n - k,
    {
        result.push(agents[k].duplicate());
        k = k + 1;
    }
    let mut j: usize = 0;
    while j < n
        invariant
            j <= n,
            n == agents.len(),
            s == agent_views(agents@),
            result.len() == n,
            forall|q: int| #![trigger rank(s, q)] 0 <= q < j ==> rank(s, q) < n && result@[rank(s, q) as int]@ == s[q],
        decreases n - j,
    {
        let p = rank_of(agents, j);
        proof {
            lemma_rank_bounds(s, j as int);
            assert forall|q: int| 0 <= q < j implies rank(s, q) != p by {
                lemma_rank_injective(s, q, j as int);
            }
        }
        let a = agents[j].duplicate();
        let ghost before = result@;
        result.set(p, a);
        proof {
            assert(s[j as int] == agents@[j as int]@);
            assert(result@[p as int]@ == s[j as int]);
            assert forall|q: int| #![trigger rank(s, q)] 0 <= q < j + 1 implies rank(s, q) < n && result@[rank(s, q) as int]@ == s[q] by {
                if q < j {
                    assert(rank(s, q) < n);
                    assert(result@[rank(s, q) as int] == before[rank(s, q) as int]);
                }
            }
        }
        j = j + 1;
    }
    proof {
        assert forall|p: int| 0 <= p < n implies (#[trigger] agent_views(result@)[p]) == ranked(s)[p] by {
            lemma_ranked_position(s, p);
            let c = choose|c: int| 0 <= c < s.len() && rank(s, c) == p && ranked(s)[p] == s[c];
            assert(result@[rank(s, c) as int]@ == s[c]);
        }
        assert(agent_views(result@) =~= ranked(s));
    }
    result
}

} // verus!
