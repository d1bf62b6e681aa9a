//! Properties of the library that relate its operations or hold of every
//! input, proved over the specifications the operations' contracts use.

use vstd::prelude::*;
use crate::ternary::{Ternary, ternary_of_int, lcg_next, lcg_iter, lemma_lcg_iter_add, ternary_from_draw, ternary_int};
use crate::strategy::{Fitness, fitness_of, fitness_gt, matches_upto, mutation, lemma_matches_upto_bound, random_values};
use crate::node::{
    AgentModel, NodeModel, evolvable, evolved, evolved_times, evaluated, offspring, seeded_node,
    blended_values, blended_agents, lemma_offspring_len, lemma_evolved_population, lemma_blended_agents_len,
};
use crate::ranking::{ranked, rank, goes_before, lemma_ranked_at_rank, lemma_ranked_position, lemma_rank_order};
use crate::aggregate::{votes, majority_values, majority_aggregate};
use crate::federation::updated_node;

verus! {

/// Fitness is a defined fraction between zero and one: its total is
/// positive, and a strategy matches its target at no more positions than it
/// has.
pub proof fn law_fitness_in_unit_interval(s: Seq<Ternary>, t: Seq<Ternary>)
    requires
        s.len() <= usize::MAX,
    ensures
        fitness_of(s, t).total > 0,
        fitness_of(s, t).hits <= fitness_of(s, t).total,
{
    lemma_matches_upto_bound(s, t, s.len());
}

proof fn lemma_matches_upto_symmetric(s: Seq<Ternary>, t: Seq<Ternary>, n: nat)
    ensures
        matches_upto(s, t, n) == matches_upto(t, s, n),
    decreases n,
{
    if n > 0 {
        lemma_matches_upto_symmetric(s, t, (n - 1) as nat);
    }
}

/// Fitness is symmetric: `s` scores against `t` as `t` scores against `s`.
pub proof fn law_fitness_symmetric(s: Seq<Ternary>, t: Seq<Ternary>)
    ensures
        fitness_of(s, t) == fitness_of(t, s),
{
    lemma_matches_upto_symmetric(s, t, s.len());
}

proof fn lemma_matches_upto_full(s: Seq<Ternary>, t: Seq<Ternary>, n: nat)
    requires
        n <= s.len(),
        n <= t.len(),
    ensures
        matches_upto(s, t, n) == n <==> (forall|i: int| 0 <= i < n ==> s[i] == t[i]),
    decreases n,
{
    if n > 0 {
        lemma_matches_upto_full(s, t, (n - 1) as nat);
        lemma_matches_upto_bound(s, t, (n - 1) as nat);
    }
}

/// A non-empty strategy has the full score, every position matching, exactly
/// when it equals its target.
pub proof fn law_fitness_perfect_iff_equal(s: Seq<Ternary>, t: Seq<Ternary>)
    requires
        s.len() == t.len(),
        0 < s.len() <= usize::MAX,
    ensures
        fitness_of(s, t).hits == s.len() <==> s == t,
{
    lemma_matches_upto_full(s, t, s.len());
    lemma_matches_upto_bound(s, t, s.len());
    if forall|i: int| 0 <= i < s.len() ==> s[i] == t[i] {
        assert(s =~= t);
    }
}

/// A mutation keeps the length of a strategy and changes at most one of its
/// positions.
pub proof fn law_mutation_changes_at_most_one(values: Seq<Ternary>, state: u64)
    ensures
        mutation(values, state).0.len() == values.len(),
        forall|i: int, j: int|
            0 <= i < values.len() && 0 <= j < values.len() && i != j ==> !(
            #[trigger] mutation(values, state).0[i] != values[i] && #[trigger] mutation(values, state).0[j]
                != values[j]),
{
}

/// A new node has the requested number of agents, each with a strategy of
/// the requested length, a target of that length, and nothing achieved yet.
pub proof fn law_new_node_shape(population_size: nat, strategy_len: nat, id: usize)
    ensures
        seeded_node(population_size, strategy_len, id).agents.len() == population_size,
        forall|k: int|
            0 <= k < population_size ==> (#[trigger] seeded_node(population_size, strategy_len, id).agents[k]).strategy.len()
                == strategy_len,
        seeded_node(population_size, strategy_len, id).target.len() == strategy_len,
        seeded_node(population_size, strategy_len, id).id == id,
        seeded_node(population_size, strategy_len, id).best_fitness == (Fitness { hits: 0, total: 1 }),
{
}

/// The ordering by fitness is descending.
pub proof fn law_ranked_descending(s: Seq<AgentModel>, p: int, q: int)
    requires
        0 <= p < q < s.len(),
    ensures
        ranked(s)[p].fitness.hits >= ranked(s)[q].fitness.hits,
{
    lemma_ranked_position(s, p);
    lemma_ranked_position(s, q);
    let a = choose|j: int| 0 <= j < s.len() && rank(s, j) == p && ranked(s)[p] == s[j];
    let b = choose|j: int| 0 <= j < s.len() && rank(s, j) == q && ranked(s)[q] == s[j];
    if s[b].fitness.hits > s[a].fitness.hits {
        assert(goes_before(s, b, a));
        lemma_rank_order(s, b, a);
    }
}

/// The ordering by fitness is stable: of two agents with the same fitness,
/// the earlier stays earlier.
pub proof fn law_ranked_stable(s: Seq<AgentModel>, a: int, b: int)
    requires
        0 <= a < b < s.len(),
        s[a].fitness.hits == s[b].fitness.hits,
    ensures
        rank(s, a) < rank(s, b),
        ranked(s)[rank(s, a) as int] == s[a],
        ranked(s)[rank(s, b) as int] == s[b],
{
    lemma_rank_order(s, a, b);
    lemma_ranked_at_rank(s, a);
    lemma_ranked_at_rank(s, b);
}

/// The ordering by fitness is a rearrangement: it has every agent, each at
/// its own position.
pub proof fn law_ranked_rearranges(s: Seq<AgentModel>, j: int)
    requires
        0 <= j < s.len(),
    ensures
        ranked(s).len() == s.len(),
        ranked(s)[rank(s, j) as int] == s[j],
{
    lemma_ranked_at_rank(s, j);
}

/// A generation keeps the size of an evolvable population.
pub proof fn law_generation_keeps_population(n: NodeModel)
    requires
        evolvable(n),
    ensures
        evolved(n).agents.len() == n.agents.len(),
        evolvable(evolved(n)),
{
    lemma_evolved_population(n);
}

/// The best fitness a node has achieved never decreases.
pub proof fn law_best_fitness_never_decreases(n: NodeModel)
    ensures
        evolved(n).best_fitness == n.best_fitness || fitness_gt(evolved(n).best_fitness, n.best_fitness),
{
}

/// A generation keeps the fitter half of the evaluated population unchanged
/// in front, in descending order of fitness, and replaces only the rest.
pub proof fn law_generation_keeps_fitter_half(n: NodeModel, i: int, j: int)
    requires
        evolvable(n),
        n.agents.len() >= 2,
        0 <= i < n.agents.len() / 2 <= j < n.agents.len(),
    ensures
        evolved(n).agents[i] == ranked(evaluated(n.agents, n.target))[i],
        evolved(n).agents[i].fitness.hits >= ranked(evaluated(n.agents, n.target))[j].fitness.hits,
{
    let e = evaluated(n.agents, n.target);
    lemma_ranked_at_rank(e, 0);
    law_ranked_descending(e, i, j);
}

proof fn lemma_offspring_lengths(parents: Seq<AgentModel>, state: u64, len: nat)
    requires
        forall|k: int| 0 <= k < parents.len() ==> (#[trigger] parents[k]).strategy.len() == len,
    ensures
        offspring(parents, state).0.len() == parents.len(),
        forall|k: int|
            0 <= k < parents.len() ==> (#[trigger] offspring(parents, state).0[k]).strategy.len() == len,
    decreases parents.len(),
{
    lemma_offspring_len(parents, state);
    if parents.len() > 0 {
        lemma_offspring_lengths(parents.drop_last(), state, len);
    }
}

/// A generation keeps the length of the agents' strategies.
pub proof fn law_generation_keeps_strategy_length(n: NodeModel, len: nat)
    requires
        evolvable(n),
        forall|k: int| 0 <= k < n.agents.len() ==> (#[trigger] n.agents[k]).strategy.len() == len,
    ensures
        forall|k: int| 0 <= k < evolved(n).agents.len() ==> (#[trigger] evolved(n).agents[k]).strategy.len() == len,
{
    let e = evaluated(n.agents, n.target);
    let sorted = ranked(e);
    lemma_evolved_population(n);
    if e.len() > 0 {
        lemma_ranked_at_rank(e, 0);
    }
    assert forall|p: int| 0 <= p < sorted.len() implies (#[trigger] sorted[p]).strategy.len() == len by {
        lemma_ranked_position(e, p);
    }
    if sorted.len() >= 2 {
        let top = sorted.subrange(0, (sorted.len() / 2) as int);
        lemma_offspring_lengths(top, n.rng_state, len);
        let all = evolved(n).agents;
        assert forall|k: int| 0 <= k < all.len() implies (#[trigger] all[k]).strategy.len() == len by {
            if k >= top.len() {
                assert(all[k] == offspring(top, n.rng_state).0[k - top.len()]);
            }
        }
    }
}

/// Evolving for `a` generations and then for `b` is evolving for `a + b`.
pub proof fn law_evolve_composes(n: NodeModel, a: nat, b: nat)
    ensures
        evolved_times(evolved_times(n, a), b) == evolved_times(n, a + b),
    decreases b,
{
    if b > 0 {
        law_evolve_composes(n, a, (b - 1) as nat);
    }
}

/// Blending keeps a strategy's length, and every value afterwards is the
/// old value or the global one at that position.
pub proof fn law_blend_adopts_or_keeps(values: Seq<Ternary>, global: Seq<Ternary>, state: u64, blend_threshold: u64)
    ensures
        blended_values(values, global, state, blend_threshold).len() == values.len(),
        forall|i: int|
            0 <= i < values.len() ==> #[trigger] blended_values(values, global, state, blend_threshold)[i] == values[i]
                || (i < global.len() && blended_values(values, global, state, blend_threshold)[i] == global[i]),
{
}

/// A blend threshold of zero adopts nothing.
pub proof fn law_blend_zero_threshold_keeps(values: Seq<Ternary>, global: Seq<Ternary>, state: u64)
    ensures
        blended_values(values, global, state, 0) == values,
{
    assert(blended_values(values, global, state, 0) =~= values);
}

/// A blend threshold of 2^31 or more adopts the global value at every
/// position the two strategies share.
pub proof fn law_blend_full_threshold_adopts(
    values: Seq<Ternary>,
    global: Seq<Ternary>,
    state: u64,
    blend_threshold: u64,
    i: int,
)
    requires
        blend_threshold >= 0x8000_0000,
        0 <= i < values.len(),
        i < global.len(),
    ensures
        blended_values(values, global, state, blend_threshold)[i] == global[i],
{
    let x = lcg_iter(state, (i + 1) as nat);
    assert(x >> 33u64 < 0x8000_0000u64) by (bit_vector);
}

/// Blending keeps the number of agents, their fitness and the length of
/// their strategies.
pub proof fn law_blend_keeps_agents(agents: Seq<AgentModel>, global: Seq<Ternary>, state: u64, blend_threshold: u64)
    ensures
        blended_agents(agents, global, state, blend_threshold).0.len() == agents.len(),
        forall|k: int|
            0 <= k < agents.len() ==> (#[trigger] blended_agents(agents, global, state, blend_threshold).0[k]).fitness
                == agents[k].fitness && blended_agents(agents, global, state, blend_threshold).0[k].strategy.len()
                == agents[k].strategy.len(),
    decreases agents.len(),
{
    if agents.len() > 0 {
        law_blend_keeps_agents(agents.drop_last(), global, state, blend_threshold);
        let r = blended_agents(agents, global, state, blend_threshold).0;
        assert forall|k: int| 0 <= k < agents.len() implies (#[trigger] r[k]).fitness == agents[k].fitness
            && r[k].strategy.len() == agents[k].strategy.len() by {
            if k < agents.len() - 1 {
                assert(agents.drop_last()[k] == agents[k]);
            }
        }
    }
}

proof fn lemma_votes_unanimous(strategies: Seq<Seq<Ternary>>, i: int, t: Ternary, m: nat)
    requires
        m <= strategies.len(),
        forall|j: int| 0 <= j < strategies.len() ==> i < (#[trigger] strategies[j]).len() && strategies[j][i] == t,
    ensures
        votes(strategies, i, t, m) == m,
        forall|u: Ternary| u != t ==> votes(strategies, i, u, m) == 0,
    decreases m,
{
    if m > 0 {
        lemma_votes_unanimous(strategies, i, t, (m - 1) as nat);
        let last = strategies[m - 1];
        assert(i < last.len() && last[i] == t);
        assert forall|u: Ternary| u != t implies votes(strategies, i, u, m) == 0 by {
            assert(votes(strategies, i, u, (m - 1) as nat) == 0);
        }
    }
}

/// Where every strategy holds the same value, the majority vote takes it.
pub proof fn law_majority_unanimous(strategies: Seq<Seq<Ternary>>, len: nat, i: int, t: Ternary)
    requires
        strategies.len() > 0,
        0 <= i < len,
        forall|j: int| 0 <= j < strategies.len() ==> i < (#[trigger] strategies[j]).len() && strategies[j][i] == t,
    ensures
        majority_values(strategies, len)[i] == t,
{
    lemma_votes_unanimous(strategies, i, t, strategies.len());
}

/// A value held by more strategies than each other value wins the vote.
pub proof fn law_majority_strict_winner(strategies: Seq<Seq<Ternary>>, len: nat, i: int, t: Ternary)
    requires
        0 <= i < len,
        forall|u: Ternary| u != t ==> votes(strategies, i, u, strategies.len()) < votes(strategies, i, t, strategies.len()),
    ensures
        majority_values(strategies, len)[i] == t,
{
    let n = strategies.len();
    assert(t == Ternary::Neg || t == Ternary::Zero || t == Ternary::Pos);
    if t == Ternary::Neg {
        assert(votes(strategies, i, Ternary::Zero, n) < votes(strategies, i, t, n));
        assert(votes(strategies, i, Ternary::Pos, n) < votes(strategies, i, t, n));
    } else if t == Ternary::Zero {
        assert(votes(strategies, i, Ternary::Neg, n) < votes(strategies, i, t, n));
        assert(votes(strategies, i, Ternary::Pos, n) < votes(strategies, i, t, n));
    } else {
        assert(votes(strategies, i, Ternary::Neg, n) < votes(strategies, i, t, n));
        assert(votes(strategies, i, Ternary::Zero, n) < votes(strategies, i, t, n));
    }
}

/// The generator is deterministic: from equal states, equal numbers of
/// steps reach equal states, so equal seeds give equal strategies and nodes.
pub proof fn law_generator_steps_compose(state: u64, a: nat, b: nat)
    ensures
        lcg_iter(lcg_iter(state, a), b) == lcg_iter(state, a + b),
{
    lemma_lcg_iter_add(state, a, b);
}

/// A mutation of a non-empty strategy takes two generator steps: the first
/// new state, modulo the length, picks the position, and the second picks
/// the value written there; nothing else changes.
pub proof fn law_mutation_position_and_value(values: Seq<Ternary>, state: u64)
    requires
        values.len() > 0,
    ensures
        mutation(values, state).1 == lcg_iter(state, 2),
        mutation(values, state).0 == values.update(
            (lcg_iter(state, 1) as usize) as int % values.len() as int,
            ternary_from_draw(lcg_iter(state, 2)),
        ),
{
    reveal_with_fuel(lcg_iter, 3);
}

proof fn lemma_offspring_steps(parents: Seq<AgentModel>, state: u64)
    requires
        forall|k: int| 0 <= k < parents.len() ==> (#[trigger] parents[k]).strategy.len() > 0,
    ensures
        offspring(parents, state).0.len() == parents.len(),
        offspring(parents, state).1 == lcg_iter(state, 2 * parents.len()),
        forall|k: int|
            0 <= k < parents.len() ==> (#[trigger] offspring(parents, state).0[k]) == (AgentModel {
                strategy: mutation(parents[k].strategy, lcg_iter(state, (2 * k) as nat)).0,
                fitness: parents[k].fitness,
            }),
    decreases parents.len(),
{
    lemma_offspring_len(parents, state);
    if parents.len() > 0 {
        let rest = parents.drop_last();
        lemma_offspring_steps(rest, state);
        let last = parents.last();
        let mid = lcg_iter(state, 2 * rest.len());
        law_mutation_position_and_value(last.strategy, mid);
        lemma_lcg_iter_add(state, 2 * rest.len(), 2);
        assert(2 * rest.len() + 2 == 2 * parents.len());
        let r = offspring(parents, state).0;
        assert forall|k: int| 0 <= k < parents.len() implies (#[trigger] r[k]) == (AgentModel {
            strategy: mutation(parents[k].strategy, lcg_iter(state, (2 * k) as nat)).0,
            fitness: parents[k].fitness,
        }) by {
            if k < rest.len() {
                assert(rest[k] == parents[k]);
            } else {
                assert(k == rest.len());
                assert((2 * k) as nat == 2 * rest.len());
            }
        }
    }
}

/// The agents a generation keeps, in the upper half, all come first; if
/// every strategy is non-empty, the agent at position `half + k` of the
/// lower half is the survivor at position `k` with one position mutated,
/// drawn from the generator after `2 * k` steps of the generation: the
/// position from the next state modulo the length, the value from the one
/// after. It keeps its parent's fitness.
pub proof fn law_generation_children(n: NodeModel, k: int)
    requires
        evolvable(n),
        n.agents.len() >= 2,
        forall|j: int| 0 <= j < n.agents.len() ==> (#[trigger] n.agents[j]).strategy.len() > 0,
        0 <= k < n.agents.len() / 2,
    ensures
        ({
            let half = (n.agents.len() / 2) as int;
            let parent = evolved(n).agents[k];
            let child = evolved(n).agents[half + k];
            let s = lcg_iter(n.rng_state, (2 * k) as nat);
            &&& child.fitness == parent.fitness
            &&& child.strategy == parent.strategy.update(
                (lcg_iter(s, 1) as usize) as int % parent.strategy.len() as int,
                ternary_from_draw(lcg_iter(s, 2)),
            )
        }),
{
    let e = evaluated(n.agents, n.target);
    let sorted = ranked(e);
    lemma_ranked_at_rank(e, 0);
    let half = (sorted.len() / 2) as int;
    let top = sorted.subrange(0, half);
    assert forall|p: int| 0 <= p < top.len() implies (#[trigger] top[p]).strategy.len() > 0 by {
        lemma_ranked_position(e, p);
    }
    lemma_offspring_steps(top, n.rng_state);
    let parent = top[k];
    law_mutation_position_and_value(parent.strategy, lcg_iter(n.rng_state, (2 * k) as nat));
    assert(evolved(n).agents[k] == parent);
    assert(evolved(n).agents[half + k] == offspring(top, n.rng_state).0[k]);
}

/// If every strategy of a population of two or more is non-empty, one
/// generation takes exactly two generator steps per agent replaced.
pub proof fn law_generation_steps(n: NodeModel)
    requires
        evolvable(n),
        n.agents.len() >= 2,
        forall|j: int| 0 <= j < n.agents.len() ==> (#[trigger] n.agents[j]).strategy.len() > 0,
    ensures
        evolved(n).rng_state == lcg_iter(n.rng_state, 2 * (n.agents.len() / 2)),
{
    let e = evaluated(n.agents, n.target);
    let sorted = ranked(e);
    lemma_ranked_at_rank(e, 0);
    let half = (sorted.len() / 2) as int;
    let top = sorted.subrange(0, half);
    assert forall|p: int| 0 <= p < top.len() implies (#[trigger] top[p]).strategy.len() > 0 by {
        lemma_ranked_position(e, p);
    }
    lemma_offspring_steps(top, n.rng_state);
}

/// A population of fewer than two agents is only evaluated and ordered: no
/// generator step is taken.
pub proof fn law_small_generation_takes_no_steps(n: NodeModel)
    requires
        n.agents.len() < 2,
    ensures
        evolved(n).rng_state == n.rng_state,
{
    let e = evaluated(n.agents, n.target);
    if e.len() > 0 {
        lemma_ranked_at_rank(e, 0);
    }
}

/// Evolving for one generation is one generation step.
pub proof fn law_one_generation(n: NodeModel)
    ensures
        evolved_times(n, 1) == evolved(n),
{
    reveal_with_fuel(evolved_times, 2);
}

/// Evolving for `g + 1` generations is one generation step after `g`.
pub proof fn law_generation_succ(n: NodeModel, g: nat)
    ensures
        evolved_times(n, g + 1) == evolved(evolved_times(n, g)),
{
}

/// Evolving for no generations leaves the node as it is.
pub proof fn law_no_generation(n: NodeModel)
    ensures
        evolved_times(n, 0) == n,
{
}

/// Blending never touches a position the global strategy does not have.
pub proof fn law_blend_keeps_unshared(values: Seq<Ternary>, global: Seq<Ternary>, state: u64, blend_threshold: u64, i: int)
    requires
        global.len() <= i < values.len(),
    ensures
        blended_values(values, global, state, blend_threshold)[i] == values[i],
{
}

/// At a shared position where the two strategies differ, blending adopts the
/// global value exactly when the draw for that position, the generator
/// state after `i + 1` steps read above its lowest 33 bits, is below the
/// threshold.
pub proof fn law_blend_adoption(values: Seq<Ternary>, global: Seq<Ternary>, state: u64, blend_threshold: u64, i: int)
    requires
        0 <= i < values.len(),
        i < global.len(),
        values[i] != global[i],
    ensures
        blended_values(values, global, state, blend_threshold)[i] == global[i]
            <==> (lcg_iter(state, (i + 1) as nat) >> 33u64) < blend_threshold,
{
}

proof fn lemma_blended_agents_uniform(
    agents: Seq<AgentModel>,
    global: Seq<Ternary>,
    state: u64,
    blend_threshold: u64,
    len: nat,
)
    requires
        forall|j: int| 0 <= j < agents.len() ==> (#[trigger] agents[j]).strategy.len() == len,
    ensures
        ({
            let m: nat = if len < global.len() { len } else { global.len() };
            &&& blended_agents(agents, global, state, blend_threshold).0.len() == agents.len()
            &&& blended_agents(agents, global, state, blend_threshold).1 == lcg_iter(state, agents.len() * m)
            &&& forall|k: int|
                0 <= k < agents.len() ==> (#[trigger] blended_agents(agents, global, state, blend_threshold).0[k])
                    == (AgentModel {
                    strategy: blended_values(agents[k].strategy, global, lcg_iter(state, (k * m) as nat), blend_threshold),
                    fitness: agents[k].fitness,
                })
        }),
    decreases agents.len(),
{
    let m: nat = if len < global.len() { len } else { global.len() };
    lemma_blended_agents_len(agents, global, state, blend_threshold);
    if agents.len() > 0 {
        let rest = agents.drop_last();
        lemma_blended_agents_uniform(rest, global, state, blend_threshold, len);
        let n = agents.len();
        lemma_lcg_iter_add(state, rest.len() * m, m);
        assert(rest.len() * m + m == n * m) by (nonlinear_arith)
            requires rest.len() + 1 == n;
        let r = blended_agents(agents, global, state, blend_threshold).0;
        assert forall|k: int| 0 <= k < agents.len() implies (#[trigger] r[k]) == (AgentModel {
            strategy: blended_values(agents[k].strategy, global, lcg_iter(state, (k * m) as nat), blend_threshold),
            fitness: agents[k].fitness,
        }) by {
            if k < rest.len() {
                assert(rest[k] == agents[k]);
            } else {
                assert(k == rest.len());
            }
        }
    }
}

/// Blending into agents whose strategies all have length `len` draws
/// `m = min(len, global length)` times per agent, agent after agent: agent
/// `k` adopts the global value at a shared position `i` exactly when the
/// generator state after `k * m + i + 1` steps, read above its lowest 33
/// bits, is below the threshold, and keeps its own value everywhere else.
/// Afterwards the generator has taken `agents * m` steps, and each agent
/// keeps its fitness and length.
pub proof fn law_blend_agents_draws(
    agents: Seq<AgentModel>,
    global: Seq<Ternary>,
    state: u64,
    blend_threshold: u64,
    len: nat,
    k: int,
    i: int,
)
    requires
        forall|j: int| 0 <= j < agents.len() ==> (#[trigger] agents[j]).strategy.len() == len,
        0 <= k < agents.len(),
        0 <= i < len,
    ensures
        ({
            let m: nat = if len < global.len() { len } else { global.len() };
            let r = blended_agents(agents, global, state, blend_threshold);
            &&& r.0.len() == agents.len()
            &&& r.1 == lcg_iter(state, agents.len() * m)
            &&& r.0[k].fitness == agents[k].fitness
            &&& r.0[k].strategy.len() == len
            &&& r.0[k].strategy[i] == if i < global.len() && (lcg_iter(state, (k * m + i + 1) as nat) >> 33u64)
                < blend_threshold {
                global[i]
            } else {
                agents[k].strategy[i]
            }
        }),
{
    let m: nat = if len < global.len() { len } else { global.len() };
    lemma_blended_agents_uniform(agents, global, state, blend_threshold, len);
    assert(0 <= k * m) by (nonlinear_arith)
        requires 0 <= k, 0 <= m;
    lemma_lcg_iter_add(state, (k * m) as nat, (i + 1) as nat);
}

/// A strategy is longer than `i` and holds `t` there.
pub open spec fn holds_at(i: int, t: Ternary) -> spec_fn(Seq<Ternary>) -> bool {
    |x: Seq<Ternary>| i < x.len() && x[i] == t
}

/// The number of strategies that are longer than `i` and hold `t` there.
pub open spec fn holders(strategies: Seq<Seq<Ternary>>, i: int, t: Ternary) -> nat {
    strategies.filter(holds_at(i, t)).len()
}

proof fn lemma_votes_holders(strategies: Seq<Seq<Ternary>>, i: int, t: Ternary, m: nat)
    requires
        m <= strategies.len(),
    ensures
        votes(strategies, i, t, m) == holders(strategies.take(m as int), i, t),
    decreases m,
{
    if m > 0 {
        lemma_votes_holders(strategies, i, t, (m - 1) as nat);
        let prefix = strategies.take(m as int);
        let pred = holds_at(i, t);
        reveal(Seq::filter);
        assert(prefix.drop_last() =~= strategies.take(m - 1));
        assert(prefix.last() == strategies[m - 1]);
        assert(prefix.filter(pred) == if pred(prefix.last()) {
            prefix.drop_last().filter(pred).push(prefix.last())
        } else {
            prefix.drop_last().filter(pred)
        });
    } else {
        reveal(Seq::filter);
        assert(strategies.take(0) =~= Seq::<Seq<Ternary>>::empty());
    }
}

proof fn lemma_votes_all_holders(strategies: Seq<Seq<Ternary>>, i: int)
    ensures
        forall|u: Ternary| #[trigger] votes(strategies, i, u, strategies.len()) == holders(strategies, i, u),
{
    assert(strategies.take(strategies.len() as int) =~= strategies);
    assert forall|u: Ternary| #[trigger] votes(strategies, i, u, strategies.len()) == holders(strategies, i, u) by {
        lemma_votes_holders(strategies, i, u, strategies.len());
    }
}

/// Majority vote takes at each position a value held there by at least as
/// many strategies as any other value, and of several such values the
/// greatest; it has the requested length.
pub proof fn law_majority_vote_maximal(strategies: Seq<Seq<Ternary>>, len: nat, i: int)
    requires
        0 <= i < len,
    ensures
        majority_values(strategies, len).len() == len,
        forall|u: Ternary|
            #[trigger] holders(strategies, i, u) <= holders(strategies, i, majority_values(strategies, len)[i]),
        forall|u: Ternary|
            #[trigger] holders(strategies, i, u) == holders(strategies, i, majority_values(strategies, len)[i])
                ==> ternary_int(u) <= ternary_int(majority_values(strategies, len)[i]),
{
    lemma_votes_all_holders(strategies, i);
    let r = majority_values(strategies, len)[i];
    assert(holders(strategies, i, Ternary::Neg) == votes(strategies, i, Ternary::Neg, strategies.len()));
    assert(holders(strategies, i, Ternary::Zero) == votes(strategies, i, Ternary::Zero, strategies.len()));
    assert(holders(strategies, i, Ternary::Pos) == votes(strategies, i, Ternary::Pos, strategies.len()));
    assert forall|u: Ternary| #[trigger] holders(strategies, i, u) <= holders(strategies, i, r) by {
        assert(u == Ternary::Neg || u == Ternary::Zero || u == Ternary::Pos);
    }
    assert forall|u: Ternary| #[trigger] holders(strategies, i, u) == holders(strategies, i, r)
        implies ternary_int(u) <= ternary_int(r) by {
        assert(u == Ternary::Neg || u == Ternary::Zero || u == Ternary::Pos);
    }
}

/// Aggregating by majority over every strategy given: the result has the
/// first strategy's length, and at each position takes a value held by at
/// least as many of all the strategies as any other value, the greatest of
/// several such values.
pub proof fn law_aggregate_majority(strategies: Seq<Seq<Ternary>>, i: int)
    requires
        strategies.len() > 0,
        0 <= i < strategies[0].len(),
    ensures
        majority_aggregate(strategies).len() == strategies[0].len(),
        forall|u: Ternary|
            #[trigger] holders(strategies, i, u) <= holders(strategies, i, majority_aggregate(strategies)[i]),
        forall|u: Ternary|
            #[trigger] holders(strategies, i, u) == holders(strategies, i, majority_aggregate(strategies)[i])
                ==> ternary_int(u) <= ternary_int(majority_aggregate(strategies)[i]),
{
    law_majority_vote_maximal(strategies, strategies[0].len(), i);
}

/// Aggregating no strategies gives an empty strategy.
pub proof fn law_aggregate_nothing()
    ensures
        majority_aggregate(Seq::<Seq<Ternary>>::empty()) == Seq::<Ternary>::empty(),
{
}

/// One generator step multiplies the state by 6364136223846793005 and adds
/// 1442695040888963407, modulo 2^64.
pub proof fn law_generator_step(state: u64)
    ensures
        lcg_next(state) as int == (state as int * 6364136223846793005 + 1442695040888963407)
            % 0x1_0000_0000_0000_0000,
        lcg_iter(state, 1) == lcg_next(state),
{
    reveal(lcg_next);
    reveal_with_fuel(lcg_iter, 2);
}

/// A draw reads the state's bits above the lowest 33, modulo 3, as -1, 0 or
/// +1 in that order.
pub proof fn law_draw_value(state: u64)
    ensures
        ternary_int(ternary_from_draw(state)) == (state >> 33u64) as int % 3 - 1,
{
}

/// A random strategy of length `a + b` is one of length `a` followed by one
/// of length `b` drawn from where the first left the generator, and a
/// strategy of length one is the draw of the next state.
pub proof fn law_random_values_continue(state: u64, a: nat, b: nat)
    ensures
        random_values(state, a + b) == random_values(state, a) + random_values(lcg_iter(state, a), b),
        random_values(state, 1) == seq![ternary_from_draw(lcg_next(state))],
{
    reveal_with_fuel(lcg_iter, 2);
    assert forall|i: int| 0 <= i < a + b implies #[trigger] random_values(state, a + b)[i]
        == (random_values(state, a) + random_values(lcg_iter(state, a), b))[i] by {
        if i >= a {
            lemma_lcg_iter_add(state, a, (i - a + 1) as nat);
        }
    }
    assert(random_values(state, a + b) =~= random_values(state, a) + random_values(lcg_iter(state, a), b));
    assert(random_values(state, 1) =~= seq![ternary_from_draw(lcg_next(state))]);
}

/// The positions at which `s` and `t` agree.
pub open spec fn agreeing_positions(s: Seq<Ternary>, t: Seq<Ternary>) -> Seq<int> {
    Seq::new(s.len(), |i: int| i).filter(|i: int| s[i] == t[i])
}

proof fn lemma_matches_upto_agreeing(s: Seq<Ternary>, t: Seq<Ternary>, n: nat)
    requires
        n <= s.len(),
    ensures
        matches_upto(s, t, n) == Seq::new(n, |i: int| i).filter(|i: int| s[i] == t[i]).len(),
    decreases n,
{
    reveal(Seq::filter);
    if n > 0 {
        lemma_matches_upto_agreeing(s, t, (n - 1) as nat);
        let idx = Seq::new(n, |i: int| i);
        assert(idx.drop_last() =~= Seq::new((n - 1) as nat, |i: int| i));
        assert(idx.last() == n - 1);
    }
}

/// Fitness counts the positions at which a strategy agrees with its target,
/// out of their common length; an empty strategy or a length mismatch scores
/// zero out of one.
pub proof fn law_fitness_counts_agreement(s: Seq<Ternary>, t: Seq<Ternary>)
    requires
        s.len() <= usize::MAX,
    ensures
        s.len() == t.len() && s.len() > 0 ==> fitness_of(s, t) == (Fitness {
            hits: agreeing_positions(s, t).len() as usize,
            total: s.len() as usize,
        }),
        s.len() != t.len() || s.len() == 0 ==> fitness_of(s, t) == (Fitness { hits: 0, total: 1 }),
{
    lemma_matches_upto_agreeing(s, t, s.len());
}

/// A new node draws its target first from the seed `id * 1000003 + 42`, then
/// each agent's strategy in turn: value `i` of agent `k` is the draw after
/// `len * (k + 1) + i + 1` generator steps, and the node keeps the state
/// after all `len * (population + 1)` steps.
pub proof fn law_new_node_draws(population_size: nat, strategy_len: nat, id: usize, k: int, i: int)
    requires
        id as int * 1_000_003 + 42 <= u64::MAX,
        0 <= k < population_size,
        0 <= i < strategy_len,
    ensures
        ({
            let seed = (id as int * 1_000_003 + 42) as u64;
            let n = seeded_node(population_size, strategy_len, id);
            &&& n.target[i] == ternary_from_draw(lcg_iter(seed, (i + 1) as nat))
            &&& n.agents[k].strategy[i] == ternary_from_draw(
                lcg_iter(seed, (strategy_len * (k + 1) + i + 1) as nat),
            )
            &&& n.rng_state == lcg_iter(seed, strategy_len * (population_size + 1))
        }),
{
    let seed = (id as int * 1_000_003 + 42) as u64;
    assert(0 <= strategy_len * (k + 1)) by (nonlinear_arith)
        requires 0 <= k, 0 <= strategy_len;
    lemma_lcg_iter_add(seed, (strategy_len * (k + 1)) as nat, (i + 1) as nat);
}

/// The best strategy and fitness change only on a strict improvement, and
/// then the best fitness is the best strategy's fitness against the target.
pub proof fn law_best_changes_only_on_improvement(n: NodeModel)
    ensures
        evolved(n).best_fitness != n.best_fitness || evolved(n).best_strategy != n.best_strategy ==> {
            &&& fitness_gt(evolved(n).best_fitness, n.best_fitness)
            &&& evolved(n).best_fitness == fitness_of(evolved(n).best_strategy, n.target)
        },
{
    let e = evaluated(n.agents, n.target);
    if e.len() > 0 {
        lemma_ranked_at_rank(e, 0);
        lemma_ranked_position(e, 0);
    }
}

/// After a generation, no agent of the node's population before it beats the
/// best fitness, when every agent's strategy has the target's non-zero
/// length.
pub proof fn law_best_at_least_every_agent(n: NodeModel, j: int)
    requires
        0 <= j < n.agents.len(),
        0 < n.target.len() <= usize::MAX,
        forall|q: int| 0 <= q < n.agents.len() ==> (#[trigger] n.agents[q]).strategy.len() == n.target.len(),
    ensures
        !fitness_gt(fitness_of(n.agents[j].strategy, n.target), evolved(n).best_fitness),
{
    let e = evaluated(n.agents, n.target);
    lemma_ranked_at_rank(e, j);
    lemma_ranked_at_rank(e, 0);
    let sorted = ranked(e);
    let fj = fitness_of(n.agents[j].strategy, n.target);
    assert(e[j].fitness == fj);
    let top = sorted[0].fitness;
    lemma_ranked_position(e, 0);
    let c = choose|c: int| 0 <= c < e.len() && rank(e, c) == 0 && sorted[0] == e[c];
    assert(top == fitness_of(n.agents[c].strategy, n.target));
    let len = n.target.len() as usize;
    assert(top.total == len && fj.total == len);
    if rank(e, j) > 0 {
        law_ranked_descending(e, 0, rank(e, j) as int);
    }
    assert(top.hits >= fj.hits);
    let b = n.best_fitness;
    if fitness_gt(fj, evolved(n).best_fitness) {
        if fitness_gt(top, b) {
            assert(evolved(n).best_fitness == top);
            assert(fj.hits as int * top.total as int <= top.hits as int * fj.total as int) by (nonlinear_arith)
                requires fj.hits <= top.hits, top.total == fj.total, 0 <= top.total;
        } else {
            assert(evolved(n).best_fitness == b);
            assert(fj.hits as int * b.total as int <= top.hits as int * b.total as int) by (nonlinear_arith)
                requires fj.hits <= top.hits, 0 <= b.total;
            assert(top.total == fj.total);
        }
    }
}

/// The agents a generation keeps in front were all in the population, with
/// their fitness freshly evaluated against the target.
pub proof fn law_survivors_evaluated(n: NodeModel, k: int)
    requires
        evolvable(n),
        0 <= k < n.agents.len() / 2 || (n.agents.len() == 1 && k == 0),
    ensures
        exists|j: int|
            0 <= j < n.agents.len() && (#[trigger] n.agents[j]).strategy == evolved(n).agents[k].strategy
                && evolved(n).agents[k].fitness == fitness_of(n.agents[j].strategy, n.target),
{
    let e = evaluated(n.agents, n.target);
    lemma_ranked_at_rank(e, 0);
    lemma_ranked_position(e, k);
    let c = choose|c: int| 0 <= c < e.len() && rank(e, c) == k && ranked(e)[k] == e[c];
    assert(n.agents[c].strategy == evolved(n).agents[k].strategy);
}

/// Converting an integer gives its sign: -1 for negatives, 0 for zero, +1
/// for positives.
pub proof fn law_from_int_is_sign(v: int)
    ensures
        v < 0 ==> ternary_int(ternary_of_int(v)) == -1,
        v == 0 ==> ternary_int(ternary_of_int(v)) == 0,
        v > 0 ==> ternary_int(ternary_of_int(v)) == 1,
{
}

/// Sharing a global strategy with a node blends it into the node's agents,
/// agent after agent from the node's generator state, and leaves the rest of
/// the node as it was.
pub proof fn law_shared_node_is_blended(n: NodeModel, global: Seq<Ternary>, blend_threshold: u64)
    ensures
        updated_node(n, global, blend_threshold).agents == blended_agents(n.agents, global, n.rng_state, blend_threshold).0,
        updated_node(n, global, blend_threshold).rng_state == blended_agents(n.agents, global, n.rng_state, blend_threshold).1,
        updated_node(n, global, blend_threshold).target == n.target,
        updated_node(n, global, blend_threshold).id == n.id,
        updated_node(n, global, blend_threshold).best_fitness == n.best_fitness,
        updated_node(n, global, blend_threshold).best_strategy == n.best_strategy,
{
}

} // verus!
