//! Agents and nodes: a node is a local population of ternary agents that
//! evolves towards its own secret target.

use vstd::prelude::*;
use crate::ternary::{Ternary, lcg_iter, lcg_advance, lemma_lcg_iter_add};
use crate::strategy::{Strategy, Fitness, zero_fitness, random_values, fitness_of, fitness_gt, mutation};
use crate::ranking::{ranked, rank_agents, lemma_ranked_at_rank};

verus! {

/// What an agent holds: its strategy's values and its last fitness.
pub struct AgentModel {
    pub strategy: Seq<Ternary>,
    pub fitness: Fitness,
}

/// A single ternary agent with a strategy and fitness.
#[derive(Clone, Debug)]
pub struct Agent {
    pub strategy: Strategy,
    pub fitness: Fitness,
}

impl View for Agent {
    type V = AgentModel;

    open spec fn view(&self) -> AgentModel {
        AgentModel { strategy: self.strategy@, fitness: self.fitness }
    }
}

/// An agent with the given values and zero fitness.
pub open spec fn fresh_agent(values: Seq<Ternary>) -> AgentModel {
    AgentModel { strategy: values, fitness: zero_fitness() }
}

impl Agent {
    /// Creates an agent with a random strategy of the given length and zero
    /// fitness.
    pub fn random(strategy_len: usize, state: &mut u64) -> (a: Agent)
        ensures
            a@ == fresh_agent(random_values(*old(state), strategy_len as nat)),
            *final(state) == lcg_iter(*old(state), strategy_len as nat),
    {
        Agent { strategy: Strategy::random(strategy_len, state), fitness: Fitness { hits: 0, total: 1 } }
    }

    /// Evaluates the agent's fitness against a target strategy.
    pub fn evaluate(&mut self, target: &Strategy)
        ensures
            final(self)@ == (AgentModel {
                strategy: old(self)@.strategy,
                fitness: fitness_of(old(self)@.strategy, target@),
            }),
    {
        self.fitness = self.strategy.fitness_against(target);
    }

    /// An agent with the same strategy and fitness.
    pub fn duplicate(&self) -> (a: Agent)
        ensures
            a@ == self@,
    {
        Agent { strategy: self.strategy.duplicate(), fitness: self.fitness }
    }
}

/// What a node holds, with each agent and strategy taken by its view.
pub struct NodeModel {
    pub agents: Seq<AgentModel>,
    pub target: Seq<Ternary>,
    pub rng_state: u64,
    pub id: usize,
    pub best_fitness: Fitness,
    pub best_strategy: Seq<Ternary>,
}

/// A local ternary population with its own evolution.
#[derive(Clone, Debug)]
pub struct Node {
    /// The agents in this node's population.
    pub agents: Vec<Agent>,
    /// This node's secret target strategy (never shared).
    pub target: Strategy,
    /// Generator state for deterministic evolution.
    pub rng_state: u64,
    /// Unique node identifier.
    pub id: usize,
    /// Best fitness achieved so far.
    pub best_fitness: Fitness,
    /// Strategy that achieved the best fitness.
    pub best_strategy: Strategy,
}

/// The views of a sequence of agents.
pub open spec fn agent_views(agents: Seq<Agent>) -> Seq<AgentModel> {
    agents.map_values(|a: Agent| a@)
}

impl View for Node {
    type V = NodeModel;

    open spec fn view(&self) -> NodeModel {
        NodeModel {
            agents: agent_views(self.agents@),
            target: self.target@,
            rng_state: self.rng_state,
            id: self.id,
            best_fitness: self.best_fitness,
            best_strategy: self.best_strategy@,
        }
    }
}

/// The generator seed of the node with the given identifier.
pub open spec fn node_seed(id: usize) -> u64 {
    (id as int * 1_000_003 + 42) as u64
}

/// The generator steps a node's creation takes before drawing agent `k`'s
/// strategy: one strategy of `strategy_len` for the target and one for each
/// earlier agent.
pub open spec fn steps_before_agent(strategy_len: nat, k: nat) -> nat {
    strategy_len * (k + 1)
}

proof fn lemma_next_agent_state(seed: u64, strategy_len: nat, k: nat)
    ensures
        lcg_iter(lcg_iter(seed, steps_before_agent(strategy_len, k)), strategy_len)
            == lcg_iter(seed, steps_before_agent(strategy_len, k + 1)),
{
    lemma_lcg_iter_add(seed, steps_before_agent(strategy_len, k), strategy_len);
    assert(strategy_len * (k + 1) + strategy_len == strategy_len * (k + 2)) by (nonlinear_arith);
}

/// The agents of a freshly created node.
pub open spec fn seeded_agents(seed: u64, population_size: nat, strategy_len: nat) -> Seq<AgentModel> {
    Seq::new(
        population_size,
        |k: int|
            fresh_agent(random_values(lcg_iter(seed, steps_before_agent(strategy_len, k as nat)), strategy_len)),
    )
}

/// A freshly created node: its target is drawn first from the seed, then
/// each agent's strategy in turn; nothing has been achieved yet.
pub open spec fn seeded_node(population_size: nat, strategy_len: nat, id: usize) -> NodeModel {
    let seed = node_seed(id);
    NodeModel {
        agents: seeded_agents(seed, population_size, strategy_len),
        target: random_values(seed, strategy_len),
        rng_state: lcg_iter(seed, steps_before_agent(strategy_len, population_size)),
        id: id,
        best_fitness: zero_fitness(),
        best_strategy: Seq::new(strategy_len, |i: int| Ternary::Zero),
    }
}

/// The agents with their fitness evaluated against `target`.
pub open spec fn evaluated(agents: Seq<AgentModel>, target: Seq<Ternary>) -> Seq<AgentModel> {
    agents.map_values(
        |a: AgentModel| AgentModel { strategy: a.strategy, fitness: fitness_of(a.strategy, target) },
    )
}

/// Mutated copies of `parents`, in order, each mutation drawing from the
/// generator state the previous one left; the copies keep their parent's
/// fitness. Also the final generator state.
pub open spec fn offspring(parents: Seq<AgentModel>, state: u64) -> (Seq<AgentModel>, u64)
    decreases parents.len(),
{
    if parents.len() == 0 {
        (Seq::empty(), state)
    } else {
        let (earlier, s) = offspring(parents.drop_last(), state);
        let (values, s2) = mutation(parents.last().strategy, s);
        (earlier.push(AgentModel { strategy: values, fitness: parents.last().fitness }), s2)
    }
}

/// The node after one generation: every agent is evaluated against the
/// target and the population ordered by descending fitness; the fittest
/// agent becomes the best so far if it beats it; then, for a population of
/// at least two, the lower half is replaced by mutated copies of the upper
/// half.
pub open spec fn evolved(n: NodeModel) -> NodeModel {
    let sorted = ranked(evaluated(n.agents, n.target));
    let improved = sorted.len() > 0 && fitness_gt(sorted[0].fitness, n.best_fitness);
    let tracked_best = NodeModel {
        agents: sorted,
        best_fitness: if improved { sorted[0].fitness } else { n.best_fitness },
        best_strategy: if improved { sorted[0].strategy } else { n.best_strategy },
        ..n
    };
    if sorted.len() < 2 {
        tracked_best
    } else {
        let top = sorted.subrange(0, (sorted.len() / 2) as int);
        let (children, state) = offspring(top, n.rng_state);
        NodeModel { agents: top + children, rng_state: state, ..tracked_best }
    }
}

/// The node after `generations` generations.
pub open spec fn evolved_times(n: NodeModel, generations: nat) -> NodeModel
    decreases generations,
{
    if generations == 0 {
        n
    } else {
        evolved(evolved_times(n, (generations - 1) as nat))
    }
}

/// Populations that one generation can evolve: the halves of a population of
/// two or more agents must be of equal size.
pub open spec fn evolvable(n: NodeModel) -> bool {
    n.agents.len() < 2 || n.agents.len() % 2 == 0
}

pub proof fn lemma_offspring_len(parents: Seq<AgentModel>, state: u64)
    ensures
        offspring(parents, state).0.len() == parents.len(),
    decreases parents.len(),
{
    if parents.len() > 0 {
        lemma_offspring_len(parents.drop_last(), state);
    }
}

/// A generation keeps the size of the population.
pub proof fn lemma_evolved_population(n: NodeModel)
    ensures
        evolved(n).agents.len() == if n.agents.len() >= 2 {
            2 * (n.agents.len() / 2)
        } else {
            n.agents.len()
        },
        evolvable(n) ==> evolved(n).agents.len() == n.agents.len(),
{
    let e = evaluated(n.agents, n.target);
    if e.len() > 0 {
        lemma_ranked_at_rank(e, 0);
    }
    let sorted = ranked(e);
    if sorted.len() >= 2 {
        lemma_offspring_len(sorted.subrange(0, (sorted.len() / 2) as int), n.rng_state);
    }
}

/// The number of generator steps that blending a strategy of `len` values
/// with a global strategy of `global_len` values takes: one per position the
/// two share.
pub open spec fn blend_steps(len: nat, global_len: nat) -> nat {
    if len < global_len {
        len
    } else {
        global_len
    }
}

/// A strategy's values after blending in `global`: at each position `i` the
/// two share, the generator is stepped once and the global value is adopted
/// when the new state's bits above the lowest 33 are below `blend_threshold`.
pub open spec fn blended_values(
    values: Seq<Ternary>,
    global: Seq<Ternary>,
    state: u64,
    blend_threshold: u64,
) -> Seq<Ternary> {
    Seq::new(
        values.len(),
        |i: int|
            if i < global.len() && (lcg_iter(state, (i + 1) as nat) >> 33u64) < blend_threshold {
                global[i]
            } else {
                values[i]
            },
    )
}

/// The agents after blending in `global`, one after the other, each
/// continuing from the generator state the previous one left; also the final
/// state. Fitness is left as it was.
pub open spec fn blended_agents(
    agents: Seq<AgentModel>,
    global: Seq<Ternary>,
    state: u64,
    blend_threshold: u64,
) -> (Seq<AgentModel>, u64)
    decreases agents.len(),
{
    if agents.len() == 0 {
        (Seq::empty(), state)
    } else {
        let (earlier, s) = blended_agents(agents.drop_last(), global, state, blend_threshold);
        let a = agents.last();
        (
            earlier.push(
                AgentModel {
                    strategy: blended_values(a.strategy, global, s, blend_threshold),
                    fitness: a.fitness,
                },
            ),
            lcg_iter(s, blend_steps(a.strategy.len(), global.len())),
        )
    }
}

pub proof fn lemma_blended_agents_len(
    agents: Seq<AgentModel>,
    global: Seq<Ternary>,
    state: u64,
    blend_threshold: u64,
)
    ensures
        blended_agents(agents, global, state, blend_threshold).0.len() == agents.len(),
    decreases agents.len(),
{
    if agents.len() > 0 {
        lemma_blended_agents_len(agents.drop_last(), global, state, blend_threshold);
    }
}

/// Blends `global` into one strategy.
fn blend_strategy(values: &Strategy, global: &Strategy, state: &mut u64, blend_threshold: u64) -> (r: Strategy)
    ensures
        r@ == blended_values(values@, global@, *old(state), blend_threshold),
        *final(state) == lcg_iter(*old(state), blend_steps(values@.len(), global@.len())),
{
    let ghost s0 = *state;
    let n = values.values.len();
    let mut out: Vec<Ternary> = Vec::new();
    let mut i: usize = 0;
    while i < n
        invariant
            i <= n,
            n == values@.len(),
            *state == lcg_iter(s0, blend_steps(i as nat, global@.len())),
            out@ == blended_values(values@, global@, s0, blend_threshold).subrange(0, i as int),
        decreases n - i,
    {
        let mut v = values.values[i];
        if i < global.values.len() {
            lcg_advance(state);
            if (*state >> 33u64) < blend_threshold {
                v = global.values[i];
            }
        }
        out.push(v);
        i = i + 1;
        assert(out@ =~= blended_values(values@, global@, s0, blend_threshold).subrange(0, i as int));
    }
    assert(out@ =~= blended_values(values@, global@, s0, blend_threshold));
    Strategy { values: out }
}

/// `a` is strictly greater than `b` as fractions.
fn fitness_exceeds(a: Fitness, b: Fitness) -> (r: bool)
    ensures
        r == fitness_gt(a, b),
{
    if a.total == 0 || b.total == 0 {
        return false;
    }
    let ah = a.hits as u128;
    let at = a.total as u128;
    let bh = b.hits as u128;
    let bt = b.total as u128;
    proof {
        assert(ah * bt <= u64::MAX as int * u64::MAX as int) by (nonlinear_arith)
            requires ah <= u64::MAX, bt <= u64::MAX, 0 <= ah, 0 <= bt;
        assert(bh * at <= u64::MAX as int * u64::MAX as int) by (nonlinear_arith)
            requires bh <= u64::MAX, at <= u64::MAX, 0 <= bh, 0 <= at;
        assert(u64::MAX as int * u64::MAX as int <= u128::MAX) by (nonlinear_arith);
    }
    ah * bt > bh * at
}

impl Node {
    /// Creates a node with identifier 0, `population_size` agents and
    /// strategies of `strategy_len`.
    pub fn new(population_size: usize, strategy_len: usize) -> (n: Node)
        ensures
            n@ == seeded_node(population_size as nat, strategy_len as nat, 0),
    {
        Self::with_id(population_size, strategy_len, 0)
    }

    /// Creates a node with a specific identifier.
    pub fn with_id(population_size: usize, strategy_len: usize, id: usize) -> (n: Node)
        requires
            id as int * 1_000_003 + 42 <= u64::MAX,
        ensures
            n@ == seeded_node(population_size as nat, strategy_len as nat, id),
    {
        let mut state: u64 = id as u64 * 1_000_003 + 42;
        let ghost seed = state;
        proof {
            lemma_lcg_iter_add(seed, 0, strategy_len as nat);
            assert(strategy_len as nat * (0nat + 1) == strategy_len as nat) by (nonlinear_arith);
        }
        let target = Strategy::random(strategy_len, &mut state);
        let mut agents: Vec<Agent> = Vec::new();
        let mut k: usize = 0;
        while k < population_size
            invariant
                k <= population_size,
                seed == node_seed(id),
                state == lcg_iter(seed, steps_before_agent(strategy_len as nat, k as nat)),
                agent_views(agents@) == seeded_agents(seed, population_size as nat, strategy_len as nat).subrange(0, k as int),
            decreases population_size - k,
        {
            let ghost prev = agent_views(agents@);
            let agent = Agent::random(strategy_len, &mut state);
            assert(agent@ == seeded_agents(seed, population_size as nat, strategy_len as nat)[k as int]);
            proof {
                lemma_next_agent_state(seed, strategy_len as nat, k as nat);
            }
            agents.push(agent);
            assert(agent_views(agents@) =~= prev.push(agents@[k as int]@));
            k = k + 1;
            assert(agent_views(agents@) =~= seeded_agents(seed, population_size as nat, strategy_len as nat).subrange(0, k as int));
        }
        let best_strategy = Strategy::zeros(strategy_len);
        let n = Node {
            agents,
            target,
            rng_state: state,
            id,
            best_fitness: Fitness { hits: 0, total: 1 },
            best_strategy,
        };
        assert(n@.agents =~= seeded_node(population_size as nat, strategy_len as nat, id).agents);
        assert(n@.best_strategy =~= seeded_node(population_size as nat, strategy_len as nat, id).best_strategy);
        n
    }

    /// Sets the node's target.
    pub fn with_target(self, target: Strategy) -> (n: Node)
        ensures
            n@ == (NodeModel { target: target@, ..self@ }),
    {
        let mut n = self;
        n.target = target;
        n
    }

    /// Runs one generation of local evolution.
    pub fn evolve_step(&mut self)
        requires
            evolvable(old(self)@),
        ensures
            final(self)@ == evolved(old(self)@),
            final(self)@.agents.len() == old(self)@.agents.len(),
    {
        proof {
            lemma_evolved_population(self@);
        }
        let ghost n0 = self@;
        let count = self.agents.len();
        let mut fresh: Vec<Agent> = Vec::new();
        let mut i: usize = 0;
        while i < count
            invariant
                i <= count,
                count == self.agents.len(),
                self@ == n0,
                agent_views(fresh@) == evaluated(n0.agents, n0.target).subrange(0, i as int),
            decreases count - i,
        {
            let agent = &self.agents[i];
            let evaluated_agent = Agent {
                strategy: agent.strategy.duplicate(),
                fitness: agent.strategy.fitness_against(&self.target),
            };
            let ghost prev = agent_views(fresh@);
            fresh.push(evaluated_agent);
            assert(agent_views(fresh@) =~= prev.push(fresh@[i as int]@));
            i = i + 1;
            assert(agent_views(fresh@) =~= evaluated(n0.agents, n0.target).subrange(0, i as int));
        }
        assert(agent_views(fresh@) =~= evaluated(n0.agents, n0.target));
        let mut agents = rank_agents(&fresh);
        let ghost sorted = ranked(evaluated(n0.agents, n0.target));
        assert(agent_views(agents@) == sorted);
        assert(agents.len() == sorted.len());
        proof {
            if agents.len() > 0 {
                assert(agent_views(agents@)[0] == agents@[0]@);
            }
        }
        if agents.len() > 0 {
            if fitness_exceeds(agents[0].fitness, self.best_fitness) {
                self.best_fitness = agents[0].fitness;
                self.best_strategy = agents[0].strategy.duplicate();
            }
        }
        assert(self@.best_fitness == evolved(n0).best_fitness);
        assert(self@.best_strategy == evolved(n0).best_strategy);
        assert(self@.target == n0.target && self@.id == n0.id && self@.rng_state == n0.rng_state);
        let pop = agents.len();
        if pop < 2 {
            self.agents = agents;
            assert(self@.agents =~= evolved(n0).agents);
            return;
        }
        let half = pop / 2;
        let ghost top = sorted.subrange(0, half as int);
        let ghost rng0 = self.rng_state;
        let mut k: usize = half;
        while k < pop
            invariant
                half <= k <= pop,
                pop == sorted.len(),
                half == pop / 2,
                pop % 2 == 0,
                top == sorted.subrange(0, half as int),
                agents.len() == pop,
                agent_views(agents@) == top + offspring(top.subrange(0, (k - half) as int), rng0).0
                    + sorted.subrange(k as int, pop as int),
                self.rng_state == offspring(top.subrange(0, (k - half) as int), rng0).1,
                rng0 == n0.rng_state,
                self@.best_fitness == evolved(n0).best_fitness,
                self@.best_strategy == evolved(n0).best_strategy,
                self@.target == n0.target,
                self@.id == n0.id,
                sorted == ranked(evaluated(n0.agents, n0.target)),
            decreases pop - k,
        {
            proof {
                lemma_offspring_len(top.subrange(0, (k - half) as int), rng0);
            }
            assert(agent_views(agents@)[(k - half) as int] == agents@[(k - half) as int]@);
            let mut child = agents[k - half].duplicate();
            assert(child@ == top[(k - half) as int]);
            child.strategy.mutate(&mut self.rng_state);
            let ghost before = agent_views(agents@);
            let ghost before_raw = agents@;
            agents.set(k, child);
            proof {
                let parents = top.subrange(0, (k - half + 1) as int);
                assert(parents.drop_last() =~= top.subrange(0, (k - half) as int));
                assert(parents.last() == top[(k - half) as int]);
                lemma_offspring_len(parents, rng0);
                assert(agents@[k as int]@ == offspring(parents, rng0).0.last());
                assert forall|x: int| 0 <= x < pop && x != k implies agent_views(agents@)[x] == before[x] by {
                    assert(agents@[x] == before_raw[x]);
                    assert(before[x] == before_raw[x]@);
                }
                let prev = offspring(top.subrange(0, (k - half) as int), rng0).0;
                let next = offspring(parents, rng0).0;
                assert(next == prev.push(agents@[k as int]@));
                let goal = top + next + sorted.subrange(k + 1, pop as int);
                assert(goal.len() == pop);
                assert forall|x: int| 0 <= x < pop implies agent_views(agents@)[x] == goal[x] by {
                    if x < half {
                        assert(before[x] == top[x]);
                    } else if x < k {
                        assert(before[x] == prev[x - half]);
                        assert(next[x - half] == prev[x - half]);
                    } else if x == k {
                        assert(agent_views(agents@)[x] == agents@[x]@);
                    } else {
                        assert(before[x] == sorted[x]);
                    }
                }
                assert(agent_views(agents@) =~= goal);
            }
            k = k + 1;
        }
        self.agents = agents;
        proof {
            assert(top.subrange(0, (pop - half) as int) =~= top);
            assert(sorted.subrange(pop as int, pop as int) =~= Seq::<AgentModel>::empty());
            assert(self@.agents =~= evolved(n0).agents);
        }
    }

    /// Runs `generations` generations of local evolution.
    pub fn evolve(&mut self, generations: usize)
        requires
            generations == 0 || evolvable(old(self)@),
        ensures
            final(self)@ == evolved_times(old(self)@, generations as nat),
            final(self)@.agents.len() == old(self)@.agents.len(),
    {
        let ghost n0 = self@;
        let mut g: usize = 0;
        while g < generations
            invariant
                g <= generations,
                self@ == evolved_times(n0, g as nat),
                generations > 0 ==> evolvable(self@),
                self@.agents.len() == n0.agents.len(),
            decreases generations - g,
        {
            proof {
                lemma_evolved_population(self@);
            }
            self.evolve_step();
            g = g + 1;
        }
    }

    /// Applies a federated update: blends the global strategy into every
    /// agent of the population. Each draw of the generator is read as a
    /// 31-bit number and the global value is adopted when it is below
    /// `blend_threshold`, so a threshold of `t` adopts with probability
    /// `t / 2^31`.
    pub fn apply_federated_update(&mut self, global: &Strategy, blend_threshold: u64)
        ensures
            final(self)@ == (NodeModel {
                agents: blended_agents(old(self)@.agents, global@, old(self)@.rng_state, blend_threshold).0,
                rng_state: blended_agents(old(self)@.agents, global@, old(self)@.rng_state, blend_threshold).1,
                ..old(self)@
            }),
            final(self)@.agents.len() == old(self)@.agents.len(),
    {
        let ghost n0 = self@;
        proof {
            lemma_blended_agents_len(n0.agents, global@, n0.rng_state, blend_threshold);
        }
        let count = self.agents.len();
        let mut updated: Vec<Agent> = Vec::new();
        let mut k: usize = 0;
        while k < count
            invariant
                k <= count,
                count == n0.agents.len(),
                updated.len() == k,
                self@ == (NodeModel { rng_state: self.rng_state, ..n0 }),
                agent_views(updated@) == blended_agents(n0.agents.subrange(0, k as int), global@, n0.rng_state, blend_threshold).0,
                self.rng_state == blended_agents(n0.agents.subrange(0, k as int), global@, n0.rng_state, blend_threshold).1,
            decreases count - k,
        {
            let ghost prefix = n0.agents.subrange(0, (k + 1) as int);
            proof {
                assert(prefix.drop_last() =~= n0.agents.subrange(0, k as int));
                assert(prefix.last() == self.agents@[k as int]@);
            }
            let strategy = blend_strategy(&self.agents[k].strategy, global, &mut self.rng_state, blend_threshold);
            let agent = Agent { strategy, fitness: self.agents[k].fitness };
            let ghost prev = agent_views(updated@);
            updated.push(agent);
            assert(agent_views(updated@) =~= prev.push(updated@[k as int]@));
            k = k + 1;
        }
        assert(n0.agents.subrange(0, count as int) =~= n0.agents);
        self.agents = updated;
    }

    /// The strategy summary a node shares: its best strategy so far.
    pub fn strategy_summary(&self) -> (s: Strategy)
        ensures
            s@ == self@.best_strategy,
    {
        self.best_strategy.duplicate()
    }
}

} // verus!
