//! The integer steps of a federated experiment that act on every node: local
//! evolution, and sharing a global strategy back into the populations.

use vstd::prelude::*;
use crate::strategy::Strategy;
use crate::node::{
    Node, NodeModel, evolvable, evolved, evolved_times, blended_agents, lemma_blended_agents_len,
    lemma_evolved_population,
};

verus! {

/// Orchestrates a federated learning experiment.
pub struct FederatedExperiment;

/// The views of a sequence of nodes.
pub open spec fn node_views(nodes: Seq<Node>) -> Seq<NodeModel> {
    nodes.map_values(|n: Node| n@)
}

/// A node after a federated update blended `global` into its population.
pub open spec fn updated_node(n: NodeModel, global: Seq<crate::ternary::Ternary>, blend_threshold: u64) -> NodeModel {
    NodeModel {
        agents: blended_agents(n.agents, global, n.rng_state, blend_threshold).0,
        rng_state: blended_agents(n.agents, global, n.rng_state, blend_threshold).1,
        ..n
    }
}

/// Every node's population can be evolved.
pub open spec fn all_evolvable(nodes: Seq<NodeModel>) -> bool {
    forall|i: int| 0 <= i < nodes.len() ==> evolvable(#[trigger] nodes[i])
}

/// Evolution keeps every population evolvable.
pub proof fn lemma_evolved_times_evolvable(n: NodeModel, generations: nat)
    requires
        evolvable(n),
    ensures
        evolvable(evolved_times(n, generations)),
        evolved_times(n, generations).agents.len() == n.agents.len(),
    decreases generations,
{
    if generations > 0 {
        lemma_evolved_times_evolvable(n, (generations - 1) as nat);
        lemma_evolved_population(evolved_times(n, (generations - 1) as nat));
    }
}

impl FederatedExperiment {
    /// Runs `generations` generations of local evolution on every node.
    pub fn evolve_all(nodes: &mut Vec<Node>, generations: usize)
        requires
            generations == 0 || all_evolvable(node_views(old(nodes)@)),
        ensures
            node_views(final(nodes)@) == node_views(old(nodes)@).map_values(
                |n: NodeModel| evolved_times(n, generations as nat),
            ),
    {
        let ghost start = node_views(nodes@);
        let mut pending: Vec<Node> = Vec::new();
        std::mem::swap(&mut pending, nodes);
        let count = pending.len();
        let mut k: usize = 0;
        while k < count
            invariant
                k <= count,
                count == start.len(),
                generations == 0 || all_evolvable(start),
                pending.len() == count - k,
                node_views(pending@) == start.subrange(k as int, count as int),
                node_views(nodes@) == start.subrange(0, k as int).map_values(
                    |n: NodeModel| evolved_times(n, generations as nat),
                ),
            decreases count - k,
        {
            let ghost before = node_views(nodes@);
            assert(node_views(pending@)[0] == pending@[0]@);
            let ghost old_pending = pending@;
            let mut node = pending.remove(0);
            assert forall|x: int| 0 <= x < pending.len() implies node_views(pending@)[x] == start[k + 1 + x] by {
                assert(pending@[x] == old_pending[x + 1]);
                assert(node_views(old_pending)[x + 1] == old_pending[x + 1]@);
            }
            assert(node@ == start[k as int]);
            assert(generations == 0 || evolvable(start[k as int]));
            node.evolve(generations);
            nodes.push(node);
            assert(node_views(pending@) =~= start.subrange(k + 1, count as int));
            assert(node_views(nodes@) =~= before.push(evolved_times(start[k as int], generations as nat)));
            k = k + 1;
            assert(node_views(nodes@) =~= start.subrange(0, k as int).map_values(
                |n: NodeModel| evolved_times(n, generations as nat),
            ));
        }
        assert(start.subrange(0, count as int) =~= start);
    }

    /// Shares a global strategy with every node: blends it into the node's
    /// population (see `Node::apply_federated_update`), then runs one
    /// generation of local evolution.
    pub fn share_global(nodes: &mut Vec<Node>, global: &Strategy, blend_threshold: u64)
        requires
            all_evolvable(node_views(old(nodes)@)),
        ensures
            node_views(final(nodes)@) == node_views(old(nodes)@).map_values(
                |n: NodeModel| evolved(updated_node(n, global@, blend_threshold)),
            ),
    {
        let ghost start = node_views(nodes@);
        let mut pending: Vec<Node> = Vec::new();
        std::mem::swap(&mut pending, nodes);
        let count = pending.len();
        let mut k: usize = 0;
        while k < count
            invariant
                k <= count,
                count == start.len(),
                all_evolvable(start),
                pending.len() == count - k,
                node_views(pending@) == start.subrange(k as int, count as int),
                node_views(nodes@) == start.subrange(0, k as int).map_values(
                    |n: NodeModel| evolved(updated_node(n, global@, blend_threshold)),
                ),
            decreases count - k,
        {
            let ghost before = node_views(nodes@);
            assert(node_views(pending@)[0] == pending@[0]@);
            let ghost old_pending = pending@;
            let mut node = pending.remove(0);
            assert forall|x: int| 0 <= x < pending.len() implies node_views(pending@)[x] == start[k + 1 + x] by {
                assert(pending@[x] == old_pending[x + 1]);
                assert(node_views(old_pending)[x + 1] == old_pending[x + 1]@);
            }
            assert(node@ == start[k as int]);
            assert(evolvable(start[k as int]));
            node.apply_federated_update(global, blend_threshold);
            proof {
                lemma_blended_agents_len(start[k as int].agents, global@, start[k as int].rng_state, blend_threshold);
            }
            node.evolve_step();
            nodes.push(node);
            assert(node_views(pending@) =~= start.subrange(k + 1, count as int));
            assert(node_views(nodes@) =~= before.push(evolved(updated_node(start[k as int], global@, blend_threshold))));
            k = k + 1;
            assert(node_views(nodes@) =~= start.subrange(0, k as int).map_values(
                |n: NodeModel| evolved(updated_node(n, global@, blend_threshold)),
            ));
        }
        assert(start.subrange(0, count as int) =~= start);
    }
}

} // verus!
