use ternary_federated::{Aggregator, FederatedExperiment, Node, Strategy, Ternary};

#[test]
fn test_aggregator_majority_vote() {
    let s1 = Strategy {
        values: vec![Ternary::Pos, Ternary::Neg],
    };
    let s2 = Strategy {
        values: vec![Ternary::Pos, Ternary::Zero],
    };
    let s3 = Strategy {
        values: vec![Ternary::Neg, Ternary::Neg],
    };
    let len = s1.len();
    let result = Aggregator::majority_vote(&[s1, s2, s3], len);
    assert_eq!(result.values[0], Ternary::Pos);
    assert_eq!(result.values[1], Ternary::Neg);
}

#[test]
fn majority_vote_ties_go_to_greater_value() {
    let a = Strategy { values: vec![Ternary::Neg, Ternary::Neg, Ternary::Zero] };
    let b = Strategy { values: vec![Ternary::Zero, Ternary::Pos, Ternary::Pos] };
    let result = Aggregator::majority_vote(&[a, b], 3);
    assert_eq!(result.values, vec![Ternary::Zero, Ternary::Pos, Ternary::Pos]);
}

#[test]
fn majority_vote_skips_short_strategies() {
    let a = Strategy { values: vec![Ternary::Neg, Ternary::Neg] };
    let b = Strategy { values: vec![Ternary::Zero] };
    let c = Strategy { values: vec![Ternary::Zero] };
    let result = Aggregator::majority_vote(&[a, b, c], 2);
    assert_eq!(result.values, vec![Ternary::Zero, Ternary::Neg]);
}

#[test]
fn majority_vote_unanimous() {
    let a = Strategy { values: vec![Ternary::Neg, Ternary::Zero, Ternary::Pos] };
    let result = Aggregator::majority_vote(&[a.clone(), a.clone(), a.clone()], 3);
    assert_eq!(result, a);
}

#[test]
fn majority_vote_of_nothing_is_empty() {
    let result = Aggregator::majority_vote(&[], 0);
    assert!(result.is_empty());
}

#[test]
fn experiment_evolves_every_node() {
    let mut nodes: Vec<Node> = (0..3).map(|i| Node::with_id(10, 6, i)).collect();
    let mut expected = nodes.clone();
    for n in expected.iter_mut() {
        n.evolve(4);
    }
    FederatedExperiment::evolve_all(&mut nodes, 4);
    for (a, b) in nodes.iter().zip(&expected) {
        assert_eq!(a.rng_state, b.rng_state);
        assert_eq!(a.best_fitness, b.best_fitness);
        assert_eq!(a.best_strategy, b.best_strategy);
    }
}

#[test]
fn experiment_shares_global_with_every_node() {
    let mut nodes: Vec<Node> = (0..2).map(|i| Node::with_id(8, 5, i)).collect();
    let mut expected = nodes.clone();
    let global = Strategy { values: vec![Ternary::Pos; 5] };
    for n in expected.iter_mut() {
        n.apply_federated_update(&global, 1288490189);
        n.evolve_step();
    }
    FederatedExperiment::share_global(&mut nodes, &global, 1288490189);
    for (a, b) in nodes.iter().zip(&expected) {
        assert_eq!(a.rng_state, b.rng_state);
        assert_eq!(a.best_strategy, b.best_strategy);
        assert_eq!(a.agents.len(), b.agents.len());
    }
}

#[test]
fn aggregate_by_majority_uses_first_length() {
    let a = Strategy { values: vec![Ternary::Pos, Ternary::Neg] };
    let b = Strategy { values: vec![Ternary::Pos, Ternary::Neg, Ternary::Zero] };
    let c = Strategy { values: vec![Ternary::Neg] };
    let result = Aggregator::aggregate_by_majority(&[a, b, c]);
    assert_eq!(result.values, vec![Ternary::Pos, Ternary::Neg]);
}

#[test]
fn aggregate_by_majority_of_nothing_is_empty() {
    let result = Aggregator::aggregate_by_majority(&[]);
    assert!(result.is_empty());
}

#[test]
fn evolve_all_zero_generations_accepts_odd_population() {
    let mut nodes = vec![Node::with_id(3, 4, 1)];
    let before = nodes[0].rng_state;
    FederatedExperiment::evolve_all(&mut nodes, 0);
    assert_eq!(nodes[0].rng_state, before);
    assert_eq!(nodes[0].agents.len(), 3);
}
