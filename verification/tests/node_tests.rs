use ternary_federated::{Fitness, Node, Strategy, Ternary};

fn ratio(f: Fitness) -> f64 {
    f.hits as f64 / f.total as f64
}

#[test]
fn test_node_creation() {
    let node = Node::new(50, 10);
    assert_eq!(node.agents.len(), 50);
    assert_eq!(node.target.len(), 10);
    assert_eq!(node.id, 0);
}

#[test]
fn test_node_evolution_improves_fitness() {
    let mut node = Node::new(100, 20);
    node.evolve(100);
    assert!(ratio(node.best_fitness) > 0.0);
}

#[test]
fn test_node_with_target() {
    let target = Strategy {
        values: vec![Ternary::Neg, Ternary::Pos, Ternary::Zero],
    };
    let node = Node::new(10, 3).with_target(target.clone());
    assert_eq!(node.target, target);
}

#[test]
fn node_creation_draws_target_then_agents() {
    let node = Node::with_id(3, 4, 7);
    let mut state = 7u64 * 1_000_003 + 42;
    let target = Strategy::random(4, &mut state);
    assert_eq!(node.target, target);
    for agent in &node.agents {
        let expected = Strategy::random(4, &mut state);
        assert_eq!(agent.strategy, expected);
        assert_eq!(agent.fitness, Fitness { hits: 0, total: 1 });
    }
    assert_eq!(node.rng_state, state);
    assert_eq!(node.best_strategy, Strategy::zeros(4));
    assert_eq!(node.best_fitness, Fitness { hits: 0, total: 1 });
}

#[test]
fn node_evolution_keeps_population_and_lengths() {
    let mut node = Node::with_id(20, 6, 3);
    node.evolve(15);
    assert_eq!(node.agents.len(), 20);
    assert!(node.agents.iter().all(|a| a.strategy.len() == 6));
}

#[test]
fn node_best_fitness_never_decreases() {
    let mut node = Node::with_id(16, 8, 2);
    let mut previous = ratio(node.best_fitness);
    for _ in 0..25 {
        node.evolve_step();
        let now = ratio(node.best_fitness);
        assert!(now >= previous);
        previous = now;
    }
    assert_eq!(node.best_fitness.total, 8);
    assert_eq!(node.best_strategy.fitness_against(&node.target), node.best_fitness);
}

#[test]
fn node_step_orders_survivors_by_fitness() {
    let mut node = Node::with_id(12, 10, 5);
    node.evolve_step();
    let half = node.agents.len() / 2;
    for i in 1..half {
        assert!(node.agents[i - 1].fitness.hits >= node.agents[i].fitness.hits);
    }
    let best = node.agents[0].strategy.fitness_against(&node.target);
    assert_eq!(node.agents[0].fitness, best);
}

#[test]
fn node_step_single_agent_only_tracks_best() {
    let target = Strategy { values: vec![Ternary::Pos, Ternary::Pos] };
    let mut node = Node::with_id(1, 2, 0).with_target(target);
    node.agents[0].strategy = Strategy { values: vec![Ternary::Pos, Ternary::Neg] };
    let state = node.rng_state;
    node.evolve_step();
    assert_eq!(node.rng_state, state);
    assert_eq!(node.agents[0].fitness, Fitness { hits: 1, total: 2 });
    assert_eq!(node.best_fitness, Fitness { hits: 1, total: 2 });
    assert_eq!(node.best_strategy.values, vec![Ternary::Pos, Ternary::Neg]);
}

#[test]
fn node_summary_is_best_strategy() {
    let mut node = Node::with_id(10, 5, 1);
    node.evolve(3);
    assert_eq!(node.strategy_summary(), node.best_strategy);
}

#[test]
fn node_update_with_zero_threshold_keeps_strategies() {
    let mut node = Node::with_id(6, 5, 4);
    let before: Vec<Strategy> = node.agents.iter().map(|a| a.strategy.clone()).collect();
    let global = Strategy { values: vec![Ternary::Pos; 5] };
    node.apply_federated_update(&global, 0);
    let after: Vec<Strategy> = node.agents.iter().map(|a| a.strategy.clone()).collect();
    assert_eq!(before, after);
}

#[test]
fn node_update_with_full_threshold_adopts_global() {
    let mut node = Node::with_id(6, 5, 4);
    let global = Strategy { values: vec![Ternary::Neg, Ternary::Pos, Ternary::Zero] };
    let state = node.rng_state;
    node.apply_federated_update(&global, 1u64 << 31);
    for agent in &node.agents {
        assert_eq!(agent.strategy.len(), 5);
        assert_eq!(&agent.strategy.values[..3], &global.values[..]);
    }
    let mut expected = state;
    for _ in 0..(6 * 3) {
        Ternary::random(&mut expected);
    }
    assert_eq!(node.rng_state, expected);
}

#[test]
fn node_update_values_are_old_or_global() {
    let mut node = Node::with_id(8, 7, 9);
    let before: Vec<Strategy> = node.agents.iter().map(|a| a.strategy.clone()).collect();
    let global = Strategy { values: vec![Ternary::Neg; 7] };
    node.apply_federated_update(&global, 1288490189);
    for (a, b) in node.agents.iter().zip(&before) {
        for i in 0..7 {
            assert!(a.strategy.values[i] == b.values[i] || a.strategy.values[i] == Ternary::Neg);
        }
    }
}

#[test]
fn node_step_keeps_equally_fit_agents_in_order() {
    let target = Strategy { values: vec![Ternary::Pos, Ternary::Pos] };
    let mut node = Node::with_id(4, 2, 0).with_target(target);
    let a = Strategy { values: vec![Ternary::Pos, Ternary::Neg] };
    let b = Strategy { values: vec![Ternary::Neg, Ternary::Pos] };
    let c = Strategy { values: vec![Ternary::Pos, Ternary::Pos] };
    let d = Strategy { values: vec![Ternary::Neg, Ternary::Neg] };
    node.agents[0].strategy = a.clone();
    node.agents[1].strategy = b;
    node.agents[2].strategy = c.clone();
    node.agents[3].strategy = d;
    node.evolve_step();
    assert_eq!(node.agents[0].strategy, c);
    assert_eq!(node.agents[0].fitness, Fitness { hits: 2, total: 2 });
    assert_eq!(node.agents[1].strategy, a);
    assert_eq!(node.agents[1].fitness, Fitness { hits: 1, total: 2 });
    assert_eq!(node.best_fitness, Fitness { hits: 2, total: 2 });
    assert_eq!(node.best_strategy, c);
}

#[test]
fn node_evolution_composes() {
    let mut once = Node::with_id(10, 6, 8);
    once.evolve(7);
    let mut twice = Node::with_id(10, 6, 8);
    twice.evolve(3);
    twice.evolve(4);
    assert_eq!(once.rng_state, twice.rng_state);
    assert_eq!(once.best_fitness, twice.best_fitness);
    assert_eq!(once.best_strategy, twice.best_strategy);
    for (x, y) in once.agents.iter().zip(&twice.agents) {
        assert_eq!(x.strategy, y.strategy);
        assert_eq!(x.fitness, y.fitness);
    }
}

#[test]
fn node_evolve_zero_generations_leaves_odd_population() {
    let mut node = Node::with_id(5, 3, 2);
    let state = node.rng_state;
    node.evolve(0);
    assert_eq!(node.agents.len(), 5);
    assert_eq!(node.rng_state, state);
}
