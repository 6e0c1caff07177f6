use euchre_neat::neural_network::{
    choose_action, inherit_edges, inherit_nodes, ActivationKind, NeuralNetwork, BREEDING_MUTATION_MAGNITUDE,
    BREEDING_MUTATION_RATE, HIDDEN_NODES, INITIAL_BOUND, INPUT_EDGES, INPUT_NODES, OUTPUT_EDGES,
    OUTPUT_NODES, PROBABILITY_SCALE, WEIGHT_SCALE,
};

fn random_genome() -> NeuralNetwork {
    let mut g = NeuralNetwork::new();
    g.init();
    g
}

fn assert_well_formed(g: &NeuralNetwork) {
    assert_eq!(g.weights_input_hidden.len(), INPUT_EDGES);
    assert_eq!(g.weights_hidden_output.len(), OUTPUT_EDGES);
    assert_eq!(g.connections_input_hidden.len(), INPUT_EDGES);
    assert_eq!(g.connections_hidden_output.len(), OUTPUT_EDGES);
    assert_eq!(g.hidden_biases.len(), HIDDEN_NODES);
    assert_eq!(g.final_biases.len(), OUTPUT_NODES);
    assert_eq!(g.hidden_activations.len(), HIDDEN_NODES);
    assert_eq!(g.final_activations.len(), OUTPUT_NODES);
}

#[test]
fn topology_sizes() {
    assert_eq!(INPUT_NODES, 554);
    assert_eq!(OUTPUT_NODES, 60);
    assert_eq!(HIDDEN_NODES, 409);
    assert_eq!(INPUT_EDGES, 226_586);
    assert_eq!(OUTPUT_EDGES, 24_540);
    assert_eq!(BREEDING_MUTATION_RATE, 10_000);
    assert_eq!(BREEDING_MUTATION_MAGNITUDE, WEIGHT_SCALE / 10);
    assert_eq!(INITIAL_BOUND, WEIGHT_SCALE / 2);
}

#[test]
fn new_network_is_zero_fully_connected_and_logistic() {
    let g = NeuralNetwork::new();
    assert_well_formed(&g);
    assert!(g.weights_input_hidden.iter().all(|&w| w == 0));
    assert!(g.weights_hidden_output.iter().all(|&w| w == 0));
    assert!(g.connections_input_hidden.iter().all(|&c| c));
    assert!(g.connections_hidden_output.iter().all(|&c| c));
    assert!(g.hidden_biases.iter().all(|&b| b == 0));
    assert!(g.final_biases.iter().all(|&b| b == 0));
    assert!(g.hidden_activations.iter().all(|&k| k == ActivationKind::Sigmoid));
    assert!(g.final_activations.iter().all(|&k| k == ActivationKind::Sigmoid));
}

#[test]
fn init_draws_every_field_at_random_within_half_a_unit() {
    let g = random_genome();
    assert_well_formed(&g);
    for values in [&g.weights_input_hidden, &g.weights_hidden_output, &g.hidden_biases, &g.final_biases] {
        assert!(values.iter().all(|&w| -INITIAL_BOUND <= w && w <= INITIAL_BOUND));
    }
    assert!(g.weights_input_hidden.iter().any(|&w| w > WEIGHT_SCALE / 4));
    assert!(g.weights_input_hidden.iter().any(|&w| w < -WEIGHT_SCALE / 4));
    let enabled = g.connections_input_hidden.iter().filter(|&&c| c).count();
    assert!(enabled > INPUT_EDGES / 3 && enabled < 2 * INPUT_EDGES / 3);
    for kind in [ActivationKind::Sigmoid, ActivationKind::LeakyRelu, ActivationKind::Tanh] {
        assert!(g.hidden_activations.iter().any(|&k| k == kind));
    }
}

#[test]
fn unmutated_child_copies_every_edge_and_node_from_one_parent() {
    let a = random_genome();
    let b = random_genome();
    let child = a.crossover(&b, 0, BREEDING_MUTATION_MAGNITUDE);
    assert_well_formed(&child);
    let mut from_a = 0;
    for e in 0..INPUT_EDGES {
        let cw = child.weights_input_hidden[e];
        let cc = child.connections_input_hidden[e];
        let is_a = cw == a.weights_input_hidden[e] && cc == a.connections_input_hidden[e];
        let is_b = cw == b.weights_input_hidden[e] && cc == b.connections_input_hidden[e];
        assert!(is_a || is_b, "edge {} blended", e);
        if is_a && !is_b {
            from_a += 1;
        }
    }
    assert!(from_a > INPUT_EDGES / 3 && from_a < 2 * INPUT_EDGES / 3);
    for e in 0..OUTPUT_EDGES {
        let cw = child.weights_hidden_output[e];
        let cc = child.connections_hidden_output[e];
        assert!(
            (cw == a.weights_hidden_output[e] && cc == a.connections_hidden_output[e])
                || (cw == b.weights_hidden_output[e] && cc == b.connections_hidden_output[e])
        );
    }
    for n in 0..HIDDEN_NODES {
        let (cb, ck) = (child.hidden_biases[n], child.hidden_activations[n]);
        assert!(
            (cb == a.hidden_biases[n] && ck == a.hidden_activations[n])
                || (cb == b.hidden_biases[n] && ck == b.hidden_activations[n])
        );
    }
    for n in 0..OUTPUT_NODES {
        let (cb, ck) = (child.final_biases[n], child.final_activations[n]);
        assert!(
            (cb == a.final_biases[n] && ck == a.final_activations[n])
                || (cb == b.final_biases[n] && ck == b.final_activations[n])
        );
    }
}

#[test]
fn mutated_weights_and_biases_stay_within_the_magnitude() {
    let a = random_genome();
    let b = random_genome();
    let magnitude = BREEDING_MUTATION_MAGNITUDE;
    let child = a.crossover(&b, PROBABILITY_SCALE / 2, magnitude);
    let near = |x: i64, y: i64| (x - y).abs() <= magnitude;
    let mut moved = 0;
    for e in 0..INPUT_EDGES {
        let cw = child.weights_input_hidden[e];
        assert!(near(cw, a.weights_input_hidden[e]) || near(cw, b.weights_input_hidden[e]));
        if cw != a.weights_input_hidden[e] && cw != b.weights_input_hidden[e] {
            moved += 1;
        }
    }
    assert!(moved > 0);
    for e in 0..OUTPUT_EDGES {
        let cw = child.weights_hidden_output[e];
        assert!(near(cw, a.weights_hidden_output[e]) || near(cw, b.weights_hidden_output[e]));
    }
    for n in 0..HIDDEN_NODES {
        assert!(near(child.hidden_biases[n], a.hidden_biases[n]) || near(child.hidden_biases[n], b.hidden_biases[n]));
    }
    for n in 0..OUTPUT_NODES {
        assert!(near(child.final_biases[n], a.final_biases[n]) || near(child.final_biases[n], b.final_biases[n]));
    }
}

#[test]
fn certain_mutation_toggles_every_connection_and_keeps_weights_at_zero_magnitude() {
    let a = random_genome();
    let b = a.clone();
    let child = a.crossover(&b, PROBABILITY_SCALE, 0);
    for e in 0..INPUT_EDGES {
        assert_eq!(child.connections_input_hidden[e], !a.connections_input_hidden[e]);
        assert_eq!(child.weights_input_hidden[e], a.weights_input_hidden[e]);
    }
    for e in 0..OUTPUT_EDGES {
        assert_eq!(child.connections_hidden_output[e], !a.connections_hidden_output[e]);
    }
    assert_eq!(child.hidden_biases, a.hidden_biases);
    assert_eq!(child.final_biases, a.final_biases);
}

#[test]
fn crossover_of_a_genome_with_itself_without_mutation_is_a_copy() {
    let a = random_genome();
    let child = a.crossover(&a, 0, 0);
    assert_eq!(child, a);
}

#[test]
fn crossover_leaves_the_parents_unchanged() {
    let a = random_genome();
    let b = random_genome();
    let (a0, b0) = (a.clone(), b.clone());
    let _ = a.crossover(&b, BREEDING_MUTATION_RATE, BREEDING_MUTATION_MAGNITUDE);
    assert_eq!(a, a0);
    assert_eq!(b, b0);
}

#[test]
fn choose_action_picks_the_best_available_score() {
    let scores = vec![5, 9, 7, 9, -3];
    assert_eq!(choose_action(&scores, &vec![true, true, true, true, true]), 1);
    assert_eq!(choose_action(&scores, &vec![true, false, true, true, true]), 3);
    assert_eq!(choose_action(&scores, &vec![true, false, true, false, true]), 2);
    assert_eq!(choose_action(&scores, &vec![false, false, false, false, true]), 4);
}

#[test]
fn choose_action_breaks_ties_by_lowest_index() {
    let scores = vec![-4, 2, 2, 2];
    assert_eq!(choose_action(&scores, &vec![false, false, true, true]), 2);
    assert_eq!(choose_action(&vec![0, 0, 0], &vec![true, true, true]), 0);
}

#[test]
fn choose_action_always_returns_an_available_index() {
    let scores: Vec<i64> = (0..60).map(|i| (i * 37 % 11) as i64).collect();
    for start in 0..60 {
        let available: Vec<bool> = (0..60).map(|i| i >= start && i % 3 == start % 3).collect();
        let choice = choose_action(&scores, &available);
        assert!(available[choice]);
    }
}

#[test]
fn stats_count_edges_and_kinds() {
    let g = NeuralNetwork::new();
    let s = g.stats();
    assert_eq!(s.connected, INPUT_EDGES + OUTPUT_EDGES);
    assert_eq!(s.disconnected, 0);
    assert_eq!(s.sigmoid, HIDDEN_NODES + OUTPUT_NODES);
    assert_eq!(s.leaky_relu, 0);
    assert_eq!(s.tanh, 0);

    let mut h = NeuralNetwork::new();
    h.connections_input_hidden[0] = false;
    h.connections_hidden_output[5] = false;
    h.hidden_activations[3] = ActivationKind::Tanh;
    h.final_activations[0] = ActivationKind::LeakyRelu;
    let s = h.stats();
    assert_eq!(s.connected, INPUT_EDGES + OUTPUT_EDGES - 2);
    assert_eq!(s.disconnected, 2);
    assert_eq!(s.sigmoid, HIDDEN_NODES + OUTPUT_NODES - 2);
    assert_eq!(s.leaky_relu, 1);
    assert_eq!(s.tanh, 1);

    let r = random_genome().stats();
    assert_eq!(r.connected + r.disconnected, INPUT_EDGES + OUTPUT_EDGES);
    assert_eq!(r.sigmoid + r.leaky_relu + r.tanh, HIDDEN_NODES + OUTPUT_NODES);
}

#[test]
fn inherit_edges_applies_each_drawn_choice_exactly() {
    let aw = vec![10, 20, 30, 40, i64::MAX - 1, 60];
    let ac = vec![true, true, false, false, true, true];
    let bw = vec![-10, -20, -30, -40, -50, i64::MIN + 1];
    let bc = vec![false, true, true, false, false, true];
    let from_a = vec![true, false, true, false, true, false];
    let toggle = vec![false, false, true, true, false, false];
    let delta = vec![Some(5), Some(-5), Some(7), Some(9), Some(10), Some(-10)];
    let (w, c) = inherit_edges(&aw, &ac, &bw, &bc, &from_a, &toggle, &delta);
    assert_eq!(c, vec![true, true, true, true, true, true]);
    assert_eq!(w, vec![15, -25, 37, -31, i64::MAX, i64::MIN]);

    let none = vec![None; 6];
    let (w, c) = inherit_edges(&aw, &ac, &bw, &bc, &from_a, &vec![true; 6], &none);
    assert_eq!(c, vec![false, false, true, true, false, false]);
    assert_eq!(w, vec![10, -20, 30, -40, i64::MAX - 1, i64::MIN + 1]);

    // A disabled edge keeps its weight even when a perturbation was drawn.
    let (w, c) = inherit_edges(&aw, &ac, &bw, &bc, &vec![true; 6], &vec![false; 6], &delta);
    assert_eq!(c, ac);
    assert_eq!(w, vec![15, 15, 30, 40, i64::MAX, 50]);
}

#[test]
fn inherit_nodes_applies_each_drawn_choice_exactly() {
    let ab = vec![1, 2, 3];
    let ak = vec![ActivationKind::Sigmoid; 3];
    let bb = vec![-1, -2, -3];
    let bk = vec![ActivationKind::Tanh; 3];
    let from_a = vec![true, false, false];
    let delta = vec![None, Some(100), None];
    let redraw = vec![Some(ActivationKind::LeakyRelu), None, None];
    let (b, k) = inherit_nodes(&ab, &ak, &bb, &bk, &from_a, &delta, &redraw);
    assert_eq!(b, vec![1, 98, -3]);
    assert_eq!(k, vec![ActivationKind::LeakyRelu, ActivationKind::Tanh, ActivationKind::Tanh]);
}

#[test]
fn certain_mutation_toggles_every_flag_of_the_parent_it_came_from() {
    let a = random_genome();
    let b = random_genome();
    let child = a.crossover(&b, PROBABILITY_SCALE, BREEDING_MUTATION_MAGNITUDE);
    for e in 0..INPUT_EDGES {
        let c = child.connections_input_hidden[e];
        assert!(c == !a.connections_input_hidden[e] || c == !b.connections_input_hidden[e]);
        if !c {
            let w = child.weights_input_hidden[e];
            assert!(w == a.weights_input_hidden[e] || w == b.weights_input_hidden[e]);
        }
    }
}

#[test]
fn without_mutation_the_magnitude_is_never_used() {
    let a = random_genome();
    let child = a.crossover(&a, 0, -5);
    assert_eq!(child, a);
}
