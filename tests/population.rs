use euchre_neat::neural_network::{
    NeuralNetwork, BREEDING_MUTATION_MAGNITUDE, BREEDING_MUTATION_RATE, HIDDEN_NODES, INPUT_EDGES,
    OUTPUT_EDGES, OUTPUT_NODES,
};
use euchre_neat::population::{pair_up, ConfigError, EvolutionConfig, Organism, Population};

fn random_genome() -> NeuralNetwork {
    let mut g = NeuralNetwork::new();
    g.init();
    g
}

fn population(n: usize) -> Population {
    Population::new((0..n).map(|_| random_genome()).collect()).unwrap()
}

fn config(population_size: usize) -> EvolutionConfig {
    EvolutionConfig {
        population_size,
        generations: 10,
        thread_count: 1,
        out_dir: "out".to_string(),
        starting_population_dir: None,
        no_gen_save: false,
    }
}

#[test]
fn config_requires_a_positive_multiple_of_four() {
    assert_eq!(config(0).validate(None), Err(ConfigError::InvalidPopulationSize));
    assert_eq!(config(6).validate(None), Err(ConfigError::InvalidPopulationSize));
    assert_eq!(config(6).validate(Some(6)), Err(ConfigError::InvalidPopulationSize));
    assert_eq!(config(4).validate(None), Ok(()));
    assert_eq!(config(12).validate(None), Ok(()));
    assert_eq!(config(2048).validate(None), Ok(()));
}

#[test]
fn config_requires_one_starting_genome_per_organism() {
    assert_eq!(config(8).validate(Some(7)), Err(ConfigError::StartingPopulationMismatch));
    assert_eq!(config(8).validate(Some(0)), Err(ConfigError::StartingPopulationMismatch));
    assert_eq!(config(8).validate(Some(8)), Ok(()));
}

#[test]
fn new_organism_has_no_genome() {
    let o = Organism::new();
    assert!(o.brain.is_none());
    assert_eq!(o.lifetime, 0);
    assert_eq!(o.generation, 0);
}

#[test]
fn population_size_must_be_a_positive_multiple_of_four() {
    assert_eq!(Population::new(Vec::new()).err(), Some(ConfigError::InvalidPopulationSize));
    let six: Vec<NeuralNetwork> = (0..6).map(|_| NeuralNetwork::new()).collect();
    assert_eq!(Population::new(six).err(), Some(ConfigError::InvalidPopulationSize));
    let brains: Vec<NeuralNetwork> = (0..4).map(|_| random_genome()).collect();
    let p = Population::new(brains.clone()).unwrap();
    assert_eq!(p.generation, 0);
    for (i, o) in p.organisms.iter().enumerate() {
        assert_eq!(o.brain.as_ref(), Some(&brains[i]));
        assert_eq!((o.lifetime, o.generation), (0, 0));
        assert_eq!(p.brain(i), &brains[i]);
    }
}

#[test]
fn every_organism_plays_exactly_one_match() {
    let p = population(8);
    for _ in 0..5 {
        let pairs = p.match_pairs();
        assert_eq!(pairs.len(), 4);
        let mut seen = vec![false; 8];
        for &(a, b) in &pairs {
            assert!(!seen[a] && !seen[b] && a != b);
            seen[a] = true;
            seen[b] = true;
        }
        assert!(seen.iter().all(|&s| s));
    }
}

#[test]
fn match_pairs_are_drawn_at_random() {
    let p = population(8);
    let first = p.match_pairs();
    assert!((0..20).any(|_| p.match_pairs() != first));
}

#[test]
fn breeding_plan_retains_the_winners_and_picks_two_of_them_as_parents() {
    let p = population(8);
    let pairs = vec![(0, 5), (1, 4), (2, 7), (3, 6)];
    let first_won = vec![true, false, false, true];
    let winners = [0, 4, 7, 3];
    for _ in 0..10 {
        let plan = p.breeding_plan(&pairs, &first_won);
        assert_eq!(plan.len(), 8);
        for (i, entry) in plan.iter().enumerate() {
            match entry {
                None => assert!(winners.contains(&i)),
                Some((a, b)) => {
                    assert!(!winners.contains(&i));
                    assert!(winners.contains(a) && winners.contains(b) && a != b);
                }
            }
        }
    }
}

#[test]
fn child_of_crosses_the_two_planned_parents() {
    let p = population(4);
    let child = p.child_of((1, 3), 0, 0);
    for e in 0..INPUT_EDGES {
        let w = child.weights_input_hidden[e];
        assert!(w == p.brain(1).weights_input_hidden[e] || w == p.brain(3).weights_input_hidden[e]);
    }
}

#[test]
fn advance_keeps_winners_and_installs_children() {
    let mut p = population(4);
    let kept = p.organisms[2].brain.clone();
    let child = random_genome();
    p.advance(vec![Some(child.clone()), None, None, Some(random_genome())]);
    assert_eq!(p.generation, 1);
    assert_eq!(p.organisms.len(), 4);
    assert_eq!(p.organisms[0].brain.as_ref(), Some(&child));
    assert_eq!((p.organisms[0].lifetime, p.organisms[0].generation), (0, 1));
    assert_eq!(p.organisms[2].brain, kept);
    assert_eq!((p.organisms[2].lifetime, p.organisms[2].generation), (1, 0));
    p.advance(vec![None, None, Some(random_genome()), None]);
    assert_eq!(p.generation, 2);
    assert_eq!((p.organisms[0].lifetime, p.organisms[0].generation), (1, 1));
    assert_eq!((p.organisms[1].lifetime, p.organisms[1].generation), (2, 0));
    assert_eq!((p.organisms[2].lifetime, p.organisms[2].generation), (0, 2));
}

fn run_generation(p: &mut Population, rate: u32, magnitude: i64) -> Vec<Option<(usize, usize)>> {
    let pairs = p.match_pairs();
    // A stand-in for the match: the lower position always wins.
    let first_won: Vec<bool> = pairs.iter().map(|&(a, b)| a < b).collect();
    let plan = p.breeding_plan(&pairs, &first_won);
    let children = plan.iter().map(|entry| entry.map(|parents| p.child_of(parents, rate, magnitude))).collect();
    p.advance(children);
    plan
}

#[test]
fn population_size_and_turnover_per_generation() {
    let mut p = population(16);
    for generation in 1..=3 {
        let before: Vec<usize> = p.organisms.iter().map(|o| o.lifetime).collect();
        run_generation(&mut p, BREEDING_MUTATION_RATE, BREEDING_MUTATION_MAGNITUDE);
        assert_eq!(p.organisms.len(), 16);
        assert_eq!(p.generation, generation);
        let lengthened = (0..16).filter(|&i| p.organisms[i].lifetime == before[i] + 1).count();
        assert_eq!(lengthened, 8);
        for (i, o) in p.organisms.iter().enumerate() {
            if o.lifetime != before[i] + 1 {
                assert_eq!((o.lifetime, o.generation), (0, generation));
            }
        }
    }
}

#[test]
fn one_generation_of_four_without_mutation() {
    let mut p = population(4);
    let parents_before: Vec<NeuralNetwork> = (0..4).map(|i| p.brain(i).clone()).collect();
    let plan = run_generation(&mut p, 0, 0);
    let retained: Vec<usize> = (0..4).filter(|&i| plan[i].is_none()).collect();
    assert_eq!(retained.len(), 2);
    for i in 0..4 {
        let o = &p.organisms[i];
        match plan[i] {
            None => {
                assert_eq!((o.lifetime, o.generation), (1, 0));
                assert_eq!(o.brain.as_ref(), Some(&parents_before[i]));
            }
            Some((a, b)) => {
                assert_eq!((o.lifetime, o.generation), (0, 1));
                assert!(retained.contains(&a) && retained.contains(&b) && a != b);
                let child = o.brain.as_ref().unwrap();
                let (x, y) = (&parents_before[a], &parents_before[b]);
                for e in 0..INPUT_EDGES {
                    let edge = (child.weights_input_hidden[e], child.connections_input_hidden[e]);
                    assert!(
                        edge == (x.weights_input_hidden[e], x.connections_input_hidden[e])
                            || edge == (y.weights_input_hidden[e], y.connections_input_hidden[e])
                    );
                }
                for e in 0..OUTPUT_EDGES {
                    let edge = (child.weights_hidden_output[e], child.connections_hidden_output[e]);
                    assert!(
                        edge == (x.weights_hidden_output[e], x.connections_hidden_output[e])
                            || edge == (y.weights_hidden_output[e], y.connections_hidden_output[e])
                    );
                }
                for n in 0..HIDDEN_NODES {
                    let node = (child.hidden_biases[n], child.hidden_activations[n]);
                    assert!(
                        node == (x.hidden_biases[n], x.hidden_activations[n])
                            || node == (y.hidden_biases[n], y.hidden_activations[n])
                    );
                }
                for n in 0..OUTPUT_NODES {
                    let node = (child.final_biases[n], child.final_activations[n]);
                    assert!(
                        node == (x.final_biases[n], x.final_activations[n])
                            || node == (y.final_biases[n], y.final_activations[n])
                    );
                }
            }
        }
    }
}

#[test]
fn pair_up_pairs_consecutive_positions() {
    assert_eq!(pair_up(&vec![3, 0, 2, 1]), vec![(3, 0), (2, 1)]);
    assert_eq!(pair_up(&vec![5, 7, 6, 4, 1, 2, 0, 3]), vec![(5, 7), (6, 4), (1, 2), (0, 3)]);
    assert!(pair_up(&Vec::new()).is_empty());
}
