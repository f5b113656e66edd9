use neat_gru::fixed::SCALE;
use neat_gru::genome::Genome;
use neat_gru::innovation::EvNumber;
use neat_gru::rng::Rng;
use neat_gru::species::Species;
use neat_gru::train::Train;

fn scored_genome(ev: &mut EvNumber, rng: &mut Rng, fitness: i64) -> Genome {
    let mut g = Genome::random_genome(2, 1, 2, ev, rng);
    g.last_fitness = fitness;
    g
}

#[test]
fn improving_species_never_stagnates() {
    let mut ev = EvNumber::new();
    let mut rng = Rng::new(21);
    let g = scored_genome(&mut ev, &mut rng, 0);
    let mut sp = Species::new(g, 4);
    // every generation the best fitness strictly improves
    for gen in 1..6i64 {
        for m in sp.topologies.iter_mut() {
            m.last_fitness = gen * 100;
        }
        sp.natural_selection(&mut ev, &mut rng, i64::MIN);
        assert_eq!(sp.stagnation_counter, 0);
        assert_eq!(sp.best_fitness, gen * 100);
    }
}

#[test]
fn unimproved_species_counts_stagnation() {
    let mut ev = EvNumber::new();
    let mut rng = Rng::new(22);
    let g = scored_genome(&mut ev, &mut rng, 500);
    let mut sp = Species::new(g, 4);
    // fitness never beats the recorded 500 again
    for gen in 1..4u32 {
        for m in sp.topologies.iter_mut() {
            m.last_fitness = 500;
        }
        sp.natural_selection(&mut ev, &mut rng, i64::MIN);
        assert_eq!(sp.stagnation_counter, gen);
    }
}

#[test]
fn stagnant_species_are_extinguished() {
    let mut ev = EvNumber::new();
    let mut rng = Rng::new(23);
    let mut alive = Species::new(scored_genome(&mut ev, &mut rng, 10), 2);
    alive.push(scored_genome(&mut ev, &mut rng, 20));
    let mut stale = Species::new(scored_genome(&mut ev, &mut rng, 5), 2);
    stale.stagnation_counter = 20;
    let mut t = Train::new().inputs(2).outputs(1);
    t.species_ = vec![alive, stale];
    t.reset_species();
    let members: usize = t.species_.iter().map(|s| s.topologies.len()).sum();
    assert_eq!(members, 2);
    assert!(t.species_.iter().all(|s| s.stagnation_counter < 20));
}

#[test]
fn respeciation_keeps_every_survivor_exactly_once() {
    let mut ev = EvNumber::new();
    let mut rng = Rng::new(24);
    let fits = [10, 20, 30, 40, 50];
    let mut sp1 = Species::new(scored_genome(&mut ev, &mut rng, fits[0]), 3);
    sp1.push(scored_genome(&mut ev, &mut rng, fits[1]));
    sp1.push(scored_genome(&mut ev, &mut rng, fits[2]));
    let mut sp2 = Species::new(scored_genome(&mut ev, &mut rng, fits[3]), 2);
    sp2.push(scored_genome(&mut ev, &mut rng, fits[4]));
    let mut t = Train::new().inputs(2).outputs(1);
    t.species_ = vec![sp1, sp2];
    t.reset_species();
    let mut seen: Vec<i64> = t
        .species_
        .iter()
        .flat_map(|s| s.topologies.iter().map(|g| g.last_fitness))
        .collect();
    seen.sort();
    assert_eq!(seen, vec![10, 20, 30, 40, 50]);
    assert!(t.species_.iter().all(|s| !s.topologies.is_empty()));
}

#[test]
fn selection_refills_the_population() {
    let mut ev = EvNumber::new();
    let mut rng = Rng::new(25);
    let mut sp = Species::new(scored_genome(&mut ev, &mut rng, 100), 6);
    sp.push(scored_genome(&mut ev, &mut rng, 1));
    sp.natural_selection(&mut ev, &mut rng, 10 * SCALE);
    assert_eq!(sp.topologies.len(), 6);
    // the best member survived the cutoff
    assert!(sp.topologies.iter().any(|g| g.last_fitness == 100));
    assert_eq!(sp.best_fitness, 100);
}

#[test]
fn start_rejects_missing_configuration() {
    struct Idle;
    impl neat_gru::train::Game for Idle {
        fn run_generation(&mut self) -> Vec<i64> {
            Vec::new()
        }
        fn reset_players(&mut self, _networks: Vec<neat_gru::network::NeuralNetwork>) {}
        fn post_training(&mut self, _history: &Vec<Genome>) {}
    }
    let mut sim = Idle;
    let mut t = Train::new();
    assert_eq!(t.start(&mut sim), Err(neat_gru::error::NeatError::Configuration));
    let mut t = Train::new().inputs(2);
    assert_eq!(t.start(&mut sim), Err(neat_gru::error::NeatError::Configuration));
    let mut t = Train::new().inputs(2).outputs(0);
    assert_eq!(t.start(&mut sim), Err(neat_gru::error::NeatError::Configuration));
    let mut t = Train::new().inputs(2).outputs(1).iterations(1).max_individuals(4).max_species(2);
    assert_eq!(t.start(&mut sim), Ok(()));
}
