use neat_gru::fixed::SCALE;
use neat_gru::genome::{ConnKind, Gene, Genome, Point};
use neat_gru::innovation::EvNumber;
use neat_gru::rng::Rng;

fn gene(w: i64, id: u64) -> Gene {
    Gene {
        from: Point { layer: 0, index: 0 },
        to: Point { layer: 1, index: 0 },
        kind: ConnKind::Plain,
        input_weight: w,
        memory_weight: 0,
        reset_input_weight: 0,
        update_input_weight: 0,
        reset_memory_weight: 0,
        update_memory_weight: 0,
        innovation: id,
        enabled: true,
    }
}

fn genome_with(genes: Vec<Gene>) -> Genome {
    Genome {
        layer_sizes: vec![1, 1],
        biases: vec![0, 0],
        output_biases: vec![0],
        genes,
        last_fitness: 0,
    }
}

#[test]
fn delta_of_a_genome_with_itself_is_zero() {
    let g = genome_with(vec![gene(SCALE, 1), gene(-SCALE / 2, 4), gene(300, 9)]);
    assert_eq!(Genome::delta_compatibility(&g, &g, SCALE, SCALE, SCALE), 0);
    let empty = genome_with(vec![]);
    assert_eq!(Genome::delta_compatibility(&empty, &empty, SCALE, SCALE, SCALE), 0);
}

#[test]
fn delta_is_symmetric() {
    let a = genome_with(vec![gene(SCALE, 1), gene(SCALE, 2), gene(200, 7)]);
    let b = genome_with(vec![gene(SCALE / 2, 1), gene(-SCALE, 3)]);
    let d1 = Genome::delta_compatibility(&a, &b, 52429, 52429, 19661);
    let d2 = Genome::delta_compatibility(&b, &a, 52429, 52429, 19661);
    assert_eq!(d1, d2);
    assert!(d1 > 0);
}

#[test]
fn delta_exact_value() {
    // ids 1 and 2 against ids 1 and 3: one match with weight gap 0.5,
    // one disjoint (2 lies inside the other's id range), one excess (3
    // lies beyond), normalized by the larger gene count 2.
    let a = genome_with(vec![gene(SCALE, 1), gene(SCALE, 2)]);
    let b = genome_with(vec![gene(SCALE / 2, 1), gene(SCALE, 3)]);
    // (1.0 * 1 + 1.0 * 1) / 2 + 1.0 * 0.5  ==  1.5
    assert_eq!(Genome::delta_compatibility(&a, &b, SCALE, SCALE, SCALE), SCALE + SCALE / 2);
}

#[test]
fn one_sided_genes_outside_the_other_range_are_excess() {
    // ids 2 against 1: each gene lies outside the other genome's id range,
    // so both count as excess: (1.0 * 2 + 0) / 1 + 0 == 2.0
    let a = genome_with(vec![gene(SCALE, 2)]);
    let b = genome_with(vec![gene(0, 1)]);
    assert_eq!(Genome::delta_compatibility(&a, &b, SCALE, SCALE, SCALE), 2 * SCALE);
    assert_eq!(Genome::delta_compatibility(&b, &a, SCALE, SCALE, SCALE), 2 * SCALE);
}

#[test]
fn crossover_of_identical_structures_keeps_the_gene_set() {
    let mut rng = Rng::new(11);
    let a = genome_with(vec![gene(SCALE, 1), gene(SCALE / 4, 5), gene(-SCALE, 9)]);
    let mut b = genome_with(vec![gene(-SCALE / 2, 1), gene(SCALE, 5), gene(SCALE, 9)]);
    // equal fitness: random weight mixing, but the id set may not change
    for _ in 0..10 {
        let child = Genome::crossover(&a, &b, &mut rng);
        let ids: Vec<u64> = child.genes.iter().map(|g| g.innovation).collect();
        assert_eq!(ids, vec![1, 5, 9]);
    }
    // a strictly fitter parent passes its genome on unchanged
    b.last_fitness = 1000;
    let child = Genome::crossover(&a, &b, &mut rng);
    let weights: Vec<i64> = child.genes.iter().map(|g| g.input_weight).collect();
    assert_eq!(weights, vec![-SCALE / 2, SCALE, SCALE]);
}

#[test]
fn perturbation_keeps_the_structure() {
    let mut rng = Rng::new(3);
    let mut ev = EvNumber::new();
    let mut g = Genome::random_genome(3, 2, 2, &mut ev, &mut rng);
    let ids: Vec<u64> = g.genes.iter().map(|x| x.innovation).collect();
    let enabled: Vec<bool> = g.genes.iter().map(|x| x.enabled).collect();
    g.perturb_weights(&mut rng, SCALE / 2);
    assert_eq!(ids, g.genes.iter().map(|x| x.innovation).collect::<Vec<u64>>());
    assert_eq!(enabled, g.genes.iter().map(|x| x.enabled).collect::<Vec<bool>>());
}

#[test]
fn add_neuron_splits_an_enabled_spanning_gene() {
    let mut rng = Rng::new(5);
    let mut ev = EvNumber::new();
    // one gene spanning two layers: input straight to output of a 3-layer net
    let mut g = Genome {
        layer_sizes: vec![1, 1, 1],
        biases: vec![0, 0, 0],
        output_biases: vec![0],
        genes: vec![Gene {
            from: Point { layer: 0, index: 0 },
            to: Point { layer: 2, index: 0 },
            kind: ConnKind::Plain,
            input_weight: SCALE,
            memory_weight: 0,
            reset_input_weight: 0,
            update_input_weight: 0,
            reset_memory_weight: 0,
            update_memory_weight: 0,
            innovation: 40,
            enabled: true,
        }],
        last_fitness: 0,
    };
    let changed = g.mutate_add_neuron(&mut ev, &mut rng, 8);
    assert!(changed);
    assert_eq!(g.genes.len(), 3);
    assert_eq!(g.layer_sizes, vec![1, 2, 1]);
    // the split gene is disabled but retained
    assert!(!g.genes.iter().find(|x| x.innovation == 40).unwrap().enabled);
    assert_eq!(g.genes.iter().filter(|x| x.enabled).count(), 2);
}

#[test]
fn registry_aligns_identical_mutations_within_a_generation() {
    let mut ev = EvNumber::new();
    let from = Point { layer: 0, index: 0 };
    let to = Point { layer: 1, index: 2 };
    let id1 = ev.connection_id(from, to, false);
    let id2 = ev.connection_id(from, to, false);
    assert_eq!(id1, id2);
    let other = ev.connection_id(from, to, true);
    assert_ne!(id1, other);
    let (s1, s2) = ev.split_ids(id1);
    let (t1, t2) = ev.split_ids(id1);
    assert_eq!((s1, s2), (t1, t2));
    assert_ne!(s1, s2);
    // a reset forgets the generation's records but never reuses old numbers
    ev.reset();
    let id3 = ev.connection_id(from, to, false);
    assert_ne!(id1, id3);
}

#[test]
fn random_genomes_share_initial_innovation_ids() {
    let mut ev = EvNumber::new();
    let mut rng = Rng::new(9);
    let a = Genome::random_genome(2, 1, 2, &mut ev, &mut rng);
    let b = Genome::random_genome(2, 1, 2, &mut ev, &mut rng);
    let ids_a: Vec<u64> = a.genes.iter().map(|g| g.innovation).collect();
    let ids_b: Vec<u64> = b.genes.iter().map(|g| g.innovation).collect();
    assert_eq!(ids_a, ids_b);
}
