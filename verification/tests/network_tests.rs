use neat_gru::error::NeatError;
use neat_gru::fixed::SCALE;
use neat_gru::genome::{ConnKind, Gene, Genome, Point};
use neat_gru::network::NeuralNetwork;

fn plain_gene(from: Point, to: Point, w: i64, id: u64) -> Gene {
    Gene {
        from,
        to,
        kind: ConnKind::Plain,
        input_weight: w,
        memory_weight: 0,
        reset_input_weight: 0,
        update_input_weight: 0,
        reset_memory_weight: 0,
        update_memory_weight: 0,
        innovation: id,
        enabled: true,
    }
}

fn gated_gene(from: Point, to: Point, w: i64, id: u64) -> Gene {
    Gene {
        from,
        to,
        kind: ConnKind::Gated,
        input_weight: w,
        memory_weight: w,
        reset_input_weight: w,
        update_input_weight: w,
        reset_memory_weight: w,
        update_memory_weight: w,
        innovation: id,
        enabled: true,
    }
}

fn one_edge_genome(w: i64, out_bias: i64) -> Genome {
    Genome {
        layer_sizes: vec![1, 1],
        biases: vec![0, 0],
        output_biases: vec![out_bias],
        genes: vec![plain_gene(
            Point { layer: 0, index: 0 },
            Point { layer: 1, index: 0 },
            w,
            1,
        )],
        last_fitness: 0,
    }
}

#[test]
fn sigmoid_values_through_network() {
    let g = one_edge_genome(SCALE, 0);
    let mut net = NeuralNetwork::new(&g);
    // raw input 0.25 through weight 1.0: the central slope is 1
    let out = net.compute(&vec![SCALE / 4]).unwrap();
    assert_eq!(out, vec![3 * SCALE / 4]);
    // zero input: the activation at 0 is 0.5
    let out = net.compute(&vec![0]).unwrap();
    assert_eq!(out, vec![32768]);
    // the gentle tails of the activation
    let out = net.compute(&vec![SCALE]).unwrap();
    assert_eq!(out, vec![57984]);
    let out = net.compute(&vec![-SCALE]).unwrap();
    assert_eq!(out, vec![7552]);
}

#[test]
fn disabled_genes_are_invisible() {
    let mut g = one_edge_genome(SCALE, 0);
    g.genes[0].enabled = false;
    let mut net = NeuralNetwork::new(&g);
    // no edge: the output is the activation of the output bias alone
    let out = net.compute(&vec![2 * SCALE]).unwrap();
    assert_eq!(out, vec![32768]);
}

#[test]
fn compute_is_deterministic() {
    let g = Genome {
        layer_sizes: vec![2, 2, 1],
        biases: vec![0, 0, 1000, -1000, 0],
        output_biases: vec![500],
        genes: vec![
            plain_gene(Point { layer: 0, index: 0 }, Point { layer: 1, index: 0 }, SCALE, 1),
            plain_gene(Point { layer: 0, index: 1 }, Point { layer: 1, index: 1 }, -SCALE, 2),
            gated_gene(Point { layer: 1, index: 0 }, Point { layer: 2, index: 0 }, SCALE / 2, 3),
            plain_gene(Point { layer: 1, index: 1 }, Point { layer: 2, index: 0 }, SCALE, 4),
        ],
        last_fitness: 0,
    };
    let mut n1 = NeuralNetwork::new(&g);
    let mut n2 = NeuralNetwork::new(&g);
    let inputs = vec![SCALE / 3, -SCALE / 7];
    for _ in 0..5 {
        let o1 = n1.compute(&inputs).unwrap();
        let o2 = n2.compute(&inputs).unwrap();
        assert_eq!(o1, o2);
    }
}

#[test]
fn reset_state_restores_fresh_behaviour() {
    let g = Genome {
        layer_sizes: vec![1, 1],
        biases: vec![0, 0],
        output_biases: vec![0],
        genes: vec![gated_gene(
            Point { layer: 0, index: 0 },
            Point { layer: 1, index: 0 },
            SCALE,
            1,
        )],
        last_fitness: 0,
    };
    let mut worked = NeuralNetwork::new(&g);
    // a non-trivial episode leaves recurrent memory behind
    for _ in 0..3 {
        worked.compute(&vec![SCALE]).unwrap();
    }
    assert!(worked.memories.iter().any(|m| *m != 0));
    worked.reset_state();
    let mut fresh = NeuralNetwork::new(&g);
    let zeros = vec![0];
    assert_eq!(worked.compute(&zeros).unwrap(), fresh.compute(&zeros).unwrap());
}

#[test]
fn reset_state_touches_memories_only() {
    let g = one_edge_genome(SCALE, 77);
    let mut net = NeuralNetwork::new(&g);
    net.compute(&vec![SCALE]).unwrap();
    let edges_before = net.edges.clone();
    let biases_before = net.biases.clone();
    net.reset_state();
    assert_eq!(net.edges, edges_before);
    assert_eq!(net.biases, biases_before);
    assert!(net.memories.iter().all(|m| *m == 0));
}

#[test]
fn structural_equality_of_networks() {
    let g = one_edge_genome(SCALE, 77);
    let mut n1 = NeuralNetwork::new(&g);
    let n2 = NeuralNetwork::new(&g);
    assert!(n1.eq_net(&n2));
    // an episode leaves the structure equal but distinguishes nothing here
    // (the only edge is plain, so memories stay zero)
    n1.compute(&vec![SCALE]).unwrap();
    assert!(n1.eq_net(&n2));
    let other = one_edge_genome(SCALE / 2, 77);
    let n3 = NeuralNetwork::new(&other);
    assert!(!n1.eq_net(&n3));
}

#[test]
fn oversized_input_is_a_configuration_error() {
    let g = Genome {
        layer_sizes: vec![2, 1],
        biases: vec![0, 0, 0],
        output_biases: vec![0],
        genes: vec![plain_gene(
            Point { layer: 0, index: 0 },
            Point { layer: 1, index: 0 },
            SCALE,
            1,
        )],
        last_fitness: 0,
    };
    let mut net = NeuralNetwork::new(&g);
    let r = net.compute(&vec![1, 2, 3]);
    assert_eq!(r, Err(NeatError::Configuration));
    // shorter inputs are fine: missing slots read as zero
    assert!(net.compute(&vec![1]).is_ok());
}
