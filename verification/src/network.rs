//! Executable networks, built once per generation from a genome.
//!
//! A network is a flat arena of neuron slots in layer order plus the resolved
//! list of enabled edges, grouped by source slot. Evaluation is specified as
//! a fold over that edge list: it is a mathematical function of the network's
//! structure, its gated memories and the input vector, which makes
//! determinism a theorem rather than a promise.

use vstd::prelude::*;
use crate::error::NeatError;
use crate::fixed::{spec_add, spec_mul, spec_sig, SCALE};
use crate::fixed::{fx_add, fx_mul, fx_sig};
use crate::genome::{
    gene_ok, set_elem, slot_of, spec_offset, spec_slot, spec_total, total_neurons, ConnKind, Gene,
    Genome, TOTAL_CAP,
};

verus! {

/// One resolved edge: flat source and destination slots plus the weights.
#[derive(Clone, Copy, PartialEq, Eq, Structural, Debug)]
pub struct Edge {
    pub from: usize,
    pub to: usize,
    pub gated: bool,
    pub w_in: i64,
    pub w_mem: i64,
    pub w_ri: i64,
    pub w_ui: i64,
    pub w_rm: i64,
    pub w_um: i64,
}

pub struct NeuralNetwork {
    pub input_size: usize,
    pub output_size: usize,
    pub n_neurons: usize,
    /// Resolved bias per slot; output slots carry the genome's output biases.
    pub biases: Vec<i64>,
    /// Enabled edges, grouped by source slot in increasing slot order.
    pub edges: Vec<Edge>,
    /// One recurrent memory per edge (always zero for plain edges).
    pub memories: Vec<i64>,
}

pub open spec fn lift(s: Seq<i64>) -> Seq<int> {
    s.map_values(|x: i64| x as int)
}

impl NeuralNetwork {
    pub open spec fn wf(self) -> bool {
        &&& self.biases@.len() == self.n_neurons
        &&& self.memories@.len() == self.edges@.len()
        &&& self.input_size + self.output_size <= self.n_neurons
        &&& self.n_neurons <= TOTAL_CAP
        &&& forall|e: int|
            0 <= e < self.edges@.len() ==> (#[trigger] self.edges@[e]).from < self.n_neurons
                && self.edges@[e].to < self.n_neurons
    }
}

/// Accumulators before any edge fires: the inputs, raw, then zeros.
pub open spec fn spec_init_accs(n: int, inputs: Seq<i64>) -> Seq<int> {
    Seq::new(
        n as nat,
        |i: int|
            if i < inputs.len() {
                inputs[i] as int
            } else {
                0
            },
    )
}

/// The value a slot feeds into its outgoing edges: input slots pass their
/// accumulator through raw, every other slot applies the activation to
/// accumulator plus bias.
pub open spec fn spec_src_val(input_size: int, biases: Seq<i64>, accs: Seq<int>, from: int) -> int {
    if from < input_size {
        accs[from]
    } else {
        spec_sig(spec_add(accs[from], biases[from] as int))
    }
}

/// The next memory of a gated edge: reset and update gates from the source
/// value and the previous memory, then a convex blend of the candidate and
/// the previous memory under the update gate.
pub open spec fn spec_new_mem(e: Edge, v: int, mem: int) -> int {
    let r = spec_sig(spec_add(spec_mul(v, e.w_ri as int), spec_mul(mem, e.w_rm as int)));
    let u = spec_sig(spec_add(spec_mul(v, e.w_ui as int), spec_mul(mem, e.w_um as int)));
    let cand = spec_sig(
        spec_add(spec_mul(v, e.w_in as int), spec_mul(spec_mul(r, mem), e.w_mem as int)),
    );
    spec_add(spec_mul(u, cand), spec_mul(SCALE as int - u, mem))
}

/// What one edge adds to its destination accumulator: the weighted source
/// value for a plain edge, the fresh memory for a gated edge.
pub open spec fn spec_step_acc(e: Edge, v: int, acc_to: int, mem: int) -> int {
    if e.gated {
        spec_add(acc_to, spec_new_mem(e, v, mem))
    } else {
        spec_add(acc_to, spec_mul(e.w_in as int, v))
    }
}

/// Accumulators and memories after the first `k` edges have fired, in order.
pub open spec fn spec_run(
    edges: Seq<Edge>,
    input_size: int,
    biases: Seq<i64>,
    accs0: Seq<int>,
    mems0: Seq<int>,
    k: nat,
) -> (Seq<int>, Seq<int>)
    decreases k,
{
    if k == 0 {
        (accs0, mems0)
    } else {
        let prev = spec_run(edges, input_size, biases, accs0, mems0, (k - 1) as nat);
        let e = edges[k - 1];
        let v = spec_src_val(input_size, biases, prev.0, e.from as int);
        let na = spec_step_acc(e, v, prev.0[e.to as int], prev.1[k - 1]);
        let nm = if e.gated {
            spec_new_mem(e, v, prev.1[k - 1])
        } else {
            prev.1[k - 1]
        };
        (prev.0.update(e.to as int, na), prev.1.update(k - 1, nm))
    }
}

/// The full evaluation, over the network's plain components: the output
/// vector and the memories left behind.
pub open spec fn spec_eval(
    input_size: int,
    output_size: int,
    n: int,
    biases: Seq<i64>,
    edges: Seq<Edge>,
    mems: Seq<int>,
    inputs: Seq<i64>,
) -> (Seq<i64>, Seq<int>) {
    let fin = spec_run(edges, input_size, biases, spec_init_accs(n, inputs), mems, edges.len());
    (
        Seq::new(
            output_size as nat,
            |i: int| spec_sig(spec_add(fin.0[n - output_size + i], biases[n - output_size + i] as int)) as i64,
        ),
        fin.1,
    )
}

/// The outputs `compute` returns for this network on these inputs.
pub open spec fn spec_outputs(net: NeuralNetwork, inputs: Seq<i64>) -> Seq<i64> {
    spec_eval(
        net.input_size as int,
        net.output_size as int,
        net.n_neurons as int,
        net.biases@,
        net.edges@,
        lift(net.memories@),
        inputs,
    ).0
}

/// The memories `compute` leaves behind.
pub open spec fn spec_mems_after(net: NeuralNetwork, inputs: Seq<i64>) -> Seq<int> {
    spec_eval(
        net.input_size as int,
        net.output_size as int,
        net.n_neurons as int,
        net.biases@,
        net.edges@,
        lift(net.memories@),
        inputs,
    ).1
}

/// The resolved edge of an enabled gene.
pub open spec fn spec_resolve(sizes: Seq<usize>, g: Gene) -> Edge {
    Edge {
        from: spec_slot(sizes, g.from) as usize,
        to: spec_slot(sizes, g.to) as usize,
        gated: g.kind is Gated,
        w_in: g.input_weight,
        w_mem: g.memory_weight,
        w_ri: g.reset_input_weight,
        w_ui: g.update_input_weight,
        w_rm: g.reset_memory_weight,
        w_um: g.update_memory_weight,
    }
}

/// The edges of source slot `s` among the first `k` genes, in gene order.
pub open spec fn spec_row(genes: Seq<Gene>, sizes: Seq<usize>, s: int, k: int) -> Seq<Edge>
    decreases k,
{
    if k <= 0 {
        Seq::empty()
    } else {
        spec_row(genes, sizes, s, k - 1) + if genes[k - 1].enabled && spec_slot(
            sizes,
            genes[k - 1].from,
        ) == s {
            seq![spec_resolve(sizes, genes[k - 1])]
        } else {
            Seq::empty()
        }
    }
}

/// All edges of the first `s` source slots, grouped by slot.
pub open spec fn spec_rows(genes: Seq<Gene>, sizes: Seq<usize>, s: int) -> Seq<Edge>
    decreases s,
{
    if s <= 0 {
        Seq::empty()
    } else {
        spec_rows(genes, sizes, s - 1) + spec_row(genes, sizes, s - 1, genes.len() as int)
    }
}

/// The edge list a build of this genome produces.
pub open spec fn spec_net_edges(g: Genome) -> Seq<Edge> {
    spec_rows(g.genes@, g.layer_sizes@, spec_total(g.layer_sizes@))
}

/// The resolved per-slot biases: the genome's own biases, with the output
/// layer's slots overridden by the output bias vector.
pub open spec fn spec_net_biases(g: Genome) -> Seq<i64> {
    let n = spec_total(g.layer_sizes@);
    let out = g.output_count();
    Seq::new(
        n as nat,
        |s: int|
            if s >= n - out {
                g.output_biases@[s - (n - out)]
            } else {
                g.biases@[s]
            },
    )
}

impl NeuralNetwork {
    /// Builds the executable network of a genome: one slot per declared
    /// neuron, resolved biases, and one edge per enabled gene, grouped by
    /// source slot; every gated memory starts at zero. Disabled genes are
    /// invisible.
    #[verifier::loop_isolation(false)]
    pub fn new(topology: &Genome) -> (r: NeuralNetwork)
        requires
            topology.wf(),
        ensures
            r.wf(),
            r.input_size as int == topology.input_count(),
            r.output_size as int == topology.output_count(),
            r.n_neurons as int == spec_total(topology.layer_sizes@),
            r.biases@ == spec_net_biases(*topology),
            r.edges@ == spec_net_edges(*topology),
            r.memories@.len() == r.edges@.len(),
            forall|j: int| 0 <= j < r.memories@.len() ==> #[trigger] r.memories@[j] == 0i64,
    {
        let sizes = &topology.layer_sizes;
        let nl = sizes.len();
        let n = total_neurons(sizes);
        let in_size = sizes[0];
        let out_size = sizes[nl - 1];
        proof {
            crate::genome::lemma_slot_bounds(
                sizes@,
                crate::genome::Point { layer: (nl - 1) as usize, index: (out_size - 1) as usize },
            );
            crate::genome::lemma_slot_bounds(
                sizes@,
                crate::genome::Point { layer: 0, index: (in_size - 1) as usize },
            );
            crate::genome::lemma_offset_nonneg(sizes@, nl as int - 1);
            assert(spec_total(sizes@) == crate::genome::spec_offset(sizes@, nl as int - 1)
                + sizes@[nl as int - 1]);
        }
        let base = n - out_size;
        let mut biases: Vec<i64> = Vec::new();
        for s in 0..n
            invariant
                n as int == spec_total(sizes@),
                base == n - out_size,
                out_size as int == topology.output_count(),
                topology.wf(),
                nl == sizes@.len(),
                biases@.len() == s,
                forall|j: int| 0 <= j < s ==> #[trigger] biases@[j] == spec_net_biases(*topology)[j],
        {
            if s >= base {
                biases.push(topology.output_biases[s - base]);
            } else {
                biases.push(topology.biases[s]);
            }
        }
        assert(biases@ =~= spec_net_biases(*topology));
        let m = topology.genes.len();
        let mut edges: Vec<Edge> = Vec::new();
        for s in 0..n
            invariant
                n as int == spec_total(sizes@),
                topology.wf(),
                nl == sizes@.len(),
                m == topology.genes@.len(),
                edges@ == spec_rows(topology.genes@, sizes@, s as int),
                forall|e: int|
                    0 <= e < edges@.len() ==> (#[trigger] edges@[e]).from < n && edges@[e].to < n,
        {
            let ghost row_base = edges@;
            for k in 0..m
                invariant
                    n as int == spec_total(sizes@),
                    topology.wf(),
                    nl == sizes@.len(),
                    m == topology.genes@.len(),
                    s < n,
                    edges@ == row_base + spec_row(topology.genes@, sizes@, s as int, k as int),
                    row_base == spec_rows(topology.genes@, sizes@, s as int),
                    forall|e: int|
                        0 <= e < edges@.len() ==> (#[trigger] edges@[e]).from < n && edges@[e].to
                            < n,
            {
                let g = topology.genes[k];
                proof {
                    assert(gene_ok(sizes@, topology.genes@[k as int]));
                    assert(spec_row(topology.genes@, sizes@, s as int, k as int + 1)
                        == spec_row(topology.genes@, sizes@, s as int, k as int) + if topology.genes@[k as int].enabled
                        && spec_slot(sizes@, topology.genes@[k as int].from) == s as int {
                        seq![spec_resolve(sizes@, topology.genes@[k as int])]
                    } else {
                        Seq::<Edge>::empty()
                    });
                }
                if g.enabled {
                    let fs = slot_of(sizes, g.from);
                    if fs == s {
                        let ts = slot_of(sizes, g.to);
                        let edge = Edge {
                            from: fs,
                            to: ts,
                            gated: matches!(g.kind, ConnKind::Gated),
                            w_in: g.input_weight,
                            w_mem: g.memory_weight,
                            w_ri: g.reset_input_weight,
                            w_ui: g.update_input_weight,
                            w_rm: g.reset_memory_weight,
                            w_um: g.update_memory_weight,
                        };
                        edges.push(edge);
                        assert(edge == spec_resolve(sizes@, topology.genes@[k as int]));
                        assert(edges@ =~= row_base + spec_row(
                            topology.genes@,
                            sizes@,
                            s as int,
                            k as int + 1,
                        ));
                    } else {
                        assert(edges@ =~= row_base + spec_row(
                            topology.genes@,
                            sizes@,
                            s as int,
                            k as int + 1,
                        ));
                    }
                } else {
                    assert(edges@ =~= row_base + spec_row(
                        topology.genes@,
                        sizes@,
                        s as int,
                        k as int + 1,
                    ));
                }
            }
        }
        let ne = edges.len();
        let mut mems: Vec<i64> = Vec::new();
        for j in 0..ne
            invariant
                mems@.len() == j,
                forall|t: int| 0 <= t < j ==> #[trigger] mems@[t] == 0i64,
        {
            mems.push(0);
        }
        proof {
            assert(spec_offset(sizes@, 1) == sizes@[0] + spec_offset(sizes@, 0));
            crate::genome::lemma_offset_mono(sizes@, 1, nl as int - 1);
        }
        NeuralNetwork {
            input_size: in_size,
            output_size: out_size,
            n_neurons: n,
            biases,
            edges,
            memories: mems,
        }
    }

    /// Feeds an input vector forward. Inputs are copied raw into the input
    /// slots (missing ones read as zero); slots fire in increasing address
    /// order; the activated output slots are returned in address order. An
    /// input vector longer than the input layer is a configuration error and
    /// the network is left untouched.
    #[verifier::loop_isolation(false)]
    #[verifier::rlimit(80)]
    pub fn compute(&mut self, inputs: &Vec<i64>) -> (r: Result<Vec<i64>, NeatError>)
        requires
            old(self).wf(),
        ensures
            final(self).wf(),
            final(self).input_size == old(self).input_size,
            final(self).output_size == old(self).output_size,
            final(self).n_neurons == old(self).n_neurons,
            final(self).biases@ == old(self).biases@,
            final(self).edges@ == old(self).edges@,
            inputs@.len() > old(self).input_size ==> r == Result::<Vec<i64>, NeatError>::Err(
                NeatError::Configuration,
            ) && final(self).memories@ == old(self).memories@,
            inputs@.len() <= old(self).input_size ==> match r {
                Ok(out) => out@ == spec_outputs(*old(self), inputs@) && lift(final(self).memories@)
                    == spec_mems_after(*old(self), inputs@),
                Err(_) => false,
            },
    {
        if inputs.len() > self.input_size {
            return Err(NeatError::Configuration);
        }
        let n = self.n_neurons;
        let mut accs: Vec<i64> = Vec::new();
        for s in 0..n
            invariant
                accs@.len() == s,
                n == self.n_neurons,
                inputs@.len() <= self.input_size <= n,
                forall|j: int|
                    0 <= j < s ==> #[trigger] accs@[j] == if j < inputs@.len() {
                        inputs@[j]
                    } else {
                        0i64
                    },
        {
            if s < inputs.len() {
                accs.push(inputs[s]);
            } else {
                accs.push(0);
            }
        }
        let ghost accs0 = spec_init_accs(n as int, inputs@);
        let ghost mems0 = lift(self.memories@);
        assert(lift(accs@) =~= accs0);
        let ne = self.edges.len();
        for e in 0..ne
            invariant
                self.wf(),
                n == self.n_neurons,
                ne == self.edges@.len(),
                accs@.len() == n,
                self.input_size == old(self).input_size,
                self.output_size == old(self).output_size,
                self.n_neurons == old(self).n_neurons,
                self.biases@ == old(self).biases@,
                self.edges@ == old(self).edges@,
                lift(accs@) == spec_run(
                    self.edges@,
                    self.input_size as int,
                    self.biases@,
                    accs0,
                    mems0,
                    e as nat,
                ).0,
                lift(self.memories@) == spec_run(
                    self.edges@,
                    self.input_size as int,
                    self.biases@,
                    accs0,
                    mems0,
                    e as nat,
                ).1,
        {
            let ed = self.edges[e];
            let ghost prev_accs = lift(accs@);
            let ghost prev_mems = lift(self.memories@);
            let av = accs[ed.from];
            let v = if ed.from < self.input_size {
                av
            } else {
                fx_sig(fx_add(av, self.biases[ed.from]))
            };
            assert(v as int == spec_src_val(
                self.input_size as int,
                self.biases@,
                prev_accs,
                ed.from as int,
            ));
            if ed.gated {
                let mem = self.memories[e];
                let rr = fx_sig(fx_add(fx_mul(v, ed.w_ri), fx_mul(mem, ed.w_rm)));
                let uu = fx_sig(fx_add(fx_mul(v, ed.w_ui), fx_mul(mem, ed.w_um)));
                let cand = fx_sig(fx_add(fx_mul(v, ed.w_in), fx_mul(fx_mul(rr, mem), ed.w_mem)));
                let nm = fx_add(fx_mul(uu, cand), fx_mul(SCALE - uu, mem));
                assert(nm as int == spec_new_mem(ed, v as int, mem as int));
                set_elem(&mut self.memories, e, nm);
                let na = fx_add(accs[ed.to], nm);
                set_elem(&mut accs, ed.to, na);
                assert(lift(accs@) =~= prev_accs.update(ed.to as int, na as int));
                assert(lift(self.memories@) =~= prev_mems.update(e as int, nm as int));
            } else {
                let na = fx_add(accs[ed.to], fx_mul(ed.w_in, v));
                set_elem(&mut accs, ed.to, na);
                assert(lift(accs@) =~= prev_accs.update(ed.to as int, na as int));
            }
        }
        let base = n - self.output_size;
        let ghost fin = spec_run(
            self.edges@,
            self.input_size as int,
            self.biases@,
            accs0,
            mems0,
            self.edges@.len() as nat,
        );
        let no = self.output_size;
        let mut out: Vec<i64> = Vec::new();
        for i in 0..no
            invariant
                self.wf(),
                no == self.output_size,
                n == self.n_neurons,
                base == n - no,
                accs@.len() == n,
                lift(accs@) == fin.0,
                self.biases@ == old(self).biases@,
                out@.len() == i,
                forall|j: int|
                    0 <= j < i ==> #[trigger] out@[j] as int == spec_sig(
                        spec_add(fin.0[base + j], old(self).biases@[base + j] as int),
                    ),
        {
            out.push(fx_sig(fx_add(accs[base + i], self.biases[base + i])));
        }
        assert(out@ =~= spec_outputs(*old(self), inputs@));
        Ok(out)
    }

    /// Clears every gated edge's recurrent memory; structure, weights and
    /// biases are untouched. After a reset the network evaluates exactly as
    /// a freshly built one.
    #[verifier::loop_isolation(false)]
    pub fn reset_state(&mut self)
        ensures
            final(self).input_size == old(self).input_size,
            final(self).output_size == old(self).output_size,
            final(self).n_neurons == old(self).n_neurons,
            final(self).biases@ == old(self).biases@,
            final(self).edges@ == old(self).edges@,
            final(self).memories@.len() == old(self).memories@.len(),
            forall|j: int|
                0 <= j < final(self).memories@.len() ==> #[trigger] final(self).memories@[j]
                    == 0i64,
            old(self).wf() ==> final(self).wf(),
    {
        let ne = self.memories.len();
        for j in 0..ne
            invariant
                ne == self.memories@.len(),
                self.input_size == old(self).input_size,
                self.output_size == old(self).output_size,
                self.n_neurons == old(self).n_neurons,
                self.biases@ == old(self).biases@,
                self.edges@ == old(self).edges@,
                forall|t: int| 0 <= t < j ==> #[trigger] self.memories@[t] == 0i64,
        {
            set_elem(&mut self.memories, j, 0);
        }
    }
}

/// Element-wise equality of two value vectors.
fn vec_eq_i64(a: &Vec<i64>, b: &Vec<i64>) -> (r: bool)
    ensures
        r == (a@ == b@),
{
    if a.len() != b.len() {
        return false;
    }
    let n = a.len();
    for k in 0..n
        invariant
            n == a@.len() == b@.len(),
            forall|j: int| 0 <= j < k ==> a@[j] == b@[j],
    {
        if a[k] != b[k] {
            return false;
        }
    }
    assert(a@ =~= b@);
    true
}

/// Element-wise equality of two edge vectors.
fn vec_eq_edge(a: &Vec<Edge>, b: &Vec<Edge>) -> (r: bool)
    ensures
        r == (a@ == b@),
{
    if a.len() != b.len() {
        return false;
    }
    let n = a.len();
    for k in 0..n
        invariant
            n == a@.len() == b@.len(),
            forall|j: int| 0 <= j < k ==> a@[j] == b@[j],
    {
        if a[k] != b[k] {
            return false;
        }
    }
    assert(a@ =~= b@);
    true
}

impl NeuralNetwork {
    /// Structural equality: same shape, biases, edges and recurrent
    /// memories. Two equal networks compute equal outputs
    /// (`lemma_compute_deterministic`).
    pub fn eq_net(&self, other: &NeuralNetwork) -> (r: bool)
        ensures
            r == (self.input_size == other.input_size && self.output_size == other.output_size
                && self.n_neurons == other.n_neurons && self.biases@ == other.biases@
                && self.edges@ == other.edges@ && self.memories@ == other.memories@),
    {
        self.input_size == other.input_size && self.output_size == other.output_size
            && self.n_neurons == other.n_neurons && vec_eq_i64(&self.biases, &other.biases)
            && vec_eq_edge(&self.edges, &other.edges) && vec_eq_i64(
            &self.memories,
            &other.memories,
        )
    }
}

/// Evaluation is deterministic: two networks that agree on structure,
/// biases and memories produce the same outputs and the same new memories on
/// the same inputs.
pub proof fn lemma_compute_deterministic(n1: NeuralNetwork, n2: NeuralNetwork, inputs: Seq<i64>)
    requires
        n1.input_size == n2.input_size,
        n1.output_size == n2.output_size,
        n1.n_neurons == n2.n_neurons,
        n1.biases@ == n2.biases@,
        n1.edges@ == n2.edges@,
        n1.memories@ == n2.memories@,
    ensures
        spec_outputs(n1, inputs) == spec_outputs(n2, inputs),
        spec_mems_after(n1, inputs) == spec_mems_after(n2, inputs),
{
}

/// A reset network evaluates exactly like a freshly built one: once every
/// memory is zero, the outputs depend on the structure and the inputs alone.
pub proof fn lemma_reset_matches_fresh(worked: NeuralNetwork, fresh: NeuralNetwork, inputs: Seq<i64>)
    requires
        worked.input_size == fresh.input_size,
        worked.output_size == fresh.output_size,
        worked.n_neurons == fresh.n_neurons,
        worked.biases@ == fresh.biases@,
        worked.edges@ == fresh.edges@,
        worked.memories@.len() == fresh.memories@.len(),
        forall|j: int| 0 <= j < worked.memories@.len() ==> #[trigger] worked.memories@[j] == 0i64,
        forall|j: int| 0 <= j < fresh.memories@.len() ==> #[trigger] fresh.memories@[j] == 0i64,
    ensures
        spec_outputs(worked, inputs) == spec_outputs(fresh, inputs),
{
    assert(lift(worked.memories@) =~= lift(fresh.memories@));
}

} // verus!
