//! The genome (topology) data model: a layered sparse connection graph.
//!
//! A genome lists its layer sizes, one bias per neuron slot, an explicit bias
//! vector for the output layer (which overrides the per-slot bias, since
//! output neurons are sinks), and a gene list ordered by strictly increasing
//! innovation id. Neuron slots are numbered flat across layers in layer
//! order, so a `Point` (layer, index) resolves to slot
//! `offset(layer) + index`.

use vstd::prelude::*;
use crate::fixed::{spec_abs_diff, spec_add, spec_div_count, spec_mul, spec_of_count};
use crate::fixed::{fx_abs_diff, fx_add, fx_div_count, fx_mul, fx_of_count};

verus! {

/// Upper bound on the number of neuron slots of one genome.
pub const TOTAL_CAP: usize = 1000000;

/// Upper bound on the number of genes of one genome.
pub const GENE_CAP: usize = 0x2000000;

/// The address of one neuron slot: layer number and index within the layer.
#[derive(Clone, Copy, PartialEq, Eq, Structural, Debug)]
pub struct Point {
    pub layer: usize,
    pub index: usize,
}

/// The kind of one evolvable edge.
#[derive(Clone, Copy, PartialEq, Eq, Structural, Debug)]
pub enum ConnKind {
    /// One weight: the destination accumulates `weight * source`.
    Plain,
    /// Six weights driving a gated recurrent unit with its own memory.
    Gated,
}

/// One evolvable connection. A plain gene uses `input_weight` only; a gated
/// gene uses all six weights.
#[derive(Clone, Copy, PartialEq, Eq, Structural, Debug)]
pub struct Gene {
    pub from: Point,
    pub to: Point,
    pub kind: ConnKind,
    pub input_weight: i64,
    pub memory_weight: i64,
    pub reset_input_weight: i64,
    pub update_input_weight: i64,
    pub reset_memory_weight: i64,
    pub update_memory_weight: i64,
    pub innovation: u64,
    pub enabled: bool,
}

/// The mathematical value of a genome.
#[verifier::ext_equal]
pub ghost struct GenomeView {
    pub layer_sizes: Seq<usize>,
    pub biases: Seq<i64>,
    pub output_biases: Seq<i64>,
    pub genes: Seq<Gene>,
    pub last_fitness: i64,
}

pub struct Genome {
    pub layer_sizes: Vec<usize>,
    /// One bias per neuron slot, flat in layer order.
    pub biases: Vec<i64>,
    /// Biases of the output layer, overriding the per-slot biases there.
    pub output_biases: Vec<i64>,
    /// Ordered by strictly increasing innovation id.
    pub genes: Vec<Gene>,
    pub last_fitness: i64,
}

impl View for Genome {
    type V = GenomeView;

    open spec fn view(&self) -> GenomeView {
        GenomeView {
            layer_sizes: self.layer_sizes@,
            biases: self.biases@,
            output_biases: self.output_biases@,
            genes: self.genes@,
            last_fitness: self.last_fitness,
        }
    }
}

/// Number of neuron slots before layer `l`.
pub open spec fn spec_offset(sizes: Seq<usize>, l: int) -> int
    decreases l,
{
    if l <= 0 {
        0
    } else {
        spec_offset(sizes, l - 1) + sizes[l - 1]
    }
}

/// Total number of neuron slots.
pub open spec fn spec_total(sizes: Seq<usize>) -> int {
    spec_offset(sizes, sizes.len() as int)
}

/// The flat slot of a point.
pub open spec fn spec_slot(sizes: Seq<usize>, p: Point) -> int {
    spec_offset(sizes, p.layer as int) + p.index
}

pub proof fn lemma_offset_mono(sizes: Seq<usize>, l1: int, l2: int)
    requires
        0 <= l1 <= l2 <= sizes.len(),
    ensures
        spec_offset(sizes, l1) <= spec_offset(sizes, l2),
    decreases l2 - l1,
{
    if l1 < l2 {
        lemma_offset_mono(sizes, l1, l2 - 1);
    }
}

pub proof fn lemma_offset_nonneg(sizes: Seq<usize>, l: int)
    ensures
        spec_offset(sizes, l) >= 0,
    decreases l,
{
    if l > 0 {
        lemma_offset_nonneg(sizes, l - 1);
    }
}

/// A valid point's slot lies between its layer's offset and the next one.
pub proof fn lemma_slot_bounds(sizes: Seq<usize>, p: Point)
    requires
        (p.layer as int) < sizes.len(),
        (p.index as int) < sizes[p.layer as int],
    ensures
        spec_offset(sizes, p.layer as int) <= spec_slot(sizes, p) < spec_offset(
            sizes,
            p.layer as int + 1,
        ),
        spec_slot(sizes, p) < spec_total(sizes),
        spec_slot(sizes, p) >= 0,
{
    lemma_offset_mono(sizes, p.layer as int + 1, sizes.len() as int);
    lemma_offset_nonneg(sizes, p.layer as int);
}

/// Structural validity of one gene against the layer sizes: the source is
/// not in the output layer, the destination lies in a strictly later layer,
/// and both indices are in range.
pub open spec fn gene_ok(sizes: Seq<usize>, g: Gene) -> bool {
    &&& g.from.layer as int + 1 < sizes.len()
    &&& (g.from.index as int) < sizes[g.from.layer as int]
    &&& (g.from.layer as int) < g.to.layer as int
    &&& (g.to.layer as int) < sizes.len()
    &&& (g.to.index as int) < sizes[g.to.layer as int]
}

impl Genome {
    pub open spec fn input_count(self) -> int {
        self.layer_sizes@[0] as int
    }

    pub open spec fn output_count(self) -> int {
        self.layer_sizes@.last() as int
    }

    /// The innovation ids of the gene list, in order.
    pub open spec fn id_seq(self) -> Seq<u64> {
        self.genes@.map_values(|g: Gene| g.innovation)
    }

    /// Well-formedness: sane layer structure, bias vectors of the right
    /// lengths, and a gene list that is structurally valid and ordered by
    /// strictly increasing innovation id.
    pub open spec fn wf(self) -> bool {
        &&& 2 <= self.layer_sizes@.len()
        &&& forall|i: int|
            0 <= i < self.layer_sizes@.len() ==> 1 <= #[trigger] self.layer_sizes@[i]
        &&& spec_total(self.layer_sizes@) <= TOTAL_CAP
        &&& self.biases@.len() == spec_total(self.layer_sizes@)
        &&& self.output_biases@.len() == self.layer_sizes@.last()
        &&& self.genes@.len() <= GENE_CAP
        &&& forall|k: int| 0 <= k < self.genes@.len() ==> gene_ok(self.layer_sizes@, #[trigger] self.genes@[k])
        &&& forall|k1: int, k2: int|
            #![trigger self.genes@[k1], self.genes@[k2]]
            0 <= k1 < k2 < self.genes@.len() ==> self.genes@[k1].innovation
                < self.genes@[k2].innovation
    }

    /// A deep copy whose view equals this genome's view.
    pub fn duplicate(&self) -> (r: Genome)
        ensures
            r@ == self@,
    {
        let r = Genome {
            layer_sizes: copy_vec(&self.layer_sizes),
            biases: copy_vec(&self.biases),
            output_biases: copy_vec(&self.output_biases),
            genes: copy_vec(&self.genes),
            last_fitness: self.last_fitness,
        };
        assert(r@ =~= self@);
        r
    }
}

/// An element-wise copy of a vector of copyable values.
pub fn copy_vec<T: Copy>(v: &Vec<T>) -> (r: Vec<T>)
    ensures
        r@ == v@,
{
    let mut r: Vec<T> = Vec::new();
    let n = v.len();
    for k in 0..n
        invariant
            n == v@.len(),
            r@ == v@.take(k as int),
    {
        r.push(v[k]);
        assert(v@.take(k as int).push(v@[k as int]) =~= v@.take(k as int + 1));
    }
    assert(v@.take(n as int) =~= v@);
    r
}

/// Total slot count of a layer-size vector.
pub fn total_neurons(sizes: &Vec<usize>) -> (r: usize)
    requires
        spec_total(sizes@) <= TOTAL_CAP,
    ensures
        r as int == spec_total(sizes@),
{
    let mut acc: usize = 0;
    let n = sizes.len();
    for l in 0..n
        invariant
            n == sizes@.len(),
            acc as int == spec_offset(sizes@, l as int),
            spec_total(sizes@) <= TOTAL_CAP,
    {
        proof {
            lemma_offset_mono(sizes@, l as int + 1, sizes@.len() as int);
        }
        acc = acc + sizes[l];
    }
    acc
}

/// Strictly increasing innovation ids.
pub open spec fn genes_sorted(s: Seq<Gene>) -> bool {
    forall|k1: int, k2: int|
        #![trigger s[k1], s[k2]]
        0 <= k1 < k2 < s.len() ==> s[k1].innovation < s[k2].innovation
}

/// Gene-alignment statistics of two gene lists ordered by innovation id:
/// (matching count, summed absolute difference of the matching input
/// weights, disjoint count, excess count). A gene present on one side only
/// is disjoint exactly when its id lies inside the other side's id range:
/// below that range (the flag `b1`/`b2` says whether the other side has
/// already consumed smaller ids) or beyond it, the gene is excess.
pub open spec fn spec_dstats(s1: Seq<Gene>, s2: Seq<Gene>, b1: bool, b2: bool) -> (
    int,
    int,
    int,
    int,
)
    decreases s1.len() + s2.len(),
{
    if s1.len() == 0 {
        (0, 0, 0, s2.len() as int)
    } else if s2.len() == 0 {
        (0, 0, 0, s1.len() as int)
    } else if s1[0].innovation == s2[0].innovation {
        let r = spec_dstats(s1.skip(1), s2.skip(1), true, true);
        (
            r.0 + 1,
            r.1 + spec_abs_diff(s1[0].input_weight as int, s2[0].input_weight as int),
            r.2,
            r.3,
        )
    } else if s1[0].innovation < s2[0].innovation {
        let r = spec_dstats(s1.skip(1), s2, true, b2);
        if b2 {
            (r.0, r.1, r.2 + 1, r.3)
        } else {
            (r.0, r.1, r.2, r.3 + 1)
        }
    } else {
        let r = spec_dstats(s1, s2.skip(1), b1, true);
        if b1 {
            (r.0, r.1, r.2 + 1, r.3)
        } else {
            (r.0, r.1, r.2, r.3 + 1)
        }
    }
}

pub proof fn lemma_dstats_bounds(s1: Seq<Gene>, s2: Seq<Gene>, b1: bool, b2: bool)
    ensures
        0 <= spec_dstats(s1, s2, b1, b2).0,
        spec_dstats(s1, s2, b1, b2).0 <= s1.len(),
        spec_dstats(s1, s2, b1, b2).0 <= s2.len(),
        0 <= spec_dstats(s1, s2, b1, b2).1 <= spec_dstats(s1, s2, b1, b2).0 * 0x1_0000_0000,
        0 <= spec_dstats(s1, s2, b1, b2).2 <= s1.len() + s2.len(),
        0 <= spec_dstats(s1, s2, b1, b2).3 <= s1.len() + s2.len(),
    decreases s1.len() + s2.len(),
{
    if s1.len() == 0 || s2.len() == 0 {
    } else if s1[0].innovation == s2[0].innovation {
        lemma_dstats_bounds(s1.skip(1), s2.skip(1), true, true);
    } else if s1[0].innovation < s2[0].innovation {
        lemma_dstats_bounds(s1.skip(1), s2, true, b2);
    } else {
        lemma_dstats_bounds(s1, s2.skip(1), b1, true);
    }
}

/// Matching a gene list against itself: everything matches, nothing differs.
pub proof fn lemma_dstats_refl(s: Seq<Gene>, b: bool)
    ensures
        spec_dstats(s, s, b, b) == (s.len() as int, 0int, 0int, 0int),
    decreases s.len(),
{
    if s.len() > 0 {
        lemma_dstats_refl(s.skip(1), true);
    }
}

/// The alignment statistics do not depend on the order of the arguments.
pub proof fn lemma_dstats_sym(s1: Seq<Gene>, s2: Seq<Gene>, b1: bool, b2: bool)
    ensures
        spec_dstats(s1, s2, b1, b2) == spec_dstats(s2, s1, b2, b1),
    decreases s1.len() + s2.len(),
{
    if s1.len() == 0 || s2.len() == 0 {
    } else if s1[0].innovation == s2[0].innovation {
        lemma_dstats_sym(s1.skip(1), s2.skip(1), true, true);
    } else if s1[0].innovation < s2[0].innovation {
        lemma_dstats_sym(s1.skip(1), s2, true, b2);
    } else {
        lemma_dstats_sym(s1, s2.skip(1), b1, true);
    }
}

/// Structural distance: excess and disjoint counts scaled by `c1` and `c2`
/// and normalized by the larger gene count (at least 1), plus the average
/// absolute matching-weight difference scaled by `c3`.
pub open spec fn spec_delta(a: Genome, b: Genome, c1: int, c2: int, c3: int) -> int {
    let st = spec_dstats(a.genes@, b.genes@, false, false);
    let larger = if a.genes@.len() >= b.genes@.len() {
        a.genes@.len() as int
    } else {
        b.genes@.len() as int
    };
    let norm = if larger == 0 {
        1
    } else {
        larger
    };
    let matches = if st.0 == 0 {
        1
    } else {
        st.0
    };
    let avg = st.1 / matches;
    spec_add(
        spec_div_count(
            spec_add(spec_mul(c1, spec_of_count(st.3)), spec_mul(c2, spec_of_count(st.2))),
            norm,
        ),
        spec_mul(c3, avg),
    )
}

impl Genome {
    /// Structural distance between two genomes, from genes matched by
    /// innovation id, with weights `c1` (excess), `c2` (disjoint) and `c3`
    /// (average matching-weight difference).
    pub fn delta_compatibility(a: &Genome, b: &Genome, c1: i64, c2: i64, c3: i64) -> (r: i64)
        requires
            a.wf(),
            b.wf(),
        ensures
            r as int == spec_delta(*a, *b, c1 as int, c2 as int, c3 as int),
    {
        let n1 = a.genes.len();
        let n2 = b.genes.len();
        let ghost total = spec_dstats(a.genes@, b.genes@, false, false);
        let mut i: usize = 0;
        let mut j: usize = 0;
        let mut m: usize = 0;
        let mut w: i64 = 0;
        let mut d: usize = 0;
        let mut e: usize = 0;
        proof {
            assert(a.genes@.skip(0) =~= a.genes@);
            assert(b.genes@.skip(0) =~= b.genes@);
        }
        while i < n1 && j < n2
            invariant
                n1 == a.genes@.len(),
                n2 == b.genes@.len(),
                n1 <= GENE_CAP,
                n2 <= GENE_CAP,
                0 <= i <= n1,
                0 <= j <= n2,
                m <= i,
                m <= j,
                d <= i + j,
                e <= i + j,
                0 <= w <= m * 0x1_0000_0000,
                total.0 == m + spec_dstats(
                    a.genes@.skip(i as int),
                    b.genes@.skip(j as int),
                    i > 0,
                    j > 0,
                ).0,
                total.1 == w + spec_dstats(
                    a.genes@.skip(i as int),
                    b.genes@.skip(j as int),
                    i > 0,
                    j > 0,
                ).1,
                total.2 == d + spec_dstats(
                    a.genes@.skip(i as int),
                    b.genes@.skip(j as int),
                    i > 0,
                    j > 0,
                ).2,
                total.3 == e + spec_dstats(
                    a.genes@.skip(i as int),
                    b.genes@.skip(j as int),
                    i > 0,
                    j > 0,
                ).3,
            decreases n1 - i + n2 - j,
        {
            let ga = a.genes[i];
            let gb = b.genes[j];
            proof {
                assert(a.genes@.skip(i as int)[0] == a.genes@[i as int]);
                assert(b.genes@.skip(j as int)[0] == b.genes@[j as int]);
                assert(a.genes@.skip(i as int).skip(1) =~= a.genes@.skip(i as int + 1));
                assert(b.genes@.skip(j as int).skip(1) =~= b.genes@.skip(j as int + 1));
            }
            if ga.innovation == gb.innovation {
                let diff = fx_abs_diff(ga.input_weight, gb.input_weight);
                m = m + 1;
                w = w + diff;
                i = i + 1;
                j = j + 1;
            } else if ga.innovation < gb.innovation {
                if j > 0 {
                    d = d + 1;
                } else {
                    e = e + 1;
                }
                i = i + 1;
            } else {
                if i > 0 {
                    d = d + 1;
                } else {
                    e = e + 1;
                }
                j = j + 1;
            }
        }
        if i < n1 {
            proof {
                assert(b.genes@.skip(j as int).len() == 0);
            }
            e = e + (n1 - i);
        } else {
            proof {
                assert(a.genes@.skip(i as int).len() == 0);
            }
            e = e + (n2 - j);
        }
        let larger = if n1 >= n2 {
            n1
        } else {
            n2
        };
        let norm = if larger == 0 {
            1
        } else {
            larger
        };
        let matches = if m == 0 {
            1
        } else {
            m
        };
        let avg = (((w as u64) / (matches as u64)) as i64);
        let excess_term = fx_mul(c1, fx_of_count(e));
        let disjoint_term = fx_mul(c2, fx_of_count(d));
        let structural = fx_div_count(fx_add(excess_term, disjoint_term), norm);
        let weight_term = fx_mul(c3, avg);
        fx_add(structural, weight_term)
    }

    /// Structural distance of a genome to itself is zero.
    pub proof fn lemma_delta_reflexive(g: Genome, c1: int, c2: int, c3: int)
        ensures
            spec_delta(g, g, c1, c2, c3) == 0,
    {
        lemma_dstats_refl(g.genes@, false);
        let st = spec_dstats(g.genes@, g.genes@, false, false);
        assert(spec_of_count(0) == 0);
        assert(spec_mul(c1, 0) == 0);
        assert(spec_mul(c2, 0) == 0);
        assert(spec_add(0, 0) == 0);
        assert(spec_div_count(0, if g.genes@.len() == 0 { 1int } else { g.genes@.len() as int })
            == 0);
        assert(st.1 / (if st.0 == 0 { 1int } else { st.0 }) == 0);
        assert(spec_mul(c3, 0) == 0);
    }

    /// Crossover between structurally identical genomes is closed: the
    /// offspring's innovation-id sequence equals the parents', whatever the
    /// fitness order or the random choices, since `crossover` always hands
    /// one parent's id sequence on. No spurious excess or disjoint genes can
    /// arise.
    pub proof fn lemma_crossover_identical(a: Genome, b: Genome, child: Genome)
        requires
            a.id_seq() == b.id_seq(),
            child.id_seq() == a.id_seq() || child.id_seq() == b.id_seq(),
        ensures
            child.id_seq() == a.id_seq(),
    {
    }

    /// Structural distance is symmetric.
    pub proof fn lemma_delta_symmetric(a: Genome, b: Genome, c1: int, c2: int, c3: int)
        ensures
            spec_delta(a, b, c1, c2, c3) == spec_delta(b, a, c1, c2, c3),
    {
        lemma_dstats_sym(a.genes@, b.genes@, false, false);
    }

    /// Records a fitness score, leaving everything else unchanged.
    pub fn set_last_result(&mut self, score: i64)
        ensures
            final(self).last_fitness == score,
            final(self).layer_sizes@ == old(self).layer_sizes@,
            final(self).biases@ == old(self).biases@,
            final(self).output_biases@ == old(self).output_biases@,
            final(self).genes@ == old(self).genes@,
            old(self).wf() ==> final(self).wf(),
    {
        self.last_fitness = score;
    }

    pub fn get_last_result(&self) -> (r: i64)
        ensures
            r == self.last_fitness,
    {
        self.last_fitness
    }
}

/// The index of the gene with the given innovation id, if present.
pub fn find_gene(genes: &Vec<Gene>, id: u64) -> (r: Option<usize>)
    ensures
        match r {
            Some(k) => k < genes@.len() && genes@[k as int].innovation == id,
            None => forall|k: int| 0 <= k < genes@.len() ==> (#[trigger] genes@[k]).innovation != id,
        },
{
    let n = genes.len();
    for k in 0..n
        invariant
            n == genes@.len(),
            forall|j: int| 0 <= j < k ==> (#[trigger] genes@[j]).innovation != id,
    {
        if genes[k].innovation == id {
            return Some(k);
        }
    }
    None
}

/// Inserts a gene at its sorted position; refuses a duplicate innovation id.
pub fn insert_gene(genes: &mut Vec<Gene>, g: Gene) -> (r: bool)
    requires
        genes_sorted(old(genes)@),
        old(genes)@.len() < GENE_CAP,
    ensures
        genes_sorted(final(genes)@),
        r ==> final(genes)@.len() == old(genes)@.len() + 1,
        r ==> exists|p: int|
            0 <= p <= old(genes)@.len() && final(genes)@ == #[trigger] old(genes)@.insert(p, g),
        !r ==> final(genes)@ == old(genes)@ && exists|k: int|
            0 <= k < old(genes)@.len() && (#[trigger] old(genes)@[k]).innovation == g.innovation,
{
    let n = genes.len();
    let mut p: usize = 0;
    while p < n && genes[p].innovation < g.innovation
        invariant
            n == genes@.len(),
            genes@ == old(genes)@,
            0 <= p <= n,
            forall|j: int| 0 <= j < p ==> (#[trigger] genes@[j]).innovation < g.innovation,
        decreases n - p,
    {
        p = p + 1;
    }
    if p < n && genes[p].innovation == g.innovation {
        return false;
    }
    assert(forall|j: int|
        p <= j < genes@.len() ==> (#[trigger] genes@[j]).innovation > g.innovation) by {
        assert(forall|j: int|
            p < j < genes@.len() ==> genes@[p as int].innovation < (#[trigger] genes@[j]).innovation);
    }
    genes.insert(p, g);
    assert(genes_sorted(genes@)) by {
        assert(forall|j: int| 0 <= j < p ==> genes@[j] == old(genes)@[j]);
        assert(genes@[p as int] == g);
        assert(forall|j: int| p < j < genes@.len() ==> genes@[j] == old(genes)@[j - 1]);
    }
    true
}

/// The new value is the old one, or the old one moved by at most `mag`,
/// saturating at the arithmetic bounds.
pub open spec fn jitter_ok(o: i64, n: i64, mag: i64) -> bool {
    n == o || (spec_add(o as int, -(mag as int)) <= n as int <= spec_add(o as int, mag as int))
}

/// Bounded jitter on every weight of a gene.
pub open spec fn gene_jitter_ok(o: Gene, n: Gene, mag: i64) -> bool {
    &&& jitter_ok(o.input_weight, n.input_weight, mag)
    &&& jitter_ok(o.memory_weight, n.memory_weight, mag)
    &&& jitter_ok(o.reset_input_weight, n.reset_input_weight, mag)
    &&& jitter_ok(o.update_input_weight, n.update_input_weight, mag)
    &&& jitter_ok(o.reset_memory_weight, n.reset_memory_weight, mag)
    &&& jitter_ok(o.update_memory_weight, n.update_memory_weight, mag)
}

/// An enabled plain gene from point (l, i) to point (l+1, j) is present.
pub open spec fn spec_wired(genes: Seq<Gene>, l: int, i: int, j: int) -> bool {
    exists|k: int|
        0 <= k < genes.len() && (#[trigger] genes[k]).enabled && genes[k].kind is Plain
            && genes[k].from == (Point { layer: l as usize, index: i as usize }) && genes[k].to
            == (Point { layer: (l + 1) as usize, index: j as usize })
}

/// Appending a gene keeps every wired pair wired.
pub proof fn lemma_wired_push(genes: Seq<Gene>, g: Gene, l: int, i: int, j: int)
    requires
        spec_wired(genes, l, i, j),
    ensures
        spec_wired(genes.push(g), l, i, j),
{
    let k = choose|k: int|
        0 <= k < genes.len() && (#[trigger] genes[k]).enabled && genes[k].kind is Plain
            && genes[k].from == (Point { layer: l as usize, index: i as usize }) && genes[k].to
            == (Point { layer: (l + 1) as usize, index: j as usize });
    assert(genes.push(g)[k] == genes[k]);
}

/// Equality of everything except the weights.
pub open spec fn same_structure(x: Gene, y: Gene) -> bool {
    &&& x.from == y.from
    &&& x.to == y.to
    &&& x.kind == y.kind
    &&& x.innovation == y.innovation
    &&& x.enabled == y.enabled
}

pub proof fn lemma_offset_ge_len(s: Seq<usize>, l: int)
    requires
        0 <= l <= s.len(),
        forall|i: int| 0 <= i < s.len() ==> 1 <= #[trigger] s[i],
    ensures
        spec_offset(s, l) >= l,
    decreases l,
{
    if l > 0 {
        lemma_offset_ge_len(s, l - 1);
    }
}

pub proof fn lemma_offset_update(s: Seq<usize>, i: int, v: usize, l: int)
    requires
        0 <= i < s.len(),
        0 <= l <= s.len(),
    ensures
        spec_offset(s.update(i, v), l) == spec_offset(s, l) + if i < l {
            (v as int) - (s[i] as int)
        } else {
            0int
        },
    decreases l,
{
    if l > 0 {
        lemma_offset_update(s, i, v, l - 1);
    }
}

/// Writes one element of a vector.
pub fn set_elem<T>(v: &mut Vec<T>, i: usize, val: T)
    requires
        i < old(v)@.len(),
    ensures
        final(v)@ == old(v)@.update(i as int, val),
{
    v[i] = val;
}

/// Number of slots before layer `l`.
pub fn offset_of(sizes: &Vec<usize>, l: usize) -> (r: usize)
    requires
        spec_total(sizes@) <= TOTAL_CAP,
        l <= sizes@.len(),
    ensures
        r as int == spec_offset(sizes@, l as int),
        r <= spec_total(sizes@),
{
    let mut acc: usize = 0;
    for k in 0..l
        invariant
            l <= sizes@.len(),
            acc as int == spec_offset(sizes@, k as int),
            spec_total(sizes@) <= TOTAL_CAP,
    {
        proof {
            lemma_offset_mono(sizes@, k as int + 1, sizes@.len() as int);
        }
        acc = acc + sizes[k];
    }
    proof {
        lemma_offset_mono(sizes@, l as int, sizes@.len() as int);
    }
    acc
}

/// One new enabled, structurally valid gene stands inserted at position `p`
/// of the old list, and no old gene had its source/destination pair with its
/// kind.
pub open spec fn added_conn_witness(o: Genome, f: Genome, p: int) -> bool {
    &&& 0 <= p <= o.genes@.len()
    &&& f.genes@ == o.genes@.insert(p, f.genes@[p])
    &&& f.genes@.len() == o.genes@.len() + 1
    &&& f.genes@[p].enabled
    &&& gene_ok(o.layer_sizes@, f.genes@[p])
    &&& forall|k: int|
        0 <= k < o.genes@.len() ==> !((#[trigger] o.genes@[k]).from == f.genes@[p].from
            && o.genes@[k].to == f.genes@[p].to && o.genes@[k].kind == f.genes@[p].kind)
}

/// What a successful add-connection leaves behind.
pub open spec fn spec_added_connection(o: Genome, f: Genome) -> bool {
    exists|p: int| #[trigger] added_conn_witness(o, f, p)
}

/// The gene at index `k` of the old list — enabled, spanning at least two
/// layers — stands disabled at `i0`; the layer after its source has one more
/// slot; the gene at `i1` enters the new slot (plain, weight one) and the
/// gene at `i2` leaves it carrying the split gene's kind and weights; both
/// new genes bear fresh, distinct innovation ids.
pub open spec fn split_witness(o: Genome, f: Genome, k: int, i0: int, i1: int, i2: int) -> bool {
    let g = o.genes@[k];
    let mid = g.from.layer as int + 1;
    let h = Point { layer: (g.from.layer + 1) as usize, index: o.layer_sizes@[mid] };
    &&& 0 <= k < o.genes@.len()
    &&& g.enabled
    &&& g.to.layer as int >= g.from.layer as int + 2
    &&& f.layer_sizes@ == o.layer_sizes@.update(mid, (o.layer_sizes@[mid] + 1) as usize)
    &&& f.genes@.len() == o.genes@.len() + 2
    &&& 0 <= i0 < f.genes@.len() && 0 <= i1 < f.genes@.len() && 0 <= i2 < f.genes@.len()
    &&& f.genes@[i0] == (Gene { enabled: false, ..g })
    &&& f.genes@[i1].from == g.from && f.genes@[i1].to == h && f.genes@[i1].enabled
        && f.genes@[i1].kind == ConnKind::Plain && f.genes@[i1].input_weight == crate::fixed::SCALE
    &&& f.genes@[i2].from == h && f.genes@[i2].to == g.to && f.genes@[i2].enabled
        && f.genes@[i2].kind == g.kind && f.genes@[i2].input_weight == g.input_weight
        && f.genes@[i2].memory_weight == g.memory_weight && f.genes@[i2].reset_input_weight
        == g.reset_input_weight && f.genes@[i2].update_input_weight == g.update_input_weight
        && f.genes@[i2].reset_memory_weight == g.reset_memory_weight
        && f.genes@[i2].update_memory_weight == g.update_memory_weight
    &&& f.genes@[i1].innovation != f.genes@[i2].innovation
    &&& forall|j: int|
        0 <= j < o.genes@.len() ==> (#[trigger] o.genes@[j]).innovation != f.genes@[i1].innovation
            && o.genes@[j].innovation != f.genes@[i2].innovation
}

/// What a successful add-neuron leaves behind.
pub open spec fn spec_split_neuron(o: Genome, f: Genome) -> bool {
    exists|k: int, i0: int, i1: int, i2: int| #[trigger] split_witness(o, f, k, i0, i1, i2)
}

impl Genome {
    /// Offspring of two genomes with equal input and output sizes. The
    /// strictly fitter parent passes its whole gene list on; at equal
    /// fitness a coin picks the structure donor and each matching gene takes
    /// its weights from a random parent, so one-sided genes are inherited
    /// with fixed probability one half.
    pub fn crossover(a: &Genome, b: &Genome, rng: &mut crate::rng::Rng) -> (child: Genome)
        requires
            a.wf(),
            b.wf(),
            a.input_count() == b.input_count(),
            a.output_count() == b.output_count(),
        ensures
            child.wf(),
            child.input_count() == a.input_count(),
            child.output_count() == a.output_count(),
            child.id_seq() == a.id_seq() || child.id_seq() == b.id_seq(),
            a.last_fitness > b.last_fitness ==> child@ == a@,
            b.last_fitness > a.last_fitness ==> child@ == b@,
            (child.genes@.len() == a.genes@.len() && (forall|k: int|
                0 <= k < child.genes@.len() ==> same_structure(
                    #[trigger] child.genes@[k],
                    a.genes@[k],
                ))) || (child.genes@.len() == b.genes@.len() && (forall|k: int|
                0 <= k < child.genes@.len() ==> same_structure(
                    #[trigger] child.genes@[k],
                    b.genes@[k],
                ))),
    {
        if a.last_fitness > b.last_fitness {
            let child = a.duplicate();
            assert(child.id_seq() =~= a.id_seq());
            assert(forall|k: int|
                0 <= k < child.genes@.len() ==> same_structure(
                    #[trigger] child.genes@[k],
                    a.genes@[k],
                ));
            return child;
        }
        if b.last_fitness > a.last_fitness {
            let child = b.duplicate();
            assert(child.id_seq() =~= b.id_seq());
            assert(forall|k: int|
                0 <= k < child.genes@.len() ==> same_structure(
                    #[trigger] child.genes@[k],
                    b.genes@[k],
                ));
            return child;
        }
        let use_a = rng.coin();
        let base = if use_a {
            a
        } else {
            b
        };
        let other = if use_a {
            b
        } else {
            a
        };
        let mut child = base.duplicate();
        let n = child.genes.len();
        let mut new_genes: Vec<Gene> = Vec::new();
        for k in 0..n
            invariant
                n == base.genes@.len(),
                base.wf(),
                other.wf(),
                new_genes@.len() == k,
                forall|j: int|
                    0 <= j < k ==> same_structure(#[trigger] new_genes@[j], base.genes@[j]),
        {
            let mut g = base.genes[k];
            if rng.coin() {
                if let Some(j) = find_gene(&other.genes, g.innovation) {
                    let o = other.genes[j];
                    g.input_weight = o.input_weight;
                    g.memory_weight = o.memory_weight;
                    g.reset_input_weight = o.reset_input_weight;
                    g.update_input_weight = o.update_input_weight;
                    g.reset_memory_weight = o.reset_memory_weight;
                    g.update_memory_weight = o.update_memory_weight;
                }
            }
            new_genes.push(g);
        }
        child.genes = new_genes;
        assert(child.wf()) by {
            assert(forall|j: int|
                0 <= j < child.genes@.len() ==> gene_ok(
                    child.layer_sizes@,
                    #[trigger] child.genes@[j],
                ));
        }
        assert(child.id_seq() =~= base.id_seq());
        child
    }

    /// Jitters each weight and bias, independently with probability one
    /// half, by at most `mag`, saturating; the structure (points, kinds,
    /// innovation ids, enabled flags) is unchanged.
    pub fn perturb_weights(&mut self, rng: &mut crate::rng::Rng, mag: i64)
        requires
            old(self).wf(),
            0 < mag <= 0x4000_0000,
        ensures
            final(self).wf(),
            final(self).layer_sizes@ == old(self).layer_sizes@,
            final(self).last_fitness == old(self).last_fitness,
            final(self).genes@.len() == old(self).genes@.len(),
            forall|k: int|
                0 <= k < old(self).genes@.len() ==> same_structure(
                    #[trigger] final(self).genes@[k],
                    old(self).genes@[k],
                ),
            forall|k: int|
                0 <= k < old(self).genes@.len() ==> gene_jitter_ok(
                    old(self).genes@[k],
                    #[trigger] final(self).genes@[k],
                    mag,
                ),
            final(self).biases@.len() == old(self).biases@.len(),
            forall|k: int|
                0 <= k < old(self).biases@.len() ==> jitter_ok(
                    old(self).biases@[k],
                    #[trigger] final(self).biases@[k],
                    mag,
                ),
            final(self).output_biases@.len() == old(self).output_biases@.len(),
            forall|k: int|
                0 <= k < old(self).output_biases@.len() ==> jitter_ok(
                    old(self).output_biases@[k],
                    #[trigger] final(self).output_biases@[k],
                    mag,
                ),
            final(self).id_seq() == old(self).id_seq(),
    {
        let n = self.genes.len();
        let mut new_genes: Vec<Gene> = Vec::new();
        for k in 0..n
            invariant
                n == self.genes@.len(),
                self.genes@ == old(self).genes@,
                0 < mag <= 0x4000_0000,
                new_genes@.len() == k,
                forall|j: int|
                    0 <= j < k ==> same_structure(#[trigger] new_genes@[j], self.genes@[j]),
                forall|j: int|
                    0 <= j < k ==> gene_jitter_ok(self.genes@[j], #[trigger] new_genes@[j], mag),
        {
            let mut g = self.genes[k];
            if rng.below(2) == 0 {
                g.input_weight = fx_add(g.input_weight, rng.jitter(mag));
            }
            if matches!(g.kind, ConnKind::Gated) {
                if rng.below(2) == 0 {
                    g.memory_weight = fx_add(g.memory_weight, rng.jitter(mag));
                }
                if rng.below(2) == 0 {
                    g.reset_input_weight = fx_add(g.reset_input_weight, rng.jitter(mag));
                }
                if rng.below(2) == 0 {
                    g.update_input_weight = fx_add(g.update_input_weight, rng.jitter(mag));
                }
                if rng.below(2) == 0 {
                    g.reset_memory_weight = fx_add(g.reset_memory_weight, rng.jitter(mag));
                }
                if rng.below(2) == 0 {
                    g.update_memory_weight = fx_add(g.update_memory_weight, rng.jitter(mag));
                }
            }
            new_genes.push(g);
        }
        let nb = self.biases.len();
        let mut new_biases: Vec<i64> = Vec::new();
        for k in 0..nb
            invariant
                nb == self.biases@.len(),
                self.biases@ == old(self).biases@,
                0 < mag <= 0x4000_0000,
                new_biases@.len() == k,
                forall|j: int|
                    0 <= j < k ==> jitter_ok(self.biases@[j], #[trigger] new_biases@[j], mag),
        {
            let b = if rng.below(2) == 0 {
                fx_add(self.biases[k], rng.jitter(mag))
            } else {
                self.biases[k]
            };
            new_biases.push(b);
        }
        let no = self.output_biases.len();
        let mut new_out: Vec<i64> = Vec::new();
        for k in 0..no
            invariant
                no == self.output_biases@.len(),
                self.output_biases@ == old(self).output_biases@,
                0 < mag <= 0x4000_0000,
                new_out@.len() == k,
                forall|j: int|
                    0 <= j < k ==> jitter_ok(self.output_biases@[j], #[trigger] new_out@[j], mag),
        {
            let b = if rng.below(2) == 0 {
                fx_add(self.output_biases[k], rng.jitter(mag))
            } else {
                self.output_biases[k]
            };
            new_out.push(b);
        }
        self.genes = new_genes;
        self.biases = new_biases;
        self.output_biases = new_out;
        assert(final(self).wf()) by {
            assert(forall|j: int|
                0 <= j < final(self).genes@.len() ==> gene_ok(
                    final(self).layer_sizes@,
                    #[trigger] final(self).genes@[j],
                ));
        }
        assert(final(self).id_seq() =~= old(self).id_seq());
    }

    /// Adds one connection between a random source and a random point of a
    /// strictly later layer, rejecting a duplicate source/destination pair of
    /// the same kind. Returns whether the genome changed.
    pub fn mutate_add_connection(
        &mut self,
        ev: &mut crate::innovation::EvNumber,
        rng: &mut crate::rng::Rng,
    ) -> (r: bool)
        requires
            old(self).wf(),
        ensures
            final(self).wf(),
            final(self).layer_sizes@ == old(self).layer_sizes@,
            final(self).biases@ == old(self).biases@,
            final(self).output_biases@ == old(self).output_biases@,
            final(self).last_fitness == old(self).last_fitness,
            r ==> spec_added_connection(*old(self), *final(self)),
            !r ==> final(self).genes@ == old(self).genes@,
    {
        let nl = self.layer_sizes.len();
        proof {
            lemma_offset_ge_len(self.layer_sizes@, self.layer_sizes@.len() as int);
        }
        let from_layer = rng.below((nl - 1) as u64) as usize;
        proof {
            lemma_slot_bounds(
                self.layer_sizes@,
                Point { layer: from_layer, index: (self.layer_sizes@[from_layer as int] - 1) as usize },
            );
            lemma_offset_nonneg(self.layer_sizes@, from_layer as int);
            lemma_offset_mono(self.layer_sizes@, from_layer as int + 1, self.layer_sizes@.len() as int);
        }
        let from_index = rng.below(self.layer_sizes[from_layer] as u64) as usize;
        let to_layer = from_layer + 1 + rng.below((nl - 1 - from_layer) as u64) as usize;
        proof {
            lemma_slot_bounds(
                self.layer_sizes@,
                Point { layer: to_layer, index: (self.layer_sizes@[to_layer as int] - 1) as usize },
            );
            lemma_offset_nonneg(self.layer_sizes@, to_layer as int);
            lemma_offset_mono(self.layer_sizes@, to_layer as int + 1, self.layer_sizes@.len() as int);
        }
        let to_index = rng.below(self.layer_sizes[to_layer] as u64) as usize;
        let gated = rng.coin();
        let from = Point { layer: from_layer, index: from_index };
        let to = Point { layer: to_layer, index: to_index };
        let kind = if gated {
            ConnKind::Gated
        } else {
            ConnKind::Plain
        };
        let n = self.genes.len();
        for k in 0..n
            invariant
                n == self.genes@.len(),
                self.wf(),
                self.layer_sizes@ == old(self).layer_sizes@,
                self.biases@ == old(self).biases@,
                self.output_biases@ == old(self).output_biases@,
                self.last_fitness == old(self).last_fitness,
                self.genes@ == old(self).genes@,
                forall|j: int|
                    0 <= j < k ==> !((#[trigger] self.genes@[j]).from == from && self.genes@[j].to
                        == to && self.genes@[j].kind == kind),
        {
            let g = &self.genes[k];
            if g.from == from && g.to == to && g.kind == kind {
                return false;
            }
        }
        if self.genes.len() >= GENE_CAP {
            return false;
        }
        let id = ev.connection_id(from, to, gated);
        let gene = Gene {
            from,
            to,
            kind,
            input_weight: rng.jitter(2 * crate::fixed::SCALE),
            memory_weight: rng.jitter(2 * crate::fixed::SCALE),
            reset_input_weight: rng.jitter(2 * crate::fixed::SCALE),
            update_input_weight: rng.jitter(2 * crate::fixed::SCALE),
            reset_memory_weight: rng.jitter(2 * crate::fixed::SCALE),
            update_memory_weight: rng.jitter(2 * crate::fixed::SCALE),
            innovation: id,
            enabled: true,
        };
        let inserted = insert_gene(&mut self.genes, gene);
        proof {
            if inserted {
                let p = choose|p: int|
                    0 <= p <= old(self).genes@.len() && final(self).genes@
                        == #[trigger] old(self).genes@.insert(p, gene);
                assert(forall|j: int|
                    0 <= j < final(self).genes@.len() ==> gene_ok(
                        final(self).layer_sizes@,
                        #[trigger] final(self).genes@[j],
                    ));
                assert(final(self).genes@[p] == gene);
                assert(added_conn_witness(*old(self), *final(self), p));
            }
        }
        inserted
    }
}

/// Sorted insert that also preserves structural validity of the list.
fn insert_gene_ok(genes: &mut Vec<Gene>, g: Gene, Ghost(sizes): Ghost<Seq<usize>>) -> (r: bool)
    requires
        genes_sorted(old(genes)@),
        old(genes)@.len() < GENE_CAP,
        gene_ok(sizes, g),
        forall|k: int| 0 <= k < old(genes)@.len() ==> gene_ok(sizes, #[trigger] old(genes)@[k]),
    ensures
        genes_sorted(final(genes)@),
        forall|k: int| 0 <= k < final(genes)@.len() ==> gene_ok(sizes, #[trigger] final(genes)@[k]),
        r ==> final(genes)@.len() == old(genes)@.len() + 1,
        !r ==> final(genes)@ == old(genes)@,
        !r ==> exists|k: int|
            0 <= k < old(genes)@.len() && (#[trigger] old(genes)@[k]).innovation == g.innovation,
        r ==> exists|p: int|
            0 <= p <= old(genes)@.len() && final(genes)@ == #[trigger] old(genes)@.insert(p, g),
{
    let inserted = insert_gene(genes, g);
    proof {
        if inserted {
            let p = choose|p: int|
                0 <= p <= old(genes)@.len() && final(genes)@ == #[trigger] old(genes)@.insert(p, g);
            assert(forall|k: int|
                0 <= k < final(genes)@.len() ==> gene_ok(sizes, #[trigger] final(genes)@[k]));
        }
    }
    inserted
}

impl Genome {
    /// Splits a random enabled gene that spans at least two layers: the gene
    /// is disabled and replaced by a path through a new neuron in the layer
    /// after its source, consuming two innovation ids. The edge into the new
    /// neuron is plain with weight one; the edge out keeps the old gene's
    /// kind and weights. Returns whether the genome changed.
    #[verifier::rlimit(100)]
    pub fn mutate_add_neuron(
        &mut self,
        ev: &mut crate::innovation::EvNumber,
        rng: &mut crate::rng::Rng,
        max_per_layer: usize,
    ) -> (r: bool)
        requires
            old(self).wf(),
        ensures
            final(self).wf(),
            final(self).layer_sizes@.len() == old(self).layer_sizes@.len(),
            final(self).layer_sizes@[0] == old(self).layer_sizes@[0],
            final(self).layer_sizes@.last() == old(self).layer_sizes@.last(),
            final(self).last_fitness == old(self).last_fitness,
            r ==> spec_split_neuron(*old(self), *final(self)),
            !r ==> final(self)@ == old(self)@,
    {
        let n = self.genes.len();
        let mut cands: Vec<usize> = Vec::new();
        for k in 0..n
            invariant
                n == self.genes@.len(),
                self.wf(),
                *self == *old(self),
                forall|j: int|
                    0 <= j < cands@.len() ==> #[trigger] cands@[j] < n && self.genes@[cands@[j] as int].enabled
                        && self.genes@[cands@[j] as int].to.layer >= self.genes@[cands@[j] as int].from.layer
                        + 2,
        {
            let g = &self.genes[k];
            proof {
                assert(gene_ok(self.layer_sizes@, self.genes@[k as int]));
                lemma_offset_ge_len(self.layer_sizes@, self.layer_sizes@.len() as int);
            }
            if g.enabled && g.to.layer >= g.from.layer + 2 {
                cands.push(k);
            }
        }
        if cands.len() == 0 {
            return false;
        }
        let pick = rng.below(cands.len() as u64) as usize;
        let k = cands[pick];
        let gene = self.genes[k];
        let mid = gene.from.layer + 1;
        let old_size = self.layer_sizes[mid];
        proof {
            lemma_slot_bounds(
                self.layer_sizes@,
                Point { layer: mid, index: (old_size - 1) as usize },
            );
            lemma_offset_nonneg(self.layer_sizes@, mid as int);
            lemma_offset_mono(self.layer_sizes@, mid as int + 1, self.layer_sizes@.len() as int);
        }
        if old_size >= max_per_layer {
            return false;
        }
        let total = total_neurons(&self.layer_sizes);
        if total >= TOTAL_CAP {
            return false;
        }
        if self.genes.len() + 2 > GENE_CAP {
            return false;
        }
        let ids = ev.split_ids(gene.innovation);
        if ids.0 == ids.1 {
            return false;
        }
        if find_gene(&self.genes, ids.0).is_some() {
            return false;
        }
        if find_gene(&self.genes, ids.1).is_some() {
            return false;
        }
        let h = Point { layer: mid, index: old_size };
        let pos = offset_of(&self.layer_sizes, mid + 1);
        let mut disabled = gene;
        disabled.enabled = false;
        set_elem(&mut self.genes, k, disabled);
        assert(genes_sorted(self.genes@));
        assert(forall|j: int|
            0 <= j < self.genes@.len() ==> gene_ok(self.layer_sizes@, #[trigger] self.genes@[j]));
        let ghost old_sizes = self.layer_sizes@;
        set_elem(&mut self.layer_sizes, mid, old_size + 1);
        proof {
            lemma_offset_update(old_sizes, mid as int, (old_size + 1) as usize, old_sizes.len() as int);
            lemma_offset_update(old_sizes, mid as int, (old_size + 1) as usize, mid as int + 1);
            assert(spec_total(self.layer_sizes@) == spec_total(old_sizes) + 1);
            assert(forall|j: int|
                0 <= j < self.genes@.len() ==> gene_ok(
                    self.layer_sizes@,
                    #[trigger] self.genes@[j],
                ));
        }
        self.biases.insert(pos, 0);
        let g1 = Gene {
            from: gene.from,
            to: h,
            kind: ConnKind::Plain,
            input_weight: crate::fixed::SCALE,
            memory_weight: 0,
            reset_input_weight: 0,
            update_input_weight: 0,
            reset_memory_weight: 0,
            update_memory_weight: 0,
            innovation: ids.0,
            enabled: true,
        };
        let g2 = Gene {
            from: h,
            to: gene.to,
            kind: gene.kind,
            input_weight: gene.input_weight,
            memory_weight: gene.memory_weight,
            reset_input_weight: gene.reset_input_weight,
            update_input_weight: gene.update_input_weight,
            reset_memory_weight: gene.reset_memory_weight,
            update_memory_weight: gene.update_memory_weight,
            innovation: ids.1,
            enabled: true,
        };
        let ghost genes1 = self.genes@;
        let ok1 = insert_gene_ok(&mut self.genes, g1, Ghost(self.layer_sizes@));
        proof {
            // the first fresh id is absent, so the insert cannot be refused
            if !ok1 {
                let kd = choose|kd: int|
                    0 <= kd < genes1.len() && (#[trigger] genes1[kd]).innovation == g1.innovation;
                assert(old(self).genes@[kd].innovation == ids.0);
                assert(false);
            }
        }
        let ghost p1 = choose|p: int|
            0 <= p <= genes1.len() && self.genes@ == #[trigger] genes1.insert(p, g1);
        let ghost genes2 = self.genes@;
        let ok2 = insert_gene_ok(&mut self.genes, g2, Ghost(self.layer_sizes@));
        proof {
            // the second id differs from the first and from every old id
            if !ok2 {
                let kd = choose|kd: int|
                    0 <= kd < genes2.len() && (#[trigger] genes2[kd]).innovation == g2.innovation;
                if kd < p1 {
                    assert(genes2[kd] == genes1[kd]);
                } else if kd == p1 {
                    assert(genes2[kd] == g1);
                } else {
                    assert(genes2[kd] == genes1[kd - 1]);
                }
                assert(false);
            }
            let p2 = choose|p: int|
                0 <= p <= genes2.len() && final(self).genes@ == #[trigger] genes2.insert(p, g2);
            let i2 = p2;
            let i1 = if p2 <= p1 {
                p1 + 1
            } else {
                p1
            };
            let j0 = if p1 <= k {
                k as int + 1
            } else {
                k as int
            };
            let i0 = if p2 <= j0 {
                j0 + 1
            } else {
                j0
            };
            assert(genes1[k as int] == disabled);
            assert(genes2[j0] == disabled);
            assert(final(self).genes@[i0] == disabled);
            assert(genes2[p1] == g1);
            assert(final(self).genes@[i1] == g1);
            assert(final(self).genes@[i2] == g2);
            assert(disabled == (Gene { enabled: false, ..gene }));
            assert(split_witness(*old(self), *final(self), k as int, i0, i1, i2));
        }
        true
    }

    /// A randomly weighted, fully connected genome over the given layer
    /// shape (`hidden == 0` means inputs wired straight to outputs): every
    /// pair of neurons in consecutive layers is joined by an enabled plain
    /// gene. Ids come from the registry, so structurally equal starting
    /// genomes share ids; an id that would break the strictly increasing
    /// order is replaced by the next free local id.
    #[verifier::loop_isolation(false)]
    #[verifier::rlimit(60)]
    pub fn random_genome(
        inputs: usize,
        outputs: usize,
        hidden: usize,
        ev: &mut crate::innovation::EvNumber,
        rng: &mut crate::rng::Rng,
    ) -> (r: Genome)
        requires
            1 <= inputs <= 4096,
            1 <= outputs <= 4096,
            hidden <= 1000,
        ensures
            r.wf(),
            r.input_count() == inputs as int,
            r.output_count() == outputs as int,
            forall|l: int, i: int, j: int|
                0 <= l < r.layer_sizes@.len() - 1 && 0 <= i < r.layer_sizes@[l] && 0 <= j
                    < r.layer_sizes@[l + 1] ==> spec_wired(r.genes@, l, i, j),
    {
        let mut sizes: Vec<usize> = Vec::new();
        sizes.push(inputs);
        if hidden > 0 {
            sizes.push(hidden);
        }
        sizes.push(outputs);
        proof {
            assert(spec_offset(sizes@, 0) == 0);
            assert(spec_offset(sizes@, 1) == sizes@[0]);
            assert(spec_offset(sizes@, 2) == sizes@[0] + sizes@[1]);
            if sizes@.len() == 3 {
                assert(spec_offset(sizes@, 3) == sizes@[0] + sizes@[1] + sizes@[2]);
            }
        }
        let total = total_neurons(&sizes);
        let mut biases: Vec<i64> = Vec::new();
        for _s in 0..total
            invariant
                biases@.len() == _s,
        {
            let b = rng.jitter(crate::fixed::SCALE);
            biases.push(b);
        }
        let mut output_biases: Vec<i64> = Vec::new();
        for _s in 0..outputs
            invariant
                output_biases@.len() == _s,
        {
            let b = rng.jitter(crate::fixed::SCALE);
            output_biases.push(b);
        }
        let mut genes: Vec<Gene> = Vec::new();
        let nl = sizes.len();
        for l in 0..nl - 1
            invariant
                genes_sorted(genes@),
                genes@.len() <= (l as int) * 0x1000000,
                genes@.len() > 0 ==> (genes@.last().innovation as int) < 0x8000_0000_0000_0000
                    + genes@.len(),
                forall|k: int| 0 <= k < genes@.len() ==> gene_ok(sizes@, #[trigger] genes@[k]),
                forall|l2: int, i2: int, j2: int|
                    0 <= l2 < l && 0 <= i2 < sizes@[l2] && 0 <= j2 < sizes@[l2 + 1] ==> spec_wired(
                        genes@,
                        l2,
                        i2,
                        j2,
                    ),
        {
            let rows = sizes[l];
            let cols = sizes[l + 1];
            for i in 0..rows
                invariant
                    rows == sizes@[l as int],
                    cols == sizes@[l as int + 1],
                    genes_sorted(genes@),
                    genes@.len() <= (l as int) * 0x1000000 + (i as int) * (cols as int),
                    genes@.len() > 0 ==> (genes@.last().innovation as int) < 0x8000_0000_0000_0000
                        + genes@.len(),
                    forall|k: int| 0 <= k < genes@.len() ==> gene_ok(sizes@, #[trigger] genes@[k]),
                    forall|l2: int, i2: int, j2: int|
                        0 <= l2 < l && 0 <= i2 < sizes@[l2] && 0 <= j2 < sizes@[l2 + 1]
                            ==> spec_wired(genes@, l2, i2, j2),
                    forall|i2: int, j2: int|
                        0 <= i2 < i && 0 <= j2 < cols ==> spec_wired(genes@, l as int, i2, j2),
            {
                for j in 0..cols
                    invariant
                        rows == sizes@[l as int],
                        cols == sizes@[l as int + 1],
                        i < rows,
                        genes_sorted(genes@),
                        genes@.len() <= (l as int) * 0x1000000 + (i as int) * (cols as int) + (
                        j as int),
                        genes@.len() > 0 ==> (genes@.last().innovation as int)
                            < 0x8000_0000_0000_0000 + genes@.len(),
                        forall|k: int|
                            0 <= k < genes@.len() ==> gene_ok(sizes@, #[trigger] genes@[k]),
                        forall|l2: int, i2: int, j2: int|
                            0 <= l2 < l && 0 <= i2 < sizes@[l2] && 0 <= j2 < sizes@[l2 + 1]
                                ==> spec_wired(genes@, l2, i2, j2),
                        forall|i2: int, j2: int|
                            0 <= i2 < i && 0 <= j2 < cols ==> spec_wired(genes@, l as int, i2, j2),
                        forall|j2: int| 0 <= j2 < j ==> spec_wired(genes@, l as int, i as int, j2),
                {
                    proof {
                        assert((l as int) * 0x1000000 <= 0x1000000) by (nonlinear_arith)
                            requires
                                0 <= l as int <= 1,
                        ;
                        assert((i as int) * (cols as int) <= 4095 * 4096) by (nonlinear_arith)
                            requires
                                0 <= i as int <= 4095,
                                0 <= cols as int <= 4096,
                        ;
                    }
                    let from = Point { layer: l, index: i };
                    let to = Point { layer: l + 1, index: j };
                    let id0 = ev.connection_id(from, to, false);
                    let id: u64;
                    if genes.len() == 0 {
                        id = if 1 <= id0 && id0 < 0x8000_0000_0000_0000 {
                            id0
                        } else {
                            1
                        };
                    } else {
                        let last = genes[genes.len() - 1].innovation;
                        id = if id0 > last && id0 < 0x8000_0000_0000_0000 {
                            id0
                        } else {
                            last + 1
                        };
                    }
                    let w = rng.jitter(2 * crate::fixed::SCALE);
                    let gene = Gene {
                        from,
                        to,
                        kind: ConnKind::Plain,
                        input_weight: w,
                        memory_weight: 0,
                        reset_input_weight: 0,
                        update_input_weight: 0,
                        reset_memory_weight: 0,
                        update_memory_weight: 0,
                        innovation: id,
                        enabled: true,
                    };
                    let ghost pre_genes = genes@;
                    genes.push(gene);
                    proof {
                        assert(genes_sorted(genes@)) by {
                            assert(forall|k: int|
                                0 <= k < pre_genes.len() ==> (#[trigger] pre_genes[k]).innovation
                                    <= pre_genes.last().innovation);
                        }
                        assert(spec_wired(genes@, l as int, i as int, j as int)) by {
                            assert(genes@[pre_genes.len() as int] == gene);
                        }
                        assert forall|l2: int, i2: int, j2: int|
                            0 <= l2 < l && 0 <= i2 < sizes@[l2] && 0 <= j2 < sizes@[l2
                                + 1] implies spec_wired(genes@, l2, i2, j2) by {
                            lemma_wired_push(pre_genes, gene, l2, i2, j2);
                        }
                        assert forall|i2: int, j2: int|
                            0 <= i2 < i && 0 <= j2 < cols implies spec_wired(
                            genes@,
                            l as int,
                            i2,
                            j2,
                        ) by {
                            lemma_wired_push(pre_genes, gene, l as int, i2, j2);
                        }
                        assert forall|j2: int| 0 <= j2 < j implies spec_wired(
                            genes@,
                            l as int,
                            i as int,
                            j2,
                        ) by {
                            lemma_wired_push(pre_genes, gene, l as int, i as int, j2);
                        }
                    }
                }
                proof {
                    assert((i as int + 1) * (cols as int) == (i as int) * (cols as int) + (
                    cols as int)) by (nonlinear_arith);
                }
            }
            proof {
                assert(((l as int) + 1) * 0x1000000 == (l as int) * 0x1000000 + 0x1000000)
                    by (nonlinear_arith);
                assert((rows as int) * (cols as int) <= 4096 * 4096) by (nonlinear_arith)
                    requires
                        0 <= rows as int <= 4096,
                        0 <= cols as int <= 4096,
                ;
            }
        }
        proof {
            assert((nl as int - 1) * 0x1000000 <= 0x2000000) by (nonlinear_arith)
                requires
                    nl as int - 1 <= 2,
            ;
        }
        Genome { layer_sizes: sizes, biases, output_biases, genes, last_fitness: 0 }
    }
}

/// The flat slot of a point, given the layer sizes.
pub fn slot_of(sizes: &Vec<usize>, p: Point) -> (r: usize)
    requires
        spec_total(sizes@) <= TOTAL_CAP,
        (p.layer as int) < sizes@.len(),
        (p.index as int) < sizes@[p.layer as int],
    ensures
        r as int == spec_slot(sizes@, p),
        r < spec_total(sizes@),
{
    let mut acc: usize = 0;
    for l in 0..p.layer
        invariant
            (p.layer as int) < sizes@.len(),
            acc as int == spec_offset(sizes@, l as int),
            spec_total(sizes@) <= TOTAL_CAP,
            (p.index as int) < sizes@[p.layer as int],
    {
        proof {
            lemma_offset_mono(sizes@, l as int + 1, sizes@.len() as int);
        }
        acc = acc + sizes[l];
    }
    proof {
        lemma_slot_bounds(sizes@, p);
        lemma_offset_mono(sizes@, p.layer as int + 1, sizes@.len() as int);
    }
    acc + p.index
}

} // verus!
