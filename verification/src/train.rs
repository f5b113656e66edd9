//! The trainer: bootstrap, evaluation, selection, re-speciation, history.
//!
//! Each generation the trainer hands one network per genome to the
//! evaluator, writes the returned scores back, culls and reproduces inside
//! every species against a population-wide median cutoff, dissolves stagnant
//! species, and re-clusters every surviving genome by structural distance.

use vstd::prelude::*;
use vstd::multiset::Multiset;
use crate::error::NeatError;
use crate::fixed::{fx_div_count, SCALE};
use crate::genome::{Genome, GenomeView};
use crate::innovation::EvNumber;
use crate::genome::spec_total;
use crate::network::{spec_net_biases, spec_net_edges, NeuralNetwork};
use crate::rng::Rng;
use crate::species::{members_ms, lemma_members_empty, lemma_members_push, spec_selected, Species};

verus! {

broadcast use {vstd::seq_lib::group_to_multiset_ensures, vstd::multiset::group_multiset_axioms};

/// The evaluator a host application supplies: it scores the current
/// population, receives each freshly rebuilt population, and is handed the
/// history of best genomes when training concludes.
pub trait Game {
    /// One score per network of the population last received, in order.
    fn run_generation(&mut self) -> Vec<i64>;

    /// Receives the rebuilt population, one network per genome, in the
    /// trainer's flattening order.
    fn reset_players(&mut self, networks: Vec<NeuralNetwork>);

    /// Receives the history of each generation's best genomes at the end.
    fn post_training(&mut self, history: &Vec<Genome>);
}

/// All members of all species, as a multiset of genome values.
pub open spec fn all_members(ss: Seq<Species>) -> Multiset<GenomeView>
    decreases ss.len(),
{
    if ss.len() == 0 {
        Multiset::empty()
    } else {
        members_ms(ss[0].topologies@).add(all_members(ss.skip(1)))
    }
}

/// What one species contributes to the surviving population: its members if
/// it is not stagnant, nothing otherwise.
pub open spec fn surviving_contrib(sp: Species) -> Multiset<GenomeView> {
    if sp.stagnation_counter < 20 {
        members_ms(sp.topologies@)
    } else {
        Multiset::empty()
    }
}

/// The members of all non-stagnant species.
pub open spec fn surviving_members(ss: Seq<Species>) -> Multiset<GenomeView>
    decreases ss.len(),
{
    if ss.len() == 0 {
        Multiset::empty()
    } else {
        surviving_contrib(ss[0]).add(surviving_members(ss.skip(1)))
    }
}

/// Number of members in the species before index `si`: the flattening
/// offset of species `si`.
pub open spec fn members_before(ss: Seq<Species>, si: int) -> int
    decreases si,
{
    if si <= 0 {
        0
    } else {
        members_before(ss, si - 1) + ss[si - 1].topologies@.len()
    }
}

/// The member views of the first `n` species, species by species, member by
/// member: the trainer's flattening order.
pub open spec fn flatten_views(ss: Seq<Species>, n: int) -> Seq<GenomeView>
    decreases n,
{
    if n <= 0 {
        Seq::empty()
    } else {
        flatten_views(ss, n - 1) + ss[n - 1].topologies@.map_values(|g: Genome| g@)
    }
}

/// The whole population, flattened.
pub open spec fn spec_population(ss: Seq<Species>) -> Seq<GenomeView> {
    flatten_views(ss, ss.len() as int)
}

/// Adjusted fitness (fitness over the owning species' size) of every member
/// of the first `n` species, in flattening order.
pub open spec fn adjusted_views(ss: Seq<Species>, n: int) -> Seq<i64>
    decreases n,
{
    if n <= 0 {
        Seq::empty()
    } else {
        adjusted_views(ss, n - 1) + ss[n - 1].topologies@.map_values(
            |g: Genome|
                crate::fixed::spec_div_count(
                    g.last_fitness as int,
                    ss[n - 1].topologies@.len() as int,
                ) as i64,
        )
    }
}

/// `c` is the median: the value at the middle index of some ascending
/// ordering of `vals`.
pub open spec fn is_median(c: i64, vals: Seq<i64>) -> bool {
    exists|s: Seq<i64>|
        #![trigger s.to_multiset()]
        s.to_multiset() == vals.to_multiset() && s.len() == vals.len() && vals.len() > 0 && (forall|
            i: int,
            j: int,
        | 0 <= i <= j < s.len() ==> s[i] <= s[j]) && c == s[s.len() as int / 2]
}

/// Every species was selected against the same cutoff, with its refill
/// target set to `share`.
pub open spec fn all_selected(pre: Seq<Species>, post: Seq<Species>, share: usize, cutoff: i64) -> bool {
    &&& post.len() == pre.len()
    &&& forall|si: int|
        0 <= si < pre.len() ==> spec_selected(
            (Species { max_size: share, ..#[trigger] pre[si] }),
            post[si],
            cutoff,
        )
}

/// Every member of every species sits with the first representative that
/// accepted it: it is the species' founder (view-equal to the
/// representative) or lies within the threshold of the representative, and
/// no earlier species' representative was within the threshold (unless that
/// species was already at the population bound).
pub open spec fn clustered(ss: Seq<Species>, threshold: i64, c1: i64, c2: i64, c3: i64) -> bool {
    forall|si: int, mi: int|
        #![trigger ss[si].topologies@[mi]]
        0 <= si < ss.len() && 0 <= mi < ss[si].topologies@.len() ==> {
            let g = ss[si].topologies@[mi];
            &&& (g@ == ss[si].best_topology@ || crate::genome::spec_delta(
                g,
                ss[si].best_topology,
                c1 as int,
                c2 as int,
                c3 as int,
            ) <= threshold as int)
            &&& forall|sj: int|
                0 <= sj < si ==> crate::genome::spec_delta(
                    g,
                    (#[trigger] ss[sj]).best_topology,
                    c1 as int,
                    c2 as int,
                    c3 as int,
                ) > threshold as int || ss[sj].topologies@.len() >= 1000000
        }
}

/// Removing one species keeps the list clustered: every prefix only
/// shrinks.
pub proof fn lemma_clustered_remove(
    ss: Seq<Species>,
    i: int,
    threshold: i64,
    c1: i64,
    c2: i64,
    c3: i64,
)
    requires
        clustered(ss, threshold, c1, c2, c3),
        0 <= i < ss.len(),
    ensures
        clustered(ss.remove(i), threshold, c1, c2, c3),
{
    let r = ss.remove(i);
    assert forall|si: int, mi: int|
        0 <= si < r.len() && 0 <= mi < r[si].topologies@.len() implies {
        let g = #[trigger] r[si].topologies@[mi];
        &&& (g@ == r[si].best_topology@ || crate::genome::spec_delta(
            g,
            r[si].best_topology,
            c1 as int,
            c2 as int,
            c3 as int,
        ) <= threshold as int)
        &&& forall|sj: int|
            0 <= sj < si ==> crate::genome::spec_delta(
                g,
                (#[trigger] r[sj]).best_topology,
                c1 as int,
                c2 as int,
                c3 as int,
            ) > threshold as int || r[sj].topologies@.len() >= 1000000
    } by {
        let osi = if si < i {
            si
        } else {
            si + 1
        };
        assert(r[si] == ss[osi]);
        assert(ss[osi].topologies@[mi] == r[si].topologies@[mi]);
        assert forall|sj: int| 0 <= sj < si implies crate::genome::spec_delta(
            r[si].topologies@[mi],
            (#[trigger] r[sj]).best_topology,
            c1 as int,
            c2 as int,
            c3 as int,
        ) > threshold as int || r[sj].topologies@.len() >= 1000000 by {
            let osj = if sj < i {
                sj
            } else {
                sj + 1
            };
            assert(r[sj] == ss[osj]);
            assert(0 <= osj < osi);
        }
    }
}

pub proof fn lemma_all_members_drop_last(ss: Seq<Species>)
    requires
        ss.len() > 0,
    ensures
        all_members(ss) == all_members(ss.drop_last()).add(members_ms(ss.last().topologies@)),
    decreases ss.len(),
{
    if ss.len() == 1 {
        assert(ss.skip(1).len() == 0);
        assert(ss.drop_last().len() == 0);
        assert(all_members(ss.skip(1)) == Multiset::<GenomeView>::empty());
        assert(all_members(ss.drop_last()) == Multiset::<GenomeView>::empty());
        assert(ss.last() == ss[0]);
        assert(all_members(ss) =~= all_members(ss.drop_last()).add(
            members_ms(ss.last().topologies@),
        ));
    } else {
        lemma_all_members_drop_last(ss.skip(1));
        assert(ss.drop_last().skip(1) =~= ss.skip(1).drop_last());
        assert(ss.drop_last()[0] == ss[0]);
        assert(ss.skip(1).last() == ss.last());
        assert(all_members(ss) =~= all_members(ss.drop_last()).add(
            members_ms(ss.last().topologies@),
        ));
    }
}

pub proof fn lemma_surviving_drop_last(ss: Seq<Species>)
    requires
        ss.len() > 0,
    ensures
        surviving_members(ss) == surviving_members(ss.drop_last()).add(surviving_contrib(ss.last())),
    decreases ss.len(),
{
    if ss.len() == 1 {
        assert(ss.skip(1).len() == 0);
        assert(ss.drop_last().len() == 0);
        assert(surviving_members(ss.skip(1)) == Multiset::<GenomeView>::empty());
        assert(surviving_members(ss.drop_last()) == Multiset::<GenomeView>::empty());
        assert(ss.last() == ss[0]);
        assert(surviving_members(ss) =~= surviving_members(ss.drop_last()).add(
            surviving_contrib(ss.last()),
        ));
    } else {
        lemma_surviving_drop_last(ss.skip(1));
        assert(ss.drop_last().skip(1) =~= ss.skip(1).drop_last());
        assert(ss.drop_last()[0] == ss[0]);
        assert(ss.skip(1).last() == ss.last());
        assert(surviving_members(ss) =~= surviving_members(ss.drop_last()).add(
            surviving_contrib(ss.last()),
        ));
    }
}

pub proof fn lemma_all_members_push(ss: Seq<Species>, sp: Species)
    ensures
        all_members(ss.push(sp)) == all_members(ss).add(members_ms(sp.topologies@)),
{
    lemma_all_members_drop_last(ss.push(sp));
    assert(ss.push(sp).drop_last() =~= ss);
    assert(ss.push(sp).last() == sp);
}

/// Replacing one species by one with one more member inserts that member.
pub proof fn lemma_all_members_update_insert(
    ss: Seq<Species>,
    i: int,
    sp: Species,
    gv: GenomeView,
)
    requires
        0 <= i < ss.len(),
        members_ms(sp.topologies@) == members_ms(ss[i].topologies@).insert(gv),
    ensures
        all_members(ss.update(i, sp)) == all_members(ss).insert(gv),
    decreases ss.len(),
{
    if i == 0 {
        assert(ss.update(0, sp).skip(1) =~= ss.skip(1));
        assert(ss.update(0, sp)[0] == sp);
        assert(all_members(ss.update(0, sp)) =~= all_members(ss).insert(gv));
    } else {
        lemma_all_members_update_insert(ss.skip(1), i - 1, sp, gv);
        assert(ss.update(i, sp).skip(1) =~= ss.skip(1).update(i - 1, sp));
        assert(ss.update(i, sp)[0] == ss[0]);
        assert(all_members(ss.update(i, sp)) =~= all_members(ss).insert(gv));
    }
}

/// A list of species whose member lists are all empty holds no members.
pub proof fn lemma_all_members_empties(ss: Seq<Species>)
    requires
        forall|k: int| 0 <= k < ss.len() ==> (#[trigger] ss[k]).topologies@.len() == 0,
    ensures
        all_members(ss) == Multiset::<GenomeView>::empty(),
    decreases ss.len(),
{
    if ss.len() > 0 {
        lemma_members_empty(ss[0].topologies@);
        lemma_all_members_empties(ss.skip(1));
        assert(all_members(ss) =~= Multiset::<GenomeView>::empty());
    }
}

/// Sorts in nondecreasing order; the multiset of values is unchanged.
#[verifier::loop_isolation(false)]
fn sort_scores(v: &mut Vec<i64>)
    ensures
        final(v)@.len() == old(v)@.len(),
        forall|i: int, j: int| 0 <= i <= j < final(v)@.len() ==> final(v)@[i] <= final(v)@[j],
        final(v)@.to_multiset() == old(v)@.to_multiset(),
{
    let mut out: Vec<i64> = Vec::new();
    while v.len() > 0
        invariant
            out@.to_multiset().add(v@.to_multiset()) == old(v)@.to_multiset(),
            out@.len() + v@.len() == old(v)@.len(),
            forall|i: int, j: int| 0 <= i <= j < out@.len() ==> out@[i] <= out@[j],
            forall|i: int, j: int|
                0 <= i < out@.len() && 0 <= j < v@.len() ==> out@[i] <= v@[j],
        decreases v@.len(),
    {
        let n = v.len();
        let mut mi: usize = 0;
        for k in 1..n
            invariant
                mi < n,
                n == v@.len(),
                forall|j: int| 0 <= j < k ==> v@[mi as int] <= v@[j],
        {
            if v[k] < v[mi] {
                mi = k;
            }
        }
        let ghost pre_v = v@;
        let ghost pre_out = out@;
        let x = v.remove(mi);
        proof {
            assert(pre_v.contains(x));
            assert(pre_out.push(x).to_multiset() =~= pre_out.to_multiset().insert(x));
            assert(pre_out.push(x).to_multiset().add(v@.to_multiset()) =~= pre_out.to_multiset().add(
                pre_v.to_multiset(),
            ));
        }
        out.push(x);
    }
    proof {
        assert(v@.to_multiset() =~= Multiset::<i64>::empty());
        assert(out@.to_multiset().add(Multiset::<i64>::empty()) =~= out@.to_multiset());
    }
    *v = out;
}

pub struct Train {
    /// Number of generations to run (default 1000).
    pub iterations_: usize,
    /// Networks per generation (default 100).
    pub max_individuals_: usize,
    /// Species created at bootstrap (default 100).
    pub max_species_: usize,
    /// Maximum layers of a genome (default 4).
    pub max_layers_: usize,
    /// Maximum neurons per hidden layer (default 20).
    pub max_per_layers_: usize,
    /// Neurons on the first layer: mandatory.
    pub inputs_: Option<usize>,
    /// Neurons on the last layer: mandatory.
    pub outputs_: Option<usize>,
    /// Speciation threshold on structural distance (default 2).
    pub delta_threshold_: i64,
    /// Distance weight of excess genes (default 1).
    pub c1_: i64,
    /// Distance weight of disjoint genes (default 1).
    pub c2_: i64,
    /// Distance weight of the average matching-weight difference
    /// (default 0.4).
    pub c3_: i64,
    /// Seed of the deterministic generator driving mutation and crossover.
    pub seed_: u64,
    pub species_: Vec<Species>,
    pub history_: Vec<Genome>,
    pub ev_number_: EvNumber,
}

impl Train {
    /// The configuration the trainer accepts: both layer counts set and in
    /// range, coherent population caps, and nonnegative distance weights.
    pub open spec fn config_ok(self) -> bool {
        &&& match self.inputs_ {
            Some(v) => 1 <= v <= 4096,
            None => false,
        }
        &&& match self.outputs_ {
            Some(v) => 1 <= v <= 4096,
            None => false,
        }
        &&& 1 <= self.max_individuals_ <= 1000000
        &&& 1 <= self.max_species_ <= self.max_individuals_
        &&& 2 <= self.max_layers_ <= 64
        &&& 1 <= self.max_per_layers_ <= 1000
        &&& 0 <= self.delta_threshold_
        &&& 0 <= self.c1_
        &&& 0 <= self.c2_
        &&& 0 <= self.c3_
    }

    /// The configured input count (0 while unset).
    pub open spec fn cfg_in(self) -> int {
        match self.inputs_ {
            Some(v) => v as int,
            None => 0,
        }
    }

    /// The configured output count (0 while unset).
    pub open spec fn cfg_out(self) -> int {
        match self.outputs_ {
            Some(v) => v as int,
            None => 0,
        }
    }

    /// Every species well formed, nonempty, and of the configured
    /// dimensions.
    pub open spec fn inv(self) -> bool {
        forall|k: int|
            0 <= k < self.species_@.len() ==> (#[trigger] self.species_@[k]).wf()
                && self.species_@[k].in_count() == self.cfg_in() && self.species_@[k].out_count()
                == self.cfg_out()
    }

    /// A trainer with default parameters; inputs and outputs must be set
    /// before `start`.
    pub fn new() -> (r: Train)
        ensures
            r.iterations_ == 1000,
            r.max_individuals_ == 100,
            r.max_species_ == 100,
            r.max_layers_ == 4,
            r.max_per_layers_ == 20,
            r.inputs_ is None,
            r.outputs_ is None,
            r.delta_threshold_ == 2 * SCALE,
            r.c1_ == SCALE,
            r.c2_ == SCALE,
            r.c3_ == 26214,
            r.seed_ == 0x5eed,
            r.ev_number_.counter == 1,
            r.ev_number_.seen@.len() == 0,
            r.species_@.len() == 0,
            r.history_@.len() == 0,
    {
        Train {
            iterations_: 1000,
            max_individuals_: 100,
            max_species_: 100,
            max_layers_: 4,
            max_per_layers_: 20,
            inputs_: None,
            outputs_: None,
            delta_threshold_: 2 * SCALE,
            c1_: SCALE,
            c2_: SCALE,
            c3_: 26214,
            seed_: 0x5eed,
            species_: Vec::new(),
            history_: Vec::new(),
            ev_number_: EvNumber::new(),
        }
    }

    /// Sets the number of generations to run.
    pub fn iterations(self, it: usize) -> (r: Train)
        ensures
            r == (Train { iterations_: it, ..self }),
    {
        Train { iterations_: it, ..self }
    }

    /// Sets the number of networks per generation.
    pub fn max_individuals(self, v: usize) -> (r: Train)
        ensures
            r == (Train { max_individuals_: v, ..self }),
    {
        Train { max_individuals_: v, ..self }
    }

    /// Sets the number of species created at bootstrap.
    pub fn max_species(self, v: usize) -> (r: Train)
        ensures
            r == (Train { max_species_: v, ..self }),
    {
        Train { max_species_: v, ..self }
    }

    /// Sets the number of neurons on the first layer.
    pub fn inputs(self, v: usize) -> (r: Train)
        ensures
            r == (Train { inputs_: Some(v), ..self }),
    {
        Train { inputs_: Some(v), ..self }
    }

    /// Sets the number of neurons on the last layer.
    pub fn outputs(self, v: usize) -> (r: Train)
        ensures
            r == (Train { outputs_: Some(v), ..self }),
    {
        Train { outputs_: Some(v), ..self }
    }

    /// Sets the maximum number of layers.
    pub fn max_layers(self, v: usize) -> (r: Train)
        ensures
            r == (Train { max_layers_: v, ..self }),
    {
        Train { max_layers_: v, ..self }
    }

    /// Sets the maximum number of neurons per hidden layer.
    pub fn max_per_layers(self, v: usize) -> (r: Train)
        ensures
            r == (Train { max_per_layers_: v, ..self }),
    {
        Train { max_per_layers_: v, ..self }
    }

    /// Sets the speciation threshold on structural distance.
    pub fn delta_threshold(self, v: i64) -> (r: Train)
        ensures
            r == (Train { delta_threshold_: v, ..self }),
    {
        Train { delta_threshold_: v, ..self }
    }

    /// Sets the three structural-distance weights.
    pub fn formula(self, c1: i64, c2: i64, c3: i64) -> (r: Train)
        ensures
            r == (Train { c1_: c1, c2_: c2, c3_: c3, ..self }),
    {
        Train { c1_: c1, c2_: c2, c3_: c3, ..self }
    }

    /// Sets the seed of the deterministic generator.
    pub fn seed(self, v: u64) -> (r: Train)
        ensures
            r == (Train { seed_: v, ..self }),
    {
        Train { seed_: v, ..self }
    }

    /// The current number of species.
    pub fn species_count(&self) -> (r: usize)
        ensures
            r == self.species_@.len(),
    {
        self.species_.len()
    }

    /// Copies of all member genomes, species by species, member by member:
    /// the trainer's flattening order.
    #[verifier::loop_isolation(false)]
    fn get_topologies(&self) -> (r: Vec<Genome>)
        requires
            self.inv(),
        ensures
            r@.map_values(|g: Genome| g@) == spec_population(self.species_@),
            forall|k: int|
                0 <= k < r@.len() ==> (#[trigger] r@[k]).wf() && r@[k].input_count()
                    == self.cfg_in() && r@[k].output_count() == self.cfg_out(),
    {
        let mut r: Vec<Genome> = Vec::new();
        let ns = self.species_.len();
        for si in 0..ns
            invariant
                ns == self.species_@.len(),
                r@.map_values(|g: Genome| g@) == flatten_views(self.species_@, si as int),
                forall|k: int|
                    0 <= k < r@.len() ==> (#[trigger] r@[k]).wf() && r@[k].input_count()
                        == self.cfg_in() && r@[k].output_count() == self.cfg_out(),
        {
            let nm = self.species_[si].topologies.len();
            for mi in 0..nm
                invariant
                    si < ns,
                    nm == self.species_@[si as int].topologies@.len(),
                    r@.map_values(|g: Genome| g@) == flatten_views(self.species_@, si as int)
                        + self.species_@[si as int].topologies@.map_values(|g: Genome| g@).take(
                        mi as int,
                    ),
                    forall|k: int|
                        0 <= k < r@.len() ==> (#[trigger] r@[k]).wf() && r@[k].input_count()
                            == self.cfg_in() && r@[k].output_count() == self.cfg_out(),
            {
                let ghost pre_map = r@.map_values(|g: Genome| g@);
                let c = self.species_[si].topologies[mi].duplicate();
                r.push(c);
                proof {
                    let members = self.species_@[si as int].topologies@.map_values(
                        |g: Genome| g@,
                    );
                    assert(r@.map_values(|g: Genome| g@) =~= pre_map.push(c@));
                    assert(members.take(mi as int).push(members[mi as int]) =~= members.take(
                        mi as int + 1,
                    ));
                    assert(r@.map_values(|g: Genome| g@) =~= flatten_views(
                        self.species_@,
                        si as int,
                    ) + members.take(mi as int + 1));
                }
            }
            proof {
                let members = self.species_@[si as int].topologies@.map_values(|g: Genome| g@);
                assert(members.take(nm as int) =~= members);
                assert(flatten_views(self.species_@, si as int) + members =~= flatten_views(
                    self.species_@,
                    si as int + 1,
                ));
            }
        }
        r
    }

    /// One freshly built network per genome, in order: the network at index
    /// `k` is exactly the build of the genome at index `k`.
    #[verifier::loop_isolation(false)]
    pub fn build_population(tops: &Vec<Genome>) -> (nets: Vec<NeuralNetwork>)
        requires
            forall|k: int| 0 <= k < tops@.len() ==> (#[trigger] tops@[k]).wf(),
        ensures
            nets@.len() == tops@.len(),
            forall|k: int|
                0 <= k < nets@.len() ==> (#[trigger] nets@[k]).wf() && nets@[k].input_size as int
                    == tops@[k].input_count() && nets@[k].output_size as int
                    == tops@[k].output_count() && nets@[k].n_neurons as int == spec_total(
                    tops@[k].layer_sizes@,
                ) && nets@[k].biases@ == spec_net_biases(tops@[k]) && nets@[k].edges@
                    == spec_net_edges(tops@[k]) && nets@[k].memories@.len()
                    == nets@[k].edges@.len() && (forall|j: int|
                    0 <= j < nets@[k].memories@.len() ==> nets@[k].memories@[j] == 0i64),
    {
        let nt = tops.len();
        let mut nets: Vec<NeuralNetwork> = Vec::new();
        for ti in 0..nt
            invariant
                nt == tops@.len(),
                nets@.len() == ti,
                forall|k: int|
                    0 <= k < nets@.len() ==> (#[trigger] nets@[k]).wf() && nets@[k].input_size as int
                        == tops@[k].input_count() && nets@[k].output_size as int
                        == tops@[k].output_count() && nets@[k].n_neurons as int == spec_total(
                        tops@[k].layer_sizes@,
                    ) && nets@[k].biases@ == spec_net_biases(tops@[k]) && nets@[k].edges@
                        == spec_net_edges(tops@[k]) && nets@[k].memories@.len()
                        == nets@[k].edges@.len() && (forall|j: int|
                        0 <= j < nets@[k].memories@.len() ==> nets@[k].memories@[j] == 0i64),
        {
            nets.push(NeuralNetwork::new(&tops[ti]));
        }
        nets
    }

    /// Records each species' best genome in the history, rebuilds one
    /// network per genome in flattening order, and hands them to the
    /// evaluator.
    #[verifier::loop_isolation(false)]
    #[verifier::rlimit(60)]
    pub fn reset_players<S: Game>(&mut self, simulation: &mut S)
        requires
            old(self).inv(),
        ensures
            final(self).inv(),
            final(self).species_@ == old(self).species_@,
            final(self).inputs_ == old(self).inputs_,
            final(self).outputs_ == old(self).outputs_,
            final(self).iterations_ == old(self).iterations_,
            final(self).delta_threshold_ == old(self).delta_threshold_,
            final(self).c1_ == old(self).c1_,
            final(self).c2_ == old(self).c2_,
            final(self).c3_ == old(self).c3_,
            final(self).max_per_layers_ == old(self).max_per_layers_,
            final(self).history_@.len() == old(self).history_@.len() + old(self).species_@.len(),
            forall|j: int|
                0 <= j < old(self).history_@.len() ==> #[trigger] final(self).history_@[j] == old(self).history_@[j],
            forall|si: int|
                0 <= si < old(self).species_@.len() ==> {
                    let h = #[trigger] final(self).history_@[old(self).history_@.len() + si];
                    &&& h.wf()
                    &&& exists|mi: int|
                        0 <= mi < old(self).species_@[si].topologies@.len() && h@ == (
                        #[trigger] old(self).species_@[si].topologies@[mi])@
                    &&& forall|mi: int|
                        0 <= mi < old(self).species_@[si].topologies@.len() ==> (#[trigger] old(self).species_@[si].topologies@[mi]).last_fitness <= h.last_fitness
                },
    {
        let ns = self.species_.len();
        for si in 0..ns
            invariant
                ns == self.species_@.len(),
                self.species_@ == old(self).species_@,
                self.inv(),
                self.inputs_ == old(self).inputs_,
                self.outputs_ == old(self).outputs_,
                self.iterations_ == old(self).iterations_,
                self.delta_threshold_ == old(self).delta_threshold_,
                self.c1_ == old(self).c1_,
                self.c2_ == old(self).c2_,
                self.c3_ == old(self).c3_,
                self.max_per_layers_ == old(self).max_per_layers_,
                self.history_@.len() == old(self).history_@.len() + si,
                forall|j: int|
                    0 <= j < old(self).history_@.len() ==> #[trigger] self.history_@[j] == old(self).history_@[j],
                forall|sj: int|
                    0 <= sj < si ==> {
                        let h = #[trigger] self.history_@[old(self).history_@.len() + sj];
                        &&& h.wf()
                        &&& exists|mi: int|
                            0 <= mi < old(self).species_@[sj].topologies@.len() && h@ == (
                            #[trigger] old(self).species_@[sj].topologies@[mi])@
                        &&& forall|mi: int|
                            0 <= mi < old(self).species_@[sj].topologies@.len() ==> (#[trigger] old(self).species_@[sj].topologies@[mi]).last_fitness <= h.last_fitness
                    },
        {
            let best = self.species_[si].get_best();
            let ghost bv = best@;
            let ghost bw = best;
            self.history_.push(best);
            proof {
                let oldlen = old(self).history_@.len() as int;
                assert(self.history_@[oldlen + si as int] == bw);
                let mi = choose|mi: int|
                    0 <= mi < self.species_@[si as int].topologies@.len() && bv == (
                    #[trigger] self.species_@[si as int].topologies@[mi])@;
                assert(0 <= mi < old(self).species_@[si as int].topologies@.len() && bw@ == (
                old(self).species_@[si as int].topologies@[mi])@);
            }
        }
        proof {
            assert(forall|si: int|
                0 <= si < old(self).species_@.len() ==> {
                    let h = #[trigger] self.history_@[old(self).history_@.len() + si];
                    &&& h.wf()
                    &&& exists|mi: int|
                        0 <= mi < old(self).species_@[si].topologies@.len() && h@ == (
                        #[trigger] old(self).species_@[si].topologies@[mi])@
                    &&& forall|mi: int|
                        0 <= mi < old(self).species_@[si].topologies@.len() ==> (#[trigger] old(self).species_@[si].topologies@[mi]).last_fitness
                            <= h.last_fitness
                });
        }
        let tops = self.get_topologies();
        let networks = Train::build_population(&tops);
        simulation.reset_players(networks);
    }

    /// Writes one score per genome back, in flattening order.
    #[verifier::loop_isolation(false)]
    pub fn set_last_results(&mut self, results: &Vec<i64>)
        requires
            old(self).inv(),
        ensures
            final(self).inv(),
            final(self).species_@.len() == old(self).species_@.len(),
            final(self).inputs_ == old(self).inputs_,
            final(self).outputs_ == old(self).outputs_,
            final(self).iterations_ == old(self).iterations_,
            final(self).delta_threshold_ == old(self).delta_threshold_,
            final(self).c1_ == old(self).c1_,
            final(self).c2_ == old(self).c2_,
            final(self).c3_ == old(self).c3_,
            final(self).max_per_layers_ == old(self).max_per_layers_,
            final(self).history_@ == old(self).history_@,
            forall|si: int|
                0 <= si < final(self).species_@.len() ==> (#[trigger] final(self).species_@[si]).topologies@.len()
                    == old(self).species_@[si].topologies@.len(),
            forall|si: int, mi: int|
                #![trigger final(self).species_@[si].topologies@[mi]]
                0 <= si < final(self).species_@.len() && 0 <= mi
                    < final(self).species_@[si].topologies@.len() ==> final(self).species_@[si].topologies@[mi]@ == (GenomeView {
                    last_fitness: if members_before(old(self).species_@, si) + mi
                        < results@.len() {
                        results@[members_before(old(self).species_@, si) + mi]
                    } else {
                        old(self).species_@[si].topologies@[mi].last_fitness
                    },
                    ..old(self).species_@[si].topologies@[mi]@
                }),
    {
        let mut offset: usize = 0;
        let ns = self.species_.len();
        for si in 0..ns
            invariant
                ns == self.species_@.len(),
                offset <= results@.len(),
                offset as int == if members_before(old(self).species_@, si as int)
                    <= results@.len() {
                    members_before(old(self).species_@, si as int)
                } else {
                    results@.len() as int
                },
                self.inv(),
                self.inputs_ == old(self).inputs_,
                self.outputs_ == old(self).outputs_,
                self.iterations_ == old(self).iterations_,
                self.delta_threshold_ == old(self).delta_threshold_,
                self.c1_ == old(self).c1_,
                self.c2_ == old(self).c2_,
                self.c3_ == old(self).c3_,
                self.max_per_layers_ == old(self).max_per_layers_,
                self.history_@ == old(self).history_@,
                forall|sj: int|
                    si <= sj < ns ==> #[trigger] self.species_@[sj] == old(self).species_@[sj],
                forall|sj: int|
                    0 <= sj < si ==> (#[trigger] self.species_@[sj]).topologies@.len() == old(self).species_@[sj].topologies@.len(),
                forall|sj: int, mi: int|
                    #![trigger self.species_@[sj].topologies@[mi]]
                    0 <= sj < si && 0 <= mi < self.species_@[sj].topologies@.len()
                        ==> self.species_@[sj].topologies@[mi]@ == (GenomeView {
                        last_fitness: if members_before(old(self).species_@, sj) + mi
                            < results@.len() {
                            results@[members_before(old(self).species_@, sj) + mi]
                        } else {
                            old(self).species_@[sj].topologies@[mi].last_fitness
                        },
                        ..old(self).species_@[sj].topologies@[mi]@
                    }),
        {
            let ghost pre = self.species_@;
            let ghost mb = members_before(old(self).species_@, si as int);
            let sp = &mut self.species_[si];
            offset = sp.assign_results(results, offset);
            proof {
                assert(forall|k: int|
                    0 <= k < self.species_@.len() && k != si ==> self.species_@[k] == pre[k]);
                assert(members_before(old(self).species_@, si as int + 1) == mb + old(self).species_@[si as int].topologies@.len());
                assert(forall|mi: int|
                    #![trigger self.species_@[si as int].topologies@[mi]]
                    0 <= mi < self.species_@[si as int].topologies@.len()
                        ==> self.species_@[si as int].topologies@[mi]@ == (GenomeView {
                        last_fitness: if mb + mi < results@.len() {
                            results@[mb + mi]
                        } else {
                            old(self).species_@[si as int].topologies@[mi].last_fitness
                        },
                        ..old(self).species_@[si as int].topologies@[mi]@
                    }));
            }
        }
    }

    /// Computes the population-wide cutoff (the median adjusted fitness),
    /// resets the innovation registry, and runs selection in every species.
    #[verifier::loop_isolation(false)]
    pub fn natural_selection(&mut self, rng: &mut Rng)
        requires
            old(self).inv(),
        ensures
            final(self).inv(),
            final(self).species_@.len() == old(self).species_@.len(),
            final(self).inputs_ == old(self).inputs_,
            final(self).outputs_ == old(self).outputs_,
            final(self).iterations_ == old(self).iterations_,
            final(self).delta_threshold_ == old(self).delta_threshold_,
            final(self).c1_ == old(self).c1_,
            final(self).c2_ == old(self).c2_,
            final(self).c3_ == old(self).c3_,
            final(self).max_per_layers_ == old(self).max_per_layers_,
            final(self).history_@ == old(self).history_@,
            final(self).max_individuals_ == old(self).max_individuals_,
            old(self).species_@.len() > 0 ==> exists|cutoff: i64|
                {
                    let ns = old(self).species_@.len() as int;
                    let per = old(self).max_individuals_ as int / ns;
                    let share = if per == 0 {
                        1int
                    } else {
                        per
                    };
                    &&& #[trigger] is_median(
                        cutoff,
                        adjusted_views(old(self).species_@, old(self).species_@.len() as int),
                    )
                    &&& all_selected(
                        old(self).species_@,
                        final(self).species_@,
                        share as usize,
                        cutoff,
                    )
                },
    {
        let ns = self.species_.len();
        if ns == 0 {
            return ;
        }
        let mut adjusted: Vec<i64> = Vec::new();
        for si in 0..ns
            invariant
                ns == self.species_@.len(),
                *self == *old(self),
                self.inv(),
                adjusted@ == adjusted_views(self.species_@, si as int),
        {
            let len = self.species_[si].topologies.len();
            for mi in 0..len
                invariant
                    si < ns,
                    len == self.species_@[si as int].topologies@.len(),
                    len >= 1,
                    *self == *old(self),
                    adjusted@ == adjusted_views(self.species_@, si as int)
                        + self.species_@[si as int].topologies@.map_values(
                        |g: Genome|
                            crate::fixed::spec_div_count(
                                g.last_fitness as int,
                                self.species_@[si as int].topologies@.len() as int,
                            ) as i64,
                    ).take(mi as int),
            {
                let ghost pre_adj = adjusted@;
                let f = self.species_[si].topologies[mi].last_fitness;
                adjusted.push(fx_div_count(f, len));
                proof {
                    let row = self.species_@[si as int].topologies@.map_values(
                        |g: Genome|
                            crate::fixed::spec_div_count(
                                g.last_fitness as int,
                                self.species_@[si as int].topologies@.len() as int,
                            ) as i64,
                    );
                    assert(row.take(mi as int).push(row[mi as int]) =~= row.take(mi as int + 1));
                    assert(adjusted@ =~= adjusted_views(self.species_@, si as int) + row.take(
                        mi as int + 1,
                    ));
                }
            }
            proof {
                let row = self.species_@[si as int].topologies@.map_values(
                    |g: Genome|
                        crate::fixed::spec_div_count(
                            g.last_fitness as int,
                            self.species_@[si as int].topologies@.len() as int,
                        ) as i64,
                );
                assert(row.take(len as int) =~= row);
                assert(adjusted@ =~= adjusted_views(self.species_@, si as int + 1));
            }
        }
        if adjusted.len() == 0 {
            return ;
        }
        let ghost unsorted = adjusted@;
        sort_scores(&mut adjusted);
        let cutoff = adjusted[adjusted.len() / 2];
        proof {
            assert(is_median(cutoff, unsorted)) by {
                assert(adjusted@.to_multiset() == unsorted.to_multiset());
            }
        }
        self.ev_number_.reset();
        // share the configured population evenly among the current species
        let per = self.max_individuals_ / ns;
        let share = if per == 0 {
            1
        } else {
            per
        };
        for si in 0..ns
            invariant
                ns == self.species_@.len(),
                self.inv(),
                self.inputs_ == old(self).inputs_,
                self.outputs_ == old(self).outputs_,
                self.iterations_ == old(self).iterations_,
                self.delta_threshold_ == old(self).delta_threshold_,
                self.c1_ == old(self).c1_,
                self.c2_ == old(self).c2_,
                self.c3_ == old(self).c3_,
                self.max_per_layers_ == old(self).max_per_layers_,
                self.max_individuals_ == old(self).max_individuals_,
                self.history_@ == old(self).history_@,
                forall|sj: int|
                    si <= sj < ns ==> #[trigger] self.species_@[sj] == old(self).species_@[sj],
                forall|sj: int|
                    0 <= sj < si ==> spec_selected(
                        (Species { max_size: share, ..#[trigger] old(self).species_@[sj] }),
                        self.species_@[sj],
                        cutoff,
                    ),
        {
            let ghost pre = self.species_@;
            let sp = &mut self.species_[si];
            let ghost before_set = *sp;
            sp.set_max_size(share);
            let ghost after_set = *sp;
            sp.natural_selection(&mut self.ev_number_, rng, cutoff);
            proof {
                assert(forall|k: int|
                    0 <= k < self.species_@.len() && k != si ==> self.species_@[k] == pre[k]);
                let bi = choose|bi: int|
                    #[trigger] crate::species::selected_witness(
                        after_set,
                        self.species_@[si as int],
                        cutoff,
                        bi,
                    );
                let named = Species { max_size: share, ..old(self).species_@[si as int] };
                assert(named.topologies@ == after_set.topologies@);
                assert(named.max_size == after_set.max_size);
                assert(crate::species::spec_keep(
                    named.topologies@,
                    named.topologies@.len() as int,
                    cutoff,
                    bi,
                    named.topologies@.len() as int,
                ) == crate::species::spec_keep(
                    after_set.topologies@,
                    after_set.topologies@.len() as int,
                    cutoff,
                    bi,
                    after_set.topologies@.len() as int,
                ));
                assert(crate::species::selected_witness(
                    named,
                    self.species_@[si as int],
                    cutoff,
                    bi,
                ));
            }
        }
        proof {
            assert(is_median(cutoff, adjusted_views(old(self).species_@, ns as int)));
        }
    }

    /// Dissolves species stagnant for 20 generations, then re-clusters every
    /// surviving genome: each goes to the first species whose representative
    /// lies within the distance threshold, else founds a new species. The
    /// resulting members are exactly the surviving genomes: none lost, none
    /// duplicated.
    #[verifier::loop_isolation(false)]
    pub fn reset_species(&mut self)
        requires
            old(self).inv(),
        ensures
            final(self).inv(),
            all_members(final(self).species_@) == surviving_members(old(self).species_@),
            clustered(
                final(self).species_@,
                old(self).delta_threshold_,
                old(self).c1_,
                old(self).c2_,
                old(self).c3_,
            ),
            forall|k: int|
                0 <= k < final(self).species_@.len() ==> (#[trigger] final(self).species_@[k]).stagnation_counter
                    < 20 && final(self).species_@[k].topologies@.len() >= 1,
            final(self).inputs_ == old(self).inputs_,
            final(self).outputs_ == old(self).outputs_,
            final(self).iterations_ == old(self).iterations_,
            final(self).delta_threshold_ == old(self).delta_threshold_,
            final(self).c1_ == old(self).c1_,
            final(self).c2_ == old(self).c2_,
            final(self).c3_ == old(self).c3_,
            final(self).max_per_layers_ == old(self).max_per_layers_,
            final(self).history_@ == old(self).history_@,
    {
        let mut pool: Vec<Genome> = Vec::new();
        let mut reps: Vec<Species> = Vec::new();
        while self.species_.len() > 0
            invariant
                members_ms(pool@).add(surviving_members(self.species_@)) == surviving_members(
                    old(self).species_@,
                ),
                self.inv(),
                self.inputs_ == old(self).inputs_,
                self.outputs_ == old(self).outputs_,
                self.iterations_ == old(self).iterations_,
                self.delta_threshold_ == old(self).delta_threshold_,
                self.c1_ == old(self).c1_,
                self.c2_ == old(self).c2_,
                self.c3_ == old(self).c3_,
                self.max_per_layers_ == old(self).max_per_layers_,
                self.history_@ == old(self).history_@,
                forall|k: int|
                    0 <= k < pool@.len() ==> (#[trigger] pool@[k]).wf() && pool@[k].input_count()
                        == old(self).cfg_in() && pool@[k].output_count() == old(self).cfg_out(),
                forall|k: int|
                    0 <= k < reps@.len() ==> (#[trigger] reps@[k]).topologies@.len() == 0
                        && reps@[k].best_topology.wf() && reps@[k].in_count() == old(self).cfg_in()
                        && reps@[k].out_count() == old(self).cfg_out()
                        && reps@[k].stagnation_counter < 20,
            decreases self.species_@.len(),
        {
            let ghost pre_species = self.species_@;
            let ghost pre_pool = pool@;
            let mut sp = self.species_.pop().unwrap();
            proof {
                lemma_surviving_drop_last(pre_species);
            }
            if sp.stagnation_counter < 20 {
                let mut drained = sp.drain();
                proof {
                    assert(surviving_contrib(pre_species.last()) == members_ms(
                        pre_species.last().topologies@,
                    ));
                }
                while drained.len() > 0
                    invariant
                        members_ms(pool@).add(members_ms(drained@)).add(
                            surviving_members(self.species_@),
                        ) == surviving_members(old(self).species_@),
                        forall|k: int|
                            0 <= k < pool@.len() ==> (#[trigger] pool@[k]).wf()
                                && pool@[k].input_count() == old(self).cfg_in()
                                && pool@[k].output_count() == old(self).cfg_out(),
                        forall|k: int|
                            0 <= k < drained@.len() ==> (#[trigger] drained@[k]).wf()
                                && drained@[k].input_count() == old(self).cfg_in()
                                && drained@[k].output_count() == old(self).cfg_out(),
                    decreases drained@.len(),
                {
                    let ghost pre_d = drained@;
                    let ghost pre_p = pool@;
                    let g = drained.pop().unwrap();
                    proof {
                        crate::species::lemma_members_drop_last(pre_d);
                        lemma_members_push(pre_p, g);
                        assert(members_ms(pre_p.push(g)).add(members_ms(drained@)) =~= members_ms(
                            pre_p,
                        ).add(members_ms(pre_d)));
                        assert(members_ms(pre_p.push(g)).add(members_ms(drained@)).add(
                            surviving_members(self.species_@),
                        ) =~= members_ms(pre_p).add(members_ms(pre_d)).add(
                            surviving_members(self.species_@),
                        ));
                    }
                    pool.push(g);
                }
                proof {
                    lemma_members_empty(drained@);
                    assert(members_ms(pool@).add(Multiset::<GenomeView>::empty()).add(
                        surviving_members(self.species_@),
                    ) =~= members_ms(pool@).add(surviving_members(self.species_@)));
                }
                reps.push(sp);
            } else {
                proof {
                    assert(surviving_contrib(pre_species.last())
                        == Multiset::<GenomeView>::empty());
                    assert(members_ms(pool@).add(Multiset::<GenomeView>::empty()).add(
                        surviving_members(self.species_@),
                    ) =~= members_ms(pool@).add(surviving_members(self.species_@)));
                }
            }
        }
        proof {
            assert(surviving_members(self.species_@) == Multiset::<GenomeView>::empty());
            assert(members_ms(pool@).add(Multiset::<GenomeView>::empty()) =~= members_ms(pool@));
            lemma_all_members_empties(reps@);
            assert(members_ms(pool@).add(all_members(reps@)) =~= members_ms(pool@));
        }
        let threshold = self.delta_threshold_;
        let c1 = self.c1_;
        let c2 = self.c2_;
        let c3 = self.c3_;
        assert(clustered(reps@, threshold, c1, c2, c3));
        while pool.len() > 0
            invariant
                members_ms(pool@).add(all_members(reps@)) == surviving_members(old(self).species_@),
                clustered(reps@, threshold, c1, c2, c3),
                threshold == old(self).delta_threshold_,
                c1 == old(self).c1_,
                c2 == old(self).c2_,
                c3 == old(self).c3_,
                forall|k: int|
                    0 <= k < pool@.len() ==> (#[trigger] pool@[k]).wf() && pool@[k].input_count()
                        == old(self).cfg_in() && pool@[k].output_count() == old(self).cfg_out(),
                forall|k: int|
                    0 <= k < reps@.len() ==> (#[trigger] reps@[k]).best_topology.wf()
                        && reps@[k].in_count() == old(self).cfg_in() && reps@[k].out_count()
                        == old(self).cfg_out() && reps@[k].stagnation_counter < 20
                        && reps@[k].topologies@.len() <= 1000000 && (forall|m: int|
                        0 <= m < reps@[k].topologies@.len() ==> (#[trigger] reps@[k].topologies@[m]).wf()
                            && reps@[k].topologies@[m].input_count() == old(self).cfg_in()
                            && reps@[k].topologies@[m].output_count() == old(self).cfg_out()),
            decreases pool@.len(),
        {
            let ghost pre_pool = pool@;
            let g = pool.pop().unwrap();
            proof {
                crate::species::lemma_members_drop_last(pre_pool);
            }
            let ns = reps.len();
            let mut target: usize = ns;
            for si in 0..ns
                invariant
                    ns == reps@.len(),
                    g.wf(),
                    target == ns || target < si,
                    target == ns ==> forall|j: int|
                        0 <= j < si ==> crate::genome::spec_delta(
                            g,
                            (#[trigger] reps@[j]).best_topology,
                            c1 as int,
                            c2 as int,
                            c3 as int,
                        ) > threshold as int || reps@[j].topologies@.len() >= 1000000,
                    target < ns ==> crate::genome::spec_delta(
                        g,
                        reps@[target as int].best_topology,
                        c1 as int,
                        c2 as int,
                        c3 as int,
                    ) <= threshold as int && reps@[target as int].topologies@.len() < 1000000 && (
                    forall|j: int|
                        0 <= j < target ==> crate::genome::spec_delta(
                            g,
                            (#[trigger] reps@[j]).best_topology,
                            c1 as int,
                            c2 as int,
                            c3 as int,
                        ) > threshold as int || reps@[j].topologies@.len() >= 1000000),
            {
                if target == ns && reps[si].topologies.len() < 1000000 {
                    let delta = Genome::delta_compatibility(
                        &g,
                        &reps[si].best_topology,
                        c1,
                        c2,
                        c3,
                    );
                    if delta <= threshold {
                        target = si;
                    }
                }
            }
            if target < ns {
                let ghost pre_reps = reps@;
                let ghost pre_sp = reps@[target as int];
                let ghost gv = g@;
                let ghost gg2 = g;
                let sp = &mut reps[target];
                let ghost pre_tops = sp.topologies@;
                sp.topologies.push(g);
                proof {
                    lemma_members_push(pre_tops, g);
                    lemma_all_members_update_insert(
                        pre_reps,
                        target as int,
                        reps@[target as int],
                        gv,
                    );
                    assert(reps@ =~= pre_reps.update(target as int, reps@[target as int]));
                    assert(members_ms(pool@).insert(gv).add(all_members(pre_reps)) =~= members_ms(
                        pre_pool,
                    ).add(all_members(pre_reps)));
                    assert(members_ms(pool@).add(all_members(pre_reps).insert(gv)) =~= members_ms(
                        pool@,
                    ).insert(gv).add(all_members(pre_reps)));
                    assert(clustered(reps@, threshold, c1, c2, c3)) by {
                        assert forall|si: int, mi: int|
                            0 <= si < reps@.len() && 0 <= mi
                                < reps@[si].topologies@.len() implies {
                            let m = #[trigger] reps@[si].topologies@[mi];
                            &&& (m@ == reps@[si].best_topology@ || crate::genome::spec_delta(
                                m,
                                reps@[si].best_topology,
                                c1 as int,
                                c2 as int,
                                c3 as int,
                            ) <= threshold as int)
                            &&& forall|sj: int|
                                0 <= sj < si ==> crate::genome::spec_delta(
                                    m,
                                    (#[trigger] reps@[sj]).best_topology,
                                    c1 as int,
                                    c2 as int,
                                    c3 as int,
                                ) > threshold as int || reps@[sj].topologies@.len() >= 1000000
                        } by {
                            if si == target as int && mi == pre_sp.topologies@.len() as int {
                                assert(reps@[si].topologies@[mi] == gg2);
                            } else if si == target as int {
                                assert(reps@[si].topologies@[mi] == pre_sp.topologies@[mi]);
                                assert(pre_reps[si].topologies@[mi] == pre_sp.topologies@[mi]);
                            } else {
                                assert(reps@[si] == pre_reps[si]);
                            }
                        }
                    }
                }
            } else {
                let ghost pre_reps = reps@;
                let ghost gv = g@;
                let ghost gg = g;
                let sp = Species::new(g, 1);
                proof {
                    lemma_members_push(Seq::<Genome>::empty(), gg);
                    lemma_members_empty(Seq::<Genome>::empty());
                    assert(seq![gg] =~= Seq::<Genome>::empty().push(gg));
                    assert(members_ms(sp.topologies@) =~= Multiset::<GenomeView>::empty().insert(
                        gv,
                    ));
                }
                let ghost spv = sp;
                reps.push(sp);
                proof {
                    lemma_all_members_push(pre_reps, spv);
                    assert(members_ms(spv.topologies@) =~= Multiset::<GenomeView>::empty().insert(
                        gv,
                    ));
                    assert(members_ms(pool@).add(all_members(pre_reps).add(members_ms(
                        spv.topologies@,
                    ))) =~= members_ms(pre_pool).add(all_members(pre_reps)));
                    assert(clustered(reps@, threshold, c1, c2, c3)) by {
                        assert forall|si: int, mi: int|
                            0 <= si < reps@.len() && 0 <= mi
                                < reps@[si].topologies@.len() implies {
                            let m = #[trigger] reps@[si].topologies@[mi];
                            &&& (m@ == reps@[si].best_topology@ || crate::genome::spec_delta(
                                m,
                                reps@[si].best_topology,
                                c1 as int,
                                c2 as int,
                                c3 as int,
                            ) <= threshold as int)
                            &&& forall|sj: int|
                                0 <= sj < si ==> crate::genome::spec_delta(
                                    m,
                                    (#[trigger] reps@[sj]).best_topology,
                                    c1 as int,
                                    c2 as int,
                                    c3 as int,
                                ) > threshold as int || reps@[sj].topologies@.len() >= 1000000
                        } by {
                            if si == pre_reps.len() as int {
                                assert(reps@[si] == spv);
                                assert(spv.topologies@ == seq![gg]);
                                assert(reps@[si].topologies@[mi] == gg);
                                assert(gg@ == spv.best_topology@);
                            } else {
                                assert(reps@[si] == pre_reps[si]);
                            }
                        }
                    }
                }
            }
        }
        proof {
            lemma_members_empty(pool@);
            assert(Multiset::<GenomeView>::empty().add(all_members(reps@)) =~= all_members(reps@));
        }
        let mut kept: Vec<Species> = Vec::new();
        assert(Seq::<Species>::empty() + reps@ =~= reps@);
        while reps.len() > 0
            invariant
                all_members(kept@).add(all_members(reps@)) == surviving_members(old(self).species_@),
                clustered(kept@ + reps@, threshold, c1, c2, c3),
                threshold == old(self).delta_threshold_,
                c1 == old(self).c1_,
                c2 == old(self).c2_,
                c3 == old(self).c3_,
                forall|k: int|
                    0 <= k < reps@.len() ==> (#[trigger] reps@[k]).best_topology.wf()
                        && reps@[k].in_count() == old(self).cfg_in() && reps@[k].out_count()
                        == old(self).cfg_out() && reps@[k].stagnation_counter < 20
                        && reps@[k].topologies@.len() <= 1000000 && (forall|m: int|
                        0 <= m < reps@[k].topologies@.len() ==> (#[trigger] reps@[k].topologies@[m]).wf()
                            && reps@[k].topologies@[m].input_count() == old(self).cfg_in()
                            && reps@[k].topologies@[m].output_count() == old(self).cfg_out()),
                forall|k: int|
                    0 <= k < kept@.len() ==> (#[trigger] kept@[k]).wf() && kept@[k].in_count()
                        == old(self).cfg_in() && kept@[k].out_count() == old(self).cfg_out()
                        && kept@[k].stagnation_counter < 20 && kept@[k].topologies@.len() >= 1,
            decreases reps@.len(),
        {
            let ghost pre_reps = reps@;
            let ghost pre_kept = kept@;
            let sp = reps.remove(0);
            proof {
                assert(reps@ =~= pre_reps.skip(1));
                assert(pre_reps[0] == sp);
                assert(all_members(pre_reps) == members_ms(sp.topologies@).add(
                    all_members(reps@),
                ));
            }
            if sp.topologies.len() > 0 {
                reps_keep(&mut kept, sp);
                proof {
                    assert(all_members(kept@).add(all_members(reps@)) =~= all_members(
                        pre_kept,
                    ).add(all_members(pre_reps)));
                    assert(kept@ + reps@ =~= pre_kept + pre_reps);
                }
            } else {
                proof {
                    lemma_members_empty(sp.topologies@);
                    assert(all_members(kept@).add(all_members(reps@)) =~= all_members(
                        pre_kept,
                    ).add(all_members(pre_reps)));
                    lemma_clustered_remove(
                        pre_kept + pre_reps,
                        pre_kept.len() as int,
                        threshold,
                        c1,
                        c2,
                        c3,
                    );
                    assert((pre_kept + pre_reps).remove(pre_kept.len() as int) =~= kept@ + reps@);
                }
            }
        }
        proof {
            assert(all_members(reps@) == Multiset::<GenomeView>::empty());
            assert(all_members(kept@).add(Multiset::<GenomeView>::empty()) =~= all_members(kept@));
            assert(kept@ + reps@ =~= kept@);
        }
        self.species_ = kept;
    }

    /// Runs the configured number of generations against the evaluator,
    /// stopping early if every species goes extinct; the history of best
    /// genomes is delivered to the evaluator's completion hook. Fails fast,
    /// touching nothing, exactly when the configuration is invalid.
    #[verifier::loop_isolation(false)]
    pub fn start<S: Game>(&mut self, simulation: &mut S) -> (r: Result<(), NeatError>)
        ensures
            (r is Err) <==> !old(self).config_ok(),
            !old(self).config_ok() ==> *final(self) == *old(self),
            r is Ok ==> final(self).inv(),
            r is Ok ==> forall|k: int|
                0 <= k < final(self).species_@.len() ==> (#[trigger] final(self).species_@[k]).stagnation_counter
                    < 20,
            r is Ok ==> forall|j: int|
                0 <= j < final(self).history_@.len() ==> (#[trigger] final(self).history_@[j]).wf()
                    && final(self).history_@[j].input_count() == final(self).cfg_in() && final(self).history_@[j].output_count() == final(self).cfg_out(),
    {
        if !self.config_check() {
            return Err(NeatError::Configuration);
        }
        let inputs = match self.inputs_ {
            Some(v) => v,
            None => {
                return Err(NeatError::Configuration);
            },
        };
        let outputs = match self.outputs_ {
            Some(v) => v,
            None => {
                return Err(NeatError::Configuration);
            },
        };
        let mut rng = Rng::new(self.seed_);
        let per = self.max_individuals_ / self.max_species_;
        let count = if per == 0 {
            1
        } else if per > 1000000 {
            1000000
        } else {
            per
        };
        self.species_.clear();
        self.history_.clear();
        let n_species = self.max_species_;
        for _si in 0..n_species
            invariant
                self.inv(),
                1 <= count <= 1000000,
                self.inputs_ == old(self).inputs_,
                self.outputs_ == old(self).outputs_,
                self.iterations_ == old(self).iterations_,
                self.delta_threshold_ == old(self).delta_threshold_,
                self.c1_ == old(self).c1_,
                self.c2_ == old(self).c2_,
                self.c3_ == old(self).c3_,
                self.max_layers_ == old(self).max_layers_,
                self.max_per_layers_ == old(self).max_per_layers_,
                old(self).config_ok(),
                self.history_@.len() == 0,
                forall|k: int|
                    0 <= k < self.species_@.len() ==> (#[trigger] self.species_@[k]).stagnation_counter
                        < 20,
        {
            let sp = Species::new_random(
                count,
                inputs,
                outputs,
                self.max_layers_,
                self.max_per_layers_,
                &mut self.ev_number_,
                &mut rng,
            );
            self.species_.push(sp);
        }
        let ghost pre_h = self.history_@;
        let ghost pre_sp = self.species_@;
        self.reset_players(simulation);
        proof {
            assert forall|j: int| 0 <= j < self.history_@.len() implies (#[trigger] self.history_@[j]).wf()
                && self.history_@[j].input_count() == self.cfg_in()
                && self.history_@[j].output_count() == self.cfg_out() by {
                if j < pre_h.len() {
                    assert(self.history_@[j] == pre_h[j]);
                } else {
                    let si = j - pre_h.len() as int;
                    assert(0 <= si < pre_sp.len());
                    let h = self.history_@[pre_h.len() as int + si];
                    assert(h == self.history_@[j]);
                    assert(h.wf() && (exists|mi: int|
                        0 <= mi < pre_sp[si].topologies@.len() && h@ == (
                        #[trigger] pre_sp[si].topologies@[mi])@));
                    let mi = choose|mi: int|
                        0 <= mi < pre_sp[si].topologies@.len() && h@ == (
                        #[trigger] pre_sp[si].topologies@[mi])@;
                    assert(pre_sp[si].topologies@[mi].wf() && pre_sp[si].topologies@[mi].input_count()
                        == self.cfg_in() && pre_sp[si].topologies@[mi].output_count() == self.cfg_out());
                }
            }
        }
        let iters = self.iterations_;
        for _gen in 0..iters
            invariant
                self.inv(),
                self.inputs_ == old(self).inputs_,
                self.outputs_ == old(self).outputs_,
                self.delta_threshold_ == old(self).delta_threshold_,
                self.c1_ == old(self).c1_,
                self.c2_ == old(self).c2_,
                self.c3_ == old(self).c3_,
                self.max_per_layers_ == old(self).max_per_layers_,
                old(self).config_ok(),
                forall|k: int|
                    0 <= k < self.species_@.len() ==> (#[trigger] self.species_@[k]).stagnation_counter
                        < 20,
                forall|j: int|
                    0 <= j < self.history_@.len() ==> (#[trigger] self.history_@[j]).wf()
                        && self.history_@[j].input_count() == self.cfg_in()
                        && self.history_@[j].output_count() == self.cfg_out(),
        {
            let results = simulation.run_generation();
            self.set_last_results(&results);
            self.natural_selection(&mut rng);
            self.reset_species();
            if self.species_.len() == 0 {
                break ;
            }
            let ghost pre_h = self.history_@;
            let ghost pre_sp = self.species_@;
            self.reset_players(simulation);
            proof {
                assert forall|j: int| 0 <= j < self.history_@.len() implies (#[trigger] self.history_@[j]).wf()
                    && self.history_@[j].input_count() == self.cfg_in()
                    && self.history_@[j].output_count() == self.cfg_out() by {
                    if j < pre_h.len() {
                        assert(self.history_@[j] == pre_h[j]);
                    } else {
                        let si = j - pre_h.len() as int;
                        assert(0 <= si < pre_sp.len());
                        let h = self.history_@[pre_h.len() as int + si];
                        assert(h == self.history_@[j]);
                        assert(h.wf() && (exists|mi: int|
                            0 <= mi < pre_sp[si].topologies@.len() && h@ == (
                            #[trigger] pre_sp[si].topologies@[mi])@));
                        let mi = choose|mi: int|
                            0 <= mi < pre_sp[si].topologies@.len() && h@ == (
                            #[trigger] pre_sp[si].topologies@[mi])@;
                        assert(pre_sp[si].topologies@[mi].wf() && pre_sp[si].topologies@[mi].input_count()
                            == self.cfg_in() && pre_sp[si].topologies@[mi].output_count() == self.cfg_out());
                    }
                }
            }
        }
        simulation.post_training(&self.history_);
        Ok(())
    }

    /// Whether the configuration is accepted; `start` fails exactly when
    /// this is false.
    pub fn config_check(&self) -> (r: bool)
        ensures
            r == self.config_ok(),
    {
        let in_ok = match self.inputs_ {
            Some(v) => 1 <= v && v <= 4096,
            None => false,
        };
        let out_ok = match self.outputs_ {
            Some(v) => 1 <= v && v <= 4096,
            None => false,
        };
        in_ok && out_ok && 1 <= self.max_individuals_ && self.max_individuals_ <= 1000000 && 1
            <= self.max_species_ && self.max_species_ <= self.max_individuals_ && 2
            <= self.max_layers_ && self.max_layers_ <= 64 && 1 <= self.max_per_layers_
            && self.max_per_layers_ <= 1000 && 0 <= self.delta_threshold_ && 0 <= self.c1_ && 0
            <= self.c2_ && 0 <= self.c3_
    }
}

/// Appends a species to the kept list.
fn reps_keep(kept: &mut Vec<Species>, sp: Species)
    ensures
        final(kept)@ == old(kept)@.push(sp),
        all_members(final(kept)@) == all_members(old(kept)@).add(members_ms(sp.topologies@)),
{
    proof {
        lemma_all_members_push(old(kept)@, sp);
    }
    kept.push(sp);
}

} // verus!
