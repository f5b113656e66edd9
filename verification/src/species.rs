//! Species: a cluster of structurally similar genomes.
//!
//! A species owns its member genomes, a representative (its best genome so
//! far), the representative's fitness, and a stagnation counter that
//! increments whenever a selection pass fails to improve the best fitness
//! and resets to zero otherwise.

use vstd::prelude::*;
use vstd::multiset::Multiset;
use crate::fixed::{fx_clamp, fx_div_count};
use crate::genome::{Genome, GenomeView};
use crate::innovation::EvNumber;
use crate::rng::Rng;

verus! {

broadcast use {vstd::seq_lib::group_to_multiset_ensures, vstd::multiset::group_multiset_axioms};

/// The members of one genome list, as a multiset of genome values.
pub open spec fn members_ms(s: Seq<Genome>) -> Multiset<GenomeView> {
    s.map_values(|g: Genome| g@).to_multiset()
}

/// Appending a genome inserts its value into the member multiset.
pub proof fn lemma_members_push(s: Seq<Genome>, g: Genome)
    ensures
        members_ms(s.push(g)) == members_ms(s).insert(g@),
{
    assert(s.push(g).map_values(|x: Genome| x@) =~= s.map_values(|x: Genome| x@).push(g@));
    assert(members_ms(s.push(g)) =~= members_ms(s).insert(g@));
}

/// Dropping the last genome removes its value from the member multiset.
pub proof fn lemma_members_drop_last(s: Seq<Genome>)
    requires
        s.len() > 0,
    ensures
        members_ms(s.drop_last()) == members_ms(s).remove(s.last()@),
        members_ms(s).count(s.last()@) >= 1,
{
    let m = s.map_values(|x: Genome| x@);
    assert(s.drop_last().map_values(|x: Genome| x@) =~= m.remove(m.len() as int - 1));
    assert(m[m.len() as int - 1] == s.last()@);
    assert(m.contains(s.last()@));
    assert(members_ms(s.drop_last()) =~= members_ms(s).remove(s.last()@));
}

/// The member multiset of an empty list is empty.
pub proof fn lemma_members_empty(s: Seq<Genome>)
    requires
        s.len() == 0,
    ensures
        members_ms(s) == Multiset::<GenomeView>::empty(),
{
    assert(s.map_values(|x: Genome| x@).len() == 0);
    assert(members_ms(s) =~= Multiset::<GenomeView>::empty());
}

/// The members surviving the cull among the first `upto`: those whose
/// adjusted fitness (fitness over population size `n`) reaches the cutoff,
/// plus the member at the best index `bi`, in member order.
pub open spec fn spec_keep(
    members: Seq<Genome>,
    n: int,
    cutoff: i64,
    bi: int,
    upto: int,
) -> Seq<GenomeView>
    decreases upto,
{
    if upto <= 0 {
        Seq::empty()
    } else {
        spec_keep(members, n, cutoff, bi, upto - 1) + if crate::fixed::spec_div_count(
            members[upto - 1].last_fitness as int,
            n,
        ) >= cutoff as int || upto - 1 == bi {
            seq![members[upto - 1]@]
        } else {
            Seq::empty()
        }
    }
}

/// One selection pass with best index `bi`: the members culled by adjusted
/// fitness against the cutoff stand first (the best member always
/// surviving), and offspring refill the list to the target size, capped at
/// the population bound.
pub open spec fn selected_witness(pre: Species, post: Species, cutoff: i64, bi: int) -> bool {
    let nlen = pre.topologies@.len() as int;
    let kept = spec_keep(pre.topologies@, nlen, cutoff, bi, nlen);
    let target = if pre.max_size >= 1 {
        pre.max_size as int
    } else {
        1int
    };
    let bounded = if target <= 1000000 {
        target
    } else {
        1000000int
    };
    &&& 0 <= bi < nlen
    &&& forall|k: int|
        0 <= k < nlen ==> (#[trigger] pre.topologies@[k]).last_fitness
            <= pre.topologies@[bi].last_fitness
    &&& post.topologies@.map_values(|g: Genome| g@).take(kept.len() as int) == kept
    &&& post.topologies@.len() == if kept.len() as int >= bounded {
        kept.len() as int
    } else {
        bounded
    }
}

/// Selection culled against `cutoff` around some maximal member.
pub open spec fn spec_selected(pre: Species, post: Species, cutoff: i64) -> bool {
    exists|bi: int| #[trigger] selected_witness(pre, post, cutoff, bi)
}

pub struct Species {
    /// The member genomes.
    pub topologies: Vec<Genome>,
    /// The representative: a copy of the best genome seen at the last
    /// selection (or the founder).
    pub best_topology: Genome,
    /// The representative's fitness.
    pub best_fitness: i64,
    /// Consecutive selection passes without improvement.
    pub stagnation_counter: u32,
    /// The population size selection refills to.
    pub max_size: usize,
}

impl Species {
    pub open spec fn in_count(self) -> int {
        self.best_topology.input_count()
    }

    pub open spec fn out_count(self) -> int {
        self.best_topology.output_count()
    }

    pub open spec fn wf(self) -> bool {
        &&& self.best_topology.wf()
        &&& self.topologies@.len() >= 1
        &&& self.topologies@.len() <= 1000000
        &&& forall|k: int|
            0 <= k < self.topologies@.len() ==> (#[trigger] self.topologies@[k]).wf()
                && self.topologies@[k].input_count() == self.in_count()
                && self.topologies@[k].output_count() == self.out_count()
    }

    /// A new species founded by one genome, which is also its representative.
    pub fn new(genome: Genome, max_size: usize) -> (r: Species)
        requires
            genome.wf(),
        ensures
            r.wf(),
            r.stagnation_counter == 0,
            r.max_size == max_size,
            r.in_count() == genome.input_count(),
            r.out_count() == genome.output_count(),
            r.best_fitness == genome.last_fitness,
            r.best_topology@ == genome@,
            r.topologies@ == seq![genome],
            members_ms(r.topologies@) == members_ms(seq![genome]),
    {
        let best_fitness = genome.last_fitness;
        let best_topology = genome.duplicate();
        let mut topologies: Vec<Genome> = Vec::new();
        topologies.push(genome);
        let r = Species { topologies, best_topology, best_fitness, stagnation_counter: 0, max_size };
        assert(r.topologies@ =~= seq![genome]);
        assert(r.topologies@.map_values(|g: Genome| g@) =~= seq![genome].map_values(
            |g: Genome| g@,
        ));
        r
    }

    /// A species of `count` independently random genomes sharing innovation
    /// ids where their initial structure coincides.
    #[verifier::loop_isolation(false)]
    pub fn new_random(
        count: usize,
        inputs: usize,
        outputs: usize,
        max_layers: usize,
        max_per_layers: usize,
        ev: &mut EvNumber,
        rng: &mut Rng,
    ) -> (r: Species)
        requires
            1 <= count <= 1000000,
            1 <= inputs <= 4096,
            1 <= outputs <= 4096,
            2 <= max_layers,
            1 <= max_per_layers,
        ensures
            r.wf(),
            r.stagnation_counter == 0,
            r.topologies@.len() == count,
            r.in_count() == inputs as int,
            r.out_count() == outputs as int,
            forall|m: int, l: int, i: int, j: int|
                #![trigger crate::genome::spec_wired(r.topologies@[m].genes@, l, i, j)]
                0 <= m < count && 0 <= l < r.topologies@[m].layer_sizes@.len() - 1 && 0 <= i
                    < r.topologies@[m].layer_sizes@[l] && 0 <= j
                    < r.topologies@[m].layer_sizes@[l + 1] ==> crate::genome::spec_wired(
                    r.topologies@[m].genes@,
                    l,
                    i,
                    j,
                ),
    {
        let hidden: usize = if max_layers >= 3 {
            if max_per_layers >= 3 {
                3
            } else if max_per_layers >= 2 {
                2
            } else {
                1
            }
        } else {
            0
        };
        let mut topologies: Vec<Genome> = Vec::new();
        for _k in 0..count
            invariant
                topologies@.len() == _k,
                hidden <= 1000,
                forall|j: int|
                    0 <= j < _k ==> (#[trigger] topologies@[j]).wf() && topologies@[j].input_count()
                        == inputs as int && topologies@[j].output_count() == outputs as int,
                forall|m: int, l: int, i: int, j: int|
                    #![trigger crate::genome::spec_wired(topologies@[m].genes@, l, i, j)]
                    0 <= m < _k && 0 <= l < topologies@[m].layer_sizes@.len() - 1 && 0 <= i
                        < topologies@[m].layer_sizes@[l] && 0 <= j
                        < topologies@[m].layer_sizes@[l + 1] ==> crate::genome::spec_wired(
                        topologies@[m].genes@,
                        l,
                        i,
                        j,
                    ),
        {
            let g = Genome::random_genome(inputs, outputs, hidden, ev, rng);
            topologies.push(g);
        }
        let best_topology = topologies[0].duplicate();
        let best_fitness = best_topology.last_fitness;
        Species { topologies, best_topology, best_fitness, stagnation_counter: 0, max_size: count }
    }

    /// Adds a genome to the population.
    pub fn push(&mut self, genome: Genome)
        requires
            old(self).wf(),
            genome.wf(),
            genome.input_count() == old(self).in_count(),
            genome.output_count() == old(self).out_count(),
            old(self).topologies@.len() < 1000000,
        ensures
            final(self).wf(),
            final(self).topologies@ == old(self).topologies@.push(genome),
            final(self).best_topology == old(self).best_topology,
            final(self).best_fitness == old(self).best_fitness,
            final(self).stagnation_counter == old(self).stagnation_counter,
            final(self).max_size == old(self).max_size,
    {
        self.topologies.push(genome);
    }

    /// The index of a member with maximal fitness.
    #[verifier::loop_isolation(false)]
    fn best_index(&self) -> (r: usize)
        requires
            self.wf(),
        ensures
            r < self.topologies@.len(),
            forall|k: int|
                0 <= k < self.topologies@.len() ==> (#[trigger] self.topologies@[k]).last_fitness
                    <= self.topologies@[r as int].last_fitness,
    {
        let n = self.topologies.len();
        let mut best: usize = 0;
        for k in 1..n
            invariant
                n == self.topologies@.len(),
                best < n,
                forall|j: int|
                    0 <= j < k ==> (#[trigger] self.topologies@[j]).last_fitness
                        <= self.topologies@[best as int].last_fitness,
        {
            if self.topologies[k].last_fitness > self.topologies[best].last_fitness {
                best = k;
            }
        }
        best
    }

    /// A copy of the best member.
    pub fn get_best(&self) -> (r: Genome)
        requires
            self.wf(),
        ensures
            r.wf(),
            exists|k: int| 0 <= k < self.topologies@.len() && r@ == (#[trigger] self.topologies@[k])@,
            forall|k: int|
                0 <= k < self.topologies@.len() ==> (#[trigger] self.topologies@[k]).last_fitness
                    <= r.last_fitness,
    {
        let bi = self.best_index();
        let r = self.topologies[bi].duplicate();
        assert(r@ == self.topologies@[bi as int]@);
        r
    }

    /// Sets the population size selection refills to.
    pub fn set_max_size(&mut self, v: usize)
        ensures
            final(self).max_size == v,
            final(self).topologies@ == old(self).topologies@,
            final(self).best_topology == old(self).best_topology,
            final(self).best_fitness == old(self).best_fitness,
            final(self).stagnation_counter == old(self).stagnation_counter,
            old(self).wf() ==> final(self).wf(),
            final(self).in_count() == old(self).in_count(),
            final(self).out_count() == old(self).out_count(),
    {
        self.max_size = v;
    }

    /// The representative's fitness.
    pub fn get_last_result(&self) -> (r: i64)
        ensures
            r == self.best_fitness,
    {
        self.best_fitness
    }

    /// A parent index drawn with probability increasing in clamped fitness.
    #[verifier::loop_isolation(false)]
    fn pick_parent(survivors: &Vec<Genome>, rng: &mut Rng) -> (r: usize)
        requires
            1 <= survivors@.len() <= 1000000,
        ensures
            r < survivors@.len(),
    {
        let n = survivors.len();
        let mut cmin: i64 = fx_clamp(survivors[0].last_fitness);
        for k in 1..n
            invariant
                n == survivors@.len(),
                -0x8000_0000i64 <= cmin <= 0x8000_0000i64,
        {
            let c = fx_clamp(survivors[k].last_fitness);
            if c < cmin {
                cmin = c;
            }
        }
        let mut total: u64 = 0;
        for k in 0..n
            invariant
                total as int <= (k as int) * 0x2_0000_0001,
        {
            let c = fx_clamp(survivors[k].last_fitness);
            let w = if c >= cmin {
                (c - cmin) as u64 + 1
            } else {
                1u64
            };
            proof {
                assert((k as int + 1) * 0x2_0000_0001 == (k as int) * 0x2_0000_0001
                    + 0x2_0000_0001) by (nonlinear_arith);
                assert((k as int + 1) * 0x2_0000_0001 <= 1000001 * 0x2_0000_0001)
                    by (nonlinear_arith)
                    requires
                        k as int + 1 <= 1000001,
                ;
            }
            total = total + w;
        }
        if total == 0 {
            return 0;
        }
        let pick = rng.below_wide(total);
        let mut acc: u64 = 0;
        let mut chosen: usize = 0;
        let mut found = false;
        for k in 0..n
            invariant
                acc as int <= (k as int) * 0x2_0000_0001,
                chosen < n,
        {
            let c = fx_clamp(survivors[k].last_fitness);
            let w = if c >= cmin {
                (c - cmin) as u64 + 1
            } else {
                1u64
            };
            proof {
                assert((k as int + 1) * 0x2_0000_0001 == (k as int) * 0x2_0000_0001
                    + 0x2_0000_0001) by (nonlinear_arith);
                assert((k as int + 1) * 0x2_0000_0001 <= 1000001 * 0x2_0000_0001)
                    by (nonlinear_arith)
                    requires
                        k as int + 1 <= 1000001,
                ;
            }
            if !found && pick < acc + w {
                chosen = k;
                found = true;
            }
            acc = acc + w;
        }
        chosen
    }

    /// Writes the scores `results[start..]` onto the members, in member
    /// order, stopping at the end of either list; returns the index after
    /// the last score consumed.
    #[verifier::loop_isolation(false)]
    pub fn assign_results(&mut self, results: &Vec<i64>, start: usize) -> (next: usize)
        requires
            old(self).wf(),
            start <= results@.len(),
        ensures
            final(self).wf(),
            final(self).in_count() == old(self).in_count(),
            final(self).out_count() == old(self).out_count(),
            final(self).topologies@.len() == old(self).topologies@.len(),
            final(self).best_fitness == old(self).best_fitness,
            final(self).stagnation_counter == old(self).stagnation_counter,
            final(self).max_size == old(self).max_size,
            next == if start + old(self).topologies@.len() <= results@.len() {
                start + old(self).topologies@.len()
            } else {
                results@.len() as int
            },
            forall|mi: int|
                0 <= mi < final(self).topologies@.len() ==> #[trigger] final(self).topologies@[mi]@
                    == (GenomeView {
                    last_fitness: if start + mi < results@.len() {
                        results@[start + mi]
                    } else {
                        old(self).topologies@[mi].last_fitness
                    },
                    ..old(self).topologies@[mi]@
                }),
    {
        let n = self.topologies.len();
        for mi in 0..n
            invariant
                n == self.topologies@.len(),
                self.wf(),
                self.in_count() == old(self).in_count(),
                self.out_count() == old(self).out_count(),
                self.best_topology == old(self).best_topology,
                self.best_fitness == old(self).best_fitness,
                self.stagnation_counter == old(self).stagnation_counter,
                self.max_size == old(self).max_size,
                forall|j: int|
                    0 <= j < mi ==> #[trigger] self.topologies@[j]@ == (GenomeView {
                        last_fitness: if start + j < results@.len() {
                            results@[start + j]
                        } else {
                            old(self).topologies@[j].last_fitness
                        },
                        ..old(self).topologies@[j]@
                    }),
                forall|j: int|
                    mi <= j < n ==> #[trigger] self.topologies@[j] == old(self).topologies@[j],
        {
            if mi < results.len() - start {
                let v = results[start + mi];
                let mut g = self.topologies[mi].duplicate();
                g.set_last_result(v);
                crate::genome::set_elem(&mut self.topologies, mi, g);
                assert(self.topologies@[mi as int]@ =~= (GenomeView {
                    last_fitness: results@[start + mi],
                    ..old(self).topologies@[mi as int]@
                }));
            } else {
                assert(self.topologies@[mi as int]@ =~= (GenomeView {
                    last_fitness: old(self).topologies@[mi as int].last_fitness,
                    ..old(self).topologies@[mi as int]@
                }));
            }
        }
        if n <= results.len() - start {
            start + n
        } else {
            results.len()
        }
    }

    /// Moves every member out, leaving the representative in place.
    #[verifier::loop_isolation(false)]
    pub fn drain(&mut self) -> (r: Vec<Genome>)
        requires
            old(self).wf(),
        ensures
            members_ms(r@) == members_ms(old(self).topologies@),
            final(self).topologies@.len() == 0,
            final(self).best_topology == old(self).best_topology,
            final(self).best_fitness == old(self).best_fitness,
            final(self).stagnation_counter == old(self).stagnation_counter,
            final(self).max_size == old(self).max_size,
            r@.len() <= 1000000,
            forall|k: int|
                0 <= k < r@.len() ==> (#[trigger] r@[k]).wf() && r@[k].input_count()
                    == old(self).in_count() && r@[k].output_count() == old(self).out_count(),
    {
        let mut r: Vec<Genome> = Vec::new();
        while self.topologies.len() > 0
            invariant
                members_ms(r@).add(members_ms(self.topologies@)) == members_ms(
                    old(self).topologies@,
                ),
                r@.len() + self.topologies@.len() == old(self).topologies@.len(),
                self.best_topology == old(self).best_topology,
                self.best_fitness == old(self).best_fitness,
                self.stagnation_counter == old(self).stagnation_counter,
                self.max_size == old(self).max_size,
                forall|k: int|
                    0 <= k < self.topologies@.len() ==> (#[trigger] self.topologies@[k]).wf()
                        && self.topologies@[k].input_count() == old(self).in_count()
                        && self.topologies@[k].output_count() == old(self).out_count(),
                forall|k: int|
                    0 <= k < r@.len() ==> (#[trigger] r@[k]).wf() && r@[k].input_count()
                        == old(self).in_count() && r@[k].output_count() == old(self).out_count(),
            decreases self.topologies@.len(),
        {
            let ghost pre_tops = self.topologies@;
            let ghost pre_r = r@;
            let g = self.topologies.pop().unwrap();
            proof {
                lemma_members_drop_last(pre_tops);
                lemma_members_push(pre_r, g);
                assert(members_ms(r@.push(g)).add(members_ms(self.topologies@)) =~= members_ms(
                    pre_r,
                ).add(members_ms(pre_tops)));
            }
            r.push(g);
        }
        proof {
            lemma_members_empty(self.topologies@);
            assert(members_ms(r@).add(Multiset::<GenomeView>::empty()) =~= members_ms(r@));
        }
        r
    }

    /// One selection and reproduction pass. Members whose adjusted fitness
    /// (fitness over population size) falls below `cutoff` are culled, the
    /// best member always surviving; survivors reproduce by crossover with
    /// parents drawn by adjusted fitness, and each offspring is weight
    /// perturbed and, with low probability, structurally mutated, drawing
    /// innovation ids from the shared registry. The stagnation counter
    /// resets to zero exactly when the new best fitness beats the recorded
    /// one, and increments otherwise.
    #[verifier::loop_isolation(false)]
    pub fn natural_selection(&mut self, ev: &mut EvNumber, rng: &mut Rng, cutoff: i64)
        requires
            old(self).wf(),
        ensures
            final(self).wf(),
            final(self).in_count() == old(self).in_count(),
            final(self).out_count() == old(self).out_count(),
            final(self).max_size == old(self).max_size,
            final(self).best_fitness > old(self).best_fitness ==> final(self).stagnation_counter
                == 0,
            final(self).best_fitness <= old(self).best_fitness && old(self).stagnation_counter
                < u32::MAX ==> final(self).stagnation_counter == old(self).stagnation_counter + 1,
            forall|k: int|
                0 <= k < final(self).topologies@.len() ==> (#[trigger] final(self).topologies@[k]).last_fitness
                    <= final(self).best_fitness,
            spec_selected(*old(self), *final(self), cutoff),
    {
        let n = self.topologies.len();
        let bi = self.best_index();
        let ghost kept_full = spec_keep(
            old(self).topologies@,
            n as int,
            cutoff,
            bi as int,
            n as int,
        );
        let mut survivors: Vec<Genome> = Vec::new();
        for k in 0..n
            invariant
                n == self.topologies@.len(),
                self.wf(),
                *self == *old(self),
                bi < n,
                survivors@.len() <= k,
                survivors@.len() <= n,
                survivors@.map_values(|g: Genome| g@) == spec_keep(
                    old(self).topologies@,
                    n as int,
                    cutoff,
                    bi as int,
                    k as int,
                ),
                forall|j: int|
                    0 <= j < survivors@.len() ==> (#[trigger] survivors@[j]).wf()
                        && survivors@[j].input_count() == self.in_count()
                        && survivors@[j].output_count() == self.out_count(),
                k > bi ==> survivors@.len() >= 1,
        {
            let adjusted = fx_div_count(self.topologies[k].last_fitness, n);
            let ghost pre_map = survivors@.map_values(|g: Genome| g@);
            if adjusted >= cutoff || k == bi {
                let c = self.topologies[k].duplicate();
                survivors.push(c);
                proof {
                    assert(survivors@.map_values(|g: Genome| g@) =~= pre_map.push(c@));
                    assert(survivors@.map_values(|g: Genome| g@) =~= spec_keep(
                        old(self).topologies@,
                        n as int,
                        cutoff,
                        bi as int,
                        k as int + 1,
                    ));
                }
            } else {
                proof {
                    assert(survivors@.map_values(|g: Genome| g@) =~= spec_keep(
                        old(self).topologies@,
                        n as int,
                        cutoff,
                        bi as int,
                        k as int + 1,
                    ));
                }
            }
        }
        let ghost kept_len = kept_full.len() as int;
        assert(survivors@.len() >= 1);
        let target = if self.max_size >= 1 {
            self.max_size
        } else {
            1
        };
        let ghost bounded = if target as int <= 1000000 {
            target as int
        } else {
            1000000int
        };
        while survivors.len() < target && survivors.len() < 1000000
            invariant
                self.wf(),
                *self == *old(self),
                1 <= survivors@.len() <= 1000000,
                survivors@.len() >= kept_len,
                survivors@.len() <= if kept_len >= bounded {
                    kept_len
                } else {
                    bounded
                },
                survivors@.map_values(|g: Genome| g@).take(kept_len) == kept_full,
                forall|j: int|
                    0 <= j < survivors@.len() ==> (#[trigger] survivors@[j]).wf()
                        && survivors@[j].input_count() == self.in_count()
                        && survivors@[j].output_count() == self.out_count(),
            decreases target - survivors@.len(),
        {
            let pa = Species::pick_parent(&survivors, rng);
            let pb = Species::pick_parent(&survivors, rng);
            let mut child = Genome::crossover(&survivors[pa], &survivors[pb], rng);
            // mostly small jitters, occasionally a large exploratory one
            let mag = if rng.below(8) == 0 {
                3 * crate::fixed::SCALE
            } else {
                crate::fixed::SCALE / 2
            };
            child.perturb_weights(rng, mag);
            let roll = rng.below(2);
            if roll == 0 {
                if rng.coin() {
                    let _ = child.mutate_add_connection(ev, rng);
                } else {
                    let _ = child.mutate_add_neuron(ev, rng, 32);
                }
            }
            let ghost pre_map = survivors@.map_values(|g: Genome| g@);
            survivors.push(child);
            proof {
                assert(survivors@.map_values(|g: Genome| g@) =~= pre_map.push(child@));
                assert(survivors@.map_values(|g: Genome| g@).take(kept_len) =~= pre_map.take(
                    kept_len,
                ));
            }
        }
        let mut nbi: usize = 0;
        let ns = survivors.len();
        for k in 1..ns
            invariant
                ns == survivors@.len(),
                nbi < ns,
                forall|j: int|
                    0 <= j < k ==> (#[trigger] survivors@[j]).last_fitness
                        <= survivors@[nbi as int].last_fitness,
        {
            if survivors[k].last_fitness > survivors[nbi].last_fitness {
                nbi = k;
            }
        }
        let nb = survivors[nbi].last_fitness;
        if nb > self.best_fitness {
            self.stagnation_counter = 0;
        } else if self.stagnation_counter < u32::MAX {
            self.stagnation_counter = self.stagnation_counter + 1;
        }
        self.best_fitness = nb;
        self.best_topology = survivors[nbi].duplicate();
        self.topologies = survivors;
        assert(final(self).in_count() == old(self).in_count());
        proof {
            assert(kept_full.len() <= 1000000);
            assert(selected_witness(*old(self), *final(self), cutoff, bi as int));
        }
    }
}

} // verus!
