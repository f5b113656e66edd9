//! Innovation-number registry.
//!
//! Assigns stable identifiers to newly created structural genes. Within one
//! generation, structurally identical mutations (same source, destination and
//! kind, or a split of the same edge) receive the same identifier, which keeps
//! crossover aligned across species. The counter itself is never rewound, so
//! an identifier issued in a later generation never collides with one held by
//! an older gene.

use vstd::prelude::*;
use crate::genome::Point;

verus! {

/// One remembered mutation of the current generation.
pub struct MutationRecord {
    /// True for an add-neuron (edge split) record, false for add-connection.
    pub is_split: bool,
    pub from: Point,
    pub to: Point,
    pub gated: bool,
    /// For a split record: the innovation id of the edge that was split.
    pub split_edge: u64,
    pub id: u64,
    /// Second id of a split (the edge leaving the new neuron).
    pub id2: u64,
}

pub struct EvNumber {
    /// The next fresh identifier; monotone over the whole run.
    pub counter: u64,
    /// Mutations seen since the last reset.
    pub seen: Vec<MutationRecord>,
}

pub open spec fn conn_matches(r: MutationRecord, from: Point, to: Point, gated: bool) -> bool {
    !r.is_split && r.from == from && r.to == to && r.gated == gated
}

pub open spec fn split_matches(r: MutationRecord, edge: u64) -> bool {
    r.is_split && r.split_edge == edge
}

impl EvNumber {
    pub fn new() -> (r: EvNumber)
        ensures
            r.counter == 1,
            r.seen@.len() == 0,
    {
        EvNumber { counter: 1, seen: Vec::new() }
    }

    /// Forgets the mutations of the finished generation. The counter keeps
    /// counting, so identifiers stay globally unique across generations.
    pub fn reset(&mut self)
        ensures
            final(self).counter == old(self).counter,
            final(self).seen@.len() == 0,
    {
        self.seen.clear();
    }

    /// The identifier for an added connection `from -> to` of the given kind:
    /// the one already issued for the same structural mutation this
    /// generation, or a fresh one that is recorded for later callers.
    pub fn connection_id(&mut self, from: Point, to: Point, gated: bool) -> (r: u64)
        ensures
            final(self).counter >= old(self).counter,
            (exists|k: int|
                0 <= k < old(self).seen@.len() && conn_matches(
                    #[trigger] old(self).seen@[k],
                    from,
                    to,
                    gated,
                ) && r == old(self).seen@[k].id) || {
                &&& final(self).seen@.len() == old(self).seen@.len() + 1
                &&& forall|j: int|
                    0 <= j < old(self).seen@.len() ==> final(self).seen@[j] == old(self).seen@[j]
                &&& conn_matches(final(self).seen@.last(), from, to, gated)
                &&& final(self).seen@.last().id == r
                &&& r == old(self).counter
            },
    {
        let n = self.seen.len();
        for k in 0..n
            invariant
                n == self.seen@.len(),
                *self == *old(self),
                forall|j: int| 0 <= j < k ==> !conn_matches(#[trigger] self.seen@[j], from, to, gated),
        {
            let rec = &self.seen[k];
            if !rec.is_split && rec.from == from && rec.to == to && rec.gated == gated {
                return rec.id;
            }
        }
        let id = self.counter;
        if self.counter < u64::MAX {
            self.counter = self.counter + 1;
        }
        self.seen.push(MutationRecord {
            is_split: false,
            from,
            to,
            gated,
            split_edge: 0,
            id,
            id2: 0,
        });
        id
    }

    /// The pair of identifiers for splitting the edge with innovation id
    /// `edge`: reused if the same split was recorded this generation.
    pub fn split_ids(&mut self, edge: u64) -> (r: (u64, u64))
        ensures
            final(self).counter >= old(self).counter,
            (exists|k: int|
                0 <= k < old(self).seen@.len() && split_matches(#[trigger] old(self).seen@[k], edge)
                    && r.0 == old(self).seen@[k].id && r.1 == old(self).seen@[k].id2) || {
                &&& final(self).seen@.len() == old(self).seen@.len() + 1
                &&& forall|j: int|
                    0 <= j < old(self).seen@.len() ==> final(self).seen@[j] == old(self).seen@[j]
                &&& split_matches(final(self).seen@.last(), edge)
                &&& final(self).seen@.last().id == r.0
                &&& final(self).seen@.last().id2 == r.1
            },
    {
        let n = self.seen.len();
        for k in 0..n
            invariant
                n == self.seen@.len(),
                *self == *old(self),
                forall|j: int| 0 <= j < k ==> !split_matches(#[trigger] self.seen@[j], edge),
        {
            let rec = &self.seen[k];
            if rec.is_split && rec.split_edge == edge {
                return (rec.id, rec.id2);
            }
        }
        let id = self.counter;
        let id2 = if self.counter < u64::MAX { self.counter + 1 } else { self.counter };
        if self.counter < u64::MAX - 1 {
            self.counter = self.counter + 2;
        } else {
            self.counter = u64::MAX;
        }
        self.seen.push(MutationRecord {
            is_split: true,
            from: Point { layer: 0, index: 0 },
            to: Point { layer: 0, index: 0 },
            gated: false,
            split_edge: edge,
            id,
            id2,
        });
        (id, id2)
    }
}

} // verus!
