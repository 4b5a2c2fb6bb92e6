//! A uniform spatial hash over grid cells.
//!
//! Every particle is filed under the slot of the cell it lies in. The index
//! keeps one `(slot, particle)` entry per particle, sorted by slot, and for
//! each slot in use the position of its first entry. The particles near a
//! cell are found by reading the runs of the nine slots of its Moore
//! neighborhood. The table has as many slots as particles, so distinct
//! cells may share a slot: a query may yield particles that are far away,
//! but never misses one that lies in the neighborhood.

use crate::hashing::{
    cell_key, cell_of, cell_slot, lemma_within_radius_adjacent, neighbor_cell, neighbor_key,
    neighbor_slot,
};
use crate::table::{
    adjacent, candidates, filed_under, first_of_slot, keyed, lemma_candidates_count,
    lemma_candidates_include, lemma_candidates_of_nothing, lemma_candidates_origin,
    lemma_slot_members_entries, lemma_slot_run, lemma_slot_unused, other_than, particle_of, slot_hits, slot_occurs, sorted_by_slot,
};
use std::collections::HashMap;
use vstd::prelude::*;

verus! {

broadcast use vstd::std_specs::hash::group_hash_axioms;

/// `slice::sort_unstable_by_key`, keyed by the slot of an entry: the
/// entries are rearranged so that their slots ascend. Which of two entries
/// with the same slot comes first is left open.
#[verifier::external_body]
fn sort_by_slot(keys: &mut Vec<(usize, usize)>)
    ensures
        final(keys)@.to_multiset() == old(keys)@.to_multiset(),
        sorted_by_slot(final(keys)@),
{
    keys.sort_unstable_by_key(|entry| entry.0);
}

/// A spatial hash of a fixed population of particles.
pub struct SpatialHash {
    cell_keys: Vec<(usize, usize)>,
    cell_offsets: HashMap<usize, usize>,
    cells: Ghost<Seq<(isize, isize)>>,
}

impl View for SpatialHash {
    type V = Seq<(usize, usize)>;

    /// The table: one `(slot, particle)` entry per particle.
    closed spec fn view(&self) -> Seq<(usize, usize)> {
        self.cell_keys@
    }
}

impl SpatialHash {
    /// For each slot in use, the position of its first entry in the table.
    pub closed spec fn offsets(&self) -> Map<usize, usize> {
        self.cell_offsets@
    }

    /// The cells that were indexed, by particle.
    pub closed spec fn cells(&self) -> Seq<(isize, isize)> {
        self.cells@
    }

    /// The table holds every particle once, filed under the slot of its
    /// cell; its entries ascend by slot; and the offsets name exactly the
    /// slots in use, each with the start of its run.
    pub open spec fn wf(&self) -> bool {
        &&& self.cells().len() <= usize::MAX
        &&& self@.len() == self.cells().len()
        &&& self@.to_multiset() == keyed(self.cells()).to_multiset()
        &&& sorted_by_slot(self@)
        &&& forall|slot: usize| #[trigger]
            self.offsets().contains_key(slot) <==> slot_occurs(
                self@,
                slot,
                self@.len() as int,
            )
        &&& forall|slot: usize| #[trigger]
            self.offsets().contains_key(slot) ==> first_of_slot(
                self@,
                slot,
                self.offsets()[slot] as int,
            )
    }

    /// An index of no particles.
    pub fn new() -> (index: Self)
        ensures
            index.wf(),
            index.cells().len() == 0,
    {
        let index = SpatialHash {
            cell_keys: Vec::new(),
            cell_offsets: HashMap::new(),
            cells: Ghost(Seq::empty()),
        };
        assert(index@ == keyed(index.cells()));
        index
    }

    /// The number of particles indexed, which is also the number of slots.
    pub fn len(&self) -> (n: usize)
        ensures
            n == self@.len(),
    {
        self.cell_keys.len()
    }

    /// Indexes the particles anew: particle `i` lies in `cells[i]`.
    pub fn rebuild(&mut self, cells: &Vec<(isize, isize)>)
        ensures
            final(self).wf(),
            final(self).cells() == cells@,
    {
        let n = cells.len();
        self.cell_keys.clear();
        let mut i: usize = 0;
        while i < n
            invariant
                i <= n,
                n == cells.len(),
                self.cell_keys@ == keyed(cells@).take(i as int),
            decreases n - i,
        {
            let key = cell_key(cells[i], n);
            self.cell_keys.push((key, i));
            assert(self.cell_keys@ == keyed(cells@).take(i + 1));
            i += 1;
        }
        assert(self.cell_keys@ == keyed(cells@));
        sort_by_slot(&mut self.cell_keys);
        proof {
            vstd::seq_lib::to_multiset_len(self.cell_keys@);
            vstd::seq_lib::to_multiset_len(keyed(cells@));
        }
        let ghost sorted = self.cell_keys@;
        self.cell_offsets.clear();
        let mut i: usize = 0;
        while i < n
            invariant
                i <= n,
                n == self.cell_keys.len(),
                self.cell_keys@ == sorted,
                forall|slot: usize| #[trigger]
                    self.cell_offsets@.contains_key(slot) <==> slot_occurs(
                        self.cell_keys@,
                        slot,
                        i as int,
                    ),
                forall|slot: usize| #[trigger]
                    self.cell_offsets@.contains_key(slot) ==> first_of_slot(
                        self.cell_keys@,
                        slot,
                        self.cell_offsets@[slot] as int,
                    ),
            decreases n - i,
        {
            let key = self.cell_keys[i].0;
            let ghost before = self.cell_offsets@;
            self.cell_offsets.entry(key).or_insert(i);
            proof {
                let keys = self.cell_keys@;
                assert(self.cell_offsets@ == if before.contains_key(key) {
                    before
                } else {
                    before.insert(key, i)
                });
                assert forall|slot: usize| #[trigger]
                    self.cell_offsets@.contains_key(slot) <==> slot_occurs(
                        keys,
                        slot,
                        i + 1,
                    ) by {
                    if slot_occurs(keys, slot, i + 1) {
                        let k = choose|k: int| 0 <= k < i + 1 && k < keys.len() && (#[trigger] keys[k]).0 == slot;
                        if k < i {
                            assert(slot_occurs(keys, slot, i as int));
                        }
                    }
                    if self.cell_offsets@.contains_key(slot) {
                        if slot == key {
                            assert(keys[i as int].0 == slot);
                        } else {
                            assert(slot_occurs(keys, slot, i as int));
                        }
                    }
                }
            }
            i += 1;
        }
        self.cells = Ghost(cells@);
    }

    /// What a query around `cell` yields: the runs of the slots of the nine
    /// cells of its Moore neighborhood, in the order of `GRID_OFFSETS`.
    pub open spec fn neighbors(&self, cell: (isize, isize)) -> Seq<usize> {
        candidates(self@, cell, 9)
    }

    /// The particles that may lie near `cell`: for each cell of its Moore
    /// neighborhood, in the order of `GRID_OFFSETS`, those filed under the
    /// slot of that cell, in table order.
    ///
    /// A particle in a cell of the neighborhood is always among them. One
    /// from a cell far away is among them where that cell shares a slot
    /// with a cell of the neighborhood, so the caller tests the true
    /// distance of each. A particle is yielded once for each cell of the
    /// neighborhood that has the slot of its own cell.
    pub fn neighbors_of(&self, cell: (isize, isize)) -> (found: Vec<usize>)
        requires
            self.wf(),
        ensures
            found@ == self.neighbors(cell),
            forall|particle: usize|
                particle < self.cells().len() && adjacent(
                    #[trigger] self.cells()[particle as int],
                    cell,
                ) ==> found@.contains(particle),
            forall|i: int| 0 <= i < found.len() ==> (#[trigger] found[i]) < self.cells().len(),
    {
        let n = self.cell_keys.len();
        let mut found: Vec<usize> = Vec::new();
        if n == 0 {
            proof {
                lemma_candidates_of_nothing(self@, cell, 9);
            }
            return found;
        }
        let mut k: usize = 0;
        while k < 9
            invariant
                k <= 9,
                self.wf(),
                n == self.cell_keys.len(),
                n > 0,
                found@ == candidates(self@, cell, k as nat),
            decreases 9 - k,
        {
            let key = neighbor_key(cell, k, n);
            let ghost head = found@;
            match self.cell_offsets.get(&key) {
                Some(offset) => {
                    let first = *offset;
                    let mut at = first;
                    proof {
                        assert(self.offsets().contains_key(key));
                        assert(found@ == head + self.cell_keys@.subrange(
                            first as int,
                            at as int,
                        ).map_values(particle_of()));
                    }
                    while at < n && self.cell_keys[at].0 == key
                        invariant
                            first <= at <= n,
                            n == self.cell_keys.len(),
                            forall|j: int|
                                first <= j < at ==> (#[trigger] self.cell_keys@[j]).0 == key,
                            found@ == head + self.cell_keys@.subrange(
                                first as int,
                                at as int,
                            ).map_values(particle_of()),
                        decreases n - at,
                    {
                        found.push(self.cell_keys[at].1);
                        at += 1;
                    }
                    proof {
                        lemma_slot_run(self@, key, first as int, at as int);
                    }
                },
                None => {
                    proof {
                        assert(!self.offsets().contains_key(key));
                        lemma_slot_unused(self@, key);
                    }
                },
            }
            k += 1;
        }
        proof {
            assert forall|particle: usize|
                particle < self.cells().len() && adjacent(
                    #[trigger] self.cells()[particle as int],
                    cell,
                ) implies found@.contains(particle) by {
                self.lemma_neighbors_complete(cell, particle);
            }
            assert forall|i: int| 0 <= i < found.len() implies (#[trigger] found[i])
                < self.cells().len() by {
                assert(found@.contains(found[i]));
                self.lemma_neighbors_sound(cell, found[i]);
            }
        }
        found
    }

    /// The particles other than `particle` that may lie near `cell`: what
    /// `neighbors_of` yields, without the occurrences of `particle`.
    pub fn neighbors_except(&self, cell: (isize, isize), particle: usize) -> (found: Vec<usize>)
        requires
            self.wf(),
        ensures
            found@ == self.neighbors(cell).filter(other_than(particle)),
            forall|other: usize|
                other < self.cells().len() && other != particle && adjacent(
                    #[trigger] self.cells()[other as int],
                    cell,
                ) ==> found@.contains(other),
            forall|i: int|
                0 <= i < found.len() ==> (#[trigger] found[i]) < self.cells().len() && found[i]
                    != particle,
    {
        let all = self.neighbors_of(cell);
        let mut found: Vec<usize> = Vec::new();
        let mut i: usize = 0;
        while i < all.len()
            invariant
                i <= all.len(),
                found@ == all@.take(i as int).filter(other_than(particle)),
            decreases all.len() - i,
        {
            proof {
                assert(all@.take(i + 1) == all@.take(i as int).push(all@[i as int]));
                all@.take(i as int).lemma_filter_push(all@[i as int], other_than(particle));
            }
            if all[i] != particle {
                found.push(all[i]);
            }
            i += 1;
        }
        proof {
            broadcast use vstd::seq_lib::group_filter_ensures;

            assert(all@.take(all.len() as int) == all@);
            assert forall|other: usize|
                other < self.cells().len() && other != particle && adjacent(
                    #[trigger] self.cells()[other as int],
                    cell,
                ) implies found@.contains(other) by {
                let at = choose|at: int| 0 <= at < all.len() && all[at] == other;
                assert(other_than(particle)(all@[at]));
                assert(found@.contains(all@[at]));
            }
            assert forall|i: int| 0 <= i < found.len() implies (#[trigger] found[i])
                < self.cells().len() && found[i] != particle by {
                assert(other_than(particle)(found@[i]));
                assert(found@.contains(found[i]));
                all@.lemma_filter_contains_rev(other_than(particle), found[i]);
                let at = choose|at: int| 0 <= at < all.len() && all[at] == found[i];
                assert(all[at] < self.cells().len());
            }
        }
        found
    }

    /// The entries of a slot stand together in the table, from the offset of
    /// the slot on: each entry filed under a slot lies at or after the
    /// offset of that slot, and nothing but entries of the slot lies between.
    pub proof fn lemma_runs_contiguous(&self, slot: usize, at: int)
        requires
            self.wf(),
            0 <= at < self@.len(),
            self@[at].0 == slot,
        ensures
            self.offsets().contains_key(slot),
            self.offsets()[slot] <= at,
            forall|j: int| self.offsets()[slot] <= j <= at ==> (#[trigger] self@[j]).0 == slot,
    {
        assert(slot_occurs(self@, slot, self@.len() as int));
        assert(self.offsets().contains_key(slot));
        let first = self.offsets()[slot] as int;
        assert(first_of_slot(self@, slot, first));
        assert forall|j: int| first <= j <= at implies (#[trigger] self@[j]).0 == slot by {
            assert(self@[first].0 <= self@[j].0 <= self@[at].0);
        }
    }

    /// Every particle has one entry in the table, filed under the slot of
    /// its cell, and the table has no other entries.
    pub proof fn lemma_entries(&self, slot: usize, particle: usize)
        requires
            self.wf(),
        ensures
            self@.contains((slot, particle)) <==> particle < self.cells().len() && slot
                == cell_slot(
                self.cells()[particle as int].0 as int,
                self.cells()[particle as int].1 as int,
                self.cells().len(),
            ),
    {
        broadcast use vstd::seq_lib::to_multiset_contains;

        let keyed = keyed(self.cells());
        let entry = (slot, particle);
        assert(self@.to_multiset().count(entry) == keyed.to_multiset().count(entry));
        if keyed.contains(entry) {
            let at = choose|at: int| 0 <= at < keyed.len() && keyed[at] == entry;
            assert(at == particle);
        }
        if particle < self.cells().len() && slot == cell_slot(
            self.cells()[particle as int].0 as int,
            self.cells()[particle as int].1 as int,
            self.cells().len(),
        ) {
            assert(keyed[particle as int] == entry);
        }
    }

    /// A query misses no particle of the neighborhood: a particle whose
    /// cell is `cell` or touches it is among the candidates.
    pub proof fn lemma_neighbors_complete(&self, cell: (isize, isize), particle: usize)
        requires
            self.wf(),
            particle < self.cells().len(),
            adjacent(self.cells()[particle as int], cell),
        ensures
            self.neighbors(cell).contains(particle),
    {
        let home = self.cells()[particle as int];
        let n = self.cells().len();
        let slot = cell_slot(home.0 as int, home.1 as int, n) as usize;
        let k = 4 - 3 * (home.1 - cell.1) + (home.0 - cell.0);
        assert(neighbor_cell(cell, k) == (home.0 as int, home.1 as int));
        self.lemma_entries(slot, particle);
        lemma_slot_members_entries(self@, slot, particle);
        lemma_candidates_include(self@, cell, 9, k, particle);
    }

    /// On exact coordinates, where the side of a cell is the radius of
    /// interaction, a query around the cell of a point misses no particle
    /// within that radius of the point.
    pub proof fn lemma_within_radius_found(
        &self,
        point: (int, int),
        cell: (isize, isize),
        size: int,
        particle: usize,
        position: (int, int),
    )
        requires
            self.wf(),
            size > 0,
            cell_of(point.0, point.1, size) == (cell.0 as int, cell.1 as int),
            particle < self.cells().len(),
            cell_of(position.0, position.1, size) == (
                self.cells()[particle as int].0 as int,
                self.cells()[particle as int].1 as int,
            ),
            (position.0 - point.0) * (position.0 - point.0) + (position.1 - point.1) * (position.1
                - point.1) <= size * size,
        ensures
            self.neighbors(cell).contains(particle),
    {
        lemma_within_radius_adjacent(position.0, position.1, point.0, point.1, size);
        self.lemma_neighbors_complete(cell, particle);
    }

    /// A query yields a particle once for each cell of the neighborhood that
    /// has the slot of the cell of the particle: once or more where the
    /// particle lies in the neighborhood, and as often as its cell shares a
    /// slot with a cell of the neighborhood where it lies elsewhere.
    pub proof fn lemma_neighbors_count(&self, cell: (isize, isize), particle: usize)
        requires
            self.wf(),
            particle < self.cells().len(),
        ensures
            self.neighbors(cell).to_multiset().count(particle) == slot_hits(
                cell,
                cell_slot(
                    self.cells()[particle as int].0 as int,
                    self.cells()[particle as int].1 as int,
                    self.cells().len(),
                ) as int,
                self.cells().len(),
                9,
            ),
    {
        broadcast use {
            vstd::seq_lib::group_to_multiset_ensures,
            vstd::multiset::group_multiset_axioms,
        };

        let keyed = keyed(self.cells());
        let home = self.cells()[particle as int];
        let slot = cell_slot(home.0 as int, home.1 as int, self.cells().len()) as usize;
        assert(keyed.no_duplicates());
        keyed.lemma_multiset_has_no_duplicates();
        assert forall|other: usize|
            self@.to_multiset().count((other, particle)) == if other == slot {
                1nat
            } else {
                0nat
            } by {
            self.lemma_entries(other, particle);
            assert(keyed.to_multiset().count((other, particle)) == self@.to_multiset().count(
                (other, particle),
            ));
        }
        lemma_candidates_count(self@, cell, 9, slot, particle);
    }

    /// A query yields only particles, and none but those filed under a slot
    /// of the neighborhood: a candidate lies in a cell that shares its slot
    /// with a cell of the neighborhood.
    pub proof fn lemma_neighbors_sound(&self, cell: (isize, isize), particle: usize) -> (k: int)
        requires
            self.wf(),
            self.neighbors(cell).contains(particle),
        ensures
            particle < self.cells().len(),
            0 <= k < 9,
            cell_slot(
                self.cells()[particle as int].0 as int,
                self.cells()[particle as int].1 as int,
                self.cells().len(),
            ) == neighbor_slot(cell, k, self.cells().len()),
    {
        let k = lemma_candidates_origin(self@, cell, 9, particle);
        let slot = neighbor_slot(cell, k, self@.len());
        let kept = self@.filter(filed_under(slot));
        let at = choose|at: int|
            0 <= at < kept.len() && kept.map_values(particle_of())[at] == particle;
        assert(kept.contains(kept[at]));
        self@.lemma_filter_contains_rev(filed_under(slot), kept[at]);
        self@.lemma_filter_pred(filed_under(slot), at);
        self.lemma_entries(kept[at].0, particle);
        k
    }
}

} // verus!
