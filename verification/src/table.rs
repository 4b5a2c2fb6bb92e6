//! The table of a spatial hash, as a sequence of entries.
//!
//! An entry `(slot, particle)` files a particle under a slot. The table of
//! a population has one entry for each particle, under the slot of the cell
//! that the particle lies in, and is sorted by slot, so that the entries of
//! a slot stand together: its run. What a query around a cell yields is
//! read off the table here, and the facts that relate a table to its runs
//! are proved.

use crate::hashing::{cell_hash, cell_slot, neighbor_cell, neighbor_slot};
use vstd::prelude::*;

verus! {

/// The table before it is sorted: particle `i` filed under the slot of
/// `cells[i]`, in a table with one slot per particle.
pub open spec fn keyed(cells: Seq<(isize, isize)>) -> Seq<(usize, usize)> {
    Seq::new(
        cells.len(),
        |i: int| (cell_slot(cells[i].0 as int, cells[i].1 as int, cells.len()) as usize, i as usize),
    )
}

/// Whether the entries of `keys` ascend by slot.
pub open spec fn sorted_by_slot(keys: Seq<(usize, usize)>) -> bool {
    forall|i: int, j: int| 0 <= i <= j < keys.len() ==> keys[i].0 <= keys[j].0
}

/// Whether some entry of `keys` before position `end` is filed under `slot`.
pub open spec fn slot_occurs(keys: Seq<(usize, usize)>, slot: usize, end: int) -> bool {
    exists|k: int| 0 <= k < end && k < keys.len() && (#[trigger] keys[k]).0 == slot
}

/// Whether `at` is the first position of `keys` filed under `slot`.
pub open spec fn first_of_slot(keys: Seq<(usize, usize)>, slot: usize, at: int) -> bool {
    &&& 0 <= at < keys.len()
    &&& keys[at].0 == slot
    &&& forall|j: int| 0 <= j < at ==> (#[trigger] keys[j]).0 != slot
}

/// The test for an entry to be filed under `slot`.
pub open spec fn filed_under(slot: int) -> spec_fn((usize, usize)) -> bool {
    |entry: (usize, usize)| entry.0 == slot
}

/// The particle of an entry.
pub open spec fn particle_of() -> spec_fn((usize, usize)) -> usize {
    |entry: (usize, usize)| entry.1
}

/// The particles that `keys` files under `slot`, in table order.
pub open spec fn slot_members(keys: Seq<(usize, usize)>, slot: int) -> Seq<usize> {
    keys.filter(filed_under(slot)).map_values(particle_of())
}

/// Whether the two cells are equal or touch, at a side or at a corner.
pub open spec fn adjacent(a: (isize, isize), b: (isize, isize)) -> bool {
    -1 <= a.0 - b.0 <= 1 && -1 <= a.1 - b.1 <= 1
}

/// The particles filed under the slots of the first `count` cells of the
/// Moore neighborhood of `cell`: the runs of those slots, one after the
/// other. A slot that two of the cells share is read twice.
pub open spec fn candidates(keys: Seq<(usize, usize)>, cell: (isize, isize), count: nat) -> Seq<
    usize,
>
    decreases count,
{
    if count == 0 {
        Seq::empty()
    } else {
        candidates(keys, cell, (count - 1) as nat) + slot_members(
            keys,
            neighbor_slot(cell, count - 1, keys.len()),
        )
    }
}

/// How many of the first `count` cells of the Moore neighborhood of `cell`
/// have the slot `slot`.
pub open spec fn slot_hits(cell: (isize, isize), slot: int, table_size: nat, count: nat) -> nat
    decreases count,
{
    if count == 0 {
        0
    } else {
        slot_hits(cell, slot, table_size, (count - 1) as nat) + if neighbor_slot(
            cell,
            count - 1,
            table_size,
        ) == slot {
            1nat
        } else {
            0nat
        }
    }
}

/// The test for a particle to be another than `particle`.
pub open spec fn other_than(particle: usize) -> spec_fn(usize) -> bool {
    |candidate: usize| candidate != particle
}

/// In a table where the entries filed under `slot` are exactly those at the
/// positions from `first` up to `end`, the entries of a prefix that are
/// filed under `slot` are the part of that window inside the prefix.
pub proof fn lemma_filter_window(keys: Seq<(usize, usize)>, slot: int, first: int, end: int, m: int)
    requires
        0 <= first <= end <= keys.len(),
        forall|j: int| 0 <= j < keys.len() ==> ((#[trigger] keys[j]).0 == slot <==> first <= j < end),
        0 <= m <= keys.len(),
    ensures
        keys.take(m).filter(filed_under(slot)) == keys.subrange(
            if m < first { m } else { first },
            if m < end { m } else { end },
        ),
    decreases m,
{
    broadcast use Seq::lemma_filter_push;

    if m == 0 {
        assert(keys.take(0).filter(filed_under(slot)) == Seq::<(usize, usize)>::empty());
    } else {
        lemma_filter_window(keys, slot, first, end, m - 1);
        assert(keys.take(m) == keys.take(m - 1).push(keys[m - 1]));
        assert(filed_under(slot)(keys[m - 1]) <==> first <= m - 1 < end);
    }
}

/// The run of `slot` in a sorted table: where the entries from `first` up
/// to `end` are filed under `slot`, none before `first` is, and the entry
/// at `end`, if there is one, is not, the members of the slot are the
/// particles of that window.
pub proof fn lemma_slot_run(keys: Seq<(usize, usize)>, slot: usize, first: int, end: int)
    requires
        sorted_by_slot(keys),
        0 <= first < end <= keys.len(),
        forall|j: int| 0 <= j < first ==> (#[trigger] keys[j]).0 != slot,
        forall|j: int| first <= j < end ==> (#[trigger] keys[j]).0 == slot,
        end < keys.len() ==> keys[end].0 != slot,
    ensures
        slot_members(keys, slot as int) == keys.subrange(first, end).map_values(particle_of()),
{
    assert forall|j: int| end <= j < keys.len() implies (#[trigger] keys[j]).0 != slot by {
        assert(keys[first].0 <= keys[end].0 <= keys[j].0);
    }
    lemma_filter_window(keys, slot as int, first, end, keys.len() as int);
    assert(keys.take(keys.len() as int) == keys);
}

/// A slot that no entry is filed under has no members.
pub proof fn lemma_slot_unused(keys: Seq<(usize, usize)>, slot: usize)
    requires
        !slot_occurs(keys, slot, keys.len() as int),
    ensures
        slot_members(keys, slot as int) == Seq::<usize>::empty(),
{
    lemma_filter_window(keys, slot as int, 0, 0, keys.len() as int);
    assert(keys.take(keys.len() as int) == keys);
}

/// An empty table has no candidates.
pub proof fn lemma_candidates_of_nothing(keys: Seq<(usize, usize)>, cell: (isize, isize), count: nat)
    requires
        keys.len() == 0,
    ensures
        candidates(keys, cell, count) == Seq::<usize>::empty(),
    decreases count,
{
    if count > 0 {
        lemma_candidates_of_nothing(keys, cell, (count - 1) as nat);
        assert(slot_members(keys, neighbor_slot(cell, count - 1, keys.len())) == Seq::<
            usize,
        >::empty());
    }
}

/// The candidates of a longer stretch of the neighborhood include the
/// members of each slot of the stretch.
pub proof fn lemma_candidates_include(
    keys: Seq<(usize, usize)>,
    cell: (isize, isize),
    count: nat,
    k: int,
    particle: usize,
)
    requires
        0 <= k < count,
        slot_members(keys, neighbor_slot(cell, k, keys.len())).contains(particle),
    ensures
        candidates(keys, cell, count).contains(particle),
    decreases count,
{
    let head = candidates(keys, cell, (count - 1) as nat);
    let run = slot_members(keys, neighbor_slot(cell, count - 1, keys.len()));
    if k == count - 1 {
        let at = choose|at: int| 0 <= at < run.len() && run[at] == particle;
        assert((head + run)[head.len() + at] == particle);
    } else {
        lemma_candidates_include(keys, cell, (count - 1) as nat, k, particle);
        let at = choose|at: int| 0 <= at < head.len() && head[at] == particle;
        assert((head + run)[at] == particle);
    }
}

/// A candidate is a member of one of the slots of the stretch.
pub proof fn lemma_candidates_origin(
    keys: Seq<(usize, usize)>,
    cell: (isize, isize),
    count: nat,
    particle: usize,
) -> (k: int)
    requires
        candidates(keys, cell, count).contains(particle),
    ensures
        0 <= k < count,
        slot_members(keys, neighbor_slot(cell, k, keys.len())).contains(particle),
    decreases count,
{
    let head = candidates(keys, cell, (count - 1) as nat);
    let run = slot_members(keys, neighbor_slot(cell, count - 1, keys.len()));
    let at = choose|at: int|
        0 <= at < candidates(keys, cell, count).len() && candidates(keys, cell, count)[at]
            == particle;
    if count == 0 {
        0
    } else if at < head.len() {
        assert(head[at] == particle);
        lemma_candidates_origin(keys, cell, (count - 1) as nat, particle)
    } else {
        assert(run[at - head.len()] == particle);
        count - 1
    }
}

/// The members of a slot are the particles of the entries filed under it.
pub proof fn lemma_slot_members_entries(keys: Seq<(usize, usize)>, slot: usize, particle: usize)
    ensures
        slot_members(keys, slot as int).contains(particle) <==> keys.contains((slot, particle)),
{
    broadcast use vstd::seq_lib::group_filter_ensures;

    let kept = keys.filter(filed_under(slot as int));
    if slot_members(keys, slot as int).contains(particle) {
        let at = choose|at: int| 0 <= at < kept.len() && kept.map_values(particle_of())[at] == particle;
        assert(kept.contains(kept[at]));
        keys.lemma_filter_contains_rev(filed_under(slot as int), kept[at]);
        assert(kept[at] == (slot, particle));
    }
    if keys.contains((slot, particle)) {
        let at = choose|at: int| 0 <= at < keys.len() && keys[at] == (slot, particle);
        assert(filed_under(slot as int)(keys[at]));
        assert(kept.contains(keys[at]));
        let to = choose|to: int| 0 <= to < kept.len() && kept[to] == (slot, particle);
        assert(kept.map_values(particle_of())[to] == particle);
    }
}

/// The members of a slot hold a particle as often as the table holds the
/// entry of that particle under that slot.
pub proof fn lemma_slot_members_count(keys: Seq<(usize, usize)>, slot: usize, particle: usize)
    ensures
        slot_members(keys, slot as int).to_multiset().count(particle) == keys.to_multiset().count(
            (slot, particle),
        ),
    decreases keys.len(),
{
    broadcast use {vstd::seq_lib::group_to_multiset_ensures, vstd::multiset::group_multiset_axioms};

    let test = filed_under(slot as int);
    if keys.len() == 0 {
        assert(keys.filter(test).map_values(particle_of()) == Seq::<usize>::empty());
        assert(!keys.contains((slot, particle)));
        assert(!Seq::<usize>::empty().contains(particle));
    } else {
        let front = keys.drop_last();
        let entry = keys.last();
        lemma_slot_members_count(front, slot, particle);
        assert(keys == front.push(entry));
        front.lemma_filter_push(entry, test);
        if test(entry) {
            assert(front.filter(test).push(entry).map_values(particle_of()) == front.filter(
                test,
            ).map_values(particle_of()).push(entry.1));
        }
    }
}

/// Where the table holds one entry of a particle, under `slot`, the
/// candidates hold the particle once for each cell of the stretch that has
/// this slot.
pub proof fn lemma_candidates_count(
    keys: Seq<(usize, usize)>,
    cell: (isize, isize),
    count: nat,
    slot: usize,
    particle: usize,
)
    requires
        0 < keys.len() <= usize::MAX,
        forall|other: usize|
            keys.to_multiset().count((other, particle)) == if other == slot {
                1nat
            } else {
                0nat
            },
    ensures
        candidates(keys, cell, count).to_multiset().count(particle) == slot_hits(
            cell,
            slot as int,
            keys.len(),
            count,
        ),
    decreases count,
{
    broadcast use {
        vstd::seq_lib::lemma_multiset_commutative,
        vstd::seq_lib::group_to_multiset_ensures,
        vstd::multiset::group_multiset_axioms,
    };

    if count == 0 {
        assert(!candidates(keys, cell, 0).contains(particle));
    } else {
        lemma_candidates_count(keys, cell, (count - 1) as nat, slot, particle);
        let read = neighbor_slot(cell, count - 1, keys.len());
        assert(0 <= read < keys.len()) by {
            let target = neighbor_cell(cell, count - 1);
            vstd::arithmetic::div_mod::lemma_mod_bound(
                cell_hash(target.0, target.1) as int,
                keys.len() as int,
            );
        }
        lemma_slot_members_count(keys, read as usize, particle);
    }
}

} // verus!
