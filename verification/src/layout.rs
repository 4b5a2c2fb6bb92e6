//! The initial arrangement of the particles: a grid, filled row by row.
//!
//! The grid has a given number of sites to a row and as many rows as the
//! particles need. The last row may be short. Along each axis the sites
//! span the whole extent, so an axis with `k` sites is cut into `k - 1`
//! intervals, and into one where it has a single site.

use vstd::prelude::*;

verus! {

/// The number of rows that `particle_count` particles fill at
/// `particles_per_row` to a row, the last row counted where it is short.
pub open spec fn rows_needed(particle_count: nat, particles_per_row: nat) -> nat
    recommends
        particles_per_row > 0,
{
    if particle_count % particles_per_row == 0 {
        particle_count / particles_per_row
    } else {
        particle_count / particles_per_row + 1
    }
}

/// The number of intervals between the first and the last of `sites` sites
/// on an axis, and one where the axis has a single site.
pub open spec fn intervals(sites: nat) -> nat
    recommends
        sites > 0,
{
    if sites <= 1 {
        1
    } else {
        (sites - 1) as nat
    }
}

/// The `(row, column)` of particle `i` in a grid filled row by row.
pub open spec fn site_of(i: int, particles_per_row: int) -> (int, int)
    recommends
        particles_per_row > 0,
{
    (i / particles_per_row, i % particles_per_row)
}

/// The rows are the fewest that hold all the particles.
pub proof fn lemma_rows_needed_least(particle_count: nat, particles_per_row: nat)
    requires
        particles_per_row > 0,
    ensures
        rows_needed(particle_count, particles_per_row) * particles_per_row >= particle_count,
        particle_count > 0 ==> (rows_needed(particle_count, particles_per_row) - 1)
            * particles_per_row < particle_count,
{
    let q = particle_count / particles_per_row;
    let r = particle_count % particles_per_row;
    assert(particle_count == particles_per_row * q + r) by {
        vstd::arithmetic::div_mod::lemma_fundamental_div_mod(
            particle_count as int,
            particles_per_row as int,
        );
    }
    assert(q * particles_per_row == particles_per_row * q) by (nonlinear_arith);
    assert((q + 1) * particles_per_row == q * particles_per_row + particles_per_row)
        by (nonlinear_arith);
    assert((q - 1) * particles_per_row == q * particles_per_row - particles_per_row)
        by (nonlinear_arith);
}

/// Every particle has a site of its own, inside the grid.
pub proof fn lemma_sites_apart(i: int, j: int, particle_count: nat, particles_per_row: nat)
    requires
        particles_per_row > 0,
        0 <= i < particle_count,
        0 <= j < particle_count,
    ensures
        0 <= site_of(i, particles_per_row as int).0 < rows_needed(particle_count, particles_per_row),
        0 <= site_of(i, particles_per_row as int).1 < particles_per_row,
        site_of(i, particles_per_row as int) == site_of(j, particles_per_row as int) ==> i == j,
{
    let w = particles_per_row as int;
    vstd::arithmetic::div_mod::lemma_fundamental_div_mod(i, w);
    vstd::arithmetic::div_mod::lemma_fundamental_div_mod(j, w);
    lemma_rows_needed_least(particle_count, particles_per_row);
    let rows = rows_needed(particle_count, particles_per_row) as int;
    let row = i / w;
    assert(0 <= row) by (nonlinear_arith)
        requires
            row == i / w,
            i >= 0,
            w > 0,
    ;
    if row >= rows {
        assert(w * row >= w * rows) by (nonlinear_arith)
            requires
                row >= rows,
                w > 0,
        ;
        assert(rows * w == w * rows) by (nonlinear_arith);
    }
}

/// Counts the rows of the grid.
pub fn grid_rows(particle_count: usize, particles_per_row: usize) -> (rows: usize)
    requires
        particles_per_row > 0,
    ensures
        rows == rows_needed(particle_count as nat, particles_per_row as nat),
{
    let full = particle_count / particles_per_row;
    if particle_count % particles_per_row == 0 {
        full
    } else {
        assert(full < usize::MAX) by {
            lemma_rows_needed_least(particle_count as nat, particles_per_row as nat);
            assert(full * particles_per_row >= full) by (nonlinear_arith)
                requires
                    particles_per_row >= 1,
                    full >= 0,
            ;
        }
        full + 1
    }
}

/// Counts the intervals into which `sites` sites cut an axis.
pub fn spacing_intervals(sites: usize) -> (count: usize)
    requires
        sites > 0,
    ensures
        count == intervals(sites as nat),
{
    if sites - 1 > 1 {
        sites - 1
    } else {
        1
    }
}

/// Places the particles on the grid: particle `i` gets the `(row, column)`
/// of the `i`-th site, counted row by row.
pub fn grid_sites(particle_count: usize, particles_per_row: usize) -> (sites: Vec<(usize, usize)>)
    requires
        particles_per_row > 0,
    ensures
        sites.len() == particle_count,
        forall|i: int|
            0 <= i < particle_count ==> {
                &&& (#[trigger] sites[i]).0 == site_of(i, particles_per_row as int).0
                &&& sites[i].1 == site_of(i, particles_per_row as int).1
            },
        forall|i: int|
            0 <= i < particle_count ==> {
                &&& (#[trigger] sites[i]).0 < rows_needed(
                    particle_count as nat,
                    particles_per_row as nat,
                )
                &&& sites[i].1 < particles_per_row
            },
        forall|i: int, j: int|
            0 <= i < j < particle_count ==> #[trigger] sites[i] != #[trigger] sites[j],
{
    proof {
        assert forall|i: int, j: int| 0 <= i < particle_count && 0 <= j < particle_count implies {
            &&& 0 <= (#[trigger] site_of(i, particles_per_row as int)).0 < rows_needed(
                particle_count as nat,
                particles_per_row as nat,
            )
            &&& 0 <= site_of(i, particles_per_row as int).1 < particles_per_row
            &&& site_of(i, particles_per_row as int) == (#[trigger] site_of(
                j,
                particles_per_row as int,
            )) ==> i == j
        } by {
            lemma_sites_apart(i, j, particle_count as nat, particles_per_row as nat);
        }
    }
    let rows = grid_rows(particle_count, particles_per_row);
    let mut sites: Vec<(usize, usize)> = Vec::with_capacity(particle_count);
    let mut row: usize = 0;
    proof {
        lemma_rows_needed_least(particle_count as nat, particles_per_row as nat);
    }
    while row < rows
        invariant
            particles_per_row > 0,
            row <= rows,
            rows * particles_per_row >= particle_count,
            sites.len() == if row * particles_per_row < particle_count {
                row * particles_per_row
            } else {
                particle_count as int
            },
            forall|i: int|
                0 <= i < sites.len() ==> {
                    &&& (#[trigger] sites[i]).0 == site_of(i, particles_per_row as int).0
                    &&& sites[i].1 == site_of(i, particles_per_row as int).1
                },
        decreases rows - row,
    {
        let ghost base = sites.len();
        let mut col: usize = 0;
        assert((row + 1) * particles_per_row == row * particles_per_row + particles_per_row)
            by (nonlinear_arith);
        while col < particles_per_row
            invariant_except_break
                sites.len() == base + col,
            invariant
                particles_per_row > 0,
                (row + 1) * particles_per_row == row * particles_per_row + particles_per_row,
                col <= particles_per_row,
                base == if row * particles_per_row < particle_count {
                    row * particles_per_row
                } else {
                    particle_count as int
                },
                base <= sites.len() <= particle_count,
                forall|i: int|
                    0 <= i < sites.len() ==> {
                        &&& (#[trigger] sites[i]).0 == site_of(i, particles_per_row as int).0
                        &&& sites[i].1 == site_of(i, particles_per_row as int).1
                    },
            ensures
                sites.len() == if (row + 1) * particles_per_row < particle_count {
                    (row + 1) * particles_per_row
                } else {
                    particle_count as int
                },
            decreases particles_per_row - col,
        {
            if sites.len() >= particle_count {
                break ;
            }
            proof {
                let i = sites.len() as int;
                assert(i == row * particles_per_row + col);
                vstd::arithmetic::div_mod::lemma_fundamental_div_mod_converse(
                    i,
                    particles_per_row as int,
                    row as int,
                    col as int,
                );
            }
            sites.push((row, col));
            col += 1;
        }
        row += 1;
    }
    sites
}

} // verus!
