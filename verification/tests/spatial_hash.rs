use sim_core::hashing::{hash_cell, key_from_hash, GRID_OFFSETS};
use sim_core::spatial_hash::SpatialHash;

fn count(found: &[usize], particle: usize) -> usize {
    found.iter().filter(|p| **p == particle).count()
}

fn index_of(cells: &Vec<(isize, isize)>) -> SpatialHash {
    let mut index = SpatialHash::new();
    index.rebuild(cells);
    index
}

#[test]
fn new_index_is_empty() {
    let index = SpatialHash::new();
    assert_eq!(index.len(), 0);
}

#[test]
fn rebuild_takes_one_slot_per_particle() {
    let cells = vec![(0, 0), (5, 5), (-3, 2), (0, 0)];
    let index = index_of(&cells);
    assert_eq!(index.len(), 4);
}

#[test]
fn single_particle_is_found_once_per_neighbor_cell() {
    // With one slot every cell of the neighborhood shares it.
    let index = index_of(&vec![(0, 0)]);
    assert_eq!(index.neighbors_of((0, 0)), vec![0; 9]);
    assert_eq!(index.neighbors_of((40, -17)), vec![0; 9]);
}

#[test]
fn query_reads_the_whole_run_of_a_slot() {
    // Slots, in a table of three: (0, -1) -> 2, (0, 0) -> 0, (0, 1) -> 2. The
    // two particles of slot 2 are apart in the input and meet in the table.
    let cells = vec![(0, -1), (0, 0), (0, 1)];
    let index = index_of(&cells);
    let found = index.neighbors_of((0, 0));
    // The neighborhood of (0, 0) has the slots 2, 2, 0, 1, 0, 0, 1, 2, 1.
    assert_eq!(found.len(), 9);
    assert_eq!(count(&found, 0), 3);
    assert_eq!(count(&found, 1), 3);
    assert_eq!(count(&found, 2), 3);
    assert_eq!(found[4], 1);
    assert_eq!(found[5], 1);
    assert_eq!(found[6], 1);
}

#[test]
fn query_follows_the_order_of_the_offsets() {
    // Five particles on a plus sign, in a table of five slots.
    let cells: Vec<(isize, isize)> = vec![(0, 0), (1, 0), (-1, 0), (0, 1), (0, -1)];
    let index = index_of(&cells);
    let found = index.neighbors_of((0, 0));
    let mut expected: Vec<usize> = Vec::new();
    for (dx, dy) in GRID_OFFSETS {
        let slot = key_from_hash(hash_cell((dx, dy)), 5);
        let mut run: Vec<usize> = (0..5)
            .filter(|i| key_from_hash(hash_cell(cells[*i]), 5) == slot)
            .collect();
        let at = expected.len();
        expected.append(&mut run);
        let mut got = found[at..expected.len()].to_vec();
        got.sort();
        assert_eq!(got, expected[at..].to_vec());
    }
    assert_eq!(found.len(), expected.len());
}

#[test]
fn query_misses_no_particle_of_the_neighborhood() {
    let mut cells: Vec<(isize, isize)> = Vec::new();
    for x in -4isize..=4 {
        for y in -4isize..=4 {
            cells.push((x, y));
            cells.push((x, y));
        }
    }
    let index = index_of(&cells);
    for qx in -5isize..=5 {
        for qy in -5isize..=5 {
            let found = index.neighbors_of((qx, qy));
            for (i, cell) in cells.iter().enumerate() {
                if (cell.0 - qx).abs() <= 1 && (cell.1 - qy).abs() <= 1 {
                    assert!(found.contains(&i));
                }
            }
        }
    }
}

#[test]
fn query_yields_only_particles_that_share_a_slot_with_the_neighborhood() {
    let cells: Vec<(isize, isize)> = vec![(0, 0), (7, 3), (-2, -9), (12, 12), (1, 1), (-6, 4), (3, -3)];
    let n = cells.len();
    let index = index_of(&cells);
    let found = index.neighbors_of((2, 2));
    let slots: Vec<usize> = GRID_OFFSETS
        .iter()
        .map(|(dx, dy)| key_from_hash(hash_cell((2 + dx, 2 + dy)), n))
        .collect();
    for particle in &found {
        assert!(*particle < n);
        assert!(slots.contains(&key_from_hash(hash_cell(cells[*particle]), n)));
    }
    for (particle, cell) in cells.iter().enumerate() {
        let slot = key_from_hash(hash_cell(*cell), n);
        let shared = slots.iter().filter(|s| **s == slot).count();
        assert_eq!(count(&found, particle), shared);
    }
}

#[test]
fn rebuild_replaces_the_earlier_contents() {
    let mut index = SpatialHash::new();
    index.rebuild(&vec![(0, 0), (0, 0), (0, 0)]);
    assert_eq!(index.len(), 3);
    index.rebuild(&vec![(100, 100), (0, 0)]);
    assert_eq!(index.len(), 2);
    let found = index.neighbors_of((0, 0));
    assert!(found.contains(&1));
    assert!(found.iter().all(|p| *p < 2));
    let far = index.neighbors_of((100, 100));
    assert!(far.contains(&0));
}

#[test]
fn rebuild_of_nothing_leaves_an_empty_index() {
    let mut index = SpatialHash::new();
    index.rebuild(&vec![(1, 1)]);
    index.rebuild(&Vec::new());
    assert_eq!(index.len(), 0);
}

#[test]
fn query_without_the_particle_itself() {
    let index = index_of(&vec![(0, 0)]);
    assert_eq!(index.neighbors_except((0, 0), 0), Vec::<usize>::new());

    let cells = vec![(0, -1), (0, 0), (0, 1)];
    let index = index_of(&cells);
    let all = index.neighbors_of((0, 0));
    for particle in 0..3 {
        let others = index.neighbors_except((0, 0), particle);
        let expected: Vec<usize> = all.iter().copied().filter(|p| *p != particle).collect();
        assert_eq!(others, expected);
        assert_eq!(others.len(), 6);
    }
    assert_eq!(index.neighbors_except((0, 0), 7), all);
}

#[test]
fn others_in_the_neighborhood_are_never_missed() {
    let mut cells: Vec<(isize, isize)> = Vec::new();
    for x in -3isize..=3 {
        for y in -3isize..=3 {
            cells.push((x, y));
        }
    }
    let index = index_of(&cells);
    for (particle, home) in cells.iter().enumerate() {
        let found = index.neighbors_except(*home, particle);
        assert!(!found.contains(&particle));
        for (other, cell) in cells.iter().enumerate() {
            if other != particle && (cell.0 - home.0).abs() <= 1 && (cell.1 - home.1).abs() <= 1 {
                assert!(found.contains(&other));
            }
        }
    }
}

#[test]
fn particles_within_the_radius_are_found() {
    // Points on a line, ten units apart, on a grid of cells of side 25.
    let size: isize = 25;
    let points: Vec<(isize, isize)> = (-20isize..=20).map(|i| (10 * i, -3 * i)).collect();
    let cells: Vec<(isize, isize)> = points
        .iter()
        .map(|p| (p.0.div_euclid(size), p.1.div_euclid(size)))
        .collect();
    let index = index_of(&cells);
    for (i, p) in points.iter().enumerate() {
        let found = index.neighbors_of(cells[i]);
        for (j, q) in points.iter().enumerate() {
            let (dx, dy) = (p.0 - q.0, p.1 - q.1);
            if dx * dx + dy * dy <= size * size {
                assert!(found.contains(&j));
            }
        }
    }
}

#[test]
fn empty_index_yields_nothing() {
    let index = SpatialHash::new();
    assert_eq!(index.neighbors_of((0, 0)), Vec::<usize>::new());
    assert_eq!(index.neighbors_except((3, 3), 0), Vec::<usize>::new());
}

#[test]
fn cells_at_the_edge_of_the_range_are_indexed() {
    let cells = vec![
        (isize::MAX, isize::MAX),
        (isize::MIN, isize::MIN),
        (isize::MAX - 1, isize::MAX),
        (0, 0),
        (isize::MIN, isize::MIN + 1),
    ];
    let index = index_of(&cells);
    assert_eq!(index.len(), 5);
    let high = index.neighbors_of((isize::MAX, isize::MAX));
    assert!(high.contains(&0));
    assert!(high.contains(&2));
    let low = index.neighbors_of((isize::MIN, isize::MIN));
    assert!(low.contains(&1));
    assert!(low.contains(&4));
    let inner = index.neighbors_except((isize::MAX - 1, isize::MAX - 1), 2);
    assert!(inner.contains(&0));
    assert!(!inner.contains(&2));
}
