use sim_core::hashing::{
    cell_key, checked_hash_cell, hash_cell, key_from_hash, neighbor_key, GRID_OFFSETS,
};

#[test]
fn hash_of_origin_is_zero() {
    assert_eq!(hash_cell((0, 0)), 0);
}

#[test]
fn hash_numbers_cells_diagonal_by_diagonal() {
    assert_eq!(hash_cell((-1, 0)), 1);
    assert_eq!(hash_cell((0, -1)), 2);
    assert_eq!(hash_cell((1, 0)), 3);
    assert_eq!(hash_cell((-1, -1)), 4);
    assert_eq!(hash_cell((0, 1)), 5);
}

#[test]
fn hash_folds_signs_before_pairing() {
    // x = 3 folds to 6, y = -7 folds to 13: 19 * 20 / 2 + 13.
    assert_eq!(hash_cell((3, -7)), 203);
    // x = -4 folds to 7, y = 2 folds to 4: 11 * 12 / 2 + 4.
    assert_eq!(hash_cell((-4, 2)), 70);
}

#[test]
fn hash_is_stable_across_calls() {
    for x in -6isize..=6 {
        for y in -6isize..=6 {
            assert_eq!(hash_cell((x, y)), hash_cell((x, y)));
            assert_eq!(
                key_from_hash(hash_cell((x, y)), 11),
                key_from_hash(hash_cell((x, y)), 11)
            );
        }
    }
}

#[test]
fn hash_has_no_collisions_on_a_block() {
    let mut seen = Vec::new();
    for x in -8isize..=8 {
        for y in -8isize..=8 {
            let hash = hash_cell((x, y));
            assert!(!seen.contains(&hash));
            seen.push(hash);
        }
    }
}

#[test]
fn hash_reaches_every_small_number() {
    let mut seen = vec![false; 45];
    for x in -9isize..=9 {
        for y in -9isize..=9 {
            let hash = hash_cell((x, y));
            if hash < seen.len() {
                seen[hash] = true;
            }
        }
    }
    assert!(seen.iter().all(|hit| *hit));
}

#[test]
fn key_is_hash_modulo_table_size() {
    assert_eq!(key_from_hash(17, 5), 2);
    assert_eq!(key_from_hash(4, 5), 4);
    assert_eq!(key_from_hash(5, 5), 0);
    assert_eq!(key_from_hash(123, 1), 0);
    assert_eq!(key_from_hash(usize::MAX, usize::MAX), 0);
}

#[test]
fn checked_hash_agrees_with_hash() {
    assert_eq!(checked_hash_cell((0, 0)), Some(0));
    assert_eq!(checked_hash_cell((3, -7)), Some(203));
    assert_eq!(checked_hash_cell((-4, 2)), Some(hash_cell((-4, 2))));
}

#[test]
fn checked_hash_refuses_what_does_not_fit() {
    assert_eq!(checked_hash_cell((isize::MAX, isize::MAX)), None);
    assert_eq!(checked_hash_cell((isize::MIN, isize::MIN)), None);
    assert_eq!(checked_hash_cell((isize::MIN, 0)), None);
    assert_eq!(checked_hash_cell((0, isize::MAX)), None);
}

#[test]
fn checked_hash_handles_a_large_diagonal() {
    // Both coordinates fold to 2^20, on diagonal 2^21.
    let side: isize = 1 << 19;
    let sum: usize = 1 << 21;
    let expected = sum / 2 * (sum + 1) + (1 << 20);
    assert_eq!(checked_hash_cell((side, side)), Some(expected));
    assert_eq!(hash_cell((side, side)), expected);
}

#[test]
fn grid_offsets_cover_the_moore_neighborhood() {
    assert_eq!(GRID_OFFSETS.len(), 9);
    for dx in -1isize..=1 {
        for dy in -1isize..=1 {
            assert!(GRID_OFFSETS.contains(&(dx, dy)));
        }
    }
    assert_eq!(GRID_OFFSETS[0], (-1, 1));
    assert_eq!(GRID_OFFSETS[4], (0, 0));
    assert_eq!(GRID_OFFSETS[8], (1, -1));
}

#[test]
fn cell_key_is_the_key_of_the_hash() {
    assert_eq!(cell_key((3, -7), 5), 3);
    assert_eq!(cell_key((123456789012, -98765432109), 1000), 378);
    for x in -5isize..=5 {
        for y in -5isize..=5 {
            for size in [1usize, 2, 3, 7, 64, 1000] {
                assert_eq!(cell_key((x, y), size), key_from_hash(hash_cell((x, y)), size));
            }
        }
    }
}

#[test]
fn cell_key_reaches_cells_whose_hash_does_not_fit() {
    assert_eq!(cell_key((isize::MAX, isize::MAX), 7), 0);
    assert_eq!(cell_key((isize::MIN, isize::MIN), 1000003), 304681);
    assert_eq!(cell_key((isize::MIN, 0), 97), 84);
    assert_eq!(cell_key((0, isize::MAX), usize::MAX), usize::MAX - 1);
    assert_eq!(cell_key((isize::MAX, isize::MIN), 1 << 63), 2);
}

#[test]
fn neighbor_key_follows_the_offsets() {
    let keys: Vec<usize> = (0..9).map(|k| neighbor_key((0, 0), k, 5)).collect();
    assert_eq!(keys, vec![3, 0, 2, 1, 0, 3, 4, 2, 2]);
    for k in 0..9 {
        let (dx, dy) = GRID_OFFSETS[k];
        assert_eq!(neighbor_key((10, -4), k, 17), cell_key((10 + dx, -4 + dy), 17));
    }
}

#[test]
fn neighbor_key_reaches_beyond_the_last_cell() {
    let keys: Vec<usize> = (0..9).map(|k| neighbor_key((isize::MAX, isize::MAX), k, 11)).collect();
    assert_eq!(keys, vec![4, 8, 5, 2, 2, 6, 4, 0, 0]);
    let keys: Vec<usize> = (0..9).map(|k| neighbor_key((isize::MIN, isize::MIN), k, 13)).collect();
    assert_eq!(keys, vec![10, 3, 0, 10, 12, 5, 1, 12, 1]);
}
