//! Hashing of grid cells into the slots of a bounded table.
//!
//! A cell is a pair of signed grid coordinates. Its hash folds each
//! coordinate onto the naturals and pairs the two with the Cantor pairing
//! function, which numbers the whole plane without collisions. A slot is
//! the hash reduced modulo the size of the table, where distinct cells may
//! meet. The hash of a cell far from the origin does not fit a machine
//! word; its slot is found all the same.
//!
//! The cells of a grid have the side of the radius within which particles
//! interact, so that what interacts with a point lies in the cell of the
//! point or in one that touches it.

use vstd::prelude::*;

verus! {

/// The nine cell offsets of a Moore neighborhood, the centre included.
pub const GRID_OFFSETS: [(isize, isize); 9] = [
    (-1, 1),
    (0, 1),
    (1, 1),
    (-1, 0),
    (0, 0),
    (1, 0),
    (-1, -1),
    (0, -1),
    (1, -1),
];

/// Folds the integers onto the naturals: `0, -1, 1, -2, 2, ...` become
/// `0, 1, 2, 3, 4, ...`.
pub open spec fn zigzag(v: int) -> nat {
    if v >= 0 {
        (2 * v) as nat
    } else {
        (-2 * v - 1) as nat
    }
}

/// The integer that `zigzag` sends to `n`.
pub open spec fn unzigzag(n: nat) -> int {
    if n % 2 == 0 {
        n as int / 2
    } else {
        -((n as int + 1) / 2)
    }
}

/// The number of pairs of naturals whose sum is below `n`.
pub open spec fn triangular(n: nat) -> nat {
    n * (n + 1) / 2
}

/// The Cantor pairing of two naturals: pairs are numbered diagonal by
/// diagonal, and along a diagonal by their second component.
pub open spec fn cantor_pair(x: nat, y: nat) -> nat {
    triangular(x + y) + y
}

/// The hash of the grid cell `(x, y)`.
pub open spec fn cell_hash(x: int, y: int) -> nat {
    cantor_pair(zigzag(x), zigzag(y))
}

/// Whether the hash of the cell `(x, y)` fits a machine word.
pub open spec fn hashable(x: int, y: int) -> bool {
    cell_hash(x, y) <= usize::MAX
}

/// The table slot of the cell `(x, y)` in a table of `table_size` slots.
pub open spec fn cell_slot(x: int, y: int, table_size: nat) -> nat
    recommends
        table_size > 0,
{
    cell_hash(x, y) % table_size
}

/// The cell at offset `k` of the Moore neighborhood of `cell`.
pub open spec fn neighbor_cell(cell: (isize, isize), k: int) -> (int, int) {
    (cell.0 + GRID_OFFSETS[k].0, cell.1 + GRID_OFFSETS[k].1)
}

/// The slot of the cell at offset `k` of the Moore neighborhood of `cell`.
pub open spec fn neighbor_slot(cell: (isize, isize), k: int, table_size: nat) -> int {
    cell_slot(neighbor_cell(cell, k).0, neighbor_cell(cell, k).1, table_size) as int
}

/// The grid coordinate of the exact coordinate `p` on a grid whose cells
/// have the side `size`: the quotient, rounded down.
pub open spec fn grid_coordinate(p: int, size: int) -> int
    recommends
        size > 0,
{
    p / size
}

/// The cell of the exact point `(x, y)` on a grid whose cells have the side
/// `size`.
pub open spec fn cell_of(x: int, y: int, size: int) -> (int, int)
    recommends
        size > 0,
{
    (grid_coordinate(x, size), grid_coordinate(y, size))
}

/// Folds a coordinate onto the naturals.
fn fold_sign(v: isize) -> (r: usize)
    ensures
        r == zigzag(v as int),
{
    if v >= 0 {
        2 * (v as usize)
    } else {
        2 * ((-(v + 1)) as usize) + 1
    }
}

/// Hashes a grid cell, or reports that its hash does not fit a machine
/// word.
pub fn checked_hash_cell(cell: (isize, isize)) -> (hash: Option<usize>)
    ensures
        match hash {
            Some(hash) => hashable(cell.0 as int, cell.1 as int) && hash == cell_hash(
                cell.0 as int,
                cell.1 as int,
            ),
            None => !hashable(cell.0 as int, cell.1 as int),
        },
{
    let x = fold_sign(cell.0);
    let y = fold_sign(cell.1);
    proof {
        lemma_cantor_pair_dominates(x as nat, y as nat);
    }
    let sum = match x.checked_add(y) {
        Some(sum) => sum,
        None => {
            return None;
        },
    };
    if sum == usize::MAX {
        proof {
            lemma_triangular_bound(sum as nat);
        }
        return None;
    }
    proof {
        lemma_triangular_halves(sum as nat);
    }
    let diagonal = if sum % 2 == 0 {
        (sum / 2).checked_mul(sum + 1)
    } else {
        sum.checked_mul((sum + 1) / 2)
    };
    match diagonal {
        Some(start) => start.checked_add(y),
        None => None,
    }
}

/// Hashes a grid cell: each coordinate is folded onto the naturals, and
/// the two are paired.
pub fn hash_cell(cell: (isize, isize)) -> (hash: usize)
    requires
        hashable(cell.0 as int, cell.1 as int),
    ensures
        hash == cell_hash(cell.0 as int, cell.1 as int),
{
    let x = fold_sign(cell.0);
    let y = fold_sign(cell.1);
    proof {
        lemma_cantor_pair_dominates(x as nat, y as nat);
        lemma_triangular_bound((x + y) as nat);
        lemma_triangular_halves((x + y) as nat);
    }
    let sum = x + y;
    let diagonal = if sum % 2 == 0 {
        (sum / 2) * (sum + 1)
    } else {
        sum * ((sum + 1) / 2)
    };
    diagonal + y
}

/// Reduces a hash to a slot of a table of `table_size` slots.
pub fn key_from_hash(hash: usize, table_size: usize) -> (key: usize)
    requires
        table_size > 0,
    ensures
        key == hash % table_size,
        key < table_size,
{
    hash % table_size
}

/// Folds a coordinate no more than one step beyond the range of a machine
/// word onto the naturals.
fn fold_wide(v: i128) -> (r: u128)
    requires
        -0x1_0000_0000_0000_0000 <= v <= 0x1_0000_0000_0000_0000,
    ensures
        r == zigzag(v as int),
{
    if v >= 0 {
        2 * (v as u128)
    } else {
        2 * ((-(v + 1)) as u128) + 1
    }
}

/// Finds the slot of the cell `(x, y)` without forming its hash: the
/// pairing is computed modulo the size of the table throughout.
fn wide_key(x: i128, y: i128, table_size: usize) -> (key: usize)
    requires
        -0x1_0000_0000_0000_0000 <= x <= 0x1_0000_0000_0000_0000,
        -0x1_0000_0000_0000_0000 <= y <= 0x1_0000_0000_0000_0000,
        table_size > 0,
    ensures
        key == cell_slot(x as int, y as int, table_size as nat),
        key < table_size,
{
    let folded_x = fold_wide(x);
    let folded_y = fold_wide(y);
    let sum = folded_x + folded_y;
    let size = table_size as u128;
    let (half, other) = if sum % 2 == 0 {
        (sum / 2, sum + 1)
    } else {
        ((sum + 1) / 2, sum)
    };
    proof {
        lemma_triangular_halves(sum as nat);
        assert(triangular(sum as nat) == half * other) by (nonlinear_arith)
            requires
                sum % 2 == 0 ==> triangular(sum as nat) == (sum / 2) * (sum + 1) && half == sum / 2
                    && other == sum + 1,
                sum % 2 == 1 ==> triangular(sum as nat) == sum * ((sum + 1) / 2) && half == (sum
                    + 1) / 2 && other == sum,
        ;
        vstd::arithmetic::div_mod::lemma_mul_mod_noop(half as int, other as int, size as int);
        vstd::arithmetic::div_mod::lemma_add_mod_noop(
            (half * other) as int,
            folded_y as int,
            size as int,
        );
        vstd::arithmetic::div_mod::lemma_mod_twice((half * other) as int, size as int);
        let a = (half % size) as int;
        let b = (other % size) as int;
        assert(a * b <= 0xffff_ffff_ffff_ffff * 0xffff_ffff_ffff_ffff) by (nonlinear_arith)
            requires
                0 <= a <= 0xffff_ffff_ffff_ffff,
                0 <= b <= 0xffff_ffff_ffff_ffff,
        ;
    }
    let diagonal = ((half % size) * (other % size)) % size;
    let key = (diagonal + folded_y % size) % size;
    key as usize
}

/// Finds the slot of a cell in a table of `table_size` slots: the key of
/// its hash, also where the hash itself does not fit a machine word.
pub fn cell_key(cell: (isize, isize), table_size: usize) -> (key: usize)
    requires
        table_size > 0,
    ensures
        key == cell_slot(cell.0 as int, cell.1 as int, table_size as nat),
        key < table_size,
{
    match checked_hash_cell(cell) {
        Some(hash) => key_from_hash(hash, table_size),
        None => wide_key(cell.0 as i128, cell.1 as i128, table_size),
    }
}

/// Finds the slot of the cell at offset `k` of the Moore neighborhood of
/// `cell`, also where that cell lies beyond the range of a machine word.
pub fn neighbor_key(cell: (isize, isize), k: usize, table_size: usize) -> (key: usize)
    requires
        k < 9,
        table_size > 0,
    ensures
        key == neighbor_slot(cell, k as int, table_size as nat),
        key < table_size,
{
    let (dx, dy) = GRID_OFFSETS[k];
    match (cell.0.checked_add(dx), cell.1.checked_add(dy)) {
        (Some(x), Some(y)) => cell_key((x, y), table_size),
        _ => wide_key(cell.0 as i128 + dx as i128, cell.1 as i128 + dy as i128, table_size),
    }
}

/// The hash grows with either folded coordinate.
pub proof fn lemma_cell_hash_monotonic(x1: int, y1: int, x2: int, y2: int)
    requires
        zigzag(x1) <= zigzag(x2),
        zigzag(y1) <= zigzag(y2),
    ensures
        cell_hash(x1, y1) <= cell_hash(x2, y2),
{
    lemma_triangular_monotonic(zigzag(x1) + zigzag(y1), zigzag(x2) + zigzag(y2));
}

/// A cell whose coordinates lie within `2^14` of zero can be hashed,
/// whatever the width of the machine word.
pub proof fn lemma_hashable_near_origin(x: int, y: int)
    requires
        -0x4000 <= x <= 0x4000,
        -0x4000 <= y <= 0x4000,
    ensures
        hashable(x, y),
{
    lemma_cell_hash_monotonic(x, y, 0x4000, 0x4000);
    assert(triangular(0x10000) == 0x8000_8000) by (nonlinear_arith);
}

/// `zigzag` is one-to-one.
pub proof fn lemma_zigzag_injective(a: int, b: int)
    requires
        zigzag(a) == zigzag(b),
    ensures
        a == b,
{
}

/// `zigzag` reaches every natural, and `unzigzag` undoes it.
pub proof fn lemma_zigzag_inverse(v: int, n: nat)
    ensures
        unzigzag(zigzag(v)) == v,
        zigzag(unzigzag(n)) == n,
{
}

/// The Cantor pairing is one-to-one.
pub proof fn lemma_cantor_pair_injective(x1: nat, y1: nat, x2: nat, y2: nat)
    requires
        cantor_pair(x1, y1) == cantor_pair(x2, y2),
    ensures
        x1 == x2,
        y1 == y2,
{
    let s1 = x1 + y1;
    let s2 = x2 + y2;
    if s1 < s2 {
        lemma_triangular_step(s1);
        lemma_triangular_monotonic(s1 + 1, s2);
    } else if s2 < s1 {
        lemma_triangular_step(s2);
        lemma_triangular_monotonic(s2 + 1, s1);
    }
}

/// Distinct cells of the unbounded grid have distinct hashes.
pub proof fn lemma_cell_hash_injective(x1: int, y1: int, x2: int, y2: int)
    requires
        cell_hash(x1, y1) == cell_hash(x2, y2),
    ensures
        x1 == x2,
        y1 == y2,
{
    lemma_cantor_pair_injective(zigzag(x1), zigzag(y1), zigzag(x2), zigzag(y2));
    lemma_zigzag_injective(x1, x2);
    lemma_zigzag_injective(y1, y2);
}

/// Every natural is the Cantor pairing of some pair.
pub proof fn lemma_cantor_pair_surjective(n: nat) -> (pair: (nat, nat))
    ensures
        cantor_pair(pair.0, pair.1) == n,
    decreases n,
{
    if n == 0 {
        (0, 0)
    } else {
        let (x, y) = lemma_cantor_pair_surjective((n - 1) as nat);
        if x == 0 {
            lemma_triangular_step(y);
            ((y + 1) as nat, 0)
        } else {
            ((x - 1) as nat, (y + 1) as nat)
        }
    }
}

/// Every natural is the hash of some cell of the unbounded grid.
pub proof fn lemma_cell_hash_surjective(n: nat) -> (cell: (int, int))
    ensures
        cell_hash(cell.0, cell.1) == n,
{
    let (x, y) = lemma_cantor_pair_surjective(n);
    lemma_zigzag_inverse(0, x);
    lemma_zigzag_inverse(0, y);
    (unzigzag(x), unzigzag(y))
}

/// On exact coordinates, two points no further apart along an axis than the
/// side of a cell lie in the same cell or in neighboring ones along that
/// axis: where the side of a cell is the radius of interaction, whatever
/// interacts with a point lies in the Moore neighborhood of its cell.
pub proof fn lemma_near_points_in_adjacent_cells(p: int, q: int, size: int)
    requires
        size > 0,
        -size <= p - q <= size,
    ensures
        -1 <= grid_coordinate(p, size) - grid_coordinate(q, size) <= 1,
{
    vstd::arithmetic::div_mod::lemma_fundamental_div_mod(p, size);
    vstd::arithmetic::div_mod::lemma_fundamental_div_mod(q, size);
    let a = p / size;
    let b = q / size;
    assert(size * (a - b) == size * a - size * b) by (nonlinear_arith);
    if a - b >= 2 {
        assert(size * (a - b) >= size * 2) by (nonlinear_arith)
            requires
                size > 0,
                a - b >= 2,
        ;
    }
    if a - b <= -2 {
        assert(size * (a - b) <= size * -2) by (nonlinear_arith)
            requires
                size > 0,
                a - b <= -2,
        ;
    }
}

/// On exact coordinates, two points whose distance is no more than the side
/// of a cell lie in cells that are equal or touch.
pub proof fn lemma_within_radius_adjacent(x1: int, y1: int, x2: int, y2: int, size: int)
    requires
        size > 0,
        (x1 - x2) * (x1 - x2) + (y1 - y2) * (y1 - y2) <= size * size,
    ensures
        -1 <= cell_of(x1, y1, size).0 - cell_of(x2, y2, size).0 <= 1,
        -1 <= cell_of(x1, y1, size).1 - cell_of(x2, y2, size).1 <= 1,
{
    let dx = x1 - x2;
    let dy = y1 - y2;
    assert(-size <= dx <= size && -size <= dy <= size) by (nonlinear_arith)
        requires
            size > 0,
            dx * dx + dy * dy <= size * size,
    ;
    lemma_near_points_in_adjacent_cells(x1, x2, size);
    lemma_near_points_in_adjacent_cells(y1, y2, size);
}

/// Each triangular number exceeds the one before by its index.
pub proof fn lemma_triangular_step(n: nat)
    ensures
        triangular(n + 1) == triangular(n) + n + 1,
{
    assert((n + 1) * (n + 2) == n * (n + 1) + 2 * (n + 1)) by (nonlinear_arith);
    lemma_triangular_halves(n);
}

/// The triangular numbers ascend.
pub proof fn lemma_triangular_monotonic(a: nat, b: nat)
    requires
        a <= b,
    ensures
        triangular(a) <= triangular(b),
    decreases b - a,
{
    if a < b {
        lemma_triangular_monotonic(a, (b - 1) as nat);
        lemma_triangular_step((b - 1) as nat);
    }
}

/// The two ways of halving `n * (n + 1)` before the product is formed.
proof fn lemma_triangular_halves(n: nat)
    ensures
        (n * (n + 1)) % 2 == 0,
        n % 2 == 0 ==> triangular(n) == (n / 2) * (n + 1),
        n % 2 == 1 ==> triangular(n) == n * ((n + 1) / 2),
{
    if n % 2 == 0 {
        let h = n / 2;
        assert(n * (n + 1) == 2 * (h * (n + 1))) by (nonlinear_arith)
            requires
                n == 2 * h,
        ;
    } else {
        let h = (n + 1) / 2;
        assert(n * (n + 1) == 2 * (n * h)) by (nonlinear_arith)
            requires
                n + 1 == 2 * h,
        ;
    }
}

/// A pair is numbered no lower than the sum of its components.
proof fn lemma_cantor_pair_dominates(x: nat, y: nat)
    ensures
        x + y <= cantor_pair(x, y),
        triangular(x + y) <= cantor_pair(x, y),
{
    let s = x + y;
    if s > 0 {
        lemma_triangular_bound(s);
    }
}

/// A triangular number is no less than its index, and greater from the
/// second on.
proof fn lemma_triangular_bound(n: nat)
    ensures
        n <= triangular(n),
        n >= 2 ==> n < triangular(n),
    decreases n,
{
    if n > 0 {
        lemma_triangular_bound((n - 1) as nat);
        lemma_triangular_step((n - 1) as nat);
    }
}

} // verus!
