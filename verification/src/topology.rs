//! The periodic four-neighbour adjacency of an `n` by `n` square lattice.
//!
//! Sites are numbered row by row: site `i` sits in row `i / n`, column
//! `i % n`.  Each table entry lists the left, right, upper and lower
//! neighbour of its site, in that order, with wraparound at the edges.

use vstd::arithmetic::div_mod::lemma_fundamental_div_mod_converse;
use vstd::prelude::*;

verus! {

/// Exclusive upper bound on the number of sites of a lattice: `2^29`, so that
/// a site index fits the 29 bits that a packed draw reserves for it.
pub const MAX_SITES: usize = 0x2000_0000;

/// Index of the site in row `row`, column `col` of a lattice of side `n`.
pub open spec fn site_at(n: int, row: int, col: int) -> int {
    row * n + col
}

/// Left neighbour of site `i`: same row, previous column modulo `n`.
pub open spec fn left_of(n: int, i: int) -> int {
    site_at(n, i / n, (i % n - 1) % n)
}

/// Right neighbour of site `i`: same row, next column modulo `n`.
pub open spec fn right_of(n: int, i: int) -> int {
    site_at(n, i / n, (i % n + 1) % n)
}

/// Upper neighbour of site `i`: previous row modulo `n`, same column.
pub open spec fn up_of(n: int, i: int) -> int {
    site_at(n, (i / n - 1) % n, i % n)
}

/// Lower neighbour of site `i`: next row modulo `n`, same column.
pub open spec fn down_of(n: int, i: int) -> int {
    site_at(n, (i / n + 1) % n, i % n)
}

/// `entry` lists the four neighbours of site `i` on the torus of side `n`.
pub open spec fn is_entry_of(entry: [usize; 4], n: int, i: int) -> bool {
    &&& entry[0] == left_of(n, i)
    &&& entry[1] == right_of(n, i)
    &&& entry[2] == up_of(n, i)
    &&& entry[3] == down_of(n, i)
}

/// `table` is the neighbour table of the torus of side `n`.
pub open spec fn is_torus(table: Seq<[usize; 4]>, n: int) -> bool {
    &&& 0 <= n
    &&& table.len() == n * n
    &&& forall|i: int| 0 <= i < table.len() ==> is_entry_of(#[trigger] table[i], n, i)
}

/// Every neighbour named by `table` is itself a site of `table`.
pub open spec fn in_bounds(table: Seq<[usize; 4]>) -> bool {
    forall|i: int, j: int|
        0 <= i < table.len() && 0 <= j < 4 ==> (#[trigger] table[i][j]) < table.len()
}

/// Coordinates below `n` name a site below `n * n`.
pub proof fn lemma_site_in_range(n: int, row: int, col: int)
    requires
        0 <= row < n,
        0 <= col < n,
    ensures
        0 <= site_at(n, row, col) < n * n,
        site_at(n, row, col) / n == row,
        site_at(n, row, col) % n == col,
{
    assert(0 <= row * n && row * n + n <= n * n) by (nonlinear_arith)
        requires
            0 <= row < n,
    ;
    lemma_fundamental_div_mod_converse(site_at(n, row, col), n, row, col);
}

/// A site below `n * n` has its row and its column below `n`.
pub proof fn lemma_coordinates_in_range(n: int, i: int)
    requires
        0 <= n,
        0 <= i < n * n,
    ensures
        0 < n,
        0 <= i / n < n,
        0 <= i % n < n,
        site_at(n, i / n, i % n) == i,
{
    assert(0 < n) by (nonlinear_arith)
        requires
            0 <= n,
            0 <= i < n * n,
    ;
    assert(0 <= i / n < n && 0 <= i % n < n && (i / n) * n + i % n == i) by (nonlinear_arith)
        requires
            0 <= i < n * n,
            0 < n,
    ;
}

/// Stepping one column or row back or forth, modulo `n`, stays below `n`,
/// and is what the unsigned forms `(x + n - 1) % n` and `(x + 1) % n` give.
pub proof fn lemma_wrap(n: int, x: int)
    requires
        0 <= x < n,
    ensures
        0 <= (x - 1) % n < n,
        0 <= (x + 1) % n < n,
        (x - 1) % n == (x + n - 1) % n,
        (x - 1) % n == if x == 0 { n - 1 } else { x - 1 },
        (x + 1) % n == if x == n - 1 { 0 } else { x + 1 },
{
    if x == 0 {
        lemma_fundamental_div_mod_converse(x - 1, n, -1, n - 1);
        lemma_fundamental_div_mod_converse(x + n - 1, n, 0, n - 1);
    } else {
        lemma_fundamental_div_mod_converse(x - 1, n, 0, x - 1);
        lemma_fundamental_div_mod_converse(x + n - 1, n, 1, x - 1);
    }
    if x == n - 1 {
        lemma_fundamental_div_mod_converse(x + 1, n, 1, 0);
    } else {
        lemma_fundamental_div_mod_converse(x + 1, n, 0, x + 1);
    }
}

/// The four neighbours of a site of the torus are sites of the torus.
pub proof fn lemma_neighbors_in_range(n: int, i: int)
    requires
        0 <= n,
        0 <= i < n * n,
    ensures
        0 <= left_of(n, i) < n * n,
        0 <= right_of(n, i) < n * n,
        0 <= up_of(n, i) < n * n,
        0 <= down_of(n, i) < n * n,
{
    lemma_coordinates_in_range(n, i);
    lemma_wrap(n, i / n);
    lemma_wrap(n, i % n);
    lemma_site_in_range(n, i / n, (i % n - 1) % n);
    lemma_site_in_range(n, i / n, (i % n + 1) % n);
    lemma_site_in_range(n, (i / n - 1) % n, i % n);
    lemma_site_in_range(n, (i / n + 1) % n, i % n);
}

/// Adjacency on the torus is mutual: a site is the right neighbour of its
/// left neighbour, the left of its right, the lower of its upper and the
/// upper of its lower.
pub proof fn law_neighbors_are_mutual(n: int, i: int)
    requires
        0 <= n,
        0 <= i < n * n,
    ensures
        right_of(n, left_of(n, i)) == i,
        left_of(n, right_of(n, i)) == i,
        down_of(n, up_of(n, i)) == i,
        up_of(n, down_of(n, i)) == i,
{
    lemma_coordinates_in_range(n, i);
    let row = i / n;
    let col = i % n;
    lemma_wrap(n, row);
    lemma_wrap(n, col);
    lemma_wrap(n, (col - 1) % n);
    lemma_wrap(n, (col + 1) % n);
    lemma_wrap(n, (row - 1) % n);
    lemma_wrap(n, (row + 1) % n);
    lemma_site_in_range(n, row, (col - 1) % n);
    lemma_site_in_range(n, row, (col + 1) % n);
    lemma_site_in_range(n, (row - 1) % n, col);
    lemma_site_in_range(n, (row + 1) % n, col);
}

/// The neighbour table of a torus names only sites of that torus.
pub proof fn law_torus_in_bounds(table: Seq<[usize; 4]>, n: int)
    requires
        is_torus(table, n),
    ensures
        in_bounds(table),
{
    assert forall|i: int, j: int| 0 <= i < table.len() && 0 <= j < 4 implies (
    #[trigger] table[i][j]) < table.len() by {
        lemma_neighbors_in_range(n, i);
    }
}

/// The neighbour table of the torus of side `n`.
pub open spec fn torus_table(n: int) -> Seq<[usize; 4]> {
    choose|table: Seq<[usize; 4]>| is_torus(table, n)
}

/// A table of the torus of side `n` is the table of that torus.
pub proof fn law_torus_table(table: Seq<[usize; 4]>, n: int)
    requires
        is_torus(table, n),
    ensures
        table == torus_table(n),
        is_torus(torus_table(n), n),
{
    law_torus_table_unique(table, torus_table(n), n);
}

/// A torus has one neighbour table.
pub proof fn law_torus_table_unique(a: Seq<[usize; 4]>, b: Seq<[usize; 4]>, n: int)
    requires
        is_torus(a, n),
        is_torus(b, n),
    ensures
        a == b,
{
    assert forall|i: int| 0 <= i < a.len() implies a[i] == b[i] by {
    }
}

/// Whether a lattice of side `n` has fewer than `2^29` sites.
pub fn side_fits(n: usize) -> (fits: bool)
    ensures
        fits == (n * n < MAX_SITES),
{
    match n.checked_mul(n) {
        Some(sites) => sites < MAX_SITES,
        None => false,
    }
}

/// Builds the neighbour table of the torus of side `n`.
pub fn build_neighbors(n: usize) -> (table: Vec<[usize; 4]>)
    requires
        n * n < MAX_SITES,
    ensures
        is_torus(table@, n as int),
        in_bounds(table@),
{
    let mut table: Vec<[usize; 4]> = Vec::new();
    let mut row: usize = 0;
    while row < n
        invariant
            n * n < MAX_SITES,
            row <= n,
            table@.len() == row * n,
            forall|i: int| 0 <= i < table@.len() ==> is_entry_of(#[trigger] table@[i], n as int, i),
        decreases n - row,
    {
        let mut col: usize = 0;
        while col < n
            invariant
                n * n < MAX_SITES,
                row < n,
                col <= n,
                table@.len() == row * n + col,
                forall|i: int|
                    0 <= i < table@.len() ==> is_entry_of(#[trigger] table@[i], n as int, i),
            decreases n - col,
        {
            proof {
                lemma_site_in_range(n as int, row as int, col as int);
                lemma_wrap(n as int, row as int);
                lemma_wrap(n as int, col as int);
                lemma_neighbors_in_range(n as int, site_at(n as int, row as int, col as int));
                assert(n <= n * n) by (nonlinear_arith)
                    requires
                        0 < n,
                ;
            }
            let left: usize = (col + n - 1) % n;
            let right: usize = (col + 1) % n;
            let up: usize = (row + n - 1) % n;
            let down: usize = (row + 1) % n;
            let entry: [usize; 4] = [row * n + left, row * n + right, up * n + col, down * n + col];
            table.push(entry);
            col += 1;
        }
        proof {
            assert(row * n + n == (row + 1) * n) by (nonlinear_arith);
        }
        row += 1;
    }
    proof {
        law_torus_in_bounds(table@, n as int);
    }
    table
}

} // verus!
