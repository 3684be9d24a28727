//! Magnetization and energy of a configuration.
//!
//! Spins count as signs, -1 for down and +1 for up.  The energy is minus the
//! sum, over all sites, of the site's sign times the sum of the signs of its
//! four neighbours.  It lies between `-4 N` and `4 N` on `N` sites and is
//! lowest, `-4 N`, when every site agrees with all of its neighbours.

use crate::dynamics::{all_down, all_up, binary, lemma_up_neighbors_bounded, up_neighbors};
use crate::topology::{in_bounds, MAX_SITES};
use vstd::prelude::*;

verus! {

/// Number of up spins among the first `k` sites.
pub open spec fn ups_below(cells: Seq<u8>, k: int) -> int
    decreases k,
{
    if k <= 0 {
        0
    } else {
        ups_below(cells, k - 1) + if cells[k - 1] != 0 {
            1int
        } else {
            0int
        }
    }
}

/// Number of up spins.
pub open spec fn count_up(cells: Seq<u8>) -> int {
    ups_below(cells, cells.len() as int)
}

/// Magnetization: the number of up spins minus the number of down spins.
pub open spec fn magnetization_of(cells: Seq<u8>) -> int {
    count_up(cells) - (cells.len() - count_up(cells))
}

/// A spin as a sign: -1 for down, +1 for up.
pub open spec fn sign(cell: u8) -> int {
    if cell == 0 {
        -1
    } else {
        1
    }
}

/// Sum of the signs of the four neighbours that `entry` names.
pub open spec fn signs_around(cells: Seq<u8>, entry: [usize; 4]) -> int {
    sign(cells[entry[0] as int]) + sign(cells[entry[1] as int]) + sign(cells[entry[2] as int])
        + sign(cells[entry[3] as int])
}

/// The sign of site `i` times the sum of the signs of its four neighbours.
pub open spec fn site_coupling(cells: Seq<u8>, table: Seq<[usize; 4]>, i: int) -> int {
    sign(cells[i]) * signs_around(cells, table[i])
}

/// Sum of the couplings of the first `k` sites.
pub open spec fn coupling_below(cells: Seq<u8>, table: Seq<[usize; 4]>, k: int) -> int
    decreases k,
{
    if k <= 0 {
        0
    } else {
        coupling_below(cells, table, k - 1) + site_coupling(cells, table, k - 1)
    }
}

/// Energy: minus the sum, over all sites, of the site's sign times the sum
/// of the signs of its four neighbours.
pub open spec fn energy_of(cells: Seq<u8>, table: Seq<[usize; 4]>) -> int {
    -coupling_below(cells, table, cells.len() as int)
}

/// Site `i` has the sign of each of its four neighbours.
pub open spec fn agrees_around(cells: Seq<u8>, table: Seq<[usize; 4]>, i: int) -> bool {
    forall|j: int| 0 <= j < 4 ==> sign(cells[(#[trigger] table[i][j]) as int]) == sign(cells[i])
}

/// The number of up spins among the first `k` sites lies between 0 and `k`.
pub proof fn lemma_ups_bounded(cells: Seq<u8>, k: int)
    requires
        0 <= k,
    ensures
        0 <= ups_below(cells, k) <= k,
    decreases k,
{
    if k > 0 {
        lemma_ups_bounded(cells, k - 1);
    }
}

/// Magnetization bound: on `N` sites the magnetization lies between `-N`
/// and `N` and has the parity of `N`; it is even when `N` is even.
pub proof fn law_magnetization_bound(cells: Seq<u8>)
    ensures
        -cells.len() <= magnetization_of(cells) <= cells.len(),
        (magnetization_of(cells) + cells.len()) % 2 == 0,
        cells.len() % 2 == 0 ==> magnetization_of(cells) % 2 == 0,
{
    lemma_ups_bounded(cells, cells.len() as int);
}

/// The coupling of a site lies between -4 and 4 and is 4 exactly when the
/// site agrees with all four of its neighbours.  With binary spins it is
/// the sign of the site times twice the excess of its up neighbours over
/// two.
pub proof fn lemma_site_coupling(cells: Seq<u8>, table: Seq<[usize; 4]>, i: int)
    ensures
        -4 <= site_coupling(cells, table, i) <= 4,
        site_coupling(cells, table, i) == 4 <==> agrees_around(cells, table, i),
        binary(cells) && in_bounds(table) && table.len() == cells.len() && 0 <= i < cells.len()
            ==> site_coupling(cells, table, i) == (2 * cells[i] - 1) * (2 * up_neighbors(
            cells,
            table[i],
        ) - 4),
{
    let entry = table[i];
    let own = sign(cells[i]);
    let a = sign(cells[entry[0] as int]);
    let b = sign(cells[entry[1] as int]);
    let c = sign(cells[entry[2] as int]);
    let d = sign(cells[entry[3] as int]);
    assert(own * (a + b + c + d) == if own == 1 {
        a + b + c + d
    } else {
        -(a + b + c + d)
    }) by (nonlinear_arith)
        requires
            own == 1 || own == -1,
    ;
    if binary(cells) && in_bounds(table) && table.len() == cells.len() && 0 <= i < cells.len() {
        lemma_up_neighbors_bounded(cells, table, i);
    }
}

/// The couplings of the first `k` sites add up to between `-4k` and `4k`,
/// and to `4k` exactly when each of these sites agrees with all four of its
/// neighbours.
pub proof fn lemma_coupling_below(cells: Seq<u8>, table: Seq<[usize; 4]>, k: int)
    requires
        0 <= k,
    ensures
        -4 * k <= coupling_below(cells, table, k) <= 4 * k,
        coupling_below(cells, table, k) == 4 * k <==> forall|i: int|
            0 <= i < k ==> #[trigger] agrees_around(cells, table, i),
    decreases k,
{
    if k > 0 {
        lemma_coupling_below(cells, table, k - 1);
        lemma_site_coupling(cells, table, k - 1);
    }
}

/// Energy bound: on `N` sites the energy lies between `-4 N` and `4 N`, and
/// it is `-4 N` exactly when every site agrees with all four of its
/// neighbours.
pub proof fn law_energy_bound(cells: Seq<u8>, table: Seq<[usize; 4]>)
    ensures
        -4 * cells.len() <= energy_of(cells, table) <= 4 * cells.len(),
        energy_of(cells, table) == -4 * cells.len() <==> forall|i: int|
            0 <= i < cells.len() ==> #[trigger] agrees_around(cells, table, i),
{
    lemma_coupling_below(cells, table, cells.len() as int);
}

/// The two uniform configurations have the lowest energy.
pub proof fn law_uniform_energy(sites: nat, table: Seq<[usize; 4]>)
    requires
        in_bounds(table),
        table.len() == sites,
    ensures
        energy_of(all_up(sites), table) == -4 * sites,
        energy_of(all_down(sites), table) == -4 * sites,
{
    law_energy_bound(all_up(sites), table);
    law_energy_bound(all_down(sites), table);
}

/// Magnetization of a configuration.
pub fn magnetization(cells: &Vec<u8>) -> (m: i64)
    requires
        cells@.len() < MAX_SITES,
    ensures
        m == magnetization_of(cells@),
        -cells@.len() <= m <= cells@.len(),
        (m + cells@.len()) % 2 == 0,
{
    proof {
        law_magnetization_bound(cells@);
    }
    let mut m: i64 = 0;
    let mut i: usize = 0;
    while i < cells.len()
        invariant
            cells@.len() < MAX_SITES,
            i <= cells@.len(),
            m == 2 * ups_below(cells@, i as int) - i,
            0 <= ups_below(cells@, i as int) <= i,
        decreases cells@.len() - i,
    {
        proof {
            lemma_ups_bounded(cells@, i + 1);
        }
        m += if cells[i] == 0 {
            -1
        } else {
            1
        };
        i += 1;
    }
    m
}

/// Energy of a binary configuration on the lattice of `table`.
pub fn energy(cells: &Vec<u8>, table: &Vec<[usize; 4]>) -> (e: i64)
    requires
        binary(cells@),
        in_bounds(table@),
        table@.len() == cells@.len(),
        cells@.len() < MAX_SITES,
    ensures
        e == energy_of(cells@, table@),
        -4 * cells@.len() <= e <= 4 * cells@.len(),
{
    let mut e: i64 = 0;
    let mut i: usize = 0;
    while i < cells.len()
        invariant
            binary(cells@),
            in_bounds(table@),
            table@.len() == cells@.len(),
            cells@.len() < MAX_SITES,
            i <= cells@.len(),
            e == -coupling_below(cells@, table@, i as int),
            -4 * i <= e <= 4 * i,
        decreases cells@.len() - i,
    {
        proof {
            lemma_site_coupling(cells@, table@, i as int);
            lemma_up_neighbors_bounded(cells@, table@, i as int);
        }
        let entry: [usize; 4] = table[i];
        let ups: u8 = cells[entry[0]] + cells[entry[1]] + cells[entry[2]] + cells[entry[3]];
        let spin: i64 = cells[i] as i64 * 2 - 1;
        let around: i64 = ups as i64 * 2 - 4;
        proof {
            assert(-4 <= spin * around <= 4) by (nonlinear_arith)
                requires
                    spin == 1 || spin == -1,
                    -4 <= around <= 4,
            ;
        }
        e -= spin * around;
        i += 1;
    }
    e
}

} // verus!
