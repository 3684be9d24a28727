//! The bounding-chain simulator: a ceiling configuration started all up
//! and a floor configuration started all down, driven by the same draws.

use crate::draw::{valid_stream, Draw};
use crate::dynamics::{
    all_down, all_up, binary, dominates, law_step_monotone, lemma_step_shape,
    lemma_up_neighbors_bounded, replay, step,
};
use crate::observable::{energy_of, magnetization_of};
use crate::topology::{build_neighbors, in_bounds, is_torus, MAX_SITES};
use vstd::prelude::*;

verus! {

/// Number of sites among the first `k` at which two configurations differ.
pub open spec fn mismatches_below(hi: Seq<u8>, lo: Seq<u8>, k: int) -> int
    decreases k,
{
    if k <= 0 {
        0
    } else {
        mismatches_below(hi, lo, k - 1) + if hi[k - 1] != lo[k - 1] {
            1int
        } else {
            0int
        }
    }
}

/// Number of sites at which two configurations differ.
pub open spec fn mismatches(hi: Seq<u8>, lo: Seq<u8>) -> int {
    mismatches_below(hi, lo, hi.len() as int)
}

/// The count of differing sites among the first `k` lies between 0 and `k`
/// and is zero exactly when the first `k` sites agree.
pub proof fn lemma_mismatches_below(hi: Seq<u8>, lo: Seq<u8>, k: int)
    requires
        0 <= k,
    ensures
        0 <= mismatches_below(hi, lo, k) <= k,
        mismatches_below(hi, lo, k) == 0 <==> forall|i: int| 0 <= i < k ==> hi[i] == lo[i],
    decreases k,
{
    if k > 0 {
        lemma_mismatches_below(hi, lo, k - 1);
    }
}

/// Two configurations of one length differ at no site exactly when they are
/// the same configuration.
pub proof fn law_no_mismatch_is_equality(hi: Seq<u8>, lo: Seq<u8>)
    requires
        hi.len() == lo.len(),
    ensures
        0 <= mismatches(hi, lo) <= hi.len(),
        mismatches(hi, lo) == 0 <==> hi == lo,
{
    lemma_mismatches_below(hi, lo, hi.len() as int);
    if mismatches(hi, lo) == 0 {
        assert(hi =~= lo);
    }
}

/// Applies one draw to one configuration.
fn update_site(table: &Vec<[usize; 4]>, cells: &mut Vec<u8>, draw: Draw)
    requires
        in_bounds(table@),
        table@.len() == old(cells)@.len(),
        binary(old(cells)@),
        draw.site < old(cells)@.len(),
    ensures
        final(cells)@ == step(old(cells)@, table@, draw),
{
    let spin: u8 = if draw.class == 0 {
        1
    } else if draw.class >= 5 {
        0
    } else {
        proof {
            lemma_up_neighbors_bounded(cells@, table@, draw.site as int);
        }
        let entry: [usize; 4] = table[draw.site];
        let a: u8 = cells[entry[0]];
        let b: u8 = cells[entry[1]];
        let c: u8 = cells[entry[2]];
        let d: u8 = cells[entry[3]];
        let ups: u8 = a + b + c + d;
        if draw.class <= ups {
            1
        } else {
            0
        }
    };
    cells[draw.site] = spin;
}

/// The two bounding configurations of one lattice.
pub struct BoundingChain {
    side: usize,
    neighbors: Vec<[usize; 4]>,
    ceiling: Vec<u8>,
    floor: Vec<u8>,
}

impl BoundingChain {
    /// Side length of the lattice.
    pub closed spec fn side(&self) -> nat {
        self.side as nat
    }

    /// The neighbour table of the lattice.
    pub closed spec fn table(&self) -> Seq<[usize; 4]> {
        self.neighbors@
    }

    /// The upper configuration.
    pub closed spec fn ceiling(&self) -> Seq<u8> {
        self.ceiling@
    }

    /// The lower configuration.
    pub closed spec fn floor(&self) -> Seq<u8> {
        self.floor@
    }

    /// Number of sites of the lattice.
    pub open spec fn sites(&self) -> nat {
        self.side() * self.side()
    }

    /// The table is that of the torus, both configurations are binary and
    /// cover it, and the ceiling dominates the floor.
    pub open spec fn wf(&self) -> bool {
        &&& self.sites() < MAX_SITES
        &&& is_torus(self.table(), self.side() as int)
        &&& in_bounds(self.table())
        &&& self.ceiling().len() == self.sites()
        &&& self.floor().len() == self.sites()
        &&& binary(self.ceiling())
        &&& binary(self.floor())
        &&& dominates(self.ceiling(), self.floor())
    }

    /// Both configurations are the same.
    pub open spec fn is_coalesced(&self) -> bool {
        self.ceiling() == self.floor()
    }

    /// Both configurations are what the valid stream `draws` makes of `hi`
    /// and of `lo`.
    pub open spec fn driven_from(&self, hi: Seq<u8>, lo: Seq<u8>, draws: Seq<Draw>) -> bool {
        &&& valid_stream(draws, self.sites())
        &&& self.ceiling() == replay(hi, self.table(), draws)
        &&& self.floor() == replay(lo, self.table(), draws)
    }

    /// Both configurations are what the valid stream `draws` makes of the
    /// all-up and of the all-down configuration.
    pub open spec fn attempt_of(&self, draws: Seq<Draw>) -> bool {
        self.driven_from(all_up(self.sites()), all_down(self.sites()), draws)
    }

    /// The chains of the torus of side `n`, ceiling all up and floor all
    /// down.
    pub fn new(n: usize) -> (chain: BoundingChain)
        requires
            n * n < MAX_SITES,
        ensures
            chain.wf(),
            chain.side() == n,
            chain.ceiling() == all_up(chain.sites()),
            chain.floor() == all_down(chain.sites()),
    {
        let neighbors = build_neighbors(n);
        let ceiling: Vec<u8> = vec![1u8; n * n];
        let floor: Vec<u8> = vec![0u8; n * n];
        BoundingChain { side: n, neighbors, ceiling, floor }
    }

    /// Starts a new attempt: ceiling all up, floor all down.
    pub fn reset(&mut self)
        requires
            old(self).wf(),
        ensures
            final(self).wf(),
            final(self).side() == old(self).side(),
            final(self).table() == old(self).table(),
            final(self).ceiling() == all_up(final(self).sites()),
            final(self).floor() == all_down(final(self).sites()),
    {
        let sites: usize = self.ceiling.len();
        self.ceiling = vec![1u8; sites];
        self.floor = vec![0u8; sites];
    }

    /// Applies one draw to both configurations.
    pub fn apply(&mut self, draw: Draw)
        requires
            old(self).wf(),
            draw.site < old(self).sites(),
        ensures
            final(self).wf(),
            final(self).side() == old(self).side(),
            final(self).table() == old(self).table(),
            final(self).ceiling() == step(old(self).ceiling(), old(self).table(), draw),
            final(self).floor() == step(old(self).floor(), old(self).table(), draw),
    {
        proof {
            lemma_step_shape(self.ceiling@, self.neighbors@, draw);
            lemma_step_shape(self.floor@, self.neighbors@, draw);
            law_step_monotone(self.ceiling@, self.floor@, self.neighbors@, draw);
        }
        update_site(&self.neighbors, &mut self.ceiling, draw);
        update_site(&self.neighbors, &mut self.floor, draw);
    }

    /// Whether both configurations are the same.
    pub fn coalesced(&self) -> (same: bool)
        requires
            self.wf(),
        ensures
            same == self.is_coalesced(),
    {
        let same = self.ceiling == self.floor;
        proof {
            if same {
                assert(self.ceiling@ =~= self.floor@);
            }
        }
        same
    }

    /// Number of sites at which the two configurations differ.
    pub fn distance(&self) -> (count: u32)
        requires
            self.wf(),
        ensures
            count == mismatches(self.ceiling(), self.floor()),
            count == 0 <==> self.is_coalesced(),
    {
        let mut count: u32 = 0;
        let mut i: usize = 0;
        while i < self.ceiling.len()
            invariant
                self.ceiling@.len() == self.floor@.len(),
                self.ceiling@.len() < MAX_SITES,
                i <= self.ceiling@.len(),
                count == mismatches_below(self.ceiling@, self.floor@, i as int),
                count <= i,
            decreases self.ceiling@.len() - i,
        {
            if self.ceiling[i] != self.floor[i] {
                count += 1;
            }
            i += 1;
        }
        proof {
            law_no_mismatch_is_equality(self.ceiling@, self.floor@);
        }
        count
    }

    /// Magnetization of the ceiling.
    pub fn magnetization(&self) -> (m: i64)
        requires
            self.wf(),
        ensures
            m == magnetization_of(self.ceiling()),
    {
        crate::observable::magnetization(&self.ceiling)
    }

    /// Energy of the ceiling.
    pub fn energy(&self) -> (e: i64)
        requires
            self.wf(),
        ensures
            e == energy_of(self.ceiling(), self.table()),
    {
        crate::observable::energy(&self.ceiling, &self.neighbors)
    }

    /// Side length of the lattice.
    pub fn side_len(&self) -> (n: usize)
        ensures
            n == self.side(),
    {
        self.side
    }

    /// Number of sites of the lattice.
    pub fn site_count(&self) -> (sites: usize)
        requires
            self.wf(),
        ensures
            sites == self.sites(),
    {
        self.ceiling.len()
    }

    /// The neighbour table of the lattice.
    pub fn neighbors(&self) -> (table: &Vec<[usize; 4]>)
        ensures
            table@ == self.table(),
    {
        &self.neighbors
    }

    /// The upper configuration.
    pub fn ceiling_cells(&self) -> (cells: &Vec<u8>)
        ensures
            cells@ == self.ceiling(),
    {
        &self.ceiling
    }

    /// The lower configuration.
    pub fn floor_cells(&self) -> (cells: &Vec<u8>)
        ensures
            cells@ == self.floor(),
    {
        &self.floor
    }
}

} // verus!
