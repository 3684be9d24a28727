//! The single-site update rule and the replay of a stream of draws, as
//! mathematical functions of a configuration, with the facts that make
//! coupling from the past correct.
//!
//! A configuration is a sequence of spins, 0 for down and 1 for up.

use crate::draw::{valid_stream, Draw};
use crate::topology::in_bounds;
use crate::transition::{TransitionModel, ONE};
use vstd::prelude::*;

verus! {

/// Every spin is 0 or 1.
pub open spec fn binary(cells: Seq<u8>) -> bool {
    forall|i: int| 0 <= i < cells.len() ==> (#[trigger] cells[i]) <= 1
}

/// `hi` has each spin at least as large as `lo` has it.
pub open spec fn dominates(hi: Seq<u8>, lo: Seq<u8>) -> bool {
    &&& hi.len() == lo.len()
    &&& forall|i: int| 0 <= i < hi.len() ==> (#[trigger] lo[i]) <= (#[trigger] hi[i])
}

/// The configuration with every spin up.
pub open spec fn all_up(sites: nat) -> Seq<u8> {
    Seq::new(sites, |i: int| 1u8)
}

/// The configuration with every spin down.
pub open spec fn all_down(sites: nat) -> Seq<u8> {
    Seq::new(sites, |i: int| 0u8)
}

/// Number of up spins among the four neighbours that `entry` names.
pub open spec fn up_neighbors(cells: Seq<u8>, entry: [usize; 4]) -> int {
    cells[entry[0] as int] + cells[entry[1] as int] + cells[entry[2] as int] + cells[entry[3] as int]
}

/// The new spin of a site with `ups` neighbours up under threshold class
/// `class`: class 0 forces up, class 5 forces down, and a class between
/// them gives up exactly when it is at most `ups`.
pub open spec fn spin_after(class: int, ups: int) -> u8 {
    if class <= 0 {
        1
    } else if class >= 5 {
        0
    } else if class <= ups {
        1
    } else {
        0
    }
}

/// The configuration after one draw.
pub open spec fn step(cells: Seq<u8>, table: Seq<[usize; 4]>, draw: Draw) -> Seq<u8> {
    cells.update(
        draw.site as int,
        spin_after(draw.class as int, up_neighbors(cells, table[draw.site as int])),
    )
}

/// The configuration after the draws of a stream, applied first to last.
pub open spec fn replay(cells: Seq<u8>, table: Seq<[usize; 4]>, draws: Seq<Draw>) -> Seq<u8>
    decreases draws.len(),
{
    if draws.len() == 0 {
        cells
    } else {
        step(replay(cells, table, draws.drop_last()), table, draws.last())
    }
}

/// The extreme classes do not look at the neighbours: class 0 gives up and
/// class 5 gives down, whatever the count.
pub proof fn law_extreme_classes_force(ups: int)
    ensures
        spin_after(0, ups) == 1,
        spin_after(5, ups) == 0,
{
}

/// With binary spins the count of up neighbours is at most four, so the
/// rule is simply: up exactly when the class is at most the count.
pub proof fn law_rule_is_threshold(cells: Seq<u8>, table: Seq<[usize; 4]>, draw: Draw)
    requires
        binary(cells),
        in_bounds(table),
        table.len() == cells.len(),
        draw.valid(cells.len()),
    ensures
        0 <= up_neighbors(cells, table[draw.site as int]) <= 4,
        step(cells, table, draw)[draw.site as int] == 1 <==> draw.class <= up_neighbors(
            cells,
            table[draw.site as int],
        ),
        step(cells, table, draw)[draw.site as int] == 0 <==> draw.class > up_neighbors(
            cells,
            table[draw.site as int],
        ),
{
    lemma_up_neighbors_bounded(cells, table, draw.site as int);
}

/// One draw is one heat-bath update: the drawn site becomes up exactly when
/// the variate is among the `up_weight` largest, where the weight is that of
/// the number of neighbours the site has up.
pub proof fn law_update_is_heat_bath(
    model: TransitionModel,
    cells: Seq<u8>,
    table: Seq<[usize; 4]>,
    site: usize,
    variate: int,
)
    requires
        model.wf(),
        binary(cells),
        in_bounds(table),
        table.len() == cells.len(),
        site < cells.len(),
        0 <= variate < ONE,
    ensures
        step(cells, table, Draw { site, class: model.class_of(variate) as u8 })[site as int] == 1
            <==> variate >= ONE - model.up_weight(up_neighbors(cells, table[site as int])),
{
    lemma_up_neighbors_bounded(cells, table, site as int);
}

/// With binary spins a site has between zero and four neighbours up.
pub proof fn lemma_up_neighbors_bounded(cells: Seq<u8>, table: Seq<[usize; 4]>, site: int)
    requires
        binary(cells),
        in_bounds(table),
        table.len() == cells.len(),
        0 <= site < cells.len(),
    ensures
        0 <= up_neighbors(cells, table[site]) <= 4,
{
}

/// One draw changes at most the drawn site, and keeps the spins binary.
pub proof fn lemma_step_shape(cells: Seq<u8>, table: Seq<[usize; 4]>, draw: Draw)
    requires
        draw.site < cells.len(),
    ensures
        step(cells, table, draw).len() == cells.len(),
        forall|i: int|
            0 <= i < cells.len() && i != draw.site ==> step(cells, table, draw)[i] == cells[i],
        binary(cells) ==> binary(step(cells, table, draw)),
{
}

/// A replay keeps the number of sites, and keeps the spins binary.
pub proof fn lemma_replay_shape(cells: Seq<u8>, table: Seq<[usize; 4]>, draws: Seq<Draw>)
    requires
        valid_stream(draws, cells.len()),
    ensures
        replay(cells, table, draws).len() == cells.len(),
        binary(cells) ==> binary(replay(cells, table, draws)),
    decreases draws.len(),
{
    if draws.len() > 0 {
        lemma_draws_shorten(draws, cells.len());
        lemma_replay_shape(cells, table, draws.drop_last());
        lemma_step_shape(replay(cells, table, draws.drop_last()), table, draws.last());
    }
}

/// A valid stream without its last draw is valid, and its last draw is.
pub proof fn lemma_draws_shorten(draws: Seq<Draw>, sites: nat)
    requires
        valid_stream(draws, sites),
        draws.len() > 0,
    ensures
        valid_stream(draws.drop_last(), sites),
        draws.last().valid(sites),
{
}

/// The update rule is monotone: one draw applied to two ordered
/// configurations leaves them ordered.
pub proof fn law_step_monotone(hi: Seq<u8>, lo: Seq<u8>, table: Seq<[usize; 4]>, draw: Draw)
    requires
        dominates(hi, lo),
        in_bounds(table),
        table.len() == hi.len(),
        draw.site < hi.len(),
    ensures
        dominates(step(hi, table, draw), step(lo, table, draw)),
{
}

/// Monotonicity of a whole stream: the same draws applied to two ordered
/// configurations leave them ordered.
pub proof fn law_replay_monotone(
    hi: Seq<u8>,
    lo: Seq<u8>,
    table: Seq<[usize; 4]>,
    draws: Seq<Draw>,
)
    requires
        dominates(hi, lo),
        in_bounds(table),
        table.len() == hi.len(),
        valid_stream(draws, hi.len()),
    ensures
        dominates(replay(hi, table, draws), replay(lo, table, draws)),
    decreases draws.len(),
{
    if draws.len() > 0 {
        lemma_draws_shorten(draws, hi.len());
        law_replay_monotone(hi, lo, table, draws.drop_last());
        lemma_replay_shape(hi, table, draws.drop_last());
        law_step_monotone(
            replay(hi, table, draws.drop_last()),
            replay(lo, table, draws.drop_last()),
            table,
            draws.last(),
        );
    }
}

/// The all-up configuration dominates every binary configuration, which in
/// turn dominates the all-down configuration.
pub proof fn lemma_extremes_bound(cells: Seq<u8>)
    requires
        binary(cells),
    ensures
        dominates(all_up(cells.len()), cells),
        dominates(cells, all_down(cells.len())),
        binary(all_up(cells.len())),
        binary(all_down(cells.len())),
{
}

/// Monotonicity of the bounding chains: after any prefix of a stream applied
/// to the all-up and to the all-down configuration alike, the first
/// dominates the second.
pub proof fn law_bounding_chains_ordered(
    sites: nat,
    table: Seq<[usize; 4]>,
    draws: Seq<Draw>,
    prefix: int,
)
    requires
        in_bounds(table),
        table.len() == sites,
        valid_stream(draws, sites),
        0 <= prefix <= draws.len(),
    ensures
        dominates(
            replay(all_up(sites), table, draws.take(prefix)),
            replay(all_down(sites), table, draws.take(prefix)),
        ),
{
    lemma_extremes_bound(all_down(sites));
    law_replay_monotone(all_up(sites), all_down(sites), table, draws.take(prefix));
}

/// Replaying two streams one after the other is replaying their
/// concatenation.
pub proof fn law_replay_concat(
    cells: Seq<u8>,
    table: Seq<[usize; 4]>,
    first: Seq<Draw>,
    second: Seq<Draw>,
)
    ensures
        replay(cells, table, first + second) == replay(replay(cells, table, first), table, second),
    decreases second.len(),
{
    if second.len() > 0 {
        assert((first + second).drop_last() == first + second.drop_last());
        law_replay_concat(cells, table, first, second.drop_last());
    }
}

/// Replaying a stream extended by one draw is one step after replaying the
/// stream.
pub proof fn lemma_replay_push(cells: Seq<u8>, table: Seq<[usize; 4]>, draws: Seq<Draw>, draw: Draw)
    ensures
        replay(cells, table, draws.push(draw)) == step(replay(cells, table, draws), table, draw),
{
    assert(draws.push(draw).drop_last() == draws);
}

/// Determinism: the outcome of a replay depends on nothing but the starting
/// configuration, the table and the stream.  Two replays that agree on
/// these, spin by spin and draw by draw, agree on every final spin.
pub proof fn law_replay_deterministic(
    cells_a: Seq<u8>,
    cells_b: Seq<u8>,
    table: Seq<[usize; 4]>,
    draws_a: Seq<Draw>,
    draws_b: Seq<Draw>,
)
    requires
        cells_a.len() == cells_b.len(),
        forall|i: int| 0 <= i < cells_a.len() ==> cells_a[i] == cells_b[i],
        draws_a.len() == draws_b.len(),
        forall|k: int| 0 <= k < draws_a.len() ==> draws_a[k] == draws_b[k],
    ensures
        replay(cells_a, table, draws_a) == replay(cells_b, table, draws_b),
{
    assert(cells_a =~= cells_b);
    assert(draws_a =~= draws_b);
}

/// Coalescence is final: once two chains hold the same configuration, any
/// further draws applied to both alike leave them equal.
pub proof fn law_coalescence_persists(
    hi: Seq<u8>,
    lo: Seq<u8>,
    table: Seq<[usize; 4]>,
    draws: Seq<Draw>,
    more: Seq<Draw>,
)
    requires
        replay(hi, table, draws) == replay(lo, table, draws),
    ensures
        replay(hi, table, draws + more) == replay(lo, table, draws + more),
{
    law_replay_concat(hi, table, draws, more);
    law_replay_concat(lo, table, draws, more);
}

/// Two ordered configurations with one in between: if the outer two are
/// equal, so is the one between them.
pub proof fn lemma_squeeze(hi: Seq<u8>, mid: Seq<u8>, lo: Seq<u8>)
    requires
        dominates(hi, mid),
        dominates(mid, lo),
        hi == lo,
    ensures
        mid == hi,
{
}

/// A coalesced stream forgets where it started: if the all-up and the
/// all-down configuration end equal, every binary configuration ends in
/// that same configuration.
pub proof fn law_coalescence_forgets_start(
    cells: Seq<u8>,
    table: Seq<[usize; 4]>,
    draws: Seq<Draw>,
)
    requires
        binary(cells),
        in_bounds(table),
        table.len() == cells.len(),
        valid_stream(draws, cells.len()),
        replay(all_up(cells.len()), table, draws) == replay(all_down(cells.len()), table, draws),
    ensures
        replay(cells, table, draws) == replay(all_up(cells.len()), table, draws),
{
    lemma_extremes_bound(cells);
    law_replay_monotone(all_up(cells.len()), cells, table, draws);
    law_replay_monotone(cells, all_down(cells.len()), table, draws);
    lemma_squeeze(
        replay(all_up(cells.len()), table, draws),
        replay(cells, table, draws),
        replay(all_down(cells.len()), table, draws),
    );
}

} // verus!
