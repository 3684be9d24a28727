//! The shape of the shared stream of draws: how long it is after a number
//! of extensions, and in which order its draws are replayed.
//!
//! The stream grows into the past.  For a lattice of `N` sites the first
//! extension adds `N` draws, and each later one as many as the stream holds
//! already, so that the stream is `N`, `2 N`, `4 N`, ... draws long.  A
//! replay runs from the oldest draw to the newest, so the draws added last
//! are applied first.

use crate::draw::{unpacked, unpacked_log, valid_stream, Draw};
use vstd::arithmetic::power2::{lemma2_to64, lemma_pow2_unfold, pow2};
use vstd::prelude::*;

verus! {

/// Length of the stream after `levels` extensions: `sites * 2^(levels - 1)`,
/// and nothing before the first.
pub open spec fn window_len(sites: nat, levels: nat) -> nat {
    if levels == 0 {
        0
    } else {
        sites * pow2((levels - 1) as nat)
    }
}

/// Number of draws that extension number `level` adds: `sites` for the
/// first, and for each later one as many as all the extensions before it
/// together.
pub open spec fn level_draws(sites: nat, level: nat) -> nat {
    if level == 0 {
        sites
    } else {
        window_len(sites, level)
    }
}

/// The stream that a list of levels stands for, in the order of replay: the
/// newest level first, each level from its first draw to its last.
pub open spec fn stream_of(levels: Seq<Vec<Draw>>) -> Seq<Draw>
    decreases levels.len(),
{
    if levels.len() == 0 {
        Seq::empty()
    } else {
        levels.last()@ + stream_of(levels.drop_last())
    }
}

/// Level number `j` holds `level_draws(sites, j)` valid draws, for every
/// `j`.
pub open spec fn well_shaped(levels: Seq<Vec<Draw>>, sites: nat) -> bool {
    forall|j: int|
        0 <= j < levels.len() ==> valid_stream((#[trigger] levels[j])@, sites) && levels[j]@.len()
            == level_draws(sites, j as nat)
}

/// The order in which a log of packed draws is replayed: last word first.
pub open spec fn schedule(log: Seq<u32>) -> Seq<Draw> {
    Seq::new(log.len(), |k: int| unpacked(log[log.len() - 1 - k]))
}

/// Each extension doubles the stream: the stream after one more extension
/// is the stream so far plus the draws of that extension, the first two
/// extensions are one sweep each, and every later one is twice the one
/// before.
pub proof fn law_window_doubles(sites: nat, levels: nat)
    ensures
        window_len(sites, levels + 1) == window_len(sites, levels) + level_draws(sites, levels),
        levels >= 1 ==> window_len(sites, levels + 1) == 2 * window_len(sites, levels),
        level_draws(sites, 0) == sites,
        level_draws(sites, 1) == sites,
        levels >= 1 ==> level_draws(sites, levels + 1) == 2 * level_draws(sites, levels),
        sites > 0 ==> window_len(sites, levels) % sites == 0,
        sites == 0 ==> level_draws(sites, levels) == 0,
{
    lemma2_to64();
    assert(sites * 1 == sites) by (nonlinear_arith);
    if sites > 0 {
        vstd::arithmetic::div_mod::lemma_small_mod(0, sites);
    }
    if levels >= 1 {
        lemma_pow2_unfold(levels);
        let p = pow2((levels - 1) as nat);
        assert(sites * (2 * p) == 2 * (sites * p)) by (nonlinear_arith);
        if sites > 0 {
            vstd::arithmetic::div_mod::lemma_mod_multiples_basic(p as int, sites as int);
        }
    }
}

/// The stream of well-shaped levels is valid and has the length of the
/// window after that many extensions.
pub proof fn lemma_stream_shape(levels: Seq<Vec<Draw>>, sites: nat)
    requires
        well_shaped(levels, sites),
    ensures
        valid_stream(stream_of(levels), sites),
        stream_of(levels).len() == window_len(sites, levels.len()),
    decreases levels.len(),
{
    if levels.len() > 0 {
        let earlier = levels.drop_last();
        lemma_stream_shape(earlier, sites);
        law_window_doubles(sites, earlier.len());
    }
}

/// Window-extension consistency for levels: the stream of the levels with
/// one more level is the draws of that level followed by exactly the stream
/// of the levels before.
pub proof fn law_level_extension(levels: Seq<Vec<Draw>>, level: Vec<Draw>)
    ensures
        stream_of(levels.push(level)) == level@ + stream_of(levels),
        stream_of(levels.push(level)).skip(level@.len() as int) == stream_of(levels),
{
    assert(levels.push(level).drop_last() == levels);
}

/// The first levels of well-shaped levels are well shaped.
pub proof fn lemma_take_shape(levels: Seq<Vec<Draw>>, sites: nat, count: int)
    requires
        well_shaped(levels, sites),
        0 <= count <= levels.len(),
    ensures
        well_shaped(levels.take(count), sites),
{
}

/// Window-extension consistency: the draws replayed for an extended log are
/// those of the extension followed by exactly the draws replayed for the
/// log before.  The earlier sequence is the suffix of the later one, so an
/// extension reaches further into the past and changes nothing after it.
pub proof fn law_window_extension(log: Seq<u32>, extension: Seq<u32>)
    ensures
        schedule(log + extension) == schedule(extension) + schedule(log),
        schedule(log + extension).skip(extension.len() as int) == schedule(log),
        schedule(log + extension).len() == extension.len() + log.len(),
{
    let whole = schedule(log + extension);
    let parts = schedule(extension) + schedule(log);
    assert forall|k: int| 0 <= k < whole.len() implies whole[k] == parts[k] by {
        if k < extension.len() {
            assert((log + extension)[log.len() + extension.len() - 1 - k] == extension[
                extension.len() - 1 - k]);
        } else {
            assert((log + extension)[log.len() + extension.len() - 1 - k] == log[
                log.len() - 1 - (k - extension.len())]);
        }
    }
}

/// The schedule of a log is its draws in reverse.
pub proof fn law_schedule_reverses(log: Seq<u32>)
    ensures
        schedule(log) == unpacked_log(log).reverse(),
{
}

} // verus!
