//! The backward-doubling driver.
//!
//! The stream of draws is kept level by level, one level for each extension
//! into the past.  An attempt starts the ceiling all up and the floor all
//! down and replays every level, newest first.  The driver makes attempts
//! on one level, two levels, and so on, and stops at the first attempt that
//! leaves both chains equal.

use crate::chain::BoundingChain;
use crate::draw::{lemma_valid_push, valid_stream, Draw};
use crate::dynamics::{
    all_down, all_up, binary, law_coalescence_forgets_start, law_replay_concat,
    lemma_extremes_bound, lemma_replay_push, lemma_replay_shape, replay,
};
use crate::generator::{draw_site, draw_word, fork_generator};
use crate::observable::{energy_of, law_magnetization_bound, magnetization_of};
use crate::stream::{
    law_level_extension, law_window_doubles, lemma_stream_shape, lemma_take_shape, level_draws,
    stream_of, well_shaped, window_len,
};
use crate::topology::{is_torus, law_torus_in_bounds, law_torus_table, torus_table, MAX_SITES};
use crate::transition::TransitionModel;
use rand_pcg::Mcg128Xsl64;
use vstd::prelude::*;

verus! {

/// Whether the chains of the torus of side `n`, started all up and all
/// down, are equal after the stream of `levels`.
pub open spec fn coalesces(n: nat, levels: Seq<Vec<Draw>>) -> bool {
    replay(all_up(n * n), torus_table(n as int), stream_of(levels)) == replay(
        all_down(n * n),
        torus_table(n as int),
        stream_of(levels),
    )
}

/// Whether attempt number `k`, the one on the first `k + 1` levels,
/// coalesces.
pub open spec fn attempt_coalesces(n: nat, levels: Seq<Vec<Draw>>, k: int) -> bool {
    coalesces(n, levels.take(k + 1))
}

/// No attempt from number `from` up to, but without, number `upto`
/// coalesces, as far as there are levels for it.
pub open spec fn none_coalesces(n: nat, levels: Seq<Vec<Draw>>, from: int, upto: int) -> bool {
    forall|k: int|
        from <= k < upto && k < levels.len() ==> !#[trigger] attempt_coalesces(n, levels, k)
}

/// An attempt depends on the levels it replays only: levels added later do
/// not change it.
pub proof fn law_attempt_ignores_later_levels(
    n: nat,
    levels: Seq<Vec<Draw>>,
    level: Vec<Draw>,
    k: int,
)
    requires
        0 <= k < levels.len(),
    ensures
        attempt_coalesces(n, levels.push(level), k) == attempt_coalesces(n, levels, k),
{
    assert(levels.push(level).take(k + 1) =~= levels.take(k + 1));
}

/// Coalescence is final under extension: once the stream of some levels
/// coalesces, the stream with one more level coalesces too, and to the same
/// configuration.  Every later attempt therefore gives the sample of the
/// first attempt that coalesced.
pub proof fn law_extension_keeps_sample(
    n: nat,
    table: Seq<[usize; 4]>,
    levels: Seq<Vec<Draw>>,
    level: Vec<Draw>,
)
    requires
        is_torus(table, n as int),
        well_shaped(levels.push(level), n * n),
        coalesces(n, levels),
    ensures
        coalesces(n, levels.push(level)),
        replay(all_up(n * n), torus_table(n as int), stream_of(levels.push(level))) == replay(
            all_up(n * n),
            torus_table(n as int),
            stream_of(levels),
        ),
{
    let sites = n * n;
    law_torus_table(table, n as int);
    law_torus_in_bounds(table, n as int);
    law_level_extension(levels, level);
    assert(levels.push(level).take(levels.len() as int) =~= levels);
    lemma_take_shape(levels.push(level), sites, levels.len() as int);
    lemma_stream_shape(levels, sites);
    lemma_extremes_bound(all_up(sites));
    lemma_replay_shape(all_up(sites), table, level@);
    lemma_replay_shape(all_down(sites), table, level@);
    law_replay_concat(all_up(sites), table, level@, stream_of(levels));
    law_replay_concat(all_down(sites), table, level@, stream_of(levels));
    law_coalescence_forgets_start(replay(all_up(sites), table, level@), table, stream_of(levels));
    law_coalescence_forgets_start(replay(all_down(sites), table, level@), table, stream_of(levels));
}

/// Draws `count` draws for a lattice of `sites` sites.
fn draw_level(rng: &mut Mcg128Xsl64, model: &TransitionModel, sites: usize, count: usize) -> (level:
    Vec<Draw>)
    requires
        model.wf(),
        count > 0 ==> sites > 0,
    ensures
        valid_stream(level@, sites as nat),
        level@.len() == count,
{
    let mut level: Vec<Draw> = Vec::new();
    let mut done: usize = 0;
    while done < count
        invariant
            model.wf(),
            count > 0 ==> sites > 0,
            done <= count,
            level@.len() == done,
            valid_stream(level@, sites as nat),
        decreases count - done,
    {
        let site = draw_site(rng, sites);
        let word = draw_word(rng);
        let class = model.classify(word);
        proof {
            lemma_valid_push(level@, Draw { site, class }, sites as nat);
        }
        level.push(Draw { site, class });
        done += 1;
    }
    level
}

/// Number of draws of the next level, unless it is more than can be
/// counted.
pub fn next_level_len(levels: &Vec<Vec<Draw>>, sites: usize) -> (count: Option<usize>)
    requires
        well_shaped(levels@, sites as nat),
    ensures
        count matches Some(c) ==> c == level_draws(sites as nat, levels@.len()),
        count is None <==> level_draws(sites as nat, levels@.len()) > usize::MAX,
{
    let made: usize = levels.len();
    if made == 0 {
        Some(sites)
    } else {
        proof {
            law_window_doubles(sites as nat, (made - 1) as nat);
        }
        let last: usize = levels[made - 1].len();
        if made == 1 {
            Some(last)
        } else if last <= usize::MAX / 2 {
            Some(last * 2)
        } else {
            None
        }
    }
}

/// Replays the first `count` levels over both chains, newest first.
fn replay_levels(chain: &mut BoundingChain, levels: &Vec<Vec<Draw>>, count: usize)
    requires
        old(chain).wf(),
        count <= levels@.len(),
        well_shaped(levels@.take(count as int), old(chain).sites()),
    ensures
        final(chain).wf(),
        final(chain).side() == old(chain).side(),
        final(chain).table() == old(chain).table(),
        final(chain).driven_from(
            old(chain).ceiling(),
            old(chain).floor(),
            stream_of(levels@.take(count as int)),
        ),
{
    let ghost whole = stream_of(levels@.take(count as int));
    let ghost sites = chain.sites();
    let ghost mut applied: Seq<Draw> = Seq::empty();
    let mut level: usize = count;
    while level > 0
        invariant
            chain.wf(),
            chain.side() == old(chain).side(),
            chain.table() == old(chain).table(),
            sites == chain.sites(),
            level <= count <= levels@.len(),
            well_shaped(levels@.take(count as int), sites),
            whole == stream_of(levels@.take(count as int)),
            applied + stream_of(levels@.take(level as int)) == whole,
            chain.driven_from(old(chain).ceiling(), old(chain).floor(), applied),
        decreases level,
    {
        level -= 1;
        let draws = &levels[level];
        let ghost before = applied;
        proof {
            assert(levels@.take(level + 1).drop_last() =~= levels@.take(level as int));
        }
        let mut next: usize = 0;
        while next < draws.len()
            invariant
                chain.wf(),
                chain.side() == old(chain).side(),
                chain.table() == old(chain).table(),
                sites == chain.sites(),
                next <= draws@.len(),
                valid_stream(draws@, sites),
                applied == before + draws@.take(next as int),
                chain.driven_from(old(chain).ceiling(), old(chain).floor(), applied),
            decreases draws@.len() - next,
        {
            let draw = draws[next];
            proof {
                lemma_replay_push(old(chain).ceiling(), chain.table(), applied, draw);
                lemma_replay_push(old(chain).floor(), chain.table(), applied, draw);
                lemma_valid_push(applied, draw, sites);
            }
            chain.apply(draw);
            proof {
                applied = applied.push(draw);
            }
            next += 1;
        }
        proof {
            assert(applied + stream_of(levels@.take(level as int)) =~= before + stream_of(
                levels@.take(level + 1),
            ));
        }
    }
}

/// The sampler: the bounding chains, the transition model, and the levels
/// of draws made so far, oldest first.
pub struct Ising {
    chain: BoundingChain,
    model: TransitionModel,
    levels: Vec<Vec<Draw>>,
}

impl Ising {
    /// The bounding chains.
    pub closed spec fn chain(&self) -> BoundingChain {
        self.chain
    }

    /// The transition model.
    pub closed spec fn model(&self) -> TransitionModel {
        self.model
    }

    /// The levels of draws made so far, oldest first.
    pub closed spec fn levels(&self) -> Seq<Vec<Draw>> {
        self.levels@
    }

    /// Chains and model are well formed, and the levels are well shaped.
    pub open spec fn wf(&self) -> bool {
        &&& self.chain().wf()
        &&& self.model().wf()
        &&& well_shaped(self.levels(), self.chain().sites())
    }

    /// The number of draws of the next level can be counted.
    pub open spec fn can_extend(&self) -> bool {
        level_draws(self.chain().sites(), self.levels().len()) <= usize::MAX
    }

    /// Length of the stream so far.
    pub open spec fn window(&self) -> nat {
        window_len(self.chain().sites(), self.levels().len())
    }

    /// The stream so far, in the order of replay.
    pub open spec fn stream(&self) -> Seq<Draw> {
        stream_of(self.levels())
    }

    /// A sampler for the torus of side `n`, with no level yet.
    pub fn new(n: usize, model: TransitionModel) -> (ising: Ising)
        requires
            n * n < MAX_SITES,
            model.wf(),
        ensures
            ising.wf(),
            ising.chain().side() == n,
            ising.model() == model,
            ising.levels().len() == 0,
            ising.chain().ceiling() == all_up(ising.chain().sites()),
            ising.chain().floor() == all_down(ising.chain().sites()),
    {
        Ising { chain: BoundingChain::new(n), model, levels: Vec::new() }
    }

    /// Whether the number of draws of the next level can be counted.
    pub fn has_room(&self) -> (room: bool)
        requires
            self.wf(),
        ensures
            room == self.can_extend(),
    {
        next_level_len(&self.levels, self.chain.site_count()).is_some()
    }

    /// Stores one more level and starts a new attempt.
    fn install(&mut self, level: Vec<Draw>)
        requires
            old(self).wf(),
            valid_stream(level@, old(self).chain().sites()),
            level@.len() == level_draws(old(self).chain().sites(), old(self).levels().len()),
        ensures
            final(self).wf(),
            final(self).model() == old(self).model(),
            final(self).chain().side() == old(self).chain().side(),
            final(self).chain().table() == old(self).chain().table(),
            final(self).levels() == old(self).levels().push(level),
            final(self).chain().ceiling() == all_up(final(self).chain().sites()),
            final(self).chain().floor() == all_down(final(self).chain().sites()),
    {
        self.levels.push(level);
        self.chain.reset();
    }

    /// Extends the stream into the past by one level of fresh draws, as
    /// long as the stream so far, and starts a new attempt.
    fn setup_next(&mut self, rng: &mut Mcg128Xsl64)
        requires
            old(self).wf(),
            old(self).can_extend(),
        ensures
            final(self).wf(),
            final(self).model() == old(self).model(),
            final(self).chain().side() == old(self).chain().side(),
            final(self).chain().table() == old(self).chain().table(),
            final(self).levels().len() == old(self).levels().len() + 1,
            final(self).levels().drop_last() == old(self).levels(),
            final(self).chain().ceiling() == all_up(final(self).chain().sites()),
            final(self).chain().floor() == all_down(final(self).chain().sites()),
    {
        let sites: usize = self.chain.site_count();
        let count: usize = next_level_len(&self.levels, sites).unwrap();
        proof {
            law_window_doubles(sites as nat, self.levels().len());
        }
        let mut child = fork_generator(rng).unwrap();
        let level = draw_level(&mut child, &self.model, sites, count);
        self.install(level);
    }

    /// Replays the whole stream over both chains, newest level first.
    fn update_all(&mut self)
        requires
            old(self).wf(),
        ensures
            final(self).wf(),
            final(self).model() == old(self).model(),
            final(self).levels() == old(self).levels(),
            final(self).chain().side() == old(self).chain().side(),
            final(self).chain().table() == old(self).chain().table(),
            final(self).chain().driven_from(
                old(self).chain().ceiling(),
                old(self).chain().floor(),
                old(self).stream(),
            ),
    {
        proof {
            assert(self.levels().take(self.levels().len() as int) =~= self.levels());
        }
        let made: usize = self.levels.len();
        replay_levels(&mut self.chain, &self.levels, made);
    }

    /// Extends the stream by the level handed in and replays all of it from
    /// the all-up and the all-down configuration.  Returns whether the two
    /// chains have coalesced.
    pub fn extend(&mut self, level: Vec<Draw>) -> (coalesced: bool)
        requires
            old(self).wf(),
            valid_stream(level@, old(self).chain().sites()),
            level@.len() == level_draws(old(self).chain().sites(), old(self).levels().len()),
        ensures
            final(self).wf(),
            final(self).model() == old(self).model(),
            final(self).chain().side() == old(self).chain().side(),
            final(self).chain().table() == old(self).chain().table(),
            final(self).levels() == old(self).levels().push(level),
            final(self).stream() == level@ + old(self).stream(),
            final(self).chain().attempt_of(final(self).stream()),
            coalesced == final(self).chain().is_coalesced(),
    {
        proof {
            law_level_extension(self.levels(), level);
        }
        self.install(level);
        self.update_all();
        self.chain.coalesced()
    }

    /// Extends the stream by one level of fresh draws and replays all of it
    /// from the all-up and the all-down configuration.  Returns whether the
    /// two chains have coalesced.
    pub fn rerun(&mut self, rng: &mut Mcg128Xsl64) -> (coalesced: bool)
        requires
            old(self).wf(),
            old(self).can_extend(),
        ensures
            final(self).wf(),
            final(self).model() == old(self).model(),
            final(self).chain().side() == old(self).chain().side(),
            final(self).chain().table() == old(self).chain().table(),
            final(self).levels().len() == old(self).levels().len() + 1,
            final(self).levels().drop_last() == old(self).levels(),
            final(self).stream() == final(self).levels().last()@ + old(self).stream(),
            final(self).stream().len() == final(self).window(),
            final(self).chain().attempt_of(final(self).stream()),
            coalesced == final(self).chain().is_coalesced(),
    {
        self.setup_next(rng);
        self.update_all();
        proof {
            lemma_stream_shape(self.levels(), self.chain().sites());
        }
        self.chain.coalesced()
    }

    /// Magnetization of the ceiling configuration.
    pub fn magnetization(&self) -> (m: i64)
        requires
            self.wf(),
        ensures
            m == magnetization_of(self.chain().ceiling()),
    {
        self.chain.magnetization()
    }

    /// Energy of the ceiling configuration.
    pub fn energy(&self) -> (e: i64)
        requires
            self.wf(),
        ensures
            e == energy_of(self.chain().ceiling(), self.chain().table()),
    {
        self.chain.energy()
    }

    /// The bounding chains.
    pub fn bounding_chain(&self) -> (chain: &BoundingChain)
        ensures
            *chain == self.chain(),
    {
        &self.chain
    }

    /// The levels of draws made so far, oldest first.
    pub fn drawn_levels(&self) -> (levels: &Vec<Vec<Draw>>)
        ensures
            levels@ == self.levels(),
    {
        &self.levels
    }

    /// Number of levels made so far.
    pub fn level_count(&self) -> (levels: usize)
        ensures
            levels == self.levels().len(),
    {
        self.levels.len()
    }
}

/// An exact sample: the number of failed attempts before the one that
/// coalesced, the observables, and the configuration on which both chains
/// agreed.
#[derive(Debug)]
pub struct Sample {
    pub iterations: u8,
    pub magnetization: i64,
    pub energy: i64,
    pub configuration: Vec<u8>,
}

impl Sample {
    /// The sample is what attempt number `iterations` on `levels` gives on
    /// the torus of side `n`: the configuration that the stream of the
    /// first `iterations + 1` levels makes of the all-up and of the
    /// all-down configuration alike, with the observables of that
    /// configuration.
    pub open spec fn taken_from(&self, n: nat, levels: Seq<Vec<Draw>>) -> bool {
        let sites = n * n;
        let table = torus_table(n as int);
        let stream = stream_of(levels.take(self.iterations + 1));
        &&& self.iterations < levels.len()
        &&& self.configuration@ == replay(all_up(sites), table, stream)
        &&& self.configuration@ == replay(all_down(sites), table, stream)
        &&& self.magnetization == magnetization_of(self.configuration@)
        &&& self.energy == energy_of(self.configuration@, table)
    }
}

/// What the driver returns for the levels it drew on the torus of side `n`
/// with at most `limit` attempts: every level stands for one attempt, no
/// attempt but the last coalesced, a sample is that of the last attempt,
/// and no sample means that the last attempt did not coalesce either and
/// that either `limit` attempts were made or the next level holds more
/// draws than can be counted.
pub open spec fn run_outcome(sample: Option<Sample>, n: nat, levels: Seq<Vec<Draw>>, limit: u8)
    -> bool {
    &&& well_shaped(levels, n * n)
    &&& levels.len() <= limit
    &&& match sample {
        Some(s) => {
            &&& s.iterations + 1 == levels.len()
            &&& s.taken_from(n, levels)
            &&& none_coalesces(n, levels, 0, s.iterations as int)
        },
        None => {
            &&& none_coalesces(n, levels, 0, levels.len() as int)
            &&& levels.len() == limit || level_draws(n * n, levels.len()) > usize::MAX
        },
    }
}

/// A sample taken from well-shaped levels holds one binary spin for each
/// site, comes from a stream of `N * 2^iterations` draws that coalesces, and
/// has its magnetization between `-N` and `N` with the parity of `N`.
pub proof fn law_sample_bounds(sample: Sample, n: nat, levels: Seq<Vec<Draw>>)
    requires
        sample.taken_from(n, levels),
        well_shaped(levels, n * n),
        n * n < MAX_SITES,
    ensures
        attempt_coalesces(n, levels, sample.iterations as int),
        stream_of(levels.take(sample.iterations + 1)).len() == n * n * vstd::arithmetic::power2::pow2(
            sample.iterations as nat,
        ),
        sample.configuration@.len() == n * n,
        binary(sample.configuration@),
        -(n * n) <= sample.magnetization <= n * n,
        (sample.magnetization + n * n) % 2 == 0,
        (n * n) % 2 == 0 ==> sample.magnetization % 2 == 0,
{
    let sites = n * n;
    let first = levels.take(sample.iterations + 1);
    lemma_take_shape(levels, sites, sample.iterations + 1);
    lemma_stream_shape(first, sites);
    lemma_extremes_bound(all_up(sites));
    lemma_replay_shape(all_up(sites), torus_table(n as int), stream_of(first));
    law_magnetization_bound(sample.configuration@);
}

/// Makes the attempts numbered `from` and up on the levels handed in, on
/// the torus of side `n`, and stops at the first that coalesces.  Attempts
/// stop before number `limit` and where the levels run out.
pub fn first_coalescence_from(n: usize, levels: &Vec<Vec<Draw>>, from: u8, limit: u8) -> (sample:
    Option<Sample>)
    requires
        n * n < MAX_SITES,
        well_shaped(levels@, (n * n) as nat),
    ensures
        sample matches Some(s) ==> from <= s.iterations < limit && s.taken_from(n as nat, levels@)
            && none_coalesces(n as nat, levels@, from as int, s.iterations as int),
        sample is None ==> none_coalesces(n as nat, levels@, from as int, limit as int),
{
    let mut chain = BoundingChain::new(n);
    proof {
        law_torus_table(chain.table(), n as int);
    }
    let mut k: u8 = from;
    while k < limit && (k as usize) < levels.len()
        invariant
            n * n < MAX_SITES,
            chain.wf(),
            chain.side() == n,
            chain.table() == torus_table(n as int),
            well_shaped(levels@, (n * n) as nat),
            from <= k,
            none_coalesces(n as nat, levels@, from as int, k as int),
        decreases limit - k,
    {
        proof {
            lemma_take_shape(levels@, (n * n) as nat, k + 1);
        }
        chain.reset();
        replay_levels(&mut chain, levels, k as usize + 1);
        if chain.coalesced() {
            let magnetization = chain.magnetization();
            let energy = chain.energy();
            let configuration = chain.ceiling_cells().clone();
            return Some(Sample { iterations: k, magnetization, energy, configuration });
        }
        k += 1;
    }
    None
}

/// Makes the attempts on the levels handed in, on the torus of side `n`,
/// and returns the sample of the first attempt that coalesces.  Returns no
/// sample when none of the first `limit` attempts coalesces, as far as
/// there are levels for them.
pub fn first_coalescence(n: usize, levels: &Vec<Vec<Draw>>, limit: u8) -> (sample: Option<Sample>)
    requires
        n * n < MAX_SITES,
        well_shaped(levels@, (n * n) as nat),
    ensures
        sample matches Some(s) ==> s.iterations < limit && s.taken_from(n as nat, levels@)
            && none_coalesces(n as nat, levels@, 0, s.iterations as int),
        sample is None ==> none_coalesces(n as nat, levels@, 0, limit as int),
{
    first_coalescence_from(n, levels, 0, limit)
}

/// Draws one exact sample on the torus of side `n`: extends the stream
/// level by level and hands the levels to the driver, until an attempt
/// coalesces or `limit` attempts have been made.
///
/// Returns no sample when `limit` attempts did not coalesce, or when the
/// next level would hold more draws than can be counted.
pub fn run(rng: &mut Mcg128Xsl64, n: usize, model: TransitionModel, limit: u8) -> (sample: Option<
    Sample,
>)
    requires
        n * n < MAX_SITES,
        model.wf(),
    ensures
        limit == 0 ==> sample is None,
        n == 0 && limit > 0 ==> sample is Some,
        sample matches Some(s) ==> s.iterations < limit,
        exists|levels: Seq<Vec<Draw>>| #[trigger] run_outcome(sample, n as nat, levels, limit),
{
    let sites: usize = n * n;
    let mut levels: Vec<Vec<Draw>> = Vec::new();
    let mut made: u8 = 0;
    while made < limit
        invariant
            n * n < MAX_SITES,
            sites == n * n,
            model.wf(),
            made <= limit,
            levels@.len() == made,
            well_shaped(levels@, sites as nat),
            none_coalesces(n as nat, levels@, 0, made as int),
            n == 0 ==> made == 0,
        decreases limit - made,
    {
        proof {
            law_window_doubles(sites as nat, made as nat);
        }
        let count: usize = match next_level_len(&levels, sites) {
            Some(count) => count,
            None => {
                proof {
                    assert(run_outcome(None, n as nat, levels@, limit));
                }
                return None;
            },
        };
        let mut child = fork_generator(rng).unwrap();
        let level = draw_level(&mut child, &model, sites, count);
        let ghost earlier = levels@;
        levels.push(level);
        proof {
            assert forall|k: int| 0 <= k < made implies !#[trigger] attempt_coalesces(
                n as nat,
                levels@,
                k,
            ) by {
                law_attempt_ignores_later_levels(n as nat, earlier, level, k);
            }
            if n == 0 {
                lemma_take_shape(levels@, 0, 1);
                lemma_stream_shape(levels@.take(1), 0);
                lemma_replay_shape(all_up(0), torus_table(0), stream_of(levels@.take(1)));
                lemma_replay_shape(all_down(0), torus_table(0), stream_of(levels@.take(1)));
                assert(replay(all_up(0), torus_table(0), stream_of(levels@.take(1))) =~= replay(
                    all_down(0),
                    torus_table(0),
                    stream_of(levels@.take(1)),
                ));
            }
        }
        let found = first_coalescence_from(n, &levels, made, limit);
        match found {
            Some(s) => {
                proof {
                    assert(run_outcome(Some(s), n as nat, levels@, limit));
                }
                return Some(s);
            },
            None => {
                proof {
                    assert(!attempt_coalesces(n as nat, levels@, made as int));
                }
            },
        }
        made += 1;
    }
    proof {
        assert(run_outcome(None, n as nat, levels@, limit));
    }
    None
}

} // verus!
