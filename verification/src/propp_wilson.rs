//! The backward-doubling driver that keeps its draws.
//!
//! Every draw is packed into a word and appended to a log.  The log grows
//! into the past: a replay starts at its end and walks towards its start,
//! so that the draws recorded first are the last to be applied.

use crate::chain::{mismatches, BoundingChain};
use crate::draw::{lemma_valid_push, pack, packed, unpack, unpacked, Draw};
use crate::dynamics::{all_down, all_up, lemma_replay_push, replay, step};
use crate::generator::{draw_site, draw_word};
use crate::stream::{law_window_extension, schedule};
use crate::topology::MAX_SITES;
use crate::transition::{variate_of, TransitionModel};
use rand_pcg::Mcg128Xsl64;
use vstd::prelude::*;

verus! {

/// A positive multiple of `d` is at least `d`, and `d` less is a multiple
/// again.
proof fn lemma_multiple_steps(x: int, d: int)
    requires
        0 < d,
        0 < x,
        x % d == 0,
    ensures
        x >= d,
        (x - d) % d == 0,
{
    if x < d {
        vstd::arithmetic::div_mod::lemma_small_mod(x as nat, d as nat);
    }
    vstd::arithmetic::div_mod::lemma_mod_multiples_vanish(-1, x, d);
}

/// The sampler: the bounding chains, the transition model, the log of
/// packed draws and the position that the replay has reached in it.
pub struct ProppWilsonIsing {
    chain: BoundingChain,
    model: TransitionModel,
    pointer: usize,
    data: Vec<u32>,
}

impl ProppWilsonIsing {
    /// The bounding chains.
    pub closed spec fn chain(&self) -> BoundingChain {
        self.chain
    }

    /// The transition model.
    pub closed spec fn model(&self) -> TransitionModel {
        self.model
    }

    /// Number of logged draws that the replay has yet to apply.
    pub closed spec fn pointer(&self) -> nat {
        self.pointer as nat
    }

    /// The log of packed draws, in the order in which they were recorded.
    pub closed spec fn log(&self) -> Seq<u32> {
        self.data@
    }

    /// Chains and model are well formed, the pointer lies within the log,
    /// and every logged word holds a valid draw.
    pub open spec fn wf(&self) -> bool {
        &&& self.chain().wf()
        &&& self.model().wf()
        &&& self.pointer() <= self.log().len()
        &&& forall|k: int|
            0 <= k < self.log().len() ==> unpacked(#[trigger] self.log()[k]).valid(
                self.chain().sites(),
            )
    }

    /// The draw at `site` whose class is that of the variate carried by
    /// `word`.
    pub open spec fn draw_of(&self, site: usize, word: u64) -> Draw {
        Draw { site, class: self.model().class_of(variate_of(word)) as u8 }
    }

    /// Number of draws of the schedule that the replay has applied.
    pub open spec fn consumed(&self) -> nat {
        (self.log().len() - self.pointer()) as nat
    }

    /// The chains hold what the applied part of the schedule makes of the
    /// all-up and the all-down configuration.
    pub open spec fn in_sync(&self) -> bool {
        self.chain().attempt_of(schedule(self.log()).take(self.consumed() as int))
    }

    /// Whether chains started afresh agree once `sweeps` sweeps have been
    /// applied after the first `start` draws of the schedule.
    pub open spec fn agree_after(&self, start: nat, sweeps: int) -> bool {
        let sites = self.chain().sites();
        let done = schedule(self.log()).take(start + sweeps * sites);
        replay(all_up(sites), self.chain().table(), done) == replay(
            all_down(sites),
            self.chain().table(),
            done,
        )
    }

    /// A sampler for the torus of side `n`, with an empty log.
    pub fn new(n: usize, model: TransitionModel) -> (ising: ProppWilsonIsing)
        requires
            n * n < MAX_SITES,
            model.wf(),
        ensures
            ising.wf(),
            ising.in_sync(),
            ising.chain().side() == n,
            ising.model() == model,
            ising.log().len() == 0,
            ising.pointer() == 0,
            ising.chain().ceiling() == all_up(ising.chain().sites()),
            ising.chain().floor() == all_down(ising.chain().sites()),
    {
        let ising = ProppWilsonIsing {
            chain: BoundingChain::new(n),
            model,
            pointer: 0,
            data: Vec::new(),
        };
        ising
    }

    /// Appends to the log the draw at `site` whose class is that of the
    /// variate carried by `word`.
    pub fn record(&mut self, site: usize, word: u64)
        requires
            old(self).wf(),
            site < old(self).chain().sites(),
        ensures
            final(self).wf(),
            final(self).chain() == old(self).chain(),
            final(self).model() == old(self).model(),
            final(self).pointer() == old(self).pointer(),
            final(self).log() == old(self).log().push(packed(old(self).draw_of(site, word)) as u32),
            unpacked(final(self).log().last()) == old(self).draw_of(site, word),
    {
        let class = self.model.classify(word);
        let packed_draw = pack(Draw { site, class });
        self.data.push(packed_draw);
    }

    /// Number of draws by which the next extension doubles the log: one
    /// sweep for an empty log, and as many draws as the log holds else.
    pub fn doubling_len(&self) -> (n: usize)
        requires
            self.wf(),
        ensures
            n == if self.log().len() == 0 {
                self.chain().sites()
            } else {
                self.log().len()
            },
    {
        if self.data.len() == 0 {
            self.chain.site_count()
        } else {
            self.data.len()
        }
    }

    /// Extends the log into the past by `n` fresh draws and starts a new
    /// attempt: the replay is rewound to the end of the log, the ceiling
    /// set all up and the floor all down.
    pub fn rerun(&mut self, n: usize, rng: &mut Mcg128Xsl64)
        requires
            old(self).wf(),
            old(self).chain().sites() > 0,
            n as int % old(self).chain().sites() as int == 0,
        ensures
            final(self).wf(),
            final(self).in_sync(),
            final(self).model() == old(self).model(),
            final(self).chain().side() == old(self).chain().side(),
            final(self).chain().table() == old(self).chain().table(),
            final(self).log().len() == old(self).log().len() + n,
            final(self).log().take(old(self).log().len() as int) == old(self).log(),
            schedule(final(self).log()).skip(n as int) == schedule(old(self).log()),
            final(self).pointer() == final(self).log().len(),
            final(self).chain().ceiling() == all_up(final(self).chain().sites()),
            final(self).chain().floor() == all_down(final(self).chain().sites()),
    {
        let sites: usize = self.chain.site_count();
        let mut k: usize = 0;
        while k < n
            invariant
                self.wf(),
                sites == self.chain().sites(),
                sites > 0,
                k <= n,
                self.chain() == old(self).chain(),
                self.model() == old(self).model(),
                self.pointer() == old(self).pointer(),
                self.log().len() == old(self).log().len() + k,
                self.log().take(old(self).log().len() as int) == old(self).log(),
            decreases n - k,
        {
            let site = draw_site(rng, sites);
            let word = draw_word(rng);
            let ghost before = self.log();
            self.record(site, word);
            proof {
                assert(self.log().take(old(self).log().len() as int) =~= before.take(
                    old(self).log().len() as int,
                ));
            }
            k += 1;
        }
        self.rewind();
        proof {
            let kept = old(self).log();
            let added = self.log().skip(kept.len() as int);
            law_window_extension(kept, added);
        }
    }

    /// Starts a new attempt over the log as it stands: the replay is
    /// rewound to the end of the log, the ceiling set all up and the floor
    /// all down.
    pub fn rewind(&mut self)
        requires
            old(self).wf(),
        ensures
            final(self).wf(),
            final(self).in_sync(),
            final(self).model() == old(self).model(),
            final(self).log() == old(self).log(),
            final(self).chain().side() == old(self).chain().side(),
            final(self).chain().table() == old(self).chain().table(),
            final(self).pointer() == final(self).log().len(),
            final(self).chain().ceiling() == all_up(final(self).chain().sites()),
            final(self).chain().floor() == all_down(final(self).chain().sites()),
    {
        self.pointer = self.data.len();
        self.chain.reset();
    }

    /// Applies the next draw of the schedule to both chains.
    pub fn update_one(&mut self)
        requires
            old(self).wf(),
            old(self).pointer() > 0,
        ensures
            final(self).wf(),
            final(self).model() == old(self).model(),
            final(self).log() == old(self).log(),
            final(self).pointer() == old(self).pointer() - 1,
            final(self).chain().side() == old(self).chain().side(),
            final(self).chain().table() == old(self).chain().table(),
            final(self).chain().ceiling() == step(
                old(self).chain().ceiling(),
                old(self).chain().table(),
                schedule(old(self).log())[old(self).consumed() as int],
            ),
            final(self).chain().floor() == step(
                old(self).chain().floor(),
                old(self).chain().table(),
                schedule(old(self).log())[old(self).consumed() as int],
            ),
            old(self).in_sync() ==> final(self).in_sync(),
    {
        self.pointer -= 1;
        let draw = unpack(self.data[self.pointer]);
        proof {
            if old(self).in_sync() {
                let done = schedule(self.log()).take(old(self).consumed() as int);
                let sites = self.chain().sites();
                lemma_replay_push(all_up(sites), self.chain().table(), done, draw);
                lemma_replay_push(all_down(sites), self.chain().table(), done, draw);
                assert(schedule(self.log()).take(old(self).consumed() as int + 1) =~= done.push(draw));
                lemma_valid_push(done, draw, sites);
            }
        }
        self.chain.apply(draw);
    }

    /// Applies one sweep, as many draws as the lattice has sites.  Returns
    /// whether any logged draw is left to apply.
    pub fn update_n(&mut self) -> (more: bool)
        requires
            old(self).wf(),
            old(self).pointer() >= old(self).chain().sites(),
        ensures
            final(self).wf(),
            final(self).model() == old(self).model(),
            final(self).log() == old(self).log(),
            final(self).pointer() == old(self).pointer() - old(self).chain().sites(),
            final(self).chain().side() == old(self).chain().side(),
            final(self).chain().table() == old(self).chain().table(),
            final(self).chain().driven_from(
                old(self).chain().ceiling(),
                old(self).chain().floor(),
                schedule(old(self).log()).subrange(
                    old(self).consumed() as int,
                    old(self).consumed() as int + old(self).chain().sites(),
                ),
            ),
            old(self).in_sync() ==> final(self).in_sync(),
            more == (final(self).pointer() > 0),
    {
        let sites: usize = self.chain.site_count();
        let ghost start = self.consumed() as int;
        let ghost plan = schedule(self.log());
        let mut k: usize = 0;
        while k < sites
            invariant
                self.wf(),
                sites == self.chain().sites(),
                k <= sites,
                self.model() == old(self).model(),
                self.log() == old(self).log(),
                self.pointer() + k == old(self).pointer(),
                self.pointer() + sites >= old(self).pointer(),
                old(self).pointer() >= sites,
                old(self).pointer() <= old(self).log().len(),
                start == old(self).consumed(),
                plan == schedule(old(self).log()),
                self.chain().side() == old(self).chain().side(),
                self.chain().table() == old(self).chain().table(),
                self.chain().driven_from(
                    old(self).chain().ceiling(),
                    old(self).chain().floor(),
                    plan.subrange(start, start + k),
                ),
                old(self).in_sync() ==> self.in_sync(),
            decreases sites - k,
        {
            let ghost done = plan.subrange(start, start + k);
            self.update_one();
            proof {
                let draw = plan[start + k];
                lemma_replay_push(old(self).chain().ceiling(), self.chain().table(), done, draw);
                lemma_replay_push(old(self).chain().floor(), self.chain().table(), done, draw);
                assert(plan.subrange(start, start + k + 1) =~= done.push(draw));
                assert(unpacked(self.log()[self.log().len() - 1 - (start + k)]).valid(
                    self.chain().sites(),
                ));
                lemma_valid_push(done, draw, self.chain().sites());
            }
            k += 1;
        }
        self.pointer > 0
    }

    /// Applies sweep after sweep until the chains agree with draws still
    /// left to apply, or until the log is used up.  Returns the number of
    /// sweeps after which the chains agreed, or nothing when the log ran out
    /// first; the state reached with the last draw of the log is not
    /// examined.
    pub fn sweep_until_coalesced(&mut self) -> (sweeps: Option<usize>)
        requires
            old(self).wf(),
            old(self).chain().sites() > 0,
            old(self).pointer() > 0,
            old(self).pointer() % old(self).chain().sites() == 0,
        ensures
            final(self).wf(),
            final(self).model() == old(self).model(),
            final(self).log() == old(self).log(),
            final(self).chain().side() == old(self).chain().side(),
            final(self).chain().table() == old(self).chain().table(),
            old(self).in_sync() ==> final(self).in_sync(),
            sweeps matches Some(count) ==> {
                &&& count >= 1
                &&& final(self).pointer() + count * old(self).chain().sites() == old(
                    self,
                ).pointer()
                &&& final(self).pointer() > 0
                &&& final(self).chain().is_coalesced()
            },
            sweeps is None ==> final(self).pointer() == 0,
            old(self).in_sync() ==> forall|j: int|
                1 <= j && j * old(self).chain().sites() + final(self).pointer() < old(
                    self,
                ).pointer() ==> !#[trigger] old(self).agree_after(old(self).consumed(), j),
    {
        let ghost sites = self.chain().sites() as int;
        let mut count: usize = 0;
        loop
            invariant
                self.wf(),
                sites == self.chain().sites(),
                sites > 0,
                self.pointer() > 0,
                self.pointer() % (sites as nat) == 0,
                self.model() == old(self).model(),
                self.log() == old(self).log(),
                self.chain().side() == old(self).chain().side(),
                self.chain().table() == old(self).chain().table(),
                old(self).in_sync() ==> self.in_sync(),
                self.pointer() + count * sites == old(self).pointer(),
                old(self).pointer() <= old(self).log().len(),
                old(self).in_sync() ==> forall|j: int|
                    1 <= j <= count ==> !#[trigger] old(self).agree_after(
                        old(self).consumed(),
                        j,
                    ),
            decreases self.pointer(),
        {
            proof {
                lemma_multiple_steps(self.pointer() as int, sites);
                assert((count + 1) * sites == count * sites + sites) by (nonlinear_arith);
                assert(count <= count * sites) by (nonlinear_arith)
                    requires
                        sites >= 1,
                        count >= 0,
                ;
            }
            let more = self.update_n();
            count += 1;
            proof {
                if old(self).in_sync() {
                    assert forall|j: int|
                        1 <= j && j * sites + self.pointer() < old(
                            self,
                        ).pointer() implies !#[trigger] old(self).agree_after(
                        old(self).consumed(),
                        j,
                    ) by {
                        assert(j < count) by (nonlinear_arith)
                            requires
                                j * sites < count * sites,
                                sites > 0,
                        ;
                    }
                }
            }
            if !more {
                return None;
            }
            if self.distance() == 0 {
                return Some(count);
            }
        }
    }

    /// Number of sites at which the two chains differ.
    pub fn distance(&self) -> (count: u32)
        requires
            self.wf(),
        ensures
            count == mismatches(self.chain().ceiling(), self.chain().floor()),
            count == 0 <==> self.chain().is_coalesced(),
    {
        self.chain.distance()
    }

    /// The bounding chains.
    pub fn bounding_chain(&self) -> (chain: &BoundingChain)
        ensures
            *chain == self.chain(),
    {
        &self.chain
    }

    /// The log of packed draws.
    pub fn packed_log(&self) -> (log: &Vec<u32>)
        ensures
            log@ == self.log(),
    {
        &self.data
    }

    /// Number of logged draws that the replay has yet to apply.
    pub fn remaining(&self) -> (left: usize)
        ensures
            left == self.pointer(),
    {
        self.pointer
    }
}

} // verus!
