//! The heat-bath transition model and the monotone encoding of a draw.
//!
//! A uniform variate below `2^53` is cut into six threshold classes.  A site
//! with `m` neighbours up becomes up exactly when its class is at most `m`,
//! so a single variate decides the outcome for every neighbourhood at once,
//! and more neighbours up never make a site less likely to be up.
//!
//! Probabilities are held in fixed point, in units of `2^-53`.

use vstd::prelude::*;

verus! {

/// Number of low bits dropped from a 64-bit word to obtain a variate.
pub const DROPPED_BITS: u32 = 11;

/// The fixed-point representation of probability one: `2^53`.
pub const ONE: u64 = 0x20_0000_0000_0000;

/// The fixed-point representation of probability one half: `2^52`.
pub const HALF: u64 = 0x10_0000_0000_0000;

/// The two probabilities that determine the single-site heat-bath rule at
/// one temperature, in units of `2^-53`.
#[derive(Clone, Copy, Debug)]
pub struct TransitionModel {
    p2: u64,
    p4: u64,
}

/// The variate carried by a 64-bit word: its 53 high bits.
pub open spec fn variate_of(word: u64) -> int {
    word as int / 2048
}

impl TransitionModel {
    /// Probability that a site with exactly one neighbour up becomes up.
    pub closed spec fn p2(self) -> int {
        self.p2 as int
    }

    /// Probability that a site with no neighbour up becomes up.
    pub closed spec fn p4(self) -> int {
        self.p4 as int
    }

    /// The two probabilities are ordered and at most one half.
    pub open spec fn wf(self) -> bool {
        0 <= self.p4() <= self.p2() <= HALF
    }

    /// Probability, in units of `2^-53`, that a site with `ups` neighbours
    /// up becomes up.
    pub open spec fn up_weight(self, ups: int) -> int {
        if ups <= 0 {
            self.p4()
        } else if ups == 1 {
            self.p2()
        } else if ups == 2 {
            HALF as int
        } else if ups == 3 {
            ONE - self.p2()
        } else {
            ONE - self.p4()
        }
    }

    /// Threshold class of a variate: the six bins with boundaries `p4`,
    /// `p2`, one half, `1 - p2` and `1 - p4` carry the classes 5 down to 0.
    pub open spec fn class_of(self, variate: int) -> int {
        if variate < self.p4() {
            5
        } else if variate < self.p2() {
            4
        } else if variate < HALF {
            3
        } else if variate < ONE - self.p2() {
            2
        } else if variate < ONE - self.p4() {
            1
        } else {
            0
        }
    }

    /// Makes a model from its two probabilities, if they are ordered and at
    /// most one half.
    pub fn new(p2: u64, p4: u64) -> (model: Option<TransitionModel>)
        ensures
            model is Some <==> p4 <= p2 <= HALF,
            model matches Some(m) ==> m.p2() == p2 && m.p4() == p4 && m.wf(),
    {
        if p4 <= p2 && p2 <= HALF {
            Some(TransitionModel { p2, p4 })
        } else {
            None
        }
    }

    /// Probability that a site with exactly one neighbour up becomes up.
    pub fn local_prob2(&self) -> (p: u64)
        ensures
            p == self.p2(),
    {
        self.p2
    }

    /// Probability that a site with no neighbour up becomes up.
    pub fn local_prob4(&self) -> (p: u64)
        ensures
            p == self.p4(),
    {
        self.p4
    }

    /// Threshold class of the variate carried by `word`.
    pub fn classify(&self, word: u64) -> (class: u8)
        requires
            self.wf(),
        ensures
            class == self.class_of(variate_of(word)),
            class <= 5,
    {
        let variate: u64 = word >> DROPPED_BITS;
        assert(variate == word / 2048 && variate < 0x20_0000_0000_0000) by (bit_vector)
            requires
                variate == word >> 11,
        ;
        if variate < self.p4 {
            5
        } else if variate < self.p2 {
            4
        } else if variate < HALF {
            3
        } else if variate < ONE - self.p2 {
            2
        } else if variate < ONE - self.p4 {
            1
        } else {
            0
        }
    }
}

/// Every variate falls in one of the six classes.
pub proof fn law_class_in_range(model: TransitionModel, variate: int)
    ensures
        0 <= model.class_of(variate) <= 5,
{
}

/// The encoding reproduces the heat-bath rule: for a site with `ups`
/// neighbours up, the variates whose class is at most `ups` are exactly the
/// `up_weight(ups)` largest ones.
pub proof fn law_class_reproduces_weights(model: TransitionModel, variate: int, ups: int)
    requires
        model.wf(),
        0 <= variate < ONE,
        0 <= ups <= 4,
    ensures
        model.class_of(variate) <= ups <==> variate >= ONE - model.up_weight(ups),
{
}

/// The probability of becoming up does not decrease with the number of
/// neighbours up, is one half at two, and that of `ups` and of `4 - ups`
/// add up to one.
pub proof fn law_weights_monotone_and_complementary(model: TransitionModel, a: int, b: int)
    requires
        model.wf(),
        0 <= a <= b <= 4,
    ensures
        0 <= model.up_weight(a) <= model.up_weight(b) <= ONE,
        model.up_weight(2) == HALF,
        2 * HALF == ONE,
        model.up_weight(a) + model.up_weight(4 - a) == ONE,
{
}

} // verus!
