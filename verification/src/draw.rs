//! One shared random event, and its packing into a 32-bit word.

use crate::topology::MAX_SITES;
use vstd::prelude::*;

verus! {

/// Number of bits that hold a site index in a packed draw.
pub const INDEX_BITS: u32 = 29;

/// Mask of the bits that hold a site index in a packed draw.
pub const INDEX_MASK: u32 = 0x1FFF_FFFF;

/// A single update event: the site to redraw and the threshold class that
/// decides its new spin.
#[derive(Clone, Copy, Debug, PartialEq, Eq, Structural)]
pub struct Draw {
    pub site: usize,
    pub class: u8,
}

impl Draw {
    /// The draw names a site of a lattice of `sites` sites and one of the
    /// six threshold classes.
    pub open spec fn valid(self, sites: nat) -> bool {
        self.site < sites && self.class <= 5
    }
}

/// Every draw of the stream is valid for a lattice of `sites` sites.
pub open spec fn valid_stream(draws: Seq<Draw>, sites: nat) -> bool {
    forall|k: int| 0 <= k < draws.len() ==> (#[trigger] draws[k]).valid(sites)
}

/// A valid stream extended by a valid draw is valid.
pub proof fn lemma_valid_push(draws: Seq<Draw>, draw: Draw, sites: nat)
    requires
        valid_stream(draws, sites),
        draw.valid(sites),
    ensures
        valid_stream(draws.push(draw), sites),
{
}

/// The word that holds the site in its 29 low bits and the class above.
pub open spec fn packed(draw: Draw) -> int {
    draw.site + draw.class * 0x2000_0000
}

/// The draw that a word holds.
pub open spec fn unpacked(word: u32) -> Draw {
    Draw { site: (word % 0x2000_0000) as usize, class: (word / 0x2000_0000) as u8 }
}

/// The draws that a log of words holds, word by word.
pub open spec fn unpacked_log(words: Seq<u32>) -> Seq<Draw> {
    Seq::new(words.len(), |k: int| unpacked(words[k]))
}

/// Packing loses nothing: the word of a draw holds that draw.
pub proof fn law_pack_roundtrip(draw: Draw)
    requires
        draw.site < MAX_SITES,
        draw.class < 8,
    ensures
        0 <= packed(draw) <= u32::MAX,
        unpacked(packed(draw) as u32) == draw,
{
    let site = draw.site as int;
    let class = draw.class as int;
    let word = packed(draw);
    assert(word % 0x2000_0000 == site && word / 0x2000_0000 == class) by (nonlinear_arith)
        requires
            word == site + class * 0x2000_0000,
            0 <= site < 0x2000_0000,
            0 <= class < 8,
    ;
}

/// Packs a draw into a word.
pub fn pack(draw: Draw) -> (word: u32)
    requires
        draw.site < MAX_SITES,
        draw.class < 8,
    ensures
        word == packed(draw),
        unpacked(word) == draw,
{
    let site: u32 = draw.site as u32;
    let class: u32 = draw.class as u32;
    assert(class << 29 == class * 0x2000_0000 && site + (class << 29) <= 0xFFFF_FFFF)
        by (bit_vector)
        requires
            class < 8,
            site < 0x2000_0000,
    ;
    proof {
        law_pack_roundtrip(draw);
    }
    site + (class << INDEX_BITS)
}

/// Takes a word apart into the draw that it holds.
pub fn unpack(word: u32) -> (draw: Draw)
    ensures
        draw == unpacked(word),
        draw.site < MAX_SITES,
        draw.class < 8,
{
    let low: u32 = word & INDEX_MASK;
    let high: u32 = word >> INDEX_BITS;
    assert(low == word % 0x2000_0000 && high == word / 0x2000_0000 && low < 0x2000_0000 && high
        < 8) by (bit_vector)
        requires
            low == word & 0x1FFF_FFFF,
            high == word >> 29,
    ;
    Draw { site: low as usize, class: high as u8 }
}

} // verus!
