//! The colour table that placed circles draw from.
//!
//! Colours are plain `0xRRGGBB` words; rendering them is the host's
//! business.  A colour is assigned once, at placement time, by drawing a
//! uniformly random index from the table with the same generator that
//! drives placement, so the whole run stays reproducible from one seed.

use vstd::prelude::*;

verus! {

use crate::rng::Rng;
use crate::rng::rng_step;

/// The colours of the default table, as `0xRRGGBB` words.
pub open spec fn tango_colors() -> Seq<u32> {
    seq![
        0xFCE84Fu32, 0xEDD500, 0xC4A000,
        0x8BE234, 0x74D216, 0x4E9A06,
        0xFCB03E, 0xF57A00, 0xCE5D00,
        0x729FCF, 0x3465A4, 0x204987,
        0xAD7FA8, 0x75507B, 0x5C3566,
        0xE9BA6E, 0xC17E11, 0x8F5902,
        0xEF2929, 0xCC0000, 0xA40000,
    ]
}

/// The colour one generator step picks from a table.
pub open spec fn palette_pick(pal: Seq<u32>, st: u64) -> u32 {
    pal[rng_step(st) as int % pal.len() as int]
}

/// A colour table.
pub struct Palette {
    pub colors: Vec<u32>,
}

impl View for Palette {
    type V = Seq<u32>;

    open spec fn view(&self) -> Seq<u32> {
        self.colors@
    }
}

impl Palette {
    /// The default table: the Tango palette.
    pub fn new() -> (p: Palette)
        ensures
            p@ == tango_colors(),
            p@.len() == 21,
    {
        let colors: Vec<u32> = vec![
            0xFCE84F, 0xEDD500, 0xC4A000,
            0x8BE234, 0x74D216, 0x4E9A06,
            0xFCB03E, 0xF57A00, 0xCE5D00,
            0x729FCF, 0x3465A4, 0x204987,
            0xAD7FA8, 0x75507B, 0x5C3566,
            0xE9BA6E, 0xC17E11, 0x8F5902,
            0xEF2929, 0xCC0000, 0xA40000,
        ];
        proof {
            assert(colors@ =~= tango_colors());
        }
        Palette { colors }
    }

    /// Draws a uniformly random colour from the table.
    pub fn random(&self, rng: &mut Rng) -> (c: u32)
        requires
            self@.len() > 0,
        ensures
            final(rng)@ == rng_step(old(rng)@),
            c == palette_pick(self@, old(rng)@),
    {
        let out = rng.next_u64();
        let idx = (out % (self.colors.len() as u64)) as usize;
        self.colors[idx]
    }
}

} // verus!
