//! The tiered rejection-sampling packer, as a mathematical function.
//!
//! A tier `(radius, target_count, max_failures)` repeatedly draws a
//! candidate center uniformly from the part of the region where a circle of
//! that radius still fits, keeps the candidate when it fits and counts a
//! failure when it does not, until either the target count or the failure
//! budget is reached.  `pack_loop` states that process exactly, one
//! generator step at a time, so a packing run is a pure function of seed,
//! region, palette and tier list — which is the determinism law.

use vstd::prelude::*;

verus! {

use crate::geom::Circle;
use crate::geom::Region;
use crate::geom::fits_spec;
use crate::palette::palette_pick;
use crate::rng::draw_value;
use crate::rng::rng_step;
use crate::rng::seed_state;

/// One packing phase: circles of this radius are placed until
/// `target_count` of them are in, or `max_failures` candidates in total
/// have been rejected.
#[derive(Clone, Copy, PartialEq, Eq, Structural, Debug)]
pub struct Tier {
    pub radius: i64,
    pub target_count: usize,
    pub max_failures: usize,
}

/// A tier is well formed when its radius is positive.
pub open spec fn tier_wf(t: Tier) -> bool {
    1 <= t.radius
}

/// A tier is feasible when a circle of its radius fits the region at all;
/// an infeasible tier places nothing and draws nothing.
pub open spec fn tier_feasible(reg: Region, t: Tier) -> bool {
    t.radius <= reg.half_w && t.radius <= reg.half_h
}

/// The rejection-sampling loop of one tier, from a given circle list,
/// generator state and pair of counters: the resulting circle list,
/// generator state, and number of circles placed.
pub open spec fn pack_loop(
    reg: Region,
    pal: Seq<u32>,
    t: Tier,
    s: Seq<Circle>,
    st: u64,
    placed: int,
    failures: int,
) -> (Seq<Circle>, u64, int)
    decreases t.target_count - placed, t.max_failures - failures,
{
    if placed >= t.target_count as int || failures >= t.max_failures as int {
        (s, st, placed)
    } else {
        let st1 = rng_step(st);
        let x = draw_value(st, t.radius - reg.half_w, reg.half_w - t.radius);
        let st2 = rng_step(st1);
        let y = draw_value(st1, t.radius - reg.half_h, reg.half_h - t.radius);
        let cand = Circle { x: x as i64, y: y as i64, r: t.radius, color: 0 };
        if fits_spec(reg, s, cand) {
            let st3 = rng_step(st2);
            let col = palette_pick(pal, st2);
            let placed_circle = Circle { x: x as i64, y: y as i64, r: t.radius, color: col };
            pack_loop(reg, pal, t, s.push(placed_circle), st3, placed + 1, failures)
        } else {
            pack_loop(reg, pal, t, s, st2, placed, failures + 1)
        }
    }
}

/// One whole tier: an infeasible tier is a no-op that places zero circles,
/// a feasible one runs the rejection-sampling loop.
pub open spec fn pack_tier_spec(reg: Region, pal: Seq<u32>, t: Tier, s: Seq<Circle>, st: u64) -> (
    Seq<Circle>,
    u64,
    int,
) {
    if !tier_feasible(reg, t) {
        (s, st, 0)
    } else {
        pack_loop(reg, pal, t, s, st, 0, 0)
    }
}

/// A whole packing run: the tiers applied in order, each starting from the
/// circles and generator state the previous one left behind.
pub open spec fn pack_tiers_spec(
    reg: Region,
    pal: Seq<u32>,
    tiers: Seq<Tier>,
    s: Seq<Circle>,
    st: u64,
) -> (Seq<Circle>, u64)
    decreases tiers.len(),
{
    if tiers.len() == 0 {
        (s, st)
    } else {
        let first = pack_tier_spec(reg, pal, tiers[0], s, st);
        pack_tiers_spec(reg, pal, tiers.drop_first(), first.0, first.1)
    }
}

/// Determinism: two runs with identical seed, region, palette and tier
/// list produce identical circle lists — same order, same centers, same
/// radii, same colours — and identical final generator states.
pub proof fn lemma_pack_deterministic(
    reg1: Region,
    reg2: Region,
    pal1: Seq<u32>,
    pal2: Seq<u32>,
    tiers1: Seq<Tier>,
    tiers2: Seq<Tier>,
    seed1: u64,
    seed2: u64,
)
    requires
        reg1 == reg2,
        pal1 == pal2,
        tiers1 == tiers2,
        seed1 == seed2,
    ensures
        pack_tiers_spec(reg1, pal1, tiers1, Seq::<Circle>::empty(), seed_state(seed1))
            == pack_tiers_spec(reg2, pal2, tiers2, Seq::<Circle>::empty(), seed_state(seed2)),
{
}

} // verus!
