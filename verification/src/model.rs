//! The engine state: region, palette, and the circles placed so far.
//!
//! `pack_circles` runs one tier against the current state and proves that
//! it computes exactly `pack_tier_spec`; `reset` rebuilds the whole set
//! from scratch for a tier list; `grow` runs one growth pass.  Packing
//! maintains the two spatial invariants — no two circles overlap, and
//! every circle lies within the region — and growing maintains the first.

use vstd::prelude::*;

verus! {

use crate::geom::Circle;
use crate::geom::CircleSet;
use crate::geom::Region;
use crate::geom::all_in_region;
use crate::geom::circle_in_region;
use crate::geom::circles_apart;
use crate::geom::circles_wf;
use crate::geom::fits;
use crate::geom::lemma_apart_sym;
use crate::geom::no_overlap;
use crate::geom::region_wf;
use crate::grow::grow_spec;
use crate::grow::radii_grown;
use crate::grow::relax_once;
use crate::grow::same_layout;
use crate::pack::Tier;
use crate::pack::pack_loop;
use crate::pack::pack_tier_spec;
use crate::pack::pack_tiers_spec;
use crate::pack::tier_feasible;
use crate::pack::tier_wf;
use crate::palette::Palette;
use crate::rng::Rng;

/// The engine state.  The circle list starts empty; packing appends and
/// never removes or reorders; growing mutates radii in place.
pub struct Model {
    pub region: Region,
    pub palette: Palette,
    pub circles: CircleSet,
}

/// Fixed parts of a well-formed model: a well-formed region and a
/// non-empty palette.
pub open spec fn model_wf(m: Model) -> bool {
    &&& region_wf(m.region)
    &&& m.palette@.len() > 0
}

impl Model {
    /// A fresh model over the given region, with the default palette and
    /// no circles.
    pub fn new(region: Region) -> (m: Model)
        requires
            region_wf(region),
        ensures
            model_wf(m),
            m.region == region,
            m.palette@ == crate::palette::tango_colors(),
            m.circles@ == Seq::<Circle>::empty(),
    {
        Model { region, palette: Palette::new(), circles: CircleSet::new() }
    }

    /// Runs one tier of rejection sampling against the current circles and
    /// returns how many circles it placed (possibly fewer than the target;
    /// that is an expected outcome, not an error).
    pub fn pack_circles(&mut self, rng: &mut Rng, tier: Tier) -> (placed: usize)
        requires
            model_wf(*old(self)),
            tier_wf(tier),
            circles_wf(old(self).circles@),
            no_overlap(old(self).circles@),
            all_in_region(old(self).region, old(self).circles@),
        ensures
            model_wf(*final(self)),
            final(self).region == old(self).region,
            final(self).palette@ == old(self).palette@,
            final(self).circles@ == pack_tier_spec(
                old(self).region,
                old(self).palette@,
                tier,
                old(self).circles@,
                old(rng)@,
            ).0,
            final(rng)@ == pack_tier_spec(
                old(self).region,
                old(self).palette@,
                tier,
                old(self).circles@,
                old(rng)@,
            ).1,
            placed as int == pack_tier_spec(
                old(self).region,
                old(self).palette@,
                tier,
                old(self).circles@,
                old(rng)@,
            ).2,
            circles_wf(final(self).circles@),
            no_overlap(final(self).circles@),
            all_in_region(final(self).region, final(self).circles@),
            old(self).circles@.is_prefix_of(final(self).circles@),
            final(self).circles@.len() == old(self).circles@.len() + placed,
            placed <= tier.target_count,
            forall|i: int|
                old(self).circles@.len() <= i < final(self).circles@.len()
                    ==> (#[trigger] final(self).circles@[i]).r == tier.radius,
            !tier_feasible(old(self).region, tier)
                ==> placed == 0 && final(self).circles@ == old(self).circles@
                    && final(rng)@ == old(rng)@,
    {
        let ghost reg = self.region;
        let ghost pal = self.palette@;
        let ghost s0 = self.circles@;
        let ghost st0 = rng@;
        if tier.radius > self.region.half_w || tier.radius > self.region.half_h {
            proof {
                assert(s0.is_prefix_of(s0));
            }
            return 0;
        }
        let ghost goal = pack_tier_spec(reg, pal, tier, s0, st0);
        let lo_x = tier.radius - self.region.half_w;
        let hi_x = self.region.half_w - tier.radius;
        let lo_y = tier.radius - self.region.half_h;
        let hi_y = self.region.half_h - tier.radius;
        let mut placed: usize = 0;
        let mut failures: usize = 0;
        while placed < tier.target_count && failures < tier.max_failures
            invariant
                region_wf(reg),
                self.region == reg,
                self.palette@ == pal,
                pal.len() > 0,
                tier_wf(tier),
                tier_feasible(reg, tier),
                lo_x == tier.radius - reg.half_w,
                hi_x == reg.half_w - tier.radius,
                lo_y == tier.radius - reg.half_h,
                hi_y == reg.half_h - tier.radius,
                0 <= placed <= tier.target_count,
                0 <= failures <= tier.max_failures,
                circles_wf(self.circles@),
                no_overlap(self.circles@),
                all_in_region(reg, self.circles@),
                s0.is_prefix_of(self.circles@),
                self.circles@.len() == s0.len() + placed,
                forall|i: int|
                    s0.len() <= i < self.circles@.len() ==> (#[trigger] self.circles@[i]).r
                        == tier.radius,
                pack_loop(reg, pal, tier, self.circles@, rng@, placed as int, failures as int)
                    == goal,
            decreases tier.target_count - placed + tier.max_failures - failures,
        {
            let ghost s_pre = self.circles@;
            let ghost st_pre = rng@;
            let x = rng.next_in_range(lo_x, hi_x);
            let y = rng.next_in_range(lo_y, hi_y);
            let cand = Circle { x, y, r: tier.radius, color: 0 };
            let ok = fits(&self.region, &self.circles, cand);
            if ok {
                let col = self.palette.random(rng);
                let c = Circle { x, y, r: tier.radius, color: col };
                self.circles.push(c);
                placed = placed + 1;
                proof {
                    let sn = s_pre.push(c);
                    assert forall|a: int, b: int| 0 <= a < b < sn.len() implies circles_apart(
                        #[trigger] sn[a],
                        #[trigger] sn[b],
                    ) by {
                        if b == sn.len() - 1 {
                            assert(circles_apart(cand, s_pre[a]));
                            assert(circles_apart(c, s_pre[a]));
                            lemma_apart_sym(c, s_pre[a]);
                        }
                    }
                    assert(circle_in_region(reg, c));
                    assert(s0.is_prefix_of(sn)) by {
                        assert(sn.subrange(0, s0.len() as int) =~= s0);
                    }
                    assert(pack_loop(reg, pal, tier, sn, rng@, placed as int, failures as int)
                        == pack_loop(
                        reg,
                        pal,
                        tier,
                        s_pre,
                        st_pre,
                        placed as int - 1,
                        failures as int,
                    ));
                }
            } else {
                failures = failures + 1;
                proof {
                    assert(pack_loop(
                        reg,
                        pal,
                        tier,
                        s_pre,
                        rng@,
                        placed as int,
                        failures as int,
                    ) == pack_loop(reg, pal, tier, s_pre, st_pre, placed as int, failures as int - 1));
                }
            }
        }
        placed
    }

    /// Discards all circles and repacks the whole region from scratch: the
    /// tiers are applied in order (by convention, largest radius first, so
    /// big circles claim space before small ones fragment it).
    pub fn reset(&mut self, rng: &mut Rng, tiers: &Vec<Tier>)
        requires
            model_wf(*old(self)),
            forall|i: int| 0 <= i < tiers@.len() ==> tier_wf(#[trigger] tiers@[i]),
        ensures
            model_wf(*final(self)),
            final(self).region == old(self).region,
            final(self).palette@ == old(self).palette@,
            final(self).circles@ == pack_tiers_spec(
                old(self).region,
                old(self).palette@,
                tiers@,
                Seq::<Circle>::empty(),
                old(rng)@,
            ).0,
            final(rng)@ == pack_tiers_spec(
                old(self).region,
                old(self).palette@,
                tiers@,
                Seq::<Circle>::empty(),
                old(rng)@,
            ).1,
            circles_wf(final(self).circles@),
            no_overlap(final(self).circles@),
            all_in_region(final(self).region, final(self).circles@),
    {
        let ghost reg = self.region;
        let ghost pal = self.palette@;
        self.circles.clear();
        let ghost st0 = rng@;
        let ghost goal = pack_tiers_spec(reg, pal, tiers@, Seq::<Circle>::empty(), st0);
        proof {
            assert(tiers@.skip(0) =~= tiers@);
        }
        let n = tiers.len();
        let mut k: usize = 0;
        while k < n
            invariant
                region_wf(reg),
                self.region == reg,
                self.palette@ == pal,
                pal.len() > 0,
                n == tiers@.len(),
                0 <= k <= n,
                forall|i: int| 0 <= i < tiers@.len() ==> tier_wf(#[trigger] tiers@[i]),
                circles_wf(self.circles@),
                no_overlap(self.circles@),
                all_in_region(reg, self.circles@),
                pack_tiers_spec(reg, pal, tiers@.skip(k as int), self.circles@, rng@) == goal,
            decreases n - k,
        {
            let t = tiers[k];
            let ghost s_pre = self.circles@;
            let ghost st_pre = rng@;
            let _ = self.pack_circles(rng, t);
            proof {
                assert(tiers@.skip(k as int).drop_first() =~= tiers@.skip(k as int + 1));
                assert(tiers@.skip(k as int)[0] == tiers@[k as int]);
                assert(pack_tiers_spec(reg, pal, tiers@.skip(k as int + 1), self.circles@, rng@)
                    == pack_tiers_spec(reg, pal, tiers@.skip(k as int), s_pre, st_pre));
            }
            k = k + 1;
        }
        proof {
            assert(tiers@.skip(n as int) =~= Seq::<Tier>::empty());
        }
    }

    /// Runs one growth pass over the circles, in placement order.
    pub fn grow(&mut self)
        requires
            circles_wf(old(self).circles@),
            no_overlap(old(self).circles@),
        ensures
            final(self).region == old(self).region,
            final(self).palette@ == old(self).palette@,
            final(self).circles@ == grow_spec(old(self).circles@),
            same_layout(old(self).circles@, final(self).circles@),
            radii_grown(old(self).circles@, final(self).circles@),
            circles_wf(final(self).circles@),
            no_overlap(final(self).circles@),
    {
        relax_once(&mut self.circles);
    }
}

} // verus!
