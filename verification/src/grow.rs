//! The sequential growth pass.
//!
//! `relax_once` walks the circles in placement order and grows each one by
//! the minimum gap to every other circle, read from the current,
//! partially-updated state: circles at earlier indices have already grown in
//! this same pass, circles at later indices still carry their pre-pass
//! radius.  This sequential dependency is load-bearing — already-grown
//! circles constrain how much later circles may grow — and it is exactly
//! what `grow_spec` pins down.
//!
//! The laws proved here: growing never shrinks a radius and never creates an
//! overlap; a second pass right after a first changes nothing; and the pass
//! keeps every circle inside the region whenever each circle has a
//! neighbour close enough to cap its growth before the boundary.

use vstd::prelude::*;

verus! {

use crate::geom::COORD_LIMIT;
use crate::geom::Circle;
use crate::geom::CircleSet;
use crate::geom::Region;
use crate::geom::all_in_region;
use crate::geom::circle_in_region;
use crate::geom::circle_wf;
use crate::geom::circles_apart;
use crate::geom::circles_wf;
use crate::geom::dist2;
use crate::geom::lemma_apart_sym;
use crate::geom::lemma_diff_square_bounds;
use crate::geom::lemma_dist2_range;
use crate::geom::lemma_dist2_sym;
use crate::geom::lemma_square_nonneg;
use crate::geom::no_overlap;
use crate::geom::region_wf;
use crate::isqrt::isqrt64;
use crate::isqrt::isqrt_spec;
use crate::isqrt::lemma_isqrt_at_most;
use crate::isqrt::lemma_isqrt_at_least;
use crate::isqrt::lemma_isqrt_props;
use crate::isqrt::lemma_square_mono;

/// The signed clearance between the boundaries of two circles, measured
/// through the floored center distance: zero means touching (or closer than
/// one unit), positive means room to grow.
pub open spec fn circle_gap(a: Circle, b: Circle) -> int {
    isqrt_spec(dist2(a, b)) - a.r - b.r
}

/// The gap is symmetric in its two circles.
pub proof fn lemma_gap_sym(a: Circle, b: Circle)
    ensures
        circle_gap(a, b) == circle_gap(b, a),
{
    lemma_dist2_sym(a, b);
}

/// Two circles are apart exactly when their floored gap is non-negative.
pub proof fn lemma_apart_gap(a: Circle, b: Circle)
    requires
        a.r + b.r >= 0,
    ensures
        circles_apart(a, b) <==> circle_gap(a, b) >= 0,
{
    lemma_square_nonneg(a.x - b.x);
    lemma_square_nonneg(a.y - b.y);
    let d2 = dist2(a, b);
    let sum = a.r + b.r;
    if circles_apart(a, b) {
        lemma_isqrt_at_least(d2, sum);
    }
    if circle_gap(a, b) >= 0 {
        lemma_isqrt_props(d2);
        lemma_square_mono(sum, isqrt_spec(d2));
    }
}

/// Any two distinct circles of an overlap-free sequence are apart, in
/// either index order.
pub proof fn lemma_pair_apart(s: Seq<Circle>, i: int, j: int)
    requires
        no_overlap(s),
        0 <= i < s.len(),
        0 <= j < s.len(),
        i != j,
    ensures
        circles_apart(s[i], s[j]),
{
    if j < i {
        lemma_apart_sym(s[j], s[i]);
    }
}

/// Whether some index below `m` differs from `i`.
pub open spec fn has_other_below(i: int, m: int) -> bool {
    if i < m {
        m >= 2
    } else {
        m >= 1
    }
}

/// Minimum gap from circle `i` to the circles at indices below `m`,
/// excluding `i` itself; meaningful only when such an index exists.
pub open spec fn min_gap_upto(s: Seq<Circle>, i: int, m: int) -> int
    decreases m,
{
    if m <= 0 {
        0
    } else if m - 1 == i {
        min_gap_upto(s, i, m - 1)
    } else if has_other_below(i, m - 1) {
        vstd::math::min(min_gap_upto(s, i, m - 1), circle_gap(s[i], s[m - 1]))
    } else {
        circle_gap(s[i], s[m - 1])
    }
}

/// Minimum gap from circle `i` to every other circle of the sequence.
pub open spec fn min_gap(s: Seq<Circle>, i: int) -> int {
    min_gap_upto(s, i, s.len() as int)
}

/// The minimum gap is at most the gap to any particular other circle.
pub proof fn lemma_min_gap_upto_le(s: Seq<Circle>, i: int, m: int, j: int)
    requires
        0 <= i < s.len(),
        0 <= j < m <= s.len(),
        j != i,
    ensures
        min_gap_upto(s, i, m) <= circle_gap(s[i], s[j]),
    decreases m,
{
    if j < m - 1 {
        lemma_min_gap_upto_le(s, i, m - 1, j);
        if m - 1 != i {
            assert(has_other_below(i, m - 1));
        }
    }
}

/// A bound that holds of every individual gap holds of the minimum.
pub proof fn lemma_min_gap_upto_ge(s: Seq<Circle>, i: int, m: int, bound: int)
    requires
        0 <= i < s.len(),
        m <= s.len(),
        has_other_below(i, m),
        forall|j: int| 0 <= j < m && j != i ==> #[trigger] circle_gap(s[i], s[j]) >= bound,
    ensures
        min_gap_upto(s, i, m) >= bound,
    decreases m,
{
    if m - 1 == i {
        lemma_min_gap_upto_ge(s, i, m - 1, bound);
    } else if has_other_below(i, m - 1) {
        lemma_min_gap_upto_ge(s, i, m - 1, bound);
    }
}

/// The minimum gap is attained by some other circle.
pub proof fn lemma_min_gap_upto_witness(s: Seq<Circle>, i: int, m: int)
    requires
        0 <= i < s.len(),
        m <= s.len(),
        has_other_below(i, m),
    ensures
        exists|j: int|
            0 <= j < m && j != i && #[trigger] circle_gap(s[i], s[j]) == min_gap_upto(s, i, m),
    decreases m,
{
    if m - 1 == i {
        lemma_min_gap_upto_witness(s, i, m - 1);
        let jp = choose|j: int|
            0 <= j < m - 1 && j != i && #[trigger] circle_gap(s[i], s[j]) == min_gap_upto(
                s,
                i,
                m - 1,
            );
        assert(circle_gap(s[i], s[jp]) == min_gap_upto(s, i, m));
    } else if has_other_below(i, m - 1) {
        lemma_min_gap_upto_witness(s, i, m - 1);
        let jp = choose|j: int|
            0 <= j < m - 1 && j != i && #[trigger] circle_gap(s[i], s[j]) == min_gap_upto(
                s,
                i,
                m - 1,
            );
        if min_gap_upto(s, i, m - 1) <= circle_gap(s[i], s[m - 1]) {
            assert(circle_gap(s[i], s[jp]) == min_gap_upto(s, i, m));
        } else {
            assert(circle_gap(s[i], s[m - 1]) == min_gap_upto(s, i, m));
        }
    } else {
        assert(circle_gap(s[i], s[m - 1]) == min_gap_upto(s, i, m));
    }
}

/// Circle `i` after its growth step: same center and colour, radius grown
/// by the minimum gap to every other circle.
pub open spec fn grown_circle(s: Seq<Circle>, i: int) -> Circle {
    Circle { x: s[i].x, y: s[i].y, r: (s[i].r + min_gap(s, i)) as i64, color: s[i].color }
}

/// One growth step: circle `i` grows against the current state.
pub open spec fn grow_step(s: Seq<Circle>, i: int) -> Seq<Circle> {
    s.update(i, grown_circle(s, i))
}

/// The state after the first `k` circles have taken their growth step, in
/// placement order.
pub open spec fn grow_upto(s: Seq<Circle>, k: int) -> Seq<Circle>
    decreases k,
{
    if k <= 0 {
        s
    } else {
        grow_step(grow_upto(s, k - 1), k - 1)
    }
}

/// The whole growth pass: every circle grows once, in placement order; with
/// fewer than two circles there is no neighbour and the pass is a no-op.
pub open spec fn grow_spec(s: Seq<Circle>) -> Seq<Circle> {
    if s.len() <= 1 {
        s
    } else {
        grow_upto(s, s.len() as int)
    }
}

/// Same length, centers and colours: the growth pass only touches radii.
pub open spec fn same_layout(s: Seq<Circle>, u: Seq<Circle>) -> bool {
    &&& u.len() == s.len()
    &&& forall|i: int|
        0 <= i < s.len() ==> (#[trigger] u[i]).x == s[i].x && u[i].y == s[i].y && u[i].color
            == s[i].color
}

/// No radius has shrunk.
pub open spec fn radii_grown(s: Seq<Circle>, u: Seq<Circle>) -> bool {
    forall|i: int| 0 <= i < s.len() ==> (#[trigger] u[i]).r >= s[i].r
}

/// Circle `i` exactly touches some other circle.
pub open spec fn touches_some(u: Seq<Circle>, i: int) -> bool {
    exists|j: int| 0 <= j < u.len() && j != i && (#[trigger] circle_gap(u[i], u[j])) == 0
}

/// Invariants of the partial growth pass: the layout is unchanged, radii
/// only grow and stay in range, no overlap appears, circles not yet
/// processed are untouched, and every processed circle touches a
/// neighbour.
pub proof fn lemma_grow_upto_props(s: Seq<Circle>, k: int)
    requires
        circles_wf(s),
        no_overlap(s),
        s.len() >= 2,
        0 <= k <= s.len(),
    ensures
        same_layout(s, grow_upto(s, k)),
        radii_grown(s, grow_upto(s, k)),
        forall|i: int| k <= i < s.len() ==> (#[trigger] grow_upto(s, k)[i]).r == s[i].r,
        circles_wf(grow_upto(s, k)),
        no_overlap(grow_upto(s, k)),
        forall|i: int| 0 <= i < k ==> touches_some(grow_upto(s, k), i),
    decreases k,
{
    if k <= 0 {
    } else {
        lemma_grow_upto_props(s, k - 1);
        let u0 = grow_upto(s, k - 1);
        let i0 = k - 1;
        let len = s.len() as int;
        let m = min_gap(u0, i0);
        let u1 = grow_upto(s, k);
        assert(u1 == grow_step(u0, i0));
        assert forall|j: int| 0 <= j < len && j != i0 implies #[trigger] circle_gap(u0[i0], u0[j])
            >= 0 by {
            lemma_pair_apart(u0, i0, j);
            lemma_apart_gap(u0[i0], u0[j]);
        }
        lemma_min_gap_upto_ge(u0, i0, len, 0);
        let j0: int = if i0 == 0 {
            1
        } else {
            0
        };
        lemma_min_gap_upto_le(u0, i0, len, j0);
        lemma_dist2_range(u0[i0], u0[j0]);
        lemma_isqrt_at_most(dist2(u0[i0], u0[j0]), 2_828_427);
        let g = grown_circle(u0, i0);
        assert(u0[i0].r + m <= 2_828_427 - u0[j0].r);
        assert(circle_wf(g));
        assert forall|a: int, b: int| 0 <= a < b < len implies circles_apart(
            #[trigger] u1[a],
            #[trigger] u1[b],
        ) by {
            if a != i0 && b != i0 {
                lemma_pair_apart(u0, a, b);
            } else {
                let o = if a == i0 {
                    b
                } else {
                    a
                };
                lemma_min_gap_upto_le(u0, i0, len, o);
                assert(dist2(u1[i0], u1[o]) == dist2(u0[i0], u0[o]));
                assert(circle_gap(u1[i0], u1[o]) == circle_gap(u0[i0], u0[o]) - m);
                lemma_apart_gap(u1[i0], u1[o]);
                lemma_apart_sym(u1[i0], u1[o]);
            }
        }
        lemma_min_gap_upto_witness(u0, i0, len);
        let jw = choose|j: int|
            0 <= j < len && j != i0 && #[trigger] circle_gap(u0[i0], u0[j]) == m;
        assert(dist2(u1[i0], u1[jw]) == dist2(u0[i0], u0[jw]));
        assert(circle_gap(u1[i0], u1[jw]) == 0);
        assert(touches_some(u1, i0));
        assert forall|i: int| 0 <= i < i0 implies touches_some(u1, i) by {
            assert(touches_some(u0, i));
            let j = choose|j: int|
                0 <= j < len && j != i && (#[trigger] circle_gap(u0[i], u0[j])) == 0;
            if j != i0 {
                assert(u1[i] == u0[i]);
                assert(u1[j] == u0[j]);
                assert(circle_gap(u1[i], u1[j]) == 0);
            } else {
                lemma_min_gap_upto_le(u0, i0, len, i);
                lemma_gap_sym(u0[i0], u0[i]);
                assert(m == 0);
                assert(u1[i0] == u0[i0]);
                assert(u1[i] == u0[i]);
                assert(circle_gap(u1[i], u1[i0]) == 0);
            }
        }
    }
}

/// Growth monotonicity: one growth pass never shrinks a radius, never moves
/// or recolours a circle, and never lets the minimum pairwise clearance
/// drop below zero — the no-overlap invariant survives the pass.
pub proof fn lemma_relax_preserves(s: Seq<Circle>)
    requires
        circles_wf(s),
        no_overlap(s),
    ensures
        same_layout(s, grow_spec(s)),
        radii_grown(s, grow_spec(s)),
        circles_wf(grow_spec(s)),
        no_overlap(grow_spec(s)),
{
    if s.len() <= 1 {
    } else {
        lemma_grow_upto_props(s, s.len() as int);
    }
}

/// After a full pass, no circle moves in a further pass: each already
/// touches a neighbour, so its minimum gap is zero.
proof fn lemma_grow_upto_fixed(t: Seq<Circle>, k: int)
    requires
        circles_wf(t),
        no_overlap(t),
        t.len() >= 2,
        0 <= k <= t.len(),
        forall|i: int| 0 <= i < t.len() ==> touches_some(t, i),
    ensures
        grow_upto(t, k) == t,
    decreases k,
{
    if k > 0 {
        lemma_grow_upto_fixed(t, k - 1);
        let i0 = k - 1;
        let len = t.len() as int;
        assert forall|j: int| 0 <= j < len && j != i0 implies #[trigger] circle_gap(t[i0], t[j])
            >= 0 by {
            lemma_pair_apart(t, i0, j);
            lemma_apart_gap(t[i0], t[j]);
        }
        lemma_min_gap_upto_ge(t, i0, len, 0);
        assert(touches_some(t, i0));
        let j = choose|j: int| 0 <= j < len && j != i0 && (#[trigger] circle_gap(t[i0], t[j])) == 0;
        lemma_min_gap_upto_le(t, i0, len, j);
        assert(min_gap(t, i0) == 0);
        assert(grown_circle(t, i0) == t[i0]);
        assert(t.update(i0, t[i0]) =~= t);
    }
}

/// Growth convergence, strongest form: running the pass twice in a row
/// gives exactly the state of the first pass — the pass is idempotent.
pub proof fn lemma_relax_idempotent(s: Seq<Circle>)
    requires
        circles_wf(s),
        no_overlap(s),
    ensures
        grow_spec(grow_spec(s)) == grow_spec(s),
{
    if s.len() > 1 {
        lemma_grow_upto_props(s, s.len() as int);
        let t = grow_spec(s);
        lemma_grow_upto_fixed(t, t.len() as int);
    }
}

/// Growth convergence, stated over radius deltas: the second pass tightens
/// every circle by no more than the first pass did.
pub proof fn lemma_relax_diminishing(s: Seq<Circle>)
    requires
        circles_wf(s),
        no_overlap(s),
    ensures
        forall|i: int|
            0 <= i < s.len() ==> (#[trigger] grow_spec(grow_spec(s))[i]).r - grow_spec(s)[i].r
                <= grow_spec(s)[i].r - s[i].r,
{
    lemma_relax_idempotent(s);
    lemma_relax_preserves(s);
}

/// Growing circle `i` can never push it past the boundary while circle `j`
/// stands close enough: the distance to `j` minus `j`'s radius, the largest
/// radius `i` could ever reach in a pass, still fits in the region around
/// `i`'s center.
pub open spec fn growth_capped_by(reg: Region, s: Seq<Circle>, i: int, j: int) -> bool {
    let cap = isqrt_spec(dist2(s[i], s[j])) - s[j].r;
    &&& -(reg.half_w - cap) <= s[i].x <= reg.half_w - cap
    &&& -(reg.half_h - cap) <= s[i].y <= reg.half_h - cap
}

/// Some other circle caps the growth of circle `i` before the boundary.
pub open spec fn growth_confined(reg: Region, s: Seq<Circle>, i: int) -> bool {
    exists|j: int| 0 <= j < s.len() && j != i && #[trigger] growth_capped_by(reg, s, i, j)
}

proof fn lemma_grow_upto_in_region(reg: Region, s: Seq<Circle>, k: int)
    requires
        region_wf(reg),
        circles_wf(s),
        no_overlap(s),
        all_in_region(reg, s),
        s.len() >= 2,
        forall|i: int| 0 <= i < s.len() ==> growth_confined(reg, s, i),
        0 <= k <= s.len(),
    ensures
        all_in_region(reg, grow_upto(s, k)),
    decreases k,
{
    if k > 0 {
        lemma_grow_upto_in_region(reg, s, k - 1);
        lemma_grow_upto_props(s, k - 1);
        lemma_grow_upto_props(s, k);
        let u0 = grow_upto(s, k - 1);
        let i0 = k - 1;
        let len = s.len() as int;
        let m = min_gap(u0, i0);
        let u1 = grow_upto(s, k);
        assert(u1 == grow_step(u0, i0));
        assert forall|j2: int| 0 <= j2 < len && j2 != i0 implies #[trigger] circle_gap(
            u0[i0],
            u0[j2],
        ) >= 0 by {
            lemma_pair_apart(u0, i0, j2);
            lemma_apart_gap(u0[i0], u0[j2]);
        }
        lemma_min_gap_upto_ge(u0, i0, len, 0);
        assert(growth_confined(reg, s, i0));
        let j = choose|j: int| 0 <= j < len && j != i0 && #[trigger] growth_capped_by(reg, s, i0, j);
        lemma_min_gap_upto_le(u0, i0, len, j);
        lemma_dist2_range(u0[i0], u0[j]);
        lemma_isqrt_at_most(dist2(u0[i0], u0[j]), 2_828_427);
        assert(dist2(u0[i0], u0[j]) == dist2(s[i0], s[j]));
        let cap = isqrt_spec(dist2(s[i0], s[j])) - s[j].r;
        assert(u1[i0].r == u0[i0].r + m);
        assert(u1[i0].r <= cap);
        assert forall|i: int| 0 <= i < len implies circle_in_region(reg, #[trigger] u1[i]) by {
            if i != i0 {
                assert(u1[i] == u0[i]);
            }
        }
    }
}

/// Containment through growth: whenever every circle has a neighbour close
/// enough to cap its growth before the boundary, the pass keeps every
/// circle inside the region.  (Growth measures gaps to circles only, so an
/// isolated circle far from its nearest neighbour may grow past the
/// boundary; this premise rules exactly that out.)
pub proof fn lemma_relax_stays_in_region(reg: Region, s: Seq<Circle>)
    requires
        region_wf(reg),
        circles_wf(s),
        no_overlap(s),
        all_in_region(reg, s),
        s.len() >= 2 ==> forall|i: int| 0 <= i < s.len() ==> growth_confined(reg, s, i),
    ensures
        all_in_region(reg, grow_spec(s)),
{
    if s.len() >= 2 {
        lemma_grow_upto_in_region(reg, s, s.len() as int);
    }
}

/// One growth pass over the whole set, in placement order, against the
/// current, partially-updated state.
pub fn relax_once(set: &mut CircleSet)
    requires
        circles_wf(old(set)@),
        no_overlap(old(set)@),
    ensures
        final(set)@ == grow_spec(old(set)@),
        same_layout(old(set)@, final(set)@),
        radii_grown(old(set)@, final(set)@),
        circles_wf(final(set)@),
        no_overlap(final(set)@),
{
    let ghost s0 = set@;
    let n = set.len();
    if n <= 1 {
        return ;
    }
    let mut i: usize = 0;
    while i < n
        invariant
            circles_wf(s0),
            no_overlap(s0),
            n == s0.len(),
            2 <= n,
            0 <= i <= n,
            set@ == grow_upto(s0, i as int),
        decreases n - i,
    {
        proof {
            lemma_grow_upto_props(s0, i as int);
        }
        let ghost u = set@;
        let ci = set.get(i);
        let mut best: i64 = 0;
        let mut started: bool = false;
        let mut j: usize = 0;
        while j < n
            invariant
                circles_wf(u),
                n == u.len(),
                i < n,
                set@ == u,
                ci == u[i as int],
                0 <= j <= n,
                started == has_other_below(i as int, j as int),
                started ==> best == min_gap_upto(u, i as int, j as int),
            decreases n - j,
        {
            if j != i {
                let cj = set.get(j);
                proof {
                    lemma_diff_square_bounds(ci.x as int, cj.x as int, COORD_LIMIT as int);
                    lemma_diff_square_bounds(ci.y as int, cj.y as int, COORD_LIMIT as int);
                }
                let dx = ci.x - cj.x;
                let dy = ci.y - cj.y;
                let d2 = dx * dx + dy * dy;
                let root = isqrt64(d2);
                let g = root - ci.r - cj.r;
                assert(g == circle_gap(u[i as int], u[j as int]));
                if !started || g < best {
                    best = g;
                    started = true;
                }
            }
            j = j + 1;
        }
        proof {
            assert(best == min_gap(u, i as int));
            assert forall|j2: int| 0 <= j2 < u.len() && j2 != i as int implies #[trigger] circle_gap(
                u[i as int],
                u[j2],
            ) >= 0 by {
                lemma_pair_apart(u, i as int, j2);
                lemma_apart_gap(u[i as int], u[j2]);
            }
            lemma_min_gap_upto_ge(u, i as int, n as int, 0);
            let j0: int = if i == 0 {
                1
            } else {
                0
            };
            lemma_min_gap_upto_le(u, i as int, n as int, j0);
            lemma_dist2_range(u[i as int], u[j0]);
            lemma_isqrt_at_most(dist2(u[i as int], u[j0]), 2_828_427);
        }
        let grown = Circle { x: ci.x, y: ci.y, r: ci.r + best, color: ci.color };
        set.set(i, grown);
        proof {
            assert(grown == grown_circle(u, i as int));
            assert(set@ == grow_upto(s0, i as int + 1));
        }
        i = i + 1;
    }
    proof {
        lemma_grow_upto_props(s0, n as int);
    }
}

} // verus!
