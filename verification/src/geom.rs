//! Circles, regions, and the packing-space queries.
//!
//! All geometry is integral: a circle's center coordinates and radius are
//! `i64` values, and circles are compared through squared center distances,
//! so every predicate here is exact.

use vstd::prelude::*;

verus! {

use vstd::pervasive::VecAdditionalExecFns;

/// Largest half-extent a region may have; every placed circle's center
/// coordinate stays within this bound, which keeps all squared distances
/// representable in `i64`.
pub const COORD_LIMIT: i64 = 1_000_000;

/// Upper bound on any radius the engine produces.  A grown radius never
/// exceeds the distance between two centers, and that distance is at most
/// `isqrt(DIST2_LIMIT) < RADIUS_LIMIT`.
pub const RADIUS_LIMIT: i64 = 3_000_000;

/// Largest squared center distance between two circles whose coordinates
/// respect `COORD_LIMIT`: `(2 * COORD_LIMIT)^2 + (2 * COORD_LIMIT)^2`.
pub const DIST2_LIMIT: i64 = 8_000_000_000_000;

/// A placed circle: center, radius, and the colour assigned at placement.
#[derive(Clone, Copy, PartialEq, Eq, Structural, Debug)]
pub struct Circle {
    pub x: i64,
    pub y: i64,
    pub r: i64,
    pub color: u32,
}

/// An axis-aligned rectangular region described by its half-extents around
/// the origin; supplied once at construction and never mutated.
#[derive(Clone, Copy, PartialEq, Eq, Structural, Debug)]
pub struct Region {
    pub half_w: i64,
    pub half_h: i64,
}

/// A region is well formed when both half-extents are positive and small
/// enough that all distance arithmetic stays in range.
pub open spec fn region_wf(reg: Region) -> bool {
    &&& 1 <= reg.half_w <= COORD_LIMIT
    &&& 1 <= reg.half_h <= COORD_LIMIT
}

/// Squared distance between two circle centers.
pub open spec fn dist2(a: Circle, b: Circle) -> int {
    (a.x - b.x) * (a.x - b.x) + (a.y - b.y) * (a.y - b.y)
}

/// Two circles are apart when their boundaries do not cross: the center
/// distance is at least the sum of the radii (touching is allowed).
pub open spec fn circles_apart(a: Circle, b: Circle) -> bool {
    dist2(a, b) >= (a.r + b.r) * (a.r + b.r)
}

/// The circle lies entirely within the region.
pub open spec fn circle_in_region(reg: Region, c: Circle) -> bool {
    &&& -(reg.half_w - c.r) <= c.x <= reg.half_w - c.r
    &&& -(reg.half_h - c.r) <= c.y <= reg.half_h - c.r
}

/// Bounds on a single circle that keep all gap arithmetic within `i64`.
pub open spec fn circle_wf(c: Circle) -> bool {
    &&& -COORD_LIMIT <= c.x <= COORD_LIMIT
    &&& -COORD_LIMIT <= c.y <= COORD_LIMIT
    &&& 1 <= c.r <= RADIUS_LIMIT
}

/// Every circle of the sequence is well formed.
pub open spec fn circles_wf(s: Seq<Circle>) -> bool {
    forall|i: int| 0 <= i < s.len() ==> circle_wf(#[trigger] s[i])
}

/// The no-overlap invariant: any two distinct circles are apart.
pub open spec fn no_overlap(s: Seq<Circle>) -> bool {
    forall|i: int, j: int|
        0 <= i < j < s.len() ==> circles_apart(#[trigger] s[i], #[trigger] s[j])
}

/// The containment invariant: every circle lies within the region.
pub open spec fn all_in_region(reg: Region, s: Seq<Circle>) -> bool {
    forall|i: int| 0 <= i < s.len() ==> circle_in_region(reg, #[trigger] s[i])
}

/// A candidate fits when it lies within the region and is apart from every
/// circle already placed.
pub open spec fn fits_spec(reg: Region, s: Seq<Circle>, cand: Circle) -> bool {
    &&& circle_in_region(reg, cand)
    &&& forall|j: int| 0 <= j < s.len() ==> circles_apart(cand, #[trigger] s[j])
}

/// An ordered sequence of placed circles; insertion order is placement order
/// across all tiers, and it fixes the growth-pass sequencing.
#[derive(Debug)]
pub struct CircleSet {
    items: Vec<Circle>,
}

impl View for CircleSet {
    type V = Seq<Circle>;

    closed spec fn view(&self) -> Seq<Circle> {
        self.items@
    }
}

impl CircleSet {
    /// The empty set of circles.
    pub fn new() -> (s: CircleSet)
        ensures
            s@ == Seq::<Circle>::empty(),
    {
        let s = CircleSet { items: Vec::new() };
        proof {
            assert(s@ =~= Seq::<Circle>::empty());
        }
        s
    }

    /// Number of circles placed so far.
    pub fn len(&self) -> (n: usize)
        ensures
            n == self@.len(),
    {
        self.items.len()
    }

    /// The circle at index `i` in placement order.
    pub fn get(&self, i: usize) -> (c: Circle)
        requires
            i < self@.len(),
        ensures
            c == self@[i as int],
    {
        self.items[i]
    }

    /// Appends a circle; placement order is preserved.
    pub fn push(&mut self, c: Circle)
        ensures
            final(self)@ == old(self)@.push(c),
    {
        self.items.push(c);
    }

    /// Replaces the circle at index `i`.
    pub fn set(&mut self, i: usize, c: Circle)
        requires
            i < old(self)@.len(),
        ensures
            final(self)@ == old(self)@.update(i as int, c),
    {
        self.items.set(i, c);
    }

    /// Discards all circles.
    pub fn clear(&mut self)
        ensures
            final(self)@ == Seq::<Circle>::empty(),
    {
        self.items.clear();
        proof {
            assert(self.items@ =~= Seq::<Circle>::empty());
        }
    }
}

/// Answers whether a candidate circle can be placed: it must not cross the
/// region boundary nor overlap any circle already in `existing`.
pub fn fits(reg: &Region, existing: &CircleSet, candidate: Circle) -> (ok: bool)
    requires
        region_wf(*reg),
        circles_wf(existing@),
        circle_wf(candidate),
    ensures
        ok == fits_spec(*reg, existing@, candidate),
{
    if candidate.x < -(reg.half_w - candidate.r) || candidate.x > reg.half_w - candidate.r
        || candidate.y < -(reg.half_h - candidate.r) || candidate.y > reg.half_h - candidate.r {
        return false;
    }
    let n = existing.items.len();
    let mut j: usize = 0;
    while j < n
        invariant
            n == existing@.len(),
            0 <= j <= n,
            region_wf(*reg),
            circles_wf(existing@),
            circle_wf(candidate),
            forall|k: int| 0 <= k < j ==> circles_apart(candidate, #[trigger] existing@[k]),
        decreases n - j,
    {
        let c = existing.items[j];
        let dx = candidate.x - c.x;
        let dy = candidate.y - c.y;
        let rr = candidate.r + c.r;
        proof {
            lemma_diff_square_bounds(candidate.x as int, c.x as int, COORD_LIMIT as int);
            lemma_diff_square_bounds(candidate.y as int, c.y as int, COORD_LIMIT as int);
            lemma_square_bounds(rr as int, 2 * RADIUS_LIMIT as int);
        }
        if dx * dx + dy * dy < rr * rr {
            return false;
        }
        j = j + 1;
    }
    true
}

/// The square of a difference of values bounded by `c` is non-negative and
/// at most `4 * c^2`.
pub proof fn lemma_diff_square_bounds(p: int, q: int, c: int)
    by (nonlinear_arith)
    requires
        -c <= p <= c,
        -c <= q <= c,
        0 <= c,
    ensures
        0 <= (p - q) * (p - q) <= 4 * c * c,
{
}

/// The square of a value bounded in magnitude by `c` is non-negative and at
/// most `c^2`.
pub proof fn lemma_square_bounds(p: int, c: int)
    by (nonlinear_arith)
    requires
        -c <= p <= c,
        0 <= c,
    ensures
        0 <= p * p <= c * c,
{
}

/// A square is never negative.
pub proof fn lemma_square_nonneg(p: int)
    by (nonlinear_arith)
    ensures
        0 <= p * p,
{
}

/// The squared distance between two well-formed circles is within
/// `DIST2_LIMIT`, so all distance arithmetic fits in `i64`.
pub proof fn lemma_dist2_range(a: Circle, b: Circle)
    requires
        circle_wf(a),
        circle_wf(b),
    ensures
        0 <= dist2(a, b) <= DIST2_LIMIT as int,
{
    lemma_diff_square_bounds(a.x as int, b.x as int, COORD_LIMIT as int);
    lemma_diff_square_bounds(a.y as int, b.y as int, COORD_LIMIT as int);
}

/// Squared distance does not depend on the order of the two circles.
pub proof fn lemma_dist2_sym(a: Circle, b: Circle)
    ensures
        dist2(a, b) == dist2(b, a),
{
    lemma_diff_square_sym(a.x as int, b.x as int);
    lemma_diff_square_sym(a.y as int, b.y as int);
}

proof fn lemma_diff_square_sym(p: int, q: int)
    by (nonlinear_arith)
    ensures
        (p - q) * (p - q) == (q - p) * (q - p),
{
}

/// Being apart is symmetric.
pub proof fn lemma_apart_sym(a: Circle, b: Circle)
    ensures
        circles_apart(a, b) == circles_apart(b, a),
{
    lemma_dist2_sym(a, b);
}

} // verus!
