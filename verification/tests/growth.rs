// Tests for the growth pass: exact sequential semantics, degenerate
// inputs, monotonicity, and convergence.

use circlepack::geom::{Circle, CircleSet, Region};
use circlepack::grow::relax_once;
use circlepack::model::Model;
use circlepack::pack::Tier;
use circlepack::rng::Rng;

fn set_of(circles: &[Circle]) -> CircleSet {
    let mut s = CircleSet::new();
    for c in circles {
        s.push(*c);
    }
    s
}

#[test]
fn grow_two_circles_exact() {
    // The first circle grows to touch the second (gap 200 - 20 = 180);
    // the second then reads the grown radius and has no room left.
    let mut s = set_of(&[
        Circle { x: -100, y: 0, r: 10, color: 1 },
        Circle { x: 100, y: 0, r: 10, color: 2 },
    ]);
    relax_once(&mut s);
    assert_eq!(s.len(), 2);
    assert_eq!(s.get(0), Circle { x: -100, y: 0, r: 190, color: 1 });
    assert_eq!(s.get(1), Circle { x: 100, y: 0, r: 10, color: 2 });
}

#[test]
fn grow_three_circles_exact() {
    // Sequential reads of the in-progress state: the third circle is
    // limited by the already-grown first circle (isqrt(100000) = 316;
    // 316 - 10 - 190 = 116), not by its pre-pass radius.
    let mut s = set_of(&[
        Circle { x: -100, y: 0, r: 10, color: 0 },
        Circle { x: 100, y: 0, r: 10, color: 0 },
        Circle { x: 0, y: 300, r: 10, color: 0 },
    ]);
    relax_once(&mut s);
    assert_eq!(s.get(0).r, 190);
    assert_eq!(s.get(1).r, 10);
    assert_eq!(s.get(2).r, 126);
}

#[test]
fn grow_empty_is_a_noop() {
    let mut s = CircleSet::new();
    relax_once(&mut s);
    assert_eq!(s.len(), 0);
}

#[test]
fn grow_single_circle_is_a_noop() {
    // One circle has no neighbour: its gap is undefined and the pass
    // leaves it untouched rather than failing.
    let mut s = set_of(&[Circle { x: 3, y: -4, r: 7, color: 9 }]);
    relax_once(&mut s);
    assert_eq!(s.len(), 1);
    assert_eq!(s.get(0), Circle { x: 3, y: -4, r: 7, color: 9 });
}

#[test]
fn grow_measures_circles_only_not_walls() {
    // The gap is measured to other circles, never to the region boundary:
    // a circle whose nearest neighbour stands beyond the wall grows past
    // the wall.  (Containment through growth therefore holds only when
    // each circle has a neighbour close enough to cap its growth.)
    let mut s = set_of(&[
        Circle { x: -40, y: 0, r: 1, color: 0 },
        Circle { x: 40, y: 0, r: 1, color: 0 },
    ]);
    relax_once(&mut s);
    assert_eq!(s.get(0).r, 79);
    assert_eq!(s.get(1).r, 1);
    // Inside a region of half-extent 50 the first circle now pokes out.
    assert!(s.get(0).x.abs() > 50 - s.get(0).r);
}

#[test]
fn grow_never_shrinks_and_never_overlaps() {
    let mut m = Model::new(Region { half_w: 90, half_h: 90 });
    let mut rng = Rng::new(555);
    let tiers = vec![
        Tier { radius: 18, target_count: 4, max_failures: 2000 },
        Tier { radius: 7, target_count: 25, max_failures: 2000 },
    ];
    m.reset(&mut rng, &tiers);
    let n = m.circles.len();
    let before: Vec<Circle> = (0..n).map(|i| m.circles.get(i)).collect();
    m.grow();
    assert_eq!(m.circles.len(), n);
    for i in 0..n {
        let c = m.circles.get(i);
        assert_eq!((c.x, c.y, c.color), (before[i].x, before[i].y, before[i].color));
        assert!(c.r >= before[i].r);
        for j in 0..i {
            let d = m.circles.get(j);
            let dx = c.x - d.x;
            let dy = c.y - d.y;
            let rr = c.r + d.r;
            assert!(dx * dx + dy * dy >= rr * rr);
        }
    }
}

#[test]
fn grow_twice_changes_nothing_more() {
    // Convergence in its strongest form: the pass is idempotent, so the
    // second pass's radius delta is zero for every circle — certainly no
    // more than the first pass's delta.
    let mut m = Model::new(Region { half_w: 70, half_h: 70 });
    let mut rng = Rng::new(9001);
    let tiers = vec![Tier { radius: 9, target_count: 15, max_failures: 3000 }];
    m.reset(&mut rng, &tiers);
    m.grow();
    let n = m.circles.len();
    let after_one: Vec<Circle> = (0..n).map(|i| m.circles.get(i)).collect();
    m.grow();
    for i in 0..n {
        assert_eq!(m.circles.get(i), after_one[i]);
    }
}
