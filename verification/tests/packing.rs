// Tests for the packing space, the tiered packer, the generator and the
// palette: concrete scenarios, edge cases, and determinism.

use circlepack::geom::{Circle, CircleSet, Region};
use circlepack::model::Model;
use circlepack::pack::Tier;
use circlepack::palette::Palette;
use circlepack::rng::Rng;
use circlepack::geom::fits;
use circlepack::isqrt::isqrt64;

fn dist2(a: &Circle, b: &Circle) -> i64 {
    let dx = a.x - b.x;
    let dy = a.y - b.y;
    dx * dx + dy * dy
}

#[test]
fn isqrt_exact_values() {
    assert_eq!(isqrt64(0), 0);
    assert_eq!(isqrt64(1), 1);
    assert_eq!(isqrt64(3), 1);
    assert_eq!(isqrt64(4), 2);
    assert_eq!(isqrt64(8), 2);
    assert_eq!(isqrt64(9), 3);
    assert_eq!(isqrt64(40000), 200);
    assert_eq!(isqrt64(100000), 316);
    assert_eq!(isqrt64(8_000_000_000_000), 2_828_427);
}

#[test]
fn rng_stays_in_range_and_repeats() {
    let mut a = Rng::new(7);
    let mut b = Rng::new(7);
    for _ in 0..1000 {
        let va = a.next_in_range(-40, 40);
        let vb = b.next_in_range(-40, 40);
        assert!(-40 <= va && va <= 40);
        assert_eq!(va, vb);
    }
}

#[test]
fn palette_has_tango_colors() {
    let p = Palette::new();
    assert_eq!(p.colors.len(), 21);
    assert_eq!(p.colors[0], 0xFCE84F);
    assert_eq!(p.colors[3], 0x8BE234);
    assert_eq!(p.colors[20], 0xA40000);
}

#[test]
fn palette_random_is_a_member_and_repeats() {
    let p = Palette::new();
    let mut a = Rng::new(99);
    let mut b = Rng::new(99);
    for _ in 0..50 {
        let ca = p.random(&mut a);
        let cb = p.random(&mut b);
        assert_eq!(ca, cb);
        assert!(p.colors.contains(&ca));
    }
}

#[test]
fn fits_checks_region_boundary() {
    let reg = Region { half_w: 50, half_h: 50 };
    let empty = CircleSet::new();
    let inside = Circle { x: 40, y: 0, r: 10, color: 0 };
    let outside = Circle { x: 41, y: 0, r: 10, color: 0 };
    assert!(fits(&reg, &empty, inside));
    assert!(!fits(&reg, &empty, outside));
}

#[test]
fn fits_allows_touching_but_not_crossing() {
    let reg = Region { half_w: 50, half_h: 50 };
    let mut set = CircleSet::new();
    set.push(Circle { x: 0, y: 0, r: 10, color: 0 });
    let touching = Circle { x: 20, y: 0, r: 10, color: 0 };
    let crossing = Circle { x: 19, y: 0, r: 10, color: 0 };
    assert!(fits(&reg, &set, touching));
    assert!(!fits(&reg, &set, crossing));
}

#[test]
fn pack_places_four_comfortable_circles() {
    // Region half-extents (50, 50), one tier (radius 10, target 4, budget
    // 1000): the region comfortably fits four circles of radius 10, so the
    // full target is reached; all pairwise center distances are at least
    // 20 and all centers lie within [-40, 40] x [-40, 40].
    let mut m = Model::new(Region { half_w: 50, half_h: 50 });
    let mut rng = Rng::new(12345);
    let placed = m.pack_circles(&mut rng, Tier { radius: 10, target_count: 4, max_failures: 1000 });
    assert_eq!(placed, 4);
    assert_eq!(m.circles.len(), 4);
    for i in 0..4 {
        let c = m.circles.get(i);
        assert_eq!(c.r, 10);
        assert!(-40 <= c.x && c.x <= 40);
        assert!(-40 <= c.y && c.y <= 40);
        for j in 0..i {
            let d = m.circles.get(j);
            assert!(dist2(&c, &d) >= 400);
        }
    }
    // Any finite arrangement below saturation has slack: one growth pass
    // must strictly increase at least one radius.
    let before: Vec<i64> = (0..4).map(|i| m.circles.get(i).r).collect();
    m.grow();
    let mut grew = false;
    for i in 0..4 {
        let c = m.circles.get(i);
        assert!(c.r >= before[i]);
        if c.r > before[i] {
            grew = true;
        }
    }
    assert!(grew);
}

#[test]
fn pack_infeasible_tier_places_nothing() {
    // Radius exceeds the region: zero circles, no panic.
    let mut m = Model::new(Region { half_w: 5, half_h: 5 });
    let mut rng = Rng::new(1);
    let placed = m.pack_circles(&mut rng, Tier { radius: 10, target_count: 1, max_failures: 50 });
    assert_eq!(placed, 0);
    assert_eq!(m.circles.len(), 0);
}

#[test]
fn pack_zero_target_is_a_noop() {
    let mut m = Model::new(Region { half_w: 50, half_h: 50 });
    let mut rng = Rng::new(5);
    let placed = m.pack_circles(&mut rng, Tier { radius: 10, target_count: 0, max_failures: 100 });
    assert_eq!(placed, 0);
    assert_eq!(m.circles.len(), 0);
}

#[test]
fn pack_saturates_point_sized_sample_space() {
    // Radius equal to both half-extents leaves exactly one feasible
    // center, the origin: the first candidate is placed there and every
    // later candidate collides until the failure budget runs out.
    let mut m = Model::new(Region { half_w: 10, half_h: 10 });
    let mut rng = Rng::new(42);
    let placed = m.pack_circles(&mut rng, Tier { radius: 10, target_count: 5, max_failures: 20 });
    assert_eq!(placed, 1);
    assert_eq!(m.circles.len(), 1);
    let c = m.circles.get(0);
    assert_eq!((c.x, c.y, c.r), (0, 0, 10));
}

#[test]
fn pack_keeps_circles_inside_region() {
    let mut m = Model::new(Region { half_w: 100, half_h: 60 });
    let mut rng = Rng::new(2024);
    let tiers = vec![
        Tier { radius: 20, target_count: 3, max_failures: 2000 },
        Tier { radius: 5, target_count: 40, max_failures: 2000 },
    ];
    m.reset(&mut rng, &tiers);
    let n = m.circles.len();
    assert!(n > 0);
    for i in 0..n {
        let c = m.circles.get(i);
        assert!(c.x.abs() <= 100 - c.r);
        assert!(c.y.abs() <= 60 - c.r);
        for j in 0..i {
            let d = m.circles.get(j);
            let rr = c.r + d.r;
            assert!(dist2(&c, &d) >= rr * rr);
        }
    }
}

#[test]
fn pack_is_deterministic_for_equal_seeds() {
    let tiers = vec![
        Tier { radius: 15, target_count: 5, max_failures: 1000 },
        Tier { radius: 6, target_count: 30, max_failures: 1000 },
    ];
    let mut m1 = Model::new(Region { half_w: 80, half_h: 80 });
    let mut m2 = Model::new(Region { half_w: 80, half_h: 80 });
    let mut r1 = Rng::new(777);
    let mut r2 = Rng::new(777);
    m1.reset(&mut r1, &tiers);
    m2.reset(&mut r2, &tiers);
    assert_eq!(m1.circles.len(), m2.circles.len());
    for i in 0..m1.circles.len() {
        assert_eq!(m1.circles.get(i), m2.circles.get(i));
    }
}

#[test]
fn pack_tiers_fill_in_order() {
    // Earlier (larger) tiers occupy earlier positions in the circle list.
    let mut m = Model::new(Region { half_w: 100, half_h: 100 });
    let mut rng = Rng::new(31);
    let big = m.pack_circles(&mut rng, Tier { radius: 30, target_count: 2, max_failures: 3000 });
    let small = m.pack_circles(&mut rng, Tier { radius: 8, target_count: 10, max_failures: 3000 });
    assert_eq!(m.circles.len(), big + small);
    for i in 0..big {
        assert_eq!(m.circles.get(i).r, 30);
    }
    for i in big..big + small {
        assert_eq!(m.circles.get(i).r, 8);
    }
}

#[test]
fn placed_colors_come_from_the_palette() {
    let mut m = Model::new(Region { half_w: 60, half_h: 60 });
    let mut rng = Rng::new(8);
    let placed = m.pack_circles(&mut rng, Tier { radius: 9, target_count: 12, max_failures: 2000 });
    assert!(placed > 0);
    for i in 0..m.circles.len() {
        assert!(m.palette.colors.contains(&m.circles.get(i).color));
    }
}
