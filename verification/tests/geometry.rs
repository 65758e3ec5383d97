use breakout::geometry::{collide, reflect, Rect, Side};

fn rect(x: i64, y: i64, w: i64, h: i64) -> Rect {
    Rect { x, y, w, h }
}

#[test]
fn separated_rectangles_do_not_collide() {
    let a = rect(0, 0, 10, 10);
    assert_eq!(collide(&a, &rect(30, 0, 10, 10)), None);
    assert_eq!(collide(&a, &rect(0, -25, 10, 10)), None);
    assert_eq!(collide(&a, &rect(100, 100, 40, 40)), None);
}

#[test]
fn touching_rectangles_do_not_collide() {
    // Exactly touching edges have zero penetration: no collision.
    let a = rect(0, 0, 10, 10);
    assert_eq!(collide(&a, &rect(10, 0, 10, 10)), None);
    assert_eq!(collide(&a, &rect(0, 10, 10, 10)), None);
}

#[test]
fn struck_side_follows_smaller_penetration() {
    let a = rect(0, 0, 10, 10);
    // Overlap is shallow on x, deep on y: an x-axis side is reported.
    assert_eq!(collide(&a, &rect(8, 0, 10, 10)), Some(Side::Left));
    assert_eq!(collide(&a, &rect(-8, 0, 10, 10)), Some(Side::Right));
    // Overlap is shallow on y, deep on x: a y-axis side is reported.
    assert_eq!(collide(&a, &rect(0, -8, 10, 10)), Some(Side::Top));
    assert_eq!(collide(&a, &rect(0, 8, 10, 10)), Some(Side::Bottom));
}

#[test]
fn corner_hit_with_equal_penetration_is_deterministic() {
    // Equal penetration on both axes: the documented convention reports
    // the x-axis side, every time.
    let a = rect(0, 0, 10, 10);
    let b = rect(8, 8, 10, 10);
    let first = collide(&a, &b);
    assert_eq!(first, Some(Side::Left));
    for _ in 0..10 {
        assert_eq!(collide(&a, &b), first);
    }
    let c = rect(-8, -8, 10, 10);
    assert_eq!(collide(&a, &c), Some(Side::Right));
}

#[test]
fn reflection_obeys_into_facing_rule() {
    // The component flips only when the ball moves into the struck side.
    assert_eq!(reflect(Side::Left, 5, 2), (-5, 2));
    assert_eq!(reflect(Side::Left, -5, 2), (-5, 2));
    assert_eq!(reflect(Side::Right, -5, 2), (5, 2));
    assert_eq!(reflect(Side::Right, 5, 2), (5, 2));
    assert_eq!(reflect(Side::Top, 3, -7), (3, 7));
    assert_eq!(reflect(Side::Top, 3, 7), (3, 7));
    assert_eq!(reflect(Side::Bottom, 3, 7), (3, -7));
    assert_eq!(reflect(Side::Bottom, 3, -7), (3, -7));
}

#[test]
fn reflection_preserves_kinetic_energy() {
    let sides = [Side::Left, Side::Right, Side::Top, Side::Bottom];
    let velocities = [(3i64, 4i64), (-3, 4), (3, -4), (-3, -4), (0, 5), (5, 0)];
    for side in sides {
        for (vx, vy) in velocities {
            let (nvx, nvy) = reflect(side, vx, vy);
            assert_eq!(nvx * nvx + nvy * nvy, vx * vx + vy * vy);
        }
    }
}
