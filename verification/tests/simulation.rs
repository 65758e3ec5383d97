use breakout::geometry::Rect;
use breakout::systems::{ball_collision_system, ball_movement_system, paddle_movement_system, tick};
use breakout::world::{setup, Collider, ColliderKind, World};

fn scorable_count(w: &World) -> usize {
    w.colliders.iter().filter(|c| matches!(c.kind, ColliderKind::Scorable)).count()
}

fn paddle_x(w: &World) -> i64 {
    w.colliders.last().unwrap().rect.x
}

#[test]
fn setup_builds_the_documented_scene() {
    let w = setup(10);
    assert_eq!(w.score, 0);
    assert_eq!(w.ball, Rect { x: 0, y: -50, w: 30, h: 30 });
    assert_eq!((w.vx, w.vy), (10, -10));
    assert_eq!(w.paddle_speed, 10);
    assert_eq!(w.colliders.len(), 25);
    assert_eq!(scorable_count(&w), 20);
    // Walls of the 900x600 playfield, 10 units thick.
    assert_eq!(w.colliders[0], Collider {
        kind: ColliderKind::Solid,
        rect: Rect { x: -450, y: 0, w: 10, h: 610 },
    });
    assert_eq!(w.colliders[1].rect.x, 450);
    assert_eq!(w.colliders[2].rect, Rect { x: 0, y: -300, w: 910, h: 10 });
    assert_eq!(w.colliders[3].rect, Rect { x: 0, y: 300, w: 910, h: 10 });
    // First and last brick of the 4x5 row-major grid.
    assert_eq!(w.colliders[4].rect, Rect { x: -340, y: 100, w: 150, h: 30 });
    assert_eq!(w.colliders[23].rect, Rect { x: 340, y: 250, w: 150, h: 30 });
    // The paddle is the last collider.
    assert_eq!(w.colliders[24], Collider {
        kind: ColliderKind::Paddle,
        rect: Rect { x: 0, y: -215, w: 120, h: 30 },
    });
}

#[test]
fn paddle_moves_by_speed_and_direction() {
    let mut w = setup(10);
    paddle_movement_system(&mut w, false, true);
    assert_eq!(paddle_x(&w), 10);
    paddle_movement_system(&mut w, true, false);
    assert_eq!(paddle_x(&w), 0);
    // Both keys held cancel out; neither key means no motion.
    paddle_movement_system(&mut w, true, true);
    assert_eq!(paddle_x(&w), 0);
    paddle_movement_system(&mut w, false, false);
    assert_eq!(paddle_x(&w), 0);
}

#[test]
fn paddle_stays_within_the_playfield_bound() {
    let mut w = setup(1000);
    // Any sequence of key holds keeps the paddle inside [-380, 380].
    let inputs = [
        (false, true),
        (false, true),
        (true, true),
        (false, true),
        (false, true),
        (true, false),
        (false, true),
        (false, true),
        (false, true),
        (false, false),
    ];
    for (left, right) in inputs {
        paddle_movement_system(&mut w, left, right);
        assert!(paddle_x(&w) >= -380 && paddle_x(&w) <= 380);
    }
    // Held right long enough, the paddle parks exactly on the bound.
    for _ in 0..20 {
        paddle_movement_system(&mut w, false, true);
    }
    assert_eq!(paddle_x(&w), 380);
    for _ in 0..40 {
        paddle_movement_system(&mut w, true, false);
    }
    assert_eq!(paddle_x(&w), -380);
}

#[test]
fn ball_moves_linearly_while_nothing_collides() {
    // Ball at (0, -50) with per-tick velocity (7, -7): after 10 isolated
    // movement steps it sits exactly at the start plus 10 times the
    // velocity.
    let mut w = setup(7);
    for _ in 0..10 {
        ball_movement_system(&mut w);
    }
    assert_eq!((w.ball.x, w.ball.y), (0 + 7 * 10, -50 + (-7) * 10));
    assert_eq!((w.vx, w.vy), (7, -7));
}

#[test]
fn solid_hit_reflects_and_stops_the_pass() {
    // The ball moves right and overlaps a solid wall on its right; a brick
    // behind the wall in pass order also overlaps.  The wall flips the
    // x-velocity and ends the pass: the brick is neither scored nor
    // removed that tick.
    let mut w = World {
        ball: Rect { x: 0, y: 0, w: 30, h: 30 },
        vx: 5,
        vy: 0,
        paddle_speed: 10,
        colliders: vec![
            Collider { kind: ColliderKind::Solid, rect: Rect { x: 18, y: 0, w: 10, h: 40 } },
            Collider { kind: ColliderKind::Scorable, rect: Rect { x: -18, y: 0, w: 150, h: 30 } },
            Collider { kind: ColliderKind::Paddle, rect: Rect { x: 300, y: -215, w: 120, h: 30 } },
        ],
        score: 0,
    };
    ball_collision_system(&mut w);
    assert_eq!((w.vx, w.vy), (-5, 0));
    assert_eq!(w.score, 0);
    assert_eq!(w.colliders.len(), 3);
    assert_eq!(scorable_count(&w), 1);
}

#[test]
fn brick_hit_scores_and_still_lets_the_paddle_reflect() {
    // The ball overlaps a brick and the paddle in the same tick.  The
    // brick scores one point and is removed, and because brick hits do not
    // stop the pass, the paddle's reflection still applies afterwards.
    let mut w = World {
        ball: Rect { x: 0, y: 0, w: 30, h: 30 },
        vx: 3,
        vy: -5,
        paddle_speed: 10,
        colliders: vec![
            Collider { kind: ColliderKind::Scorable, rect: Rect { x: 0, y: -10, w: 150, h: 30 } },
            Collider { kind: ColliderKind::Paddle, rect: Rect { x: 18, y: 0, w: 10, h: 30 } },
        ],
        score: 0,
    };
    ball_collision_system(&mut w);
    // Brick: shallow on y, ball above it moving down: top hit, vy flips.
    // Paddle: shallow on x, ball left of it moving right: left hit, vx flips.
    assert_eq!((w.vx, w.vy), (-3, 5));
    assert_eq!(w.score, 1);
    assert_eq!(scorable_count(&w), 0);
    assert_eq!(w.colliders.len(), 1);
    assert_eq!(w.colliders[0].kind, ColliderKind::Paddle);
}

#[test]
fn destroying_every_brick_scores_exactly_twenty() {
    let mut w = setup(10);
    let bricks: Vec<Rect> = w
        .colliders
        .iter()
        .filter(|c| matches!(c.kind, ColliderKind::Scorable))
        .map(|c| c.rect)
        .collect();
    assert_eq!(bricks.len(), 20);
    for brick in bricks {
        // Park the ball on the brick's center; no other collider is near
        // enough to overlap, so exactly this brick is hit.
        w.ball.x = brick.x;
        w.ball.y = brick.y;
        ball_collision_system(&mut w);
    }
    assert_eq!(w.score, 20);
    assert_eq!(scorable_count(&w), 0);
    // Walls and paddle survive the clear.
    assert_eq!(w.colliders.len(), 5);
}

#[test]
fn a_quiet_tick_composes_the_three_systems() {
    // Near nothing, one tick moves the paddle, advances the ball, and
    // leaves velocity, score, and colliders unchanged.
    let mut w = setup(10);
    tick(&mut w, false, true);
    assert_eq!(paddle_x(&w), 10);
    assert_eq!((w.ball.x, w.ball.y), (10, -60));
    assert_eq!((w.vx, w.vy), (10, -10));
    assert_eq!(w.score, 0);
    assert_eq!(w.colliders.len(), 25);
}

#[test]
fn ticks_eventually_bounce_the_ball_off_the_bottom_wall() {
    // Left alone, the ball falls toward the bottom-right; the bottom wall
    // (a solid collider) eventually flips the y-velocity upward, and the
    // score never changes on wall bounces.
    let mut w = setup(10);
    let mut bounced = false;
    for _ in 0..60 {
        tick(&mut w, false, false);
        if w.vy > 0 {
            bounced = true;
            break;
        }
    }
    assert!(bounced);
    assert_eq!(w.score, 0);
    assert_eq!(scorable_count(&w), 20);
}
