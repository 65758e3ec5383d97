//! The per-tick simulation systems and their exact semantics.
//!
//! Each fixed tick runs paddle movement, then ball movement, then collision
//! resolution; the scoreboard text refresh is a pure projection and lives in
//! its own module.  Every system's contract equates the new world with a
//! spec-level step function, so the whole tick has one mathematical meaning:
//! [`tick_spec`].

use crate::geometry::{
    collide, collide_spec, probe_ready, reflect, reflect_spec, RectModel, GEOM_POS_LIMIT,
};
use crate::world::{
    count_scorable, lemma_count_scorable_append, paddle_x, wf, ColliderKind,
    ColliderModel, World, WorldModel, PADDLE_BOUND, SPEED_MAX,
};
use vstd::math::abs;
use vstd::prelude::*;

verus! {

/// The paddle's signed direction for one tick: `+1` while only the right
/// key is held, `-1` while only the left key is held, `0` otherwise (both
/// keys cancel).
pub open spec fn direction(left: bool, right: bool) -> int {
    (if right {
        1int
    } else {
        0int
    }) - (if left {
        1int
    } else {
        0int
    })
}

/// Clamp an x-position to the playfield bound `[-380, 380]`.
pub open spec fn clamp_paddle(x: int) -> int {
    if x > PADDLE_BOUND {
        PADDLE_BOUND as int
    } else if x < -PADDLE_BOUND {
        -PADDLE_BOUND as int
    } else {
        x
    }
}

/// The world after one paddle-movement step: the last collider (the
/// paddle) moves by `direction × speed` and is then clamped to the
/// playfield bound; nothing else changes.
pub open spec fn paddle_step(m: WorldModel, left: bool, right: bool) -> WorldModel {
    let p = m.colliders.last();
    let nx = clamp_paddle(p.rect.x + direction(left, right) * m.paddle_speed);
    let np = ColliderModel {
        kind: p.kind,
        rect: RectModel { x: nx, y: p.rect.y, w: p.rect.w, h: p.rect.h },
    };
    WorldModel { colliders: m.colliders.update(m.colliders.len() - 1, np), ..m }
}

/// Move the paddle for one tick from the current key-hold state.  The new
/// x-position is clamped to `[-380, 380]` after the move, so the paddle
/// never leaves the playfield whatever keys are held.
pub fn paddle_movement_system(w: &mut World, left_pressed: bool, right_pressed: bool)
    requires
        wf(old(w)@),
    ensures
        final(w)@ == paddle_step(old(w)@, left_pressed, right_pressed),
        wf(final(w)@),
        -PADDLE_BOUND <= paddle_x(final(w)@) <= PADDLE_BOUND,
{
    let n = w.colliders.len();
    let delta: i64 = if right_pressed && !left_pressed {
        w.paddle_speed
    } else if left_pressed && !right_pressed {
        -w.paddle_speed
    } else {
        0
    };
    let mut p = w.colliders[n - 1];
    let moved = p.rect.x + delta;
    p.rect.x = if moved > PADDLE_BOUND {
        PADDLE_BOUND
    } else if moved < -PADDLE_BOUND {
        -PADDLE_BOUND
    } else {
        moved
    };
    w.colliders[n - 1] = p;
    proof {
        let m0 = old(w)@;
        let m1 = paddle_step(m0, left_pressed, right_pressed);
        let d = direction(left_pressed, right_pressed);
        if right_pressed && !left_pressed {
            assert(d == 1);
            assert(1 * m0.paddle_speed == m0.paddle_speed) by (nonlinear_arith);
        } else if left_pressed && !right_pressed {
            assert(d == -1);
            assert((-1) * m0.paddle_speed == -m0.paddle_speed) by (nonlinear_arith);
        } else {
            assert(d == 0);
            assert(0 * m0.paddle_speed == 0) by (nonlinear_arith);
        }
        assert(delta as int == d * m0.paddle_speed);
        assert(w@.colliders =~= m1.colliders);
        crate::world::lemma_count_scorable_update_last(m0.colliders, m1.colliders.last());
    }
}

/// The world after one ball-movement step: the ball's center advances by
/// one tick's velocity; nothing else changes.  There is deliberately no
/// boundary check here: walls act on the ball only through collision
/// resolution.
pub open spec fn ball_step(m: WorldModel) -> WorldModel {
    WorldModel {
        ball: RectModel { x: m.ball.x + m.vx, y: m.ball.y + m.vy, w: m.ball.w, h: m.ball.h },
        ..m
    }
}

/// Advance the ball by one tick's velocity.
pub fn ball_movement_system(w: &mut World)
    requires
        wf(old(w)@),
        abs(old(w)@.ball.x + old(w)@.vx) <= GEOM_POS_LIMIT,
        abs(old(w)@.ball.y + old(w)@.vy) <= GEOM_POS_LIMIT,
    ensures
        final(w)@ == ball_step(old(w)@),
        wf(final(w)@),
{
    w.ball.x = w.ball.x + w.vx;
    w.ball.y = w.ball.y + w.vy;
}

/// The outcome of one collision pass over a collider sequence: the
/// colliders that remain, the velocity after all applied reflections, the
/// points gained, and whether a solid hit cut the pass short.
pub ghost struct Resolution {
    pub kept: Seq<ColliderModel>,
    pub vx: int,
    pub vy: int,
    pub gained: nat,
    pub stopped: bool,
}

/// One collision pass of the ball over `cs`, front to back.  A collider
/// the ball does not overlap is kept and skipped.  An overlapped collider
/// reflects the velocity under the into-facing rule; a brick is then
/// removed and scores one point, a wall keeps every later collider
/// untouched and stops the pass, and the paddle lets the pass continue.
pub open spec fn resolve_seq(cs: Seq<ColliderModel>, ball: RectModel, vx: int, vy: int) -> Resolution
    decreases cs.len(),
{
    if cs.len() == 0 {
        Resolution { kept: Seq::empty(), vx: vx, vy: vy, gained: 0, stopped: false }
    } else {
        let c = cs[0];
        match collide_spec(ball, c.rect) {
            Option::None => {
                let r = resolve_seq(cs.skip(1), ball, vx, vy);
                Resolution {
                    kept: seq![c] + r.kept,
                    vx: r.vx,
                    vy: r.vy,
                    gained: r.gained,
                    stopped: r.stopped,
                }
            },
            Option::Some(side) => {
                let rv = reflect_spec(side, vx, vy);
                match c.kind {
                    ColliderKind::Solid => Resolution {
                        kept: cs,
                        vx: rv.0,
                        vy: rv.1,
                        gained: 0,
                        stopped: true,
                    },
                    ColliderKind::Scorable => {
                        let r = resolve_seq(cs.skip(1), ball, rv.0, rv.1);
                        Resolution {
                            kept: r.kept,
                            vx: r.vx,
                            vy: r.vy,
                            gained: r.gained + 1,
                            stopped: r.stopped,
                        }
                    },
                    ColliderKind::Paddle => {
                        let r = resolve_seq(cs.skip(1), ball, rv.0, rv.1);
                        Resolution {
                            kept: seq![c] + r.kept,
                            vx: r.vx,
                            vy: r.vy,
                            gained: r.gained,
                            stopped: r.stopped,
                        }
                    },
                }
            },
        }
    }
}

/// The paddle-placement invariant of a collider sequence: it ends with the
/// one and only paddle collider.
pub open spec fn paddle_last(cs: Seq<ColliderModel>) -> bool {
    &&& cs.len() >= 1
    &&& cs.last().kind is Paddle
    &&& forall|i: int| 0 <= i < cs.len() - 1 ==> !((#[trigger] cs[i].kind) is Paddle)
}

/// What one collision pass guarantees, whatever the ball and velocity:
/// every point gained accounts for exactly one removed brick; the speed of
/// each velocity component is unchanged (reflections only flip signs); the
/// kept colliders all come from the input sequence; and the pass never
/// removes the trailing paddle.
pub proof fn lemma_resolve_properties(cs: Seq<ColliderModel>, ball: RectModel, vx: int, vy: int)
    ensures
        ({
            let r = resolve_seq(cs, ball, vx, vy);
            &&& r.gained + count_scorable(r.kept) == count_scorable(cs)
            &&& abs(r.vx) == abs(vx)
            &&& abs(r.vy) == abs(vy)
            &&& (forall|k: int| 0 <= k < cs.len() ==> probe_ready(#[trigger] cs[k].rect))
                ==> (forall|j: int|
                0 <= j < r.kept.len() ==> probe_ready(#[trigger] r.kept[j].rect))
            &&& paddle_last(cs) ==> (paddle_last(r.kept) && r.kept.last() == cs.last())
        }),
    decreases cs.len(),
{
    let r = resolve_seq(cs, ball, vx, vy);
    if cs.len() == 0 {
        assert(count_scorable(r.kept) == 0);
    } else {
        let c = cs[0];
        let tail = cs.skip(1);
        match collide_spec(ball, c.rect) {
            Option::None => {
                let rt = resolve_seq(tail, ball, vx, vy);
                lemma_resolve_properties(tail, ball, vx, vy);
                lemma_count_scorable_append(seq![c], rt.kept);
                assert(seq![c].skip(1) =~= Seq::<ColliderModel>::empty());
                assert(count_scorable(seq![c]) == (if c.kind is Scorable {
                    1nat
                } else {
                    0nat
                }) + count_scorable(seq![c].skip(1)));
                lemma_resolve_kept_shift(cs, c, tail, rt);
            },
            Option::Some(side) => {
                let rv = reflect_spec(side, vx, vy);
                crate::geometry::lemma_reflection_preserves_component_magnitude(side, vx, vy);
                match c.kind {
                    ColliderKind::Solid => {
                    },
                    ColliderKind::Scorable => {
                        lemma_resolve_properties(tail, ball, rv.0, rv.1);
                        if paddle_last(cs) {
                            assert(cs.len() >= 2);
                            assert(paddle_last(tail));
                        }
                    },
                    ColliderKind::Paddle => {
                        let rt = resolve_seq(tail, ball, rv.0, rv.1);
                        lemma_resolve_properties(tail, ball, rv.0, rv.1);
                        lemma_count_scorable_append(seq![c], rt.kept);
                        assert(seq![c].skip(1) =~= Seq::<ColliderModel>::empty());
                        assert(count_scorable(seq![c]) == (if c.kind is Scorable {
                            1nat
                        } else {
                            0nat
                        }) + count_scorable(seq![c].skip(1)));
                        lemma_resolve_kept_shift(cs, c, tail, rt);
                    },
                }
            },
        }
    }
}

/// Helper for [`lemma_resolve_properties`]: facts about a kept sequence of
/// the form `[head] + kept-of-tail`.
proof fn lemma_resolve_kept_shift(
    cs: Seq<ColliderModel>,
    c: ColliderModel,
    tail: Seq<ColliderModel>,
    rt: Resolution,
)
    requires
        cs.len() >= 1,
        c == cs[0],
        tail == cs.skip(1),
        tail.len() == 0 ==> rt.kept.len() == 0,
        (forall|k: int| 0 <= k < tail.len() ==> probe_ready(#[trigger] tail[k].rect)) ==> (forall|
            j: int,
        |
            0 <= j < rt.kept.len() ==> probe_ready(#[trigger] rt.kept[j].rect)),
        paddle_last(tail) ==> (paddle_last(rt.kept) && rt.kept.last() == tail.last()),
    ensures
        (forall|k: int| 0 <= k < cs.len() ==> probe_ready(#[trigger] cs[k].rect)) ==> (forall|
            j: int,
        |
            0 <= j < (seq![c] + rt.kept).len() ==> probe_ready(
                #[trigger] (seq![c] + rt.kept)[j].rect,
            )),
        paddle_last(cs) ==> (paddle_last(seq![c] + rt.kept) && (seq![c] + rt.kept).last()
            == cs.last()),
{
    let kept = seq![c] + rt.kept;
    if forall|k: int| 0 <= k < cs.len() ==> probe_ready(#[trigger] cs[k].rect) {
        assert forall|k: int| 0 <= k < tail.len() implies probe_ready(
            #[trigger] tail[k].rect,
        ) by {
            assert(tail[k] == cs[k + 1]);
        }
        assert forall|j: int| 0 <= j < kept.len() implies probe_ready(#[trigger] kept[j].rect) by {
            if j == 0 {
                assert(kept[0] == c);
            } else {
                assert(kept[j] == rt.kept[j - 1]);
            }
        }
    }
    if paddle_last(cs) {
        if cs.len() == 1 {
            assert(c.kind is Paddle);
            assert(kept.len() == 1);
            assert(kept.last() == c);
        } else {
            assert forall|i: int| 0 <= i < tail.len() - 1 implies !((#[trigger] tail[i].kind)
                is Paddle) by {
                assert(tail[i] == cs[i + 1]);
            }
            assert(tail.last() == cs.last());
            assert(paddle_last(tail));
            assert(kept.last() == rt.kept.last());
            assert forall|i: int| 0 <= i < kept.len() - 1 implies !((#[trigger] kept[i].kind)
                is Paddle) by {
                if i == 0 {
                    assert(kept[0] == c);
                    assert(c == cs[0]);
                } else {
                    assert(kept[i] == rt.kept[i - 1]);
                }
            }
        }
    }
}

/// The world after one collision-resolution step: one pass of
/// [`resolve_seq`] over all colliders, front to back.
pub open spec fn collision_step(m: WorldModel) -> WorldModel {
    let r = resolve_seq(m.colliders, m.ball, m.vx, m.vy);
    WorldModel {
        ball: m.ball,
        vx: r.vx,
        vy: r.vy,
        paddle_speed: m.paddle_speed,
        colliders: r.kept,
        score: m.score + r.gained,
    }
}

/// Run the collision pass over the colliders from index `i` on, leaving
/// the first `i` colliders untouched.
fn resolve_from(w: &mut World, i: usize)
    requires
        i <= old(w).colliders.len(),
        probe_ready(old(w)@.ball),
        forall|k: int|
            0 <= k < old(w)@.colliders.len() ==> probe_ready(
                #[trigger] old(w)@.colliders[k].rect,
            ),
        abs(old(w)@.vx) <= SPEED_MAX,
        abs(old(w)@.vy) <= SPEED_MAX,
        old(w)@.score + count_scorable(old(w)@.colliders.skip(i as int)) <= u64::MAX,
    ensures
        ({
            let r = resolve_seq(
                old(w)@.colliders.skip(i as int),
                old(w)@.ball,
                old(w)@.vx,
                old(w)@.vy,
            );
            &&& final(w)@.colliders == old(w)@.colliders.take(i as int) + r.kept
            &&& final(w)@.vx == r.vx
            &&& final(w)@.vy == r.vy
            &&& final(w)@.score == old(w)@.score + r.gained
            &&& final(w).ball == old(w).ball
            &&& final(w).paddle_speed == old(w).paddle_speed
        }),
    decreases old(w).colliders.len() - i,
{
    let ghost s0 = old(w)@.colliders;
    let ghost suffix = s0.skip(i as int);
    let ghost vx0 = old(w)@.vx;
    let ghost vy0 = old(w)@.vy;
    let ghost ball = old(w)@.ball;
    if i == w.colliders.len() {
        proof {
            assert(suffix.len() == 0);
            assert(w@.colliders =~= s0.take(i as int) + resolve_seq(suffix, ball, vx0, vy0).kept);
        }
        return ;
    }
    let c = w.colliders[i];
    proof {
        assert(c@ == s0[i as int]);
        assert(probe_ready(s0[i as int].rect));
        assert(c.rect@ == s0[i as int].rect);
        assert(suffix[0] == s0[i as int]);
        assert(suffix.skip(1) =~= s0.skip(i as int + 1));
        assert(count_scorable(suffix) == (if suffix[0].kind is Scorable {
            1nat
        } else {
            0nat
        }) + count_scorable(suffix.skip(1)));
    }
    let hit = collide(&w.ball, &c.rect);
    match hit {
        Option::None => {
            resolve_from(w, i + 1);
            proof {
                let rt = resolve_seq(s0.skip(i as int + 1), ball, vx0, vy0);
                let r = resolve_seq(suffix, ball, vx0, vy0);
                assert(r.kept == seq![c@] + rt.kept);
                assert(s0.take(i as int + 1) =~= s0.take(i as int) + seq![s0[i as int]]);
                assert((s0.take(i as int) + seq![c@]) + rt.kept =~= s0.take(i as int) + (seq![c@]
                    + rt.kept));
            }
        },
        Option::Some(side) => {
            proof {
                crate::geometry::lemma_reflection_preserves_component_magnitude(
                    side,
                    vx0,
                    vy0,
                );
            }
            let refl = reflect(side, w.vx, w.vy);
            w.vx = refl.0;
            w.vy = refl.1;
            let ghost rv = reflect_spec(side, vx0, vy0);
            match c.kind {
                ColliderKind::Solid => {
                    proof {
                        let r = resolve_seq(suffix, ball, vx0, vy0);
                        assert(r.kept == suffix);
                        assert(w@.colliders =~= s0.take(i as int) + suffix);
                    }
                },
                ColliderKind::Scorable => {
                    w.score = w.score + 1;
                    w.colliders.remove(i);
                    proof {
                        assert(w@.colliders =~= s0.remove(i as int));
                        let s1 = s0.remove(i as int);
                        assert(s1.take(i as int) =~= s0.take(i as int));
                        assert(s1.skip(i as int) =~= suffix.skip(1));
                    }
                    resolve_from(w, i);
                    proof {
                        let s1 = s0.remove(i as int);
                        let rt = resolve_seq(suffix.skip(1), ball, rv.0, rv.1);
                        let r = resolve_seq(suffix, ball, vx0, vy0);
                        assert(r.kept == rt.kept && r.gained == rt.gained + 1 && r.vx == rt.vx
                            && r.vy == rt.vy);
                        assert(s1.take(i as int) =~= s0.take(i as int));
                    }
                },
                ColliderKind::Paddle => {
                    resolve_from(w, i + 1);
                    proof {
                        let rt = resolve_seq(s0.skip(i as int + 1), ball, rv.0, rv.1);
                        let r = resolve_seq(suffix, ball, vx0, vy0);
                        assert(r.kept == seq![c@] + rt.kept);
                        assert(s0.take(i as int + 1) =~= s0.take(i as int) + seq![s0[i as int]]);
                        assert((s0.take(i as int) + seq![c@]) + rt.kept =~= s0.take(i as int) + (
                        seq![c@] + rt.kept));
                    }
                },
            }
        },
    }
}

/// Resolve the ball against every collider for this tick, front to back:
/// walls first, bricks next, the paddle last.  An overlapped brick scores
/// one point and is removed; an overlapped wall reflects the ball and ends
/// the pass (at most one wall bounce per tick); the paddle reflects the
/// ball without ending the pass.  The pass gains exactly one point per
/// brick it removes, never moves the ball or the paddle, and never changes
/// the ball's speed — only the signs of its velocity.
pub fn ball_collision_system(w: &mut World)
    requires
        wf(old(w)@),
    ensures
        final(w)@ == collision_step(old(w)@),
        wf(final(w)@),
        final(w)@.score + count_scorable(final(w)@.colliders) == old(w)@.score + count_scorable(
            old(w)@.colliders,
        ),
        paddle_x(final(w)@) == paddle_x(old(w)@),
        final(w)@.ball == old(w)@.ball,
{
    proof {
        assert(old(w)@.colliders.skip(0) =~= old(w)@.colliders);
    }
    resolve_from(w, 0);
    proof {
        let m0 = old(w)@;
        let r = resolve_seq(m0.colliders, m0.ball, m0.vx, m0.vy);
        assert(m0.colliders.take(0) + r.kept =~= r.kept);
        lemma_resolve_properties(m0.colliders, m0.ball, m0.vx, m0.vy);
        assert(paddle_last(m0.colliders));
        assert(w@ == collision_step(m0));
    }
}

/// One whole fixed tick: paddle movement, then ball movement, then
/// collision resolution, in that order.
pub open spec fn tick_spec(m: WorldModel, left: bool, right: bool) -> WorldModel {
    collision_step(ball_step(paddle_step(m, left, right)))
}

/// Advance the world by one fixed tick from the current key-hold state.
/// Besides the exact step semantics, every tick keeps the world
/// well-formed, keeps the paddle within `[-380, 380]`, and conserves
/// `score + remaining bricks`: each point gained accounts for exactly one
/// destroyed brick.
pub fn tick(w: &mut World, left_pressed: bool, right_pressed: bool)
    requires
        wf(old(w)@),
        abs(old(w)@.ball.x + old(w)@.vx) <= GEOM_POS_LIMIT,
        abs(old(w)@.ball.y + old(w)@.vy) <= GEOM_POS_LIMIT,
    ensures
        final(w)@ == tick_spec(old(w)@, left_pressed, right_pressed),
        wf(final(w)@),
        final(w)@.score + count_scorable(final(w)@.colliders) == old(w)@.score + count_scorable(
            old(w)@.colliders,
        ),
        -PADDLE_BOUND <= paddle_x(final(w)@) <= PADDLE_BOUND,
{
    let ghost m0 = old(w)@;
    paddle_movement_system(w, left_pressed, right_pressed);
    proof {
        let m1 = paddle_step(m0, left_pressed, right_pressed);
        crate::world::lemma_count_scorable_update_last(m0.colliders, m1.colliders.last());
    }
    ball_movement_system(w);
    ball_collision_system(w);
}

/// After any tick the paddle's x-position lies within `[-380, 380]`,
/// whatever the key-hold history: the clamp applies after every move, and
/// neither the ball step nor the collision pass moves the paddle.  Only
/// the paddle-placement invariant is assumed — not any bound on where the
/// paddle stood before.
pub proof fn lemma_paddle_always_in_bounds(m: WorldModel, left: bool, right: bool)
    requires
        paddle_last(m.colliders),
    ensures
        -PADDLE_BOUND <= paddle_x(tick_spec(m, left, right)) <= PADDLE_BOUND,
{
    let m1 = paddle_step(m, left, right);
    let m2 = ball_step(m1);
    assert(m1.colliders.last() == m1.colliders[m1.colliders.len() - 1]);
    assert(paddle_last(m1.colliders));
    lemma_resolve_properties(m2.colliders, m2.ball, m2.vx, m2.vy);
}

/// Every tick conserves `score + remaining bricks`: moving the paddle and
/// the ball destroys nothing, and the collision pass gains exactly one
/// point per brick it removes.
pub proof fn lemma_tick_conserves_score_sum(m: WorldModel, left: bool, right: bool)
    requires
        m.colliders.len() >= 1,
    ensures
        tick_spec(m, left, right).score + count_scorable(tick_spec(m, left, right).colliders)
            == m.score + count_scorable(m.colliders),
{
    let m1 = paddle_step(m, left, right);
    let m2 = ball_step(m1);
    crate::world::lemma_count_scorable_update_last(m.colliders, m1.colliders.last());
    assert(m1.colliders.last() == m1.colliders[m1.colliders.len() - 1]);
    lemma_resolve_properties(m2.colliders, m2.ball, m2.vx, m2.vy);
}

/// Clearing the field scores every brick.  The bootstrap starts the world
/// with 20 bricks, score 0, so `score + remaining bricks == 20`; every
/// tick conserves that sum; hence as soon as no brick remains, the score
/// is exactly 20.
pub proof fn lemma_full_clear_scores_twenty(m: WorldModel)
    requires
        m.score + count_scorable(m.colliders) == 20,
        count_scorable(m.colliders) == 0,
    ensures
        m.score == 20,
{
}

} // verus!
