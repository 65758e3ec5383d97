//! The simulation world: ball, paddle, colliders, and score.
//!
//! The world owns one ball, one paddle (always the last collider), a set of
//! indestructible walls and destructible bricks, and an integer scoreboard.
//! [`wf`] is the well-formedness invariant that the bootstrap establishes
//! and every per-tick system preserves.

use crate::geometry::{probe_ready, Rect, RectModel, GEOM_POS_LIMIT};
use vstd::math::abs;
use vstd::prelude::*;

verus! {

/// Largest velocity component and paddle speed, in playfield units per
/// tick.
pub const SPEED_MAX: i64 = 1_000_000;

/// The paddle's center stays within `[-PADDLE_BOUND, PADDLE_BOUND]`.
pub const PADDLE_BOUND: i64 = 380;

/// How a collider reacts to the ball.
#[derive(Clone, Copy, PartialEq, Eq, Structural, Debug)]
pub enum ColliderKind {
    /// An indestructible wall: reflects the ball and ends the tick's
    /// collision pass.
    Solid,
    /// A destructible brick: reflects the ball once, then is removed and
    /// awards one point.
    Scorable,
    /// The player's paddle: reflects the ball, is never removed.
    Paddle,
}

/// One collider: its kind and its rectangle.
#[derive(Clone, Copy, PartialEq, Eq, Structural, Debug)]
pub struct Collider {
    pub kind: ColliderKind,
    pub rect: Rect,
}

/// The mathematical value of a [`Collider`].
pub ghost struct ColliderModel {
    pub kind: ColliderKind,
    pub rect: RectModel,
}

impl View for Collider {
    type V = ColliderModel;

    open spec fn view(&self) -> ColliderModel {
        ColliderModel { kind: self.kind, rect: self.rect@ }
    }
}

/// The whole simulation state.  The paddle's collider is always the last
/// element of `colliders`, so the collision pass visits walls and bricks
/// first and the paddle last.
pub struct World {
    /// The ball's rectangle; its center is the ball's position.
    pub ball: Rect,
    /// Ball velocity, in playfield units per tick.
    pub vx: i64,
    /// Ball velocity, in playfield units per tick.
    pub vy: i64,
    /// How far the paddle moves per tick while one key is held.
    pub paddle_speed: i64,
    /// Walls, then bricks, then the paddle, in collision-pass order.
    pub colliders: Vec<Collider>,
    /// Points scored: one per destroyed brick.
    pub score: u64,
}

/// The mathematical value of a [`World`].
pub ghost struct WorldModel {
    pub ball: RectModel,
    pub vx: int,
    pub vy: int,
    pub paddle_speed: int,
    pub colliders: Seq<ColliderModel>,
    pub score: nat,
}

impl View for World {
    type V = WorldModel;

    open spec fn view(&self) -> WorldModel {
        WorldModel {
            ball: self.ball@,
            vx: self.vx as int,
            vy: self.vy as int,
            paddle_speed: self.paddle_speed as int,
            colliders: self.colliders@.map_values(|c: Collider| c@),
            score: self.score as nat,
        }
    }
}

/// How many colliders of a sequence are destructible bricks.
pub open spec fn count_scorable(cs: Seq<ColliderModel>) -> nat
    decreases cs.len(),
{
    if cs.len() == 0 {
        0
    } else {
        (if cs[0].kind is Scorable {
            1nat
        } else {
            0nat
        }) + count_scorable(cs.skip(1))
    }
}

/// Brick counting distributes over concatenation.
pub proof fn lemma_count_scorable_append(a: Seq<ColliderModel>, b: Seq<ColliderModel>)
    ensures
        count_scorable(a + b) == count_scorable(a) + count_scorable(b),
    decreases a.len(),
{
    if a.len() == 0 {
        assert(a + b =~= b);
    } else {
        assert((a + b).skip(1) =~= a.skip(1) + b);
        lemma_count_scorable_append(a.skip(1), b);
    }
}

/// Appending one collider adds one to the brick count exactly when it is a
/// brick.
pub proof fn lemma_count_scorable_push(s: Seq<ColliderModel>, c: ColliderModel)
    ensures
        count_scorable(s.push(c)) == count_scorable(s) + (if c.kind is Scorable {
            1nat
        } else {
            0nat
        }),
{
    assert(s.push(c) =~= s + seq![c]);
    lemma_count_scorable_append(s, seq![c]);
    assert(seq![c].skip(1) =~= Seq::<ColliderModel>::empty());
    assert(count_scorable(Seq::<ColliderModel>::empty()) == 0);
    assert(count_scorable(seq![c]) == (if c.kind is Scorable {
        1nat
    } else {
        0nat
    }) + count_scorable(seq![c].skip(1)));
}

/// A sequence without bricks counts zero bricks.
pub proof fn lemma_count_scorable_none(s: Seq<ColliderModel>)
    requires
        forall|i: int| 0 <= i < s.len() ==> !((#[trigger] s[i].kind) is Scorable),
    ensures
        count_scorable(s) == 0,
    decreases s.len(),
{
    if s.len() > 0 {
        lemma_count_scorable_none(s.skip(1));
    }
}

/// Replacing the last collider with one of the same kind leaves the brick
/// count unchanged.
pub proof fn lemma_count_scorable_update_last(s: Seq<ColliderModel>, c: ColliderModel)
    requires
        s.len() >= 1,
        c.kind is Scorable <==> s.last().kind is Scorable,
    ensures
        count_scorable(s.update(s.len() - 1, c)) == count_scorable(s),
{
    let n = s.len() - 1;
    assert(s =~= s.take(n) + seq![s.last()]);
    assert(s.update(n, c) =~= s.take(n) + seq![c]);
    lemma_count_scorable_append(s.take(n), seq![s.last()]);
    lemma_count_scorable_append(s.take(n), seq![c]);
    assert(seq![c].skip(1) =~= Seq::<ColliderModel>::empty());
    assert(seq![s.last()].skip(1) =~= Seq::<ColliderModel>::empty());
    assert(count_scorable(seq![c]) == (if c.kind is Scorable {
        1nat
    } else {
        0nat
    }) + count_scorable(seq![c].skip(1)));
    assert(count_scorable(seq![s.last()]) == (if s.last().kind is Scorable {
        1nat
    } else {
        0nat
    }) + count_scorable(seq![s.last()].skip(1)));
}

/// The paddle's x-position: the center of the last collider.
pub open spec fn paddle_x(m: WorldModel) -> int {
    m.colliders.last().rect.x
}

/// Well-formedness of a world.  Established by [`setup`], preserved by
/// every per-tick system:
/// - every rectangle is within the collision probe's bounds;
/// - velocity components and the paddle speed are at most [`SPEED_MAX`];
/// - exactly one paddle collider exists and it is the last one;
/// - the paddle sits within the playfield bound;
/// - the score cannot overflow even if every remaining brick is destroyed.
pub open spec fn wf(m: WorldModel) -> bool {
    &&& probe_ready(m.ball)
    &&& forall|i: int| 0 <= i < m.colliders.len() ==> probe_ready(#[trigger] m.colliders[i].rect)
    &&& abs(m.vx) <= SPEED_MAX
    &&& abs(m.vy) <= SPEED_MAX
    &&& 0 <= m.paddle_speed <= SPEED_MAX
    &&& m.colliders.len() >= 1
    &&& m.colliders.last().kind is Paddle
    &&& forall|i: int| 0 <= i < m.colliders.len() - 1 ==> !((#[trigger] m.colliders[i].kind)
        is Paddle)
    &&& -PADDLE_BOUND <= paddle_x(m) <= PADDLE_BOUND
    &&& m.score + count_scorable(m.colliders) <= u64::MAX
}

/// The four boundary walls of the 900-by-600 playfield, 10 units thick,
/// in pass order: left, right, bottom, top.
pub open spec fn wall_collider(i: int) -> ColliderModel {
    if i == 0 {
        ColliderModel { kind: ColliderKind::Solid, rect: RectModel { x: -450, y: 0, w: 10, h: 610 } }
    } else if i == 1 {
        ColliderModel { kind: ColliderKind::Solid, rect: RectModel { x: 450, y: 0, w: 10, h: 610 } }
    } else if i == 2 {
        ColliderModel {
            kind: ColliderKind::Solid,
            rect: RectModel { x: 0, y: -300, w: 910, h: 10 },
        }
    } else {
        ColliderModel { kind: ColliderKind::Solid, rect: RectModel { x: 0, y: 300, w: 910, h: 10 } }
    }
}

/// Brick `i` of the 4-by-5 grid, row-major from the bottom row: 150 by 30
/// units, spaced 20 apart, centered horizontally and raised 100 units.
pub open spec fn brick_collider(i: int) -> ColliderModel {
    ColliderModel {
        kind: ColliderKind::Scorable,
        rect: RectModel { x: -340 + 170 * (i % 5), y: 100 + 50 * (i / 5), w: 150, h: 30 },
    }
}

/// The paddle collider at x-position `x`: 120 by 30 units, 215 units below
/// the center line.
pub open spec fn paddle_collider(x: int) -> ColliderModel {
    ColliderModel { kind: ColliderKind::Paddle, rect: RectModel { x: x, y: -215, w: 120, h: 30 } }
}

/// The bootstrap collider list: 4 walls, then the 20 bricks in row-major
/// grid order, then the paddle.
pub open spec fn initial_colliders() -> Seq<ColliderModel> {
    Seq::new(
        25,
        |i: int|
            if i < 4 {
                wall_collider(i)
            } else if i < 24 {
                brick_collider(i - 4)
            } else {
                paddle_collider(0)
            },
    )
}

/// The world as the bootstrap builds it: ball of size 30 at `(0, -50)`
/// moving diagonally down-right with `speed` units per tick on each axis,
/// paddle at rest in the middle, all bricks standing, score zero.
pub open spec fn initial_world(speed: int) -> WorldModel {
    WorldModel {
        ball: RectModel { x: 0, y: -50, w: 30, h: 30 },
        vx: speed,
        vy: -speed,
        paddle_speed: speed,
        colliders: initial_colliders(),
        score: 0,
    }
}

/// Build the world once, before the first tick, from the one externally
/// supplied scalar: the speed, in playfield units per tick, of both the
/// ball (per axis, moving down-right) and the paddle.
pub fn setup(speed: i64) -> (w: World)
    requires
        0 < speed <= SPEED_MAX,
    ensures
        w@ == initial_world(speed as int),
        wf(w@),
        count_scorable(w@.colliders) == 20,
{
    let mut colliders: Vec<Collider> = Vec::new();
    colliders.push(
        Collider { kind: ColliderKind::Solid, rect: Rect { x: -450, y: 0, w: 10, h: 610 } },
    );
    colliders.push(
        Collider { kind: ColliderKind::Solid, rect: Rect { x: 450, y: 0, w: 10, h: 610 } },
    );
    colliders.push(
        Collider { kind: ColliderKind::Solid, rect: Rect { x: 0, y: -300, w: 910, h: 10 } },
    );
    colliders.push(
        Collider { kind: ColliderKind::Solid, rect: Rect { x: 0, y: 300, w: 910, h: 10 } },
    );
    proof {
        lemma_count_scorable_none(colliders@.map_values(|c: Collider| c@));
    }
    let mut i: usize = 0;
    while i < 20
        invariant
            i <= 20,
            colliders@.len() == 4 + i,
            forall|j: int| 0 <= j < 4 ==> (#[trigger] colliders@[j])@ == wall_collider(j),
            forall|j: int| 0 <= j < i ==> (#[trigger] colliders@[4 + j])@ == brick_collider(j),
            count_scorable(colliders@.map_values(|c: Collider| c@)) == i,
        decreases 20 - i,
    {
        let brick = Collider {
            kind: ColliderKind::Scorable,
            rect: Rect {
                x: -340 + 170 * ((i % 5) as i64),
                y: 100 + 50 * ((i / 5) as i64),
                w: 150,
                h: 30,
            },
        };
        proof {
            lemma_count_scorable_push(colliders@.map_values(|c: Collider| c@), brick@);
            assert(colliders@.push(brick).map_values(|c: Collider| c@) =~= colliders@.map_values(
                |c: Collider| c@,
            ).push(brick@));
        }
        colliders.push(brick);
        i += 1;
    }
    let paddle = Collider { kind: ColliderKind::Paddle, rect: Rect { x: 0, y: -215, w: 120, h: 30 } };
    proof {
        lemma_count_scorable_push(colliders@.map_values(|c: Collider| c@), paddle@);
        assert(colliders@.push(paddle).map_values(|c: Collider| c@) =~= colliders@.map_values(
            |c: Collider| c@,
        ).push(paddle@));
    }
    colliders.push(paddle);
    let w = World {
        ball: Rect { x: 0, y: -50, w: 30, h: 30 },
        vx: speed,
        vy: -speed,
        paddle_speed: speed,
        colliders,
        score: 0,
    };
    proof {
        let built = w@.colliders;
        assert(built.len() == 25);
        assert forall|j: int| 0 <= j < 25 implies built[j] == initial_colliders()[j] by {
            assert(built[j] == colliders@[j]@);
            if j < 4 {
                assert(colliders@[j]@ == wall_collider(j));
            } else if j < 24 {
                assert(colliders@[4 + (j - 4)]@ == brick_collider(j - 4));
            } else {
                assert(colliders@[j] == paddle);
            }
        }
        assert(w@.colliders =~= initial_colliders());
    }
    w
}

} // verus!
