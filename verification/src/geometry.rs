//! Axis-aligned rectangles, the collision probe, and velocity reflection.
//!
//! A rectangle is given by its center and its full size; the probe decides
//! whether two rectangles overlap and, if they do, which side of the second
//! rectangle the first one struck.  All geometry is over integer coordinates,
//! so every comparison the probe makes is exact.

use vstd::math::abs;
use vstd::prelude::*;

verus! {

/// Largest center-coordinate magnitude the collision probe accepts.
pub const GEOM_POS_LIMIT: i64 = 1_000_000_000_000;

/// Largest rectangle width or height the collision probe accepts.
pub const GEOM_SIZE_LIMIT: i64 = 1_000_000;

/// An axis-aligned rectangle: center position `(x, y)` and full size
/// `(w, h)`.  Well-formed rectangles have positive width and height.
#[derive(Clone, Copy, PartialEq, Eq, Structural, Debug)]
pub struct Rect {
    pub x: i64,
    pub y: i64,
    pub w: i64,
    pub h: i64,
}

/// The mathematical value of a [`Rect`]: the same four quantities as
/// unbounded integers.
pub ghost struct RectModel {
    pub x: int,
    pub y: int,
    pub w: int,
    pub h: int,
}

impl View for Rect {
    type V = RectModel;

    open spec fn view(&self) -> RectModel {
        RectModel { x: self.x as int, y: self.y as int, w: self.w as int, h: self.h as int }
    }
}

/// The side of the second rectangle that the first rectangle struck.
#[derive(Clone, Copy, PartialEq, Eq, Structural, Debug)]
pub enum Side {
    Left,
    Right,
    Top,
    Bottom,
}

/// A rectangle the probe can take: positive size within
/// [`GEOM_SIZE_LIMIT`], center within [`GEOM_POS_LIMIT`].
pub open spec fn probe_ready(r: RectModel) -> bool {
    &&& 0 < r.w <= GEOM_SIZE_LIMIT
    &&& 0 < r.h <= GEOM_SIZE_LIMIT
    &&& abs(r.x) <= GEOM_POS_LIMIT
    &&& abs(r.y) <= GEOM_POS_LIMIT
}

/// Twice the x-axis penetration depth of `a` into `b`: the sum of the
/// half-widths minus the center distance, doubled to stay integral.
pub open spec fn x_penetration2(a: RectModel, b: RectModel) -> int {
    a.w + b.w - 2 * abs(a.x - b.x)
}

/// Twice the y-axis penetration depth of `a` into `b`.
pub open spec fn y_penetration2(a: RectModel, b: RectModel) -> int {
    a.h + b.h - 2 * abs(a.y - b.y)
}

/// Two rectangles overlap when they penetrate on both axes.  Rectangles
/// that merely touch (zero penetration) do not overlap.
pub open spec fn overlaps(a: RectModel, b: RectModel) -> bool {
    x_penetration2(a, b) > 0 && y_penetration2(a, b) > 0
}

/// The side of `b` that an overlapping `a` struck: the axis on which the
/// penetration is smaller, then the side of that axis `a`'s center lies on.
///
/// Conventions, fixed so that corner hits are deterministic: equal
/// penetration on both axes reports an x-axis side, and a center exactly on
/// `b`'s center line reports `Right` (x-axis) or `Top` (y-axis).
pub open spec fn struck_side(a: RectModel, b: RectModel) -> Side {
    if y_penetration2(a, b) < x_penetration2(a, b) {
        if a.y < b.y {
            Side::Bottom
        } else {
            Side::Top
        }
    } else {
        if a.x < b.x {
            Side::Left
        } else {
            Side::Right
        }
    }
}

/// What the collision probe returns: the struck side of `b` when the
/// rectangles overlap, nothing otherwise.
pub open spec fn collide_spec(a: RectModel, b: RectModel) -> Option<Side> {
    if overlaps(a, b) {
        Some(struck_side(a, b))
    } else {
        None
    }
}

/// The collision probe.  Decides whether rectangle `a` overlaps rectangle
/// `b` and, if so, which side of `b` was struck.  Pure: equal inputs give
/// equal results, so corner hits resolve the same way every time.
pub fn collide(a: &Rect, b: &Rect) -> (r: Option<Side>)
    requires
        probe_ready(a@),
        probe_ready(b@),
    ensures
        r == collide_spec(a@, b@),
        r is Some <==> overlaps(a@, b@),
{
    let dx: i64 = if a.x >= b.x {
        a.x - b.x
    } else {
        b.x - a.x
    };
    let dy: i64 = if a.y >= b.y {
        a.y - b.y
    } else {
        b.y - a.y
    };
    let px2: i64 = a.w + b.w - 2 * dx;
    let py2: i64 = a.h + b.h - 2 * dy;
    if px2 > 0 && py2 > 0 {
        if py2 < px2 {
            if a.y < b.y {
                Some(Side::Bottom)
            } else {
                Some(Side::Top)
            }
        } else {
            if a.x < b.x {
                Some(Side::Left)
            } else {
                Some(Side::Right)
            }
        }
    } else {
        None
    }
}

/// Rectangles that do not overlap never report a collision.
pub proof fn lemma_no_overlap_no_collision(a: RectModel, b: RectModel)
    requires
        !overlaps(a, b),
    ensures
        collide_spec(a, b) is None,
{
}

/// The documented corner convention: a hit with equal penetration depth on
/// both axes always reports an x-axis side, chosen by where `a`'s center
/// lies, so a diagonal corner approach reflects the same way every time.
pub proof fn lemma_corner_tiebreak(a: RectModel, b: RectModel)
    requires
        overlaps(a, b),
        x_penetration2(a, b) == y_penetration2(a, b),
    ensures
        collide_spec(a, b) == Some(if a.x < b.x {
            Side::Left
        } else {
            Side::Right
        }),
{
}

/// The velocity `(vx, vy)` after striking `side`, under the into-facing
/// rule: a component flips only when the ball is moving into the struck
/// side, which prevents a second hit on the same side from undoing the
/// first reflection.
pub open spec fn reflect_spec(side: Side, vx: int, vy: int) -> (int, int) {
    match side {
        Side::Left => if vx > 0 {
            (-vx, vy)
        } else {
            (vx, vy)
        },
        Side::Right => if vx < 0 {
            (-vx, vy)
        } else {
            (vx, vy)
        },
        Side::Top => if vy < 0 {
            (vx, -vy)
        } else {
            (vx, vy)
        },
        Side::Bottom => if vy > 0 {
            (vx, -vy)
        } else {
            (vx, vy)
        },
    }
}

/// Apply the into-facing reflection rule for `side` to the velocity
/// `(vx, vy)`.
pub fn reflect(side: Side, vx: i64, vy: i64) -> (r: (i64, i64))
    requires
        vx > i64::MIN,
        vy > i64::MIN,
    ensures
        (r.0 as int, r.1 as int) == reflect_spec(side, vx as int, vy as int),
{
    match side {
        Side::Left => if vx > 0 {
            (-vx, vy)
        } else {
            (vx, vy)
        },
        Side::Right => if vx < 0 {
            (-vx, vy)
        } else {
            (vx, vy)
        },
        Side::Top => if vy < 0 {
            (vx, -vy)
        } else {
            (vx, vy)
        },
        Side::Bottom => if vy > 0 {
            (vx, -vy)
        } else {
            (vx, vy)
        },
    }
}

/// The squared magnitude of a velocity, the kinetic energy up to a
/// constant factor.
pub open spec fn speed_squared(vx: int, vy: int) -> int {
    vx * vx + vy * vy
}

/// A reflection never changes the ball's speed: whatever side is struck,
/// the squared velocity magnitude after the into-facing reflection equals
/// the one before, so no reflection gains or loses kinetic energy.
pub proof fn lemma_reflection_preserves_energy(side: Side, vx: int, vy: int)
    ensures
        speed_squared(reflect_spec(side, vx, vy).0, reflect_spec(side, vx, vy).1)
            == speed_squared(vx, vy),
{
    assert((-vx) * (-vx) == vx * vx) by (nonlinear_arith);
    assert((-vy) * (-vy) == vy * vy) by (nonlinear_arith);
}

/// A reflection never changes a component's magnitude either, only its
/// sign.
pub proof fn lemma_reflection_preserves_component_magnitude(side: Side, vx: int, vy: int)
    ensures
        abs(reflect_spec(side, vx, vy).0) == abs(vx),
        abs(reflect_spec(side, vx, vy).1) == abs(vy),
{
}

} // verus!
