//! The balls.

use vstd::prelude::*;
use crate::collision::{lemma_resolve_is_small, resolve};
use crate::geometry::{magnitude, sign, Rect, Region, Vec2, Vector};
use crate::random::random_below;
use crate::root::{integer_root, is_root, lemma_root_exists, root};
use crate::units::{BALL_SIZE, BALL_SPEED, MAX_DT, MAX_FIELD, UNIT};

verus! {

/// Farthest that one update moves a ball along an axis.
pub const MAX_STEP: i64 = 400_000_000_000;

/// No ball that touches the paddle or a block lies further from the origin, along
/// either axis, than this: the largest field and 250 pixels.
pub const REACH: i64 = 1_000_250_000_000_000;

/// How many sideways biases a new ball can be given: those from `-UNIT` up to,
/// and not including, `UNIT`.
pub const BIASES: usize = 2_000;

/// The direction in which a ball sets out: the vector `(bias, UNIT)` scaled to
/// length `UNIT`, each component rounded toward zero.
pub open spec fn launch_direction(bias: int) -> Vector {
    let norm = root(bias * bias + UNIT * UNIT);
    Vector { x: sign(bias) * (magnitude(bias) * UNIT / norm), y: UNIT * UNIT / norm }
}

/// Whether `bias` is a sideways bias that a new ball can be given.
pub open spec fn is_bias(bias: int) -> bool {
    -UNIT <= bias < UNIT
}

/// Whether a place lies within `REACH` of the origin along both axes.
pub open spec fn within_reach(pos: Vector) -> bool {
    -REACH <= pos.x <= REACH && -REACH <= pos.y <= REACH
}

/// A ball: where it is and where it is heading.
pub struct BallModel {
    pub rect: Region,
    pub vel: Vector,
}

impl BallModel {
    /// A new ball with its top-left corner at `pos`, heading down with the given
    /// sideways bias.
    pub open spec fn launched(pos: Vector, bias: int) -> BallModel {
        BallModel {
            rect: Region { x: pos.x, y: pos.y, w: BALL_SIZE as int, h: BALL_SIZE as int },
            vel: launch_direction(bias),
        }
    }

    /// Whether the ball is a new ball at `pos`, whatever its bias.
    pub open spec fn is_launch(self, pos: Vector) -> bool {
        exists|bias: int| is_bias(bias) && self == #[trigger] BallModel::launched(pos, bias)
    }

    /// The ball after `dt` microseconds in a field of width `field_w`: moved along
    /// its direction, then turned to the right where it has left the field on the
    /// left, to the left where it has left it on the right, and down where it has
    /// left it at the top.
    pub open spec fn after(self, dt: int, field_w: int) -> BallModel {
        let x = self.rect.x + self.vel.x * dt * BALL_SPEED;
        let y = self.rect.y + self.vel.y * dt * BALL_SPEED;
        BallModel {
            rect: Region { x, y, ..self.rect },
            vel: Vector {
                x: if x > field_w - self.rect.w {
                    -UNIT as int
                } else if x < 0 {
                    UNIT as int
                } else {
                    self.vel.x
                },
                y: if y < 0 {
                    UNIT as int
                } else {
                    self.vel.y
                },
            },
        }
    }

    /// Whether the ball has passed the bottom of a field of height `field_h`.
    pub open spec fn fallen(self, field_h: int) -> bool {
        self.rect.y >= field_h
    }

    /// The ball after meeting the resting rectangle `b`.
    pub open spec fn bounced(self, b: Region) -> BallModel {
        let after = resolve(self.rect, self.vel, b);
        BallModel { rect: after.0, vel: after.1 }
    }

    /// The ball has its fixed size and no component of its direction exceeds one.
    pub open spec fn shaped(self) -> bool {
        &&& self.rect.w == BALL_SIZE
        &&& self.rect.h == BALL_SIZE
        &&& -UNIT <= self.vel.x <= UNIT
        &&& -UNIT <= self.vel.y <= UNIT
    }

    /// What holds of a ball at any moment of a game: it is shaped, it lies at most
    /// one step beyond `REACH`, and where it lies beyond `REACH` to the left, to the
    /// right or at the top it is not heading further out.
    pub open spec fn in_flight(self) -> bool {
        &&& self.shaped()
        &&& -REACH - MAX_STEP <= self.rect.x <= REACH + MAX_STEP
        &&& -REACH - MAX_STEP <= self.rect.y <= REACH + MAX_STEP
        &&& self.rect.x < -REACH ==> self.vel.x >= 0
        &&& self.rect.x > REACH ==> self.vel.x <= 0
        &&& self.rect.y < -REACH ==> self.vel.y >= 0
    }

    /// What holds of a ball between two ticks: it is in flight and not below `REACH`.
    pub open spec fn settled(self) -> bool {
        self.in_flight() && self.rect.y <= REACH
    }
}

/// A ball.
#[derive(Clone, Copy, Debug, PartialEq, Eq, Structural)]
pub struct Ball {
    pub rect: Rect,
    pub vel: Vec2,
}

impl View for Ball {
    type V = BallModel;

    open spec fn view(&self) -> BallModel {
        BallModel { rect: self.rect@, vel: self.vel@ }
    }
}

/// The balls that a vector holds.
pub open spec fn ball_models(balls: Seq<Ball>) -> Seq<BallModel> {
    Seq::new(balls.len(), |i: int| balls[i]@)
}

/// A ball that was settled is in flight after an update.
pub proof fn lemma_update_keeps_flight(b: BallModel, dt: int, field_w: int)
    requires
        b.settled(),
        0 <= dt <= MAX_DT,
        0 <= field_w <= MAX_FIELD,
    ensures
        b.after(dt, field_w).in_flight(),
{
    lemma_travel_bounds(b.vel.x, dt);
    lemma_travel_bounds(b.vel.y, dt);
}

/// A ball in flight is in flight after meeting an obstacle, and where it touched
/// the obstacle it lies within `REACH`.
pub proof fn lemma_bounce_keeps_flight(b: BallModel, obstacle: Region)
    requires
        b.in_flight(),
        obstacle.obstacle(),
    ensures
        b.bounced(obstacle).in_flight(),
        b.rect.overlaps(obstacle) ==> within_reach(b.bounced(obstacle).rect.point()),
        !b.rect.overlaps(obstacle) ==> b.bounced(obstacle) == b,
        b.rect.y <= REACH ==> b.bounced(obstacle).rect.y <= REACH,
{
    if b.rect.overlaps(obstacle) {
        lemma_resolve_is_small(b.rect, b.vel, obstacle);
    }
}

/// A new ball within `REACH` is settled.
pub proof fn lemma_launch_is_settled(b: BallModel, pos: Vector)
    requires
        b.is_launch(pos),
        within_reach(pos),
    ensures
        b.settled(),
        b.rect.point() == pos,
{
    let bias = choose|bias: int| is_bias(bias) && b == #[trigger] BallModel::launched(pos, bias);
    lemma_launch_direction_bounds(bias);
}

/// The components of a launch direction stay within one, and the ball heads down.
pub proof fn lemma_launch_direction_bounds(bias: int)
    requires
        -UNIT <= bias <= UNIT,
    ensures
        -UNIT <= launch_direction(bias).x <= UNIT,
        0 < launch_direction(bias).y <= UNIT,
        bias >= 0 ==> launch_direction(bias).x >= 0,
        bias <= 0 ==> launch_direction(bias).x <= 0,
{
    let n = bias * bias + UNIT * UNIT;
    let m = magnitude(bias);
    assert(0 <= bias * bias <= 1_000_000) by (nonlinear_arith)
        requires
            -1000 <= bias <= 1000,
    ;
    assert(m * m == bias * bias) by (nonlinear_arith)
        requires
            m == magnitude(bias),
    ;
    assert(1_000_000 <= n <= 2_000_000);
    assert(exists|r: int| is_root(r, n)) by {
        lemma_root_exists(n);
    }
    let norm = root(n);
    assert(is_root(norm, n));
    assert(1000 <= norm <= 2000 && m <= norm) by (nonlinear_arith)
        requires
            is_root(norm, n),
            n == bias * bias + 1_000_000,
            m * m == bias * bias,
            0 <= m <= 1000,
            1_000_000 <= n <= 2_000_000,
    ;
    assert(0 <= m * 1000 / norm <= 1000) by (nonlinear_arith)
        requires
            0 <= m <= norm,
            norm > 0,
    ;
    assert(0 < 1_000_000int / norm <= 1000) by (nonlinear_arith)
        requires
            1000 <= norm <= 2000,
    ;
    assert(sign(bias) * (m * 1000 / norm) == if bias < 0 {
        -(m * 1000 / norm)
    } else if bias == 0 {
        0
    } else {
        m * 1000 / norm
    }) by (nonlinear_arith);
}

impl Ball {
    /// The ball has its fixed size, its rectangle is well formed, and no component
    /// of its direction exceeds one.
    pub open spec fn wf(&self) -> bool {
        &&& self.rect.wf()
        &&& self@.shaped()
    }

    /// The direction in which a ball with the given sideways bias sets out.
    pub fn direction(bias: i64) -> (v: Vec2)
        requires
            -UNIT <= bias <= UNIT,
        ensures
            v@ == launch_direction(bias as int),
            -UNIT <= v.x <= UNIT,
            0 < v.y <= UNIT,
    {
        let m: i64 = if bias < 0 { -bias } else { bias };
        assert(m * m == bias * bias && 0 <= m * m <= 1_000_000) by (nonlinear_arith)
            requires
                m == magnitude(bias as int),
                -1000 <= bias <= 1000,
        ;
        let n: i64 = m * m + UNIT * UNIT;
        let found: u64 = integer_root(n as u64);
        assert(found <= 2000) by (nonlinear_arith)
            requires
                found * found <= n,
                n <= 2_000_000,
        ;
        let norm: i64 = found as i64;
        proof {
            lemma_launch_direction_bounds(bias as int);
            assert(1000 <= norm) by (nonlinear_arith)
                requires
                    is_root(norm as int, n as int),
                    n >= 1_000_000,
            ;
            assert(0 <= m * 1000 <= 1_000_000) by (nonlinear_arith)
                requires
                    0 <= m <= 1000,
            ;
            assert(0 <= (m * 1000) / (norm as int) <= 1_000_000) by (nonlinear_arith)
                requires
                    0 <= m * 1000 <= 1_000_000,
                    norm >= 1000,
            ;
        }
        let across: i64 = m * UNIT / norm;
        let down: i64 = UNIT * UNIT / norm;
        assert(sign(bias as int) * (m * 1000 / (norm as int)) == if bias < 0 {
            -(m * 1000 / (norm as int))
        } else if bias == 0 {
            0
        } else {
            m * 1000 / (norm as int)
        }) by (nonlinear_arith);
        if bias < 0 {
            Vec2 { x: -across, y: down }
        } else if bias == 0 {
            Vec2 { x: 0, y: down }
        } else {
            Vec2 { x: across, y: down }
        }
    }

    /// A new ball with its top-left corner at `pos`, heading down with the given
    /// sideways bias.
    pub fn launch(pos: Vec2, bias: i64) -> (b: Ball)
        requires
            -UNIT <= bias <= UNIT,
        ensures
            b@ == BallModel::launched(pos@, bias as int),
            b@.shaped(),
    {
        Ball { rect: Rect::new(pos.x, pos.y, BALL_SIZE, BALL_SIZE), vel: Ball::direction(bias) }
    }

    /// A new ball with its top-left corner at `pos`, heading down with a sideways
    /// bias drawn at random.
    pub fn new(pos: Vec2) -> (b: Ball)
        ensures
            b@.is_launch(pos@),
            b@.shaped(),
    {
        let drawn: usize = random_below(0, BIASES);
        let bias: i64 = drawn as i64 - UNIT;
        let b = Ball::launch(pos, bias);
        assert(is_bias(bias as int) && b@ == BallModel::launched(pos@, bias as int));
        b
    }

    /// Moves the ball for `dt` microseconds along its direction and turns it back
    /// where it has left a field of width `field_w` at a side or at the top.
    pub fn update(&mut self, dt: i64, field_w: i64)
        requires
            old(self).wf(),
            0 <= dt <= MAX_DT,
            0 <= field_w <= MAX_FIELD,
        ensures
            final(self)@ == old(self)@.after(dt as int, field_w as int),
            final(self)@.shaped(),
    {
        let across: i64 = travel(self.vel.x, dt);
        let down: i64 = travel(self.vel.y, dt);
        self.rect.x = self.rect.x + across;
        self.rect.y = self.rect.y + down;
        if self.rect.x < 0 {
            self.vel.x = UNIT;
        }
        if self.rect.x > field_w - self.rect.w {
            self.vel.x = -UNIT;
        }
        if self.rect.y < 0 {
            self.vel.y = UNIT;
        }
    }

    /// Whether the ball is as a ball is between two ticks.
    pub fn is_settled(&self) -> (ok: bool)
        ensures
            ok == self@.settled(),
    {
        self.rect.w == BALL_SIZE && self.rect.h == BALL_SIZE && -UNIT <= self.vel.x && self.vel.x <= UNIT
            && -UNIT <= self.vel.y && self.vel.y <= UNIT && -REACH - MAX_STEP <= self.rect.x
            && self.rect.x <= REACH + MAX_STEP && -REACH - MAX_STEP <= self.rect.y && self.rect.y
            <= REACH && (self.rect.x >= -REACH || self.vel.x >= 0) && (self.rect.x <= REACH
            || self.vel.x <= 0) && (self.rect.y >= -REACH || self.vel.y >= 0)
    }

    /// Whether the ball has passed the bottom of a field of height `field_h`.
    pub fn fallen(&self, field_h: i64) -> (f: bool)
        ensures
            f == self@.fallen(field_h as int),
    {
        self.rect.y >= field_h
    }
}

/// How far a ball with direction component `v` moves along that axis in `dt`
/// microseconds.
fn travel(v: i64, dt: i64) -> (d: i64)
    requires
        -UNIT <= v <= UNIT,
        0 <= dt <= MAX_DT,
    ensures
        d == v * dt * BALL_SPEED,
        -MAX_STEP <= d <= MAX_STEP,
        v >= 0 ==> d >= 0,
        v <= 0 ==> d <= 0,
{
    proof {
        lemma_travel_bounds(v as int, dt as int);
    }
    v * dt * BALL_SPEED
}

/// One update moves a ball by at most `MAX_STEP` along an axis, and not against
/// its direction.
pub proof fn lemma_travel_bounds(v: int, dt: int)
    requires
        -UNIT <= v <= UNIT,
        0 <= dt <= MAX_DT,
    ensures
        -1_000_000_000 <= v * dt <= 1_000_000_000,
        -MAX_STEP <= v * dt * BALL_SPEED <= MAX_STEP,
        v >= 0 ==> v * dt * BALL_SPEED >= 0,
        v <= 0 ==> v * dt * BALL_SPEED <= 0,
{
    assert(-1_000_000_000 <= v * dt <= 1_000_000_000 && (v >= 0 ==> v * dt >= 0) && (v <= 0 ==> v
        * dt <= 0)) by (nonlinear_arith)
        requires
            -1000 <= v <= 1000,
            0 <= dt <= 1_000_000,
    ;
}

} // verus!
