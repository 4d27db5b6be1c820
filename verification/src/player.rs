//! The paddle.

use vstd::prelude::*;
use crate::geometry::{larger, smaller, Rect, Region, Vec2, Vector};
use crate::units::{
    BALL_SIZE, MAX_DT, MAX_FIELD, PLAYER_HEIGHT, PLAYER_RAISE, PLAYER_SPEED, PLAYER_WIDTH, UNIT,
};

verus! {

/// How far above the paddle's top edge a ball is served: 50 pixels.
pub const SERVE_RAISE: i64 = 50_000_000_000;

/// The direction in which the held keys steer: -1 to the left, 1 to the right,
/// 0 with none or both.
pub open spec fn steering(left: bool, right: bool) -> int {
    (if right { 1int } else { 0int }) - (if left { 1int } else { 0int })
}

/// The paddle's place in a field of the given size at the start of a game:
/// centred, a fixed distance above the bottom.
pub open spec fn player_start(field_w: int, field_h: int) -> Region {
    Region {
        x: field_w / 2 - PLAYER_WIDTH / 2,
        y: field_h - PLAYER_RAISE,
        w: PLAYER_WIDTH as int,
        h: PLAYER_HEIGHT as int,
    }
}

/// Where a ball is served: above the paddle, its left edge half a ball to the
/// right of the paddle's centre.
pub open spec fn serve_position(player: Region) -> Vector {
    Vector { x: player.x + player.w / 2 + BALL_SIZE / 2, y: player.y - SERVE_RAISE }
}

/// The paddle `p` after `dt` microseconds with the given keys held, in a field of
/// width `field_w`: moved, then held back at the left edge, then at the right one.
pub open spec fn player_after(p: Region, dt: int, left: bool, right: bool, field_w: int) -> Region {
    let moved = p.x + steering(left, right) * UNIT * dt * PLAYER_SPEED;
    Region { x: smaller(larger(moved, 0), field_w - p.w), ..p }
}

/// Whether `p` can be the paddle: it has the paddle's size and lies no further out
/// than a field can put it.
pub open spec fn player_placed(p: Region) -> bool {
    &&& p.w == PLAYER_WIDTH
    &&& p.h == PLAYER_HEIGHT
    &&& -PLAYER_WIDTH <= p.x <= MAX_FIELD
    &&& -PLAYER_RAISE <= p.y <= MAX_FIELD
}

/// One call of the paddle's update: what was held, for how long, in how wide a field.
pub struct Steer {
    pub dt: int,
    pub left: bool,
    pub right: bool,
    pub field_w: int,
}

/// The paddle `p` after the updates `steers`, first to last.
pub open spec fn player_after_all(p: Region, steers: Seq<Steer>) -> Region
    decreases steers.len(),
{
    if steers.len() == 0 {
        p
    } else {
        let s = steers.last();
        player_after(player_after_all(p, steers.drop_last()), s.dt, s.left, s.right, s.field_w)
    }
}

/// The paddle: a rectangle of fixed size that only moves sideways.
#[derive(Clone, Copy, Debug, PartialEq, Eq, Structural)]
pub struct Player {
    pub rect: Rect,
}

impl View for Player {
    type V = Region;

    open spec fn view(&self) -> Region {
        self.rect@
    }
}

impl Player {
    /// The paddle has its fixed size and lies no further out than a field can put it.
    pub open spec fn wf(&self) -> bool {
        player_placed(self@)
    }

    /// A paddle at its starting place in a field of the given size.
    pub fn new(field_w: i64, field_h: i64) -> (p: Player)
        requires
            0 <= field_w <= MAX_FIELD,
            0 <= field_h <= MAX_FIELD,
        ensures
            p@ == player_start(field_w as int, field_h as int),
            p.wf(),
    {
        Player {
            rect: Rect::new(
                field_w / 2 - PLAYER_WIDTH / 2,
                field_h - PLAYER_RAISE,
                PLAYER_WIDTH,
                PLAYER_HEIGHT,
            ),
        }
    }

    /// Whether the paddle is well formed.
    pub fn is_placed(&self) -> (ok: bool)
        ensures
            ok == self.wf(),
    {
        self.rect.w == PLAYER_WIDTH && self.rect.h == PLAYER_HEIGHT && -PLAYER_WIDTH <= self.rect.x
            && self.rect.x <= MAX_FIELD && -PLAYER_RAISE <= self.rect.y && self.rect.y <= MAX_FIELD
    }

    /// Where a ball is served.
    pub fn serve_position(&self) -> (pos: Vec2)
        requires
            self.wf(),
        ensures
            pos@ == serve_position(self@),
    {
        Vec2 { x: self.rect.x + self.rect.w / 2 + BALL_SIZE / 2, y: self.rect.y - SERVE_RAISE }
    }

    /// Moves the paddle for `dt` microseconds in the direction of the held keys and
    /// keeps it in a field of width `field_w`.
    pub fn update(&mut self, dt: i64, left: bool, right: bool, field_w: i64)
        requires
            old(self).wf(),
            0 <= dt <= MAX_DT,
            0 <= field_w <= MAX_FIELD,
        ensures
            final(self)@ == player_after(old(self)@, dt as int, left, right, field_w as int),
            final(self).wf(),
    {
        let mut x_move: i64 = 0;
        if left {
            x_move = x_move - 1;
        }
        if right {
            x_move = x_move + 1;
        }
        assert(x_move == steering(left, right));
        let step: i64 = UNIT * dt * PLAYER_SPEED;
        assert(steering(left, right) * UNIT * dt * PLAYER_SPEED == x_move * step) by (nonlinear_arith)
            requires
                x_move == steering(left, right),
                step == UNIT * dt * PLAYER_SPEED,
        ;
        if x_move < 0 {
            self.rect.x = self.rect.x - step;
        } else if x_move > 0 {
            self.rect.x = self.rect.x + step;
        }
        if self.rect.x < 0 {
            self.rect.x = 0;
        }
        if self.rect.x > field_w - self.rect.w {
            self.rect.x = field_w - self.rect.w;
        }
    }
}

/// An update keeps the paddle placed.
pub proof fn lemma_player_stays_placed(p: Region, dt: int, left: bool, right: bool, field_w: int)
    requires
        player_placed(p),
        0 <= field_w <= MAX_FIELD,
    ensures
        player_placed(player_after(p, dt, left, right, field_w)),
{
}

/// One update leaves the paddle inside a field that is at least as wide as the
/// paddle, wherever it stood, whatever was held and however long.
pub proof fn lemma_player_stays_in_field(p: Region, dt: int, left: bool, right: bool, field_w: int)
    requires
        field_w >= p.w,
    ensures
        0 <= player_after(p, dt, left, right, field_w).x <= field_w - p.w,
        player_after(p, dt, left, right, field_w).right() <= field_w,
        player_after(p, dt, left, right, field_w).y == p.y,
        player_after(p, dt, left, right, field_w).w == p.w,
        player_after(p, dt, left, right, field_w).h == p.h,
{
}

/// After any sequence of updates, each in a field at least as wide as the paddle,
/// the paddle lies inside the field of the last update.
pub proof fn lemma_player_stays_in_field_always(p: Region, steers: Seq<Steer>)
    requires
        steers.len() > 0,
        forall|i: int| 0 <= i < steers.len() ==> (#[trigger] steers[i]).field_w >= p.w,
    ensures
        0 <= player_after_all(p, steers).x <= steers.last().field_w - p.w,
        player_after_all(p, steers).w == p.w,
    decreases steers.len(),
{
    let before = steers.drop_last();
    if before.len() > 0 {
        lemma_player_stays_in_field_always(p, before);
    }
    let s = steers.last();
    lemma_player_stays_in_field(player_after_all(p, before), s.dt, s.left, s.right, s.field_w);
}

} // verus!
