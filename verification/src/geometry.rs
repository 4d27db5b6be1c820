//! Axis-aligned rectangles and two-dimensional vectors.

use vstd::prelude::*;
use crate::units::{MAX_COORD, MAX_FIELD, PLAYER_HEIGHT, PLAYER_WIDTH};

verus! {

/// The sign of an integer: -1, 0 or 1.
pub open spec fn sign(v: int) -> int {
    if v < 0 {
        -1
    } else if v == 0 {
        0
    } else {
        1
    }
}

/// The magnitude of an integer.
pub open spec fn magnitude(v: int) -> int {
    if v < 0 {
        -v
    } else {
        v
    }
}

/// The larger of two integers.
pub open spec fn larger(a: int, b: int) -> int {
    if a >= b {
        a
    } else {
        b
    }
}

/// The smaller of two integers.
pub open spec fn smaller(a: int, b: int) -> int {
    if a <= b {
        a
    } else {
        b
    }
}

/// A vector of the plane, over the integers.
pub struct Vector {
    pub x: int,
    pub y: int,
}

/// An axis-aligned rectangle of the plane: its top-left corner and its extent.
pub struct Region {
    pub x: int,
    pub y: int,
    pub w: int,
    pub h: int,
}

impl Region {
    /// The extent is not negative.
    pub open spec fn valid(self) -> bool {
        self.w >= 0 && self.h >= 0
    }

    /// The top-left corner.
    pub open spec fn point(self) -> Vector {
        Vector { x: self.x, y: self.y }
    }

    pub open spec fn left(self) -> int {
        self.x
    }

    pub open spec fn top(self) -> int {
        self.y
    }

    pub open spec fn right(self) -> int {
        self.x + self.w
    }

    pub open spec fn bottom(self) -> int {
        self.y + self.h
    }

    /// The centre, with both coordinates doubled so that they stay integers.
    pub open spec fn double_center(self) -> Vector {
        Vector { x: 2 * self.x + self.w, y: 2 * self.y + self.h }
    }

    /// Whether the two rectangles share a point; touching edges count.
    pub open spec fn overlaps(self, other: Region) -> bool {
        &&& self.left() <= other.right()
        &&& other.left() <= self.right()
        &&& self.top() <= other.bottom()
        &&& other.top() <= self.bottom()
    }

    /// The region common to both rectangles, if they share a point.
    pub open spec fn intersect(self, other: Region) -> Option<Region> {
        let left = larger(self.left(), other.left());
        let top = larger(self.top(), other.top());
        let right = smaller(self.right(), other.right());
        let bottom = smaller(self.bottom(), other.bottom());
        if right < left || bottom < top {
            None
        } else {
            Some(Region { x: left, y: top, w: right - left, h: bottom - top })
        }
    }

    /// Per axis, the sign of the way from this rectangle's centre to the other's.
    pub open spec fn toward(self, other: Region) -> Vector {
        Vector {
            x: sign(other.double_center().x - self.double_center().x),
            y: sign(other.double_center().y - self.double_center().y),
        }
    }

    /// Whether the rectangle can be an obstacle of the game: it is valid, no larger
    /// than the paddle, and lies no further out than a field can put it.
    pub open spec fn obstacle(self) -> bool {
        &&& 0 <= self.w <= PLAYER_WIDTH
        &&& 0 <= self.h <= PLAYER_HEIGHT
        &&& -MAX_FIELD <= self.x <= MAX_FIELD
        &&& -MAX_FIELD <= self.y <= MAX_FIELD
    }

    /// Whether every point of this rectangle lies in the other.
    pub open spec fn within(self, other: Region) -> bool {
        &&& other.left() <= self.left()
        &&& self.right() <= other.right()
        &&& other.top() <= self.top()
        &&& self.bottom() <= other.bottom()
    }
}

/// A vector with machine integers as components.
#[derive(Clone, Copy, Debug, PartialEq, Eq, Structural)]
pub struct Vec2 {
    pub x: i64,
    pub y: i64,
}

impl View for Vec2 {
    type V = Vector;

    open spec fn view(&self) -> Vector {
        Vector { x: self.x as int, y: self.y as int }
    }
}

/// An axis-aligned rectangle with machine integers as coordinates.
#[derive(Clone, Copy, Debug, PartialEq, Eq, Structural)]
pub struct Rect {
    pub x: i64,
    pub y: i64,
    pub w: i64,
    pub h: i64,
}

impl View for Rect {
    type V = Region;

    open spec fn view(&self) -> Region {
        Region { x: self.x as int, y: self.y as int, w: self.w as int, h: self.h as int }
    }
}

/// The places that a vector holds.
pub open spec fn places(points: Seq<Vec2>) -> Seq<Vector> {
    Seq::new(points.len(), |i: int| points[i]@)
}

/// The sign of `v`.
pub fn signum(v: i64) -> (s: i64)
    ensures
        s == sign(v as int),
{
    if v < 0 {
        -1
    } else if v == 0 {
        0
    } else {
        1
    }
}

impl Rect {
    /// The extent is not negative, and no coordinate or extent exceeds `MAX_COORD`
    /// in magnitude.
    pub open spec fn wf(&self) -> bool {
        &&& -MAX_COORD <= self.x <= MAX_COORD
        &&& -MAX_COORD <= self.y <= MAX_COORD
        &&& 0 <= self.w <= MAX_COORD
        &&& 0 <= self.h <= MAX_COORD
    }

    pub fn new(x: i64, y: i64, w: i64, h: i64) -> (r: Rect)
        ensures
            r.x == x,
            r.y == y,
            r.w == w,
            r.h == h,
    {
        Rect { x, y, w, h }
    }

    /// The top-left corner.
    pub fn point(&self) -> (p: Vec2)
        ensures
            p.x == self.x,
            p.y == self.y,
    {
        Vec2 { x: self.x, y: self.y }
    }

    pub fn right(&self) -> (r: i64)
        requires
            self.wf(),
        ensures
            r == self@.right(),
    {
        self.x + self.w
    }

    pub fn bottom(&self) -> (b: i64)
        requires
            self.wf(),
        ensures
            b == self@.bottom(),
    {
        self.y + self.h
    }

    /// The centre, with both coordinates doubled.
    pub fn double_center(&self) -> (c: Vec2)
        requires
            self.wf(),
        ensures
            c@ == self@.double_center(),
    {
        Vec2 { x: 2 * self.x + self.w, y: 2 * self.y + self.h }
    }

    /// Per axis, the sign of the way from this rectangle's centre to the other's.
    pub fn toward(&self, other: &Rect) -> (d: Vec2)
        requires
            self.wf(),
            other.wf(),
        ensures
            d@ == self@.toward(other@),
    {
        let a = self.double_center();
        let b = other.double_center();
        Vec2 { x: signum(b.x - a.x), y: signum(b.y - a.y) }
    }

    /// The region common to both rectangles, or `None` where they share no point.
    pub fn intersect(&self, other: &Rect) -> (r: Option<Rect>)
        requires
            self.wf(),
            other.wf(),
        ensures
            r is Some <==> self@.overlaps(other@),
            r is Some ==> r->0.wf(),
            match r {
                Some(o) => self@.intersect(other@) == Some(o@),
                None => self@.intersect(other@) is None,
            },
    {
        let left = if self.x >= other.x { self.x } else { other.x };
        let top = if self.y >= other.y { self.y } else { other.y };
        let right = if self.right() <= other.right() { self.right() } else { other.right() };
        let bottom = if self.bottom() <= other.bottom() { self.bottom() } else { other.bottom() };
        if right < left || bottom < top {
            None
        } else {
            Some(Rect { x: left, y: top, w: right - left, h: bottom - top })
        }
    }
}

} // verus!
