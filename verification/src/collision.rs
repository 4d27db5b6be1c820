//! Collision of a moving rectangle with a resting one: detection, separation
//! and reflection in one step.

use vstd::prelude::*;
use crate::geometry::{magnitude, Rect, Region, Vec2, Vector};

verus! {

/// The moving rectangle `a` and its velocity `v` after meeting the resting rectangle `b`.
///
/// Nothing changes where the two share no point. Otherwise the shape of the common
/// region picks the axis: wider than tall bounces along y, anything else along x.
/// On the chosen axis `a` is pushed back by the common region's height, away from
/// the centre of `b`, and the velocity component is made to point away from it.
pub open spec fn resolve(a: Region, v: Vector, b: Region) -> (Region, Vector) {
    match a.intersect(b) {
        None => (a, v),
        Some(common) => {
            let to = a.toward(b);
            if common.w > common.h {
                (
                    Region { y: a.y - to.y * common.h, ..a },
                    Vector {
                        y: if to.y > 0 {
                            -magnitude(v.y)
                        } else {
                            magnitude(v.y)
                        },
                        ..v
                    },
                )
            } else {
                (
                    Region { x: a.x - to.x * common.h, ..a },
                    Vector {
                        x: if to.x < 0 {
                            magnitude(v.x)
                        } else {
                            -magnitude(v.x)
                        },
                        ..v
                    },
                )
            }
        },
    }
}

/// The magnitude of `v`.
pub fn abs(v: i64) -> (m: i64)
    requires
        v > i64::MIN,
    ensures
        m == magnitude(v as int),
{
    if v < 0 {
        -v
    } else {
        v
    }
}

/// The product of a sign and a length.
fn scaled(s: i64, length: i64) -> (p: i64)
    requires
        -1 <= s <= 1,
        length > i64::MIN,
    ensures
        p == s * length,
        magnitude(p as int) <= magnitude(length as int),
{
    assert(s * length == if s > 0 {
        length as int
    } else if s < 0 {
        -length
    } else {
        0
    }) by (nonlinear_arith)
        requires
            -1 <= s <= 1,
    ;
    if s > 0 {
        length
    } else if s < 0 {
        -length
    } else {
        0
    }
}

/// Tests `a` against `b` and, where they share a point, separates and reflects `a`.
/// Returns whether they did.
pub fn resolve_collision(a: &mut Rect, vel: &mut Vec2, b: &Rect) -> (hit: bool)
    requires
        old(a).wf(),
        b.wf(),
        old(vel).x > i64::MIN,
        old(vel).y > i64::MIN,
    ensures
        hit == old(a)@.overlaps(b@),
        (final(a)@, final(vel)@) == resolve(old(a)@, old(vel)@, b@),
        !hit ==> *final(a) == *old(a) && *final(vel) == *old(vel),
{
    let common = match a.intersect(b) {
        Some(common) => common,
        None => {
            return false;
        },
    };
    let to = a.toward(b);
    if common.w > common.h {
        a.y = a.y - scaled(to.y, common.h);
        if to.y > 0 {
            vel.y = -abs(vel.y);
        } else {
            vel.y = abs(vel.y);
        }
    } else {
        a.x = a.x - scaled(to.x, common.h);
        if to.x < 0 {
            vel.x = abs(vel.x);
        } else {
            vel.x = -abs(vel.x);
        }
    }
    true
}

/// Two rectangles that share no point leave each other alone: the moving one keeps
/// its place and its velocity.
pub proof fn lemma_disjoint_is_untouched(a: Region, v: Vector, b: Region)
    requires
        !a.overlaps(b),
    ensures
        resolve(a, v, b) == (a, v),
{
}

/// The common region is the same whichever rectangle is asked.
pub proof fn lemma_intersect_is_symmetric(a: Region, b: Region)
    requires
        a.valid(),
        b.valid(),
    ensures
        a.intersect(b) == b.intersect(a),
        a.intersect(b) is Some <==> a.overlaps(b),
{
}

/// The common region lies in both rectangles.
pub proof fn lemma_intersect_is_within(a: Region, b: Region)
    requires
        a.intersect(b) is Some,
    ensures
        a.intersect(b)->0.within(a),
        a.intersect(b)->0.within(b),
        a.intersect(b)->0.w >= 0,
        a.intersect(b)->0.h >= 0,
{
}

/// A collision moves the rectangle along one axis only, by at most the common
/// region's height, keeps its extent, and changes at most the sign of one
/// velocity component.
pub proof fn lemma_resolve_is_small(a: Region, v: Vector, b: Region)
    requires
        a.valid(),
        b.valid(),
        a.overlaps(b),
    ensures
        resolve(a, v, b).0.w == a.w,
        resolve(a, v, b).0.h == a.h,
        resolve(a, v, b).0.x == a.x || resolve(a, v, b).0.y == a.y,
        magnitude(resolve(a, v, b).0.x - a.x) <= a.intersect(b)->0.h,
        magnitude(resolve(a, v, b).0.y - a.y) <= a.intersect(b)->0.h,
        a.intersect(b)->0.h <= a.h,
        a.intersect(b)->0.h <= b.h,
        magnitude(resolve(a, v, b).1.x) == magnitude(v.x),
        magnitude(resolve(a, v, b).1.y) == magnitude(v.y),
{
    let common = a.intersect(b)->0;
    let to = a.toward(b);
    assert(magnitude(to.x * common.h) <= common.h && magnitude(to.y * common.h) <= common.h)
        by (nonlinear_arith)
        requires
            -1 <= to.x <= 1,
            -1 <= to.y <= 1,
            common.h >= 0,
    ;
}

/// A rectangle that overlaps a resting one from above, with a common region wider
/// than tall, is lifted by the common region's height and leaves with a velocity
/// that does not point down; nothing changes along x.
pub proof fn lemma_bounce_from_above(a: Region, v: Vector, b: Region)
    requires
        a.valid(),
        b.valid(),
        a.overlaps(b),
        a.intersect(b)->0.w > a.intersect(b)->0.h,
        a.double_center().y < b.double_center().y,
    ensures
        resolve(a, v, b).0.y == a.y - a.intersect(b)->0.h,
        resolve(a, v, b).0.x == a.x,
        resolve(a, v, b).0.w == a.w,
        resolve(a, v, b).0.h == a.h,
        resolve(a, v, b).1.y == -magnitude(v.y),
        resolve(a, v, b).1.y <= 0,
        resolve(a, v, b).1.x == v.x,
        a.top() <= b.top() && a.bottom() <= b.bottom() ==> resolve(a, v, b).0.bottom() == b.top(),
{
}

} // verus!
