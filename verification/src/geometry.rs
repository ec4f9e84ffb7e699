//! Points, sizes and axis-aligned rectangles on the canvas.
//!
//! Coordinates are fixed-point thousandths of a pixel.

use vstd::prelude::*;
use crate::fixed::{SCALE, trunc_div, lerp_spec, lemma_trunc_div_bounds, lemma_lerp_between, div_toward_zero, lerp};

verus! {

/// Largest magnitude a rectangle edge may have.
pub const COORD_LIMIT: i64 = 0x1_0000_0000_0000;

/// Largest magnitude a pointer coordinate may have.
pub const POINTER_LIMIT: i64 = 0x8000_0000_0000;

/// A position on the canvas.
#[derive(Clone, Copy, Debug, PartialEq, Eq, Structural)]
pub struct Point {
    pub x: i64,
    pub y: i64,
}

/// The size of the canvas, in whole pixels.
#[derive(Clone, Copy, Debug, PartialEq, Eq, Structural)]
pub struct Size {
    pub width: u32,
    pub height: u32,
}

/// An axis-aligned rectangle, given by its four edges.
#[derive(Clone, Copy, Debug, PartialEq, Eq, Structural)]
pub struct Rect {
    pub min_x: i64,
    pub min_y: i64,
    pub max_x: i64,
    pub max_y: i64,
}

impl Point {
    /// Both coordinates are small enough to centre a rectangle on the point.
    pub open spec fn in_range(self) -> bool {
        &&& -POINTER_LIMIT <= self.x <= POINTER_LIMIT
        &&& -POINTER_LIMIT <= self.y <= POINTER_LIMIT
    }

    /// Tells whether a rectangle may be centred on the point.
    pub fn is_in_range(&self) -> (ok: bool)
        ensures
            ok == self.in_range(),
    {
        -POINTER_LIMIT <= self.x && self.x <= POINTER_LIMIT && -POINTER_LIMIT <= self.y && self.y
            <= POINTER_LIMIT
    }
}

impl Size {
    /// Canvas width in thousandths of a pixel.
    pub open spec fn width_units(self) -> int {
        self.width as int * SCALE as int
    }

    /// Canvas height in thousandths of a pixel.
    pub open spec fn height_units(self) -> int {
        self.height as int * SCALE as int
    }

    /// A canvas with no area.
    pub open spec fn is_empty(self) -> bool {
        self.width == 0 || self.height == 0
    }
}

impl Rect {
    /// All four edges lie within the coordinate limit.
    pub open spec fn bounded(self) -> bool {
        &&& -COORD_LIMIT <= self.min_x <= COORD_LIMIT
        &&& -COORD_LIMIT <= self.min_y <= COORD_LIMIT
        &&& -COORD_LIMIT <= self.max_x <= COORD_LIMIT
        &&& -COORD_LIMIT <= self.max_y <= COORD_LIMIT
    }

    /// The edges are bounded and so are the width and the height.
    pub open spec fn wf(self) -> bool {
        &&& self.bounded()
        &&& -COORD_LIMIT <= self.max_x - self.min_x <= COORD_LIMIT
        &&& -COORD_LIMIT <= self.max_y - self.min_y <= COORD_LIMIT
    }

    pub open spec fn spec_width(self) -> int {
        self.max_x - self.min_x
    }

    pub open spec fn spec_height(self) -> int {
        self.max_y - self.min_y
    }

    /// The rectangle with the given top-left corner and size.
    pub open spec fn spec_from_min_size(x: int, y: int, width: int, height: int) -> Rect {
        Rect {
            min_x: x as i64,
            min_y: y as i64,
            max_x: (x + width) as i64,
            max_y: (y + height) as i64,
        }
    }

    /// The rectangle of the given size whose centre is `center`.
    pub open spec fn spec_from_center_size(center: Point, width: int, height: int) -> Rect {
        Rect::spec_from_min_size(
            center.x - trunc_div(width, 2),
            center.y - trunc_div(height, 2),
            width,
            height,
        )
    }

    /// The point lies in the rectangle, edges included.
    pub open spec fn spec_contains(self, p: Point) -> bool {
        &&& self.min_x <= p.x <= self.max_x
        &&& self.min_y <= p.y <= self.max_y
    }

    /// The point lies in the rectangle, right and bottom edges excluded.
    pub open spec fn covers(self, p: Point) -> bool {
        &&& self.min_x <= p.x < self.max_x
        &&& self.min_y <= p.y < self.max_y
    }

    /// Each edge moved a fraction `t` of the way from `self` to `to`.
    pub open spec fn spec_lerp(self, to: Rect, t: int) -> Rect {
        Rect {
            min_x: lerp_spec(self.min_x as int, to.min_x as int, t) as i64,
            min_y: lerp_spec(self.min_y as int, to.min_y as int, t) as i64,
            max_x: lerp_spec(self.max_x as int, to.max_x as int, t) as i64,
            max_y: lerp_spec(self.max_y as int, to.max_y as int, t) as i64,
        }
    }

    pub fn width(&self) -> (w: i64)
        requires
            self.bounded(),
        ensures
            w == self.spec_width(),
    {
        self.max_x - self.min_x
    }

    pub fn height(&self) -> (h: i64)
        requires
            self.bounded(),
        ensures
            h == self.spec_height(),
    {
        self.max_y - self.min_y
    }

    /// The rectangle with the given top-left corner and size.
    pub fn from_min_size(x: i64, y: i64, width: i64, height: i64) -> (r: Rect)
        requires
            -COORD_LIMIT <= x <= COORD_LIMIT,
            -COORD_LIMIT <= y <= COORD_LIMIT,
            -COORD_LIMIT <= width <= COORD_LIMIT,
            -COORD_LIMIT <= height <= COORD_LIMIT,
            -COORD_LIMIT <= x + width <= COORD_LIMIT,
            -COORD_LIMIT <= y + height <= COORD_LIMIT,
        ensures
            r == Rect::spec_from_min_size(x as int, y as int, width as int, height as int),
            r.wf(),
            r.min_x == x,
            r.min_y == y,
            r.spec_width() == width,
            r.spec_height() == height,
    {
        Rect { min_x: x, min_y: y, max_x: x + width, max_y: y + height }
    }

    /// The rectangle of the given size whose centre is `center`.
    pub fn from_center_size(center: Point, width: i64, height: i64) -> (r: Rect)
        requires
            center.in_range(),
            -COORD_LIMIT <= width <= COORD_LIMIT,
            -COORD_LIMIT <= height <= COORD_LIMIT,
        ensures
            r == Rect::spec_from_center_size(center, width as int, height as int),
            r.wf(),
            r.spec_width() == width,
            r.spec_height() == height,
    {
        proof {
            lemma_trunc_div_bounds(width as int, 2);
            lemma_trunc_div_bounds(height as int, 2);
            assert(width >= 0 ==> trunc_div(width as int, 2) * 2 <= width);
            assert(width <= 0 ==> trunc_div(width as int, 2) * 2 >= width);
            assert(height >= 0 ==> trunc_div(height as int, 2) * 2 <= height);
            assert(height <= 0 ==> trunc_div(height as int, 2) * 2 >= height);
        }
        let half_w: i64 = div_toward_zero(width, 2);
        let half_h: i64 = div_toward_zero(height, 2);
        Rect::from_min_size(center.x - half_w, center.y - half_h, width, height)
    }

    /// Tells whether the point lies in the rectangle, edges included.
    pub fn contains(&self, p: Point) -> (inside: bool)
        ensures
            inside == self.spec_contains(p),
    {
        self.min_x <= p.x && p.x <= self.max_x && self.min_y <= p.y && p.y <= self.max_y
    }

    /// Moves each edge a fraction `t` of the way from `self` to `to`.
    pub fn lerp(&self, to: &Rect, t: i64) -> (r: Rect)
        requires
            self.bounded(),
            to.bounded(),
            0 <= t <= SCALE,
        ensures
            r == self.spec_lerp(*to, t as int),
            r.bounded(),
    {
        proof {
            lemma_lerp_between(self.min_x as int, to.min_x as int, t as int);
            lemma_lerp_between(self.min_y as int, to.min_y as int, t as int);
            lemma_lerp_between(self.max_x as int, to.max_x as int, t as int);
            lemma_lerp_between(self.max_y as int, to.max_y as int, t as int);
        }
        Rect {
            min_x: lerp(self.min_x, to.min_x, t),
            min_y: lerp(self.min_y, to.min_y, t),
            max_x: lerp(self.max_x, to.max_x, t),
            max_y: lerp(self.max_y, to.max_y, t),
        }
    }
}

/// A rectangle interpolated by nothing is where it was, and interpolated by
/// the whole fraction it is the target.
pub proof fn law_lerp_reaches_both_ends(from: Rect, to: Rect)
    ensures
        from.spec_lerp(to, 0) == from,
        from.spec_lerp(to, SCALE as int) == to,
{
    lemma_lerp_between(from.min_x as int, to.min_x as int, 0);
    lemma_lerp_between(from.min_y as int, to.min_y as int, 0);
    lemma_lerp_between(from.max_x as int, to.max_x as int, 0);
    lemma_lerp_between(from.max_y as int, to.max_y as int, 0);
}

} // verus!
