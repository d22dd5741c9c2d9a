use vstd::prelude::*;

verus! {

/// A point in screen space. Coordinates are integer screen units; the scale
/// (whole pixels, subpixel steps) is the caller's choice and never matters to
/// the logic here, which only compares coordinates.
#[derive(Clone, Copy, Debug, PartialEq, Eq, Structural)]
pub struct Position {
    pub x: i32,
    pub y: i32,
}

impl Position {
    pub fn new(x: i32, y: i32) -> (r: Position)
        ensures
            r == (Position { x, y }),
    {
        Position { x, y }
    }
}

impl Default for Position {
    /// The origin, used as the pointer position before any motion was seen.
    fn default() -> (r: Position)
        ensures
            r == (Position { x: 0, y: 0 }),
    {
        Position { x: 0, y: 0 }
    }
}

/// A widget's extent, in the same screen units as `Position`.
#[derive(Clone, Copy, Debug, PartialEq, Eq, Structural)]
pub struct Size {
    pub width: u32,
    pub height: u32,
}

impl Size {
    pub fn new(width: u32, height: u32) -> (r: Size)
        ensures
            r == (Size { width, height }),
    {
        Size { width, height }
    }
}

/// An axis-aligned rectangle, stored as the closed intervals `[x[0], x[1]]`
/// and `[y[0], y[1]]` that it spans. The endpoints are widened to `i64` so
/// that `origin + size` never overflows.
#[derive(Clone, Copy, Debug)]
pub struct Bounds {
    pub x: [i64; 2],
    pub y: [i64; 2],
}

/// A point lies within bounds when each coordinate lies in the closed
/// interval: a point on an edge or corner counts as inside.
pub open spec fn spec_within(b: Bounds, p: Position) -> bool {
    &&& b.x[0] <= p.x <= b.x[1]
    &&& b.y[0] <= p.y <= b.y[1]
}

impl Bounds {
    pub fn new(position: Position, size: Size) -> (r: Bounds)
        ensures
            r.x[0] == position.x,
            r.x[1] == position.x + size.width,
            r.y[0] == position.y,
            r.y[1] == position.y + size.height,
    {
        Bounds {
            x: [position.x as i64, position.x as i64 + size.width as i64],
            y: [position.y as i64, position.y as i64 + size.height as i64],
        }
    }

    pub fn within(&self, position: &Position) -> (r: bool)
        ensures
            r == spec_within(*self, *position),
    {
        self.x[0] <= position.x as i64 && position.x as i64 <= self.x[1]
            && self.y[0] <= position.y as i64 && position.y as i64 <= self.y[1]
    }
}

} // verus!
