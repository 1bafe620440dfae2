use vstd::prelude::*;

verus! {

/// A point on the display, in pixels. The origin is the top-left corner;
/// `x` grows to the right and `y` grows downward.
#[derive(Clone, Copy, Debug, PartialEq, Eq, Structural)]
pub struct Point {
    pub x: i32,
    pub y: i32,
}

/// A size in pixels.
#[derive(Clone, Copy, Debug, PartialEq, Eq, Structural)]
pub struct Size {
    pub width: u32,
    pub height: u32,
}

impl Point {
    pub fn new(x: i32, y: i32) -> (r: Point)
        ensures
            r.x == x && r.y == y,
    {
        Point { x, y }
    }

    pub fn zero() -> (r: Point)
        ensures
            r.x == 0 && r.y == 0,
    {
        Point { x: 0, y: 0 }
    }
}

impl Size {
    pub fn new(width: u32, height: u32) -> (r: Size)
        ensures
            r.width == width && r.height == height,
    {
        Size { width, height }
    }

    pub fn zero() -> (r: Size)
        ensures
            r.width == 0 && r.height == 0,
    {
        Size { width: 0, height: 0 }
    }
}


/// `a + b` clamped to `u32`.
pub open spec fn sat_add_u32(a: u32, b: u32) -> u32 {
    if a + b > u32::MAX {
        u32::MAX
    } else {
        (a + b) as u32
    }
}

/// `a - b` clamped to zero.
pub open spec fn sat_sub_u32(a: u32, b: u32) -> u32 {
    if a < b {
        0u32
    } else {
        (a - b) as u32
    }
}

/// `a + b` clamped to `i32`.
pub open spec fn sat_add_i32(a: i32, b: i32) -> i32 {
    if a + b > i32::MAX {
        i32::MAX
    } else if a + b < i32::MIN {
        i32::MIN
    } else {
        (a + b) as i32
    }
}

/// The greater of two widths or heights.
pub open spec fn max_u32(a: u32, b: u32) -> u32 {
    if a >= b {
        a
    } else {
        b
    }
}

/// The smaller of two widths or heights.
pub open spec fn min_u32(a: u32, b: u32) -> u32 {
    if a <= b {
        a
    } else {
        b
    }
}

/// Adds two pixel amounts, clamping at the largest representable one.
pub fn add_sat(a: u32, b: u32) -> (r: u32)
    ensures
        r == sat_add_u32(a, b),
{
    if a > u32::MAX - b {
        u32::MAX
    } else {
        a + b
    }
}

/// Subtracts two pixel amounts, clamping at zero.
pub fn sub_sat(a: u32, b: u32) -> (r: u32)
    ensures
        r == sat_sub_u32(a, b),
{
    if a < b {
        0
    } else {
        a - b
    }
}

/// Adds two coordinates, clamping at the representable range.
pub fn add_sat_i32(a: i32, b: i32) -> (r: i32)
    ensures
        r == sat_add_i32(a, b),
{
    let wide: i64 = a as i64 + b as i64;
    if wide > i32::MAX as i64 {
        i32::MAX
    } else if wide < i32::MIN as i64 {
        i32::MIN
    } else {
        wide as i32
    }
}

/// The greater of two pixel amounts.
pub fn max_px(a: u32, b: u32) -> (r: u32)
    ensures
        r == max_u32(a, b),
{
    if a >= b {
        a
    } else {
        b
    }
}

/// The smaller of two pixel amounts.
pub fn min_px(a: u32, b: u32) -> (r: u32)
    ensures
        r == min_u32(a, b),
{
    if a <= b {
        a
    } else {
        b
    }
}

impl Size {
    /// The component-wise smaller of two sizes.
    pub open spec fn spec_min(self, other: Size) -> Size {
        Size { width: min_u32(self.width, other.width), height: min_u32(self.height, other.height) }
    }

    /// The component-wise smaller of two sizes.
    pub fn min(self, other: Size) -> (r: Size)
        ensures
            r == self.spec_min(other),
    {
        Size { width: min_px(self.width, other.width), height: min_px(self.height, other.height) }
    }

    /// The component-wise saturating sum of two sizes.
    pub open spec fn spec_add(self, other: Size) -> Size {
        Size {
            width: sat_add_u32(self.width, other.width),
            height: sat_add_u32(self.height, other.height),
        }
    }

    pub open spec fn is_zero(self) -> bool {
        self.width == 0 && self.height == 0
    }
}

/// An axis-aligned rectangle on the display.
#[derive(Clone, Copy, Debug, PartialEq, Eq, Structural)]
pub struct Rectangle {
    pub top_left: Point,
    pub size: Size,
}

impl Rectangle {
    pub fn new(top_left: Point, size: Size) -> (r: Rectangle)
        ensures
            r == (Rectangle { top_left, size }),
    {
        Rectangle { top_left, size }
    }

    /// The rectangle at the origin with no extent.
    pub fn zero() -> (r: Rectangle)
        ensures
            r == spec_zero_rect(),
    {
        Rectangle { top_left: Point { x: 0, y: 0 }, size: Size { width: 0, height: 0 } }
    }

    /// Whether the point lies inside the rectangle.  The left and top
    /// edges are inside; the right and bottom edges are not.
    pub open spec fn spec_contains(self, p: Point) -> bool {
        &&& self.top_left.x <= p.x
        &&& p.x < self.top_left.x + self.size.width
        &&& self.top_left.y <= p.y
        &&& p.y < self.top_left.y + self.size.height
    }

    /// Whether the point lies inside the rectangle.
    pub fn contains(&self, p: Point) -> (r: bool)
        ensures
            r == self.spec_contains(p),
    {
        p.x >= self.top_left.x && (p.x as i64) < self.top_left.x as i64 + self.size.width as i64
            && p.y >= self.top_left.y && (p.y as i64) < self.top_left.y as i64
            + self.size.height as i64
    }

    /// The center of the rectangle, coordinates clamping at the
    /// representable range.
    pub open spec fn spec_center(self) -> Point {
        Point {
            x: sat_add_i32(self.top_left.x, (self.size.width / 2) as i32),
            y: sat_add_i32(self.top_left.y, (self.size.height / 2) as i32),
        }
    }

    /// The center of the rectangle.
    pub fn center(&self) -> (r: Point)
        ensures
            r == self.spec_center(),
    {
        Point {
            x: add_sat_i32(self.top_left.x, (self.size.width / 2) as i32),
            y: add_sat_i32(self.top_left.y, (self.size.height / 2) as i32),
        }
    }
}

pub open spec fn spec_zero_rect() -> Rectangle {
    Rectangle { top_left: Point { x: 0, y: 0 }, size: Size { width: 0, height: 0 } }
}

} // verus!
