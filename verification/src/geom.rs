//! Integer sizes and rectangles.
use vstd::prelude::*;

verus! {

/// A rectangle as plain numbers: left edge, top edge, width and height.
pub type Xywh = (i32, i32, u32, u32);

/// Whether a rectangle has an area and all of its edges fit in `i32`.
pub open spec fn rect_ok(r: Xywh) -> bool {
    &&& 0 < r.2
    &&& 0 < r.3
    &&& r.0 + r.2 <= i32::MAX
    &&& r.1 + r.3 <= i32::MAX
    &&& r.2 <= i32::MAX
    &&& r.3 <= i32::MAX
}

/// The larger of two numbers.
pub open spec fn larger(a: int, b: int) -> int {
    if a < b {
        b
    } else {
        a
    }
}

/// The smaller of two numbers.
pub open spec fn smaller(a: int, b: int) -> int {
    if a < b {
        a
    } else {
        b
    }
}

/// The area that two rectangles share, unless there is none.
pub open spec fn shared_area(a: Xywh, b: Xywh) -> Option<Xywh> {
    let left = larger(a.0 as int, b.0 as int);
    let top = larger(a.1 as int, b.1 as int);
    let right = smaller(a.0 + a.2, b.0 + b.2);
    let bottom = smaller(a.1 + a.3, b.1 + b.3);
    if left < right && top < bottom {
        Some((left as i32, top as i32, (right - left) as u32, (bottom - top) as u32))
    } else {
        None
    }
}

/// Calls `tiny_skia_path::IntSize::from_wh`, which takes every size but those with a
/// zero width or a zero height, and hands the two numbers back.
#[verifier::external_body]
fn path_size(width: u32, height: u32) -> (r: Option<(u32, u32)>)
    ensures
        r == (if width > 0 && height > 0 {
            Some((width, height))
        } else {
            None
        }),
{
    tiny_skia_path::IntSize::from_wh(width, height).map(|s| s.dimensions())
}

/// Calls `tiny_skia_path::IntRect::from_xywh`, which takes every rectangle that has an
/// area and whose sides and edges fit in `i32`, and hands the four numbers back.
#[verifier::external_body]
fn path_rect(x: i32, y: i32, width: u32, height: u32) -> (r: Option<Xywh>)
    ensures
        r == (if rect_ok((x, y, width, height)) {
            Some((x, y, width, height))
        } else {
            None
        }),
{
    tiny_skia_path::IntRect::from_xywh(x, y, width, height).map(
        |r| (r.x(), r.y(), r.width(), r.height()),
    )
}

/// Calls `tiny_skia_path::IntSize::to_int_rect`, which puts a size at a position. It
/// panics where the result is no rectangle.
#[verifier::external_body]
fn path_size_to_rect(width: u32, height: u32, x: i32, y: i32) -> (r: Xywh)
    requires
        rect_ok((x, y, width, height)),
    ensures
        r == (x, y, width, height),
{
    let r = tiny_skia_path::IntSize::from_wh(width, height).unwrap().to_int_rect(x, y);
    (r.x(), r.y(), r.width(), r.height())
}

/// Calls `tiny_skia_path::IntRect::intersect`, which returns the area that two
/// rectangles share, or nothing where they share none.
#[verifier::external_body]
fn path_intersect(a: Xywh, b: Xywh) -> (r: Option<Xywh>)
    requires
        rect_ok(a),
        rect_ok(b),
    ensures
        r == shared_area(a, b),
{
    let a = tiny_skia_path::IntRect::from_xywh(a.0, a.1, a.2, a.3).unwrap();
    let b = tiny_skia_path::IntRect::from_xywh(b.0, b.1, b.2, b.3).unwrap();
    a.intersect(&b).map(|r| (r.x(), r.y(), r.width(), r.height()))
}

/// An integer size.
///
/// Width and height are positive.
#[derive(Clone, Copy, Debug, PartialEq, Eq, Hash)]
pub struct IntSize {
    width: u32,
    height: u32,
}

impl IntSize {
    /// The width.
    pub closed spec fn w(self) -> u32 {
        self.width
    }

    /// The height.
    pub closed spec fn h(self) -> u32 {
        self.height
    }

    /// Whether the size covers anything.
    pub open spec fn valid(self) -> bool {
        self.w() > 0 && self.h() > 0
    }

    /// Creates a size, unless one of its sides is zero.
    pub fn from_wh(width: u32, height: u32) -> (r: Option<IntSize>)
        ensures
            r is Some <==> width > 0 && height > 0,
            r matches Some(s) ==> s.valid() && s.w() == width && s.h() == height,
    {
        match path_size(width, height) {
            Some((width, height)) => Some(IntSize { width, height }),
            None => None,
        }
    }

    /// Returns width.
    pub fn width(&self) -> (r: u32)
        ensures
            r == self.w(),
    {
        self.width
    }

    /// Returns height.
    pub fn height(&self) -> (r: u32)
        ensures
            r == self.h(),
    {
        self.height
    }

    /// Converts into a rectangle at the provided position.
    pub fn to_int_rect(&self, x: i32, y: i32) -> (r: IntRect)
        requires
            rect_ok((x, y, self.w(), self.h())),
        ensures
            r.xywh() == (x, y, self.w(), self.h()),
            r.valid(),
    {
        let r = path_size_to_rect(self.width, self.height, x, y);
        IntRect { x: r.0, y: r.1, width: r.2, height: r.3 }
    }
}

/// An integer rectangle.
///
/// Width and height are positive, and all of the edges fit in `i32`.
#[derive(Clone, Copy, Debug, PartialEq, Eq, Hash)]
pub struct IntRect {
    x: i32,
    y: i32,
    width: u32,
    height: u32,
}

impl IntRect {
    /// The rectangle's four numbers.
    pub closed spec fn xywh(self) -> Xywh {
        (self.x, self.y, self.width, self.height)
    }

    /// Whether the rectangle has an area and edges that fit in `i32`.
    pub open spec fn valid(self) -> bool {
        rect_ok(self.xywh())
    }

    /// Creates a rectangle, unless it has no area or an edge that does not fit in `i32`.
    pub fn from_xywh(x: i32, y: i32, width: u32, height: u32) -> (r: Option<IntRect>)
        ensures
            r is Some <==> rect_ok((x, y, width, height)),
            r matches Some(r) ==> r.valid() && r.xywh() == (x, y, width, height),
    {
        match path_rect(x, y, width, height) {
            Some((x, y, width, height)) => Some(IntRect { x, y, width, height }),
            None => None,
        }
    }

    /// Returns rect's left edge.
    pub fn left(&self) -> (r: i32)
        ensures
            r == self.xywh().0,
    {
        self.x
    }

    /// Returns rect's top edge.
    pub fn top(&self) -> (r: i32)
        ensures
            r == self.xywh().1,
    {
        self.y
    }

    /// Returns rect's width.
    pub fn width(&self) -> (r: u32)
        ensures
            r == self.xywh().2,
    {
        self.width
    }

    /// Returns rect's height.
    pub fn height(&self) -> (r: u32)
        ensures
            r == self.xywh().3,
    {
        self.height
    }

    /// Returns rect's size.
    pub fn size(&self) -> (r: IntSize)
        requires
            self.valid(),
        ensures
            r.valid(),
            r.w() == self.xywh().2,
            r.h() == self.xywh().3,
    {
        IntSize { width: self.width, height: self.height }
    }

    /// Returns an intersection of two rectangles, unless they share nothing.
    pub fn intersect(&self, other: &IntRect) -> (r: Option<IntRect>)
        requires
            self.valid(),
            other.valid(),
        ensures
            r is Some <==> shared_area(self.xywh(), other.xywh()) is Some,
            r matches Some(r) ==> r.valid() && Some(r.xywh()) == shared_area(
                self.xywh(),
                other.xywh(),
            ),
    {
        let a = (self.x, self.y, self.width, self.height);
        let b = (other.x, other.y, other.width, other.height);
        match path_intersect(a, b) {
            Some((x, y, width, height)) => Some(IntRect { x, y, width, height }),
            None => None,
        }
    }
}

/// A rectangle on a screen: no coordinate of it is negative.
///
/// Width and height are positive.
#[derive(Clone, Copy, Debug, PartialEq, Eq, Structural)]
pub struct ScreenIntRect {
    pub x: u32,
    pub y: u32,
    pub width: u32,
    pub height: u32,
}

impl ScreenIntRect {
    /// Whether the rectangle has an area.
    pub open spec fn valid(self) -> bool {
        self.width > 0 && self.height > 0
    }

    /// Creates a rectangle, unless it has no area or one of its numbers does not fit in `i32`.
    pub fn from_xywh(x: u32, y: u32, width: u32, height: u32) -> (r: Option<ScreenIntRect>)
        ensures
            r == (if x <= i32::MAX && y <= i32::MAX && 0 < width <= i32::MAX && 0 < height
                <= i32::MAX {
                Some(ScreenIntRect { x, y, width, height })
            } else {
                None
            }),
    {
        let max: u32 = i32::MAX as u32;
        if x > max || y > max || width > max || height > max || width == 0 || height == 0 {
            return None;
        }
        Some(ScreenIntRect { x, y, width, height })
    }

    /// Creates a rectangle from numbers that are known to be good.
    pub fn from_xywh_safe(x: u32, y: u32, width: u32, height: u32) -> (r: ScreenIntRect)
        requires
            width > 0,
            height > 0,
        ensures
            r == (ScreenIntRect { x, y, width, height }),
            r.valid(),
    {
        ScreenIntRect { x, y, width, height }
    }
}

/// An intersection lies in both rectangles.
pub proof fn law_shared_area_is_inside(a: Xywh, b: Xywh)
    requires
        rect_ok(a),
        rect_ok(b),
    ensures
        shared_area(a, b) matches Some(r) ==> {
            &&& rect_ok(r)
            &&& a.0 <= r.0 && r.0 + r.2 <= a.0 + a.2
            &&& a.1 <= r.1 && r.1 + r.3 <= a.1 + a.3
            &&& b.0 <= r.0 && r.0 + r.2 <= b.0 + b.2
            &&& b.1 <= r.1 && r.1 + r.3 <= b.1 + b.3
        },
{
}

/// A point lies in both rectangles if and only if it lies in their intersection.
pub proof fn law_shared_area_is_everything_shared(a: Xywh, b: Xywh, px: int, py: int)
    requires
        rect_ok(a),
        rect_ok(b),
    ensures
        (a.0 <= px < a.0 + a.2 && a.1 <= py < a.1 + a.3 && b.0 <= px < b.0 + b.2 && b.1 <= py < b.1
            + b.3) <==> (shared_area(a, b) matches Some(r) && r.0 <= px < r.0 + r.2 && r.1 <= py
            < r.1 + r.3),
{
}

} // verus!
