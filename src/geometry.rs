use vstd::prelude::*;

verus! {

/// A point in two dimensions.
#[derive(Clone, Copy, Debug, PartialEq, Eq, Structural)]
pub struct Point2D<T> {
    pub x: T,
    pub y: T,
}

/// A width and a height.
#[derive(Clone, Copy, Debug, PartialEq, Eq, Structural)]
pub struct Size2D<T> {
    pub width: T,
    pub height: T,
}

/// An axis-aligned rectangle given by its top-left corner and its size.
#[derive(Clone, Copy, Debug, PartialEq, Eq, Structural)]
pub struct Rect<T> {
    pub origin: Point2D<T>,
    pub size: Size2D<T>,
}

impl<T> Point2D<T> {
    pub fn new(x: T, y: T) -> (r: Point2D<T>)
        ensures
            r.x == x,
            r.y == y,
    {
        Point2D { x, y }
    }
}

impl<T> Size2D<T> {
    pub fn new(width: T, height: T) -> (r: Size2D<T>)
        ensures
            r.width == width,
            r.height == height,
    {
        Size2D { width, height }
    }
}

impl<T> Rect<T> {
    pub fn new(origin: Point2D<T>, size: Size2D<T>) -> (r: Rect<T>)
        ensures
            r.origin == origin,
            r.size == size,
    {
        Rect { origin, size }
    }
}

/// The area of a rectangle of texels.
pub open spec fn area(r: Rect<u32>) -> int {
    r.size.width * r.size.height
}

/// The right edge (exclusive) of a rectangle of texels.
pub open spec fn max_x(r: Rect<u32>) -> int {
    r.origin.x + r.size.width
}

/// The bottom edge (exclusive) of a rectangle of texels.
pub open spec fn max_y(r: Rect<u32>) -> int {
    r.origin.y + r.size.height
}

/// `inner` lies entirely within `outer`.
pub open spec fn contains_rect(outer: Rect<u32>, inner: Rect<u32>) -> bool {
    &&& outer.origin.x <= inner.origin.x
    &&& outer.origin.y <= inner.origin.y
    &&& max_x(inner) <= max_x(outer)
    &&& max_y(inner) <= max_y(outer)
}

/// The two rectangles share no texel.
pub open spec fn disjoint(a: Rect<u32>, b: Rect<u32>) -> bool {
    ||| max_x(a) <= b.origin.x
    ||| max_x(b) <= a.origin.x
    ||| max_y(a) <= b.origin.y
    ||| max_y(b) <= a.origin.y
}

/// A texel `(x, y)` of a `w` by `h` image, row by row, has an index below `w * h`.
pub proof fn lemma_row_major_index(w: int, h: int, x: int, y: int)
    requires
        0 <= x < w,
        0 <= y < h,
    ensures
        0 <= y * w + x < w * h,
{
    assert(y * w + x < w * h) by (nonlinear_arith)
        requires
            0 <= x < w,
            0 <= y < h,
    ;
    assert(0 <= y * w) by (nonlinear_arith)
        requires
            0 <= y,
            0 <= w,
    ;
}

/// Row-major indices name texels one to one.
pub proof fn lemma_row_major_unique(w: int, x0: int, y0: int, x1: int, y1: int)
    requires
        0 <= x0 < w,
        0 <= x1 < w,
        0 <= y0,
        0 <= y1,
        y0 * w + x0 == y1 * w + x1,
    ensures
        x0 == x1,
        y0 == y1,
{
    if y0 < y1 {
        assert(y0 * w + w <= y1 * w) by (nonlinear_arith)
            requires
                y0 + 1 <= y1,
                0 <= w,
        ;
    } else if y1 < y0 {
        assert(y1 * w + w <= y0 * w) by (nonlinear_arith)
            requires
                y1 + 1 <= y0,
                0 <= w,
        ;
    }
}

} // verus!
