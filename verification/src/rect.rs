//! Screen rectangles, written `(x, y, width, height)`.

use vstd::prelude::*;

verus! {

/// How far two spans, each a start and a length, overlap; not positive where they
/// do not.
pub open spec fn span_overlap(a: int, alen: int, b: int, blen: int) -> int {
    let end = if a + alen <= b + blen {
        a + alen
    } else {
        b + blen
    };
    let start = if a >= b {
        a
    } else {
        b
    };
    end - start
}

/// The area that two rectangles share.
pub open spec fn common_area(a: (int, int, int, int), b: (int, int, int, int)) -> int {
    let x = span_overlap(a.0, a.2, b.0, b.2);
    let y = span_overlap(a.1, a.3, b.1, b.3);
    if x > 0 && y > 0 {
        x * y
    } else {
        0
    }
}

/// A rectangle of machine integers as one of integers.
pub open spec fn ints(r: (i32, i32, i32, i32)) -> (int, int, int, int) {
    (r.0 as int, r.1 as int, r.2 as int, r.3 as int)
}

/// The point lies in the rectangle: inclusive at the top-left corner, exclusive at
/// the bottom-right edge.
pub open spec fn holds_point(r: (int, int, int, int), x: int, y: int) -> bool {
    r.0 <= x < r.0 + r.2 && r.1 <= y < r.1 + r.3
}

fn overlap_of_spans(a: i32, alen: i32, b: i32, blen: i32) -> (r: i64)
    ensures
        r == span_overlap(a as int, alen as int, b as int, blen as int),
        r <= alen,
{
    let aend: i64 = a as i64 + alen as i64;
    let bend: i64 = b as i64 + blen as i64;
    let end: i64 = if aend <= bend {
        aend
    } else {
        bend
    };
    let start: i64 = if a >= b {
        a as i64
    } else {
        b as i64
    };
    end - start
}

/// The area that two rectangles share, in square pixels.
pub fn rect_overlap(a: (i32, i32, i32, i32), b: (i32, i32, i32, i32)) -> (r: i64)
    ensures
        r == common_area(ints(a), ints(b)),
        0 <= r < 0x4000_0000_0000_0000,
{
    let x: i64 = overlap_of_spans(a.0, a.2, b.0, b.2);
    let y: i64 = overlap_of_spans(a.1, a.3, b.1, b.3);
    if x > 0 && y > 0 {
        assert(0 < x * y < 0x4000_0000_0000_0000) by (nonlinear_arith)
            requires
                0 < x <= 0x7fff_ffff,
                0 < y <= 0x7fff_ffff,
        ;
        x * y
    } else {
        0
    }
}

/// Whether the point `(x, y)` lies inside rectangle `(rx, ry, rw, rh)`:
/// inclusive at the top-left corner, exclusive at the bottom-right edge, so
/// abutting elements do not count as inside each other.
pub fn origin_within(x: i32, y: i32, rx: i32, ry: i32, rw: i32, rh: i32) -> (r: bool)
    ensures
        r == holds_point(ints((rx, ry, rw, rh)), x as int, y as int),
{
    x >= rx && (x as i64) < rx as i64 + rw as i64 && y >= ry && (y as i64) < ry as i64 + rh as i64
}

/// Sharing area is mutual.
pub proof fn common_area_is_symmetric(a: (int, int, int, int), b: (int, int, int, int))
    ensures
        common_area(a, b) == common_area(b, a),
{
}

} // verus!
