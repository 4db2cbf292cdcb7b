//! Where windows go: anchors, tiles, frames, monitors and animated transitions.
//! Rectangles are written `(x, y, width, height)`.

use crate::actions::{Corner, CycleDirection, Side, TileFraction};
use crate::double::{
    half_even, lemma_double_close, lemma_double_exact, lemma_double_order, lemma_double_scaled,
    lemma_half_even_close, lemma_half_even_order, lemma_half_even_scaled, lemma_half_even_whole,
    lemma_shifted_is_spaced, lemma_spacing, lemma_spacing_divides, lemma_two_to_positive,
    nearest_double, round_half_even, spacing_of, to_double, two_to, LIMIT,
};
use crate::rect::{holds_point, ints};
use vstd::prelude::*;

verus! {

// === Constants ===

/// A window transition whose largest dimension change is at least this many
/// pixels is animated; smaller ones (a held nudge) apply instantly so rapid
/// auto-repeats stay responsive instead of queuing behind animation frames.
pub const ANIM_MIN_DELTA: i32 = 120;

/// Number of frames in an animated window transition.
pub const ANIM_STEPS: u32 = 16;

/// How long, in milliseconds, the last geometry commanded for a window stays
/// authoritative for follow-up nudges. The window manager applies moves
/// asynchronously, so a server read taken between rapid repeats returns the
/// pre-move position; accumulating on the own target keeps a held move key
/// gliding smoothly instead of stuttering.
pub const MOVE_CACHE_TTL_MS: u64 = 250;

// === Models ===

/// A number fits in 32 bits.
pub open spec fn fits(v: int) -> bool {
    i32::MIN <= v <= i32::MAX
}

/// All of a rectangle's numbers fit in 32 bits.
pub open spec fn rect_fits(r: (int, int, int, int)) -> bool {
    fits(r.0) && fits(r.1) && fits(r.2) && fits(r.3)
}

/// The quotient of `a` by a positive `b`, rounded toward zero.
pub open spec fn quotient(a: int, b: int) -> int {
    if a >= 0 {
        a / b
    } else {
        -((-a) / b)
    }
}

/// The larger of two numbers.
pub open spec fn larger(a: int, b: int) -> int {
    if a >= b {
        a
    } else {
        b
    }
}

/// The smaller of two numbers.
pub open spec fn smaller(a: int, b: int) -> int {
    if a <= b {
        a
    } else {
        b
    }
}

fn divide(a: i64, b: i64) -> (r: i64)
    requires
        b > 0,
        a > i64::MIN,
    ensures
        r == quotient(a as int, b as int),
{
    if a >= 0 {
        a / b
    } else {
        -((-a) / b)
    }
}

// === Anchors and tiles ===

/// Where a window of a given size stands in an area, at a corner or centred.
pub open spec fn anchored(
    area: (int, int, int, int),
    size: (int, int),
    anchor: Option<Corner>,
) -> (int, int) {
    match anchor {
        None => (
            area.0 + quotient(area.2 - size.0, 2),
            area.1 + quotient(area.3 - size.1, 2),
        ),
        Some(Corner::TopLeft) => (area.0, area.1),
        Some(Corner::TopRight) => (area.0 + area.2 - size.0, area.1),
        Some(Corner::BottomLeft) => (area.0, area.1 + area.3 - size.1),
        Some(Corner::BottomRight) => (area.0 + area.2 - size.0, area.1 + area.3 - size.1),
    }
}

fn anchor_wide(area: (i32, i32, i32, i32), size: (i32, i32), anchor: Option<Corner>) -> (r: (
    i64,
    i64,
))
    ensures
        (r.0 as int, r.1 as int) == anchored(
            ints(area),
            (size.0 as int, size.1 as int),
            anchor,
        ),
{
    let (ax, ay) = (area.0 as i64, area.1 as i64);
    let over_x: i64 = area.2 as i64 - size.0 as i64;
    let over_y: i64 = area.3 as i64 - size.1 as i64;
    match anchor {
        None => (ax + divide(over_x, 2), ay + divide(over_y, 2)),
        Some(Corner::TopLeft) => (ax, ay),
        Some(Corner::TopRight) => (ax + over_x, ay),
        Some(Corner::BottomLeft) => (ax, ay + over_y),
        Some(Corner::BottomRight) => (ax + over_x, ay + over_y),
    }
}

/// Whether a number fits in 32 bits.
pub fn fits_i32(v: i64) -> (r: bool)
    ensures
        r == fits(v as int),
{
    v >= i32::MIN as i64 && v <= i32::MAX as i64
}

/// Whether the position of an anchored window can be written down.
pub fn anchor_fits(area: (i32, i32, i32, i32), size: (i32, i32), anchor: Option<Corner>) -> (r:
    bool)
    ensures
        r == ({
            let p = anchored(ints(area), (size.0 as int, size.1 as int), anchor);
            fits(p.0) && fits(p.1)
        }),
{
    let (x, y) = anchor_wide(area, size, anchor);
    fits_i32(x) && fits_i32(y)
}

/// Top-left position for a window of size `nw`×`nh` placed at `anchor` within
/// the work area (`ax, ay, aw, ah`); `None` = centred.
pub fn anchor_pos(
    ax: i32,
    ay: i32,
    aw: i32,
    ah: i32,
    nw: i32,
    nh: i32,
    anchor: Option<Corner>,
) -> (r: (i32, i32))
    requires
        ({
            let p = anchored(ints((ax, ay, aw, ah)), (nw as int, nh as int), anchor);
            fits(p.0) && fits(p.1)
        }),
    ensures
        (r.0 as int, r.1 as int) == anchored(
            ints((ax, ay, aw, ah)),
            (nw as int, nh as int),
            anchor,
        ),
{
    let (x, y) = anchor_wide((ax, ay, aw, ah), (nw, nh), anchor);
    (x as i32, y as i32)
}

/// A quarter of an area, at a corner.
pub open spec fn quarter(area: (int, int, int, int), corner: Corner) -> (int, int, int, int) {
    let w = quotient(area.2, 2);
    let h = quotient(area.3, 2);
    let p = anchored(area, (w, h), Some(corner));
    (p.0, p.1, w, h)
}

/// Tile to a quarter of the work area.
pub fn corner_rect(area: (i32, i32, i32, i32), corner: Corner) -> (r: (i32, i32, i32, i32))
    requires
        rect_fits(quarter(ints(area), corner)),
    ensures
        ints(r) == quarter(ints(area), corner),
{
    let w: i32 = divide(area.2 as i64, 2) as i32;
    let h: i32 = divide(area.3 as i64, 2) as i32;
    let (x, y) = anchor_pos(area.0, area.1, area.2, area.3, w, h, Some(corner));
    (x, y, w, h)
}

/// Whether a quarter of an area can be written down.
pub fn corner_fits(area: (i32, i32, i32, i32), corner: Corner) -> (r: bool)
    ensures
        r == rect_fits(quarter(ints(area), corner)),
{
    let w: i32 = divide(area.2 as i64, 2) as i32;
    let h: i32 = divide(area.3 as i64, 2) as i32;
    anchor_fits(area, (w, h), Some(corner))
}

/// A fraction of a length, rounded toward zero.
pub open spec fn part(len: int, fraction: TileFraction) -> int {
    quotient(len * fraction.spec_ratio().0, fraction.spec_ratio().1)
}

/// An edge of an area at a fraction of it.
pub open spec fn tile(area: (int, int, int, int), side: Side, fraction: TileFraction) -> (
    int,
    int,
    int,
    int,
) {
    let w = part(area.2, fraction);
    let h = part(area.3, fraction);
    match side {
        Side::Left => (area.0, area.1, w, area.3),
        Side::Right => (area.0 + area.2 - w, area.1, w, area.3),
        Side::Top => (area.0, area.1, area.2, h),
        Side::Bottom => (area.0, area.1 + area.3 - h, area.2, h),
    }
}

fn part_of(len: i32, fraction: TileFraction) -> (r: i32)
    ensures
        r == part(len as int, fraction),
{
    let (num, den) = fraction.ratio();
    assert(num == 1 || num == 2);
    assert(den == 2 || den == 3);
    if num == 1 {
        divide(len as i64, den as i64) as i32
    } else {
        divide(len as i64 * 2, den as i64) as i32
    }
}

/// Tile to a screen edge at `fraction` of the work area.
pub fn tile_rect(area: (i32, i32, i32, i32), side: Side, fraction: TileFraction) -> (r: (
    i32,
    i32,
    i32,
    i32,
))
    requires
        rect_fits(tile(ints(area), side, fraction)),
    ensures
        ints(r) == tile(ints(area), side, fraction),
{
    let w: i32 = part_of(area.2, fraction);
    let h: i32 = part_of(area.3, fraction);
    match side {
        Side::Left => (area.0, area.1, w, area.3),
        Side::Right => (
            (area.0 as i64 + area.2 as i64 - w as i64) as i32,
            area.1,
            w,
            area.3,
        ),
        Side::Top => (area.0, area.1, area.2, h),
        Side::Bottom => (
            area.0,
            (area.1 as i64 + area.3 as i64 - h as i64) as i32,
            area.2,
            h,
        ),
    }
}

/// A tile lies in its area, and the halves at opposite edges cover it but for a
/// pixel that an odd length leaves over.
pub proof fn tiles_stay_in_the_area(
    area: (int, int, int, int),
    side: Side,
    fraction: TileFraction,
)
    requires
        area.2 >= 0,
        area.3 >= 0,
    ensures
        ({
            let t = tile(area, side, fraction);
            &&& area.0 <= t.0
            &&& t.0 + t.2 <= area.0 + area.2
            &&& area.1 <= t.1
            &&& t.1 + t.3 <= area.1 + area.3
            &&& t.2 >= 0
            &&& t.3 >= 0
        }),
        ({
            let left = tile(area, Side::Left, TileFraction::Half);
            let right = tile(area, Side::Right, TileFraction::Half);
            right.0 - (left.0 + left.2) == area.2 % 2
        }),
{
}

/// Whether a tile can be written down.
pub fn tile_fits(area: (i32, i32, i32, i32), side: Side, fraction: TileFraction) -> (r: bool)
    ensures
        r == rect_fits(tile(ints(area), side, fraction)),
{
    let w: i32 = part_of(area.2, fraction);
    let h: i32 = part_of(area.3, fraction);
    match side {
        Side::Left | Side::Top => true,
        Side::Right => fits_i32(area.0 as i64 + area.2 as i64 - w as i64),
        Side::Bottom => fits_i32(area.1 as i64 + area.3 as i64 - h as i64),
    }
}

/// The rectangle a move asks for: at least one pixel each way.
pub open spec fn sized(r: (int, int, int, int)) -> (int, int, int, int) {
    (r.0, r.1, larger(r.2, 1), larger(r.3, 1))
}

/// Moving and resizing by deltas; at least one pixel is left each way.
pub open spec fn adjusted(r: (int, int, int, int), dx: int, dy: int, dw: int, dh: int) -> (
    int,
    int,
    int,
    int,
) {
    sized((r.0 + dx, r.1 + dy, r.2 + dw, r.3 + dh))
}

/// Add to a window's position and size.
pub fn adjust_rect(r: (i32, i32, i32, i32), dx: i32, dy: i32, dw: i32, dh: i32) -> (out: (
    i32,
    i32,
    i32,
    i32,
))
    requires
        rect_fits(adjusted(ints(r), dx as int, dy as int, dw as int, dh as int)),
    ensures
        ints(out) == adjusted(ints(r), dx as int, dy as int, dw as int, dh as int),
{
    let w: i64 = max_of(r.2 as i64 + dw as i64, 1);
    let h: i64 = max_of(r.3 as i64 + dh as i64, 1);
    (r.0 + dx, r.1 + dy, w as i32, h as i32)
}

/// Whether an adjusted rectangle can be written down.
pub fn adjust_fits(r: (i32, i32, i32, i32), dx: i32, dy: i32, dw: i32, dh: i32) -> (out: bool)
    ensures
        out == rect_fits(adjusted(ints(r), dx as int, dy as int, dw as int, dh as int)),
{
    fits_i32(r.0 as i64 + dx as i64) && fits_i32(r.1 as i64 + dy as i64) && fits_i32(
        max_of(r.2 as i64 + dw as i64, 1),
    ) && fits_i32(max_of(r.3 as i64 + dh as i64, 1))
}

// === Frames ===

/// A client rectangle grown by the frame around it, given as `(left, right, top,
/// bottom)`.
pub open spec fn framed(client: (int, int, int, int), extents: (int, int, int, int)) -> (
    int,
    int,
    int,
    int,
) {
    (
        client.0 - extents.0,
        client.1 - extents.2,
        client.2 + extents.0 + extents.1,
        client.3 + extents.2 + extents.3,
    )
}

/// A frame's position with the size of the client in it.
pub open spec fn unframed_size(frame: (int, int, int, int), extents: (int, int, int, int)) -> (
    int,
    int,
    int,
    int,
) {
    (
        frame.0,
        frame.1,
        frame.2 - extents.0 - extents.1,
        frame.3 - extents.2 - extents.3,
    )
}

/// Grow a client window's geometry outward by its frame extents
/// `(left, right, top, bottom)` to obtain the outer frame rectangle the window
/// manager draws around it. The size-wise inverse of [`moveresize_message`].
pub fn frame_geom(client: (i32, i32, i32, i32), extents: (i32, i32, i32, i32)) -> (r: (
    i32,
    i32,
    i32,
    i32,
))
    requires
        rect_fits(framed(ints(client), ints(extents))),
    ensures
        ints(r) == framed(ints(client), ints(extents)),
{
    let (x, y, w, h) = client;
    let (left, right, top, bottom) = extents;
    (
        (x as i64 - left as i64) as i32,
        (y as i64 - top as i64) as i32,
        (w as i64 + left as i64 + right as i64) as i32,
        (h as i64 + top as i64 + bottom as i64) as i32,
    )
}

/// Translate a target frame rectangle into the `(x, y, w, h)` payload of a
/// move-resize request, which expects the frame position (kept as-is) but the
/// client size (extents stripped from width and height).
pub fn moveresize_message(frame: (i32, i32, i32, i32), extents: (i32, i32, i32, i32)) -> (r: (
    i32,
    i32,
    i32,
    i32,
))
    requires
        rect_fits(unframed_size(ints(frame), ints(extents))),
    ensures
        ints(r) == unframed_size(ints(frame), ints(extents)),
{
    let (x, y, w, h) = frame;
    let (left, right, top, bottom) = extents;
    (
        x,
        y,
        (w as i64 - left as i64 - right as i64) as i32,
        (h as i64 - top as i64 - bottom as i64) as i32,
    )
}

/// A request for the frame of a client asks for that client's own size.
pub proof fn frames_and_requests_undo_each_other(
    client: (int, int, int, int),
    extents: (int, int, int, int),
)
    ensures
        unframed_size(framed(client, extents), extents).2 == client.2,
        unframed_size(framed(client, extents), extents).3 == client.3,
        unframed_size(framed(client, extents), extents).0 == framed(client, extents).0,
        unframed_size(framed(client, extents), extents).1 == framed(client, extents).1,
{
}

// === Transitions ===

pub open spec fn distance(a: int, b: int) -> int {
    if a <= b {
        b - a
    } else {
        a - b
    }
}

/// The largest change of any of the four numbers.
pub open spec fn largest_change(a: (int, int, int, int), b: (int, int, int, int)) -> int {
    larger(
        larger(distance(a.0, b.0), distance(a.1, b.1)),
        larger(distance(a.2, b.2), distance(a.3, b.3)),
    )
}

fn gap(a: i32, b: i32) -> (r: i64)
    ensures
        r == distance(a as int, b as int),
{
    if a <= b {
        b as i64 - a as i64
    } else {
        a as i64 - b as i64
    }
}

fn max_of(a: i64, b: i64) -> (r: i64)
    ensures
        r == larger(a as int, b as int),
{
    if a >= b {
        a
    } else {
        b
    }
}

/// The largest absolute change across the four geometry dimensions of `a` → `b`.
pub fn max_delta(a: (i32, i32, i32, i32), b: (i32, i32, i32, i32)) -> (r: i32)
    requires
        fits(largest_change(ints(a), ints(b))),
    ensures
        r == largest_change(ints(a), ints(b)),
{
    max_of(
        max_of(gap(a.0, b.0), gap(a.1, b.1)),
        max_of(gap(a.2, b.2), gap(a.3, b.3)),
    ) as i32
}

/// The part of the way that is left after `i` of `steps` frames, as the doubles `i/steps`
/// and `1 - i/steps` are rounded. The whole is `LIMIT`; while `i/steps` is rounded it is
/// two to the power of 85, of which any such part has 53 binary digits.
pub open spec fn way_left(i: int, steps: int) -> int {
    LIMIT - half_even(
        nearest_double(i * 0x20_0000_0000_0000_0000_0000, steps),
        0x1_0000_0000,
    )
}

/// The part of the way that an ease-out cubic has covered by the frame `i` of `steps`,
/// `1 - (1 - i/steps)³`, as doubles are rounded: the square, the cube and what they leave
/// of the whole, which is `LIMIT`.
pub open spec fn way_covered(i: int, steps: int) -> int {
    let left = way_left(i, steps);
    let square = nearest_double(left * left, 1);
    LIMIT - half_even(
        nearest_double(square * left, 1),
        0x400_0000_0000_0000_0000_0000_0000,
    )
}

/// The pixels in a part of a distance of `d`: the product as a double, rounded to the
/// nearest whole number, halves up.
pub open spec fn pixels(d: int, part: int) -> int {
    (2 * nearest_double(d * part, 1) + LIMIT) / 0x40_0000_0000_0000
}

/// Where a part of the way leads to.
pub open spec fn part_way(from: int, to: int, part: int) -> int {
    if from <= to {
        from + pixels(to - from, part)
    } else {
        from - pixels(from - to, part)
    }
}

/// One coordinate of the frame `i` of `steps`.
pub open spec fn eased(from: int, to: int, i: int, steps: int) -> int {
    part_way(from, to, way_covered(i, steps))
}

/// The frame `i` of `steps`.
pub open spec fn eased_rect(
    start: (int, int, int, int),
    target: (int, int, int, int),
    i: int,
    steps: int,
) -> (int, int, int, int) {
    (
        eased(start.0, target.0, i, steps),
        eased(start.1, target.1, i, steps),
        eased(start.2, target.2, i, steps),
        eased(start.3, target.3, i, steps),
    )
}

/// `via` lies on the way from one number to another.
pub open spec fn on_the_way(from: int, via: int, to: int) -> bool {
    from <= via <= to || from >= via >= to
}

/// `via` lies on the way from one rectangle to another, in every dimension.
pub open spec fn rect_on_the_way(
    from: (int, int, int, int),
    via: (int, int, int, int),
    to: (int, int, int, int),
) -> bool {
    on_the_way(from.0, via.0, to.0) && on_the_way(from.1, via.1, to.1) && on_the_way(
        from.2,
        via.2,
        to.2,
    ) && on_the_way(from.3, via.3, to.3)
}

proof fn lemma_powers()
    ensures
        two_to(32) == 0x1_0000_0000,
        two_to(33) == 0x2_0000_0000,
        two_to(53) == LIMIT,
        two_to(54) == 2 * LIMIT,
        two_to(85) == 0x20_0000_0000_0000_0000_0000,
        two_to(106) == 0x400_0000_0000_0000_0000_0000_0000,
        two_to(107) == 0x800_0000_0000_0000_0000_0000_0000,
        two_to(159) == 0x400_0000_0000_0000_0000_0000_0000 * LIMIT,
{
    reveal_with_fuel(two_to, 23);
    assert(two_to(21) == 0x20_0000);
    assert(two_to(33) == 0x2_0000_0000);
    assert(two_to(53) == LIMIT);
    assert(two_to(64) == 0x1_0000_0000_0000_0000);
    assert(two_to(85) == 0x20_0000_0000_0000_0000_0000);
    assert(two_to(106) == 0x400_0000_0000_0000_0000_0000_0000);
    assert(two_to(127) == 0x8000_0000_0000_0000_0000_0000_0000_0000);
    assert(two_to(148) == 0x10_0000_0000_0000_0000_0000_0000_0000_0000_0000);
}

/// Powers of two are doubles.
proof fn lemma_power_is_double(k: nat)
    ensures
        nearest_double(two_to(k), 1) == two_to(k),
{
    lemma_two_to_positive(k);
    lemma_shifted_is_spaced(1, k);
    assert(1 * two_to(k) == two_to(k) && two_to(k) * 1 == two_to(k));
    lemma_double_exact(two_to(k), 1);
}

/// The more frames have gone, the less of the way is left.
proof fn lemma_way_left(i: int, j: int, steps: int)
    requires
        0 <= i <= j <= steps,
        steps > 0,
    ensures
        0 <= way_left(j, steps) <= way_left(i, steps) <= LIMIT,
        0 <= nearest_double(i * 0x20_0000_0000_0000_0000_0000, steps)
            <= 0x20_0000_0000_0000_0000_0000,
        way_left(0, steps) == LIMIT,
        way_left(steps, steps) == 0,
{
    let unit = 0x20_0000_0000_0000_0000_0000int;
    lemma_powers();
    lemma_shifted_is_spaced(1, 85);
    lemma_double_exact(unit, steps);
    assert(unit * steps == steps * unit) by (nonlinear_arith);
    lemma_double_exact(0, steps);
    assert(0 * steps == 0);
    lemma_double_order(0, i * unit, steps);
    lemma_double_order(i * unit, j * unit, steps);
    lemma_double_order(j * unit, steps * unit, steps);
    let (low, high) = (nearest_double(i * unit, steps), nearest_double(j * unit, steps));
    lemma_half_even_whole(0, 0x1_0000_0000);
    lemma_half_even_whole(LIMIT as int, 0x1_0000_0000);
    lemma_half_even_order(0, low, 0x1_0000_0000);
    lemma_half_even_order(low, high, 0x1_0000_0000);
    lemma_half_even_order(high, unit, 0x1_0000_0000);
}

/// What is cubed stays within the whole, in order.
proof fn lemma_cubed(low: int, high: int)
    requires
        0 <= low <= high <= LIMIT,
    ensures
        0 <= low * low <= high * high <= 0x400_0000_0000_0000_0000_0000_0000,
        0 <= nearest_double(low * low, 1) <= nearest_double(high * high, 1)
            <= 0x400_0000_0000_0000_0000_0000_0000,
        0 <= nearest_double(low * low, 1) * low <= nearest_double(high * high, 1) * high,
        nearest_double(high * high, 1) * high <= 0x400_0000_0000_0000_0000_0000_0000 * LIMIT,
        0 <= nearest_double(nearest_double(low * low, 1) * low, 1) <= nearest_double(
            nearest_double(high * high, 1) * high,
            1,
        ) <= 0x400_0000_0000_0000_0000_0000_0000 * LIMIT,
{
    let whole = 0x400_0000_0000_0000_0000_0000_0000int;
    let limit = LIMIT as int;
    assert(0 <= low * low <= high * high <= limit * limit) by (nonlinear_arith)
        requires
            0 <= low <= high <= limit,
    ;
    lemma_powers();
    lemma_power_is_double(106);
    lemma_power_is_double(159);
    lemma_double_order(low * low, high * high, 1);
    lemma_double_order(high * high, whole, 1);
    let (a, b) = (nearest_double(low * low, 1), nearest_double(high * high, 1));
    assert(0 <= a * low <= b * high <= whole * limit) by (nonlinear_arith)
        requires
            0 <= low <= high <= limit,
            0 <= a <= b <= whole,
    ;
    lemma_double_order(a * low, b * high, 1);
    lemma_double_order(b * high, whole * limit, 1);
}

/// The more frames have gone, the more of the way is covered, from none of it to all.
proof fn lemma_way_covered(i: int, j: int, steps: int)
    requires
        0 <= i <= j <= steps,
        steps > 0,
    ensures
        0 <= way_covered(i, steps) <= way_covered(j, steps) <= LIMIT,
        way_covered(0, steps) == 0,
        way_covered(steps, steps) == LIMIT,
{
    let whole = 0x400_0000_0000_0000_0000_0000_0000int;
    let limit = LIMIT as int;
    lemma_way_left(i, j, steps);
    let (high, low) = (way_left(i, steps), way_left(j, steps));
    lemma_cubed(low, high);
    lemma_powers();
    lemma_power_is_double(106);
    lemma_power_is_double(159);
    lemma_double_exact(0, 1);
    lemma_half_even_whole(0, whole);
    lemma_half_even_whole(limit, whole);
    let (a, b) = (
        nearest_double(nearest_double(low * low, 1) * low, 1),
        nearest_double(nearest_double(high * high, 1) * high, 1),
    );
    lemma_half_even_order(0, a, whole);
    lemma_half_even_order(a, b, whole);
    lemma_half_even_order(b, whole * limit, whole);
    assert(limit * limit == whole);
}

/// The larger the part, the more pixels, from none to all.
proof fn lemma_pixels(d: int, low: int, high: int)
    requires
        0 <= low <= high <= LIMIT,
        0 <= d < LIMIT,
    ensures
        0 <= pixels(d, low) <= pixels(d, high) <= d,
        0 <= nearest_double(d * low, 1) <= d * LIMIT,
        pixels(d, 0) == 0,
        pixels(d, LIMIT as int) == d,
{
    let limit = LIMIT as int;
    assert(0 <= d * low <= d * high <= d * limit) by (nonlinear_arith)
        requires
            0 <= low <= high <= limit,
            d >= 0,
    ;
    lemma_powers();
    lemma_shifted_is_spaced(d, 53);
    lemma_double_exact(d * limit, 1);
    lemma_double_exact(0, 1);
    lemma_double_order(0, d * low, 1);
    lemma_double_order(d * low, d * high, 1);
    lemma_double_order(d * high, d * limit, 1);
    assert(d * 0 == 0);
}

/// The part of the way covered by the frame `i` of `steps`.
fn cover(i: u32, steps: u32) -> (r: u128)
    requires
        i <= steps,
        steps > 0,
    ensures
        r == way_covered(i as int, steps as int),
        r <= LIMIT,
{
    let unit: u128 = 0x20_0000_0000_0000_0000_0000;
    let whole: u128 = 0x400_0000_0000_0000_0000_0000_0000;
    proof {
        lemma_way_left(i as int, i as int, steps as int);
        lemma_way_covered(i as int, i as int, steps as int);
    }
    let share: u128 = to_double(i as u128 * unit, steps as u128);
    let left: u128 = LIMIT - round_half_even(share, 0x1_0000_0000);
    proof {
        lemma_cubed(left as int, left as int);
    }
    let square: u128 = left * left;
    let gap: u128 = spacing_of(square);
    let ghost (q, g) = (left as int, gap as int);
    proof {
        lemma_powers();
        lemma_spacing(square as int);
        lemma_spacing_divides(square as int, 106);
        assert(square as int / 1 == square && 1 * g == g);
        let digits = half_even(square as int, g);
        lemma_half_even_order(square as int, LIMIT * g, g);
        lemma_half_even_whole(LIMIT as int, g);
        lemma_half_even_order(0, square as int, g);
        lemma_half_even_whole(0, g);
        assert(0 * g == 0);
        assert(0 <= digits * q <= LIMIT * LIMIT) by (nonlinear_arith)
            requires
                0 <= digits <= LIMIT,
                0 <= q <= LIMIT,
        ;
        assert((digits * g) * q == (digits * q) * g) by (nonlinear_arith);
        lemma_double_scaled(digits * q, square as int);
        assert((whole as int / g) * g == whole) by (nonlinear_arith)
            requires
                whole == g * (whole as int / g),
        ;
        assert(whole as int / g > 0) by (nonlinear_arith)
            requires
                whole == g * (whole as int / g),
                whole > 0,
                g > 0,
        ;
        lemma_half_even_scaled(nearest_double(digits * q, 1), whole as int / g, g);
    }
    let digits: u128 = round_half_even(square, gap);
    let cube: u128 = to_double(digits * left, 1);
    LIMIT - round_half_even(cube, whole / gap)
}

/// Where a part of the way leads to.
fn go_part_way(from: i32, to: i32, part: u128) -> (r: i32)
    requires
        part <= LIMIT,
    ensures
        r == part_way(from as int, to as int, part as int),
{
    let forward = from <= to;
    let d: u128 = if forward {
        (to as i64 - from as i64) as u128
    } else {
        (from as i64 - to as i64) as u128
    };
    proof {
        lemma_pixels(d as int, part as int, part as int);
        assert(0 <= d * part <= 0xffff_ffff * LIMIT) by (nonlinear_arith)
            requires
                0 <= d <= 0xffff_ffff,
                0 <= part <= LIMIT,
        ;
        assert(d * LIMIT <= 0xffff_ffff * LIMIT);
    }
    let moved: u128 = to_double(d * part, 1);
    let pixels: i64 = ((2 * moved + LIMIT) / 0x40_0000_0000_0000) as i64;
    if forward {
        (from as i64 + pixels) as i32
    } else {
        (from as i64 - pixels) as i32
    }
}

/// The intermediate geometries for an ease-out cubic transition from `start` to
/// `target` over `steps` frames (fast start, gentle settle). The final frame
/// lands exactly on `target`, so no separate correcting move is needed, and no
/// dimension overshoots or turns back on the way.
pub fn anim_frames(start: (i32, i32, i32, i32), target: (i32, i32, i32, i32), steps: u32) -> (r:
    Vec<(i32, i32, i32, i32)>)
    ensures
        r@.len() == steps,
        forall|k: int|
            0 <= k < steps ==> ints(#[trigger] r@[k]) == eased_rect(
                ints(start),
                ints(target),
                k + 1,
                steps as int,
            ),
        steps > 0 ==> r@.last() == target,
        forall|k: int|
            0 <= k < steps ==> rect_on_the_way(
                if k == 0 {
                    ints(start)
                } else {
                    ints(r@[k - 1])
                },
                ints(#[trigger] r@[k]),
                ints(target),
            ),
{
    let mut frames: Vec<(i32, i32, i32, i32)> = Vec::new();
    let mut i: u32 = 0;
    while i < steps
        invariant
            i <= steps,
            frames@.len() == i,
            forall|k: int|
                0 <= k < i ==> ints(#[trigger] frames@[k]) == eased_rect(
                    ints(start),
                    ints(target),
                    k + 1,
                    steps as int,
                ),
        decreases steps - i,
    {
        i = i + 1;
        let part: u128 = cover(i, steps);
        frames.push(
            (
                go_part_way(start.0, target.0, part),
                go_part_way(start.1, target.1, part),
                go_part_way(start.2, target.2, part),
                go_part_way(start.3, target.3, part),
            ),
        );
    }
    proof {
        let (from, to) = (ints(start), ints(target));
        let n = steps as int;
        assert forall|k: int| 0 <= k < steps implies rect_on_the_way(
            if k == 0 {
                ints(start)
            } else {
                ints(frames@[k - 1])
            },
            ints(#[trigger] frames@[k]),
            ints(target),
        ) by {
            transitions_never_turn_back(from.0, to.0, k, n);
            transitions_never_turn_back(from.1, to.1, k, n);
            transitions_never_turn_back(from.2, to.2, k, n);
            transitions_never_turn_back(from.3, to.3, k, n);
            if k > 0 {
                assert(ints(frames@[k - 1]) == eased_rect(from, to, k, n));
            }
        }
        if steps > 0 {
            transitions_land_on_the_target(from.0, to.0, n, n);
            transitions_land_on_the_target(from.1, to.1, n, n);
            transitions_land_on_the_target(from.2, to.2, n, n);
            transitions_land_on_the_target(from.3, to.3, n, n);
            assert(ints(frames@[n - 1]) == eased_rect(from, to, n, n));
        }
    }
    frames
}

/// Each frame of a transition lies on the way from the frame before it to the target:
/// nothing overshoots or turns back.
pub proof fn transitions_never_turn_back(from: int, to: int, i: int, steps: int)
    requires
        0 <= i < steps,
        distance(from, to) < LIMIT,
    ensures
        i == 0 ==> eased(from, to, i, steps) == from,
        on_the_way(eased(from, to, i, steps), eased(from, to, i + 1, steps), to),
{
    lemma_way_covered(i, i + 1, steps);
    lemma_pixels(distance(from, to), way_covered(i, steps), way_covered(i + 1, steps));
}

/// The last frame of a transition is its target, and every frame lies between the
/// start and the target.
pub proof fn transitions_land_on_the_target(from: int, to: int, i: int, steps: int)
    requires
        0 < i <= steps,
        distance(from, to) < LIMIT,
    ensures
        eased(from, to, steps, steps) == to,
        from <= to ==> from <= eased(from, to, i, steps) <= to,
        from >= to ==> to <= eased(from, to, i, steps) <= from,
{
    lemma_way_covered(i, steps, steps);
    lemma_pixels(distance(from, to), way_covered(i, steps), LIMIT as int);
}

/// However doubles are rounded, an ease-out has covered at least what a constant speed
/// would have.
proof fn lemma_ahead_of_constant_speed(i: int, steps: int)
    requires
        0 < i < steps <= 0xffff_ffff,
    ensures
        way_covered(i, steps) * steps >= i * LIMIT,
{
    let limit = LIMIT as int;
    let whole = 0x400_0000_0000_0000_0000_0000_0000int;
    let unit = 0x20_0000_0000_0000_0000_0000int;
    let rest = steps - i;
    lemma_way_left(i, i, steps);
    lemma_powers();
    let share = nearest_double(i * unit, steps);
    let gone = half_even(share, 0x1_0000_0000);
    let q = limit - gone;
    // Two roundings on the way to `q`.
    assert(i * unit < steps * (limit * two_to(33))) by (nonlinear_arith)
        requires
            0 < i <= steps,
            unit < limit * two_to(33),
            unit > 0,
    ;
    lemma_double_close(i * unit, steps, 33);
    lemma_half_even_close(share, 0x1_0000_0000);
    assert(2 * (gone * steps) >= 2 * (i * limit) - 3 * steps) by (nonlinear_arith)
        requires
            2 * share - 0x1_0000_0000 <= 2 * (gone * 0x1_0000_0000),
            2 * (i * unit) - steps * 0x2_0000_0000 <= 2 * (share * steps),
            unit == limit * 0x1_0000_0000,
            steps > 0,
    ;
    // Two more in the cube, and one in what is left of the whole.
    lemma_cubed(q, q);
    let square = nearest_double(q * q, 1);
    lemma_double_close(q * q, 1, 54);
    let cube = nearest_double(square * q, 1);
    lemma_double_close(square * q, 1, 107);
    let t = half_even(cube, whole);
    lemma_half_even_close(cube, whole);
    assert(2 * square <= 2 * (q * q) + 2 * limit);
    assert(2 * cube <= 2 * (square * q) + 2 * whole);
    assert(whole == limit * limit);
    assert(2 * (t * whole) <= 2 * (q * q * q) + 5 * whole) by (nonlinear_arith)
        requires
            2 * (t * whole) <= 2 * cube + whole,
            2 * cube <= 2 * (square * q) + 2 * whole,
            2 * square <= 2 * (q * q) + 2 * limit,
            0 <= q <= limit,
            whole == limit * limit,
    ;
    lemma_slow_cube(i, rest, steps, gone, q);
    assert(t * steps <= rest * limit) by (nonlinear_arith)
        requires
            2 * (t * whole) <= 2 * (q * q * q) + 5 * whole,
            2 * (q * q * q * steps) + 5 * (whole * steps) <= 2 * (rest * limit * whole),
            whole > 0,
            steps > 0,
    ;
    assert((limit - t) * steps >= i * limit) by (nonlinear_arith)
        requires
            t * steps <= rest * limit,
            rest == steps - i,
    ;
}

/// A cube is so much less than its root that rounding does not show.
proof fn lemma_slow_cube(i: int, rest: int, steps: int, gone: int, q: int)
    requires
        0 < i,
        0 < rest,
        steps == i + rest,
        steps <= 0xffff_ffff,
        0 <= q <= LIMIT,
        q == LIMIT - gone,
        2 * (gone * steps) >= 2 * (i * LIMIT) - 3 * steps,
    ensures
        2 * (q * q * q * steps) + 5 * (LIMIT * LIMIT * steps) <= 2 * (rest * LIMIT * (LIMIT
            * LIMIT)),
{
    let limit = LIMIT as int;
    assert(i * rest >= steps - 1) by (nonlinear_arith)
        requires
            i >= 1,
            rest >= 1,
            steps == i + rest,
    ;
    assert(rest * gone >= 4 * steps) by (nonlinear_arith)
        requires
            2 * (gone * steps) >= 2 * (i * limit) - 3 * steps,
            i * rest >= steps - 1,
            steps >= 2,
            rest <= steps,
            rest >= 1,
            limit >= 11 * steps,
    ;
    assert(2 * (q * steps) <= 2 * (rest * limit) + 3 * steps) by (nonlinear_arith)
        requires
            2 * (gone * steps) >= 2 * (i * limit) - 3 * steps,
            q == limit - gone,
            steps == i + rest,
    ;
    let sq = q * q;
    let whole = limit * limit;
    assert(0 <= sq <= whole) by (nonlinear_arith)
        requires
            0 <= q <= limit,
            sq == q * q,
            whole == limit * limit,
    ;
    assert(2 * (sq * q * steps) <= 2 * (rest * limit * sq) + 3 * (whole * steps))
        by (nonlinear_arith)
        requires
            2 * (q * steps) <= 2 * (rest * limit) + 3 * steps,
            0 <= sq <= whole,
            steps > 0,
    ;
    assert(whole - sq >= gone * limit) by (nonlinear_arith)
        requires
            whole == limit * limit,
            sq == q * q,
            q == limit - gone,
            0 <= q <= limit,
    ;
    assert(rest * limit * (whole - sq) >= 4 * (steps * whole)) by (nonlinear_arith)
        requires
            whole - sq >= gone * limit,
            rest * gone >= 4 * steps,
            rest > 0,
            limit > 0,
            whole == limit * limit,
    ;
    assert(rest * limit * (whole - sq) == rest * limit * whole - rest * limit * sq)
        by (nonlinear_arith);
    assert(q * q * q * steps == sq * q * steps);
    assert(steps * whole == whole * steps) by (nonlinear_arith);
}

/// The transition eases out: on the way forward every frame is at least as far as
/// a constant speed would have come.
pub proof fn transitions_start_fast(from: int, to: int, i: int, steps: int)
    requires
        from <= to,
        distance(from, to) < LIMIT,
        0 < i <= steps <= 0xffff_ffff,
    ensures
        eased(from, to, i, steps) >= from + (to - from) * i / steps,
{
    let d = to - from;
    let limit = LIMIT as int;
    let part = way_covered(i, steps);
    let k = d * i / steps;
    lemma_way_covered(i, i, steps);
    if i < steps {
        lemma_ahead_of_constant_speed(i, steps);
    } else {
        assert(limit * steps == steps * limit) by (nonlinear_arith);
    }
    lemma_pixels(d, part, part);
    vstd::arithmetic::div_mod::lemma_fundamental_div_mod(d * i, steps);
    vstd::arithmetic::div_mod::lemma_mod_bound(d * i, steps);
    assert(0 <= k <= d) by (nonlinear_arith)
        requires
            k == d * i / steps,
            0 < i <= steps,
            d >= 0,
    ;
    assert(0 <= k * limit <= d * part) by (nonlinear_arith)
        requires
            part * steps >= i * limit,
            d * i >= steps * k,
            k >= 0,
            d >= 0,
            steps > 0,
            limit > 0,
    ;
    lemma_powers();
    lemma_shifted_is_spaced(k, 53);
    lemma_double_exact(k * limit, 1);
    lemma_double_order(k * limit, d * part, 1);
}

/// The cube of a number.
pub open spec fn cube(n: int) -> int {
    n * n * n
}

/// The pixels that an ease-out cubic has covered of a distance of `d` by the frame `i` of
/// `steps`: `d · (1 - (1 - i/steps)³)` rounded to the nearest whole number, halves up.
pub open spec fn cubic_pixels(d: int, i: int, steps: int) -> int {
    (2 * (d * (cube(steps) - cube(steps - i))) + cube(steps)) / (2 * cube(steps))
}

/// An animated move follows the cubic itself: over its number of frames, doubles are
/// exact.
#[verifier::spinoff_prover]
#[verifier::rlimit(60)]
pub proof fn animated_moves_follow_the_cubic(d: int, i: int)
    requires
        0 <= i <= ANIM_STEPS,
        0 <= d <= 0xffff_ffff,
    ensures
        pixels(d, way_covered(i, ANIM_STEPS as int)) == cubic_pixels(d, i, ANIM_STEPS as int),
{
    let j = 16 - i;
    let unit = 0x20_0000_0000_0000_0000_0000int;
    let whole = 0x400_0000_0000_0000_0000_0000_0000int;
    lemma_powers();
    reveal_with_fuel(two_to, 13);
    assert(two_to(41) == 0x200_0000_0000);
    assert(two_to(81) == 0x2_0000_0000_0000_0000_0000);
    assert(two_to(98) == 0x4_0000_0000_0000_0000_0000_0000);
    assert(two_to(147) == whole * 0x200_0000_0000);
    // What is left of the way.
    lemma_shifted_is_spaced(i, 81);
    lemma_double_exact(i * two_to(81), 16);
    assert((i * two_to(81)) * 16 == i * unit && i * two_to(81) == (i * 0x2_0000_0000_0000)
        * 0x1_0000_0000);
    lemma_half_even_whole(i * 0x2_0000_0000_0000, 0x1_0000_0000);
    let left = way_left(i, 16);
    assert(left == j * 0x2_0000_0000_0000);
    // Its square and its cube.
    let sq = j * j;
    assert(0 <= sq <= 256) by (nonlinear_arith)
        requires
            sq == j * j,
            0 <= j <= 16,
    ;
    assert(left * left == sq * 0x4_0000_0000_0000_0000_0000_0000) by (nonlinear_arith)
        requires
            left == j * 0x2_0000_0000_0000,
            sq == j * j,
    ;
    lemma_shifted_is_spaced(sq, 98);
    lemma_double_exact(left * left, 1);
    let cu = cube(j);
    assert(0 <= cu <= 4096 && cu == sq * j) by (nonlinear_arith)
        requires
            cu == j * j * j,
            sq == j * j,
            0 <= sq <= 256,
            0 <= j <= 16,
    ;
    assert((left * left) * left == cu * (whole * 0x200_0000_0000)) by (nonlinear_arith)
        requires
            left == j * 0x2_0000_0000_0000,
            left * left == sq * 0x4_0000_0000_0000_0000_0000_0000,
            cu == sq * j,
            whole == 0x400_0000_0000_0000_0000_0000_0000,
    ;
    lemma_shifted_is_spaced(cu, 147);
    lemma_double_exact((left * left) * left, 1);
    assert(cu * (whole * 0x200_0000_0000) == (cu * 0x200_0000_0000) * whole) by (nonlinear_arith);
    lemma_half_even_whole(cu * 0x200_0000_0000, whole);
    let part = way_covered(i, 16);
    assert(part == (4096 - cu) * 0x200_0000_0000);
    // The pixels.
    let a = d * (4096 - cu);
    assert(0 <= a < LIMIT) by (nonlinear_arith)
        requires
            a == d * (4096 - cu),
            0 <= d <= 0xffff_ffff,
            0 <= cu <= 4096,
    ;
    assert(d * part == a * 0x200_0000_0000) by (nonlinear_arith)
        requires
            a == d * (4096 - cu),
            part == (4096 - cu) * 0x200_0000_0000,
    ;
    lemma_shifted_is_spaced(a, 41);
    lemma_double_exact(d * part, 1);
    assert(cube(16) == 4096) by (nonlinear_arith)
        requires
            cube(16) == 16 * 16 * 16,
    ;
    assert(cubic_pixels(d, i, 16) == (2 * a + 4096) / 8192);
    let x = 0x200_0000_0000int;
    assert(nearest_double(d * part, 1) == a * x);
    assert(2 * (a * x) + LIMIT == (2 * a + 4096) * x);
    assert(0x40_0000_0000_0000 == 8192 * x);
    lemma_scaled_quotient(2 * a + 4096, 8192, x);
}

proof fn lemma_scaled_quotient(n: int, d: int, x: int)
    requires
        d > 0,
        x > 0,
    ensures
        (n * x) / (d * x) == n / d,
{
    let (q, r) = (n / d, n % d);
    vstd::arithmetic::div_mod::lemma_fundamental_div_mod(n, d);
    assert(n * x == q * (d * x) + r * x) by (nonlinear_arith)
        requires
            n == d * q + r,
    ;
    assert(0 <= r * x < d * x) by (nonlinear_arith)
        requires
            0 <= r < d,
            x > 0,
    ;
    vstd::arithmetic::div_mod::lemma_fundamental_div_mod_converse(n * x, d * x, q, r * x);
}

/// A rectangle of at least one pixel each way.
pub fn visible_rect(r: (i32, i32, i32, i32)) -> (out: (i32, i32, i32, i32))
    ensures
        ints(out) == sized(ints(r)),
{
    let w: i32 = if r.2 >= 1 {
        r.2
    } else {
        1
    };
    let h: i32 = if r.3 >= 1 {
        r.3
    } else {
        1
    };
    (r.0, r.1, w, h)
}

/// The rectangles to put a window through on its way to `target`: a large jump
/// (snap, preset, center, ...) glides there along an ease-out curve; a small one
/// (a held move/resize nudge) lands at once.
pub fn move_frames(start: (i32, i32, i32, i32), target: (i32, i32, i32, i32)) -> (r: Vec<
    (i32, i32, i32, i32),
>)
    requires
        fits(largest_change(ints(start), ints(target))),
    ensures
        r@.len() > 0 && r@.last() == target,
        largest_change(ints(start), ints(target)) < ANIM_MIN_DELTA ==> r@ == seq![target],
        largest_change(ints(start), ints(target)) >= ANIM_MIN_DELTA ==> r@.len() == ANIM_STEPS
            && forall|k: int|
            0 <= k < ANIM_STEPS ==> ints(#[trigger] r@[k]) == eased_rect(
                ints(start),
                ints(target),
                k + 1,
                ANIM_STEPS as int,
            ),
        r@.len() == (if largest_change(ints(start), ints(target)) >= 120 {
            16int
        } else {
            1int
        }),
{
    if max_delta(start, target) >= ANIM_MIN_DELTA {
        anim_frames(start, target, ANIM_STEPS)
    } else {
        vec![target]
    }
}

/// The geometry to build the next move on: the one last commanded for the window
/// while that is fresh, else none.
pub fn cached_geometry(
    last: Option<(u32, (i32, i32, i32, i32))>,
    age_ms: u64,
    win: u32,
) -> (r: Option<(i32, i32, i32, i32)>)
    ensures
        r == match last {
            Some((w, geom)) if w == win && age_ms < MOVE_CACHE_TTL_MS => Some(geom),
            _ => None,
        },
        r is Some <==> age_ms < 250 && last is Some && last->Some_0.0 == win,
{
    match last {
        Some((w, geom)) => if w == win && age_ms < MOVE_CACHE_TTL_MS {
            Some(geom)
        } else {
            None
        },
        None => None,
    }
}

// === Monitors ===

/// One rectangle stands before another, left to right and then top to bottom.
pub open spec fn stands_before(a: (i32, i32, i32, i32), b: (i32, i32, i32, i32)) -> bool {
    a.0 < b.0 || a.0 == b.0 && a.1 < b.1
}

/// A rectangle put into a sorted list, after those it does not stand before.
pub open spec fn sorted_with(
    sorted: Seq<(i32, i32, i32, i32)>,
    r: (i32, i32, i32, i32),
) -> Seq<(i32, i32, i32, i32)>
    decreases sorted.len(),
{
    if sorted.len() == 0 || !stands_before(r, sorted.last()) {
        sorted.push(r)
    } else {
        sorted_with(sorted.drop_last(), r).push(sorted.last())
    }
}

/// The rectangles in order; those that stand alike keep their order.
pub open spec fn sorted_rects(rects: Seq<(i32, i32, i32, i32)>) -> Seq<(i32, i32, i32, i32)>
    decreases rects.len(),
{
    if rects.len() == 0 {
        Seq::empty()
    } else {
        sorted_with(sorted_rects(rects.drop_last()), rects.last())
    }
}

fn insert_sorted(sorted: &Vec<(i32, i32, i32, i32)>, r: (i32, i32, i32, i32)) -> (out: Vec<
    (i32, i32, i32, i32),
>)
    ensures
        out@ == sorted_with(sorted@, r),
{
    let mut at: usize = sorted.len();
    let ghost tail: Seq<(i32, i32, i32, i32)> = Seq::empty();
    assert(sorted@.take(at as int) =~= sorted@);
    assert(sorted_with(sorted@, r) =~= sorted_with(sorted@.take(at as int), r) + tail);
    while at > 0 && before(r, sorted[at - 1])
        invariant
            at <= sorted@.len(),
            tail == sorted@.skip(at as int),
            sorted_with(sorted@, r) == sorted_with(sorted@.take(at as int), r) + tail,
        decreases at,
    {
        proof {
            let whole = sorted@.take(at as int);
            assert(whole.drop_last() =~= sorted@.take(at - 1));
            assert(whole.last() == sorted@[at - 1]);
            assert(sorted@.skip(at - 1) =~= seq![sorted@[at - 1]] + tail);
            assert(sorted_with(whole, r) + tail =~= sorted_with(sorted@.take(at - 1), r)
                + sorted@.skip(at - 1));
            tail = sorted@.skip(at - 1);
        }
        at = at - 1;
    }
    let mut out: Vec<(i32, i32, i32, i32)> = Vec::new();
    let mut i: usize = 0;
    while i < at
        invariant
            i <= at <= sorted@.len(),
            out@ == sorted@.take(i as int),
        decreases at - i,
    {
        out.push(sorted[i]);
        assert(sorted@.take(i + 1) =~= sorted@.take(i as int).push(sorted@[i as int]));
        i = i + 1;
    }
    out.push(r);
    while i < sorted.len()
        invariant
            at <= i <= sorted@.len(),
            out@ == sorted@.take(at as int).push(r) + sorted@.subrange(at as int, i as int),
        decreases sorted@.len() - i,
    {
        let ghost done = out@;
        out.push(sorted[i]);
        assert(sorted@.subrange(at as int, i + 1) =~= sorted@.subrange(at as int, i as int).push(
            sorted@[i as int],
        ));
        assert(out@ =~= sorted@.take(at as int).push(r) + sorted@.subrange(at as int, i + 1));
        i = i + 1;
    }
    proof {
        assert(sorted@.subrange(at as int, sorted@.len() as int) =~= sorted@.skip(at as int));
        if at > 0 {
            assert(sorted@.take(at as int).last() == sorted@[at - 1]);
        }
        assert(out@ =~= sorted_with(sorted@, r));
    }
    out
}

fn before(a: (i32, i32, i32, i32), b: (i32, i32, i32, i32)) -> (r: bool)
    ensures
        r == stands_before(a, b),
{
    a.0 < b.0 || a.0 == b.0 && a.1 < b.1
}

fn sort_rects(rects: &Vec<(i32, i32, i32, i32)>) -> (r: Vec<(i32, i32, i32, i32)>)
    ensures
        r@ == sorted_rects(rects@),
        r@.len() == rects@.len(),
{
    let mut out: Vec<(i32, i32, i32, i32)> = Vec::new();
    let mut i: usize = 0;
    while i < rects.len()
        invariant
            i <= rects@.len(),
            out@ == sorted_rects(rects@.take(i as int)),
        decreases rects@.len() - i,
    {
        assert(rects@.take(i + 1).drop_last() =~= rects@.take(i as int));
        assert(rects@.take(i + 1).last() == rects@[i as int]);
        out = insert_sorted(&out, rects[i]);
        i = i + 1;
    }
    assert(rects@.take(rects@.len() as int) =~= rects@);
    proof {
        rects_are_sorted(rects@);
    }
    out
}

/// Sorting rectangles keeps each as often as it is there, and puts none before one
/// that stands before it.
pub proof fn rects_are_sorted(rects: Seq<(i32, i32, i32, i32)>)
    ensures
        sorted_rects(rects).len() == rects.len(),
        sorted_rects(rects).to_multiset() == rects.to_multiset(),
        forall|i: int, j: int|
            0 <= i < j < rects.len() ==> !stands_before(
                #[trigger] sorted_rects(rects)[j],
                #[trigger] sorted_rects(rects)[i],
            ),
    decreases rects.len(),
{
    broadcast use vstd::seq_lib::group_to_multiset_ensures;

    if rects.len() > 0 {
        let init = rects.drop_last();
        rects_are_sorted(init);
        lemma_sorted_with(sorted_rects(init), rects.last());
        assert(init.push(rects.last()) =~= rects);
    }
}

proof fn lemma_sorted_with(sorted: Seq<(i32, i32, i32, i32)>, r: (i32, i32, i32, i32))
    requires
        forall|i: int, j: int|
            0 <= i < j < sorted.len() ==> !stands_before(
                #[trigger] sorted[j],
                #[trigger] sorted[i],
            ),
    ensures
        sorted_with(sorted, r).len() == sorted.len() + 1,
        sorted_with(sorted, r).to_multiset() == sorted.to_multiset().insert(r),
        forall|i: int, j: int|
            0 <= i < j < sorted_with(sorted, r).len() ==> !stands_before(
                #[trigger] sorted_with(sorted, r)[j],
                #[trigger] sorted_with(sorted, r)[i],
            ),
        forall|x: (i32, i32, i32, i32)| #[trigger]
            sorted_with(sorted, r).contains(x) ==> x == r || sorted.contains(x),
    decreases sorted.len(),
{
    broadcast use vstd::seq_lib::group_to_multiset_ensures;

    let out = sorted_with(sorted, r);
    if sorted.len() == 0 || !stands_before(r, sorted.last()) {
        assert forall|i: int, j: int| 0 <= i < j < out.len() implies !stands_before(
            #[trigger] out[j],
            #[trigger] out[i],
        ) by {
            if j == sorted.len() {
                assert(!stands_before(sorted[sorted.len() - 1], sorted[i]) || i == sorted.len()
                    - 1);
            }
        }
        assert forall|x: (i32, i32, i32, i32)| #[trigger] out.contains(x) implies x == r
            || sorted.contains(x) by {
            let k = choose|k: int| 0 <= k < out.len() && out[k] == x;
            if k < sorted.len() {
                assert(sorted[k] == x);
            }
        }
    } else {
        let init = sorted.drop_last();
        let last = sorted.last();
        lemma_sorted_with(init, r);
        let mid = sorted_with(init, r);
        assert(init.push(last) =~= sorted);
        assert(mid.push(last).to_multiset() =~= sorted.to_multiset().insert(r));
        assert forall|i: int, j: int| 0 <= i < j < out.len() implies !stands_before(
            #[trigger] out[j],
            #[trigger] out[i],
        ) by {
            if j == mid.len() {
                assert(mid.contains(mid[i]));
                if mid[i] != r {
                    let k = choose|k: int| 0 <= k < init.len() && init[k] == mid[i];
                    assert(!stands_before(sorted[sorted.len() - 1], sorted[k]));
                }
            } else {
                assert(out[i] == mid[i] && out[j] == mid[j]);
            }
        }
        assert forall|x: (i32, i32, i32, i32)| #[trigger] out.contains(x) implies x == r
            || sorted.contains(x) by {
            let k = choose|k: int| 0 <= k < out.len() && out[k] == x;
            if k < mid.len() {
                assert(mid.contains(x));
                if x != r {
                    let m = choose|m: int| 0 <= m < init.len() && init[m] == x;
                    assert(sorted[m] == x);
                }
            } else {
                assert(sorted[sorted.len() - 1] == x);
            }
        }
    }
}

/// The first of the rectangles, from `i` on, that holds a point; the first of all
/// where none does.
pub open spec fn holder(rects: Seq<(i32, i32, i32, i32)>, x: int, y: int, i: int) -> int
    decreases rects.len() - i,
{
    if i >= rects.len() {
        0
    } else if holds_point(ints(rects[i]), x, y) {
        i
    } else {
        holder(rects, x, y, i + 1)
    }
}

/// A start clamped so that a length fits from it into `room`.
pub open spec fn kept_inside(start: int, len: int, room: int) -> int {
    if start < 0 {
        0
    } else {
        smaller(start, larger(room - len, 0))
    }
}

/// Where a window goes on the next or previous of two or more monitors, from the
/// one its centre is on: as far from that monitor's top-left as it was from its
/// own, shrunk to fit and kept inside.
pub open spec fn on_next_monitor(
    rects: Seq<(i32, i32, i32, i32)>,
    geom: (int, int, int, int),
    center: (int, int),
    direction: CycleDirection,
) -> (int, int, int, int) {
    let order = sorted_rects(rects);
    let n = order.len() as int;
    let at = holder(order, center.0, center.1, 0);
    let from = order[at];
    let to = order[direction.spec_step(at, n)];
    let w = smaller(geom.2, to.2 as int);
    let h = smaller(geom.3, to.3 as int);
    (
        to.0 + kept_inside(geom.0 - from.0, w, to.2 as int),
        to.1 + kept_inside(geom.1 - from.1, h, to.3 as int),
        w,
        h,
    )
}

/// The centre of a rectangle, from its top-left and half its size.
pub fn center_of(r: (i32, i32, i32, i32)) -> (c: (i64, i64))
    ensures
        c.0 == r.0 + quotient(r.2 as int, 2),
        c.1 == r.1 + quotient(r.3 as int, 2),
{
    (r.0 as i64 + divide(r.2 as i64, 2), r.1 as i64 + divide(r.3 as i64, 2))
}

/// The centre between the edges `left, top, right, bottom`.
pub fn center_between(left: i32, top: i32, right: i32, bottom: i32) -> (c: (i64, i64))
    ensures
        c.0 == quotient(left + right, 2),
        c.1 == quotient(top + bottom, 2),
{
    (divide(left as i64 + right as i64, 2), divide(top as i64 + bottom as i64, 2))
}

/// The rectangle between edges.
pub open spec fn between(left: int, top: int, right: int, bottom: int) -> (int, int, int, int) {
    (left, top, right - left, bottom - top)
}

/// A rectangle given by its edges, as position and size.
pub fn from_edges(left: i32, top: i32, right: i32, bottom: i32) -> (r: (i32, i32, i32, i32))
    requires
        rect_fits(between(left as int, top as int, right as int, bottom as int)),
    ensures
        ints(r) == between(left as int, top as int, right as int, bottom as int),
{
    (left, top, right - left, bottom - top)
}

fn find_holder(rects: &Vec<(i32, i32, i32, i32)>, x: i64, y: i64) -> (r: usize)
    requires
        rects@.len() > 0,
    ensures
        r == holder(rects@, x as int, y as int, 0),
        r < rects@.len(),
{
    let mut i: usize = 0;
    while i < rects.len()
        invariant
            i <= rects@.len(),
            rects@.len() > 0,
            holder(rects@, x as int, y as int, 0) == holder(rects@, x as int, y as int, i as int),
        decreases rects@.len() - i,
    {
        let (mx, my, mw, mh) = rects[i];
        if x >= mx as i64 && x < mx as i64 + mw as i64 && y >= my as i64 && y < my as i64
            + mh as i64 {
            return i;
        }
        i = i + 1;
    }
    0
}

fn keep_inside(start: i64, len: i64, room: i64) -> (r: i64)
    requires
        -0x1_0000_0000 <= room - len <= 0x1_0000_0000,
        -0x8000_0000 <= room <= 0x8000_0000,
        -0x8000_0000 <= len <= 0x8000_0000,
    ensures
        r == kept_inside(start as int, len as int, room as int),
        0 <= r <= 0x1_0000_0000,
{
    let most: i64 = max_of(room - len, 0);
    if start < 0 {
        0
    } else if start <= most {
        start
    } else {
        most
    }
}

/// Move a window to the next/previous monitor, preserving its position relative
/// to that monitor's top-left and clamping its size to fit. `None` when fewer
/// than two monitors are connected.
pub fn move_to_monitor(
    rects: &Vec<(i32, i32, i32, i32)>,
    geom: (i32, i32, i32, i32),
    center: (i64, i64),
    direction: CycleDirection,
) -> (r: Option<(i32, i32, i32, i32)>)
    requires
        rects@.len() >= 2 ==> rect_fits(
            on_next_monitor(
                rects@,
                ints(geom),
                (center.0 as int, center.1 as int),
                direction,
            ),
        ),
    ensures
        rects@.len() < 2 ==> r is None,
        rects@.len() >= 2 ==> r is Some && ints(r->0) == on_next_monitor(
            rects@,
            ints(geom),
            (center.0 as int, center.1 as int),
            direction,
        ),
{
    if rects.len() < 2 {
        return None;
    }
    // Order left-to-right (then top-to-bottom) so "next" is predictable.

    let order = sort_rects(rects);
    let (x, y, w, h) = geom;
    let at: usize = find_holder(&order, center.0, center.1);
    let from = order[at];
    let to = order[direction.step(at, order.len())];
    let new_w: i32 = if w <= to.2 {
        w
    } else {
        to.2
    };
    let new_h: i32 = if h <= to.3 {
        h
    } else {
        to.3
    };
    let dx: i64 = keep_inside(x as i64 - from.0 as i64, new_w as i64, to.2 as i64);
    let dy: i64 = keep_inside(y as i64 - from.1 as i64, new_h as i64, to.3 as i64);
    Some(((to.0 as i64 + dx) as i32, (to.1 as i64 + dy) as i32, new_w, new_h))
}

} // verus!
