//! Where windows end up, told by edges, margins and the monitors that hold them.

use crate::actions::{Corner, CycleDirection, Side, TileFraction, WindowAction};
use crate::engine_laws::os_after;
use crate::geometry::{
    adjusted, anchored, between, eased, eased_rect, framed, holder, largest_change,
    on_next_monitor, part, quarter, rects_are_sorted, sized, sorted_rects, sorted_with,
    stands_before, tile,
};
use crate::key::Key;
use crate::output_laws::tapped_under;
use crate::rect::{common_area, holds_point, ints};
use crate::window::{
    desktop_keys, placement, task_of, toggle_target, toggled, Surroundings, WindowTask,
};
use vstd::prelude::*;

verus! {

// === Edges ===

/// A rectangle's left edge is an area's.
pub open spec fn at_left(r: (int, int, int, int), area: (int, int, int, int)) -> bool {
    r.0 == area.0
}

/// A rectangle's right edge is an area's.
pub open spec fn at_right(r: (int, int, int, int), area: (int, int, int, int)) -> bool {
    r.0 + r.2 == area.0 + area.2
}

/// A rectangle's top edge is an area's.
pub open spec fn at_top(r: (int, int, int, int), area: (int, int, int, int)) -> bool {
    r.1 == area.1
}

/// A rectangle's bottom edge is an area's.
pub open spec fn at_bottom(r: (int, int, int, int), area: (int, int, int, int)) -> bool {
    r.1 + r.3 == area.1 + area.3
}

/// A rectangle touches the edge that a side names.
pub open spec fn touches_side(
    r: (int, int, int, int),
    area: (int, int, int, int),
    side: Side,
) -> bool {
    match side {
        Side::Left => at_left(r, area),
        Side::Right => at_right(r, area),
        Side::Top => at_top(r, area),
        Side::Bottom => at_bottom(r, area),
    }
}

/// A rectangle touches both edges that meet in a corner.
pub open spec fn touches_corner(
    r: (int, int, int, int),
    area: (int, int, int, int),
    corner: Corner,
) -> bool {
    match corner {
        Corner::TopLeft => at_top(r, area) && at_left(r, area),
        Corner::TopRight => at_top(r, area) && at_right(r, area),
        Corner::BottomLeft => at_bottom(r, area) && at_left(r, area),
        Corner::BottomRight => at_bottom(r, area) && at_right(r, area),
    }
}

/// The margins left and right of a rectangle differ by a pixel at most, and so do those
/// above and below it.
pub open spec fn centred_in(r: (int, int, int, int), area: (int, int, int, int)) -> bool {
    let left = r.0 - area.0;
    let right = (area.0 + area.2) - (r.0 + r.2);
    let above = r.1 - area.1;
    let below = (area.1 + area.3) - (r.1 + r.3);
    -1 <= right - left <= 1 && -1 <= below - above <= 1
}

/// A length is a fraction of another, with less than a pixel cut off.
pub open spec fn is_part(len: int, whole: int, fraction: TileFraction) -> bool {
    match fraction {
        TileFraction::Half => -2 < whole - 2 * len < 2,
        TileFraction::Third => -3 < whole - 3 * len < 3,
        TileFraction::TwoThirds => -3 < 2 * whole - 3 * len < 3,
    }
}

// === Tiles and corners ===

/// A tile touches the edge it is named for, spans the area along that edge, and is its
/// fraction of the area across it.
pub proof fn tiles_touch_their_edge(
    area: (int, int, int, int),
    side: Side,
    fraction: TileFraction,
)
    ensures
        ({
            let t = tile(area, side, fraction);
            &&& touches_side(t, area, side)
            &&& (side is Left || side is Right) ==> {
                &&& at_top(t, area) && at_bottom(t, area)
                &&& t.3 == area.3
                &&& is_part(t.2, area.2, fraction)
            }
            &&& (side is Top || side is Bottom) ==> {
                &&& at_left(t, area) && at_right(t, area)
                &&& t.2 == area.2
                &&& is_part(t.3, area.3, fraction)
            }
        }),
{
    lemma_part(area.2, fraction);
    lemma_part(area.3, fraction);
}

proof fn lemma_part(len: int, fraction: TileFraction)
    ensures
        is_part(part(len, fraction), len, fraction),
{
}

/// Of a length that divides by six, the tile sizes take a half, then a third, then two
/// thirds, then a half again.
pub proof fn tile_sizes_go_half_third_two_thirds(n: int)
    requires
        n >= 0,
    ensures
        ({
            let first = TileFraction::Half;
            let second = first.spec_next();
            let third = second.spec_next();
            &&& part(6 * n, first) == 3 * n
            &&& part(6 * n, second) == 2 * n
            &&& part(6 * n, third) == 4 * n
            &&& third.spec_next() == first
        }),
{
}

/// A quarter touches both edges of its corner and is half the area each way.
pub proof fn quarters_touch_their_corner(area: (int, int, int, int), corner: Corner)
    ensures
        touches_corner(quarter(area, corner), area, corner),
        -2 < area.2 - 2 * quarter(area, corner).2 < 2,
        -2 < area.3 - 2 * quarter(area, corner).3 < 2,
{
}

/// A window anchored at a corner touches both its edges; one anchored nowhere is centred.
pub proof fn anchors_touch_their_corner(
    area: (int, int, int, int),
    size: (int, int),
    anchor: Option<Corner>,
)
    ensures
        ({
            let p = anchored(area, size, anchor);
            let r = (p.0, p.1, size.0, size.1);
            match anchor {
                Some(corner) => touches_corner(r, area, corner),
                None => centred_in(r, area),
            }
        }),
{
}

/// Where each action puts a window: at the edges it names, at the size it names or the
/// window's own; the other actions put it nowhere.
pub proof fn actions_put_windows_where_they_say(action: WindowAction, s: Surroundings)
    ensures
        ({
            let area = ints(s.area);
            let geom = ints(s.geometry);
            match action {
                WindowAction::Adjust { dx, dy, dw, dh } => placement(action, s) matches Some(r) && {
                    &&& r.0 - geom.0 == dx && r.1 - geom.1 == dy
                    &&& r.2 >= 1 && r.3 >= 1
                    &&& geom.2 + dw >= 1 ==> r.2 - geom.2 == dw
                    &&& geom.2 + dw < 1 ==> r.2 == 1
                    &&& geom.3 + dh >= 1 ==> r.3 - geom.3 == dh
                    &&& geom.3 + dh < 1 ==> r.3 == 1
                },
                WindowAction::Preset { anchor, .. } => placement(action, s) matches Some(r) && {
                    &&& r.2 == s.preset_size.0 && r.3 == s.preset_size.1
                    &&& match anchor {
                        Some(corner) => touches_corner(r, area, corner),
                        None => centred_in(r, area),
                    }
                },
                WindowAction::Center => placement(action, s) matches Some(r) && {
                    &&& r.2 == geom.2 && r.3 == geom.3
                    &&& centred_in(r, area)
                },
                WindowAction::Snap(corner) => placement(action, s) matches Some(r) && {
                    &&& r.2 == geom.2 && r.3 == geom.3
                    &&& touches_corner(r, area, corner)
                },
                WindowAction::StepToward(_) => placement(action, s) matches Some(r) && {
                    &&& r.2 == geom.2 && r.3 == geom.3
                    &&& r.0 == s.step_to.0 && r.1 == s.step_to.1
                },
                WindowAction::Corner(corner) => placement(action, s) matches Some(r) && {
                    &&& touches_corner(r, area, corner)
                    &&& is_part(r.2, area.2, TileFraction::Half)
                    &&& is_part(r.3, area.3, TileFraction::Half)
                },
                WindowAction::SmartTile { side, fraction } => placement(action, s) matches Some(r)
                    && {
                    &&& touches_side(r, area, side)
                    &&& (side is Left || side is Right) ==> at_top(r, area) && at_bottom(r, area)
                        && is_part(r.2, area.2, fraction)
                    &&& (side is Top || side is Bottom) ==> at_left(r, area) && at_right(r, area)
                        && is_part(r.3, area.3, fraction)
                },
                WindowAction::Maximize => placement(action, s) == Some(area),
                _ => placement(action, s) is None,
            }
        }),
{
    let area = ints(s.area);
    match action {
        WindowAction::SmartTile { side, fraction } => tiles_touch_their_edge(area, side, fraction),
        WindowAction::Corner(corner) => quarters_touch_their_corner(area, corner),
        _ => {},
    }
}

/// What an action comes down to: a placement for those that put a window somewhere, after
/// taking it out of a maximized state for those that give it another size or, but on
/// Windows, another corner; the others are tasks of their own.
pub proof fn actions_come_down_to_their_task(action: WindowAction, windows: bool)
    ensures
        match action {
            WindowAction::Adjust { .. } => task_of(action, windows) == (WindowTask::Place {
                area: false,
                geometry: true,
                unmaximize: false,
            }),
            WindowAction::Preset { .. } | WindowAction::Corner(_) | WindowAction::SmartTile {
                ..
            } => task_of(action, windows) == (WindowTask::Place {
                area: true,
                geometry: false,
                unmaximize: true,
            }),
            WindowAction::Center | WindowAction::StepToward(_) => task_of(action, windows) == (
            WindowTask::Place { area: true, geometry: true, unmaximize: false }),
            WindowAction::Snap(_) => task_of(action, windows) == (WindowTask::Place {
                area: true,
                geometry: true,
                unmaximize: !windows,
            }),
            WindowAction::Maximize => if windows {
                task_of(action, windows) is Maximize
            } else {
                task_of(action, windows) == (WindowTask::Place {
                    area: true,
                    geometry: false,
                    unmaximize: true,
                })
            },
            WindowAction::MaximizeToggle => task_of(action, windows) is ToggleFill,
            WindowAction::Minimize => task_of(action, windows) is Minimize,
            WindowAction::AlwaysOnTop => task_of(action, windows) is AlwaysOnTop,
            WindowAction::ShowDesktop => task_of(action, windows) is ShowDesktop,
            WindowAction::MoveToMonitor(direction) => task_of(action, windows)
                == WindowTask::MoveToMonitor(direction),
            WindowAction::CycleSameApp(direction) => task_of(action, windows)
                == WindowTask::CycleSameApp(direction),
            WindowAction::Workspace { target, move_window } => task_of(action, windows) == (
            WindowTask::Workspace { target, move_window }),
            WindowAction::FindWindow | WindowAction::PickWindow | WindowAction::PickElement =>
            task_of(action, windows) is Overlay,
        },
{
}

/// The desktop is shown by tapping `D` under the meta key, which is up again afterwards.
pub proof fn the_desktop_is_shown_by_meta_and_d()
    ensures
        tapped_under(
            Set::empty(),
            desktop_keys(),
            Key::D,
            set![crate::combo::Modifier::Super],
            1,
        ),
        os_after(Set::empty(), desktop_keys()) == Set::<Key>::empty(),
{
    let keys = desktop_keys();
    reveal_with_fuel(os_after, 5);
    assert(keys.take(1).drop_last() =~= Seq::empty());
    assert(keys.take(1).last() == keys[0]);
    let three = keys.drop_last();
    let two = three.drop_last();
    let one = two.drop_last();
    assert(one.drop_last() =~= Seq::empty());
    assert(three.last() == keys[2] && two.last() == keys[1] && one.last() == keys[0]);
    assert(os_after(Set::empty(), keys) =~= Set::<Key>::empty());
}

/// Two nudges add up where no side is cut short, and a nudge and its opposite cancel.
pub proof fn nudges_add_up(
    r: (int, int, int, int),
    a: (int, int, int, int),
    b: (int, int, int, int),
)
    requires
        r.2 + a.2 >= 1 && r.2 + a.2 + b.2 >= 1,
        r.3 + a.3 >= 1 && r.3 + a.3 + b.3 >= 1,
    ensures
        adjusted(adjusted(r, a.0, a.1, a.2, a.3), b.0, b.1, b.2, b.3) == (
            r.0 + a.0 + b.0,
            r.1 + a.1 + b.1,
            r.2 + a.2 + b.2,
            r.3 + a.3 + b.3,
        ),
{
}

/// A rectangle that is made visible stays where it is, keeps each length of a pixel or
/// more, and has no other shorter than a pixel.
pub proof fn visible_rects_keep_their_place(r: (int, int, int, int))
    ensures
        at_left(sized(r), r) && at_top(sized(r), r),
        r.2 >= 1 ==> sized(r).2 == r.2,
        r.3 >= 1 ==> sized(r).3 == r.3,
        r.2 < 1 ==> sized(r).2 == 1,
        r.3 < 1 ==> sized(r).3 == 1,
{
}

/// A rectangle between edges has those edges.
pub proof fn rects_between_edges_have_them(left: int, top: int, right: int, bottom: int)
    ensures
        ({
            let r = between(left, top, right, bottom);
            &&& r.0 == left && r.1 == top
            &&& r.0 + r.2 == right && r.1 + r.3 == bottom
        }),
{
}

/// A frame stands out from its client by its left, right, top and bottom extents.
pub proof fn frames_stand_out_by_their_extents(
    client: (int, int, int, int),
    left: int,
    right: int,
    top: int,
    bottom: int,
)
    ensures
        ({
            let f = framed(client, (left, right, top, bottom));
            &&& client.0 - f.0 == left
            &&& (f.0 + f.2) - (client.0 + client.2) == right
            &&& client.1 - f.1 == top
            &&& (f.1 + f.3) - (client.1 + client.3) == bottom
        }),
{
}

/// The largest change bounds the change of every number, and is the change of one.
pub proof fn largest_changes_bound_all(a: (int, int, int, int), b: (int, int, int, int))
    ensures
        ({
            let most = largest_change(a, b);
            &&& -most <= a.0 - b.0 <= most
            &&& -most <= a.1 - b.1 <= most
            &&& -most <= a.2 - b.2 <= most
            &&& -most <= a.3 - b.3 <= most
            &&& {
                ||| most == a.0 - b.0 || most == b.0 - a.0
                ||| most == a.1 - b.1 || most == b.1 - a.1
                ||| most == a.2 - b.2 || most == b.2 - a.2
                ||| most == a.3 - b.3 || most == b.3 - a.3
            }
        }),
{
}

/// The first toggle of a window fills the area and keeps where the window was, whatever
/// was kept for another window; the next one of that window puts it back there and keeps
/// nothing.
pub proof fn toggles_fill_and_put_back(
    saved: Option<(u32, (i32, i32, i32, i32))>,
    win: u32,
    area: (i32, i32, i32, i32),
    rect: (i32, i32, i32, i32),
    later: (i32, i32, i32, i32),
)
    requires
        saved matches Some((other, _)) ==> other != win,
    ensures
        toggle_target(saved, win, area) == area,
        toggle_target(toggled(saved, win, rect), win, later) == rect,
        toggled(toggled(saved, win, rect), win, area) is None,
{
}

/// On its way a rectangle moves each of its four numbers by itself.
pub proof fn rects_move_each_number_by_itself(
    from: (int, int, int, int),
    to: (int, int, int, int),
    i: int,
    steps: int,
)
    ensures
        ({
            let r = eased_rect(from, to, i, steps);
            &&& r.0 == eased(from.0, to.0, i, steps)
            &&& r.1 == eased(from.1, to.1, i, steps)
            &&& r.2 == eased(from.2, to.2, i, steps)
            &&& r.3 == eased(from.3, to.3, i, steps)
        }),
{
}

// === Common areas ===

/// Rectangles share area exactly if some point lies in both.
pub proof fn shared_areas_hold_points(a: (int, int, int, int), b: (int, int, int, int))
    ensures
        common_area(a, b) > 0 <==> exists|x: int, y: int|
            holds_point(a, x, y) && #[trigger] holds_point(b, x, y),
{
    let x = if a.0 >= b.0 {
        a.0
    } else {
        b.0
    };
    let y = if a.1 >= b.1 {
        a.1
    } else {
        b.1
    };
    let ex = if a.0 + a.2 <= b.0 + b.2 {
        a.0 + a.2
    } else {
        b.0 + b.2
    };
    let ey = if a.1 + a.3 <= b.1 + b.3 {
        a.1 + a.3
    } else {
        b.1 + b.3
    };
    if x < ex && y < ey {
        assert(holds_point(a, x, y) && holds_point(b, x, y));
        assert((ex - x) * (ey - y) > 0) by (nonlinear_arith)
            requires
                ex - x > 0,
                ey - y > 0,
        ;
    } else {
        assert forall|px: int, py: int| holds_point(a, px, py) implies !#[trigger] holds_point(
            b,
            px,
            py,
        ) by {
        }
    }
}

/// What a rectangle shares with one that contains it is its own area.
pub proof fn contained_areas_are_shared_whole(a: (int, int, int, int), b: (int, int, int, int))
    requires
        a.2 > 0 && a.3 > 0,
        b.0 <= a.0 && a.0 + a.2 <= b.0 + b.2,
        b.1 <= a.1 && a.1 + a.3 <= b.1 + b.3,
    ensures
        common_area(a, b) == a.2 * a.3,
{
}

/// What two rectangles share is as wide and as high as where one ends behind where the
/// other begins.
pub proof fn corners_share_a_rectangle(a: (int, int, int, int), b: (int, int, int, int))
    requires
        a.0 <= b.0 <= a.0 + a.2 <= b.0 + b.2,
        a.1 <= b.1 <= a.1 + a.3 <= b.1 + b.3,
    ensures
        common_area(a, b) == (a.0 + a.2 - b.0) * (a.1 + a.3 - b.1),
{
    let (w, h) = (a.0 + a.2 - b.0, a.1 + a.3 - b.1);
    assert(w * h == 0 || (w > 0 && h > 0)) by (nonlinear_arith)
        requires
            w >= 0,
            h >= 0,
    ;
}

// === Monitors ===

/// Monitors are ordered left to right, and those that begin in one column top to bottom.
pub proof fn monitors_are_ordered_left_to_right(
    rects: Seq<(i32, i32, i32, i32)>,
    i: int,
    j: int,
)
    requires
        0 <= i < j < rects.len(),
    ensures
        ({
            let (a, b) = (sorted_rects(rects)[i], sorted_rects(rects)[j]);
            a.0 < b.0 || (a.0 == b.0 && a.1 <= b.1)
        }),
{
    rects_are_sorted(rects);
    assert(!stands_before(sorted_rects(rects)[j], sorted_rects(rects)[i]));
}

/// A rectangle lies on another.
pub open spec fn lies_on(r: (int, int, int, int), on: (int, int, int, int)) -> bool {
    &&& on.0 <= r.0 && r.0 + r.2 <= on.0 + on.2
    &&& on.1 <= r.1 && r.1 + r.3 <= on.1 + on.3
}

/// The number that follows `i`, or comes before it, where the last is followed by the
/// first.
pub open spec fn one_step(i: int, len: int, direction: CycleDirection) -> int {
    match direction {
        CycleDirection::Forward => if i + 1 < len {
            i + 1
        } else {
            0
        },
        CycleDirection::Backward => if i > 0 {
            i - 1
        } else {
            len - 1
        },
    }
}

/// A rectangle goes from one monitor to another: it lies on the other, is as large as it
/// was where it fits there and as large as the monitor where it does not, and stands as far
/// from the top-left as it did unless that would put it outside.
pub open spec fn carried_over(
    geom: (int, int, int, int),
    from: (int, int, int, int),
    to: (int, int, int, int),
    r: (int, int, int, int),
) -> bool {
    let (dx, dy) = (geom.0 - from.0, geom.1 - from.1);
    &&& lies_on(r, to)
    &&& r.2 == (if geom.2 <= to.2 {
        geom.2
    } else {
        to.2
    })
    &&& r.3 == (if geom.3 <= to.3 {
        geom.3
    } else {
        to.3
    })
    &&& dx < 0 ==> at_left(r, to)
    &&& 0 <= dx && dx + r.2 <= to.2 ==> r.0 - to.0 == dx
    &&& 0 <= dx && dx + r.2 > to.2 ==> at_right(r, to)
    &&& dy < 0 ==> at_top(r, to)
    &&& 0 <= dy && dy + r.3 <= to.3 ==> r.1 - to.1 == dy
    &&& 0 <= dy && dy + r.3 > to.3 ==> at_bottom(r, to)
}

/// Some monitor holds a point.
pub open spec fn some_holds(rects: Seq<(i32, i32, i32, i32)>, x: int, y: int) -> bool {
    exists|i: int| 0 <= i < rects.len() && holds_point(ints(#[trigger] rects[i]), x, y)
}

/// No point is held by two of the monitors.
pub open spec fn apart(rects: Seq<(i32, i32, i32, i32)>) -> bool {
    forall|i: int, j: int, x: int, y: int|
        0 <= i < rects.len() && 0 <= j < rects.len() && i != j && #[trigger] holds_point(
            ints(rects[i]),
            x,
            y,
        ) ==> !#[trigger] holds_point(ints(rects[j]), x, y)
}

/// A window goes from the monitor number `at` in left-to-right order, which holds its
/// centre, to the one a step from it.
pub open spec fn moves_on(
    rects: Seq<(i32, i32, i32, i32)>,
    geom: (int, int, int, int),
    center: (int, int),
    direction: CycleDirection,
    r: (int, int, int, int),
    at: int,
) -> bool {
    let order = sorted_rects(rects);
    &&& 0 <= at < order.len()
    &&& holds_point(ints(order[at]), center.0, center.1)
    &&& carried_over(
        geom,
        ints(order[at]),
        ints(order[one_step(at, order.len() as int, direction)]),
        r,
    )
}

proof fn lemma_first_holder(rects: Seq<(i32, i32, i32, i32)>, x: int, y: int, i: int)
    requires
        0 <= i,
    ensures
        (exists|k: int| i <= k < rects.len() && holds_point(ints(#[trigger] rects[k]), x, y))
            ==> i <= holder(rects, x, y, i) < rects.len() && holds_point(
            ints(rects[holder(rects, x, y, i)]),
            x,
            y,
        ),
        (forall|k: int| i <= k < rects.len() ==> !holds_point(ints(#[trigger] rects[k]), x, y))
            ==> holder(rects, x, y, i) == 0,
    decreases rects.len() - i,
{
    if i < rects.len() {
        lemma_first_holder(rects, x, y, i + 1);
        if !holds_point(ints(rects[i]), x, y) {
            if exists|k: int| i <= k < rects.len() && holds_point(ints(#[trigger] rects[k]), x, y) {
                let k = choose|k: int|
                    i <= k < rects.len() && holds_point(ints(#[trigger] rects[k]), x, y);
                assert(i + 1 <= k < rects.len());
            }
        }
    }
}

/// Sorting keeps whether some monitor holds a point.
proof fn lemma_sorted_holds(rects: Seq<(i32, i32, i32, i32)>, x: int, y: int)
    ensures
        sorted_rects(rects).len() == rects.len(),
        some_holds(sorted_rects(rects), x, y) == some_holds(rects, x, y),
{
    broadcast use vstd::seq_lib::group_to_multiset_ensures;

    let order = sorted_rects(rects);
    rects_are_sorted(rects);
    if some_holds(rects, x, y) {
        let i = choose|i: int|
            0 <= i < rects.len() && holds_point(ints(#[trigger] rects[i]), x, y);
        assert(rects.contains(rects[i]));
        assert(rects.to_multiset().count(rects[i]) > 0);
        assert(order.contains(rects[i]));
        let k = choose|k: int| 0 <= k < order.len() && order[k] == rects[i];
        assert(holds_point(ints(order[k]), x, y));
    }
    if some_holds(order, x, y) {
        let i = choose|i: int|
            0 <= i < order.len() && holds_point(ints(#[trigger] order[i]), x, y);
        assert(order.contains(order[i]));
        assert(order.to_multiset().count(order[i]) > 0);
        assert(rects.contains(order[i]));
        let k = choose|k: int| 0 <= k < rects.len() && rects[k] == order[i];
        assert(holds_point(ints(rects[k]), x, y));
    }
}

proof fn lemma_one_step(i: int, len: int, direction: CycleDirection)
    requires
        0 <= i < len,
    ensures
        direction.spec_step(i, len) == one_step(i, len, direction),
        0 <= one_step(i, len, direction) < len,
{
    if i + 1 < len {
        assert((i + 1) % len == i + 1) by (nonlinear_arith)
            requires
                0 <= i + 1 < len,
        ;
    } else {
        assert(len % len == 0) by (nonlinear_arith)
            requires
                len > 0,
        ;
    }
    if i > 0 {
        assert((i + len - 1) % len == i - 1) by (nonlinear_arith)
            requires
                0 < i < len,
        ;
    } else {
        assert((len - 1) % len == len - 1) by (nonlinear_arith)
            requires
                len > 0,
        ;
    }
}

/// A window goes on from a monitor that holds its centre, to the next or the previous one
/// in left-to-right order, and lies there.
pub proof fn windows_move_on_from_where_they_are(
    rects: Seq<(i32, i32, i32, i32)>,
    geom: (int, int, int, int),
    center: (int, int),
    direction: CycleDirection,
)
    requires
        some_holds(rects, center.0, center.1),
    ensures
        exists|at: int|
            moves_on(
                rects,
                geom,
                center,
                direction,
                on_next_monitor(rects, geom, center, direction),
                at,
            ),
{
    let order = sorted_rects(rects);
    lemma_sorted_holds(rects, center.0, center.1);
    lemma_first_holder(order, center.0, center.1, 0);
    let at = holder(order, center.0, center.1, 0);
    lemma_one_step(at, order.len() as int, direction);
    let r = on_next_monitor(rects, geom, center, direction);
    assert(moves_on(rects, geom, center, direction, r, at));
}

/// A window whose centre no monitor holds goes on from the leftmost of them.
pub proof fn stray_windows_move_on_from_the_first(
    rects: Seq<(i32, i32, i32, i32)>,
    geom: (int, int, int, int),
    center: (int, int),
    direction: CycleDirection,
)
    requires
        rects.len() > 0,
        !some_holds(rects, center.0, center.1),
    ensures
        ({
            let order = sorted_rects(rects);
            carried_over(
                geom,
                ints(order[0]),
                ints(order[one_step(0, order.len() as int, direction)]),
                on_next_monitor(rects, geom, center, direction),
            )
        }),
{
    let order = sorted_rects(rects);
    lemma_sorted_holds(rects, center.0, center.1);
    lemma_first_holder(order, center.0, center.1, 0);
    lemma_one_step(0, order.len() as int, direction);
}

/// With two monitors that do not overlap, a window whose centre is on one of them goes to
/// the other, in either direction.
pub proof fn two_monitors_swap(
    one: (i32, i32, i32, i32),
    other: (i32, i32, i32, i32),
    geom: (int, int, int, int),
    center: (int, int),
    direction: CycleDirection,
)
    requires
        apart(seq![one, other]),
        holds_point(ints(one), center.0, center.1),
    ensures
        !holds_point(ints(other), center.0, center.1),
        carried_over(
            geom,
            ints(one),
            ints(other),
            on_next_monitor(seq![one, other], geom, center, direction),
        ),
        carried_over(
            geom,
            ints(one),
            ints(other),
            on_next_monitor(seq![other, one], geom, center, direction),
        ),
{
    let a = seq![one, other];
    let b = seq![other, one];
    assert(holds_point(ints(a[0]), center.0, center.1));
    assert(!holds_point(ints(a[1]), center.0, center.1));
    lemma_two_sorted(one, other);
    lemma_two_sorted(other, one);
    reveal_with_fuel(holder, 3);
    assert((0int + 1) % 2 == 1 && (1int + 1) % 2 == 0 && (0int + 2 - 1) % 2 == 1 && (1int + 2 - 1)
        % 2 == 0);
    lemma_one_step(0, 2, direction);
    lemma_one_step(1, 2, direction);
}

proof fn lemma_two_sorted(one: (i32, i32, i32, i32), other: (i32, i32, i32, i32))
    ensures
        sorted_rects(seq![one, other]) == seq![one, other] || sorted_rects(seq![one, other])
            == seq![other, one],
{
    let both = seq![one, other];
    reveal_with_fuel(sorted_rects, 3);
    reveal_with_fuel(sorted_with, 3);
    assert(both.drop_last() =~= seq![one]);
    assert(seq![one].drop_last() =~= Seq::empty());
    assert(sorted_rects(seq![one]) =~= seq![one]);
    assert(sorted_with(seq![one], other) =~= seq![one, other] || sorted_with(seq![one], other)
        =~= seq![other, one]);
}

} // verus!
