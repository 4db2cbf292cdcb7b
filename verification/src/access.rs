//! Finding and activating UI elements through an accessibility bus: which windows
//! to walk and in what order, which elements become hint targets, and how a chosen
//! element is activated.

use crate::element::{Element, ElementView, Role};
use crate::rect::{common_area, holds_point, ints, origin_within, rect_overlap};
use crate::text::{owned, same_text};
use vstd::prelude::*;

verus! {

// === Constants ===

/// How deep a walk goes into the accessibility tree.
pub const MAX_WALK_DEPTH: u32 = 20;

// === Elements ===

/// The role makes an element a hint target.
pub open spec fn spec_actionable(role: Role) -> bool {
    role != Role::Other
}

/// Whether a role makes an element a hint target.
pub fn is_actionable(role: Role) -> (r: bool)
    ensures
        r == spec_actionable(role),
{
    match role {
        Role::Other => false,
        _ => true,
    }
}

/// The element is a menu item of some kind.
pub open spec fn spec_menu_item(role: Role) -> bool {
    role == Role::MenuItem || role == Role::CheckMenuItem || role == Role::RadioMenuItem
}

/// Whether an element is a menu item of some kind.
pub fn is_menu_item(role: Role) -> (r: bool)
    ensures
        r == spec_menu_item(role),
{
    match role {
        Role::MenuItem | Role::CheckMenuItem | Role::RadioMenuItem => true,
        _ => false,
    }
}

/// A node with an actionable role is a hint target: it is showing or visible (some
/// toolkits set only the latter), and has an extent on the screen.
pub open spec fn spec_target(
    showing: bool,
    visible: bool,
    extents: Option<(i32, i32, i32, i32)>,
) -> bool {
    (showing || visible) && (extents matches Some((x, y, w, h)) && w > 0 && h > 0 && x >= 0 && y
        >= 0)
}

/// Whether a node with an actionable role becomes a hint target.
pub fn is_target(showing: bool, visible: bool, extents: Option<(i32, i32, i32, i32)>) -> (r: bool)
    ensures
        r == spec_target(showing, visible, extents),
{
    if !(showing || visible) {
        return false;
    }
    match extents {
        Some((x, y, w, h)) => w > 0 && h > 0 && x >= 0 && y >= 0,
        None => false,
    }
}

/// A Windows control is a hint target: an actionable control that is enabled and on
/// screen, with an extent that begins on the screen and touches the window.
/// Rectangles are given by their edges `(left, top, right, bottom)`.
pub open spec fn control_is_target(
    actionable: bool,
    enabled: bool,
    offscreen: bool,
    rect: (i32, i32, i32, i32),
    window: Option<(i32, i32, i32, i32)>,
) -> bool {
    actionable && enabled && !offscreen && rect.2 > rect.0 && rect.3 > rect.1 && rect.0 >= 0
        && rect.1 >= 0 && (window matches Some(w) ==> edges_touch(rect, w))
}

/// The element of a Windows control, where it is a hint target.
pub fn control_element(
    actionable: bool,
    enabled: bool,
    offscreen: bool,
    rect: (i32, i32, i32, i32),
    window: Option<(i32, i32, i32, i32)>,
    name: String,
) -> (r: Option<Element>)
    ensures
        match r {
            Some(e) => control_is_target(actionable, enabled, offscreen, rect, window) && e@ == (
            ElementView {
                bounds: (
                    rect.0,
                    rect.1,
                    (rect.2 - rect.0) as i32,
                    (rect.3 - rect.1) as i32,
                ),
                label: name@,
                bus_name: Seq::empty(),
                node_path: Seq::empty(),
                role: Role::Other,
            }),
            None => !control_is_target(actionable, enabled, offscreen, rect, window),
        },
{
    if !actionable || !enabled || offscreen {
        return None;
    }
    if rect.2 <= rect.0 || rect.3 <= rect.1 || rect.0 < 0 || rect.1 < 0 {
        return None;
    }
    if let Some(w) = window {
        if !rects_intersect(rect, w) {
            return None;
        }
    }
    let bus_name = String::new();
    let node_path = String::new();
    assert(bus_name@ =~= Seq::empty());
    assert(node_path@ =~= Seq::empty());
    Some(
        Element {
            height: rect.3 - rect.1,
            label: name,
            width: rect.2 - rect.0,
            x: rect.0,
            y: rect.1,
            bus_name,
            node_path,
            role: Role::Other,
        },
    )
}

/// Two rectangles given by their edges share a point.
pub open spec fn edges_touch(a: (i32, i32, i32, i32), b: (i32, i32, i32, i32)) -> bool {
    a.0 < b.2 && a.2 > b.0 && a.1 < b.3 && a.3 > b.1
}

fn rects_intersect(a: (i32, i32, i32, i32), b: (i32, i32, i32, i32)) -> (r: bool)
    ensures
        r == edges_touch(a, b),
{
    a.0 < b.2 && a.2 > b.0 && a.1 < b.3 && a.3 > b.1
}

/// The elements whose origin lies in a rectangle, in order.
pub open spec fn origins_in(elements: Seq<Element>, rect: (int, int, int, int)) -> Seq<Element>
    decreases elements.len(),
{
    if elements.len() == 0 {
        Seq::empty()
    } else {
        let before = origins_in(elements.drop_last(), rect);
        let e = elements.last();
        if holds_point(rect, e.x as int, e.y as int) {
            before.push(e)
        } else {
            before
        }
    }
}

/// The elements whose origin lies in a rectangle.
fn keep_inside(elements: Vec<Element>, rect: (i32, i32, i32, i32)) -> (r: Vec<Element>)
    ensures
        r@ == origins_in(elements@, ints(rect)),
{
    let ghost all = elements@;
    let mut kept: Vec<Element> = Vec::new();
    for e in it: elements
        invariant
            it.seq() == all,
            kept@ == origins_in(all.take(it.index()), ints(rect)),
    {
        proof {
            assert(all.take(it.index() + 1).drop_last() =~= all.take(it.index()));
            assert(all.take(it.index() + 1).last() == e);
        }
        if origin_within(e.x, e.y, rect.0, rect.1, rect.2, rect.3) {
            kept.push(e);
        }
    }
    assert(all.take(all.len() as int) =~= all);
    kept
}

/// What is kept of a window's elements: those whose origin lies in the window's own
/// extents; all where the window reports an empty extent, and none where it reports
/// no extent at all.
pub open spec fn clipped_to_window(
    elements: Seq<Element>,
    extents: Option<(i32, i32, i32, i32)>,
) -> Seq<Element> {
    match extents {
        None => Seq::empty(),
        Some(rect) => if rect.2 <= 0 || rect.3 <= 0 {
            elements
        } else {
            origins_in(elements, ints(rect))
        },
    }
}

/// Discard elements whose origin lies outside the window's own screen extents.
/// Partially overlapping and scrolled-out nodes are still reported as showing;
/// a chip at such an origin would be drawn outside the focused window (typically
/// clamped to the screen edge, where many pile up).
pub fn clip_to_window(elements: Vec<Element>, extents: Option<(i32, i32, i32, i32)>) -> (r: Vec<
    Element,
>)
    ensures
        r@ == clipped_to_window(elements@, extents),
{
    match extents {
        None => Vec::new(),
        Some(rect) => if rect.2 <= 0 || rect.3 <= 0 {
            elements
        } else {
            keep_inside(elements, rect)
        },
    }
}

/// What is kept of the elements by the active window's bounds, where those are
/// known.
pub open spec fn clipped_to_bounds(
    elements: Seq<Element>,
    bounds: Option<(i32, i32, i32, i32)>,
) -> Seq<Element> {
    match bounds {
        None => elements,
        Some(rect) => origins_in(elements, ints(rect)),
    }
}

/// Drop elements whose origin falls outside the active window's bounds. The walk
/// can reach windows other than the focused one (other windows of a multi-window
/// app, off-screen popups); their chips would land off the window.
pub fn clipped_to_active(elements: Vec<Element>, bounds: Option<(i32, i32, i32, i32)>) -> (r: Vec<
    Element,
>)
    ensures
        r@ == clipped_to_bounds(elements@, bounds),
{
    match bounds {
        None => elements,
        Some(rect) => keep_inside(elements, rect),
    }
}

/// Every element that is kept has its origin in the rectangle and was there
/// before.
pub proof fn clipping_keeps_what_is_inside(elements: Seq<Element>, rect: (int, int, int, int))
    ensures
        origins_in(elements, rect).len() <= elements.len(),
        forall|i: int|
            0 <= i < origins_in(elements, rect).len() ==> holds_point(
                rect,
                (#[trigger] origins_in(elements, rect)[i]).x as int,
                origins_in(elements, rect)[i].y as int,
            ) && elements.contains(origins_in(elements, rect)[i]),
        forall|k: int|
            0 <= k < elements.len() && holds_point(
                rect,
                (#[trigger] elements[k]).x as int,
                elements[k].y as int,
            ) ==> origins_in(elements, rect).contains(elements[k]),
    decreases elements.len(),
{
    if elements.len() > 0 {
        let init = elements.drop_last();
        let last = elements.last();
        let before = origins_in(init, rect);
        let kept = origins_in(elements, rect);
        clipping_keeps_what_is_inside(init, rect);
        assert forall|i: int| 0 <= i < kept.len() implies holds_point(
            rect,
            (#[trigger] kept[i]).x as int,
            kept[i].y as int,
        ) && elements.contains(kept[i]) by {
            if i < before.len() {
                assert(kept[i] == before[i]);
                let k = choose|k: int| 0 <= k < init.len() && init[k] == before[i];
                assert(elements[k] == kept[i]);
            } else {
                assert(elements[elements.len() - 1] == kept[i]);
            }
        }
        assert forall|k: int|
            0 <= k < elements.len() && holds_point(
                rect,
                (#[trigger] elements[k]).x as int,
                elements[k].y as int,
            ) implies kept.contains(elements[k]) by {
            if k < init.len() {
                assert(init[k] == elements[k]);
                let i = choose|i: int| 0 <= i < before.len() && before[i] == elements[k];
                assert(kept[i] == elements[k]);
            } else {
                assert(kept[before.len() as int] == elements[k]);
            }
        }
    }
}

// === Choosing a window ===

/// The area a window shares with a target; none where its extents are unknown.
pub open spec fn share(extents: Option<(i32, i32, i32, i32)>, target: (int, int, int, int)) -> int {
    match extents {
        Some(rect) => common_area(ints(rect), target),
        None => 0,
    }
}

/// The window of the first `n` that shares most with the target, the first of
/// those that share alike; none where none shares anything.
pub open spec fn best_share(
    extents: Seq<Option<(i32, i32, i32, i32)>>,
    target: (int, int, int, int),
    n: nat,
) -> Option<int>
    decreases n,
{
    if n == 0 {
        None
    } else {
        let before = best_share(extents, target, (n - 1) as nat);
        let now = share(extents[n - 1], target);
        match before {
            Some(k) => if now > share(extents[k], target) {
                Some(n - 1)
            } else {
                before
            },
            None => if now > 0 {
                Some(n - 1)
            } else {
                None
            },
        }
    }
}

/// The window whose extents overlap the target most, if any overlaps it.
pub fn window_at_bounds(
    extents: &Vec<Option<(i32, i32, i32, i32)>>,
    target: (i32, i32, i32, i32),
) -> (r: Option<usize>)
    ensures
        match r {
            Some(k) => k < extents@.len() && best_share(extents@, ints(target), extents@.len())
                == Some(k as int),
            None => best_share(extents@, ints(target), extents@.len()) is None,
        },
{
    let mut best: Option<usize> = None;
    let mut most: i64 = 0;
    let mut i: usize = 0;
    while i < extents.len()
        invariant
            i <= extents@.len(),
            match best {
                Some(k) => k < i && best_share(extents@, ints(target), i as nat) == Some(k as int)
                    && most == share(extents@[k as int], ints(target)) && most > 0,
                None => best_share(extents@, ints(target), i as nat) is None && most == 0,
            },
        decreases extents@.len() - i,
    {
        if let Some(rect) = extents[i] {
            let overlap: i64 = rect_overlap(rect, target);
            if overlap > most {
                best = Some(i);
                most = overlap;
            }
        }
        i = i + 1;
    }
    best
}

proof fn lemma_best_share(
    extents: Seq<Option<(i32, i32, i32, i32)>>,
    target: (int, int, int, int),
    n: nat,
)
    requires
        n <= extents.len(),
    ensures
        match best_share(extents, target, n) {
            Some(k) => 0 <= k < n && share(extents[k], target) > 0 && forall|j: int|
                0 <= j < n ==> share(#[trigger] extents[j], target) <= share(extents[k], target),
            None => forall|j: int| 0 <= j < n ==> share(#[trigger] extents[j], target) <= 0,
        },
    decreases n,
{
    if n > 0 {
        lemma_best_share(extents, target, (n - 1) as nat);
    }
}

/// No window shares more with the target than the one that is chosen, and one is
/// chosen if any shares something.
pub proof fn the_best_window_is_chosen(
    extents: Seq<Option<(i32, i32, i32, i32)>>,
    target: (int, int, int, int),
)
    ensures
        match best_share(extents, target, extents.len()) {
            Some(k) => 0 <= k < extents.len() && share(extents[k], target) > 0 && forall|j: int|
                0 <= j < extents.len() ==> share(#[trigger] extents[j], target) <= share(
                    extents[k],
                    target,
                ),
            None => forall|j: int|
                0 <= j < extents.len() ==> share(#[trigger] extents[j], target) <= 0,
        },
{
    lemma_best_share(extents, target, extents.len());
}

// === Search order ===

/// Which windows a search looks at.
#[derive(Clone, Copy, Debug, Eq, PartialEq, Structural)]
pub enum Pool {
    /// Those of the focused process.
    Own,
    /// All of them.
    All,
}

/// The state of a search for the focused window's elements: what it will do next.
#[derive(Clone, Copy, Debug, Eq, PartialEq, Structural)]
pub enum Search {
    /// Find the window of the focused process at the active window's bounds.
    AtBounds,
    /// Look at window number `i` of a pool: whether it is active.
    IsActive(Pool, usize),
    /// Look at window number `i` of a pool: whether it has the focus.
    IsFocused(Pool, usize),
    /// Walk the window at the bounds.
    WalkAtBounds(usize),
    /// Walk window number `i` of a pool because it is active.
    WalkActive(Pool, usize),
    /// Walk window number `i` of a pool because it has the focus.
    WalkFocused(Pool, usize),
    /// Walk all windows of the focused process.
    WalkOwn,
    /// The elements of the last walk are the result.
    Found,
    /// There are none.
    Empty,
}

/// What was found out for a search.
#[derive(Clone, Copy, Debug)]
pub enum Reply {
    /// The window at the bounds, if there is one.
    Window(Option<usize>),
    /// Whether the window has the state that was asked for.
    State(bool),
    /// Whether a walk found any elements.
    Walked(bool),
}

/// Where the look at the states of the windows of a pool goes on from number `i`.
pub open spec fn active_from(pool: Pool, i: int, own: int, all: int) -> Search {
    match pool {
        Pool::Own => if i < own {
            Search::IsActive(Pool::Own, i as usize)
        } else {
            focused_from(Pool::Own, 0, own, all)
        },
        Pool::All => if i < all {
            Search::IsActive(Pool::All, i as usize)
        } else {
            focused_from(Pool::All, 0, own, all)
        },
    }
}

/// The same for the focus.
pub open spec fn focused_from(pool: Pool, i: int, own: int, all: int) -> Search {
    match pool {
        Pool::Own => if i < own {
            Search::IsFocused(Pool::Own, i as usize)
        } else {
            Search::WalkOwn
        },
        Pool::All => if i < all {
            Search::IsFocused(Pool::All, i as usize)
        } else {
            Search::Empty
        },
    }
}

/// Where a search begins, with `own` windows of the focused process and `all`
/// windows in all: at the bounds of the active window, if those are known and the
/// process has windows.
pub open spec fn search_start(own: int, all: int, has_bounds: bool) -> Search {
    if own > 0 && has_bounds {
        Search::AtBounds
    } else if own > 0 {
        active_from(Pool::Own, 0, own, all)
    } else {
        active_from(Pool::All, 0, own, all)
    }
}

/// How a search goes on. In order of reliability: the window of the process at the
/// active window's bounds, its active windows, its focused ones, all of its
/// windows together, and then the active and the focused windows of any process;
/// the first walk that finds elements ends it.
pub open spec fn search_next(s: Search, reply: Reply, own: int, all: int) -> Search {
    match (s, reply) {
        (Search::AtBounds, Reply::Window(Some(k))) => Search::WalkAtBounds(k),
        (Search::AtBounds, _) => active_from(Pool::Own, 0, own, all),
        (Search::WalkAtBounds(_), Reply::Walked(true)) => Search::Found,
        (Search::WalkAtBounds(_), _) => active_from(Pool::Own, 0, own, all),
        (Search::IsActive(pool, i), Reply::State(true)) => Search::WalkActive(pool, i),
        (Search::IsActive(pool, i), _) => active_from(pool, i + 1, own, all),
        (Search::WalkActive(_, _), Reply::Walked(true)) => Search::Found,
        (Search::WalkActive(pool, i), _) => active_from(pool, i + 1, own, all),
        (Search::IsFocused(pool, i), Reply::State(true)) => Search::WalkFocused(pool, i),
        (Search::IsFocused(pool, i), _) => focused_from(pool, i + 1, own, all),
        (Search::WalkFocused(_, _), Reply::Walked(true)) => Search::Found,
        (Search::WalkFocused(pool, i), _) => focused_from(pool, i + 1, own, all),
        (Search::WalkOwn, Reply::Walked(true)) => Search::Found,
        (Search::WalkOwn, _) => active_from(Pool::All, 0, own, all),
        (Search::Found, _) => Search::Found,
        (Search::Empty, _) => Search::Empty,
    }
}

fn after_active(pool: Pool, i: Option<usize>, own: usize, all: usize) -> (r: Search)
    ensures
        r == active_from(
            pool,
            match i {
                Some(k) => k + 1,
                None => 0,
            },
            own as int,
            all as int,
        ),
{
    let total: usize = match pool {
        Pool::Own => own,
        Pool::All => all,
    };
    match i {
        None => if total > 0 {
            Search::IsActive(pool, 0)
        } else {
            after_focused(pool, None, own, all)
        },
        Some(k) => if k < total && k + 1 < total {
            Search::IsActive(pool, k + 1)
        } else {
            after_focused(pool, None, own, all)
        },
    }
}

fn after_focused(pool: Pool, i: Option<usize>, own: usize, all: usize) -> (r: Search)
    ensures
        r == focused_from(
            pool,
            match i {
                Some(k) => k + 1,
                None => 0,
            },
            own as int,
            all as int,
        ),
{
    let total: usize = match pool {
        Pool::Own => own,
        Pool::All => all,
    };
    let rest = match pool {
        Pool::Own => Search::WalkOwn,
        Pool::All => Search::Empty,
    };
    match i {
        None => if total > 0 {
            Search::IsFocused(pool, 0)
        } else {
            rest
        },
        Some(k) => if k < total && k + 1 < total {
            Search::IsFocused(pool, k + 1)
        } else {
            rest
        },
    }
}

impl Search {
    /// Where a search begins, with `own` windows of the focused process and `all`
    /// windows in all.
    pub fn start(own: usize, all: usize, has_bounds: bool) -> (r: Search)
        ensures
            r == search_start(own as int, all as int, has_bounds),
    {
        if own > 0 && has_bounds {
            Search::AtBounds
        } else if own > 0 {
            after_active(Pool::Own, None, own, all)
        } else {
            after_active(Pool::All, None, own, all)
        }
    }

    /// How the search goes on after a reply.
    pub fn next(self, reply: Reply, own: usize, all: usize) -> (r: Search)
        ensures
            r == search_next(self, reply, own as int, all as int),
    {
        match self {
            Search::AtBounds => match reply {
                Reply::Window(Some(k)) => Search::WalkAtBounds(k),
                _ => after_active(Pool::Own, None, own, all),
            },
            Search::WalkAtBounds(_) => match reply {
                Reply::Walked(true) => Search::Found,
                _ => after_active(Pool::Own, None, own, all),
            },
            Search::IsActive(pool, i) => match reply {
                Reply::State(true) => Search::WalkActive(pool, i),
                _ => after_active(pool, Some(i), own, all),
            },
            Search::WalkActive(pool, i) => match reply {
                Reply::Walked(true) => Search::Found,
                _ => after_active(pool, Some(i), own, all),
            },
            Search::IsFocused(pool, i) => match reply {
                Reply::State(true) => Search::WalkFocused(pool, i),
                _ => after_focused(pool, Some(i), own, all),
            },
            Search::WalkFocused(pool, i) => match reply {
                Reply::Walked(true) => Search::Found,
                _ => after_focused(pool, Some(i), own, all),
            },
            Search::WalkOwn => match reply {
                Reply::Walked(true) => Search::Found,
                _ => after_active(Pool::All, None, own, all),
            },
            Search::Found => Search::Found,
            Search::Empty => Search::Empty,
        }
    }
}

/// How far along a search is; it grows with every step until the search ends.
pub open spec fn search_rank(s: Search, own: int, all: int) -> int {
    let m = 2 * (if own >= all {
        own
    } else {
        all
    }) + 4;
    match s {
        Search::AtBounds => 0,
        Search::WalkAtBounds(_) => 1,
        Search::IsActive(Pool::Own, i) => 2 + 2 * i,
        Search::WalkActive(Pool::Own, i) => 3 + 2 * i,
        Search::IsFocused(Pool::Own, i) => m + 2 * i,
        Search::WalkFocused(Pool::Own, i) => m + 1 + 2 * i,
        Search::WalkOwn => 2 * m,
        Search::IsActive(Pool::All, i) => 2 * m + 1 + 2 * i,
        Search::WalkActive(Pool::All, i) => 2 * m + 2 + 2 * i,
        Search::IsFocused(Pool::All, i) => 3 * m + 2 * i,
        Search::WalkFocused(Pool::All, i) => 3 * m + 1 + 2 * i,
        Search::Found => 4 * m,
        Search::Empty => 4 * m,
    }
}

/// The search is at a window that there is.
pub open spec fn search_valid(s: Search, own: int, all: int) -> bool {
    match s {
        Search::IsActive(Pool::Own, i) => i < own,
        Search::WalkActive(Pool::Own, i) => i < own,
        Search::IsFocused(Pool::Own, i) => i < own,
        Search::WalkFocused(Pool::Own, i) => i < own,
        Search::IsActive(Pool::All, i) => i < all,
        Search::WalkActive(Pool::All, i) => i < all,
        Search::IsFocused(Pool::All, i) => i < all,
        Search::WalkFocused(Pool::All, i) => i < all,
        _ => true,
    }
}

/// A search only ever looks at windows that there are, and every reply brings it
/// further, so it ends.
pub proof fn searches_end(s: Search, reply: Reply, own: int, all: int)
    requires
        0 <= own <= usize::MAX,
        0 <= all <= usize::MAX,
        search_valid(s, own, all),
    ensures
        search_valid(search_next(s, reply, own, all), own, all),
        s is Found || s is Empty || search_rank(s, own, all) < search_rank(
            search_next(s, reply, own, all),
            own,
            all,
        ) <= search_rank(Search::Empty, own, all),
        s is Found || s is Empty ==> search_next(s, reply, own, all) == s,
{
}

// === Activation ===

/// The next way to try to activate an element.
#[derive(Clone, Copy, Debug, Eq, PartialEq, Structural)]
pub enum Activation {
    /// Ask the element to perform its own action.
    OwnAction,
    /// Click at this point.
    Click(i32, i32),
    /// Ask again for the element's own action.
    OwnActionAgain,
    /// Give the element the focus and press Return.
    FocusAndReturn,
    /// The element was activated.
    Done,
}

/// The centre of an element.
pub open spec fn element_center(e: Element) -> (int, int) {
    (
        e.x + crate::geometry::quotient(e.width as int, 2),
        e.y + crate::geometry::quotient(e.height as int, 2),
    )
}

/// A click at the element's centre, if that is on the screen; else the element's
/// own action.
pub open spec fn click_or_action(e: Element) -> Activation {
    let (x, y) = element_center(e);
    if x >= 0 && y >= 0 {
        Activation::Click(x as i32, y as i32)
    } else {
        Activation::OwnActionAgain
    }
}

/// The first way to try: a menu item's own action (reliable under the toolkit's
/// menu grab), else a click.
pub open spec fn first_activation(e: Element) -> Activation {
    if spec_menu_item(e.role) {
        Activation::OwnAction
    } else {
        click_or_action(e)
    }
}

/// The way to try after another, which worked or not: the element's own action for
/// a menu item, a click, the element's own action, and at last the focus and
/// Return.
pub open spec fn next_activation(e: Element, tried: Activation, worked: bool) -> Activation {
    if worked {
        Activation::Done
    } else {
        match tried {
            Activation::OwnAction => click_or_action(e),
            Activation::Click(_, _) => Activation::OwnActionAgain,
            Activation::OwnActionAgain => Activation::FocusAndReturn,
            Activation::FocusAndReturn => Activation::Done,
            Activation::Done => Activation::Done,
        }
    }
}

fn click_spot(e: &Element) -> (r: Activation)
    requires
        crate::geometry::fits(element_center(*e).0),
        crate::geometry::fits(element_center(*e).1),
    ensures
        r == click_or_action(*e),
{
    let (x, y) = crate::geometry::center_of((e.x, e.y, e.width, e.height));
    if x >= 0 && y >= 0 {
        Activation::Click(x as i32, y as i32)
    } else {
        Activation::OwnActionAgain
    }
}

/// The first way to try to activate an element.
pub fn start_activation(e: &Element) -> (r: Activation)
    requires
        crate::geometry::fits(element_center(*e).0),
        crate::geometry::fits(element_center(*e).1),
    ensures
        r == first_activation(*e),
{
    if is_menu_item(e.role) {
        Activation::OwnAction
    } else {
        click_spot(e)
    }
}

/// The way to try after another, which worked or not.
pub fn continue_activation(e: &Element, tried: Activation, worked: bool) -> (r: Activation)
    requires
        crate::geometry::fits(element_center(*e).0),
        crate::geometry::fits(element_center(*e).1),
    ensures
        r == next_activation(*e, tried, worked),
{
    if worked {
        return Activation::Done;
    }
    match tried {
        Activation::OwnAction => click_spot(e),
        Activation::Click(_, _) => Activation::OwnActionAgain,
        Activation::OwnActionAgain => Activation::FocusAndReturn,
        Activation::FocusAndReturn => Activation::Done,
        Activation::Done => Activation::Done,
    }
}

// === Windows of the bus ===

/// The bus name of the registry, which is no application.
pub const REGISTRY_DEST: &'static str = "org.a11y.atspi.Registry";

/// One object on the bus.
#[derive(Debug)]
pub struct NodeRef {
    pub bus_name: String,
    pub path: String,
}

/// What a [`NodeRef`] says.
pub struct NodeView {
    pub bus_name: Seq<char>,
    pub path: Seq<char>,
}

impl View for NodeRef {
    type V = NodeView;

    open spec fn view(&self) -> NodeView {
        NodeView { bus_name: self.bus_name@, path: self.path@ }
    }
}

impl NodeRef {
    /// The same object.
    pub fn copied(&self) -> (r: NodeRef)
        ensures
            r@ == self@,
    {
        NodeRef { bus_name: owned(self.bus_name.as_str()), path: owned(self.path.as_str()) }
    }
}

/// What a list of objects says.
pub open spec fn node_views(nodes: Seq<NodeRef>) -> Seq<NodeView> {
    nodes.map_values(|n: NodeRef| n@)
}

/// One application on the bus: its name, its windows where they could be listed, and
/// its process where that is known.
#[derive(Debug)]
pub struct BusApp {
    pub name: String,
    pub windows: Option<Vec<NodeRef>>,
    pub pid: Option<u32>,
}

/// The windows an application adds: none for the registry and where they could not
/// be listed.
pub open spec fn windows_of(app: BusApp) -> Seq<NodeView> {
    match app.windows {
        Some(windows) if app.name@ != REGISTRY_DEST@ => node_views(windows@),
        _ => Seq::empty(),
    }
}

/// The application is the focused process.
pub open spec fn is_focused_app(app: BusApp, focused: Option<u32>) -> bool {
    focused is Some && app.pid == focused
}

/// The windows of all applications, in order.
pub open spec fn all_windows(apps: Seq<BusApp>) -> Seq<NodeView>
    decreases apps.len(),
{
    if apps.len() == 0 {
        Seq::empty()
    } else {
        all_windows(apps.drop_last()) + windows_of(apps.last())
    }
}

/// The windows of the focused process, in order.
pub open spec fn own_windows(apps: Seq<BusApp>, focused: Option<u32>) -> Seq<NodeView>
    decreases apps.len(),
{
    if apps.len() == 0 {
        Seq::empty()
    } else if is_focused_app(apps.last(), focused) {
        own_windows(apps.drop_last(), focused) + windows_of(apps.last())
    } else {
        own_windows(apps.drop_last(), focused)
    }
}

fn append_copies(to: &mut Vec<NodeRef>, nodes: &Vec<NodeRef>)
    ensures
        node_views(final(to)@) == node_views(old(to)@) + node_views(nodes@),
{
    let ghost before = node_views(to@);
    let mut i: usize = 0;
    assert(node_views(nodes@).take(0) =~= Seq::empty());
    while i < nodes.len()
        invariant
            i <= nodes@.len(),
            before == node_views(old(to)@),
            node_views(to@) =~= before + node_views(nodes@).take(i as int),
        decreases nodes@.len() - i,
    {
        let node = nodes[i].copied();
        let ghost so_far = node_views(to@);
        to.push(node);
        assert(node_views(to@) =~= so_far.push(node@));
        assert(node_views(nodes@).take(i + 1) =~= node_views(nodes@).take(i as int).push(node@));
        i = i + 1;
    }
    assert(node_views(nodes@).take(nodes@.len() as int) =~= node_views(nodes@));
}

/// The windows of the focused process, and those of all applications.
pub fn gather_windows(apps: &Vec<BusApp>, focused: Option<u32>) -> (r: (
    Vec<NodeRef>,
    Vec<NodeRef>,
))
    ensures
        node_views(r.0@) == own_windows(apps@, focused),
        node_views(r.1@) == all_windows(apps@),
{
    let mut own: Vec<NodeRef> = Vec::new();
    let mut all: Vec<NodeRef> = Vec::new();
    let mut i: usize = 0;
    assert(node_views(own@) =~= Seq::empty());
    assert(node_views(all@) =~= Seq::empty());
    while i < apps.len()
        invariant
            i <= apps@.len(),
            node_views(own@) == own_windows(apps@.take(i as int), focused),
            node_views(all@) == all_windows(apps@.take(i as int)),
        decreases apps@.len() - i,
    {
        proof {
            assert(apps@.take(i + 1).drop_last() =~= apps@.take(i as int));
            assert(apps@.take(i + 1).last() == apps@[i as int]);
            assert(own_windows(apps@.take(i as int), focused) + Seq::<NodeView>::empty()
                =~= own_windows(apps@.take(i as int), focused));
            assert(all_windows(apps@.take(i as int)) + Seq::<NodeView>::empty() =~= all_windows(
                apps@.take(i as int),
            ));
        }
        if !same_text(apps[i].name.as_str(), REGISTRY_DEST) {
            if let Some(windows) = &apps[i].windows {
                let is_own = match (focused, apps[i].pid) {
                    (Some(a), Some(b)) => a == b,
                    _ => false,
                };
                if is_own {
                    append_copies(&mut own, windows);
                }
                append_copies(&mut all, windows);
            }
        }
        i = i + 1;
    }
    assert(apps@.take(apps@.len() as int) =~= apps@);
    (own, all)
}

// === Walking ===

/// What the bus says of an object.
#[derive(Debug)]
pub struct NodeSeen {
    pub role: Role,
    pub label: String,
    pub children: Vec<NodeRef>,
    pub showing: bool,
    pub visible: bool,
    pub extents: Option<(i32, i32, i32, i32)>,
}

/// What a [`NodeSeen`] says.
pub struct NodeSeenView {
    pub role: Role,
    pub label: Seq<char>,
    pub children: Seq<NodeView>,
    pub showing: bool,
    pub visible: bool,
    pub extents: Option<(i32, i32, i32, i32)>,
}

impl View for NodeSeen {
    type V = NodeSeenView;

    open spec fn view(&self) -> NodeSeenView {
        NodeSeenView {
            role: self.role,
            label: self.label@,
            children: node_views(self.children@),
            showing: self.showing,
            visible: self.visible,
            extents: self.extents,
        }
    }
}

/// What the bus says of an object, where it says anything.
pub open spec fn seen_view(seen: Option<NodeSeen>) -> Option<NodeSeenView> {
    match seen {
        Some(s) => Some(s@),
        None => None,
    }
}

/// What a list of elements says.
pub open spec fn element_views(elements: Seq<Element>) -> Seq<ElementView> {
    elements.map_values(|e: Element| e@)
}

/// The hint target that an object is, if it is one.
pub open spec fn own_target(node: NodeView, seen: NodeSeenView) -> Seq<ElementView> {
    if spec_actionable(seen.role) && spec_target(seen.showing, seen.visible, seen.extents) {
        seq![
            ElementView {
                bounds: seen.extents->0,
                label: seen.label,
                bus_name: node.bus_name,
                node_path: node.path,
                role: seen.role,
            },
        ]
    } else {
        Seq::empty()
    }
}

/// The hint targets in the tree below an object, the object first and its children
/// in order; branches are cut where the walk gets too deep, and where the bus says
/// nothing of an object.
pub open spec fn targets_below(
    bus: spec_fn(NodeView) -> Option<NodeSeenView>,
    node: NodeView,
    depth: nat,
) -> Seq<ElementView>
    decreases MAX_WALK_DEPTH + 1 - depth, 0nat,
{
    if depth > MAX_WALK_DEPTH {
        Seq::empty()
    } else {
        match bus(node) {
            Some(seen) => own_target(node, seen) + targets_below_all(
                bus,
                seen.children,
                depth + 1,
            ),
            None => Seq::empty(),
        }
    }
}

/// The hint targets in the trees below objects, in order.
pub open spec fn targets_below_all(
    bus: spec_fn(NodeView) -> Option<NodeSeenView>,
    nodes: Seq<NodeView>,
    depth: nat,
) -> Seq<ElementView>
    decreases MAX_WALK_DEPTH + 1 - depth, nodes.len(),
{
    if nodes.len() == 0 || depth > MAX_WALK_DEPTH {
        Seq::empty()
    } else {
        targets_below(bus, nodes[0], depth) + targets_below_all(bus, nodes.drop_first(), depth)
    }
}

/// A walk over the accessibility tree: the objects it still has to visit, the next
/// one last, and the hint targets found so far.
#[derive(Debug)]
pub struct Walk {
    pending: Vec<(NodeRef, u32)>,
    found: Vec<Element>,
}

/// What a [`Walk`] holds.
pub struct WalkView {
    pub pending: Seq<(NodeView, nat)>,
    pub found: Seq<ElementView>,
}

spec fn pending_views(pending: Seq<(NodeRef, u32)>) -> Seq<(NodeView, nat)> {
    pending.map_values(|p: (NodeRef, u32)| (p.0@, p.1 as nat))
}

impl View for Walk {
    type V = WalkView;

    closed spec fn view(&self) -> WalkView {
        WalkView { pending: pending_views(self.pending@), found: element_views(self.found@) }
    }
}

/// Children to visit at a depth, the first one last.
pub open spec fn stacked(children: Seq<NodeView>, depth: nat) -> Seq<(NodeView, nat)> {
    Seq::new(children.len(), |i: int| (children[children.len() - 1 - i], depth))
}

/// A walk after the bus has told of the object that was next: a hint target is
/// noted, and the children come next unless the walk gets too deep.
pub open spec fn walked(w: WalkView, seen: Option<NodeSeenView>) -> WalkView {
    if w.pending.len() == 0 {
        w
    } else {
        let (node, depth) = w.pending.last();
        let rest = w.pending.drop_last();
        match seen {
            Some(s) => WalkView {
                pending: if depth < MAX_WALK_DEPTH {
                    rest + stacked(s.children, depth + 1)
                } else {
                    rest
                },
                found: w.found + own_target(node, s),
            },
            None => WalkView { pending: rest, found: w.found },
        }
    }
}

impl Walk {
    /// A walk from an object on.
    pub fn new(root: NodeRef) -> (r: Walk)
        ensures
            r@ == (WalkView { pending: seq![(root@, 0nat)], found: Seq::empty() }),
    {
        let mut pending: Vec<(NodeRef, u32)> = Vec::new();
        pending.push((root, 0));
        let found: Vec<Element> = Vec::new();
        assert(pending_views(pending@) =~= seq![(root@, 0nat)]);
        assert(element_views(found@) =~= Seq::empty());
        Walk { pending, found }
    }

    /// The object to ask the bus about next; none where the walk is over.
    pub fn next(&self) -> (r: Option<NodeRef>)
        ensures
            match r {
                Some(node) => self@.pending.len() > 0 && node@ == self@.pending.last().0,
                None => self@.pending.len() == 0,
            },
    {
        let total: usize = self.pending.len();
        if total == 0 {
            None
        } else {
            Some(self.pending[total - 1].0.copied())
        }
    }

    /// What the bus has told of that object.
    pub fn visit(&mut self, seen: Option<NodeSeen>)
        ensures
            final(self)@ == walked(old(self)@, seen_view(seen)),
    {
        let ghost before = self@;
        match self.pending.pop() {
            None => {},
            Some((node, depth)) => {
                assert(pending_views(self.pending@) =~= before.pending.drop_last());
                if let Some(s) = seen {
                    let ghost told = s@;
                    if is_actionable(s.role) && is_target(s.showing, s.visible, s.extents) {
                        if let Some((x, y, width, height)) = s.extents {
                            let element = Element {
                                height,
                                label: s.label,
                                width,
                                x,
                                y,
                                bus_name: node.bus_name,
                                node_path: node.path,
                                role: s.role,
                            };
                            self.found.push(element);
                            assert(element_views(self.found@) =~= before.found.push(element@));
                        }
                    }
                    assert(element_views(self.found@) =~= before.found + own_target(
                        before.pending.last().0,
                        told,
                    ));
                    if depth < MAX_WALK_DEPTH {
                        self.stack_children(s.children, depth + 1);
                    }
                }
            },
        }
    }

    fn stack_children(&mut self, children: Vec<NodeRef>, depth: u32)
        ensures
            final(self)@ == (WalkView {
                pending: old(self)@.pending + stacked(node_views(children@), depth as nat),
                ..old(self)@
            }),
    {
        let ghost before = self@.pending;
        let ghost all = node_views(children@);
        let ghost wanted = stacked(all, depth as nat);
        let mut rest = children;
        while rest.len() > 0
            invariant
                rest@.len() <= all.len(),
                node_views(rest@) == all.take(rest@.len() as int),
                wanted == stacked(all, depth as nat),
                before == old(self)@.pending,
                self.found == old(self).found,
                self@.pending =~= before + wanted.take(all.len() - rest@.len()),
            decreases rest@.len(),
        {
            let ghost held = rest@;
            if let Some(node) = rest.pop() {
                proof {
                    let k = all.len() - held.len();
                    assert(node_views(held)[held.len() - 1] == node@);
                    assert(wanted[k] == (node@, depth as nat));
                    assert(wanted.take(k + 1) =~= wanted.take(k).push(wanted[k]));
                    assert(node_views(rest@) =~= all.take(rest@.len() as int));
                }
                let ghost so_far = self@.pending;
                self.pending.push((node, depth));
                assert(self@.pending =~= so_far.push((node@, depth as nat)));
            }
        }
        assert(wanted.take(all.len() as int) =~= wanted);
    }

    /// The hint targets that were found.
    pub fn finish(self) -> (r: Vec<Element>)
        ensures
            element_views(r@) == self@.found,
    {
        self.found
    }
}

/// What the objects still to visit will bring.
pub open spec fn targets_to_come(
    bus: spec_fn(NodeView) -> Option<NodeSeenView>,
    pending: Seq<(NodeView, nat)>,
) -> Seq<ElementView>
    decreases pending.len(),
{
    if pending.len() == 0 {
        Seq::empty()
    } else {
        targets_below(bus, pending.last().0, pending.last().1) + targets_to_come(
            bus,
            pending.drop_last(),
        )
    }
}

proof fn lemma_stacked_targets(
    bus: spec_fn(NodeView) -> Option<NodeSeenView>,
    rest: Seq<(NodeView, nat)>,
    children: Seq<NodeView>,
    depth: nat,
)
    requires
        depth <= MAX_WALK_DEPTH,
    ensures
        targets_to_come(bus, rest + stacked(children, depth)) == targets_below_all(
            bus,
            children,
            depth,
        ) + targets_to_come(bus, rest),
    decreases children.len(),
{
    let stack = rest + stacked(children, depth);
    if children.len() == 0 {
        assert(stack =~= rest);
        assert(targets_below_all(bus, children, depth) + targets_to_come(bus, rest)
            =~= targets_to_come(bus, rest));
    } else {
        let tail = children.drop_first();
        assert(stack.last() == (children[0], depth));
        assert(stack.drop_last() =~= rest + stacked(tail, depth));
        lemma_stacked_targets(bus, rest, tail, depth);
        assert(targets_to_come(bus, stack) =~= targets_below_all(bus, children, depth)
            + targets_to_come(bus, rest));
    }
}

/// A walk finds the hint targets of the tree in order: what it has found together
/// with what is still to come does not change with any visit, begins as the targets
/// of the whole tree, and ends as what was found.
pub proof fn walks_find_all_targets(
    bus: spec_fn(NodeView) -> Option<NodeSeenView>,
    w: WalkView,
    root: NodeView,
)
    ensures
        w.pending.len() > 0 && w.pending.last().1 <= MAX_WALK_DEPTH ==> ({
            let after = walked(w, bus(w.pending.last().0));
            after.found + targets_to_come(bus, after.pending) == w.found + targets_to_come(
                bus,
                w.pending,
            )
        }),
        Seq::<ElementView>::empty() + targets_to_come(bus, seq![(root, 0nat)]) == targets_below(
            bus,
            root,
            0,
        ),
        w.pending.len() == 0 ==> w.found + targets_to_come(bus, w.pending) == w.found,
{
    let start = seq![(root, 0nat)];
    assert(targets_to_come(bus, start.drop_last()) =~= Seq::empty());
    assert(start.last() == (root, 0nat));
    assert(Seq::<ElementView>::empty() + targets_to_come(bus, start) =~= targets_below(
        bus,
        root,
        0,
    ));
    if w.pending.len() == 0 {
        assert(w.found + targets_to_come(bus, w.pending) =~= w.found);
    } else if w.pending.last().1 <= MAX_WALK_DEPTH {
        let (node, depth) = w.pending.last();
        let rest = w.pending.drop_last();
        let after = walked(w, bus(node));
        match bus(node) {
            Some(seen) => {
                if depth < MAX_WALK_DEPTH {
                    lemma_stacked_targets(bus, rest, seen.children, depth + 1);
                } else {
                    assert(targets_below_all(bus, seen.children, depth + 1) =~= Seq::empty());
                }
                assert(after.found + targets_to_come(bus, after.pending) =~= w.found
                    + targets_to_come(bus, w.pending));
            },
            None => {
                assert(after.found + targets_to_come(bus, after.pending) =~= w.found
                    + targets_to_come(bus, w.pending));
            },
        }
    }
}

/// A walk never gets deeper than it may.
pub proof fn walks_stay_shallow(w: WalkView, seen: Option<NodeSeenView>)
    requires
        forall|i: int| 0 <= i < w.pending.len() ==> (#[trigger] w.pending[i]).1 <= MAX_WALK_DEPTH,
    ensures
        forall|i: int|
            0 <= i < walked(w, seen).pending.len() ==> (#[trigger] walked(w, seen).pending[i]).1
                <= MAX_WALK_DEPTH,
{
}

} // verus!
