//! What a search for elements finds, and how an element comes to be activated, told by
//! what was asked and what was answered.

use crate::access::{
    all_windows, best_share, clipped_to_bounds, clipped_to_window, control_is_target,
    first_activation, next_activation, own_target, own_windows, search_next, search_rank,
    search_start, search_valid, searches_end, share, targets_below, targets_below_all, windows_of,
    Activation, BusApp, NodeSeenView, NodeView, Pool, Reply, Search, REGISTRY_DEST,
};
use crate::element::{Element, Role};
use crate::rect::ints;
use vstd::prelude::*;

verus! {

// === Searches ===

/// The search is walking windows.
pub open spec fn walking(s: Search) -> bool {
    s is WalkAtBounds || s is WalkActive || s is WalkFocused || s is WalkOwn
}

/// The reply says that what the search asked for was found: elements by a walk, the
/// state of a window that was looked at, or a window at the bounds.
pub open spec fn says_yes(s: Search, reply: Reply) -> bool {
    match s {
        Search::AtBounds => reply matches Reply::Window(k) && k is Some,
        Search::IsActive(_, _) => reply == Reply::State(true),
        Search::IsFocused(_, _) => reply == Reply::State(true),
        _ => walking(s) && reply == Reply::Walked(true),
    }
}

/// A walk that found elements ends the search with them, and nothing else does. A search
/// ends with nothing only after a walk or a look that found nothing, and only once every
/// window of all applications has been looked at. A window that is at the bounds, active
/// or focused is walked next, and it and no other.
pub proof fn walks_that_find_end_the_search(s: Search, reply: Reply, own: int, all: int)
    ensures
        ({
            let next = search_next(s, reply, own, all);
            &&& walking(s) && reply == Reply::Walked(true) ==> next is Found
            &&& next is Found && !(s is Found) ==> walking(s) && reply == Reply::Walked(true)
            &&& next is Empty && !(s is Empty) ==> {
                &&& !says_yes(s, reply)
                &&& match s {
                    Search::IsFocused(pool, i) => pool is All && i + 1 >= all,
                    Search::WalkFocused(pool, i) => pool is All && i + 1 >= all,
                    _ => all <= 0,
                }
            }
            &&& says_yes(s, reply) ==> match s {
                Search::AtBounds => next == Search::WalkAtBounds(reply->Window_0->Some_0),
                Search::IsActive(pool, i) => next == Search::WalkActive(pool, i),
                Search::IsFocused(pool, i) => next == Search::WalkFocused(pool, i),
                _ => next is Found,
            }
            &&& walking(next) && !(next is WalkOwn) ==> says_yes(s, reply)
        }),
{
}

/// A walk that a search makes if it comes to it, by the answers to its questions.
pub open spec fn sought(
    walk: Search,
    ask: spec_fn(Search) -> Reply,
    own: int,
    all: int,
    has_bounds: bool,
) -> bool {
    match walk {
        Search::WalkAtBounds(k) => has_bounds && own > 0 && ask(Search::AtBounds) == Reply::Window(
            Some(k),
        ),
        Search::WalkActive(Pool::Own, i) => i < own && ask(Search::IsActive(Pool::Own, i))
            == Reply::State(true),
        Search::WalkFocused(Pool::Own, i) => i < own && ask(Search::IsFocused(Pool::Own, i))
            == Reply::State(true),
        Search::WalkOwn => own > 0,
        Search::WalkActive(Pool::All, i) => i < all && ask(Search::IsActive(Pool::All, i))
            == Reply::State(true),
        Search::WalkFocused(Pool::All, i) => i < all && ask(Search::IsFocused(Pool::All, i))
            == Reply::State(true),
        _ => false,
    }
}

/// A walk that a search makes if it comes to it, and that finds elements.
pub open spec fn fruitful(
    walk: Search,
    ask: spec_fn(Search) -> Reply,
    own: int,
    all: int,
    has_bounds: bool,
) -> bool {
    sought(walk, ask, own, all, has_bounds) && ask(walk) == Reply::Walked(true)
}

/// Which kind of window a walk is for: the one at the bounds comes first, then the active
/// and the focused of the process, then all of the process, then the active and the
/// focused of all applications.
pub open spec fn stage(walk: Search) -> int {
    match walk {
        Search::WalkAtBounds(_) => 0,
        Search::WalkActive(Pool::Own, _) => 1,
        Search::WalkFocused(Pool::Own, _) => 2,
        Search::WalkOwn => 3,
        Search::WalkActive(Pool::All, _) => 4,
        _ => 5,
    }
}

/// The number of the window that is walked, in its list.
pub open spec fn number(walk: Search) -> int {
    match walk {
        Search::WalkActive(_, i) => i as int,
        Search::WalkFocused(_, i) => i as int,
        _ => 0,
    }
}

/// Where a search stands after `n` answers, and the walk it made last.
pub open spec fn search_run(
    start: Search,
    ask: spec_fn(Search) -> Reply,
    own: int,
    all: int,
    n: nat,
) -> Search
    decreases n,
{
    if n == 0 {
        start
    } else {
        let s = search_run(start, ask, own, all, (n - 1) as nat);
        search_next(s, ask(s), own, all)
    }
}

/// A walk is the one a search comes to an end with: the search stands before it after some
/// answers, and has found elements with the next.
pub open spec fn ends_with(
    start: Search,
    ask: spec_fn(Search) -> Reply,
    own: int,
    all: int,
    walk: Search,
    n: nat,
) -> bool {
    search_run(start, ask, own, all, n) == walk && walking(walk) && search_run(
        start,
        ask,
        own,
        all,
        n + 1,
    ) is Found
}

/// The search has come to its end after `n` answers as it should: with the first of the
/// walks that find elements, or with nothing where there are none.
pub open spec fn ends_right(
    start: Search,
    ask: spec_fn(Search) -> Reply,
    own: int,
    all: int,
    has_bounds: bool,
    n: nat,
) -> bool {
    match search_run(start, ask, own, all, n) {
        Search::Found => exists|walk: Search, k: nat|
            {
                &&& #[trigger] ends_with(start, ask, own, all, walk, k)
                &&& fruitful(walk, ask, own, all, has_bounds)
                &&& forall|other: Search| #[trigger]
                    fruitful(other, ask, own, all, has_bounds) ==> stage(walk) < stage(other) || (
                    stage(walk) == stage(other) && number(walk) <= number(other))
            },
        Search::Empty => forall|walk: Search|
            !#[trigger] fruitful(walk, ask, own, all, has_bounds),
        _ => false,
    }
}

/// What a search keeps as it goes: no walk that finds elements lies behind it.
spec fn on_its_way(
    s: Search,
    ask: spec_fn(Search) -> Reply,
    own: int,
    all: int,
    has_bounds: bool,
) -> bool {
    &&& search_valid(s, own, all)
    &&& s is AtBounds ==> own > 0 && has_bounds
    &&& walking(s) ==> sought(s, ask, own, all, has_bounds)
    &&& !(s is Found) ==> forall|walk: Search| #[trigger]
        fruitful(walk, ask, own, all, has_bounds) ==> search_rank(walk, own, all) >= search_rank(
            s,
            own,
            all,
        )
}

proof fn lemma_way_goes_on(
    s: Search,
    ask: spec_fn(Search) -> Reply,
    own: int,
    all: int,
    has_bounds: bool,
)
    requires
        0 <= own <= usize::MAX,
        0 <= all <= usize::MAX,
        on_its_way(s, ask, own, all, has_bounds),
    ensures
        on_its_way(search_next(s, ask(s), own, all), ask, own, all, has_bounds),
{
    let next = search_next(s, ask(s), own, all);
    if !(next is Found) {
        assert forall|walk: Search| #[trigger]
            fruitful(walk, ask, own, all, has_bounds) implies search_rank(walk, own, all)
            >= search_rank(next, own, all) by {
            match walk {
                Search::WalkAtBounds(k) => {},
                Search::WalkActive(Pool::Own, i) => {},
                Search::WalkActive(Pool::All, i) => {},
                Search::WalkFocused(Pool::Own, i) => {},
                Search::WalkFocused(Pool::All, i) => {},
                _ => {},
            }
        }
    }
}

proof fn lemma_search_run(
    ask: spec_fn(Search) -> Reply,
    own: int,
    all: int,
    has_bounds: bool,
    n: nat,
)
    requires
        0 <= own <= usize::MAX,
        0 <= all <= usize::MAX,
    ensures
        ({
            let start = search_start(own, all, has_bounds);
            let s = search_run(start, ask, own, all, n);
            &&& on_its_way(s, ask, own, all, has_bounds)
            &&& s is Found || s is Empty || search_rank(s, own, all) >= n
            &&& s is Found || s is Empty ==> ends_right(start, ask, own, all, has_bounds, n)
        }),
    decreases n,
{
    let start = search_start(own, all, has_bounds);
    if n == 0 {
        assert forall|walk: Search| #[trigger]
            fruitful(walk, ask, own, all, has_bounds) implies search_rank(walk, own, all)
            >= search_rank(start, own, all) by {
            match walk {
                Search::WalkActive(Pool::Own, i) => {},
                Search::WalkActive(Pool::All, i) => {},
                Search::WalkFocused(Pool::Own, i) => {},
                Search::WalkFocused(Pool::All, i) => {},
                _ => {},
            }
        }
    } else {
        let m = (n - 1) as nat;
        lemma_search_run(ask, own, all, has_bounds, m);
        let s = search_run(start, ask, own, all, m);
        let next = search_run(start, ask, own, all, n);
        assert(next == search_next(s, ask(s), own, all));
        searches_end(s, ask(s), own, all);
        lemma_way_goes_on(s, ask, own, all, has_bounds);
        if s is Found {
            let (walk, k) = choose|walk: Search, k: nat|
                {
                    &&& #[trigger] ends_with(start, ask, own, all, walk, k)
                    &&& fruitful(walk, ask, own, all, has_bounds)
                    &&& forall|other: Search| #[trigger]
                        fruitful(other, ask, own, all, has_bounds) ==> stage(walk) < stage(other)
                            || (stage(walk) == stage(other) && number(walk) <= number(other))
                };
            assert(ends_with(start, ask, own, all, walk, k));
        } else if next is Found {
            walks_that_find_end_the_search(s, ask(s), own, all);
            assert(search_run(start, ask, own, all, m + 1) == next);
            assert(ends_with(start, ask, own, all, s, m));
            assert(fruitful(s, ask, own, all, has_bounds));
            assert forall|other: Search| #[trigger]
                fruitful(other, ask, own, all, has_bounds) implies stage(s) < stage(other) || (
            stage(s) == stage(other) && number(s) <= number(other)) by {
                lemma_ranks(s, other, ask, own, all, has_bounds);
            }
        } else if next is Empty {
            assert forall|walk: Search| !#[trigger] fruitful(walk, ask, own, all, has_bounds) by {
                if fruitful(walk, ask, own, all, has_bounds) {
                    lemma_ranks(walk, walk, ask, own, all, has_bounds);
                }
            }
        }
    }
}

proof fn lemma_ranks(
    a: Search,
    b: Search,
    ask: spec_fn(Search) -> Reply,
    own: int,
    all: int,
    has_bounds: bool,
)
    requires
        0 <= own <= usize::MAX,
        0 <= all <= usize::MAX,
        sought(a, ask, own, all, has_bounds),
        sought(b, ask, own, all, has_bounds),
        search_rank(a, own, all) <= search_rank(b, own, all),
    ensures
        stage(a) < stage(b) || (stage(a) == stage(b) && number(a) <= number(b)),
        search_rank(a, own, all) < search_rank(Search::Empty, own, all),
{
    match a {
        Search::WalkActive(Pool::Own, i) => {},
        Search::WalkActive(Pool::All, i) => {},
        Search::WalkFocused(Pool::Own, i) => {},
        Search::WalkFocused(Pool::All, i) => {},
        _ => {},
    }
    match b {
        Search::WalkActive(Pool::Own, i) => {},
        Search::WalkActive(Pool::All, i) => {},
        Search::WalkFocused(Pool::Own, i) => {},
        Search::WalkFocused(Pool::All, i) => {},
        _ => {},
    }
}

/// However the questions are answered, a search comes to an end, with the elements of the
/// first walk that finds any (the window at the bounds first, then the active and the
/// focused windows of the process, then all its windows, then the active and the focused
/// windows of all applications), and with nothing only where none of these walks finds
/// any.
pub proof fn searches_find_the_first_window_with_elements(
    ask: spec_fn(Search) -> Reply,
    own: int,
    all: int,
    has_bounds: bool,
)
    requires
        0 <= own <= usize::MAX,
        0 <= all <= usize::MAX,
    ensures
        exists|n: nat|
            #[trigger]
            ends_right(search_start(own, all, has_bounds), ask, own, all, has_bounds, n),
{
    let start = search_start(own, all, has_bounds);
    let n = (search_rank(Search::Empty, own, all) + 1) as nat;
    lemma_search_run(ask, own, all, has_bounds, n);
    let s = search_run(start, ask, own, all, n);
    assert(s is Found || s is Empty || search_rank(s, own, all) < search_rank(
        Search::Empty,
        own,
        all,
    ));
    assert(ends_right(start, ask, own, all, has_bounds, n));
}

// === Activation ===

/// What is tried of an element after `n` attempts that all failed.
pub open spec fn attempt(e: Element, n: nat) -> Activation
    decreases n,
{
    if n == 0 {
        first_activation(e)
    } else {
        next_activation(e, attempt(e, (n - 1) as nat), false)
    }
}

/// An attempt that worked is the last. Where none works, a menu item is asked for its own
/// action before anything else; then an element whose middle is on the screen is clicked
/// there, within its bounds; then it is asked for its action, then given the focus and
/// Return, and then it is given up.
pub proof fn attempts_go_from_click_to_focus(e: Element, tried: Activation)
    requires
        e.width > 0 && e.height > 0,
        e.x + e.width <= i32::MAX && e.y + e.height <= i32::MAX,
    ensures
        ({
            let menu: nat = if e.role == Role::MenuItem || e.role == Role::CheckMenuItem || e.role
                == Role::RadioMenuItem {
                1
            } else {
                0
            };
            let seen = 2 * e.x + e.width >= 0 && 2 * e.y + e.height >= 0;
            &&& next_activation(e, tried, true) is Done
            &&& menu == 1 ==> attempt(e, 0) is OwnAction
            &&& seen ==> {
                &&& attempt(e, menu) matches Activation::Click(x, y) && {
                    &&& e.x <= x < e.x + e.width && e.y <= y < e.y + e.height
                    &&& e.width - 1 <= 2 * (x - e.x) <= e.width
                    &&& e.height - 1 <= 2 * (y - e.y) <= e.height
                }
                &&& attempt(e, menu + 1) is OwnActionAgain
                &&& attempt(e, menu + 2) is FocusAndReturn
                &&& attempt(e, menu + 3) is Done
            }
            &&& !seen ==> {
                &&& attempt(e, menu) is OwnActionAgain
                &&& attempt(e, menu + 1) is FocusAndReturn
                &&& attempt(e, menu + 2) is Done
            }
        }),
{
    reveal_with_fuel(attempt, 6);
}

// === Targets ===

/// Every role but `Other` makes an element a target, and what becomes a target shows on
/// the screen: it has an extent that begins there.
pub proof fn targets_are_on_the_screen(node: NodeView, seen: NodeSeenView)
    ensures
        own_target(node, seen).len() <= 1,
        own_target(node, seen).len() == 1 <==> {
            &&& seen.role != Role::Other
            &&& seen.showing || seen.visible
            &&& seen.extents matches Some(r) && r.0 >= 0 && r.1 >= 0 && r.2 > 0 && r.3 > 0
        },
        own_target(node, seen).len() == 1 ==> ({
            let e = own_target(node, seen)[0];
            &&& e.bounds == seen.extents->0
            &&& e.label == seen.label
            &&& e.bus_name == node.bus_name
            &&& e.node_path == node.path
            &&& e.role == seen.role
        }),
{
}

/// A Windows control is a target only if it is enabled and on the screen; where its window
/// is known, exactly if besides a point lies both in it and in the window.
pub proof fn controls_are_targets_inside_their_window(
    actionable: bool,
    enabled: bool,
    offscreen: bool,
    rect: (i32, i32, i32, i32),
    window: (i32, i32, i32, i32),
)
    requires
        window.0 < window.2 && window.1 < window.3,
    ensures
        control_is_target(actionable, enabled, offscreen, rect, None) == (actionable && enabled
            && !offscreen && 0 <= rect.0 < rect.2 && 0 <= rect.1 < rect.3),
        control_is_target(actionable, enabled, offscreen, rect, Some(window)) <==> {
            &&& control_is_target(actionable, enabled, offscreen, rect, None)
            &&& exists|x: int, y: int|
                rect.0 <= x < rect.2 && rect.1 <= y < rect.3 && #[trigger] within_edges(
                    window,
                    x,
                    y,
                )
        },
{
    let x = if rect.0 >= window.0 {
        rect.0 as int
    } else {
        window.0 as int
    };
    let y = if rect.1 >= window.1 {
        rect.1 as int
    } else {
        window.1 as int
    };
    if control_is_target(actionable, enabled, offscreen, rect, Some(window)) {
        assert(within_edges(window, x, y));
    }
}

/// A point lies between edges.
pub open spec fn within_edges(edges: (i32, i32, i32, i32), x: int, y: int) -> bool {
    edges.0 <= x < edges.2 && edges.1 <= y < edges.3
}

/// What the bus describes down to the twentieth level below the root is found: an object's
/// own target, then those of its children in order. What it does not describe, and what
/// lies deeper, is not.
pub proof fn trees_are_searched_in_order(
    bus: spec_fn(NodeView) -> Option<NodeSeenView>,
    node: NodeView,
    a: Seq<NodeView>,
    b: Seq<NodeView>,
    depth: nat,
)
    ensures
        depth <= 20 && bus(node) is Some ==> targets_below(bus, node, depth) == own_target(
            node,
            bus(node)->0,
        ) + targets_below_all(bus, bus(node)->0.children, depth + 1),
        depth > 20 || bus(node) is None ==> targets_below(bus, node, depth).len() == 0,
        targets_below_all(bus, seq![node], depth) == targets_below(bus, node, depth),
        targets_below_all(bus, a + b, depth) == targets_below_all(bus, a, depth)
            + targets_below_all(bus, b, depth),
    decreases a.len(),
{
    let none = Seq::<NodeView>::empty();
    let one = seq![node];
    assert(one.drop_first() =~= none);
    assert(targets_below_all(bus, none, depth) =~= Seq::empty());
    assert(targets_below_all(bus, one, depth) =~= targets_below(bus, node, depth));
    if a.len() == 0 {
        assert(a + b =~= b);
        assert(targets_below_all(bus, a, depth) =~= Seq::empty());
    } else {
        let rest = a.drop_first();
        trees_are_searched_in_order(bus, node, rest, b, depth);
        assert((a + b).drop_first() =~= rest + b);
        assert((a + b)[0] == a[0]);
    }
    assert(targets_below_all(bus, a + b, depth) =~= targets_below_all(bus, a, depth)
        + targets_below_all(bus, b, depth));
}

/// Clipping by a window keeps of its elements those that begin in it, everything where it
/// reports no area, and nothing where it reports no extent; clipping by bounds keeps those
/// that begin in the bounds, and everything where there are none.
pub proof fn clipping_goes_by_what_is_known(elements: Seq<Element>, rect: (i32, i32, i32, i32))
    ensures
        clipped_to_window(elements, None).len() == 0,
        rect.2 <= 0 || rect.3 <= 0 ==> clipped_to_window(elements, Some(rect)) == elements,
        rect.2 > 0 && rect.3 > 0 ==> forall|e: Element| #[trigger]
            clipped_to_window(elements, Some(rect)).contains(e) <==> elements.contains(e) && rect.0
                <= e.x < rect.0 + rect.2 && rect.1 <= e.y < rect.1 + rect.3,
        clipped_to_bounds(elements, None) == elements,
        forall|e: Element| #[trigger]
            clipped_to_bounds(elements, Some(rect)).contains(e) <==> elements.contains(e) && rect.0
                <= e.x < rect.0 + rect.2 && rect.1 <= e.y < rect.1 + rect.3,
{
    lemma_origins(elements, ints(rect));
}

proof fn lemma_origins(elements: Seq<Element>, rect: (int, int, int, int))
    ensures
        forall|e: Element| #[trigger]
            crate::access::origins_in(elements, rect).contains(e) <==> elements.contains(e)
                && rect.0 <= e.x < rect.0 + rect.2 && rect.1 <= e.y < rect.1 + rect.3,
    decreases elements.len(),
{
    let kept = crate::access::origins_in(elements, rect);
    if elements.len() > 0 {
        let init = elements.drop_last();
        let last = elements.last();
        lemma_origins(init, rect);
        let before = crate::access::origins_in(init, rect);
        assert forall|e: Element| #[trigger] kept.contains(e) <==> elements.contains(e) && rect.0
            <= e.x < rect.0 + rect.2 && rect.1 <= e.y < rect.1 + rect.3 by {
            assert(before.contains(e) <==> init.contains(e) && rect.0 <= e.x < rect.0 + rect.2
                && rect.1 <= e.y < rect.1 + rect.3);
            if elements.contains(e) {
                let i = choose|i: int| 0 <= i < elements.len() && elements[i] == e;
                if i < init.len() {
                    assert(init[i] == e);
                }
            }
            if init.contains(e) {
                let i = choose|i: int| 0 <= i < init.len() && init[i] == e;
                assert(elements[i] == e);
            }
            assert(elements[elements.len() - 1] == last);
            if kept.len() > before.len() {
                assert(kept == before.push(last));
                assert(kept[kept.len() - 1] == last);
                if before.contains(e) {
                    let i = choose|i: int| 0 <= i < before.len() && before[i] == e;
                    assert(kept[i] == e);
                }
                if kept.contains(e) {
                    let i = choose|i: int| 0 <= i < kept.len() && kept[i] == e;
                    if i < before.len() {
                        assert(before[i] == e);
                    }
                }
            }
        }
    }
}

/// Of the windows that share most with the target, the first is chosen.
pub proof fn the_first_best_window_is_chosen(
    extents: Seq<Option<(i32, i32, i32, i32)>>,
    target: (int, int, int, int),
    n: nat,
)
    requires
        n <= extents.len(),
    ensures
        match best_share(extents, target, n) {
            Some(k) => {
                &&& 0 <= k < n && share(extents[k], target) > 0
                &&& forall|j: int|
                    0 <= j < k ==> share(#[trigger] extents[j], target) < share(extents[k], target)
                &&& forall|j: int|
                    k < j < n ==> share(#[trigger] extents[j], target) <= share(extents[k], target)
            },
            None => forall|j: int| 0 <= j < n ==> share(#[trigger] extents[j], target) <= 0,
        },
    decreases n,
{
    if n > 0 {
        the_first_best_window_is_chosen(extents, target, (n - 1) as nat);
    }
}

// === Windows of the bus ===

/// The windows of the applications come in the order of the applications; the focused
/// process's own are those of the applications with its process number, and the registry
/// has none.
pub proof fn windows_come_by_application(
    a: Seq<BusApp>,
    b: Seq<BusApp>,
    app: BusApp,
    focused: Option<u32>,
)
    ensures
        all_windows(a + b) == all_windows(a) + all_windows(b),
        own_windows(a + b, focused) == own_windows(a, focused) + own_windows(b, focused),
        app.name@ == REGISTRY_DEST@ ==> all_windows(seq![app]).len() == 0,
        app.name@ != REGISTRY_DEST@ && app.windows is Some ==> {
            &&& all_windows(seq![app]).len() == app.windows->0@.len()
            &&& forall|i: int|
                0 <= i < app.windows->0@.len() ==> #[trigger] all_windows(seq![app])[i]
                    == app.windows->0@[i]@
        },
        app.windows is None ==> all_windows(seq![app]).len() == 0,
        own_windows(seq![app], focused) == (if app.pid is Some && app.pid == focused {
            all_windows(seq![app])
        } else {
            Seq::empty()
        }),
    decreases b.len(),
{
    let one = seq![app];
    let none = Seq::<BusApp>::empty();
    assert(one.drop_last() =~= none);
    reveal_with_fuel(all_windows, 2);
    reveal_with_fuel(own_windows, 2);
    assert(all_windows(one) =~= windows_of(app));
    assert(own_windows(none, focused) =~= Seq::empty());
    assert(own_windows(one, focused) =~= (if app.pid is Some && app.pid == focused {
        windows_of(app)
    } else {
        Seq::empty()
    }));
    if b.len() == 0 {
        assert(a + b =~= a);
    } else {
        windows_come_by_application(a, b.drop_last(), app, focused);
        assert((a + b).drop_last() =~= a + b.drop_last());
        assert((a + b).last() == b.last());
    }
    assert(all_windows(a + b) =~= all_windows(a) + all_windows(b));
    assert(own_windows(a + b, focused) =~= own_windows(a, focused) + own_windows(b, focused));
}

} // verus!
