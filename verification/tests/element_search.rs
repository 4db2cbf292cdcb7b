use rightkeys::access::{
    clip_to_window, clipped_to_active, continue_activation, control_element, gather_windows,
    is_actionable, is_menu_item, start_activation, window_at_bounds, Activation, BusApp, NodeRef,
    NodeSeen, Pool, Reply, Search, Walk,
};
use rightkeys::element::{Element, Role};

fn node(path: &str) -> NodeRef {
    NodeRef { bus_name: ":1.1".to_string(), path: path.to_string() }
}

fn told(role: Role, label: &str, children: Vec<NodeRef>) -> NodeSeen {
    NodeSeen {
        role,
        label: label.to_string(),
        children,
        showing: true,
        visible: false,
        extents: Some((1, 2, 30, 40)),
    }
}

fn element(role: Role, x: i32, y: i32) -> Element {
    Element {
        height: 40,
        label: String::new(),
        width: 30,
        x,
        y,
        bus_name: String::new(),
        node_path: String::new(),
        role,
    }
}

#[test]
fn roles_are_told_apart() {
    assert!(is_actionable(Role::PushButton));
    assert!(!is_actionable(Role::Other));
    assert!(is_menu_item(Role::RadioMenuItem));
    assert!(!is_menu_item(Role::Menu));
}

#[test]
fn walks_find_targets_parents_first_and_children_in_order() {
    let mut walk = Walk::new(node("/root"));
    let mut asked = Vec::new();
    while let Some(n) = walk.next() {
        let seen = match n.path.as_str() {
            "/root" => Some(told(Role::Other, "window", vec![node("/a"), node("/b")])),
            "/a" => Some(told(Role::Menu, "menu", vec![node("/a/1")])),
            "/a/1" => Some(told(Role::MenuItem, "item", Vec::new())),
            "/b" => Some(told(Role::Link, "link", vec![node("/gone")])),
            _ => None,
        };
        asked.push(n.path);
        walk.visit(seen);
    }
    assert_eq!(asked, vec!["/root", "/a", "/a/1", "/b", "/gone"]);
    let found = walk.finish();
    let labels: Vec<&str> = found.iter().map(|e| e.label.as_str()).collect();
    assert_eq!(labels, vec!["menu", "item", "link"]);
    assert_eq!(found[1].node_path, "/a/1");
    assert_eq!((found[0].x, found[0].y, found[0].width, found[0].height), (1, 2, 30, 40));
}

#[test]
fn walks_skip_what_is_not_on_screen() {
    let cases = [
        (false, false, Some((0, 0, 5, 5)), 0),
        (false, true, Some((0, 0, 5, 5)), 1),
        (true, false, Some((0, 0, 0, 5)), 0),
        (true, false, Some((-1, 0, 5, 5)), 0),
        (true, false, None, 0),
    ];
    for (showing, visible, extents, count) in cases {
        let mut walk = Walk::new(node("/x"));
        walk.visit(Some(NodeSeen {
            role: Role::Link,
            label: String::new(),
            children: Vec::new(),
            showing,
            visible,
            extents,
        }));
        assert_eq!(walk.finish().len(), count);
    }
}

#[test]
fn walks_are_cut_at_their_depth() {
    let mut walk = Walk::new(node("/0"));
    let mut visits = 0;
    while walk.next().is_some() {
        visits += 1;
        walk.visit(Some(told(Role::Link, "", vec![node("/deeper")])));
    }
    assert_eq!(visits, 21);
    assert_eq!(walk.finish().len(), 21);
}

#[test]
fn windows_are_gathered_by_process() {
    let app = |name: &str, pid, paths: Option<Vec<&str>>| BusApp {
        name: name.to_string(),
        windows: paths.map(|p| p.into_iter().map(node).collect()),
        pid,
    };
    let apps = vec![
        app("org.a11y.atspi.Registry", Some(7), Some(vec!["/registry"])),
        app(":1.1", Some(5), Some(vec!["/one"])),
        app(":1.2", Some(7), Some(vec!["/two", "/three"])),
        app(":1.3", Some(7), None),
    ];
    let paths = |v: Vec<NodeRef>| v.into_iter().map(|n| n.path).collect::<Vec<_>>();
    let (own, all) = gather_windows(&apps, Some(7));
    assert_eq!(paths(own), vec!["/two", "/three"]);
    assert_eq!(paths(all), vec!["/one", "/two", "/three"]);
    let (own, _) = gather_windows(&apps, None);
    assert!(own.is_empty());
}

#[test]
fn the_window_with_the_largest_share_is_chosen() {
    let extents = vec![
        None,
        Some((0, 0, 10, 10)),
        Some((5, 5, 100, 100)),
        Some((5, 5, 100, 100)),
    ];
    assert_eq!(window_at_bounds(&extents, (0, 0, 60, 60)), Some(2));
    assert_eq!(window_at_bounds(&extents, (500, 500, 10, 10)), None);
}

#[test]
fn elements_are_clipped_to_their_window() {
    let all = || vec![element(Role::Link, 0, 0), element(Role::Link, 200, 0)];
    assert_eq!(clip_to_window(all(), Some((0, 0, 100, 100))).len(), 1);
    assert_eq!(clip_to_window(all(), Some((0, 0, 0, 100))).len(), 2);
    assert_eq!(clip_to_window(all(), None).len(), 0);
    assert_eq!(clipped_to_active(all(), Some((150, 0, 100, 100)))[0].x, 200);
    assert_eq!(clipped_to_active(all(), None).len(), 2);
}

#[test]
fn searches_go_from_the_most_reliable_window_on() {
    let mut s = Search::start(1, 2, true);
    let mut seen = Vec::new();
    loop {
        seen.push(s);
        let reply = match s {
            Search::AtBounds => Reply::Window(Some(0)),
            Search::IsActive(_, _) => Reply::State(true),
            Search::IsFocused(_, _) => Reply::State(false),
            Search::Found | Search::Empty => {
                assert_eq!(s, Search::Empty);
                assert_eq!(
                    seen,
                    vec![
                        Search::AtBounds,
                        Search::WalkAtBounds(0),
                        Search::IsActive(Pool::Own, 0),
                        Search::WalkActive(Pool::Own, 0),
                        Search::IsFocused(Pool::Own, 0),
                        Search::WalkOwn,
                        Search::IsActive(Pool::All, 0),
                        Search::WalkActive(Pool::All, 0),
                        Search::IsActive(Pool::All, 1),
                        Search::WalkActive(Pool::All, 1),
                        Search::IsFocused(Pool::All, 0),
                        Search::IsFocused(Pool::All, 1),
                        Search::Empty,
                    ]
                );
                return;
            }
            _ => Reply::Walked(false),
        };
        s = s.next(reply, 1, 2);
    }
}

#[test]
fn the_first_walk_that_finds_elements_ends_the_search() {
    let s = Search::start(0, 1, true);
    assert_eq!(s, Search::IsActive(Pool::All, 0));
    let s = s.next(Reply::State(true), 0, 1);
    assert_eq!(s.next(Reply::Walked(true), 0, 1), Search::Found);
    assert_eq!(Search::start(0, 0, false), Search::Empty);
}

#[test]
fn elements_are_activated_by_the_most_reliable_means() {
    let button = element(Role::PushButton, 100, 200);
    assert_eq!(start_activation(&button), Activation::Click(115, 220));
    let item = element(Role::MenuItem, 100, 200);
    let first = start_activation(&item);
    assert_eq!(first, Activation::OwnAction);
    let second = continue_activation(&item, first, false);
    assert_eq!(second, Activation::Click(115, 220));
    let third = continue_activation(&item, second, false);
    assert_eq!(third, Activation::OwnActionAgain);
    let fourth = continue_activation(&item, third, false);
    assert_eq!(fourth, Activation::FocusAndReturn);
    assert_eq!(continue_activation(&item, fourth, false), Activation::Done);
    assert_eq!(continue_activation(&item, first, true), Activation::Done);
    // A point off the screen is not clicked.
    assert_eq!(
        start_activation(&element(Role::Link, -100, 0)),
        Activation::OwnActionAgain
    );
}

#[test]
fn controls_become_elements_when_usable() {
    let make = |actionable, enabled, offscreen, rect| {
        control_element(
            actionable,
            enabled,
            offscreen,
            rect,
            Some((0, 0, 100, 100)),
            "ok".to_string(),
        )
    };
    let e = make(true, true, false, (10, 20, 30, 50)).unwrap();
    assert_eq!((e.x, e.y, e.width, e.height), (10, 20, 20, 30));
    assert_eq!(e.label, "ok");
    assert!(make(false, true, false, (10, 20, 30, 50)).is_none());
    assert!(make(true, false, false, (10, 20, 30, 50)).is_none());
    assert!(make(true, true, true, (10, 20, 30, 50)).is_none());
    assert!(make(true, true, false, (10, 20, 10, 50)).is_none());
    assert!(make(true, true, false, (-1, 20, 30, 50)).is_none());
    assert!(make(true, true, false, (100, 20, 130, 50)).is_none());
}
