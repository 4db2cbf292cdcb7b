use rightkeys::actions::{CycleDirection, Workspace};
use rightkeys::wmprops::{
    active_window, class_climb, class_found, cycle_target, frame_extents, moveresize_payload,
    parse_window_name, parse_wm_class, pid_climb, pid_climb_on, resolve_desktop_index,
    resolve_workspace, same_class, toggled_showing, work_area, Climb, FocusEvent, FocusTracker,
};

#[test]
fn work_areas_are_those_of_the_desktop() {
    let vals = [0, 24, 1920, 1056, 10, 20, 30, 40];
    assert_eq!(work_area(&vals, 1), Some((10, 20, 30, 40)));
    assert_eq!(work_area(&vals, 5), Some((0, 24, 1920, 1056)));
    assert_eq!(work_area(&[1, 2, 3], 0), None);
    assert_eq!(work_area(&[u32::MAX, 0, 1, 1], 0), Some((-1, 0, 1, 1)));
}

#[test]
fn frames_and_requests_carry_their_extents() {
    assert_eq!(frame_extents(&[1, 2, 3, 4]), (1, 2, 3, 4));
    assert_eq!(frame_extents(&[1, 2, 3]), (0, 0, 0, 0));
    assert_eq!(
        moveresize_payload((-5, 10, 100, 2), (1, 1, 20, 1)),
        [0x2f01, (-5i32) as u32, 10, 98, 1]
    );
}

#[test]
fn root_values_are_read() {
    assert_eq!(active_window(&[7]), Some(7));
    assert_eq!(active_window(&[0]), None);
    assert_eq!(active_window(&[]), None);
    assert_eq!(toggled_showing(&[]), 1);
    assert_eq!(toggled_showing(&[0]), 1);
    assert_eq!(toggled_showing(&[1]), 0);
}

#[test]
fn workspaces_resolve_to_indices() {
    assert_eq!(resolve_workspace(Workspace::Index(3), 0, 2), 2);
    assert_eq!(resolve_workspace(Workspace::Index(0), 0, 2), 0);
    assert_eq!(resolve_workspace(Workspace::Prev, 0, 4), 0);
    assert_eq!(resolve_workspace(Workspace::Prev, 3, 4), 2);
    assert_eq!(resolve_workspace(Workspace::Next, 3, 4), 3);
    assert_eq!(resolve_workspace(Workspace::Next, 1, 4), 2);
    assert_eq!(resolve_workspace(Workspace::Next, 9, 0), 10);
    assert_eq!(resolve_desktop_index(Workspace::Next, 1, Some(4)), 2);
    assert_eq!(resolve_desktop_index(Workspace::Next, 3, Some(4)), 3);
    assert_eq!(resolve_desktop_index(Workspace::Next, 3, None), 3);
    assert_eq!(resolve_desktop_index(Workspace::Prev, 0, Some(4)), 0);
    assert_eq!(resolve_desktop_index(Workspace::Index(2), 0, Some(4)), 1);
    assert_eq!(resolve_desktop_index(Workspace::Index(9), 0, Some(4)), 3);
    assert_eq!(resolve_desktop_index(Workspace::Index(9), 0, None), 8);
    assert_eq!(resolve_desktop_index(Workspace::Index(0), 0, Some(4)), 0);
}

#[test]
fn windows_of_one_app_are_cycled_round() {
    let list = vec![
        (1, Some("A".to_string())),
        (2, Some("B".to_string())),
        (3, Some("A".to_string())),
        (4, None),
    ];
    let same = same_class(&list, "A");
    assert_eq!(same, vec![1, 3]);
    assert_eq!(cycle_target(&same, 1, CycleDirection::Forward), Some(3));
    assert_eq!(cycle_target(&same, 1, CycleDirection::Backward), Some(3));
    assert_eq!(cycle_target(&same, 3, CycleDirection::Forward), Some(1));
    assert_eq!(cycle_target(&same, 9, CycleDirection::Forward), Some(3));
    assert_eq!(cycle_target(&vec![1], 1, CycleDirection::Forward), None);
}

#[test]
fn climbs_end_at_the_root_or_with_a_value() {
    assert!(matches!(class_climb(5, 0), Climb::Read(5)));
    assert!(matches!(class_climb(5, 8), Climb::Done(None)));
    assert!(matches!(class_climb(0, 0), Climb::Done(None)));
    assert_eq!(class_found(b"x\0Term\0").as_deref(), Some("Term"));
    assert_eq!(class_found(b""), None);
    assert!(matches!(pid_climb(1), Climb::Done(None)));
    assert!(matches!(pid_climb(2), Climb::Read(2)));
    assert!(matches!(pid_climb_on(&[77, 1], 4, 9), Climb::Done(Some(77))));
    assert!(matches!(pid_climb_on(&[], 4, 9), Climb::Read(4)));
    assert!(matches!(pid_climb_on(&[], 9, 9), Climb::Done(None)));
    assert!(matches!(pid_climb_on(&[], 0, 9), Climb::Done(None)));
}

#[test]
fn raw_names_are_decoded_leniently() {
    assert_eq!(parse_wm_class(b"bad\xff\0Cl\xffass\0"), "Cl\u{fffd}ass");
    assert_eq!(parse_window_name(b" \xe2\x82\xac \0"), "\u{20ac}");
}

#[test]
fn grabs_silence_the_app_until_they_end() {
    let mut f = FocusTracker::new();
    assert!(f.is_stale(4));
    f.refocus(4, "Editor".to_string());
    assert_eq!(f.app(), "Editor");
    f.on_event(FocusEvent::LostToGrab(9));
    assert!(!f.grabbed);
    f.on_event(FocusEvent::LostToGrab(4));
    assert!(f.grabbed);
    assert_eq!(f.app(), "");
    f.on_event(FocusEvent::Other);
    f.heal(true);
    assert!(f.grabbed);
    f.on_event(FocusEvent::BackFromGrab(9));
    assert!(!f.grabbed && f.is_stale(4));

    f.refocus(4, "Editor".to_string());
    f.on_event(FocusEvent::LostToGrab(4));
    f.heal(false);
    assert!(!f.grabbed && f.is_stale(4));
}
