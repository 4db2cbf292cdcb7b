use rightkeys::actions::{Corner, CycleDirection, Scale, Side, TileFraction, WindowAction, Workspace};
use rightkeys::geometry::{
    anim_frames, cached_geometry, center_between, from_edges, move_frames, move_to_monitor, tile_rect, visible_rect,
};
use rightkeys::key::Key;
use rightkeys::window::{
    may_step, needs_window, place_window, placement_fits, show_desktop_keys, window_task,
    FillMemory, Surroundings, WindowTask,
};

const AREA: (i32, i32, i32, i32) = (0, 24, 1920, 1056);

fn around() -> Surroundings {
    Surroundings {
        area: AREA,
        geometry: (100, 100, 800, 600),
        preset_size: (960, 528),
        step_to: (90, 95),
    }
}

#[test]
fn actions_are_carried_out_by_their_tasks() {
    assert_eq!(
        window_task(WindowAction::Workspace { target: Workspace::Next, move_window: true }, false),
        WindowTask::Workspace { target: Workspace::Next, move_window: true }
    );
    assert_eq!(window_task(WindowAction::ShowDesktop, false), WindowTask::ShowDesktop);
    assert_eq!(
        window_task(WindowAction::Adjust { dx: 1, dy: 0, dw: 0, dh: 0 }, true),
        WindowTask::Place { area: false, geometry: true, unmaximize: false }
    );
    assert_eq!(
        window_task(WindowAction::Snap(Corner::TopLeft), false),
        WindowTask::Place { area: true, geometry: true, unmaximize: true }
    );
    assert_eq!(
        window_task(WindowAction::Snap(Corner::TopLeft), true),
        WindowTask::Place { area: true, geometry: true, unmaximize: false }
    );
    assert_eq!(
        window_task(WindowAction::Maximize, false),
        WindowTask::Place { area: true, geometry: false, unmaximize: true }
    );
    assert_eq!(window_task(WindowAction::Maximize, true), WindowTask::Maximize);
    assert_eq!(window_task(WindowAction::MaximizeToggle, false), WindowTask::ToggleFill);
    assert_eq!(window_task(WindowAction::FindWindow, true), WindowTask::Overlay);
}

#[test]
fn the_desktop_shows_without_an_active_window() {
    let switch = WindowTask::Workspace { target: Workspace::Next, move_window: false };
    assert!(!needs_window(WindowTask::ShowDesktop, false));
    assert!(needs_window(WindowTask::ShowDesktop, true));
    assert!(!needs_window(switch, false));
    assert!(needs_window(switch, true));
    assert!(needs_window(WindowTask::Minimize, false));
    let keys: Vec<(Key, i32)> = show_desktop_keys().iter().map(|e| (e.key, e.value)).collect();
    assert_eq!(
        keys,
        vec![(Key::LeftMeta, 1), (Key::D, 1), (Key::D, 0), (Key::LeftMeta, 0)]
    );
}

#[test]
fn placements_say_when_they_do_not_fit() {
    let wide = WindowAction::Adjust { dx: i32::MAX, dy: 0, dw: 0, dh: 0 };
    assert!(!placement_fits(wide, around()));
    let thin = WindowAction::Adjust { dx: 0, dy: 0, dw: -900, dh: -700 };
    assert!(placement_fits(thin, around()));
    assert_eq!(place_window(thin, around()), Some((100, 100, 1, 1)));
    assert_eq!(from_edges(10, 20, 110, 70), (10, 20, 100, 50));
    assert_eq!(center_between(10, 20, 111, 70), (60, 45));
    assert_eq!(center_between(-5, 0, 0, 0), (-2, 0));
}

#[test]
fn placements_are_exact() {
    let s = around();
    let place = |action| place_window(action, s);
    assert_eq!(
        place(WindowAction::Adjust { dx: 10, dy: -20, dw: 5, dh: -6 }),
        Some((110, 80, 805, 594))
    );
    assert_eq!(
        place(WindowAction::Preset {
            w: Scale::Integer(1),
            h: Scale::Integer(1),
            anchor: Some(Corner::BottomRight),
        }),
        Some((960, 552, 960, 528))
    );
    assert_eq!(place(WindowAction::Center), Some((560, 252, 800, 600)));
    assert_eq!(
        place(WindowAction::Snap(Corner::TopRight)),
        Some((1120, 24, 800, 600))
    );
    assert_eq!(
        place(WindowAction::StepToward(Corner::TopLeft)),
        Some((90, 95, 800, 600))
    );
    assert_eq!(
        place(WindowAction::Corner(Corner::BottomLeft)),
        Some((0, 552, 960, 528))
    );
    assert_eq!(
        place(WindowAction::SmartTile { side: Side::Right, fraction: TileFraction::Third }),
        Some((1280, 24, 640, 1056))
    );
    assert_eq!(place(WindowAction::Maximize), Some(AREA));
    assert_eq!(place(WindowAction::Minimize), None);
}

#[test]
fn tiles_are_the_truncated_products_of_doubles() {
    let fractions = [
        (TileFraction::Half, 0.5),
        (TileFraction::Third, 1.0 / 3.0),
        (TileFraction::TwoThirds, 2.0 / 3.0),
    ];
    for (fraction, ratio) in fractions {
        for width in (0..5000).chain([i32::MAX - 1, i32::MAX, 1 << 30, 3 << 20, 3 << 29]) {
            let (_, _, w, _) = tile_rect((0, 0, width, 10), Side::Left, fraction);
            assert_eq!(w, (f64::from(width) * ratio) as i32, "{width} * {ratio}");
        }
    }
}

#[test]
fn frames_are_those_of_the_ease_out_curve() {
    for (from, to) in [(0, 1000), (1000, -350), (-7, 8), (5, 5)] {
        let frames = anim_frames((from, 0, 1, 1), (to, 0, 1, 1), 16);
        assert_eq!(frames.len(), 16);
        for (i, frame) in frames.iter().enumerate() {
            let t = (i + 1) as f64 / 16.0;
            let eased = 1.0 - (1.0 - t).powi(3);
            let expected = from + (f64::from(to - from) * eased).round() as i32;
            assert_eq!(frame.0, expected);
        }
    }
}

#[test]
fn frames_are_rounded_as_doubles_are() {
    assert_eq!(anim_frames((0, 0, 0, 0), (500, 0, 0, 0), 10)[0].0, 135);
    for steps in (1..=40).chain([100, 997, 4096]) {
        for d in [1, 2, 3, 7, 250, 500, 1001, 65_535, 1 << 20, i32::MAX] {
            let frames = anim_frames((0, 0, d, 9), (d, -d, 0, 9), steps);
            for (i, frame) in frames.iter().enumerate() {
                let p = (i + 1) as f64 / f64::from(steps);
                let eased = 1.0 - (1.0 - p).powi(3);
                let moved = (f64::from(d) * eased).round() as i32;
                assert_eq!(*frame, (moved, -moved, d - moved, 9), "{d} {steps}");
            }
        }
    }
    let last = anim_frames((i32::MIN, 0, 0, 0), (i32::MAX, 0, 0, 0), 3);
    assert_eq!(last[2].0, i32::MAX);
}

#[test]
fn small_moves_are_not_animated() {
    let start = (0, 0, 100, 100);
    assert_eq!(move_frames(start, (119, 0, 100, 100)), vec![(119, 0, 100, 100)]);
    assert_eq!(move_frames(start, (120, 0, 100, 100)).len(), 16);
}

#[test]
fn windows_keep_a_pixel() {
    assert_eq!(visible_rect((5, 6, 0, -4)), (5, 6, 1, 1));
}

#[test]
fn toggling_fills_and_restores() {
    let (here, there) = ((1, 2, 3, 4), (5, 6, 7, 8));
    let mut memory = FillMemory::new();
    assert!(!memory.remembers(7));
    assert_eq!(memory.toggle(7, here, AREA), AREA);
    assert!(memory.remembers(7));
    assert_eq!(memory.toggle(7, AREA, AREA), here);
    assert_eq!(memory.toggle(7, here, AREA), AREA);
    assert_eq!(memory.toggle(8, there, AREA), AREA);
    assert!(!memory.remembers(7));
    assert_eq!(memory.toggle(7, AREA, AREA), AREA);
}

#[test]
fn frames_come_in_any_number() {
    for steps in [0, 1, 3, 5, 6, 7, 10, 48, 100] {
        let (start, target) = ((0, 900, 10, 20), (301, -50, 10, 21));
        let frames = anim_frames(start, target, steps);
        assert_eq!(frames.len(), steps as usize);
        let mut last = start;
        for frame in &frames {
            assert!(last.0 <= frame.0 && frame.0 <= target.0);
            assert!(last.1 >= frame.1 && frame.1 >= target.1);
            assert_eq!(frame.2, 10);
            last = *frame;
        }
        assert_eq!(steps > 0, last == target);
    }
    assert_eq!(anim_frames((0, 0, 0, 0), (270, 0, 0, 0), 3)[0].0, 190);
    assert_eq!(anim_frames((0, 0, 0, 0), (-270, 0, 0, 0), 3)[1].0, -260);
}

#[test]
fn the_panel_is_not_stepped() {
    assert!(may_step(None));
    assert!(may_step(Some("Firefox")));
    assert!(!may_step(Some("xfce4-panel")));
}

#[test]
fn moves_to_the_next_monitor_keep_the_place() {
    let rects = vec![(1920, 0, 1280, 1024), (0, 0, 1920, 1080)];
    let geom = (100, 50, 800, 600);
    assert_eq!(
        move_to_monitor(&rects, geom, (500, 350), CycleDirection::Forward),
        Some((2020, 50, 800, 600))
    );
    assert_eq!(
        move_to_monitor(&vec![(0, 0, 10, 10)], geom, (5, 5), CycleDirection::Forward),
        None
    );
}

#[test]
fn fresh_commands_stand_for_the_geometry() {
    let last = Some((7, (1, 2, 3, 4)));
    assert_eq!(cached_geometry(last, 249, 7), Some((1, 2, 3, 4)));
    assert_eq!(cached_geometry(last, 250, 7), None);
    assert_eq!(cached_geometry(last, 0, 8), None);
    assert_eq!(cached_geometry(None, 0, 7), None);
}
