//! Performing window actions: what each needs to know, and where it puts the
//! window.

use crate::actions::{CycleDirection, OutEvent, WindowAction, Workspace};
use crate::geometry::{
    adjust_fits, adjust_rect, adjusted, anchor_fits, anchor_pos, anchored, corner_fits,
    corner_rect, quarter, rect_fits, sized, tile, tile_fits, tile_rect,
};
use crate::key::Key;
use crate::rect::ints;
use crate::text::same_text;
use vstd::prelude::*;

verus! {

// === Data structures ===

/// How an action is carried out.
#[derive(Clone, Copy, Debug, Eq, PartialEq, Structural)]
pub enum WindowTask {
    /// Switch workspaces, taking the active window along or not.
    Workspace { target: Workspace, move_window: bool },
    /// Toggle showing the desktop.
    ShowDesktop,
    /// Put the active window at its placement, after looking at the work area or
    /// at its own geometry as needed, and after dropping a maximized state where
    /// that would make the move stick.
    Place { area: bool, geometry: bool, unmaximize: bool },
    /// Maximize the window.
    Maximize,
    /// Fill the work area, or go back to where the window was.
    ToggleFill,
    Minimize,
    AlwaysOnTop,
    MoveToMonitor(CycleDirection),
    CycleSameApp(CycleDirection),
    /// Nothing to do to a window: an overlay takes care of it.
    Overlay,
}

/// What an action is resolved against: the work area, the window's own geometry,
/// the size a preset comes to, and the spot a step leads to.
#[derive(Clone, Copy, Debug)]
pub struct Surroundings {
    pub area: (i32, i32, i32, i32),
    pub geometry: (i32, i32, i32, i32),
    pub preset_size: (i32, i32),
    pub step_to: (i32, i32),
}

/// The geometry to restore when a maximize-toggle un-fills the window that was
/// filled last.
#[derive(Clone, Copy, Debug)]
pub struct FillMemory {
    pub saved: Option<(u32, (i32, i32, i32, i32))>,
}

// === Tasks ===

/// How an action is carried out. Windows knows how to maximize and keeps snapped
/// windows maximized; on X11 maximizing is a placement over the whole work area.
pub open spec fn task_of(action: WindowAction, windows: bool) -> WindowTask {
    match action {
        WindowAction::Workspace { target, move_window } => WindowTask::Workspace {
            target,
            move_window,
        },
        WindowAction::ShowDesktop => WindowTask::ShowDesktop,
        WindowAction::Adjust { .. } => WindowTask::Place {
            area: false,
            geometry: true,
            unmaximize: false,
        },
        WindowAction::Preset { .. } => WindowTask::Place {
            area: true,
            geometry: false,
            unmaximize: true,
        },
        WindowAction::Center => WindowTask::Place { area: true, geometry: true, unmaximize: false },
        WindowAction::Snap(_) => WindowTask::Place {
            area: true,
            geometry: true,
            unmaximize: !windows,
        },
        WindowAction::StepToward(_) => WindowTask::Place {
            area: true,
            geometry: true,
            unmaximize: false,
        },
        WindowAction::Corner(_) => WindowTask::Place {
            area: true,
            geometry: false,
            unmaximize: true,
        },
        WindowAction::SmartTile { .. } => WindowTask::Place {
            area: true,
            geometry: false,
            unmaximize: true,
        },
        WindowAction::Maximize => if windows {
            WindowTask::Maximize
        } else {
            WindowTask::Place { area: true, geometry: false, unmaximize: true }
        },
        WindowAction::MaximizeToggle => WindowTask::ToggleFill,
        WindowAction::Minimize => WindowTask::Minimize,
        WindowAction::AlwaysOnTop => WindowTask::AlwaysOnTop,
        WindowAction::MoveToMonitor(direction) => WindowTask::MoveToMonitor(direction),
        WindowAction::CycleSameApp(direction) => WindowTask::CycleSameApp(direction),
        WindowAction::FindWindow => WindowTask::Overlay,
        WindowAction::PickWindow => WindowTask::Overlay,
        WindowAction::PickElement => WindowTask::Overlay,
    }
}

/// How an action is carried out.
pub fn window_task(action: WindowAction, windows: bool) -> (r: WindowTask)
    ensures
        r == task_of(action, windows),
{
    match action {
        WindowAction::Workspace { target, move_window } => WindowTask::Workspace {
            target,
            move_window,
        },
        WindowAction::ShowDesktop => WindowTask::ShowDesktop,
        WindowAction::Adjust { .. } => WindowTask::Place {
            area: false,
            geometry: true,
            unmaximize: false,
        },
        WindowAction::Center | WindowAction::StepToward(_) => WindowTask::Place {
            area: true,
            geometry: true,
            unmaximize: false,
        },
        WindowAction::Snap(_) => WindowTask::Place {
            area: true,
            geometry: true,
            unmaximize: !windows,
        },
        WindowAction::Preset { .. } | WindowAction::Corner(_) | WindowAction::SmartTile {
            ..
        } => WindowTask::Place { area: true, geometry: false, unmaximize: true },
        WindowAction::Maximize => if windows {
            WindowTask::Maximize
        } else {
            WindowTask::Place { area: true, geometry: false, unmaximize: true }
        },
        WindowAction::MaximizeToggle => WindowTask::ToggleFill,
        WindowAction::Minimize => WindowTask::Minimize,
        WindowAction::AlwaysOnTop => WindowTask::AlwaysOnTop,
        WindowAction::MoveToMonitor(direction) => WindowTask::MoveToMonitor(direction),
        WindowAction::CycleSameApp(direction) => WindowTask::CycleSameApp(direction),
        WindowAction::FindWindow | WindowAction::PickWindow | WindowAction::PickElement =>
        WindowTask::Overlay,
    }
}

/// Whether a task is given up where there is no active window. On X11 switching
/// workspaces is not, nor is showing the desktop, so it can be restored while nothing
/// has the focus.
pub fn needs_window(task: WindowTask, windows: bool) -> (r: bool)
    ensures
        r == (windows || !(task is ShowDesktop || task is Workspace)),
{
    match task {
        WindowTask::ShowDesktop | WindowTask::Workspace { .. } => windows,
        _ => true,
    }
}

/// The keys that toggle showing the desktop on Windows: Super-D.
pub open spec fn desktop_keys() -> Seq<OutEvent> {
    seq![
        OutEvent { key: Key::LeftMeta, value: 1 },
        OutEvent { key: Key::D, value: 1 },
        OutEvent { key: Key::D, value: 0 },
        OutEvent { key: Key::LeftMeta, value: 0 },
    ]
}

/// The keys that toggle showing the desktop on Windows, which has no call for it.
pub fn show_desktop_keys() -> (r: Vec<OutEvent>)
    ensures
        r@ == desktop_keys(),
{
    let r = vec![
        OutEvent { key: Key::LeftMeta, value: 1 },
        OutEvent { key: Key::D, value: 1 },
        OutEvent { key: Key::D, value: 0 },
        OutEvent { key: Key::LeftMeta, value: 0 },
    ];
    assert(r@ =~= desktop_keys());
    r
}

// === Placement ===

/// A window of a size at a position.
pub open spec fn placed_at(p: (int, int), size: (int, int)) -> (int, int, int, int) {
    (p.0, p.1, size.0, size.1)
}

/// Where an action puts the window, if it places windows.
pub open spec fn placement(action: WindowAction, s: Surroundings) -> Option<(int, int, int, int)> {
    let area = ints(s.area);
    let geom = ints(s.geometry);
    let own = (geom.2, geom.3);
    let preset = (s.preset_size.0 as int, s.preset_size.1 as int);
    match action {
        WindowAction::Adjust { dx, dy, dw, dh } => Some(
            adjusted(geom, dx as int, dy as int, dw as int, dh as int),
        ),
        WindowAction::Preset { anchor, .. } => Some(
            placed_at(anchored(area, preset, anchor), preset),
        ),
        WindowAction::Center => Some(placed_at(anchored(area, own, None), own)),
        WindowAction::Snap(corner) => Some(placed_at(anchored(area, own, Some(corner)), own)),
        WindowAction::StepToward(_) => Some(
            placed_at((s.step_to.0 as int, s.step_to.1 as int), own),
        ),
        WindowAction::Corner(corner) => Some(quarter(area, corner)),
        WindowAction::SmartTile { side, fraction } => Some(tile(area, side, fraction)),
        WindowAction::Maximize => Some(area),
        _ => None,
    }
}

/// Where an action puts the window, if it places windows.
pub fn place_window(action: WindowAction, s: Surroundings) -> (r: Option<(i32, i32, i32, i32)>)
    requires
        placement(action, s) matches Some(rect) ==> rect_fits(rect),
    ensures
        match r {
            Some(rect) => placement(action, s) == Some(ints(rect)),
            None => placement(action, s) is None,
        },
{
    let (ax, ay, aw, ah) = s.area;
    let (_, _, w, h) = s.geometry;
    match action {
        WindowAction::Adjust { dx, dy, dw, dh } => Some(
            adjust_rect(s.geometry, dx, dy, dw, dh),
        ),
        WindowAction::Preset { anchor, .. } => {
            let (nw, nh) = s.preset_size;
            let (x, y) = anchor_pos(ax, ay, aw, ah, nw, nh, anchor);
            Some((x, y, nw, nh))
        },
        WindowAction::Center => {
            let (x, y) = anchor_pos(ax, ay, aw, ah, w, h, None);
            Some((x, y, w, h))
        },
        WindowAction::Snap(corner) => {
            let (x, y) = anchor_pos(ax, ay, aw, ah, w, h, Some(corner));
            Some((x, y, w, h))
        },
        WindowAction::StepToward(_) => Some((s.step_to.0, s.step_to.1, w, h)),
        WindowAction::Corner(corner) => Some(corner_rect(s.area, corner)),
        WindowAction::SmartTile { side, fraction } => Some(tile_rect(s.area, side, fraction)),
        WindowAction::Maximize => Some(s.area),
        _ => None,
    }
}

/// Whether the rectangle an action puts the window at can be written down.
pub fn placement_fits(action: WindowAction, s: Surroundings) -> (r: bool)
    ensures
        r == (placement(action, s) matches Some(rect) ==> rect_fits(rect)),
{
    let (_, _, w, h) = s.geometry;
    match action {
        WindowAction::Adjust { dx, dy, dw, dh } => adjust_fits(s.geometry, dx, dy, dw, dh),
        WindowAction::Preset { anchor, .. } => anchor_fits(s.area, s.preset_size, anchor),
        WindowAction::Center => anchor_fits(s.area, (w, h), None),
        WindowAction::Snap(corner) => anchor_fits(s.area, (w, h), Some(corner)),
        WindowAction::Corner(corner) => corner_fits(s.area, corner),
        WindowAction::SmartTile { side, fraction } => tile_fits(s.area, side, fraction),
        _ => true,
    }
}

/// Whether a window may be stepped: the desktop's panel stays where it is.
pub fn may_step(class: Option<&str>) -> (r: bool)
    ensures
        r == !(class matches Some(c) && c@ == "xfce4-panel"@),
{
    match class {
        Some(c) => !same_text(c, "xfce4-panel"),
        None => true,
    }
}

// === Filling ===

/// The geometry to go back to, if `win` was filled last.
pub open spec fn restored(saved: Option<(u32, (i32, i32, i32, i32))>, win: u32) -> Option<
    (i32, i32, i32, i32),
> {
    match saved {
        Some((w, rect)) if w == win => Some(rect),
        _ => None,
    }
}

/// What is saved when a toggle comes to a window that is at `rect`: a window that was
/// filled last goes back and nothing is saved, any other is filled.
pub open spec fn toggled(
    saved: Option<(u32, (i32, i32, i32, i32))>,
    win: u32,
    rect: (i32, i32, i32, i32),
) -> Option<(u32, (i32, i32, i32, i32))> {
    match restored(saved, win) {
        Some(_) => None,
        None => Some((win, rect)),
    }
}

/// Where a toggle puts a window: back where it was if it was filled last, else over the
/// work area.
pub open spec fn toggle_target(
    saved: Option<(u32, (i32, i32, i32, i32))>,
    win: u32,
    area: (i32, i32, i32, i32),
) -> (i32, i32, i32, i32) {
    match restored(saved, win) {
        Some(rect) => rect,
        None => area,
    }
}

impl FillMemory {
    /// Nothing to restore.
    pub fn new() -> (r: FillMemory)
        ensures
            r.saved is None,
    {
        FillMemory { saved: None }
    }

    /// Whether `win` was filled last, so that a toggle takes it back.
    pub fn remembers(&self, win: u32) -> (r: bool)
        ensures
            r == restored(self.saved, win) is Some,
    {
        match self.saved {
            Some((w, _)) => w == win,
            None => false,
        }
    }

    /// Toggle a window that is at `geom`: the rectangle to put it at, which is where it
    /// was if it was filled last, and else the work area.
    pub fn toggle(
        &mut self,
        win: u32,
        geom: (i32, i32, i32, i32),
        area: (i32, i32, i32, i32),
    ) -> (target: (i32, i32, i32, i32))
        ensures
            final(self).saved == toggled(old(self).saved, win, geom),
            target == toggle_target(old(self).saved, win, area),
    {
        if let Some((w, rect)) = self.saved {
            if w == win {
                self.saved = None;
                return rect;
            }
        }
        self.saved = Some((win, geom));
        area
    }
}

// === Laws ===

/// An action is carried out by a placement exactly if it has one (but for maximizing
/// on Windows), and a placement depends on the work area and on the window's own
/// geometry only where the task says to look at them.
pub proof fn placements_match_tasks(
    action: WindowAction,
    windows: bool,
    a: Surroundings,
    b: Surroundings,
)
    ensures
        task_of(action, windows) is Place == (placement(action, a) is Some && !(windows
            && action is Maximize)),
        task_of(action, windows) matches WindowTask::Place { area, geometry, .. } ==> (
        a.preset_size == b.preset_size && a.step_to == b.step_to && (area ==> a.area == b.area)
            && (geometry ==> a.geometry == b.geometry)) ==> placement(action, a) == placement(
            action,
            b,
        ),
{
}

/// Centring and snapping keep the window's size, and so does a step.
pub proof fn moves_keep_the_size(action: WindowAction, s: Surroundings)
    requires
        action is Center || action is Snap || action is StepToward,
    ensures
        placement(action, s) matches Some(rect) && rect.2 == s.geometry.2 && rect.3
            == s.geometry.3,
{
}

/// The first toggle fills the work area, the second goes back to where the window was
/// before the first, and a third fills the area again, wherever the window is by then;
/// a toggle of another window in between forgets where to go back to.
pub proof fn toggling_twice_restores(
    saved: Option<(u32, (i32, i32, i32, i32))>,
    win: u32,
    other: u32,
    geom: (i32, i32, i32, i32),
    filled: (i32, i32, i32, i32),
    area: (i32, i32, i32, i32),
)
    requires
        restored(saved, win) is None,
        win != other,
    ensures
        toggle_target(saved, win, area) == area,
        ({
            let once = toggled(saved, win, geom);
            let twice = toggled(once, win, filled);
            &&& toggle_target(once, win, area) == geom
            &&& geom.2 >= 1 && geom.3 >= 1 ==> sized(ints(toggle_target(once, win, area)))
                == ints(geom)
            &&& toggle_target(twice, win, area) == area
            &&& toggle_target(toggled(once, other, filled), win, area) == area
        }),
{
}

} // verus!
