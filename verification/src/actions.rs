//! What a binding can ask for: key events, window actions and other effects.

use crate::combo::{Combo, ComboView};
use crate::key::Key;
use vstd::prelude::*;

verus! {

// === Constants ===

/// Divides the monitor diagonal to produce the step magnitude for
/// [`WindowAction::StepToward`]. Each press moves the window exactly
/// `diagonal / STEP_DIVISOR` pixels toward the corner.
pub const STEP_DIVISOR: i32 = 30;

// === Data structures ===

/// A single low-level event for the backend to emit. `value` is `1` for press,
/// `0` for release and `2` for an auto-repeat.
#[derive(Clone, Copy, Debug, Eq, PartialEq, Structural)]
pub struct OutEvent {
    pub key: Key,
    pub value: i32,
}

/// A screen corner, for quarter-screen tiling.
#[derive(Clone, Copy, Debug, Eq, PartialEq, Structural)]
pub enum Corner {
    TopLeft,
    TopRight,
    BottomLeft,
    BottomRight,
}

/// A screen edge, for half-screen (smart) tiling.
#[derive(Clone, Copy, Debug, Eq, PartialEq, Structural)]
pub enum Side {
    Left,
    Right,
    Top,
    Bottom,
}

/// Direction to step when cycling through windows of the same application.
#[derive(Clone, Copy, Debug, Eq, PartialEq, Structural)]
pub enum CycleDirection {
    Forward,
    Backward,
}

/// A workspace / virtual-desktop target. `Index` is 1-based as written in the
/// config (workspace 1 is the first).
#[derive(Clone, Copy, Debug, Eq, PartialEq, Structural)]
pub enum Workspace {
    Index(u32),
    Prev,
    Next,
}

/// A smart-tile size, cycled in order on consecutive same-edge tiles: a half,
/// then a third, then two-thirds.
#[derive(Clone, Copy, Debug, Eq, PartialEq, Structural)]
pub enum TileFraction {
    Half,
    Third,
    TwoThirds,
}

/// A number as a configuration writes it, carried through unchanged: a decimal
/// by the bits of its double, or a whole number.
#[derive(Clone, Copy, Debug, Eq, PartialEq, Structural)]
pub enum Scale {
    Float(u64),
    Integer(i128),
}

/// A window-management action the backend performs on the foreground window.
/// Geometry is in screen pixels; `Preset` scales are of the window's monitor
/// work area.
#[derive(Clone, Copy, Debug, Eq, PartialEq, Structural)]
pub enum WindowAction {
    /// Add to the window's position (`dx`, `dy`) and size (`dw`, `dh`). One
    /// action expresses every move and resize: e.g. "shorten at the top" is
    /// `dy = +20, dh = -20`.
    Adjust { dx: i32, dy: i32, dw: i32, dh: i32 },
    /// Size the window to a fraction of its monitor's work area and place it at
    /// `anchor` — a corner, or the centre when `None`.
    Preset { w: Scale, h: Scale, anchor: Option<Corner> },
    /// Centre the window on its monitor, keeping its current size.
    Center,
    /// Move the window to a corner of its monitor, keeping its current size.
    Snap(Corner),
    /// Move the window one step toward a corner, keeping its current size.
    /// Repeating nudges it gradually; `Snap` teleports it.
    StepToward(Corner),
    /// Tile the window to a quarter of its monitor work area.
    Corner(Corner),
    /// Tile the window to a screen edge at `fraction` of the work area. The
    /// engine fills `fraction` from the smart-tile cycle (1/2 → 1/3 → 2/3 on
    /// consecutive same-edge tiles; a broken chain restarts at a half).
    SmartTile { side: Side, fraction: TileFraction },
    /// Maximize the window.
    Maximize,
    /// Maximize the window if it is restored, restore it if it is maximized.
    MaximizeToggle,
    /// Minimize (iconify) the window.
    Minimize,
    /// Toggle the window's always-on-top (keep-above) state.
    AlwaysOnTop,
    /// Toggle showing the desktop (minimize/restore all windows).
    ShowDesktop,
    /// Show a Vimium-style hint overlay to choose and focus any desktop window;
    /// what a configuration's `find-window` asks for.
    FindWindow,
    /// The same overlay, asked for by a program rather than a configuration.
    PickWindow,
    /// Show an element-hint overlay over the active window; clicking a hint
    /// activates that UI element.
    PickElement,
    /// Move the window to the next/previous monitor, keeping its relative place.
    MoveToMonitor(CycleDirection),
    /// Activate the next/previous window of the same application.
    CycleSameApp(CycleDirection),
    /// Switch to a workspace, optionally taking the active window along.
    Workspace { target: Workspace, move_window: bool },
}

/// A non-keyboard side effect produced by a binding. The engine only records
/// these as *intents*; the active backend performs them.
#[derive(Clone, Debug, PartialEq)]
pub enum Effect {
    /// Activate an existing window of the program, or launch it if none is open.
    /// The string is an executable name or path (e.g. `brave` or `Code.exe`).
    Launch(String),
    /// Act on the foreground window.
    Window(WindowAction),
}

/// What an [`Effect`] asks for.
pub enum EffectView {
    Launch(Seq<char>),
    Window(WindowAction),
}

/// One action in a binding's action list.
#[derive(Clone, Debug)]
pub enum Step {
    /// Emit a combo verbatim.
    Keys(Combo),
    /// Emit a combo, adding `Shift` when the selection mark is active.
    WithMark(Combo),
    /// Set or clear the selection mark.
    SetMark(bool),
    /// Let the original trigger key through unchanged.
    PassThrough,
    /// Activate-or-launch a program. A side effect, not a keystroke.
    Exec(String),
    /// Perform a window-management action. A side effect, not a keystroke.
    Window(WindowAction),
}

/// What a [`Step`] says.
pub enum StepView {
    Keys(ComboView),
    WithMark(ComboView),
    SetMark(bool),
    PassThrough,
    Exec(Seq<char>),
    Window(WindowAction),
}

// === Models ===

impl View for Effect {
    type V = EffectView;

    open spec fn view(&self) -> EffectView {
        match *self {
            Effect::Launch(program) => EffectView::Launch(program@),
            Effect::Window(action) => EffectView::Window(action),
        }
    }
}

impl View for Step {
    type V = StepView;

    open spec fn view(&self) -> StepView {
        match *self {
            Step::Keys(combo) => StepView::Keys(combo@),
            Step::WithMark(combo) => StepView::WithMark(combo@),
            Step::SetMark(value) => StepView::SetMark(value),
            Step::PassThrough => StepView::PassThrough,
            Step::Exec(program) => StepView::Exec(program@),
            Step::Window(action) => StepView::Window(action),
        }
    }
}

/// What a list of effects asks for.
pub open spec fn effect_views(effects: Seq<Effect>) -> Seq<EffectView> {
    effects.map_values(|e: Effect| e@)
}

/// What a list of steps says.
pub open spec fn step_views(steps: Seq<Step>) -> Seq<StepView> {
    steps.map_values(|s: Step| s@)
}

impl TileFraction {
    /// The size that follows this one in the cycle.
    pub open spec fn spec_next(self) -> TileFraction {
        match self {
            TileFraction::Half => TileFraction::Third,
            TileFraction::Third => TileFraction::TwoThirds,
            TileFraction::TwoThirds => TileFraction::Half,
        }
    }

    /// The size that follows this one in the cycle.
    pub fn next(self) -> (r: TileFraction)
        ensures
            r == self.spec_next(),
    {
        match self {
            TileFraction::Half => TileFraction::Third,
            TileFraction::Third => TileFraction::TwoThirds,
            TileFraction::TwoThirds => TileFraction::Half,
        }
    }

    /// Numerator and denominator.
    pub open spec fn spec_ratio(self) -> (int, int) {
        match self {
            TileFraction::Half => (1, 2),
            TileFraction::Third => (1, 3),
            TileFraction::TwoThirds => (2, 3),
        }
    }

    /// Numerator and denominator.
    pub fn ratio(self) -> (r: (i32, i32))
        ensures
            (r.0 as int, r.1 as int) == self.spec_ratio(),
    {
        match self {
            TileFraction::Half => (1, 2),
            TileFraction::Third => (1, 3),
            TileFraction::TwoThirds => (2, 3),
        }
    }
}

// === CycleDirection ===

impl CycleDirection {
    /// The position one step from `i` in a ring of `len`.
    pub open spec fn spec_step(self, i: int, len: int) -> int {
        match self {
            CycleDirection::Forward => (i + 1) % len,
            CycleDirection::Backward => (i + len - 1) % len,
        }
    }

    /// The index reached by stepping one position from `i` in this direction
    /// within a ring of `len` items; wraps around at both ends. `len` must be
    /// non-zero (the caller only cycles when more than one window exists).
    pub fn step(self, i: usize, len: usize) -> (r: usize)
        requires
            len > 0,
        ensures
            r == self.spec_step(i as int, len as int),
            r < len,
    {
        let at: usize = i % len;
        proof {
            lemma_ring(i as int, len as int);
        }
        match self {
            CycleDirection::Forward => if at + 1 == len {
                0
            } else {
                at + 1
            },
            CycleDirection::Backward => if at == 0 {
                len - 1
            } else {
                at - 1
            },
        }
    }
}

proof fn lemma_ring(i: int, len: int)
    requires
        0 <= i,
        0 < len,
    ensures
        (i + 1) % len == if i % len + 1 == len {
            0
        } else {
            i % len + 1
        },
        (i + len - 1) % len == if i % len == 0 {
            len - 1
        } else {
            i % len - 1
        },
{
    let q = i / len;
    let at = i % len;
    vstd::arithmetic::div_mod::lemma_fundamental_div_mod(i, len);
    assert((q + 1) * len == q * len + len) by (nonlinear_arith);
    assert(len * q == q * len) by (nonlinear_arith);
    if at + 1 == len {
        vstd::arithmetic::div_mod::lemma_fundamental_div_mod_converse(i + 1, len, q + 1, 0);
    } else {
        vstd::arithmetic::div_mod::lemma_fundamental_div_mod_converse(i + 1, len, q, at + 1);
    }
    if at == 0 {
        vstd::arithmetic::div_mod::lemma_fundamental_div_mod_converse(
            i + len - 1,
            len,
            q,
            len - 1,
        );
    } else {
        vstd::arithmetic::div_mod::lemma_fundamental_div_mod_converse(
            i + len - 1,
            len,
            q + 1,
            at - 1,
        );
    }
}

/// Stepping forward and then backward, or the other way round, comes back to
/// where it started.
pub proof fn steps_undo_each_other(i: int, len: int)
    requires
        0 <= i < len,
    ensures
        CycleDirection::Backward.spec_step(CycleDirection::Forward.spec_step(i, len), len) == i,
        CycleDirection::Forward.spec_step(CycleDirection::Backward.spec_step(i, len), len) == i,
{
    if i + 1 < len {
        vstd::arithmetic::div_mod::lemma_small_mod((i + 1) as nat, len as nat);
    } else {
        vstd::arithmetic::div_mod::lemma_mod_self_0(len);
    }
    vstd::arithmetic::div_mod::lemma_mod_add_multiples_vanish(i, len);
    assert((i + len) % len == i) by {
        vstd::arithmetic::div_mod::lemma_small_mod(i as nat, len as nat);
    }
    vstd::arithmetic::div_mod::lemma_small_mod((len - 1) as nat, len as nat);
    if i > 0 {
        vstd::arithmetic::div_mod::lemma_mod_add_multiples_vanish(i - 1, len);
        vstd::arithmetic::div_mod::lemma_small_mod((i - 1) as nat, len as nat);
    }
    vstd::arithmetic::div_mod::lemma_small_mod(i as nat, len as nat);
}

/// The smart-tile sizes come round after three tiles.
pub proof fn tile_sizes_come_round(f: TileFraction)
    ensures
        f.spec_next().spec_next().spec_next() == f,
        f.spec_next() != f,
        f.spec_next().spec_next() != f,
{
}

} // verus!
