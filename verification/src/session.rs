//! What a running remapper does with each thing that happens: a key event, a
//! timeout, the answer to an enumeration, a new configuration. It holds the engine
//! together with the overlays that capture input, and answers every happening with
//! the commands to carry out, in order.

use crate::actions::{effect_views, Effect, EffectView, OutEvent, WindowAction};
use crate::element::{
    opening_hints, session_action, session_after, Element, HintAction, HintSession, HintView,
    SessionView, HINT_CHARS,
};
use crate::engine::Engine;
use crate::geometry::{larger, smaller};
use crate::key::{key_at_evdev, key_at_vk, Key};
use crate::model::{
    cleared, flushed, on_event, synced_to_held, tracked_raw, undecided, EngineView, StateView,
};
use crate::picker::{picker_after, picker_step, shown_chips, Picker, PickerStep, PickerView};
use crate::rules::{passes_through, Config};
use vstd::prelude::*;

verus! {

// === Constants ===

/// How long a tap-hold key may be held with no other key before committing to its
/// hold modifier, so the modifier reaches the OS in time for a mouse click (which
/// never reaches the remapper), e.g. Shift/Ctrl-click multi-select.
pub const TAP_HOLD_TIMEOUT_MS: u64 = 200;

/// How often the answer to an enumeration is looked for.
pub const ELEMENTS_POLL_MS: u64 = 50;

/// How often a reloaded configuration is looked for while no key is pressed.
pub const RELOAD_POLL_MS: u64 = 1000;

/// Tag stamped into injected events so the hook ignores them.
pub const INJECT_MARKER: usize = 0x5249_4748;

// === Data structures ===

/// One thing to carry out.
#[derive(Debug)]
pub enum Command {
    /// Emit these events.
    Emit(Vec<OutEvent>),
    /// Forward a key as it came.
    EmitRaw { code: u16, value: i32 },
    /// Build the window-hint overlay.
    OpenWindows,
    /// Show the chips of the window-hint overlay that are `true`, and no others.
    ShowWindows(Vec<bool>),
    /// Take the window-hint overlay down.
    CloseWindows,
    /// Activate the window of this hint.
    ActivateWindow(usize),
    /// Enumerate the elements of the active window.
    Enumerate,
    /// Build the element-hint overlay from these labelled elements.
    OpenElements(Vec<(Element, String)>),
    /// Say that there are no elements to pick.
    NoElements,
    /// Show the chips of the element-hint overlay that are `true`, and no others.
    ShowElements(Vec<bool>),
    /// Take the element-hint overlay down.
    CloseElements,
    /// Activate this element.
    ActivateElement(Element),
    /// Launch a program or act on a window.
    Perform(Effect),
    /// Start the tap-hold timer.
    StartTimer,
    /// Stop the tap-hold timer.
    StopTimer,
}

/// What a [`Command`] says.
pub enum CommandView {
    Emit(Seq<OutEvent>),
    EmitRaw { code: u16, value: i32 },
    OpenWindows,
    ShowWindows(Seq<bool>),
    CloseWindows,
    ActivateWindow(usize),
    Enumerate,
    OpenElements(Seq<(Element, Seq<char>)>),
    NoElements,
    ShowElements(Seq<bool>),
    CloseElements,
    ActivateElement(Element),
    Perform(EffectView),
    StartTimer,
    StopTimer,
}

/// The engine together with what captures input.
#[derive(Debug)]
pub struct Remapper {
    engine: Engine,
    /// The active application, as of the last press.
    app: String,
    /// The window-hint overlay, while it is up.
    picker: Option<Picker>,
    /// The element-hint session, while it is active.
    hints: Option<HintSession>,
    /// An enumeration of elements is in flight.
    awaiting: bool,
    /// When the undecided tap-hold key was first seen.
    hold_since: Option<u64>,
}

/// What a [`Remapper`] holds.
pub struct RemapperView {
    pub engine: EngineView,
    pub app: Seq<char>,
    pub picker: Option<PickerView>,
    pub hints: Option<SessionView>,
    pub awaiting: bool,
    pub hold_since: Option<u64>,
}

/// What is seen of a key event: the key and whether it goes down (`1`), up (`0`)
/// or repeats (`2`), whether remapping is on, the focused application as far as it
/// was looked up, whether another client grabs the keyboard, and the time in
/// milliseconds.
#[derive(Debug)]
pub struct KeySeen {
    pub code: u16,
    pub value: i32,
    pub enabled: bool,
    pub focus: Option<String>,
    pub grabbed: bool,
    pub now: u64,
}

/// What a [`KeySeen`] says.
pub struct KeySeenView {
    pub code: u16,
    pub value: i32,
    pub enabled: bool,
    pub focus: Option<Seq<char>>,
    pub grabbed: bool,
    pub now: u64,
}

/// What a hook answers: whether the key is kept from the OS, and what to carry out.
#[derive(Debug)]
pub struct HookReply {
    pub swallow: bool,
    pub commands: Vec<Command>,
}

// === Models ===

/// Labelled elements by their texts.
pub open spec fn pair_views(pairs: Seq<(Element, String)>) -> Seq<(Element, Seq<char>)> {
    pairs.map_values(|p: (Element, String)| (p.0, p.1@))
}

impl View for Command {
    type V = CommandView;

    open spec fn view(&self) -> CommandView {
        match *self {
            Command::Emit(out) => CommandView::Emit(out@),
            Command::EmitRaw { code, value } => CommandView::EmitRaw { code, value },
            Command::OpenWindows => CommandView::OpenWindows,
            Command::ShowWindows(shown) => CommandView::ShowWindows(shown@),
            Command::CloseWindows => CommandView::CloseWindows,
            Command::ActivateWindow(i) => CommandView::ActivateWindow(i),
            Command::Enumerate => CommandView::Enumerate,
            Command::OpenElements(pairs) => CommandView::OpenElements(pair_views(pairs@)),
            Command::NoElements => CommandView::NoElements,
            Command::ShowElements(shown) => CommandView::ShowElements(shown@),
            Command::CloseElements => CommandView::CloseElements,
            Command::ActivateElement(e) => CommandView::ActivateElement(e),
            Command::Perform(effect) => CommandView::Perform(effect@),
            Command::StartTimer => CommandView::StartTimer,
            Command::StopTimer => CommandView::StopTimer,
        }
    }
}

/// What a list of commands says.
pub open spec fn command_views(commands: Seq<Command>) -> Seq<CommandView> {
    commands.map_values(|c: Command| c@)
}

spec fn picker_view(p: Option<Picker>) -> Option<PickerView> {
    match p {
        Some(picker) => Some(picker@),
        None => None,
    }
}

spec fn hints_view(h: Option<HintSession>) -> Option<SessionView> {
    match h {
        Some(session) => Some(session@),
        None => None,
    }
}

impl View for Remapper {
    type V = RemapperView;

    closed spec fn view(&self) -> RemapperView {
        RemapperView {
            engine: self.engine@,
            app: self.app@,
            picker: picker_view(self.picker),
            hints: hints_view(self.hints),
            awaiting: self.awaiting,
            hold_since: self.hold_since,
        }
    }
}

impl View for KeySeen {
    type V = KeySeenView;

    open spec fn view(&self) -> KeySeenView {
        KeySeenView {
            code: self.code,
            value: self.value,
            enabled: self.enabled,
            focus: match self.focus {
                Some(app) => Some(app@),
                None => None,
            },
            grabbed: self.grabbed,
            now: self.now,
        }
    }
}

/// With another engine state.
pub open spec fn with_state(r: RemapperView, s: StateView) -> RemapperView {
    RemapperView { engine: EngineView { state: s, ..r.engine }, ..r }
}

/// The command that carries an effect out: the overlays are opened here, everything
/// else is performed.
pub open spec fn effect_command(e: EffectView) -> CommandView {
    match e {
        EffectView::Window(WindowAction::FindWindow) => CommandView::OpenWindows,
        EffectView::Window(WindowAction::PickWindow) => CommandView::OpenWindows,
        EffectView::Window(WindowAction::PickElement) => CommandView::Enumerate,
        _ => CommandView::Perform(e),
    }
}

/// The commands that carry effects out, in order.
pub open spec fn effect_commands(effects: Seq<EffectView>) -> Seq<CommandView> {
    effects.map_values(|e: EffectView| effect_command(e))
}

/// Some effect asks for an enumeration of elements.
pub open spec fn asks_elements(effects: Seq<EffectView>) -> bool {
    effects.contains(EffectView::Window(WindowAction::PickElement))
}

/// A known key goes through the engine: its output is emitted, and its effects are
/// carried out.
pub open spec fn engine_turn(r: RemapperView, key: Key, value: i32, app: Seq<char>) -> (
    RemapperView,
    Seq<CommandView>,
) {
    let (s, out) = on_event(r.engine.config, r.engine.state, key, value, app);
    (
        with_state(r, StateView { effects: Seq::empty(), ..s }),
        seq![CommandView::Emit(out)] + effect_commands(s.effects),
    )
}

/// A key that is not in the key table: held modifiers are preserved, and the key is
/// forwarded as it came.
pub open spec fn unknown_turn(r: RemapperView, code: u16, value: i32) -> (
    RemapperView,
    Seq<CommandView>,
) {
    let (s, out) = synced_to_held(r.engine.state);
    (
        with_state(r, s),
        seq![CommandView::Emit(out), CommandView::EmitRaw { code, value }],
    )
}

/// Every modifier is let go: what is emitted for that.
pub open spec fn released(r: RemapperView) -> CommandView {
    CommandView::Emit(cleared(r.engine.state).1)
}

/// Every modifier is let go: what is left.
pub open spec fn relaxed(r: RemapperView) -> RemapperView {
    with_state(r, cleared(r.engine.state).0)
}

/// Which chips an element-hint session shows.
pub open spec fn shown_hints(s: SessionView) -> Seq<bool> {
    s.hints.map_values(|h: HintView| h.matched)
}

/// The session that an enumeration opens.
pub open spec fn opened_session(elements: Seq<Element>) -> SessionView {
    SessionView { hints: opening_hints(elements, HINT_CHARS@), prefix: Seq::empty() }
}

/// The labelled elements of a session.
pub open spec fn session_pairs(s: SessionView) -> Seq<(Element, Seq<char>)> {
    s.hints.map_values(|h: HintView| (h.element, h.label))
}

// === Turns ===

/// A key event while the window-hint overlay is up. Presses go to the overlay;
/// releases go through the engine, so its modifier state stays consistent; repeats
/// are dropped.
pub open spec fn picker_turn(r: RemapperView, p: PickerView, code: u16, value: i32) -> (
    RemapperView,
    Seq<CommandView>,
) {
    let key = key_at_evdev(code);
    if value == 2 {
        (r, Seq::empty())
    } else if value == 0 {
        match key {
            Some(k) => {
                let (s, out) = on_event(r.engine.config, r.engine.state, k, 0, r.app);
                (with_state(r, s), seq![CommandView::Emit(out)])
            },
            None => (r, Seq::empty()),
        }
    } else {
        let q = picker_after(p, key);
        match picker_step(p, key) {
            PickerStep::Cancelled => (
                RemapperView { picker: None, ..relaxed(r) },
                seq![CommandView::CloseWindows, released(r)],
            ),
            PickerStep::Chosen(i) => (
                RemapperView { picker: None, ..relaxed(r) },
                seq![CommandView::CloseWindows, released(r), CommandView::ActivateWindow(i)],
            ),
            _ => (
                RemapperView { picker: Some(q), ..r },
                seq![CommandView::ShowWindows(shown_chips(q))],
            ),
        }
    }
}

/// A key event that another client is to see unchanged: it is forwarded as it came,
/// and the engine only keeps track of the modifiers.
pub open spec fn raw_turn(r: RemapperView, code: u16, value: i32) -> (
    RemapperView,
    Seq<CommandView>,
) {
    let s = match key_at_evdev(code) {
        Some(k) => tracked_raw(r.engine.config, r.engine.state, k, value),
        None => r.engine.state,
    };
    (with_state(r, s), seq![CommandView::EmitRaw { code, value }])
}

/// A key event while the elements are picked or awaited: it is swallowed. A press
/// goes to the session, if there is one.
pub open spec fn element_turn(r: RemapperView, code: u16, value: i32) -> (
    RemapperView,
    Seq<CommandView>,
) {
    match (r.hints, key_at_evdev(code)) {
        (Some(s), Some(k)) if value != 0 => {
            let t = session_after(s, k);
            match session_action(s, k) {
                HintAction::Updated => (
                    RemapperView { hints: Some(t), ..r },
                    seq![CommandView::ShowElements(shown_hints(t))],
                ),
                HintAction::Activate(e) => (
                    RemapperView { hints: None, ..relaxed(r) },
                    seq![
                        CommandView::CloseElements,
                        released(r),
                        CommandView::ActivateElement(e),
                    ],
                ),
                HintAction::Dismiss => (
                    RemapperView { hints: None, ..relaxed(r) },
                    seq![CommandView::CloseElements, released(r)],
                ),
                HintAction::Suppressed => (RemapperView { hints: Some(t), ..r }, Seq::empty()),
            }
        },
        _ => (r, Seq::empty()),
    }
}

/// The tap-hold clock after a turn: it runs while a tap-hold key is undecided, from
/// when that was first seen.
pub open spec fn clocked(r: RemapperView, now: u64) -> RemapperView {
    RemapperView {
        hold_since: if undecided(r.engine.state) {
            match r.hold_since {
                Some(t) => Some(t),
                None => Some(now),
            }
        } else {
            None
        },
        ..r
    }
}

/// A key event that is remapped.
pub open spec fn remap_turn(r: RemapperView, code: u16, value: i32, now: u64) -> (
    RemapperView,
    Seq<CommandView>,
) {
    match key_at_evdev(code) {
        Some(k) => {
            let (after, commands) = engine_turn(r, k, value, r.app);
            let (s, _) = on_event(r.engine.config, r.engine.state, k, value, r.app);
            (
                clocked(
                    RemapperView { awaiting: r.awaiting || asks_elements(s.effects), ..after },
                    now,
                ),
                commands,
            )
        },
        None => {
            let (after, commands) = unknown_turn(r, code, value);
            (clocked(after, now), commands)
        },
    }
}

/// The active application is looked up again on presses; releases and repeats use
/// the one that is known.
pub open spec fn focused(r: RemapperView, seen: KeySeenView) -> RemapperView {
    match seen.focus {
        Some(app) if seen.value == 1 => RemapperView { app, ..r },
        _ => r,
    }
}

/// One key event.
pub open spec fn key_turn(r: RemapperView, seen: KeySeenView) -> (RemapperView, Seq<CommandView>) {
    if !seen.enabled {
        (r, seq![CommandView::EmitRaw { code: seen.code, value: seen.value }])
    } else if r.picker is Some {
        picker_turn(r, r.picker->0, seen.code, seen.value)
    } else {
        let q = focused(r, seen);
        if seen.grabbed || passes_through(q.engine.config, "linux"@, q.app) {
            raw_turn(q, seen.code, seen.value)
        } else if q.hints is Some || q.awaiting {
            element_turn(q, seen.code, seen.value)
        } else {
            remap_turn(q, seen.code, seen.value, seen.now)
        }
    }
}

/// Whether the tap-hold key has been held for long enough.
pub open spec fn hold_is_due(r: RemapperView, now: u64) -> bool {
    r.hold_since matches Some(t) && now >= t + TAP_HOLD_TIMEOUT_MS
}

/// The tap-hold key is committed to its hold meaning once it is due, unless
/// remapping is off.
pub open spec fn hold_turn(r: RemapperView, now: u64, enabled: bool) -> (
    RemapperView,
    Seq<CommandView>,
) {
    if hold_is_due(r, now) {
        let q = RemapperView { hold_since: None, ..r };
        if enabled {
            let (s, out) = flushed(r.engine.state);
            (with_state(q, s), seq![CommandView::Emit(out)])
        } else {
            (q, Seq::empty())
        }
    } else {
        (r, Seq::empty())
    }
}

/// The answer to an enumeration. The session is entered only where there is
/// something to pick, so an empty answer does not trap input.
pub open spec fn answer_turn(r: RemapperView, elements: Seq<Element>) -> (
    RemapperView,
    Seq<CommandView>,
) {
    if !r.awaiting {
        (r, Seq::empty())
    } else {
        let q = RemapperView { awaiting: false, ..r };
        let s = opened_session(elements);
        if s.hints.len() == 0 {
            (relaxed(q), seq![CommandView::NoElements, released(q)])
        } else {
            (
                RemapperView { hints: Some(s), ..q },
                seq![CommandView::OpenElements(session_pairs(s))],
            )
        }
    }
}

/// A timeout, with the answer to an enumeration where one has come.
pub open spec fn idle_turn(
    r: RemapperView,
    now: u64,
    enabled: bool,
    answer: Option<Seq<Element>>,
) -> (RemapperView, Seq<CommandView>) {
    let (q, first) = hold_turn(r, now, enabled);
    match answer {
        Some(elements) => {
            let (after, rest) = answer_turn(q, elements);
            (after, first + rest)
        },
        None => (q, first),
    }
}

/// How long to wait for the next key event.
pub open spec fn wait(r: RemapperView, now: u64) -> int {
    let polled = if r.awaiting {
        smaller(ELEMENTS_POLL_MS as int, RELOAD_POLL_MS as int)
    } else {
        RELOAD_POLL_MS as int
    };
    match r.hold_since {
        Some(t) => smaller(larger(t + TAP_HOLD_TIMEOUT_MS - now, 0), polled),
        None => polled,
    }
}

// === Hook turns ===

/// What a hook message means for a key: `1` down, `0` up, nothing for messages that
/// are not to be acted on and for events that were injected.
pub open spec fn hook_meaning(code: i32, message: u32, extra: usize) -> Option<i32> {
    if code != 0 || extra == INJECT_MARKER {
        None
    } else if message == 0x100 || message == 0x104 {
        Some(1)
    } else if message == 0x101 || message == 0x105 {
        Some(0)
    } else {
        None
    }
}

/// A key in the hook while the window-hint overlay is up: only presses count.
pub open spec fn hook_picker_turn(r: RemapperView, p: PickerView, vk: u16, value: i32) -> (
    RemapperView,
    Seq<CommandView>,
) {
    let key = key_at_vk(vk);
    if value != 1 {
        (r, Seq::empty())
    } else {
        let q = picker_after(p, key);
        match picker_step(p, key) {
            PickerStep::Cancelled => (
                RemapperView { picker: None, ..relaxed(r) },
                seq![CommandView::CloseWindows, released(r)],
            ),
            PickerStep::Chosen(i) => (
                RemapperView { picker: None, ..relaxed(r) },
                seq![CommandView::CloseWindows, CommandView::ActivateWindow(i), released(r)],
            ),
            PickerStep::Updated => (
                RemapperView { picker: Some(q), ..r },
                seq![CommandView::ShowWindows(shown_chips(q))],
            ),
            PickerStep::Ignored => (RemapperView { picker: Some(q), ..r }, Seq::empty()),
        }
    }
}

/// A key in the hook while the elements are picked or awaited: while the answer is
/// awaited nothing happens, then presses go to the session.
pub open spec fn hook_element_turn(r: RemapperView, key: Key, value: i32) -> (
    RemapperView,
    Seq<CommandView>,
) {
    match r.hints {
        Some(s) if !r.awaiting && value != 0 => {
            let t = session_after(s, key);
            match session_action(s, key) {
                HintAction::Updated => (
                    RemapperView { hints: Some(t), ..r },
                    seq![CommandView::ShowElements(shown_hints(t))],
                ),
                HintAction::Activate(e) => (
                    RemapperView { hints: None, ..r },
                    seq![CommandView::CloseElements, CommandView::ActivateElement(e)],
                ),
                HintAction::Dismiss => (
                    RemapperView { hints: None, ..r },
                    seq![CommandView::CloseElements],
                ),
                HintAction::Suppressed => (RemapperView { hints: Some(t), ..r }, Seq::empty()),
            }
        },
        _ => (r, Seq::empty()),
    }
}

/// The tap-hold timer is started while a decision is pending and none runs, and
/// stopped once it is made.
pub open spec fn timer_commands(pending: bool, running: bool) -> Seq<CommandView> {
    if pending && !running {
        seq![CommandView::StartTimer]
    } else if !pending && running {
        seq![CommandView::StopTimer]
    } else {
        Seq::empty()
    }
}

/// A key in the hook that is remapped: its output is sent, the timer is set, and
/// then its effects are carried out.
pub open spec fn hook_remap_turn(
    r: RemapperView,
    key: Key,
    value: i32,
    app: Seq<char>,
    running: bool,
) -> (RemapperView, Seq<CommandView>) {
    let (s, out) = on_event(r.engine.config, r.engine.state, key, value, app);
    (
        with_state(r, StateView { effects: Seq::empty(), ..s }),
        seq![CommandView::Emit(out)] + timer_commands(undecided(s), running) + effect_commands(
            s.effects,
        ),
    )
}

/// One key in the hook: what is left, what to carry out, and whether the key is kept
/// from the OS.
pub open spec fn hook_turn(
    r: RemapperView,
    vk: u16,
    value: i32,
    enabled: bool,
    app: Seq<char>,
    running: bool,
) -> (RemapperView, Seq<CommandView>, bool) {
    if !enabled {
        (r, Seq::empty(), false)
    } else if r.picker is Some {
        let (after, commands) = hook_picker_turn(r, r.picker->0, vk, value);
        (after, commands, true)
    } else {
        match key_at_vk(vk) {
            None => {
                let (after, commands) = unknown_turn(r, vk, value);
                (after, commands, true)
            },
            Some(key) => if passes_through(r.engine.config, "windows"@, app) {
                (r, Seq::empty(), false)
            } else if r.awaiting || r.hints is Some {
                let (after, commands) = hook_element_turn(r, key, value);
                (after, commands, true)
            } else {
                let (after, commands) = hook_remap_turn(r, key, value, app, running);
                (after, commands, true)
            },
        }
    }
}

/// The tap-hold timer fires.
pub open spec fn timer_turn(r: RemapperView, enabled: bool, running: bool) -> (
    RemapperView,
    Seq<CommandView>,
) {
    let stop = timer_commands(false, running);
    if enabled {
        let (s, out) = flushed(r.engine.state);
        (with_state(r, s), seq![CommandView::Emit(out)] + stop)
    } else {
        (r, stop)
    }
}

/// The answer to an enumeration comes to the hook's thread.
pub open spec fn hook_answer_turn(r: RemapperView, elements: Seq<Element>) -> (
    RemapperView,
    Seq<CommandView>,
) {
    if !r.awaiting {
        (r, seq![CommandView::NoElements])
    } else {
        let q = RemapperView { awaiting: false, ..r };
        let s = opened_session(elements);
        if s.hints.len() == 0 {
            (q, seq![CommandView::NoElements])
        } else {
            (
                RemapperView { hints: Some(s), ..q },
                seq![CommandView::OpenElements(session_pairs(s))],
            )
        }
    }
}

// === Command lists ===

fn nothing() -> (r: Vec<Command>)
    ensures
        command_views(r@) == Seq::<CommandView>::empty(),
{
    let r: Vec<Command> = Vec::new();
    assert(command_views(r@) =~= Seq::<CommandView>::empty());
    r
}

fn and(commands: Vec<Command>, next: Command) -> (r: Vec<Command>)
    ensures
        command_views(r@) == command_views(commands@).push(next@),
{
    let ghost before = command_views(commands@);
    let mut r = commands;
    r.push(next);
    assert(command_views(r@) =~= before.push(next@));
    r
}

fn one(a: Command) -> (r: Vec<Command>)
    ensures
        command_views(r@) == seq![a@],
{
    let r = and(nothing(), a);
    assert(command_views(r@) =~= seq![a@]);
    r
}

fn two(a: Command, b: Command) -> (r: Vec<Command>)
    ensures
        command_views(r@) == seq![a@, b@],
{
    let r = and(one(a), b);
    assert(command_views(r@) =~= seq![a@, b@]);
    r
}

fn three(a: Command, b: Command, c: Command) -> (r: Vec<Command>)
    ensures
        command_views(r@) == seq![a@, b@, c@],
{
    let r = and(two(a, b), c);
    assert(command_views(r@) =~= seq![a@, b@, c@]);
    r
}

fn command_for(effect: Effect) -> (r: Command)
    ensures
        r@ == effect_command(effect@),
{
    match effect {
        Effect::Window(WindowAction::FindWindow) => Command::OpenWindows,
        Effect::Window(WindowAction::PickWindow) => Command::OpenWindows,
        Effect::Window(WindowAction::PickElement) => Command::Enumerate,
        other => Command::Perform(other),
    }
}

/// The commands that carry effects out, behind others, and whether an enumeration
/// is among them.
fn and_effects(commands: Vec<Command>, effects: Vec<Effect>) -> (r: (Vec<Command>, bool))
    ensures
        command_views(r.0@) == command_views(commands@) + effect_commands(effect_views(effects@)),
        r.1 == asks_elements(effect_views(effects@)),
{
    let ghost first = command_views(commands@);
    let ghost all = effects@;
    let ghost wanted = effect_views(effects@);
    let mut out = commands;
    let mut asked = false;
    assert(first + effect_commands(wanted.take(0)) =~= first);
    for effect in it: effects
        invariant
            it.seq() == all,
            wanted == effect_views(all),
            command_views(out@) == first + effect_commands(wanted.take(it.index())),
            asked == asks_elements(wanted.take(it.index())),
    {
        proof {
            let i = it.index();
            assert(wanted.take(i + 1) =~= wanted.take(i).push(effect@));
            assert(first + effect_commands(wanted.take(i + 1)) =~= (first + effect_commands(
                wanted.take(i),
            )).push(effect_command(effect@)));
            assert(asks_elements(wanted.take(i + 1)) == (asks_elements(wanted.take(i)) || effect@
                == EffectView::Window(WindowAction::PickElement))) by {
                let a = wanted.take(i);
                let b = wanted.take(i + 1);
                let sought = EffectView::Window(WindowAction::PickElement);
                if a.contains(sought) {
                    let k = choose|k: int| 0 <= k < a.len() && a[k] == sought;
                    assert(b[k] == sought);
                }
                if effect@ == sought {
                    assert(b[i] == sought);
                }
            }
        }
        if let Effect::Window(WindowAction::PickElement) = effect {
            asked = true;
        }
        let command = command_for(effect);
        out = and(out, command);
    }
    assert(wanted.take(all.len() as int) =~= wanted);
    (out, asked)
}

fn shown_flags(session: &HintSession) -> (r: Vec<bool>)
    ensures
        r@ == shown_hints(session@),
{
    let all = session.matched_hints();
    let mut out: Vec<bool> = Vec::new();
    let mut i: usize = 0;
    while i < all.len()
        invariant
            i <= all@.len(),
            all@.len() == session@.hints.len(),
            forall|k: int| 0 <= k < all@.len() ==> (#[trigger] all@[k]).2 == session@.hints[k].matched,
            out@ =~= shown_hints(session@).take(i as int),
        decreases all@.len() - i,
    {
        let shown = all[i].2;
        out.push(shown);
        assert(shown_hints(session@).take(i + 1) =~= shown_hints(session@).take(i as int).push(
            shown,
        ));
        i = i + 1;
    }
    assert(shown_hints(session@).take(all@.len() as int) =~= shown_hints(session@));
    out
}

// === Remapper ===

impl Remapper {
    /// A remapper over an engine, with no overlay up.
    pub fn new(engine: Engine) -> (r: Remapper)
        ensures
            r@ == (RemapperView {
                engine: engine@,
                app: Seq::empty(),
                picker: None,
                hints: None,
                awaiting: false,
                hold_since: None,
            }),
    {
        let app = String::new();
        assert(app@ =~= Seq::empty());
        Remapper { engine, app, picker: None, hints: None, awaiting: false, hold_since: None }
    }

    /// Apply a reloaded configuration. Everything that is down stays down.
    pub fn reload(&mut self, config: Config)
        ensures
            final(self)@ == (RemapperView {
                engine: EngineView { config: config@, ..old(self)@.engine },
                ..old(self)@
            }),
    {
        self.engine.set_config(config);
    }

    /// The window-hint overlay is up, with these hints.
    pub fn open_windows(&mut self, hints: Vec<String>)
        ensures
            final(self)@ == (RemapperView {
                picker: Some(
                    PickerView { hints: crate::text::views(hints@), prefix: Seq::empty() },
                ),
                ..old(self)@
            }),
    {
        self.picker = Some(Picker::new(hints));
    }

    /// An enumeration of elements has begun.
    pub fn await_elements(&mut self)
        ensures
            final(self)@ == (RemapperView { awaiting: true, ..old(self)@ }),
    {
        self.awaiting = true;
    }

    /// Whether an enumeration of elements is in flight.
    pub fn is_awaiting(&self) -> (r: bool)
        ensures
            r == self@.awaiting,
    {
        self.awaiting
    }

    /// Whether the window-hint overlay is up.
    pub fn is_picking(&self) -> (r: bool)
        ensures
            r == self@.picker is Some,
    {
        self.picker.is_some()
    }

    /// Whether the focused application has to be looked up before a key event is
    /// handed in: on presses that are remapped, to keep round-trips off the hot path.
    pub fn wants_focus(&self, value: i32, enabled: bool) -> (r: bool)
        ensures
            r == (enabled && self@.picker is None && value == 1),
    {
        enabled && self.picker.is_none() && value == 1
    }

    fn let_go(&mut self) -> (r: Command)
        ensures
            final(self)@ == relaxed(old(self)@),
            r@ == released(old(self)@),
    {
        Command::Emit(self.engine.clear_modifiers())
    }

    fn press_picker(&mut self, key: Option<Key>) -> (r: PickerStep)
        requires
            old(self)@.picker is Some,
        ensures
            final(self)@ == (RemapperView {
                picker: Some(picker_after(old(self)@.picker->0, key)),
                ..old(self)@
            }),
            r == picker_step(old(self)@.picker->0, key),
    {
        let mut slot: Option<Picker> = None;
        std::mem::swap(&mut slot, &mut self.picker);
        match slot {
            Some(p) => {
                let mut picker = p;
                let step = picker.press(key);
                self.picker = Some(picker);
                step
            },
            None => PickerStep::Ignored,
        }
    }

    fn shown_windows(&self) -> (r: Vec<bool>)
        ensures
            self@.picker matches Some(p) ==> r@ == shown_chips(p),
    {
        match &self.picker {
            Some(p) => p.visible(),
            None => Vec::new(),
        }
    }

    fn press_hints(&mut self, key: Key) -> (r: HintAction)
        requires
            old(self)@.hints is Some,
        ensures
            final(self)@ == (RemapperView {
                hints: Some(session_after(old(self)@.hints->0, key)),
                ..old(self)@
            }),
            r == session_action(old(self)@.hints->0, key),
    {
        let mut slot: Option<HintSession> = None;
        std::mem::swap(&mut slot, &mut self.hints);
        match slot {
            Some(h) => {
                let mut session = h;
                let action = session.process_key(key);
                self.hints = Some(session);
                action
            },
            None => HintAction::Suppressed,
        }
    }

    fn shown_elements(&self) -> (r: Vec<bool>)
        ensures
            self@.hints matches Some(s) ==> r@ == shown_hints(s),
    {
        match &self.hints {
            Some(s) => shown_flags(s),
            None => Vec::new(),
        }
    }

    /// A key event while the window-hint overlay is up.
    fn on_picker_key(&mut self, code: u16, value: i32) -> (r: Vec<Command>)
        requires
            old(self)@.picker is Some,
        ensures
            (final(self)@, command_views(r@)) == picker_turn(
                old(self)@,
                old(self)@.picker->0,
                code,
                value,
            ),
    {
        let key = Key::from_evdev_code(code);
        if value == 2 {
            return nothing();
        }
        if value == 0 {
            return match key {
                Some(k) => one(Command::Emit(self.engine.on_event(k, 0, self.app.as_str()))),
                None => nothing(),
            };
        }
        match self.press_picker(key) {
            PickerStep::Cancelled => {
                self.picker = None;
                let released = self.let_go();
                two(Command::CloseWindows, released)
            },
            PickerStep::Chosen(i) => {
                self.picker = None;
                let released = self.let_go();
                three(Command::CloseWindows, released, Command::ActivateWindow(i))
            },
            _ => one(Command::ShowWindows(self.shown_windows())),
        }
    }

    /// A key event that another client is to see unchanged.
    fn on_raw_key(&mut self, code: u16, value: i32) -> (r: Vec<Command>)
        ensures
            (final(self)@, command_views(r@)) == raw_turn(old(self)@, code, value),
    {
        if let Some(k) = Key::from_evdev_code(code) {
            self.engine.track_passthrough(k, value);
        }
        one(Command::EmitRaw { code, value })
    }

    /// A key event while the elements are picked or awaited.
    fn on_element_key(&mut self, code: u16, value: i32) -> (r: Vec<Command>)
        ensures
            (final(self)@, command_views(r@)) == element_turn(old(self)@, code, value),
    {
        let key = match Key::from_evdev_code(code) {
            Some(k) => k,
            None => return nothing(),
        };
        if value == 0 || self.hints.is_none() {
            return nothing();
        }
        match self.press_hints(key) {
            HintAction::Updated => one(Command::ShowElements(self.shown_elements())),
            HintAction::Activate(e) => {
                self.hints = None;
                let released = self.let_go();
                three(Command::CloseElements, released, Command::ActivateElement(e))
            },
            HintAction::Dismiss => {
                self.hints = None;
                let released = self.let_go();
                two(Command::CloseElements, released)
            },
            HintAction::Suppressed => nothing(),
        }
    }

    /// A key event that is remapped.
    fn on_remapped_key(&mut self, code: u16, value: i32, now: u64) -> (r: Vec<Command>)
        ensures
            (final(self)@, command_views(r@)) == remap_turn(old(self)@, code, value, now),
    {
        let commands = match Key::from_evdev_code(code) {
            Some(k) => {
                let out = self.engine.on_event(k, value, self.app.as_str());
                let effects = self.engine.take_effects();
                let (commands, asked) = and_effects(one(Command::Emit(out)), effects);
                if asked {
                    self.awaiting = true;
                }
                commands
            },
            None => {
                let out = self.engine.sync_modifiers();
                two(Command::Emit(out), Command::EmitRaw { code, value })
            },
        };
        if !self.engine.has_pending_hold() {
            self.hold_since = None;
        } else if self.hold_since.is_none() {
            self.hold_since = Some(now);
        }
        commands
    }

    /// One key event: what to carry out for it.
    pub fn on_key(&mut self, seen: KeySeen) -> (r: Vec<Command>)
        ensures
            (final(self)@, command_views(r@)) == key_turn(old(self)@, seen@),
    {
        let code: u16 = seen.code;
        let value: i32 = seen.value;
        if !seen.enabled {
            return one(Command::EmitRaw { code, value });
        }
        if self.picker.is_some() {
            return self.on_picker_key(code, value);
        }
        if value == 1 {
            if let Some(app) = seen.focus {
                self.app = app;
            }
        }
        if seen.grabbed || self.engine.is_pass_through("linux", self.app.as_str()) {
            return self.on_raw_key(code, value);
        }
        if self.hints.is_some() || self.awaiting {
            return self.on_element_key(code, value);
        }
        self.on_remapped_key(code, value, seen.now)
    }

    /// Commit the tap-hold key once it is due.
    fn on_hold_due(&mut self, now: u64, enabled: bool) -> (r: Vec<Command>)
        ensures
            (final(self)@, command_views(r@)) == hold_turn(old(self)@, now, enabled),
    {
        let due = match self.hold_since {
            Some(t) => now >= t && now - t >= TAP_HOLD_TIMEOUT_MS,
            None => false,
        };
        if !due {
            return nothing();
        }
        self.hold_since = None;
        if enabled {
            one(Command::Emit(self.engine.flush_pending_hold()))
        } else {
            nothing()
        }
    }

    /// Enter a session over these elements where there is something to pick; what
    /// there is to pick.
    fn enter_session(&mut self, elements: Vec<Element>) -> (r: Vec<(Element, String)>)
        ensures
            pair_views(r@) == session_pairs(opened_session(elements@)),
            final(self)@ == if opened_session(elements@).hints.len() == 0 {
                old(self)@
            } else {
                RemapperView { hints: Some(opened_session(elements@)), ..old(self)@ }
            },
    {
        let (session, pairs) = HintSession::new(elements, HINT_CHARS);
        assert(pair_views(pairs@) =~= session_pairs(session@));
        if pairs.len() > 0 {
            self.hints = Some(session);
        }
        pairs
    }

    /// The answer to an enumeration.
    fn on_answer(&mut self, elements: Vec<Element>) -> (r: Vec<Command>)
        ensures
            (final(self)@, command_views(r@)) == answer_turn(old(self)@, elements@),
    {
        if !self.awaiting {
            return nothing();
        }
        self.awaiting = false;
        let pairs = self.enter_session(elements);
        assert(pair_views(pairs@).len() == pairs@.len());
        if pairs.len() == 0 {
            let released = self.let_go();
            two(Command::NoElements, released)
        } else {
            one(Command::OpenElements(pairs))
        }
    }

    /// A timeout: what to carry out for it, with the answer to an enumeration where
    /// one has come.
    pub fn on_timeout(&mut self, now: u64, enabled: bool, answer: Option<Vec<Element>>) -> (r: Vec<
        Command,
    >)
        ensures
            (final(self)@, command_views(r@)) == idle_turn(
                old(self)@,
                now,
                enabled,
                match answer {
                    Some(elements) => Some(elements@),
                    None => None,
                },
            ),
    {
        let first = self.on_hold_due(now, enabled);
        match answer {
            Some(elements) => {
                let ghost before = command_views(first@);
                let mut out = first;
                let mut rest = self.on_answer(elements);
                let ghost after = command_views(rest@);
                out.append(&mut rest);
                assert(command_views(out@) =~= before + after);
                out
            },
            None => first,
        }
    }

    /// How many milliseconds to wait for the next key event.
    pub fn wait_ms(&self, now: u64) -> (r: u64)
        ensures
            r == wait(self@, now),
    {
        let polled: u64 = if self.awaiting {
            ELEMENTS_POLL_MS
        } else {
            RELOAD_POLL_MS
        };
        match self.hold_since {
            Some(t) => {
                let left: u64 = if now >= t {
                    if now - t >= TAP_HOLD_TIMEOUT_MS {
                        0
                    } else {
                        TAP_HOLD_TIMEOUT_MS - (now - t)
                    }
                } else if t - now >= RELOAD_POLL_MS {
                    RELOAD_POLL_MS
                } else {
                    t - now + TAP_HOLD_TIMEOUT_MS
                };
                if left < polled {
                    left
                } else {
                    polled
                }
            },
            None => polled,
        }
    }

    /// Whether a key in the hook needs the foreground application to be looked up
    /// before it is handed in.
    pub fn wants_app(&self, vk: u16, enabled: bool) -> (r: bool)
        ensures
            r == (enabled && self@.picker is None && key_at_vk(vk) is Some),
    {
        enabled && self.picker.is_none() && Key::from_win_vk(vk).is_some()
    }

    /// A key in the hook while the window-hint overlay is up.
    fn on_hook_picker_key(&mut self, vk: u16, value: i32) -> (r: Vec<Command>)
        requires
            old(self)@.picker is Some,
        ensures
            (final(self)@, command_views(r@)) == hook_picker_turn(
                old(self)@,
                old(self)@.picker->0,
                vk,
                value,
            ),
    {
        if value != 1 {
            return nothing();
        }
        match self.press_picker(Key::from_win_vk(vk)) {
            PickerStep::Cancelled => {
                self.picker = None;
                let released = self.let_go();
                two(Command::CloseWindows, released)
            },
            PickerStep::Chosen(i) => {
                self.picker = None;
                let released = self.let_go();
                three(Command::CloseWindows, Command::ActivateWindow(i), released)
            },
            PickerStep::Updated => one(Command::ShowWindows(self.shown_windows())),
            PickerStep::Ignored => nothing(),
        }
    }

    /// A key in the hook while the elements are picked or awaited.
    fn on_hook_element_key(&mut self, key: Key, value: i32) -> (r: Vec<Command>)
        ensures
            (final(self)@, command_views(r@)) == hook_element_turn(old(self)@, key, value),
    {
        if self.awaiting || self.hints.is_none() || value == 0 {
            return nothing();
        }
        match self.press_hints(key) {
            HintAction::Updated => one(Command::ShowElements(self.shown_elements())),
            HintAction::Activate(e) => {
                self.hints = None;
                two(Command::CloseElements, Command::ActivateElement(e))
            },
            HintAction::Dismiss => {
                self.hints = None;
                one(Command::CloseElements)
            },
            HintAction::Suppressed => nothing(),
        }
    }

    /// A key in the hook that is remapped.
    fn on_hook_remapped_key(&mut self, key: Key, value: i32, app: &str, running: bool) -> (r: Vec<
        Command,
    >)
        ensures
            (final(self)@, command_views(r@)) == hook_remap_turn(
                old(self)@,
                key,
                value,
                app@,
                running,
            ),
    {
        let out = self.engine.on_event(key, value, app);
        let pending = self.engine.has_pending_hold();
        let effects = self.engine.take_effects();
        let mut commands = one(Command::Emit(out));
        let ghost first = command_views(commands@);
        if pending && !running {
            commands = and(commands, Command::StartTimer);
        } else if !pending && running {
            commands = and(commands, Command::StopTimer);
        }
        assert(command_views(commands@) =~= first + timer_commands(pending, running));
        let (commands, _asked) = and_effects(commands, effects);
        commands
    }

    /// One key in the hook: whether it is kept from the OS, and what to carry out
    /// for it. `app` is the foreground application, and `running` tells whether the
    /// tap-hold timer runs.
    pub fn on_hook(&mut self, vk: u16, value: i32, enabled: bool, app: &str, running: bool) -> (r:
        HookReply)
        ensures
            (final(self)@, command_views(r.commands@), r.swallow) == hook_turn(
                old(self)@,
                vk,
                value,
                enabled,
                app@,
                running,
            ),
    {
        if !enabled {
            return HookReply { swallow: false, commands: nothing() };
        }
        if self.picker.is_some() {
            return HookReply { swallow: true, commands: self.on_hook_picker_key(vk, value) };
        }
        let key = match Key::from_win_vk(vk) {
            Some(k) => k,
            None => {
                let out = self.engine.sync_modifiers();
                let commands = two(Command::Emit(out), Command::EmitRaw { code: vk, value });
                return HookReply { swallow: true, commands };
            },
        };
        if self.engine.is_pass_through("windows", app) {
            return HookReply { swallow: false, commands: nothing() };
        }
        let commands = if self.awaiting || self.hints.is_some() {
            self.on_hook_element_key(key, value)
        } else {
            self.on_hook_remapped_key(key, value, app, running)
        };
        HookReply { swallow: true, commands }
    }

    /// The tap-hold timer fires.
    pub fn on_timer(&mut self, enabled: bool, running: bool) -> (r: Vec<Command>)
        ensures
            (final(self)@, command_views(r@)) == timer_turn(old(self)@, enabled, running),
    {
        let mut commands = nothing();
        if enabled {
            commands = one(Command::Emit(self.engine.flush_pending_hold()));
        }
        let ghost first = command_views(commands@);
        if running {
            commands = and(commands, Command::StopTimer);
        }
        assert(command_views(commands@) =~= first + timer_commands(false, running));
        assert(Seq::<CommandView>::empty() + timer_commands(false, running) =~= timer_commands(
            false,
            running,
        ));
        commands
    }

    /// The answer to an enumeration comes to the hook's thread.
    pub fn on_hook_answer(&mut self, elements: Vec<Element>) -> (r: Vec<Command>)
        ensures
            (final(self)@, command_views(r@)) == hook_answer_turn(old(self)@, elements@),
    {
        if !self.awaiting {
            return one(Command::NoElements);
        }
        self.awaiting = false;
        let pairs = self.enter_session(elements);
        assert(pair_views(pairs@).len() == pairs@.len());
        if pairs.len() == 0 {
            one(Command::NoElements)
        } else {
            one(Command::OpenElements(pairs))
        }
    }
}

/// What a hook message means for a key: `1` down, `0` up, nothing for messages that
/// are not to be acted on and for events that were injected.
pub fn hook_value(code: i32, message: u32, extra: usize) -> (r: Option<i32>)
    ensures
        r == hook_meaning(code, message, extra),
{
    if code != 0 || extra == INJECT_MARKER {
        return None;
    }
    match message {
        0x100 | 0x104 => Some(1),
        0x101 | 0x105 => Some(0),
        _ => None,
    }
}

// === Laws ===

/// While remapping is off every key is forwarded as it came, and nothing changes.
pub proof fn pausing_forwards_keys(r: RemapperView, seen: KeySeenView)
    requires
        !seen.enabled,
    ensures
        key_turn(r, seen) == (
            r,
            seq![CommandView::EmitRaw { code: seen.code, value: seen.value }],
        ),
{
}

/// The events let modifier keys go and do nothing else.
pub open spec fn only_releases(out: Seq<OutEvent>) -> bool {
    forall|i: int|
        0 <= i < out.len() ==> (#[trigger] out[i]).value == 0 && out[i].key.spec_modifier() is Some
}

proof fn lemma_modifier_releases(mods: Seq<crate::combo::Modifier>)
    ensures
        only_releases(crate::model::modifier_events(mods, 0)),
    decreases mods.len(),
{
    if mods.len() > 0 {
        lemma_modifier_releases(mods.drop_last());
    }
}

proof fn lemma_clearing_only_releases(s: StateView)
    ensures
        only_releases(cleared(s).1),
{
    let none = Set::<crate::combo::Modifier>::empty();
    assert(none.difference(s.output) =~= none);
    lemma_modifier_releases(crate::combo::in_order(s.output.difference(none)));
    lemma_modifier_releases(crate::combo::in_order(none));
}

/// A command that lets nothing through to the applications but releases of
/// modifiers.
pub open spec fn lets_nothing_through(c: CommandView) -> bool {
    match c {
        CommandView::Emit(out) => only_releases(out),
        CommandView::EmitRaw { .. } => false,
        _ => true,
    }
}

/// While elements are picked or awaited no key slips through to the application,
/// unless another client owns the keyboard; and while the window-hint overlay is up
/// no press does.
pub proof fn overlays_swallow_keys(r: RemapperView, seen: KeySeenView)
    requires
        seen.enabled,
        r.picker is Some ==> seen.value != 0,
        r.picker is None ==> (r.hints is Some || r.awaiting),
        r.picker is None ==> !seen.grabbed && !passes_through(
            r.engine.config,
            "linux"@,
            focused(r, seen).app,
        ),
    ensures
        forall|i: int|
            0 <= i < key_turn(r, seen).1.len() ==> lets_nothing_through(
                #[trigger] key_turn(r, seen).1[i],
            ),
{
    lemma_clearing_only_releases(r.engine.state);
}

/// Neither does one in a hook.
pub proof fn hook_overlays_swallow_keys(
    r: RemapperView,
    vk: u16,
    value: i32,
    app: Seq<char>,
    running: bool,
)
    requires
        r.picker is Some || ((r.hints is Some || r.awaiting) && key_at_vk(vk) is Some
            && !passes_through(r.engine.config, "windows"@, app)),
    ensures
        hook_turn(r, vk, value, true, app, running).2,
        forall|i: int|
            0 <= i < hook_turn(r, vk, value, true, app, running).1.len() ==> lets_nothing_through(
                #[trigger] hook_turn(r, vk, value, true, app, running).1[i],
            ),
{
    lemma_clearing_only_releases(r.engine.state);
}

/// Wherever a turn takes an overlay down, no modifier is left held: neither at the
/// OS nor in the engine.
pub proof fn closing_overlays_lets_modifiers_go(r: RemapperView, seen: KeySeenView)
    ensures
        ({
            let after = key_turn(r, seen).0;
            let closed = (r.picker is Some && after.picker is None) || (r.hints is Some
                && after.hints is None);
            closed ==> after.engine.state.pressed == Set::<crate::combo::Modifier>::empty()
                && after.engine.state.output == Set::<crate::combo::Modifier>::empty()
        }),
{
}

/// Elements are never picked and awaited at once, whatever happens.
pub proof fn picking_and_awaiting_exclude_each_other(
    r: RemapperView,
    seen: KeySeenView,
    now: u64,
    enabled: bool,
    answer: Option<Seq<Element>>,
)
    requires
        !(r.awaiting && r.hints is Some),
    ensures
        ({
            let after = key_turn(r, seen).0;
            !(after.awaiting && after.hints is Some)
        }),
        ({
            let after = idle_turn(r, now, enabled, answer).0;
            !(after.awaiting && after.hints is Some)
        }),
{
}

/// An enumeration that finds nothing does not trap input.
pub proof fn empty_answers_free_the_keyboard(r: RemapperView)
    requires
        r.awaiting,
        r.hints is None,
    ensures
        ({
            let (after, commands) = answer_turn(r, Seq::empty());
            after.hints is None && !after.awaiting && commands.len() == 2 && commands[0]
                == CommandView::NoElements
        }),
        hook_answer_turn(r, Seq::empty()) == (
            RemapperView { awaiting: false, ..r },
            seq![CommandView::NoElements],
        ),
{
    assert(opened_session(Seq::empty()).hints.len() == 0);
}

/// The tap-hold clock runs after a remapped key exactly while the decision is
/// pending, and a repeated look does not restart it.
pub proof fn the_clock_follows_the_decision(r: RemapperView, code: u16, value: i32, now: u64)
    ensures
        ({
            let after = remap_turn(r, code, value, now).0;
            &&& after.hold_since is Some == undecided(after.engine.state)
            &&& (r.hold_since is Some && after.hold_since is Some) ==> after.hold_since
                == r.hold_since
        }),
{
}

/// The wait never goes past the moment a tap-hold key is due, and then the key is
/// committed: no decision is left open, and the OS sees what is held.
pub proof fn holds_are_committed_when_due(r: RemapperView, now: u64)
    requires
        r.hold_since is Some,
        now <= u64::MAX - RELOAD_POLL_MS,
    ensures
        hold_is_due(r, now) || now + wait(r, now) <= r.hold_since->0 + TAP_HOLD_TIMEOUT_MS,
        hold_is_due(r, now) ==> wait(r, now) == 0,
        ({
            let after = hold_turn(r, now, true).0;
            hold_is_due(r, now) ==> !undecided(after.engine.state) && after.hold_since is None && (
            undecided(r.engine.state) ==> after.engine.state.output == crate::model::real_only(
                after.engine.state.pressed,
            ))
        }),
{
}

/// A hook keeps every key from the OS while remapping is on, but those of an
/// application that receives its keys raw.
pub proof fn hooks_swallow_what_is_remapped(
    r: RemapperView,
    vk: u16,
    value: i32,
    enabled: bool,
    app: Seq<char>,
    running: bool,
)
    ensures
        hook_turn(r, vk, value, enabled, app, running).2 == (enabled && (r.picker is Some
            || key_at_vk(vk) is None || !passes_through(r.engine.config, "windows"@, app))),
        !hook_turn(r, vk, value, enabled, app, running).2 ==> hook_turn(
            r,
            vk,
            value,
            enabled,
            app,
            running,
        ).0 == r,
{
}

} // verus!
