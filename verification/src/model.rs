//! The mathematical model of the engine: what its state is, and what each input
//! makes of it.
//!
//! # Output model
//!
//! The backend grabs the keyboard and emits *only* what the engine returns, so
//! the engine owns all output. Real modifiers are forwarded as they are pressed,
//! so other devices see them (this is what makes `Shift`/`Ctrl` + mouse-click
//! selection work). When a remapped key fires, the engine briefly syncs the OS
//! modifiers to exactly what the target needs, then restores the held set: that
//! is what lets `C-a -> home` emit a bare `Home` while `Ctrl` is held, and lets
//! unbound `Shift-a` still type `A`. The synthetic `Hyper` modifier has no OS
//! key and is never forwarded.

use crate::actions::{EffectView, OutEvent, Side, StepView, TileFraction, WindowAction};
use crate::combo::{in_order, ComboView, Modifier};
use crate::key::Key;
use crate::rules::{binding_of, mapped, tap_hold_of, ConfigView};
use vstd::prelude::*;

verus! {

// === State ===

/// A multipurpose key awaiting its tap-vs-hold decision.
#[derive(Clone, Copy, Debug)]
pub struct Pending {
    pub src: Key,
    pub tap: Key,
    pub hold: Modifier,
    pub resolved_hold: bool,
}

/// A single-combo binding that is held down: the key it drives, and the modifier
/// state to restore when the key lifts.
pub struct ChordView {
    pub target: Key,
    pub resting: Set<Modifier>,
}

/// The transient state of the engine.
pub struct StateView {
    /// Physical keys that are down, and the key each was mapped to when it went down.
    pub routes: Map<Key, Key>,
    /// Modifiers physically held.
    pub pressed: Set<Modifier>,
    /// Modifiers the OS sees as held.
    pub output: Set<Modifier>,
    /// Keys forwarded as themselves and still down.
    pub passthrough: Set<Key>,
    /// Bound keys that are down, and what each drives.
    pub held: Map<Key, ChordView>,
    /// Keys that are down and repeat a window move.
    pub held_window: Map<Key, WindowAction>,
    /// The tap-hold key that is down.
    pub pending: Option<Pending>,
    /// Whether the selection mark is set.
    pub mark: bool,
    /// The edge and size of the last smart tile, while nothing has come between.
    pub tile: Option<(Side, TileFraction)>,
    /// Side effects that have not been drained.
    pub effects: Seq<EffectView>,
}

/// The engine: its configuration and its transient state.
pub struct EngineView {
    pub config: ConfigView,
    pub state: StateView,
}

/// The state nothing has happened to.
pub open spec fn initial_state() -> StateView {
    StateView {
        routes: Map::empty(),
        pressed: Set::empty(),
        output: Set::empty(),
        passthrough: Set::empty(),
        held: Map::empty(),
        held_window: Map::empty(),
        pending: None,
        mark: false,
        tile: None,
        effects: Seq::empty(),
    }
}

// === Events ===

pub open spec fn press(key: Key) -> OutEvent {
    OutEvent { key, value: 1 }
}

pub open spec fn release(key: Key) -> OutEvent {
    OutEvent { key, value: 0 }
}

pub open spec fn repeat(key: Key) -> OutEvent {
    OutEvent { key, value: 2 }
}

/// The event that moves one modifier; none for a modifier without an OS key.
pub open spec fn modifier_event(m: Modifier, value: i32) -> Seq<OutEvent> {
    match m.spec_emit_key() {
        Some(key) => seq![OutEvent { key, value }],
        None => Seq::empty(),
    }
}

/// The events that move each of a list of modifiers, in its order.
pub open spec fn modifier_events(mods: Seq<Modifier>, value: i32) -> Seq<OutEvent>
    decreases mods.len(),
{
    if mods.len() == 0 {
        Seq::empty()
    } else {
        modifier_events(mods.drop_last(), value) + modifier_event(mods.last(), value)
    }
}

/// The events that take the OS modifiers from one set to another: releases of
/// what is no longer wanted, then presses of what is new.
pub open spec fn switch_events(from: Set<Modifier>, to: Set<Modifier>) -> Seq<OutEvent> {
    modifier_events(in_order(from.difference(to)), 0) + modifier_events(
        in_order(to.difference(from)),
        1,
    )
}

/// The modifiers that the OS can be sent: all but `Hyper`.
pub open spec fn real_only(mods: Set<Modifier>) -> Set<Modifier> {
    mods.remove(Modifier::Hyper)
}

/// The modifiers the OS has to see for a combo.
pub open spec fn wanted(combo: ComboView, add_shift: bool) -> Set<Modifier> {
    if add_shift {
        real_only(combo.modifiers).insert(Modifier::Shift)
    } else {
        real_only(combo.modifiers)
    }
}

/// A self-contained chord: exactly the modifiers the combo needs, a tap of its
/// key, and the modifiers as they were.
pub open spec fn chord_events(
    output: Set<Modifier>,
    combo: ComboView,
    add_shift: bool,
) -> Seq<OutEvent> {
    switch_events(output, wanted(combo, add_shift)) + seq![press(combo.key), release(combo.key)]
        + switch_events(wanted(combo, add_shift), output)
}

// === Transitions ===

/// The OS modifiers become `desired`.
pub open spec fn synced(s: StateView, desired: Set<Modifier>) -> (StateView, Seq<OutEvent>) {
    ((StateView { output: desired, ..s }), switch_events(s.output, desired))
}

/// The OS modifiers become those that are physically held.
pub open spec fn synced_to_held(s: StateView) -> (StateView, Seq<OutEvent>) {
    synced(s, real_only(s.pressed))
}

/// A still-undecided tap-hold key takes its hold meaning.
pub open spec fn hold_resolved(s: StateView) -> StateView {
    match s.pending {
        Some(p) if !p.resolved_hold => StateView {
            pending: Some(Pending { resolved_hold: true, ..p }),
            pressed: s.pressed.insert(p.hold),
            ..s
        },
        _ => s,
    }
}

/// A tap-hold key is down and undecided.
pub open spec fn undecided(s: StateView) -> bool {
    s.pending matches Some(p) && !p.resolved_hold
}

/// The size of the next tile at an edge: the one that follows if the last tile
/// was at the same edge, else a half.
pub open spec fn tile_size(prev: Option<(Side, TileFraction)>, side: Side) -> TileFraction {
    match prev {
        Some((edge, size)) if edge == side => size.spec_next(),
        _ => TileFraction::Half,
    }
}

/// One step of a sequence. `prev` is the smart-tile chain as it was before the
/// sequence, and `trigger` the key that set it off.
pub open spec fn step_run(
    s: StateView,
    step: StepView,
    prev: Option<(Side, TileFraction)>,
    trigger: Key,
) -> (StateView, Seq<OutEvent>) {
    match step {
        StepView::Keys(combo) => (s, chord_events(s.output, combo, false)),
        StepView::WithMark(combo) => (s, chord_events(s.output, combo, s.mark)),
        StepView::SetMark(value) => ((StateView { mark: value, ..s }), Seq::empty()),
        StepView::PassThrough => (
            s,
            chord_events(s.output, ComboView { modifiers: s.pressed, key: trigger }, false),
        ),
        StepView::Exec(program) => (
            (StateView { effects: s.effects.push(EffectView::Launch(program)), ..s }),
            Seq::empty(),
        ),
        StepView::Window(WindowAction::SmartTile { side, fraction: _ }) => {
            let fraction = tile_size(prev, side);
            (
                (StateView {
                    tile: Some((side, fraction)),
                    effects: s.effects.push(
                        EffectView::Window(WindowAction::SmartTile { side, fraction }),
                    ),
                    ..s
                }),
                Seq::empty(),
            )
        },
        StepView::Window(action) => (
            (StateView { effects: s.effects.push(EffectView::Window(action)), ..s }),
            Seq::empty(),
        ),
    }
}

/// The steps of a sequence, one after the other.
pub open spec fn steps_run(
    s: StateView,
    steps: Seq<StepView>,
    prev: Option<(Side, TileFraction)>,
    trigger: Key,
) -> (StateView, Seq<OutEvent>)
    decreases steps.len(),
{
    if steps.len() == 0 {
        (s, Seq::empty())
    } else {
        let (mid, before) = steps_run(s, steps.drop_last(), prev, trigger);
        let (end, events) = step_run(mid, steps.last(), prev, trigger);
        (end, before + events)
    }
}

/// A target that is pressed and released at once instead of held for auto-repeat:
/// any chord with `Super`, and any chord of a real modifier and a function key
/// (e.g. `M+f4` to close a window). Holding one of these would leave its modifier
/// down while the shortcut runs.
pub open spec fn one_shot(target: ComboView) -> bool {
    ||| target.modifiers.contains(Modifier::Super)
    ||| real_only(target.modifiers) != Set::<Modifier>::empty() && target.key.spec_function_key()
}

/// A single combo bound to a key that has just been pressed: held down so that it
/// repeats, unless it is a one-shot.
pub open spec fn single_pressed(s: StateView, phys: Key, target: ComboView, add_shift: bool) -> (
    StateView,
    Seq<OutEvent>,
) {
    let s = StateView { tile: None, ..s };
    if one_shot(target) {
        (s, chord_events(s.output, target, add_shift))
    } else {
        let (s2, events) = synced(s, wanted(target, add_shift));
        (
            (StateView {
                held: s2.held.insert(
                    phys,
                    ChordView { target: target.key, resting: real_only(s.pressed) },
                ),
                ..s2
            }),
            events.push(press(target.key)),
        )
    }
}

/// The initial press of a bound key. A lone window move repeats while the key is
/// held, and so does a single combo; everything else is a sequence run once.
pub open spec fn binding_pressed(s: StateView, phys: Key, steps: Seq<StepView>, trigger: Key) -> (
    StateView,
    Seq<OutEvent>,
) {
    if steps.len() == 1 && steps[0] is Window && steps[0]->Window_0 is Adjust {
        let action = steps[0]->Window_0;
        (
            (StateView {
                tile: None,
                effects: s.effects.push(EffectView::Window(action)),
                held_window: s.held_window.insert(phys, action),
                ..s
            }),
            Seq::empty(),
        )
    } else if steps.len() == 1 && steps[0] is Keys {
        single_pressed(s, phys, steps[0]->Keys_0, false)
    } else if steps.len() == 1 && steps[0] is WithMark {
        single_pressed(s, phys, steps[0]->WithMark_0, s.mark)
    } else {
        steps_run(StateView { tile: None, ..s }, steps, s.tile, trigger)
    }
}

/// The tap-hold key that was pending is released: the hold ends, or the tap is
/// emitted with the modifiers that are held.
pub open spec fn pending_released(s: StateView, p: Pending) -> (StateView, Seq<OutEvent>) {
    let s = StateView { pending: None, ..s };
    if p.resolved_hold {
        synced_to_held(StateView { pressed: s.pressed.remove(p.hold), ..s })
    } else {
        (s, chord_events(s.output, ComboView { modifiers: s.pressed, key: p.tap }, false))
    }
}

/// A modifier key moves: it is tracked, and the OS modifiers follow.
pub open spec fn modifier_moved(s: StateView, m: Modifier, value: i32) -> (
    StateView,
    Seq<OutEvent>,
) {
    if value == 0 {
        synced_to_held(StateView { pressed: s.pressed.remove(m), ..s })
    } else {
        let s = hold_resolved(s);
        synced_to_held(StateView { pressed: s.pressed.insert(m), ..s })
    }
}

/// An ordinary key is released: whatever it drove ends.
pub open spec fn key_released(s: StateView, key: Key) -> (StateView, Seq<OutEvent>) {
    if s.held.contains_key(key) {
        let chord = s.held[key];
        let (s2, events) = synced(StateView { held: s.held.remove(key), ..s }, chord.resting);
        (s2, seq![release(chord.target)] + events)
    } else if s.passthrough.contains(key) {
        ((StateView { passthrough: s.passthrough.remove(key), ..s }), seq![release(key)])
    } else {
        ((StateView { held_window: s.held_window.remove(key), ..s }), Seq::empty())
    }
}

/// An ordinary key auto-repeats: whatever it drives repeats.
pub open spec fn key_repeated(s: StateView, key: Key) -> (StateView, Seq<OutEvent>) {
    if s.held.contains_key(key) {
        (s, seq![repeat(s.held[key].target)])
    } else if s.held_window.contains_key(key) {
        (
            (StateView {
                effects: s.effects.push(EffectView::Window(s.held_window[key])),
                ..s
            }),
            Seq::empty(),
        )
    } else if s.passthrough.contains(key) {
        (s, seq![repeat(key)])
    } else {
        (s, Seq::empty())
    }
}

/// A key that nothing is bound to is pressed: it goes through as itself, under
/// the modifiers that are held.
pub open spec fn unbound_pressed(s: StateView, key: Key) -> (StateView, Seq<OutEvent>) {
    let (s2, events) = synced_to_held(StateView { tile: None, ..s });
    ((StateView { passthrough: s2.passthrough.insert(key), ..s2 }), events.push(press(key)))
}

/// What a physical key stands for: what the configuration maps it to when it goes
/// down, and the same until it is up again, whatever the configuration becomes.
pub open spec fn route(config: ConfigView, s: StateView, raw: Key, value: i32) -> Key {
    if (value == 0 || value == 2) && s.routes.contains_key(raw) {
        s.routes[raw]
    } else {
        mapped(config.modmap, raw)
    }
}

/// A physical key moves: what it stands for is kept while it is down.
pub open spec fn routed(s: StateView, raw: Key, key: Key, value: i32) -> StateView {
    StateView {
        routes: if value == 0 {
            s.routes.remove(raw)
        } else {
            s.routes.insert(raw, key)
        },
        ..s
    }
}

/// One key event of the physical key `raw`, which stands for `key`.
pub open spec fn key_moved(
    config: ConfigView,
    s: StateView,
    raw: Key,
    key: Key,
    value: i32,
    app: Seq<char>,
) -> (StateView, Seq<OutEvent>) {
    if value == 0 && s.pending is Some && s.pending->0.src == raw {
        pending_released(s, s.pending->0)
    } else if value == 1 && tap_hold_of(config.multipurpose, app, raw) is Some {
        let (tap, hold) = tap_hold_of(config.multipurpose, app, raw)->0;
        (
            (StateView {
                pending: Some(Pending { src: raw, tap, hold, resolved_hold: false }),
                ..s
            }),
            Seq::empty(),
        )
    } else if key.spec_modifier() is Some {
        modifier_moved(s, key.spec_modifier()->0, value)
    } else if value == 0 {
        key_released(s, key)
    } else {
        let s = hold_resolved(s);
        if value == 2 {
            key_repeated(s, key)
        } else {
            let combo = ComboView { modifiers: s.pressed, key };
            match binding_of(config.keymaps, app, combo) {
                Some(steps) => binding_pressed(s, key, steps, key),
                None => unbound_pressed(s, key),
            }
        }
    }
}

/// One incoming key event. `value` is `1` press, `0` release, `2` repeat.
pub open spec fn on_event(
    config: ConfigView,
    s: StateView,
    raw: Key,
    value: i32,
    app: Seq<char>,
) -> (StateView, Seq<OutEvent>) {
    let key = route(config, s, raw, value);
    key_moved(config, routed(s, raw, key, value), raw, key, value, app)
}

/// A key the backend forwarded raw: only the modifier bookkeeping follows it, and
/// the OS modifiers are taken to be what is physically held.
pub open spec fn tracked_raw(config: ConfigView, s: StateView, raw: Key, value: i32) -> StateView {
    if value == 2 {
        s
    } else {
        let key = route(config, s, raw, value);
        let s = routed(s, raw, key, value);
        match key.spec_modifier() {
            Some(m) => {
                let pressed = if value == 0 {
                    s.pressed.remove(m)
                } else {
                    s.pressed.insert(m)
                };
                StateView { pressed, output: real_only(pressed), ..s }
            },
            None => s,
        }
    }
}

/// Every modifier is released and forgotten.
pub open spec fn cleared(s: StateView) -> (StateView, Seq<OutEvent>) {
    (
        (StateView { pressed: Set::empty(), output: Set::empty(), ..s }),
        switch_events(s.output, Set::empty()),
    )
}

/// A still-undecided tap-hold key is committed to its hold meaning.
pub open spec fn flushed(s: StateView) -> (StateView, Seq<OutEvent>) {
    if undecided(s) {
        synced_to_held(hold_resolved(s))
    } else {
        (s, Seq::empty())
    }
}

} // verus!
