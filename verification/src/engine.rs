//! The transform engine: the portable, OS-agnostic core that turns an incoming
//! key event (plus the active application name) into a list of [`OutEvent`]s to
//! emit. What each call does is stated over the model in [`crate::model`].

use crate::actions::{
    effect_views, step_views, Effect, OutEvent, Side, Step, TileFraction, WindowAction,
};
use crate::assoc::AssocMap;
use crate::combo::{Combo, Modifier, ModifierSet};
use crate::key::Key;
use crate::model::{
    binding_pressed, chord_events, cleared, flushed, hold_resolved, initial_state, modifier_event,
    modifier_events, on_event, one_shot, real_only, route, routed, single_pressed, step_run, steps_run,
    switch_events, synced, synced_to_held, tracked_raw, undecided, wanted, ChordView, EngineView,
    Pending, StateView,
};
use crate::rules::{passes_through, Config};
use crate::text::owned;
use vstd::prelude::*;

verus! {

// === Data structures ===

/// A single-combo binding currently held down, so it repeats naturally.
#[derive(Debug)]
struct HeldChord {
    target: Key,
    /// Modifier state to restore when the key lifts: the physically-held real
    /// modifiers at press time, *not* a snapshot of the emitted output (which
    /// can carry another overlapping chord's modifiers).
    resting: ModifierSet,
}

/// The transient state of the engine.
#[derive(Debug)]
struct State {
    /// What each physical key that is down was mapped to when it went down, so its
    /// release ends what its press began even where a reload maps it elsewhere.
    routes: AssocMap<Key, Key>,
    pressed_mods: ModifierSet,
    output_mods: ModifierSet,
    passthrough_down: AssocMap<Key, ()>,
    held: AssocMap<Key, HeldChord>,
    /// Window-move bindings held down, re-fired on each auto-repeat so holding a
    /// move key glides the window instead of nudging it once per physical tap.
    held_window: AssocMap<Key, WindowAction>,
    pending: Option<Pending>,
    mark_set: bool,
    /// The active smart-tile chain. Set while consecutive tiles target the same
    /// edge; cleared when any other action breaks the chain.
    tile_chain: Option<(Side, TileFraction)>,
    /// Side effects produced since they were last drained.
    effects: Vec<Effect>,
}

/// The stateful remapping engine.
#[derive(Debug)]
pub struct Engine {
    config: Config,
    state: State,
}

// === Models ===

impl View for HeldChord {
    type V = ChordView;

    closed spec fn view(&self) -> ChordView {
        ChordView { target: self.target, resting: self.resting@ }
    }
}

spec fn chord_views(m: Map<Key, HeldChord>) -> Map<Key, ChordView> {
    m.map_values(|c: HeldChord| c@)
}

impl View for State {
    type V = StateView;

    closed spec fn view(&self) -> StateView {
        StateView {
            routes: self.routes@,
            pressed: self.pressed_mods@,
            output: self.output_mods@,
            passthrough: self.passthrough_down@.dom(),
            held: chord_views(self.held@),
            held_window: self.held_window@,
            pending: self.pending,
            mark: self.mark_set,
            tile: self.tile_chain,
            effects: effect_views(self.effects@),
        }
    }
}

impl View for Engine {
    type V = EngineView;

    closed spec fn view(&self) -> EngineView {
        EngineView { config: self.config@, state: self.state@ }
    }
}

// === Free functions ===

/// Keep only modifiers that the OS can actually be sent (drops synthetic
/// `Hyper`).
fn keep_real(mods: &ModifierSet) -> (r: ModifierSet)
    ensures
        r@ == real_only(mods@),
{
    let mut r = *mods;
    r.remove(Modifier::Hyper);
    r
}

/// The modifiers the OS has to see for a combo.
fn wanted_for(combo: &Combo, add_shift: bool) -> (r: ModifierSet)
    ensures
        r@ == wanted(combo@, add_shift),
{
    let mut desired = keep_real(&combo.modifiers);
    if add_shift {
        desired.insert(Modifier::Shift);
    }
    desired
}

/// Whether a single-combo binding's target should be emitted one-shot (pressed
/// and released immediately) instead of held down for auto-repeat. True for
/// window-manager shortcut chords: any chord carrying `Super`, and any chord
/// pairing a real modifier with a function key (e.g. `M+f4` to close a window).
pub fn is_one_shot_chord(target: &Combo) -> (r: bool)
    ensures
        r == one_shot(target@),
{
    target.modifiers.contains(&Modifier::Super) || (!keep_real(&target.modifiers).is_empty()
        && target.key.is_function_key())
}

/// Appends the events that move each of a list of modifiers.
fn push_modifier_events(mods: &Vec<Modifier>, value: i32, out: &mut Vec<OutEvent>)
    ensures
        final(out)@ == old(out)@ + modifier_events(mods@, value),
{
    let mut i: usize = 0;
    assert(out@ =~= old(out)@ + modifier_events(mods@.take(0), value));
    while i < mods.len()
        invariant
            i <= mods@.len(),
            out@ == old(out)@ + modifier_events(mods@.take(i as int), value),
        decreases mods@.len() - i,
    {
        let m = mods[i];
        let ghost before = out@;
        proof {
            assert(mods@.take(i + 1).drop_last() =~= mods@.take(i as int));
            assert(mods@.take(i + 1).last() == m);
        }
        if let Some(key) = m.emit_key() {
            out.push(OutEvent { key, value });
        }
        assert(out@ =~= before + modifier_event(m, value));
        assert(out@ =~= old(out)@ + modifier_events(mods@.take(i + 1), value));
        i = i + 1;
    }
    assert(mods@.take(mods@.len() as int) =~= mods@);
}

// === State ===

impl State {
    fn new() -> (r: State)
        ensures
            r@ == initial_state(),
    {
        let r = State {
            routes: AssocMap::new(),
            pressed_mods: ModifierSet::new(),
            output_mods: ModifierSet::new(),
            passthrough_down: AssocMap::new(),
            held: AssocMap::new(),
            held_window: AssocMap::new(),
            pending: None,
            mark_set: false,
            tile_chain: None,
            effects: Vec::new(),
        };
        assert(r@.passthrough =~= Set::empty());
        assert(r@.held =~= Map::empty());
        assert(r@.effects =~= Seq::empty());
        r
    }

    /// What a physical key that moves stands for; kept while the key is down.
    fn route_key(&mut self, config: &Config, raw: Key, value: i32) -> (r: Key)
        ensures
            r == route(config@, old(self)@, raw, value),
            final(self)@ == routed(old(self)@, raw, r, value),
    {
        let mut key = config.map_key(raw);
        if value == 0 || value == 2 {
            if let Some(before) = self.routes.get(&raw) {
                key = *before;
            }
        }
        if value == 0 {
            let _gone = self.routes.remove(&raw);
        } else {
            self.routes.insert(raw, key);
        }
        key
    }

    fn push_effect(&mut self, effect: Effect)
        ensures
            final(self)@ == (StateView { effects: old(self)@.effects.push(effect@), ..old(self)@ }),
    {
        self.effects.push(effect);
        assert(effect_views(self.effects@) =~= effect_views(old(self).effects@).push(effect@));
    }

    /// Emit the press/release events that move the OS modifier state from its
    /// current value to `desired`.
    fn sync_mods(&mut self, desired: &ModifierSet, out: &mut Vec<OutEvent>)
        ensures
            final(self)@ == synced(old(self)@, desired@).0,
            final(out)@ == old(out)@ + synced(old(self)@, desired@).1,
    {
        let to_release = self.output_mods.difference(desired).to_vec();
        push_modifier_events(&to_release, 0, out);
        let to_press = desired.difference(&self.output_mods).to_vec();
        push_modifier_events(&to_press, 1, out);
        assert(out@ =~= old(out)@ + switch_events(self.output_mods@, desired@));
        self.output_mods = *desired;
    }

    fn sync_to_held(&mut self, out: &mut Vec<OutEvent>)
        ensures
            final(self)@ == synced_to_held(old(self)@).0,
            final(out)@ == old(out)@ + synced_to_held(old(self)@).1,
    {
        let desired = keep_real(&self.pressed_mods);
        self.sync_mods(&desired, out);
    }

    /// Emit a self-contained chord: set exactly the modifiers this combo needs,
    /// tap the key, then restore the prior modifier state. Keeping the whole
    /// sequence tight is what lets window-manager global-shortcut grabs
    /// recognise the chord.
    fn emit_combo(&mut self, combo: &Combo, add_shift: bool, out: &mut Vec<OutEvent>)
        ensures
            final(self)@ == old(self)@,
            final(out)@ == old(out)@ + chord_events(old(self)@.output, combo@, add_shift),
    {
        let saved = self.output_mods;
        let desired = wanted_for(combo, add_shift);
        self.sync_mods(&desired, out);
        out.push(OutEvent { key: combo.key, value: 1 });
        out.push(OutEvent { key: combo.key, value: 0 });
        self.sync_mods(&saved, out);
        assert(out@ =~= old(out)@ + chord_events(old(self)@.output, combo@, add_shift));
    }

    /// Promote a still-undecided pending multipurpose key to its hold meaning,
    /// because another key arrived while it was held.
    fn resolve_pending_hold(&mut self)
        ensures
            final(self)@ == hold_resolved(old(self)@),
    {
        if let Some(p) = self.pending {
            if !p.resolved_hold {
                self.pending =
                Some(Pending { src: p.src, tap: p.tap, hold: p.hold, resolved_hold: true });
                self.pressed_mods.insert(p.hold);
            }
        }
    }

    fn run_step(
        &mut self,
        step: &Step,
        prev_tile: Option<(Side, TileFraction)>,
        trigger: Key,
        out: &mut Vec<OutEvent>,
    )
        ensures
            final(self)@ == step_run(old(self)@, step@, prev_tile, trigger).0,
            final(out)@ == old(out)@ + step_run(old(self)@, step@, prev_tile, trigger).1,
    {
        match step {
            Step::Keys(combo) => self.emit_combo(combo, false, out),
            Step::WithMark(combo) => {
                let mark = self.mark_set;
                self.emit_combo(combo, mark, out);
            },
            Step::SetMark(value) => {
                self.mark_set = *value;
                assert(out@ =~= old(out)@ + Seq::<OutEvent>::empty());
            },
            Step::PassThrough => {
                let combo = Combo { modifiers: self.pressed_mods, key: trigger };
                self.emit_combo(&combo, false, out);
            },
            // Side effects emit no key events; the backend performs them after
            // draining the effects. Held modifiers are left intact so a modifier
            // held across several combos (leader-key style) keeps working.
            Step::Exec(program) => {
                self.push_effect(Effect::Launch(owned(program.as_str())));
                assert(out@ =~= old(out)@ + Seq::<OutEvent>::empty());
            },
            // Smart-tile advances the cycle when the previous action tiled the
            // same edge, else restarts at a half; the engine fills in the
            // fraction so the backend stays a stateless geometry applier.
            Step::Window(WindowAction::SmartTile { side, fraction: _ }) => {
                let fraction = match prev_tile {
                    Some((edge, size)) => if edge == *side {
                        size.next()
                    } else {
                        TileFraction::Half
                    },
                    None => TileFraction::Half,
                };
                self.tile_chain = Some((*side, fraction));
                self.push_effect(
                    Effect::Window(WindowAction::SmartTile { side: *side, fraction }),
                );
                assert(out@ =~= old(out)@ + Seq::<OutEvent>::empty());
            },
            Step::Window(action) => {
                self.push_effect(Effect::Window(*action));
                assert(out@ =~= old(out)@ + Seq::<OutEvent>::empty());
            },
        }
    }

    fn run_steps(&mut self, steps: &Vec<Step>, trigger: Key, out: &mut Vec<OutEvent>)
        ensures
            (final(self)@, final(out)@) == ({
                let s = old(self)@;
                let (end, events) = steps_run(
                    StateView { tile: None, ..s },
                    step_views(steps@),
                    s.tile,
                    trigger,
                );
                (end, old(out)@ + events)
            }),
    {
        // Any binding except another same-edge smart-tile breaks the tile chain;
        // take it now and let a smart-tile step below restore or advance it.
        let prev_tile = self.tile_chain;
        self.tile_chain = None;
        let ghost start = self@;
        let ghost all = step_views(steps@);
        let mut i: usize = 0;
        assert(out@ =~= old(out)@ + Seq::<OutEvent>::empty());
        while i < steps.len()
            invariant
                i <= steps@.len(),
                all == step_views(steps@),
                self@ == steps_run(start, all.take(i as int), prev_tile, trigger).0,
                out@ == old(out)@ + steps_run(start, all.take(i as int), prev_tile, trigger).1,
            decreases steps@.len() - i,
        {
            proof {
                assert(all.take(i + 1).drop_last() =~= all.take(i as int));
                assert(all.take(i + 1).last() == steps@[i as int]@);
            }
            self.run_step(&steps[i], prev_tile, trigger, out);
            assert(out@ =~= old(out)@ + steps_run(start, all.take(i + 1), prev_tile, trigger).1);
            i = i + 1;
        }
        assert(all.take(steps@.len() as int) =~= all);
    }

    fn press_single(
        &mut self,
        phys: Key,
        target: &Combo,
        add_shift: bool,
        out: &mut Vec<OutEvent>,
    )
        ensures
            final(self)@ == single_pressed(old(self)@, phys, target@, add_shift).0,
            final(out)@ == old(out)@ + single_pressed(old(self)@, phys, target@, add_shift).1,
    {
        self.tile_chain = None;  // a key remap breaks the smart-tile chain
        if is_one_shot_chord(target) {
            self.emit_combo(target, add_shift, out);
            return ;
        }
        // Restore to the physically-held real modifiers on release, not the
        // current output: with overlapping held chords the output can carry
        // another chord's modifier (e.g. Alt), and snapshotting it here would
        // re-press that modifier on release and leave it stuck on.

        let resting = keep_real(&self.pressed_mods);
        let desired = wanted_for(target, add_shift);
        self.sync_mods(&desired, out);
        out.push(OutEvent { key: target.key, value: 1 });
        let ghost before = self.held@;
        let chord = HeldChord { target: target.key, resting };
        self.held.insert(phys, chord);
        assert(chord_views(self.held@) =~= chord_views(before).insert(phys, chord@));
        assert(out@ =~= old(out)@ + single_pressed(old(self)@, phys, target@, add_shift).1);
    }

    /// Handle the initial press of a bound key. A single combo is held down so it
    /// repeats naturally; multi-step sequences, mark toggles, and pass-through are
    /// one-shots. The exception is a single combo whose target is a window-manager
    /// shortcut chord (carries `Super`, or pairs a real modifier with a function
    /// key such as `M+f4`): it is emitted one-shot to avoid leaving modifiers
    /// down while the shortcut runs.
    fn press_binding(
        &mut self,
        phys: Key,
        steps: &Vec<Step>,
        trigger: Key,
        out: &mut Vec<OutEvent>,
    )
        ensures
            final(self)@ == binding_pressed(old(self)@, phys, step_views(steps@), trigger).0,
            final(out)@ == old(out)@ + binding_pressed(
                old(self)@,
                phys,
                step_views(steps@),
                trigger,
            ).1,
    {
        if steps.len() == 1 {
            assert(step_views(steps@)[0] == steps@[0]@);
            match &steps[0] {
                // A lone relative window move repeats while held, like a single
                // combo, so holding the key glides the window. Absolute actions
                // (snap, center, maximize) are one-shots: repeating them is a
                // no-op or flickers.
                Step::Window(WindowAction::Adjust { dx, dy, dw, dh }) => {
                    let action = WindowAction::Adjust { dx: *dx, dy: *dy, dw: *dw, dh: *dh };
                    self.tile_chain = None;  // a move breaks the smart-tile chain
                    self.push_effect(Effect::Window(action));
                    self.held_window.insert(phys, action);
                    assert(out@ =~= old(out)@ + Seq::<OutEvent>::empty());
                    return ;
                },
                Step::Keys(target) => {
                    self.press_single(phys, target, false, out);
                    return ;
                },
                Step::WithMark(target) => {
                    let mark = self.mark_set;
                    self.press_single(phys, target, mark, out);
                    return ;
                },
                _ => {},
            }
        }
        self.run_steps(steps, trigger, out);
    }

    fn release_key(&mut self, key: Key, out: &mut Vec<OutEvent>)
        ensures
            final(self)@ == crate::model::key_released(old(self)@, key).0,
            final(out)@ == old(out)@ + crate::model::key_released(old(self)@, key).1,
    {
        let ghost before = self.held@;
        let chord = self.held.remove(&key);
        assert(chord_views(self.held@) =~= chord_views(before).remove(key));
        match chord {
            Some(chord) => {
                out.push(OutEvent { key: chord.target, value: 0 });
                self.sync_mods(&chord.resting, out);
                assert(out@ =~= old(out)@ + crate::model::key_released(old(self)@, key).1);
            },
            None => {
                assert(chord_views(self.held@) =~= chord_views(before));
                let ghost down = self.passthrough_down@;
                let removed = self.passthrough_down.remove(&key);
                assert(self.passthrough_down@.dom() =~= down.dom().remove(key));
                if removed.is_some() {
                    out.push(OutEvent { key, value: 0 });
                } else {
                    assert(self.passthrough_down@.dom() =~= down.dom());
                    // A held window-move binding emits no key event; just stop
                    // repeating.
                    let _action = self.held_window.remove(&key);
                    assert(out@ =~= old(out)@ + Seq::<OutEvent>::empty());
                }
            },
        }
    }

    fn repeat_key(&mut self, key: Key, out: &mut Vec<OutEvent>)
        ensures
            final(self)@ == crate::model::key_repeated(old(self)@, key).0,
            final(out)@ == old(out)@ + crate::model::key_repeated(old(self)@, key).1,
    {
        if let Some(chord) = self.held.get(&key) {
            out.push(OutEvent { key: chord.target, value: 2 });
        } else if let Some(action) = self.held_window.get(&key) {
            let action = *action;
            self.push_effect(Effect::Window(action));
            assert(out@ =~= old(out)@ + Seq::<OutEvent>::empty());
        } else if self.passthrough_down.contains_key(&key) {
            out.push(OutEvent { key, value: 2 });
        } else {
            assert(out@ =~= old(out)@ + Seq::<OutEvent>::empty());
        }
    }
}

// === Engine ===

impl Engine {
    /// Create an engine over a lowered configuration.
    pub fn new(config: Config) -> (r: Engine)
        ensures
            r@ == (EngineView { config: config@, state: initial_state() }),
    {
        Engine { config, state: State::new() }
    }

    /// Whether all keys should be forwarded raw for the given app, bypassing
    /// the remapping engine. Case-insensitive substring match against `app`
    /// (the window class on Linux, the process name on Windows), against both
    /// the VM/remote classes built in for `os` and any user-listed
    /// `pass-through` entries, so a focused guest receives keys first with no
    /// config.
    pub fn is_pass_through(&self, os: &str, app: &str) -> (r: bool)
        ensures
            r == passes_through(self@.config, os@, app@),
    {
        self.config.passes_through(os, app)
    }

    /// Drain the side effects accumulated since the last call. The backend calls
    /// this right after each [`Engine::on_event`] and performs them (launching
    /// programs, moving windows); the engine never performs effects.
    pub fn take_effects(&mut self) -> (r: Vec<Effect>)
        ensures
            effect_views(r@) == old(self)@.state.effects,
            final(self)@ == (EngineView {
                config: old(self)@.config,
                state: StateView { effects: Seq::empty(), ..old(self)@.state },
            }),
    {
        let mut taken: Vec<Effect> = Vec::new();
        std::mem::swap(&mut taken, &mut self.state.effects);
        assert(effect_views(self.state.effects@) =~= Seq::empty());
        taken
    }

    /// Replace the active configuration (live reload). Transient state (held
    /// keys and what they were mapped to, pressed modifiers, the selection mark) is
    /// preserved so a reload never strands a key that is down.
    pub fn set_config(&mut self, config: Config)
        ensures
            final(self)@ == (EngineView { config: config@, state: old(self)@.state }),
    {
        self.config = config;
    }

    /// Process one incoming key event for the active `app` and return the events
    /// the backend should emit. `value` is `1` press, `0` release, `2` repeat.
    pub fn on_event(&mut self, raw: Key, value: i32, app: &str) -> (r: Vec<OutEvent>)
        ensures
            final(self)@.config == old(self)@.config,
            (final(self)@.state, r@) == on_event(
                old(self)@.config,
                old(self)@.state,
                raw,
                value,
                app@,
            ),
    {
        let mut out: Vec<OutEvent> = Vec::new();
        let is_press = value == 1;
        let is_release = value == 0;
        let key = self.state.route_key(&self.config, raw, value);

        // A multipurpose key's release resolves the pending tap-vs-hold.
        if is_release {
            if let Some(pending) = self.state.pending {
                if pending.src == raw {
                    self.state.pending = None;
                    if pending.resolved_hold {
                        self.state.pressed_mods.remove(pending.hold);
                        self.state.sync_to_held(&mut out);
                    } else {
                        let combo = Combo {
                            modifiers: self.state.pressed_mods,
                            key: pending.tap,
                        };
                        self.state.emit_combo(&combo, false, &mut out);
                    }
                    return out;
                }
            }
        }
        // A multipurpose key's first press starts a pending decision.

        if is_press {
            if let Some((tap, hold)) = self.config.multipurpose_lookup(app, raw) {
                self.state.pending = Some(Pending { src: raw, tap, hold, resolved_hold: false });
                return out;
            }
        }
        // Modifier keys are tracked, and real ones are forwarded as they happen.
        if let Some(modifier) = key.as_modifier() {
            if is_release {
                self.state.pressed_mods.remove(modifier);
            } else {
                self.state.resolve_pending_hold();
                self.state.pressed_mods.insert(modifier);
            }
            // Forward it now so other devices (the mouse, for Shift/Ctrl-click
            // selection) see it; synthetic `Hyper` stays suppressed.
            self.state.sync_to_held(&mut out);
            return out;
        }
        if is_release {
            self.state.release_key(key, &mut out);
            return out;
        }
        self.state.resolve_pending_hold();

        // Auto-repeat: forward as a repeat of whatever the key drives, so a held
        // key repeats naturally instead of being re-tapped on every kernel repeat.
        if value == 2 {
            self.state.repeat_key(key, &mut out);
            return out;
        }
        // Initial press of an ordinary key.

        let combo = Combo { modifiers: self.state.pressed_mods, key };
        match self.config.lookup(app, &combo) {
            Some(steps) => self.state.press_binding(key, steps, key, &mut out),
            None => {
                self.state.tile_chain = None;  // an unbound key press breaks the chain
                self.state.sync_to_held(&mut out);
                out.push(OutEvent { key, value: 1 });
                let ghost down = self.state.passthrough_down@;
                self.state.passthrough_down.insert(key, ());
                assert(self.state.passthrough_down@.dom() =~= down.dom().insert(key));
            },
        }
        out
    }

    /// Emit the events that make the OS modifier state match the held physical
    /// modifiers. The backend calls this before forwarding a key absent from the
    /// key table, so held modifiers are not lost.
    pub fn sync_modifiers(&mut self) -> (r: Vec<OutEvent>)
        ensures
            final(self)@.config == old(self)@.config,
            (final(self)@.state, r@) == synced_to_held(old(self)@.state),
    {
        let mut out: Vec<OutEvent> = Vec::new();
        self.state.sync_to_held(&mut out);
        out
    }

    /// Track a key the backend forwarded raw (bypassing remapping) while another
    /// client held a keyboard grab or the focused app is pass-through, so the
    /// engine's modifier bookkeeping stays accurate. Without this, a modifier
    /// released during a grab is never removed from the pressed set and bleeds
    /// into every later remap. Repeats carry no state change. The raw forward
    /// already moved the OS, so the emitted set is realigned to match.
    pub fn track_passthrough(&mut self, raw: Key, value: i32)
        ensures
            final(self)@.config == old(self)@.config,
            final(self)@.state == tracked_raw(old(self)@.config, old(self)@.state, raw, value),
    {
        if value == 2 {
            return ;
        }
        let key = self.state.route_key(&self.config, raw, value);
        if let Some(modifier) = key.as_modifier() {
            if value == 0 {
                self.state.pressed_mods.remove(modifier);
            } else {
                self.state.pressed_mods.insert(modifier);
            }
            self.state.output_mods = keep_real(&self.state.pressed_mods);
        }
    }

    /// Release every modifier currently held, both at the OS output and in the
    /// engine's tracked physical set, returning the events to emit. The backend
    /// calls this when an input-capturing overlay (pick-window, pick-element) is
    /// dismissed: while the overlay is up, key presses route to it rather than
    /// the engine, so a modifier held to open it would otherwise stay stuck
    /// down. Clearing the physical set too keeps a still-held modifier from being
    /// re-pressed by the next keystroke and makes its eventual release a no-op.
    pub fn clear_modifiers(&mut self) -> (r: Vec<OutEvent>)
        ensures
            final(self)@.config == old(self)@.config,
            (final(self)@.state, r@) == cleared(old(self)@.state),
    {
        let mut out: Vec<OutEvent> = Vec::new();
        let none = ModifierSet::new();
        self.state.sync_mods(&none, &mut out);
        self.state.pressed_mods = none;
        out
    }

    /// Whether a tap-hold key is currently held with its tap-vs-hold decision
    /// still undecided. The backend uses this to arm a timeout so a long hold
    /// commits to its modifier even when no other key follows.
    pub fn has_pending_hold(&self) -> (r: bool)
        ensures
            r == undecided(self@.state),
    {
        match self.state.pending {
            Some(p) => !p.resolved_hold,
            None => false,
        }
    }

    /// Commit a still-pending tap-hold key to its hold modifier and forward it to
    /// the OS. The backend calls this when the key has been held past the timeout,
    /// so the modifier is live for a mouse click that never reaches the engine.
    /// Returns the events to emit, empty when nothing is pending.
    pub fn flush_pending_hold(&mut self) -> (r: Vec<OutEvent>)
        ensures
            final(self)@.config == old(self)@.config,
            (final(self)@.state, r@) == flushed(old(self)@.state),
    {
        let mut out: Vec<OutEvent> = Vec::new();
        if self.has_pending_hold() {
            self.state.resolve_pending_hold();
            self.state.sync_to_held(&mut out);
        }
        out
    }
}

} // verus!
