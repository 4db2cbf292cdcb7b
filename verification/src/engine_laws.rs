//! What holds of the engine as a whole, over any configuration and any state.

use crate::actions::{EffectView, OutEvent, Side, StepView, TileFraction, WindowAction};
use crate::combo::{in_order, one_if, ComboView, Modifier};
use crate::key::Key;
use crate::model::{
    binding_pressed, chord_events, cleared, flushed, hold_resolved, initial_state, key_moved,
    key_released, key_repeated, modifier_event, modifier_events, on_event, one_shot, press,
    real_only, release, repeat, route, routed, single_pressed, step_run, steps_run, switch_events,
    synced_to_held, tile_size, tracked_raw, unbound_pressed, undecided, wanted, EngineView,
    StateView,
};
use crate::rules::{binding_of, mapped, tap_hold_of, ConfigView, KeymapView, MultipurposeView};
use vstd::prelude::*;

verus! {

// === The OS as it sees the emitted events ===

/// The keys the OS holds to be down after one more event.
pub open spec fn os_step(down: Set<Key>, event: OutEvent) -> Set<Key> {
    if event.value == 1 {
        down.insert(event.key)
    } else if event.value == 0 {
        down.remove(event.key)
    } else {
        down
    }
}

/// The keys the OS holds to be down after a list of events.
pub open spec fn os_after(down: Set<Key>, events: Seq<OutEvent>) -> Set<Key>
    decreases events.len(),
{
    if events.len() == 0 {
        down
    } else {
        os_step(os_after(down, events.drop_last()), events.last())
    }
}

/// The OS holds a modifier's key to be down exactly if the modifier is in `mods`.
pub open spec fn os_agrees(down: Set<Key>, mods: Set<Modifier>) -> bool {
    forall|m: Modifier|
        #![trigger m.spec_emit_key()]
        m.spec_emit_key() is Some ==> down.contains(m.spec_emit_key()->0) == mods.contains(m)
}

proof fn lemma_os_after_concat(down: Set<Key>, a: Seq<OutEvent>, b: Seq<OutEvent>)
    ensures
        os_after(down, a + b) == os_after(os_after(down, a), b),
    decreases b.len(),
{
    if b.len() == 0 {
        assert(a + b =~= a);
    } else {
        assert((a + b).drop_last() =~= a + b.drop_last());
        assert((a + b).last() == b.last());
        lemma_os_after_concat(down, a, b.drop_last());
    }
}

proof fn lemma_os_after_one(down: Set<Key>, event: OutEvent)
    ensures
        os_after(down, seq![event]) == os_step(down, event),
{
    reveal_with_fuel(os_after, 2);
    assert(seq![event].drop_last() =~= Seq::empty());
}

proof fn lemma_in_order(s: Set<Modifier>, m: Modifier)
    ensures
        in_order(s).contains(m) == s.contains(m),
{
    let all = in_order(s);
    let alt = one_if(s, Modifier::Alt);
    let control = alt + one_if(s, Modifier::Control);
    let hyper = control + one_if(s, Modifier::Hyper);
    let shift = hyper + one_if(s, Modifier::Shift);
    if s.contains(m) {
        match m {
            Modifier::Alt => {
                assert(all[0] == m);
            },
            Modifier::Control => {
                assert(all[alt.len() as int] == m);
            },
            Modifier::Hyper => {
                assert(all[control.len() as int] == m);
            },
            Modifier::Shift => {
                assert(all[hyper.len() as int] == m);
            },
            Modifier::Super => {
                assert(all[shift.len() as int] == m);
            },
        }
    } else {
        assert forall|i: int| 0 <= i < all.len() implies all[i] != m by {
            if i < alt.len() {
            } else if i < control.len() {
            } else if i < hyper.len() {
            } else if i < shift.len() {
            } else {
            }
        }
    }
}

/// What a run of modifier events does to the keys the OS holds to be down.
proof fn lemma_modifier_events(down: Set<Key>, mods: Seq<Modifier>, value: i32, key: Key)
    requires
        value == 0 || value == 1,
    ensures
        os_after(down, modifier_events(mods, value)).contains(key) == if exists|m: Modifier|
            mods.contains(m) && #[trigger] m.spec_emit_key() == Some(key) {
            value == 1
        } else {
            down.contains(key)
        },
    decreases mods.len(),
{
    if mods.len() == 0 {
    } else {
        let last = mods.last();
        let init = mods.drop_last();
        lemma_modifier_events(down, init, value, key);
        lemma_os_after_concat(down, modifier_events(init, value), modifier_event(last, value));
        let mid = os_after(down, modifier_events(init, value));
        let ev = modifier_event(last, value);
        if ev.len() == 1 {
            assert(ev =~= seq![ev[0]]);
            lemma_os_after_one(mid, ev[0]);
        } else {
            assert(ev =~= Seq::empty());
        }
        if last.spec_emit_key() == Some(key) {
            assert(mods.contains(last));
        }
        assert forall|m: Modifier| mods.contains(m) && #[trigger] m.spec_emit_key() == Some(key)
            && m != last implies init.contains(m) by {
            let i = choose|i: int| 0 <= i < mods.len() && mods[i] == m;
            assert(init[i] == m);
        }
        assert forall|m: Modifier| init.contains(m) implies #[trigger] mods.contains(m) by {
            let i = choose|i: int| 0 <= i < init.len() && init[i] == m;
            assert(mods[i] == m);
        }
    }
}

/// The events that switch modifier sets take the OS from the one set to the
/// other, and leave every key alone that is no modifier's.
pub proof fn switching_reaches_the_target(down: Set<Key>, from: Set<Modifier>, to: Set<Modifier>)
    requires
        os_agrees(down, from),
    ensures
        os_agrees(os_after(down, switch_events(from, to)), to),
        forall|key: Key|
            (forall|m: Modifier| #[trigger] m.spec_emit_key() != Some(key)) ==> (
            #[trigger] os_after(down, switch_events(from, to)).contains(key)) == down.contains(key),
{
    let gone = in_order(from.difference(to));
    let new = in_order(to.difference(from));
    lemma_os_after_concat(down, modifier_events(gone, 0), modifier_events(new, 1));
    let mid = os_after(down, modifier_events(gone, 0));
    let end = os_after(down, switch_events(from, to));
    assert forall|m: Modifier|
        #![trigger m.spec_emit_key()]
        m.spec_emit_key() is Some implies end.contains(m.spec_emit_key()->0) == to.contains(m) by {
        let key = m.spec_emit_key()->0;
        lemma_modifier_events(down, gone, 0, key);
        lemma_modifier_events(mid, new, 1, key);
        lemma_in_order(from.difference(to), m);
        lemma_in_order(to.difference(from), m);
        assert forall|o: Modifier| #[trigger] o.spec_emit_key() == Some(key) implies o == m by {}
    }
    assert forall|key: Key|
        (forall|m: Modifier| #[trigger] m.spec_emit_key() != Some(key)) implies (
    #[trigger] end.contains(key)) == down.contains(key) by {
        lemma_modifier_events(down, gone, 0, key);
        lemma_modifier_events(mid, new, 1, key);
    }
}

// === What is driven ===

/// The key is not what a modifier is sent to the OS as.
pub open spec fn plain(key: Key) -> bool {
    forall|m: Modifier| #[trigger] m.spec_emit_key() != Some(key)
}

/// The key is no `Hyper` key.
pub open spec fn not_hyper(key: Key) -> bool {
    key.spec_modifier() != Some(Modifier::Hyper)
}

/// The keys no modifier is sent as.
pub open spec fn plain_keys() -> spec_fn(Key) -> bool {
    |key: Key| plain(key)
}

/// The keys that are no `Hyper` keys.
pub open spec fn hyperless_keys() -> spec_fn(Key) -> bool {
    |key: Key| not_hyper(key)
}

/// The step taps only keys of a kind.
pub open spec fn step_drives(step: StepView, kind: spec_fn(Key) -> bool) -> bool {
    match step {
        StepView::Keys(combo) => kind(combo.key),
        StepView::WithMark(combo) => kind(combo.key),
        _ => true,
    }
}

/// The steps tap only keys of a kind.
pub open spec fn steps_drive(steps: Seq<StepView>, kind: spec_fn(Key) -> bool) -> bool {
    forall|i: int| 0 <= i < steps.len() ==> step_drives(#[trigger] steps[i], kind)
}

/// The bindings and the taps of the configuration drive only keys of a kind.
pub open spec fn config_drives(config: ConfigView, kind: spec_fn(Key) -> bool) -> bool {
    &&& forall|i: int, combo: ComboView|
        0 <= i < config.keymaps.len() && #[trigger] config.keymaps[i].bindings.contains_key(combo)
            ==> steps_drive(config.keymaps[i].bindings[combo], kind)
    &&& forall|i: int, key: Key|
        0 <= i < config.multipurpose.len() && #[trigger] config.multipurpose[i].map.contains_key(
            key,
        ) ==> kind(config.multipurpose[i].map[key].0)
}

/// What is down drives only keys of a kind.
pub open spec fn state_drives(s: StateView, kind: spec_fn(Key) -> bool) -> bool {
    &&& forall|key: Key| #[trigger] s.held.contains_key(key) ==> kind(s.held[key].target)
    &&& forall|key: Key| #[trigger] s.passthrough.contains(key) ==> kind(key)
    &&& s.pending matches Some(p) ==> kind(p.tap)
}

proof fn lemma_binding_drives(
    keymaps: Seq<KeymapView>,
    app: Seq<char>,
    combo: ComboView,
    kind: spec_fn(Key) -> bool,
)
    requires
        forall|i: int, c: ComboView|
            0 <= i < keymaps.len() && #[trigger] keymaps[i].bindings.contains_key(c)
                ==> steps_drive(keymaps[i].bindings[c], kind),
    ensures
        binding_of(keymaps, app, combo) matches Some(steps) ==> steps_drive(steps, kind),
    decreases keymaps.len(),
{
    if keymaps.len() > 0 {
        let rest = keymaps.drop_first();
        assert forall|i: int, c: ComboView|
            0 <= i < rest.len() && #[trigger] rest[i].bindings.contains_key(c) implies steps_drive(
            rest[i].bindings[c],
            kind,
        ) by {
            assert(rest[i] == keymaps[i + 1]);
            assert(keymaps[i + 1].bindings.contains_key(c));
        }
        lemma_binding_drives(rest, app, combo, kind);
    }
}

proof fn lemma_tap_drives(
    rules: Seq<MultipurposeView>,
    app: Seq<char>,
    raw: Key,
    kind: spec_fn(Key) -> bool,
)
    requires
        forall|i: int, k: Key|
            0 <= i < rules.len() && #[trigger] rules[i].map.contains_key(k) ==> kind(
                rules[i].map[k].0,
            ),
    ensures
        tap_hold_of(rules, app, raw) matches Some(target) ==> kind(target.0),
    decreases rules.len(),
{
    if rules.len() > 0 {
        let rest = rules.drop_first();
        assert forall|i: int, k: Key|
            0 <= i < rest.len() && #[trigger] rest[i].map.contains_key(k) implies kind(
            rest[i].map[k].0,
        ) by {
            assert(rest[i] == rules[i + 1]);
            assert(rules[i + 1].map.contains_key(k));
        }
        lemma_tap_drives(rest, app, raw, kind);
    }
}

proof fn lemma_step_keeps_what_is_down(
    s: StateView,
    step: StepView,
    prev: Option<(Side, TileFraction)>,
    trigger: Key,
)
    ensures
        step_run(s, step, prev, trigger).0.held == s.held,
        step_run(s, step, prev, trigger).0.passthrough == s.passthrough,
        step_run(s, step, prev, trigger).0.pending == s.pending,
{
    match step {
        StepView::Keys(_) => {},
        StepView::WithMark(_) => {},
        StepView::SetMark(_) => {},
        StepView::PassThrough => {},
        StepView::Exec(_) => {},
        StepView::Window(_) => {},
    }
}

proof fn lemma_steps_keep_what_is_down(
    s: StateView,
    steps: Seq<StepView>,
    prev: Option<(Side, TileFraction)>,
    trigger: Key,
)
    ensures
        steps_run(s, steps, prev, trigger).0.held == s.held,
        steps_run(s, steps, prev, trigger).0.passthrough == s.passthrough,
        steps_run(s, steps, prev, trigger).0.pending == s.pending,
    decreases steps.len(),
{
    if steps.len() > 0 {
        lemma_steps_keep_what_is_down(s, steps.drop_last(), prev, trigger);
        let mid = steps_run(s, steps.drop_last(), prev, trigger).0;
        lemma_step_keeps_what_is_down(mid, steps.last(), prev, trigger);
    }
}

/// What is down goes on driving only the keys that the configuration drives, and
/// keys that are no modifiers.
pub proof fn what_is_down_was_bound_or_pressed(
    config: ConfigView,
    s: StateView,
    raw: Key,
    value: i32,
    app: Seq<char>,
    kind: spec_fn(Key) -> bool,
)
    requires
        config_drives(config, kind),
        state_drives(s, kind),
        forall|key: Key| key.spec_modifier() is None ==> #[trigger] kind(key),
    ensures
        state_drives(on_event(config, s, raw, value, app).0, kind),
{
    let key = route(config, s, raw, value);
    let s = routed(s, raw, key, value);
    let end = key_moved(config, s, raw, key, value, app).0;
    assert(state_drives(s, kind));
    if value == 0 && s.pending is Some && s.pending->0.src == raw {
        assert(end.held == s.held && end.passthrough == s.passthrough && end.pending is None);
    } else if value == 1 && tap_hold_of(config.multipurpose, app, raw) is Some {
        lemma_tap_drives(config.multipurpose, app, raw, kind);
    } else if key.spec_modifier() is Some {
        assert(end.held == s.held && end.passthrough == s.passthrough);
    } else if value == 0 {
        lemma_release_drives(s, key, kind);
    } else {
        let s2 = hold_resolved(s);
        assert(state_drives(s2, kind));
        if value != 2 {
            let combo = ComboView { modifiers: s2.pressed, key };
            lemma_binding_drives(config.keymaps, app, combo, kind);
            match binding_of(config.keymaps, app, combo) {
                Some(steps) => lemma_press_drives(s2, key, steps, kind),
                None => {
                    assert forall|k: Key| #[trigger] end.passthrough.contains(k) implies kind(
                        k,
                    ) by {
                        assert(k == key || s.passthrough.contains(k));
                    }
                },
            }
        } else {
            assert(end.held == s.held && end.passthrough == s.passthrough);
        }
    }
}

proof fn lemma_release_drives(s: StateView, key: Key, kind: spec_fn(Key) -> bool)
    requires
        state_drives(s, kind),
    ensures
        state_drives(key_released(s, key).0, kind),
{
    let end = key_released(s, key).0;
    assert forall|k: Key| #[trigger] end.held.contains_key(k) implies kind(end.held[k].target) by {
        assert(s.held.contains_key(k));
    }
    assert forall|k: Key| #[trigger] end.passthrough.contains(k) implies kind(k) by {
        assert(s.passthrough.contains(k));
    }
}

proof fn lemma_press_drives(
    s: StateView,
    key: Key,
    steps: Seq<StepView>,
    kind: spec_fn(Key) -> bool,
)
    requires
        state_drives(s, kind),
        steps_drive(steps, kind),
    ensures
        state_drives(binding_pressed(s, key, steps, key).0, kind),
{
    let end = binding_pressed(s, key, steps, key).0;
    lemma_steps_keep_what_is_down(StateView { tile: None, ..s }, steps, s.tile, key);
    if steps.len() == 1 {
        assert(step_drives(steps[0], kind));
    }
    assert(end.passthrough == s.passthrough && end.pending == s.pending);
    assert forall|k: Key| #[trigger] end.held.contains_key(k) implies kind(end.held[k].target) by {
        if k != key {
            assert(s.held.contains_key(k));
        }
    }
}

// === The output model ===

/// What a list of events does to one key, event by event.
pub open spec fn moves(events: Seq<OutEvent>, key: Key) -> Seq<i32>
    decreases events.len(),
{
    if events.len() == 0 {
        Seq::empty()
    } else {
        let before = moves(events.drop_last(), key);
        if events.last().key == key {
            before.push(events.last().value)
        } else {
            before
        }
    }
}

/// The moves take a key from one state (`true` is down) to another, never pressing it
/// while it is down nor releasing it while it is up.
pub open spec fn turns(from: bool, values: Seq<i32>, to: bool) -> bool
    decreases values.len(),
{
    if values.len() == 0 {
        from == to
    } else {
        values.last() == (if to {
            1int
        } else {
            0
        }) && turns(from, values.drop_last(), !to)
    }
}

/// The events take every real modifier's key from one set to another in such moves.
pub open spec fn fair(from: Set<Modifier>, events: Seq<OutEvent>, to: Set<Modifier>) -> bool {
    forall|m: Modifier|
        #![trigger m.spec_emit_key()]
        m.spec_emit_key() is Some ==> turns(
            from.contains(m),
            moves(events, m.spec_emit_key()->0),
            to.contains(m),
        )
}

proof fn lemma_moves_concat(a: Seq<OutEvent>, b: Seq<OutEvent>, key: Key)
    ensures
        moves(a + b, key) == moves(a, key) + moves(b, key),
    decreases b.len(),
{
    if b.len() == 0 {
        assert(a + b =~= a);
        assert(moves(a, key) + moves(b, key) =~= moves(a, key));
    } else {
        assert((a + b).drop_last() =~= a + b.drop_last());
        assert((a + b).last() == b.last());
        lemma_moves_concat(a, b.drop_last(), key);
        assert(moves(a + b, key) =~= moves(a, key) + moves(b, key));
    }
}

proof fn lemma_turns_concat(from: bool, a: Seq<i32>, mid: bool, b: Seq<i32>, to: bool)
    requires
        turns(from, a, mid),
        turns(mid, b, to),
    ensures
        turns(from, a + b, to),
    decreases b.len(),
{
    if b.len() == 0 {
        assert(a + b =~= a);
    } else {
        assert((a + b).drop_last() =~= a + b.drop_last());
        lemma_turns_concat(from, a, mid, b.drop_last(), !to);
    }
}

proof fn lemma_fair_concat(
    from: Set<Modifier>,
    a: Seq<OutEvent>,
    mid: Set<Modifier>,
    b: Seq<OutEvent>,
    to: Set<Modifier>,
)
    requires
        fair(from, a, mid),
        fair(mid, b, to),
    ensures
        fair(from, a + b, to),
{
    assert forall|m: Modifier|
        #![trigger m.spec_emit_key()]
        m.spec_emit_key() is Some implies turns(
        from.contains(m),
        moves(a + b, m.spec_emit_key()->0),
        to.contains(m),
    ) by {
        let key = m.spec_emit_key()->0;
        lemma_moves_concat(a, b, key);
        lemma_turns_concat(
            from.contains(m),
            moves(a, key),
            mid.contains(m),
            moves(b, key),
            to.contains(m),
        );
    }
}

proof fn lemma_fair_nothing(mods: Set<Modifier>)
    ensures
        fair(mods, Seq::<OutEvent>::empty(), mods),
{
}

/// One event of a plain key leaves the OS modifiers alone.
proof fn lemma_fair_plain(mods: Set<Modifier>, event: OutEvent)
    requires
        plain(event.key),
    ensures
        fair(mods, seq![event], mods),
{
    assert forall|m: Modifier|
        #![trigger m.spec_emit_key()]
        m.spec_emit_key() is Some implies turns(
        mods.contains(m),
        moves(seq![event], m.spec_emit_key()->0),
        mods.contains(m),
    ) by {
        let key = m.spec_emit_key()->0;
        assert(event.key != key);
        assert(seq![event].drop_last() =~= Seq::empty());
        reveal_with_fuel(moves, 2);
    }
}

proof fn lemma_modifier_events_concat(a: Seq<Modifier>, b: Seq<Modifier>, value: i32)
    ensures
        modifier_events(a + b, value) == modifier_events(a, value) + modifier_events(b, value),
    decreases b.len(),
{
    if b.len() == 0 {
        assert(a + b =~= a);
        assert(modifier_events(a, value) + modifier_events(b, value) =~= modifier_events(a, value));
    } else {
        assert((a + b).drop_last() =~= a + b.drop_last());
        lemma_modifier_events_concat(a, b.drop_last(), value);
        assert(modifier_events(a + b, value) =~= modifier_events(a, value) + modifier_events(
            b,
            value,
        ));
    }
}

/// The move of one modifier, if it is in the set.
spec fn move_if(s: Set<Modifier>, m: Modifier, value: i32) -> Seq<i32> {
    if s.contains(m) {
        seq![value]
    } else {
        Seq::empty()
    }
}

proof fn lemma_moves_one(s: Set<Modifier>, other: Modifier, m: Modifier, value: i32)
    requires
        m.spec_emit_key() is Some,
    ensures
        moves(modifier_events(one_if(s, other), value), m.spec_emit_key()->0) == if other == m {
            move_if(s, m, value)
        } else {
            Seq::empty()
        },
{
    let key = m.spec_emit_key()->0;
    let events = modifier_events(one_if(s, other), value);
    reveal_with_fuel(moves, 2);
    reveal_with_fuel(modifier_events, 2);
    if s.contains(other) {
        assert(one_if(s, other).drop_last() =~= Seq::empty());
        assert(events =~= modifier_event(other, value));
        if other.spec_emit_key() is Some {
            assert(events.drop_last() =~= Seq::empty());
            assert(other.spec_emit_key() == Some(key) ==> other == m);
        }
    }
    assert(moves(events, key) =~= if other == m {
        move_if(s, m, value)
    } else {
        Seq::empty()
    });
}

proof fn lemma_moves_in_order(s: Set<Modifier>, m: Modifier, value: i32)
    requires
        m.spec_emit_key() is Some,
    ensures
        moves(modifier_events(in_order(s), value), m.spec_emit_key()->0) == move_if(s, m, value),
{
    let key = m.spec_emit_key()->0;
    let (a, b, c, d, e) = (
        one_if(s, Modifier::Alt),
        one_if(s, Modifier::Control),
        one_if(s, Modifier::Hyper),
        one_if(s, Modifier::Shift),
        one_if(s, Modifier::Super),
    );
    lemma_modifier_events_concat(a, b, value);
    lemma_modifier_events_concat(a + b, c, value);
    lemma_modifier_events_concat(a + b + c, d, value);
    lemma_modifier_events_concat(a + b + c + d, e, value);
    let ev = |x: Seq<Modifier>| modifier_events(x, value);
    lemma_moves_concat(ev(a), ev(b), key);
    lemma_moves_concat(ev(a) + ev(b), ev(c), key);
    lemma_moves_concat(ev(a) + ev(b) + ev(c), ev(d), key);
    lemma_moves_concat(ev(a) + ev(b) + ev(c) + ev(d), ev(e), key);
    lemma_moves_one(s, Modifier::Alt, m, value);
    lemma_moves_one(s, Modifier::Control, m, value);
    lemma_moves_one(s, Modifier::Hyper, m, value);
    lemma_moves_one(s, Modifier::Shift, m, value);
    lemma_moves_one(s, Modifier::Super, m, value);
    assert(moves(ev(in_order(s)), key) =~= move_if(s, m, value));
}

proof fn lemma_fair_switch(from: Set<Modifier>, to: Set<Modifier>)
    ensures
        fair(from, switch_events(from, to), to),
{
    assert forall|m: Modifier|
        #![trigger m.spec_emit_key()]
        m.spec_emit_key() is Some implies turns(
        from.contains(m),
        moves(switch_events(from, to), m.spec_emit_key()->0),
        to.contains(m),
    ) by {
        let key = m.spec_emit_key()->0;
        let (gone, new) = (from.difference(to), to.difference(from));
        lemma_moves_concat(
            modifier_events(in_order(gone), 0),
            modifier_events(in_order(new), 1),
            key,
        );
        lemma_moves_in_order(gone, m, 0);
        lemma_moves_in_order(new, m, 1);
        let values = moves(switch_events(from, to), key);
        reveal_with_fuel(turns, 2);
        if from.contains(m) && !to.contains(m) {
            assert(values =~= seq![0i32]);
            assert(values.drop_last() =~= Seq::empty());
        } else if to.contains(m) && !from.contains(m) {
            assert(values =~= seq![1i32]);
            assert(values.drop_last() =~= Seq::empty());
        } else {
            assert(values =~= Seq::empty());
        }
    }
}

proof fn lemma_fair_chord(output: Set<Modifier>, combo: ComboView, add_shift: bool)
    requires
        plain(combo.key),
    ensures
        fair(output, chord_events(output, combo, add_shift), output),
{
    let w = wanted(combo, add_shift);
    let a = switch_events(output, w);
    let (down, up) = (seq![press(combo.key)], seq![release(combo.key)]);
    lemma_fair_switch(output, w);
    lemma_fair_switch(w, output);
    lemma_fair_plain(w, press(combo.key));
    lemma_fair_plain(w, release(combo.key));
    lemma_fair_concat(w, down, w, up, w);
    assert(seq![press(combo.key), release(combo.key)] =~= down + up);
    lemma_fair_concat(output, a, w, down + up, w);
    lemma_fair_concat(output, a + (down + up), w, switch_events(w, output), output);
}

proof fn lemma_fair_switch_then(from: Set<Modifier>, to: Set<Modifier>, event: OutEvent)
    requires
        plain(event.key),
    ensures
        fair(from, switch_events(from, to).push(event), to),
{
    let a = switch_events(from, to);
    lemma_fair_switch(from, to);
    lemma_fair_plain(to, event);
    lemma_fair_concat(from, a, to, seq![event], to);
    assert(a.push(event) =~= a + seq![event]);
}

proof fn lemma_fair_steps(
    s: StateView,
    steps: Seq<StepView>,
    prev: Option<(Side, TileFraction)>,
    trigger: Key,
)
    requires
        steps_drive(steps, plain_keys()),
        plain(trigger),
    ensures
        fair(
            s.output,
            steps_run(s, steps, prev, trigger).1,
            steps_run(s, steps, prev, trigger).0.output,
        ),
    decreases steps.len(),
{
    if steps.len() == 0 {
        lemma_fair_nothing(s.output);
    } else {
        let init = steps.drop_last();
        assert forall|i: int| 0 <= i < init.len() implies step_drives(
            #[trigger] init[i],
            plain_keys(),
        ) by {
            assert(step_drives(steps[i], plain_keys()));
        }
        lemma_fair_steps(s, init, prev, trigger);
        let (mid, before) = steps_run(s, init, prev, trigger);
        let step = steps.last();
        let (end, events) = step_run(mid, step, prev, trigger);
        assert(step_drives(step, plain_keys()));
        match step {
            StepView::Keys(combo) => lemma_fair_chord(mid.output, combo, false),
            StepView::WithMark(combo) => lemma_fair_chord(mid.output, combo, mid.mark),
            StepView::PassThrough => lemma_fair_chord(
                mid.output,
                ComboView { modifiers: mid.pressed, key: trigger },
                false,
            ),
            _ => lemma_fair_nothing(mid.output),
        }
        lemma_fair_concat(s.output, before, mid.output, events, end.output);
    }
}

proof fn lemma_fair_single(s: StateView, phys: Key, target: ComboView, add_shift: bool)
    requires
        plain(target.key),
    ensures
        fair(
            s.output,
            single_pressed(s, phys, target, add_shift).1,
            single_pressed(s, phys, target, add_shift).0.output,
        ),
{
    if one_shot(target) {
        lemma_fair_chord(s.output, target, add_shift);
    } else {
        lemma_fair_switch_then(s.output, wanted(target, add_shift), press(target.key));
    }
}

proof fn lemma_fair_binding(s: StateView, key: Key, steps: Seq<StepView>)
    requires
        steps_drive(steps, plain_keys()),
        plain(key),
    ensures
        fair(
            s.output,
            binding_pressed(s, key, steps, key).1,
            binding_pressed(s, key, steps, key).0.output,
        ),
{
    if steps.len() == 1 {
        assert(step_drives(steps[0], plain_keys()));
    }
    if steps.len() == 1 && steps[0] is Window && steps[0]->Window_0 is Adjust {
        lemma_fair_nothing(s.output);
    } else if steps.len() == 1 && steps[0] is Keys {
        lemma_fair_single(s, key, steps[0]->Keys_0, false);
    } else if steps.len() == 1 && steps[0] is WithMark {
        lemma_fair_single(s, key, steps[0]->WithMark_0, s.mark);
    } else {
        lemma_fair_steps(StateView { tile: None, ..s }, steps, s.tile, key);
    }
}

proof fn lemma_fair_released(s: StateView, key: Key)
    requires
        state_drives(s, plain_keys()),
    ensures
        fair(s.output, key_released(s, key).1, key_released(s, key).0.output),
{
    if s.held.contains_key(key) {
        let chord = s.held[key];
        let up = seq![release(chord.target)];
        lemma_fair_plain(s.output, release(chord.target));
        lemma_fair_switch(s.output, chord.resting);
        lemma_fair_concat(
            s.output,
            up,
            s.output,
            switch_events(s.output, chord.resting),
            chord.resting,
        );
    } else if s.passthrough.contains(key) {
        lemma_fair_plain(s.output, release(key));
    } else {
        lemma_fair_nothing(s.output);
    }
}

proof fn lemma_fair_repeated(s: StateView, key: Key)
    requires
        state_drives(s, plain_keys()),
    ensures
        fair(s.output, key_repeated(s, key).1, key_repeated(s, key).0.output),
{
    if s.held.contains_key(key) {
        lemma_fair_plain(s.output, repeat(s.held[key].target));
    } else if s.held_window.contains_key(key) {
        lemma_fair_nothing(s.output);
    } else if s.passthrough.contains(key) {
        lemma_fair_plain(s.output, repeat(key));
    } else {
        lemma_fair_nothing(s.output);
    }
}

proof fn lemma_fair_event(
    config: ConfigView,
    s: StateView,
    raw: Key,
    value: i32,
    app: Seq<char>,
)
    requires
        config_drives(config, plain_keys()),
        state_drives(s, plain_keys()),
    ensures
        fair(
            s.output,
            on_event(config, s, raw, value, app).1,
            on_event(config, s, raw, value, app).0.output,
        ),
{
    let key = route(config, s, raw, value);
    let s = routed(s, raw, key, value);
    assert(state_drives(s, plain_keys()));
    if value == 0 && s.pending is Some && s.pending->0.src == raw {
        let p = s.pending->0;
        if p.resolved_hold {
            lemma_fair_switch(s.output, real_only(s.pressed.remove(p.hold)));
        } else {
            lemma_fair_chord(s.output, ComboView { modifiers: s.pressed, key: p.tap }, false);
        }
    } else if value == 1 && tap_hold_of(config.multipurpose, app, raw) is Some {
        lemma_fair_nothing(s.output);
    } else if key.spec_modifier() is Some {
        let m = key.spec_modifier()->0;
        if value == 0 {
            lemma_fair_switch(s.output, real_only(s.pressed.remove(m)));
        } else {
            lemma_fair_switch(s.output, real_only(hold_resolved(s).pressed.insert(m)));
        }
    } else if value == 0 {
        lemma_fair_released(s, key);
    } else {
        let s2 = hold_resolved(s);
        assert(state_drives(s2, plain_keys()));
        if value == 2 {
            lemma_fair_repeated(s2, key);
        } else {
            let combo = ComboView { modifiers: s2.pressed, key };
            lemma_binding_drives(config.keymaps, app, combo, plain_keys());
            match binding_of(config.keymaps, app, combo) {
                Some(steps) => lemma_fair_binding(s2, key, steps),
                None => lemma_fair_switch_then(s2.output, real_only(s2.pressed), press(key)),
            }
        }
    }
}

proof fn lemma_turns_reach(down: Set<Key>, events: Seq<OutEvent>, key: Key, to: bool)
    requires
        turns(down.contains(key), moves(events, key), to),
    ensures
        os_after(down, events).contains(key) == to,
    decreases events.len(),
{
    if events.len() > 0 {
        let last = events.last();
        if last.key == key {
            let values = moves(events, key);
            assert(values.drop_last() =~= moves(events.drop_last(), key));
            lemma_turns_reach(down, events.drop_last(), key, !to);
        } else {
            lemma_turns_reach(down, events.drop_last(), key, to);
        }
    }
}

proof fn lemma_fair_agrees(
    down: Set<Key>,
    from: Set<Modifier>,
    events: Seq<OutEvent>,
    to: Set<Modifier>,
)
    requires
        os_agrees(down, from),
        fair(from, events, to),
    ensures
        os_agrees(os_after(down, events), to),
{
    assert forall|m: Modifier|
        #![trigger m.spec_emit_key()]
        m.spec_emit_key() is Some implies os_after(down, events).contains(m.spec_emit_key()->0)
        == to.contains(m) by {
        lemma_turns_reach(down, events, m.spec_emit_key()->0, to.contains(m));
    }
}

/// The output model: whatever happens, the modifiers the OS holds to be down are
/// exactly those the engine believes it has sent. This needs that no binding drives
/// as an ordinary key what a modifier is sent as.
pub proof fn os_modifiers_follow_the_output(
    config: ConfigView,
    s: StateView,
    down: Set<Key>,
    raw: Key,
    value: i32,
    app: Seq<char>,
)
    requires
        config_drives(config, plain_keys()),
        state_drives(s, plain_keys()),
        os_agrees(down, s.output),
    ensures
        state_drives(on_event(config, s, raw, value, app).0, plain_keys()),
        os_agrees(
            os_after(down, on_event(config, s, raw, value, app).1),
            on_event(config, s, raw, value, app).0.output,
        ),
{
    what_is_down_was_bound_or_pressed(config, s, raw, value, app, plain_keys());
    lemma_fair_event(config, s, raw, value, app);
    let (end, events) = on_event(config, s, raw, value, app);
    lemma_fair_agrees(down, s.output, events, end.output);
}

/// The agreement holds from the start, and the calls that only move modifiers keep
/// it: syncing, clearing and committing a tap-hold key.
pub proof fn moving_modifiers_keeps_the_agreement(
    s: StateView,
    down: Set<Key>,
    kind: spec_fn(Key) -> bool,
)
    requires
        os_agrees(down, s.output),
    ensures
        os_agrees(Set::empty(), initial_state().output),
        state_drives(initial_state(), kind),
        os_agrees(os_after(down, synced_to_held(s).1), synced_to_held(s).0.output),
        os_agrees(os_after(down, cleared(s).1), cleared(s).0.output),
        os_agrees(os_after(down, flushed(s).1), flushed(s).0.output),
{
    switching_reaches_the_target(down, s.output, real_only(s.pressed));
    switching_reaches_the_target(down, s.output, Set::empty());
    switching_reaches_the_target(down, s.output, real_only(hold_resolved(s).pressed));
}

/// A call of the engine that may emit events or change what it does.
pub enum Call {
    Event { raw: Key, value: i32, app: Seq<char> },
    Sync,
    Clear,
    Flush,
    Reload(ConfigView),
}

/// What a call makes of the engine, and the events it returns.
pub open spec fn called(e: EngineView, call: Call) -> (EngineView, Seq<OutEvent>) {
    match call {
        Call::Reload(config) => (EngineView { config, ..e }, Seq::empty()),
        _ => {
            let (state, events) = match call {
                Call::Event { raw, value, app } => on_event(e.config, e.state, raw, value, app),
                Call::Sync => synced_to_held(e.state),
                Call::Clear => cleared(e.state),
                _ => flushed(e.state),
            };
            (EngineView { state, ..e }, events)
        },
    }
}

/// What a list of calls makes of the engine, and all the events they return.
pub open spec fn called_all(e: EngineView, calls: Seq<Call>) -> (EngineView, Seq<OutEvent>)
    decreases calls.len(),
{
    if calls.len() == 0 {
        (e, Seq::empty())
    } else {
        let (mid, before) = called_all(e, calls.drop_last());
        let (end, events) = called(mid, calls.last());
        (end, before + events)
    }
}

/// The values press and release in turn, starting with a press.
pub open spec fn alternate(values: Seq<i32>) -> bool {
    forall|i: int|
        0 <= i < values.len() ==> #[trigger] values[i] == if i % 2 == 0 {
            1int
        } else {
            0
        }
}

proof fn lemma_turns_alternate(values: Seq<i32>, to: bool)
    requires
        turns(false, values, to),
    ensures
        alternate(values),
        to == (values.len() % 2 == 1),
    decreases values.len(),
{
    if values.len() > 0 {
        let init = values.drop_last();
        lemma_turns_alternate(init, !to);
        assert forall|i: int| 0 <= i < values.len() implies #[trigger] values[i] == if i % 2 == 0 {
            1int
        } else {
            0
        } by {
            if i < init.len() {
                assert(values[i] == init[i]);
            }
        }
    }
}

proof fn lemma_fair_calls(config: ConfigView, calls: Seq<Call>)
    requires
        config_drives(config, plain_keys()),
        forall|i: int|
            0 <= i < calls.len() ==> ((#[trigger] calls[i]) matches Call::Reload(c)
                ==> config_drives(c, plain_keys())),
    ensures
        ({
            let (end, events) = called_all(EngineView { config, state: initial_state() }, calls);
            &&& config_drives(end.config, plain_keys())
            &&& state_drives(end.state, plain_keys())
            &&& fair(Set::empty(), events, end.state.output)
        }),
    decreases calls.len(),
{
    let new = EngineView { config, state: initial_state() };
    if calls.len() == 0 {
        lemma_fair_nothing(Set::empty());
    } else {
        let init = calls.drop_last();
        assert forall|i: int| 0 <= i < init.len() implies ((#[trigger] init[i]) matches Call::Reload(
            c,
        ) ==> config_drives(c, plain_keys())) by {
            assert(init[i] == calls[i]);
        }
        lemma_fair_calls(config, init);
        let (mid, before) = called_all(new, init);
        let call = calls[calls.len() - 1];
        let (end, events) = called(mid, call);
        match call {
            Call::Event { raw, value, app } => {
                what_is_down_was_bound_or_pressed(
                    mid.config,
                    mid.state,
                    raw,
                    value,
                    app,
                    plain_keys(),
                );
                lemma_fair_event(mid.config, mid.state, raw, value, app);
            },
            Call::Sync => lemma_fair_switch(mid.state.output, real_only(mid.state.pressed)),
            Call::Clear => lemma_fair_switch(mid.state.output, Set::empty()),
            Call::Flush => {
                lemma_fair_switch(mid.state.output, real_only(hold_resolved(mid.state).pressed));
                lemma_fair_nothing(mid.state.output);
            },
            Call::Reload(_) => lemma_fair_nothing(mid.state.output),
        }
        lemma_fair_concat(Set::empty(), before, mid.state.output, events, end.state.output);
    }
}

/// No modifier is pressed while it is down or released while it is up: over all calls
/// of a new engine, what is emitted on the key a modifier is sent as is a press and a
/// release in turn, starting with a press. This needs that no binding and no tap drives
/// such a key as an ordinary key, in any configuration that is loaded.
pub proof fn modifier_keys_alternate(config: ConfigView, calls: Seq<Call>, m: Modifier)
    requires
        config_drives(config, plain_keys()),
        forall|i: int|
            0 <= i < calls.len() ==> ((#[trigger] calls[i]) matches Call::Reload(c)
                ==> config_drives(c, plain_keys())),
        m.spec_emit_key() is Some,
    ensures
        alternate(
            moves(
                called_all(EngineView { config, state: initial_state() }, calls).1,
                m.spec_emit_key()->0,
            ),
        ),
{
    lemma_fair_calls(config, calls);
    let (end, events) = called_all(EngineView { config, state: initial_state() }, calls);
    lemma_turns_alternate(moves(events, m.spec_emit_key()->0), end.state.output.contains(m));
}

// === Hyper ===

/// No event of the list moves a `Hyper` key.
pub open spec fn no_hyper(events: Seq<OutEvent>) -> bool {
    forall|i: int|
        0 <= i < events.len() ==> (#[trigger] events[i]).key.spec_modifier() != Some(
            Modifier::Hyper,
        )
}

proof fn lemma_no_hyper_concat(a: Seq<OutEvent>, b: Seq<OutEvent>)
    requires
        no_hyper(a),
        no_hyper(b),
    ensures
        no_hyper(a + b),
{
    assert forall|i: int| 0 <= i < (a + b).len() implies (#[trigger] (a
        + b)[i]).key.spec_modifier() != Some(Modifier::Hyper) by {
        if i < a.len() {
            assert((a + b)[i] == a[i]);
        } else {
            assert((a + b)[i] == b[i - a.len()]);
        }
    }
}

proof fn lemma_no_hyper_modifiers(mods: Seq<Modifier>, value: i32)
    ensures
        no_hyper(modifier_events(mods, value)),
    decreases mods.len(),
{
    if mods.len() > 0 {
        lemma_no_hyper_modifiers(mods.drop_last(), value);
        lemma_no_hyper_concat(
            modifier_events(mods.drop_last(), value),
            modifier_event(mods.last(), value),
        );
    }
}

/// Switching modifier sets never emits `Hyper`, whatever the sets hold.
pub proof fn switching_never_emits_hyper(from: Set<Modifier>, to: Set<Modifier>)
    ensures
        no_hyper(switch_events(from, to)),
{
    lemma_no_hyper_modifiers(in_order(from.difference(to)), 0);
    lemma_no_hyper_modifiers(in_order(to.difference(from)), 1);
    lemma_no_hyper_concat(
        modifier_events(in_order(from.difference(to)), 0),
        modifier_events(in_order(to.difference(from)), 1),
    );
}

proof fn lemma_no_hyper_chord(output: Set<Modifier>, combo: ComboView, add_shift: bool)
    requires
        not_hyper(combo.key),
    ensures
        no_hyper(chord_events(output, combo, add_shift)),
{
    let w = wanted(combo, add_shift);
    switching_never_emits_hyper(output, w);
    switching_never_emits_hyper(w, output);
    let tap = seq![press(combo.key), release(combo.key)];
    lemma_no_hyper_concat(switch_events(output, w), tap);
    lemma_no_hyper_concat(switch_events(output, w) + tap, switch_events(w, output));
}

proof fn lemma_no_hyper_steps(
    s: StateView,
    steps: Seq<StepView>,
    prev: Option<(Side, TileFraction)>,
    trigger: Key,
)
    requires
        steps_drive(steps, hyperless_keys()),
        not_hyper(trigger),
    ensures
        no_hyper(steps_run(s, steps, prev, trigger).1),
    decreases steps.len(),
{
    if steps.len() > 0 {
        assert(steps_drive(steps.drop_last(), hyperless_keys())) by {
            assert forall|i: int| 0 <= i < steps.drop_last().len() implies step_drives(
                #[trigger] steps.drop_last()[i],
            hyperless_keys(),
            ) by {
                assert(step_drives(steps[i], hyperless_keys()));
            }
        }
        lemma_no_hyper_steps(s, steps.drop_last(), prev, trigger);
        let (mid, before) = steps_run(s, steps.drop_last(), prev, trigger);
        let step = steps.last();
        assert(step_drives(step, hyperless_keys()));
        match step {
            StepView::Keys(combo) => lemma_no_hyper_chord(mid.output, combo, false),
            StepView::WithMark(combo) => lemma_no_hyper_chord(mid.output, combo, mid.mark),
            StepView::PassThrough => lemma_no_hyper_chord(
                mid.output,
                ComboView { modifiers: mid.pressed, key: trigger },
                false,
            ),
            _ => {},
        }
        lemma_no_hyper_concat(before, step_run(mid, step, prev, trigger).1);
    }
}

proof fn lemma_no_hyper_single(s: StateView, phys: Key, target: ComboView, add_shift: bool)
    requires
        not_hyper(target.key),
    ensures
        no_hyper(single_pressed(s, phys, target, add_shift).1),
{
    if one_shot(target) {
        lemma_no_hyper_chord(s.output, target, add_shift);
    } else {
        let a = switch_events(s.output, wanted(target, add_shift));
        switching_never_emits_hyper(s.output, wanted(target, add_shift));
        lemma_no_hyper_concat(a, seq![press(target.key)]);
        assert(a.push(press(target.key)) =~= a + seq![press(target.key)]);
    }
}

/// The synthetic `Hyper` modifier is internal: no event ever moves a `Hyper` key.
/// This needs that no binding drives a `Hyper` key as an ordinary key.
pub proof fn hyper_is_never_emitted(
    config: ConfigView,
    s: StateView,
    raw: Key,
    value: i32,
    app: Seq<char>,
)
    requires
        config_drives(config, hyperless_keys()),
        state_drives(s, hyperless_keys()),
    ensures
        no_hyper(on_event(config, s, raw, value, app).1),
        state_drives(on_event(config, s, raw, value, app).0, hyperless_keys()),
{
    what_is_down_was_bound_or_pressed(config, s, raw, value, app, hyperless_keys());
    let key = route(config, s, raw, value);
    let s = routed(s, raw, key, value);
    assert(state_drives(s, hyperless_keys()));
    if value == 0 && s.pending is Some && s.pending->0.src == raw {
        let p = s.pending->0;
        if p.resolved_hold {
            switching_never_emits_hyper(s.output, real_only(s.pressed.remove(p.hold)));
        } else {
            lemma_no_hyper_chord(
                s.output,
                ComboView { modifiers: s.pressed, key: p.tap },
                false,
            );
        }
    } else if value == 1 && tap_hold_of(config.multipurpose, app, raw) is Some {
    } else if key.spec_modifier() is Some {
        let m = key.spec_modifier()->0;
        switching_never_emits_hyper(s.output, real_only(s.pressed.remove(m)));
        switching_never_emits_hyper(s.output, real_only(hold_resolved(s).pressed.insert(m)));
    } else if value == 0 {
        if s.held.contains_key(key) {
            let chord = s.held[key];
            switching_never_emits_hyper(s.output, chord.resting);
            lemma_no_hyper_concat(
                seq![release(chord.target)],
                switch_events(s.output, chord.resting),
            );
        }
    } else {
        let s2 = hold_resolved(s);
        if value != 2 {
            let combo = ComboView { modifiers: s2.pressed, key };
            lemma_binding_drives(config.keymaps, app, combo, hyperless_keys());
            match binding_of(config.keymaps, app, combo) {
                Some(steps) => {
                    if steps.len() == 1 && steps[0] is Window && steps[0]->Window_0 is Adjust {
                    } else if steps.len() == 1 && steps[0] is Keys {
                        assert(step_drives(steps[0], hyperless_keys()));
                        lemma_no_hyper_single(s2, key, steps[0]->Keys_0, false);
                    } else if steps.len() == 1 && steps[0] is WithMark {
                        assert(step_drives(steps[0], hyperless_keys()));
                        lemma_no_hyper_single(s2, key, steps[0]->WithMark_0, s2.mark);
                    } else {
                        lemma_no_hyper_steps(
                            StateView { tile: None, ..s2 },
                            steps,
                            s2.tile,
                            key,
                        );
                    }
                },
                None => {
                    let a = switch_events(s.output, real_only(s2.pressed));
                    switching_never_emits_hyper(s.output, real_only(s2.pressed));
                    lemma_no_hyper_concat(a, seq![press(key)]);
                    assert(a.push(press(key)) =~= a + seq![press(key)]);
                },
            }
        }
    }
}

// === Calls that undo or repeat each other ===

proof fn lemma_switch_nowhere(mods: Set<Modifier>)
    ensures
        switch_events(mods, mods) == Seq::<OutEvent>::empty(),
{
    assert(mods.difference(mods) =~= Set::empty());
    assert(in_order(Set::<Modifier>::empty()) =~= Seq::empty());
    assert(switch_events(mods, mods) =~= Seq::<OutEvent>::empty());
}

/// Once the held modifiers are live at the OS, syncing them again does nothing.
pub proof fn syncing_twice_is_a_no_op(s: StateView)
    ensures
        synced_to_held(synced_to_held(s).0) == (synced_to_held(s).0, Seq::<OutEvent>::empty()),
{
    lemma_switch_nowhere(real_only(s.pressed));
}

/// The physical key is a modifier as far as the engine knows: it stands for one, or it is
/// the source of a pending tap-hold.
pub open spec fn drives_a_modifier(config: ConfigView, s: StateView, raw: Key) -> bool {
    route(config, s, raw, 0).spec_modifier() is Some || (s.pending matches Some(p) && p.src == raw)
}

/// After every modifier has been cleared, clearing again does nothing, and the physical
/// release of a key that held one emits nothing and holds nothing, whatever tap-hold is
/// pending; only of a tap-hold that is itself undecided is the release a tap.
pub proof fn clearing_forgets_the_modifiers(config: ConfigView, s: StateView, raw: Key, app: Seq<char>)
    requires
        drives_a_modifier(config, s, raw),
        !(undecided(s) && s.pending->0.src == raw),
    ensures
        cleared(cleared(s).0) == (cleared(s).0, Seq::<OutEvent>::empty()),
        on_event(config, cleared(s).0, raw, 0, app) == (
            StateView {
                routes: s.routes.remove(raw),
                pending: if s.pending is Some && s.pending->0.src == raw {
                    None
                } else {
                    s.pending
                },
                ..cleared(s).0
            },
            Seq::<OutEvent>::empty(),
        ),
{
    lemma_switch_nowhere(Set::empty());
    assert(real_only(Set::<Modifier>::empty()) =~= Set::empty());
    if s.pending is Some && s.pending->0.src == raw {
        assert(Set::<Modifier>::empty().remove(s.pending->0.hold) =~= Set::empty());
    } else {
        let m = route(config, s, raw, 0).spec_modifier()->0;
        assert(Set::<Modifier>::empty().remove(m) =~= Set::empty());
    }
}

/// A flush commits the pending key; a second flush does nothing.
pub proof fn flushing_twice_is_a_no_op(s: StateView)
    ensures
        !undecided(flushed(s).0),
        flushed(flushed(s).0) == (flushed(s).0, Seq::<OutEvent>::empty()),
{
}

/// A chord that is emitted in one go leaves the state as it was, but for the
/// smart-tile chain that it breaks.
pub proof fn one_shots_leave_no_trace(s: StateView, phys: Key, target: ComboView, add_shift: bool)
    requires
        one_shot(target),
    ensures
        single_pressed(s, phys, target, add_shift).0 == (StateView { tile: None, ..s }),
{
}

/// A combo with `Shift` added.
pub open spec fn shifted(combo: ComboView) -> ComboView {
    ComboView { modifiers: combo.modifiers.insert(Modifier::Shift), ..combo }
}

/// Selections: a selection is on from where it is started to where it is cleared,
/// and while it is on, a combo that extends it acts as the same combo with `Shift`.
/// Bound alone to a trigger, a combo of a function key is excepted: it stays held for
/// auto-repeat where the one with `Shift` is pressed and released at once.
pub proof fn selections_extend_with_shift(
    s: StateView,
    phys: Key,
    combo: ComboView,
    prev: Option<(Side, TileFraction)>,
    trigger: Key,
)
    ensures
        forall|on: bool| #[trigger]
            step_run(s, StepView::SetMark(on), prev, trigger) == (
                StateView { mark: on, ..s },
                Seq::<OutEvent>::empty(),
            ),
        step_run(s, StepView::WithMark(combo), prev, trigger) == step_run(
            s,
            StepView::Keys(
                if s.mark {
                    shifted(combo)
                } else {
                    combo
                },
            ),
            prev,
            trigger,
        ),
        !combo.key.spec_function_key() ==> binding_pressed(
            s,
            phys,
            seq![StepView::WithMark(combo)],
            trigger,
        ) == binding_pressed(
            s,
            phys,
            seq![
                StepView::Keys(
                    if s.mark {
                        shifted(combo)
                    } else {
                        combo
                    },
                ),
            ],
            trigger,
        ),
{
    assert(wanted(combo, true) =~= wanted(shifted(combo), false));
    assert(shifted(combo).modifiers.contains(Modifier::Super) == combo.modifiers.contains(
        Modifier::Super,
    ));
}

/// Only the press of a bound key starts or clears a selection.
pub proof fn selections_stay(
    config: ConfigView,
    s: StateView,
    raw: Key,
    value: i32,
    app: Seq<char>,
)
    requires
        value == 0 || value == 2 || binding_of(
            config.keymaps,
            app,
            ComboView { modifiers: hold_resolved(s).pressed, key: mapped(config.modmap, raw) },
        ) is None,
    ensures
        on_event(config, s, raw, value, app).0.mark == s.mark,
{
}

/// A physical key is down.
pub open spec fn is_down(s: StateView, raw: Key) -> bool {
    s.routes.contains_key(raw)
}

/// A key that goes down or repeats is down, until it is released: no event of another
/// key changes what it stands for, and neither does a call that moves modifiers.
pub proof fn keys_stay_down_until_released(
    config: ConfigView,
    s: StateView,
    raw: Key,
    value: i32,
    app: Seq<char>,
    other: Key,
)
    requires
        other != raw,
    ensures
        is_down(on_event(config, s, raw, value, app).0, raw) == (value != 0),
        is_down(on_event(config, s, other, value, app).0, raw) == is_down(s, raw),
        is_down(s, raw) ==> on_event(config, s, other, value, app).0.routes[raw] == s.routes[raw],
        synced_to_held(s).0.routes == s.routes,
        cleared(s).0.routes == s.routes,
        flushed(s).0.routes == s.routes,
{
    lemma_routes(config, s, raw, value, app);
    lemma_routes(config, s, other, value, app);
}

/// An event changes the routes by its own key alone.
proof fn lemma_routes(config: ConfigView, s: StateView, raw: Key, value: i32, app: Seq<char>)
    ensures
        on_event(config, s, raw, value, app).0.routes == routed(
            s,
            raw,
            route(config, s, raw, value),
            value,
        ).routes,
{
    let key = route(config, s, raw, value);
    let s2 = hold_resolved(routed(s, raw, key, value));
    let combo = ComboView { modifiers: s2.pressed, key };
    if let Some(steps) = binding_of(config.keymaps, app, combo) {
        lemma_steps_keep_routes(StateView { tile: None, ..s2 }, steps, s2.tile, key);
    }
}

proof fn lemma_steps_keep_routes(
    s: StateView,
    steps: Seq<StepView>,
    prev: Option<(Side, TileFraction)>,
    trigger: Key,
)
    ensures
        steps_run(s, steps, prev, trigger).0.routes == s.routes,
    decreases steps.len(),
{
    if steps.len() > 0 {
        lemma_steps_keep_routes(s, steps.drop_last(), prev, trigger);
        let mid = steps_run(s, steps.drop_last(), prev, trigger).0;
        assert(step_run(mid, steps.last(), prev, trigger).0.routes == mid.routes);
    }
}

/// A reload strands no key that is down: whatever the new configuration is, the key's
/// repeats and its release do what they would have done under the old one, and so does
/// a release that bypasses the engine.
pub proof fn reloading_strands_no_key(
    before: ConfigView,
    after: ConfigView,
    s: StateView,
    raw: Key,
    app: Seq<char>,
    now: Seq<char>,
)
    requires
        is_down(s, raw),
    ensures
        on_event(after, s, raw, 0, now) == on_event(before, s, raw, 0, app),
        on_event(after, s, raw, 2, now) == on_event(before, s, raw, 2, app),
        tracked_raw(after, s, raw, 0) == tracked_raw(before, s, raw, 0),
{
}

/// A key that nothing is bound to goes through as itself: its press emits the key
/// last, under exactly the real modifiers that are physically held, and its
/// release emits only its release.
pub proof fn unbound_keys_pass_through(
    config: ConfigView,
    s: StateView,
    raw: Key,
    app: Seq<char>,
)
    requires
        tap_hold_of(config.multipurpose, app, raw) is None,
        !(s.pending is Some && s.pending->0.src == raw),
        mapped(config.modmap, raw).spec_modifier() is None,
        !s.held.contains_key(mapped(config.modmap, raw)),
        binding_of(
            config.keymaps,
            app,
            ComboView { modifiers: hold_resolved(s).pressed, key: mapped(config.modmap, raw) },
        ) is None,
    ensures
        ({
            let key = mapped(config.modmap, raw);
            let (s2, events) = on_event(config, s, raw, 1, app);
            &&& events == switch_events(s.output, real_only(hold_resolved(s).pressed)).push(
                press(key),
            )
            &&& s2.output == real_only(s2.pressed)
            &&& on_event(config, s2, raw, 2, app) == if s2.held_window.contains_key(key) {
                key_repeated(s2, key)
            } else {
                (s2, seq![repeat(key)])
            }
            &&& on_event(config, s2, raw, 0, app).1 == seq![release(key)]
        }),
{
    let key = mapped(config.modmap, raw);
    let s2 = on_event(config, s, raw, 1, app).0;
    assert(s2.routes.insert(raw, key) =~= s2.routes);
}

/// A single combo that is not a one-shot is held with its key: the press puts the
/// OS modifiers to exactly what the combo needs, each repeat repeats its key, and
/// the release lifts it and restores the real modifiers that were held when it
/// was pressed.
pub proof fn single_combos_hold_and_repeat(
    config: ConfigView,
    s: StateView,
    raw: Key,
    app: Seq<char>,
    target: ComboView,
)
    requires
        s.pending is None,
        tap_hold_of(config.multipurpose, app, raw) is None,
        mapped(config.modmap, raw).spec_modifier() is None,
        binding_of(
            config.keymaps,
            app,
            ComboView { modifiers: s.pressed, key: mapped(config.modmap, raw) },
        ) == Some(seq![StepView::Keys(target)]),
        !one_shot(target),
    ensures
        ({
            let (s2, events) = on_event(config, s, raw, 1, app);
            let (s3, more) = on_event(config, s2, raw, 2, app);
            let (s4, last) = on_event(config, s2, raw, 0, app);
            &&& events == switch_events(s.output, real_only(target.modifiers)).push(
                press(target.key),
            )
            &&& s2.output == real_only(target.modifiers)
            &&& s3 == s2
            &&& more == seq![repeat(target.key)]
            &&& last == seq![release(target.key)] + switch_events(
                real_only(target.modifiers),
                real_only(s.pressed),
            )
            &&& s4.output == real_only(s4.pressed)
        }),
{
    let s2 = on_event(config, s, raw, 1, app).0;
    assert(s2.routes.insert(raw, mapped(config.modmap, raw)) =~= s2.routes);
}

/// A tap-hold key released with nothing in between emits its tap, with the
/// modifiers that are held, and leaves the state as it was.
pub proof fn tap_hold_taps_alone(config: ConfigView, s: StateView, raw: Key, app: Seq<char>)
    requires
        s.pending is None,
        !is_down(s, raw),
        tap_hold_of(config.multipurpose, app, raw) is Some,
    ensures
        ({
            let (tap, hold) = tap_hold_of(config.multipurpose, app, raw)->0;
            let (s2, events) = on_event(config, s, raw, 1, app);
            &&& events == Seq::<OutEvent>::empty()
            &&& undecided(s2)
            &&& on_event(config, s2, raw, 0, app) == (
                s,
                chord_events(s.output, ComboView { modifiers: s.pressed, key: tap }, false),
            )
        }),
{
    let key = mapped(config.modmap, raw);
    assert(s.routes.insert(raw, key).remove(raw) =~= s.routes);
}

/// A tap-hold key that is held, until another key comes or until the timeout
/// commits it, acts as its modifier from then on, and its release lifts it.
pub proof fn tap_hold_holds(config: ConfigView, s: StateView, raw: Key, app: Seq<char>, other: Key)
    requires
        s.pending is None,
        tap_hold_of(config.multipurpose, app, raw) is Some,
        tap_hold_of(config.multipurpose, app, other) is None,
        mapped(config.modmap, other).spec_modifier() is None,
    ensures
        ({
            let (tap, hold) = tap_hold_of(config.multipurpose, app, raw)->0;
            let s2 = on_event(config, s, raw, 1, app).0;
            let (flush, events) = flushed(s2);
            &&& flush.pressed == s.pressed.insert(hold)
            &&& flush.output == real_only(s.pressed.insert(hold))
            &&& events == switch_events(s.output, real_only(s.pressed.insert(hold)))
            &&& on_event(config, flush, raw, 0, app).0.pressed == s.pressed.remove(hold)
            &&& on_event(config, s2, other, 1, app).0.pressed == s.pressed.insert(hold)
            &&& !undecided(on_event(config, s2, other, 1, app).0)
        }),
{
    let (tap, hold) = tap_hold_of(config.multipurpose, app, raw)->0;
    assert(s.pressed.insert(hold).remove(hold) =~= s.pressed.remove(hold));
    let s2 = on_event(config, s, raw, 1, app).0;
    let key = mapped(config.modmap, other);
    let s3 = hold_resolved(routed(s2, other, key, 1));
    match binding_of(config.keymaps, app, ComboView { modifiers: s3.pressed, key }) {
        Some(steps) => lemma_binding_keeps(s3, key, steps, key),
        None => {},
    }
}

/// A binding never changes which modifiers are physically held, nor what is
/// pending.
proof fn lemma_binding_keeps(s: StateView, phys: Key, steps: Seq<StepView>, trigger: Key)
    ensures
        binding_pressed(s, phys, steps, trigger).0.pressed == s.pressed,
        binding_pressed(s, phys, steps, trigger).0.pending == s.pending,
{
    lemma_steps_keep(StateView { tile: None, ..s }, steps, s.tile, trigger);
}

proof fn lemma_steps_keep(
    s: StateView,
    steps: Seq<StepView>,
    prev: Option<(Side, TileFraction)>,
    trigger: Key,
)
    ensures
        steps_run(s, steps, prev, trigger).0.pressed == s.pressed,
        steps_run(s, steps, prev, trigger).0.output == s.output,
        steps_run(s, steps, prev, trigger).0.pending == s.pending,
        steps_run(s, steps, prev, trigger).0.held == s.held,
        steps_run(s, steps, prev, trigger).0.passthrough == s.passthrough,
    decreases steps.len(),
{
    if steps.len() > 0 {
        lemma_steps_keep(s, steps.drop_last(), prev, trigger);
    }
}

/// A sequence of steps leaves every held key and every modifier as it found them,
/// at the OS and in the engine: a modifier held across several combos keeps
/// working.
pub proof fn sequences_keep_what_is_held(
    s: StateView,
    steps: Seq<StepView>,
    prev: Option<(Side, TileFraction)>,
    trigger: Key,
)
    ensures
        steps_run(s, steps, prev, trigger).0.pressed == s.pressed,
        steps_run(s, steps, prev, trigger).0.output == s.output,
        steps_run(s, steps, prev, trigger).0.held == s.held,
        steps_run(s, steps, prev, trigger).0.passthrough == s.passthrough,
{
    lemma_steps_keep(s, steps, prev, trigger);
}

/// A program launch or a window action bound to a key is recorded and emits no
/// key event.
pub proof fn side_effects_emit_no_keys(s: StateView, phys: Key, step: StepView, trigger: Key)
    requires
        step is Exec || step is Window,
    ensures
        binding_pressed(s, phys, seq![step], trigger).1 == Seq::<OutEvent>::empty(),
        binding_pressed(s, phys, seq![step], trigger).0.effects.len() == s.effects.len() + 1,
        step matches StepView::Exec(program) ==> binding_pressed(
            s,
            phys,
            seq![step],
            trigger,
        ).0.effects == s.effects.push(EffectView::Launch(program)),
{
    let steps = seq![step];
    assert(steps.drop_last() =~= Seq::empty());
    reveal_with_fuel(steps_run, 2);
    assert(binding_pressed(s, phys, steps, trigger).1 =~= Seq::<OutEvent>::empty());
}

/// A lone window move fires on the press and on every auto-repeat until its key is
/// released; after that a stray repeat does nothing.
pub proof fn window_moves_repeat_while_held(s: StateView, key: Key, action: WindowAction)
    requires
        action is Adjust,
        !s.held.contains_key(key),
        !s.passthrough.contains(key),
    ensures
        ({
            let (s2, events) = binding_pressed(s, key, seq![StepView::Window(action)], key);
            let (s3, more) = key_repeated(s2, key);
            let (s4, last) = key_released(s2, key);
            &&& events == Seq::<OutEvent>::empty()
            &&& s2.effects == s.effects.push(EffectView::Window(action))
            &&& more == Seq::<OutEvent>::empty()
            &&& s3.effects == s2.effects.push(EffectView::Window(action))
            &&& s3.held_window == s2.held_window
            &&& last == Seq::<OutEvent>::empty()
            &&& key_repeated(s4, key) == (s4, Seq::<OutEvent>::empty())
        }),
{
}

/// Tiling at an edge twice in a row takes the next size; tiling at another edge
/// starts again at a half.
pub proof fn smart_tiles_cycle(s: StateView, phys: Key, side: Side, trigger: Key, any: TileFraction)
    ensures
        ({
            let tile = StepView::Window(WindowAction::SmartTile { side, fraction: any });
            let (s2, events) = binding_pressed(s, phys, seq![tile], trigger);
            let size = tile_size(s.tile, side);
            &&& events == Seq::<OutEvent>::empty()
            &&& s2.tile == Some((side, size))
            &&& s2.effects == s.effects.push(
                EffectView::Window(WindowAction::SmartTile { side, fraction: size }),
            )
            &&& tile_size(s2.tile, side) == size.spec_next()
            &&& forall|other: Side| other != side ==> #[trigger] tile_size(s2.tile, other)
                == TileFraction::Half
        }),
{
    let steps = seq![StepView::Window(WindowAction::SmartTile { side, fraction: any })];
    assert(steps.drop_last() =~= Seq::empty());
    reveal_with_fuel(steps_run, 2);
    assert(binding_pressed(s, phys, steps, trigger).1 =~= Seq::<OutEvent>::empty());
}

/// A step that tiles at an edge.
pub open spec fn is_tile(step: StepView) -> bool {
    step is Window && step->Window_0 is SmartTile
}

/// Any binding that does not tile, and any unbound key, breaks the smart-tile
/// chain, so the next tile is a half.
pub proof fn other_keys_break_the_tile_chain(
    s: StateView,
    phys: Key,
    steps: Seq<StepView>,
    trigger: Key,
)
    requires
        forall|i: int| 0 <= i < steps.len() ==> !is_tile(#[trigger] steps[i]),
    ensures
        binding_pressed(s, phys, steps, trigger).0.tile is None,
        unbound_pressed(s, phys).0.tile is None,
{
    lemma_untiled_steps(StateView { tile: None, ..s }, steps, s.tile, trigger);
}

proof fn lemma_untiled_steps(
    s: StateView,
    steps: Seq<StepView>,
    prev: Option<(Side, TileFraction)>,
    trigger: Key,
)
    requires
        s.tile is None,
        forall|i: int| 0 <= i < steps.len() ==> !is_tile(#[trigger] steps[i]),
    ensures
        steps_run(s, steps, prev, trigger).0.tile is None,
    decreases steps.len(),
{
    if steps.len() > 0 {
        assert forall|i: int| 0 <= i < steps.drop_last().len() implies !is_tile(
            #[trigger] steps.drop_last()[i],
        ) by {
            assert(!is_tile(steps[i]));
        }
        assert(!is_tile(steps[steps.len() - 1]));
        lemma_untiled_steps(s, steps.drop_last(), prev, trigger);
    }
}

/// A modifier whose events bypass the engine is tracked all the same: held from its press
/// on, and from its release on neither held nor at the OS. The OS is taken to have what
/// is held, so that syncing emits nothing. Other keys, and repeats, move no modifier.
pub proof fn raw_events_are_tracked(config: ConfigView, s: StateView, raw: Key, value: i32)
    ensures
        ({
            let s2 = tracked_raw(config, s, raw, value);
            match route(config, s, raw, value).spec_modifier() {
                Some(m) if value != 2 => {
                    &&& s2.pressed == if value == 0 {
                        s.pressed.remove(m)
                    } else {
                        s.pressed.insert(m)
                    }
                    &&& value == 0 ==> !s2.pressed.contains(m) && !s2.output.contains(m)
                    &&& value != 0 ==> s2.pressed.contains(m)
                    &&& s2.output == real_only(s2.pressed)
                    &&& synced_to_held(s2) == (s2, Seq::<OutEvent>::empty())
                },
                _ => s2.pressed == s.pressed && s2.output == s.output,
            }
        }),
        value != 2 ==> is_down(tracked_raw(config, s, raw, value), raw) == (value != 0),
        value == 2 ==> tracked_raw(config, s, raw, value) == s,
{
    lemma_switch_nowhere(tracked_raw(config, s, raw, value).output);
}

/// A keymap that applies and binds a combo hides whatever later keymaps bind to
/// it.
pub proof fn earlier_keymaps_win(
    first: KeymapView,
    rest: Seq<KeymapView>,
    more: Seq<KeymapView>,
    app: Seq<char>,
    combo: ComboView,
)
    requires
        first.matcher.applies(app),
        first.bindings.contains_key(combo),
    ensures
        binding_of(seq![first] + rest, app, combo) == Some(first.bindings[combo]),
        binding_of(seq![first] + rest, app, combo) == binding_of(seq![first] + more, app, combo),
{
}

} // verus!
