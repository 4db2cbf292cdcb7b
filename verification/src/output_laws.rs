//! What the OS sees of the events the engine emits, told by replaying them over the keys
//! that are down.

use crate::actions::{EffectView, OutEvent, Side, StepView, TileFraction, WindowAction};
use crate::combo::{in_order, ComboView, Modifier};
use crate::engine_laws::{os_after, os_agrees, os_step, switching_reaches_the_target};
use crate::key::Key;
use crate::model::{
    chord_events, cleared, flushed, hold_resolved, initial_state, modifier_event, modifier_events,
    on_event, one_shot, real_only, routed, single_pressed, step_run, steps_run, switch_events,
    synced_to_held, undecided, wanted, StateView,
};
use crate::rules::{binding_of, mapped, tap_hold_of, ConfigView};
use vstd::prelude::*;

verus! {

// === Replaying ===

/// The OS holds exactly these modifiers to be down; `Hyper` it never sees.
pub open spec fn os_sees(down: Set<Key>, mods: Set<Modifier>) -> bool {
    &&& down.contains(Key::LeftAlt) == mods.contains(Modifier::Alt)
    &&& down.contains(Key::LeftCtrl) == mods.contains(Modifier::Control)
    &&& down.contains(Key::LeftShift) == mods.contains(Modifier::Shift)
    &&& down.contains(Key::LeftMeta) == mods.contains(Modifier::Super)
}

/// One of the four keys that modifiers are sent as.
pub open spec fn sent_as_modifier(key: Key) -> bool {
    key == Key::LeftAlt || key == Key::LeftCtrl || key == Key::LeftShift || key == Key::LeftMeta
}

/// The event number `i` is the only press of a key, and while it happens exactly these
/// modifiers are down.
pub open spec fn pressed_under(
    down: Set<Key>,
    events: Seq<OutEvent>,
    key: Key,
    mods: Set<Modifier>,
    i: int,
) -> bool {
    &&& 0 <= i < events.len()
    &&& events[i] == OutEvent { key, value: 1 }
    &&& os_sees(os_after(down, events.take(i)), mods)
    &&& forall|j: int|
        0 <= j < events.len() && (#[trigger] events[j]).key == key && j != i ==> events[j].value
            == 0
}

/// A key is pressed once, under exactly these modifiers, and released with the next event;
/// no other event moves it.
pub open spec fn tapped_under(
    down: Set<Key>,
    events: Seq<OutEvent>,
    key: Key,
    mods: Set<Modifier>,
    i: int,
) -> bool {
    &&& pressed_under(down, events, key, mods, i)
    &&& i + 1 < events.len()
    &&& events[i + 1] == OutEvent { key, value: 0 }
    &&& forall|j: int|
        0 <= j < events.len() && (#[trigger] events[j]).key == key ==> j == i || j == i + 1
}

/// Somewhere in the events a key is tapped under exactly these modifiers.
pub open spec fn taps(
    down: Set<Key>,
    events: Seq<OutEvent>,
    key: Key,
    mods: Set<Modifier>,
) -> bool {
    exists|i: int| tapped_under(down, events, key, mods, i)
}

/// Somewhere in the events a key is pressed under exactly these modifiers.
pub open spec fn presses(
    down: Set<Key>,
    events: Seq<OutEvent>,
    key: Key,
    mods: Set<Modifier>,
) -> bool {
    exists|i: int| pressed_under(down, events, key, mods, i)
}

/// The modifiers of a combo, and `Shift` with them where it is called for.
pub open spec fn with_shift(mods: Set<Modifier>, shift: bool) -> Set<Modifier> {
    if shift {
        mods.insert(Modifier::Shift)
    } else {
        mods
    }
}

/// Every event moves a modifier.
pub open spec fn only_modifiers(events: Seq<OutEvent>) -> bool {
    forall|j: int| 0 <= j < events.len() ==> sent_as_modifier((#[trigger] events[j]).key)
}

proof fn lemma_sees_is_agreement(down: Set<Key>, mods: Set<Modifier>)
    ensures
        os_sees(down, mods) == os_agrees(down, mods),
{
    assert(Modifier::Alt.spec_emit_key() == Some(Key::LeftAlt));
    assert(Modifier::Control.spec_emit_key() == Some(Key::LeftCtrl));
    assert(Modifier::Shift.spec_emit_key() == Some(Key::LeftShift));
    assert(Modifier::Super.spec_emit_key() == Some(Key::LeftMeta));
}

proof fn lemma_modifier_events_move_modifiers(mods: Seq<Modifier>, value: i32)
    ensures
        only_modifiers(modifier_events(mods, value)),
    decreases mods.len(),
{
    if mods.len() > 0 {
        lemma_modifier_events_move_modifiers(mods.drop_last(), value);
        let last = modifier_event(mods.last(), value);
        assert(only_modifiers(last));
    }
}

/// Switching modifier sets moves modifier keys alone, and brings the OS from the one set
/// to the other.
pub proof fn switches_are_seen(down: Set<Key>, from: Set<Modifier>, to: Set<Modifier>)
    requires
        os_sees(down, from),
    ensures
        os_sees(os_after(down, switch_events(from, to)), to),
        only_modifiers(switch_events(from, to)),
{
    lemma_sees_is_agreement(down, from);
    switching_reaches_the_target(down, from, to);
    lemma_sees_is_agreement(os_after(down, switch_events(from, to)), to);
    lemma_modifier_events_move_modifiers(in_order(from.difference(to)), 0);
    lemma_modifier_events_move_modifiers(in_order(to.difference(from)), 1);
}

/// Where a modifier's key stands among those that are moved.
pub open spec fn modifier_place(key: Key) -> int {
    if key == Key::LeftAlt {
        0
    } else if key == Key::LeftCtrl {
        1
    } else if key == Key::LeftShift {
        2
    } else {
        3
    }
}

/// Of two events of a switch, the first is a release where they differ, and stands for the
/// earlier modifier where they do not.
pub open spec fn moved_before(a: OutEvent, b: OutEvent) -> bool {
    (a.value == 0 && b.value == 1) || (a.value == b.value && modifier_place(a.key) < modifier_place(
        b.key,
    ))
}

/// A switch releases before it presses, each in the order Alt, Control, Shift, Super, and
/// moves each modifier once.
pub proof fn switches_release_before_they_press(from: Set<Modifier>, to: Set<Modifier>)
    ensures
        forall|i: int, j: int|
            0 <= i < j < switch_events(from, to).len() ==> #[trigger] moved_before(
                switch_events(from, to)[i],
                switch_events(from, to)[j],
            ),
{
    let (up, down) = (from.difference(to), to.difference(from));
    lemma_listed_in_order(up, 0);
    lemma_listed_in_order(down, 1);
    let a = modifier_events(in_order(up), 0);
    let b = modifier_events(in_order(down), 1);
    let all = switch_events(from, to);
    assert forall|i: int, j: int| 0 <= i < j < all.len() implies #[trigger] moved_before(
        all[i],
        all[j],
    ) by {
        if j < a.len() {
            assert(moved_before(a[i], a[j]));
        } else if i >= a.len() {
            assert(moved_before(b[i - a.len()], b[j - a.len()]));
        } else {
            assert(all[i] == a[i] && all[j] == b[j - a.len()]);
        }
    }
}

proof fn lemma_events_concat(a: Seq<Modifier>, b: Seq<Modifier>, value: i32)
    ensures
        modifier_events(a + b, value) == modifier_events(a, value) + modifier_events(b, value),
    decreases b.len(),
{
    if b.len() == 0 {
        assert(a + b =~= a);
        assert(modifier_events(a, value) + Seq::<OutEvent>::empty() =~= modifier_events(a, value));
    } else {
        assert((a + b).drop_last() =~= a + b.drop_last());
        assert((a + b).last() == b.last());
        lemma_events_concat(a, b.drop_last(), value);
        assert(modifier_events(a + b, value) =~= modifier_events(a, value) + modifier_events(
            b,
            value,
        ));
    }
}

/// The event of a modifier, if the set has it.
spec fn if_there(s: Set<Modifier>, m: Modifier, value: i32) -> Seq<OutEvent> {
    if s.contains(m) {
        modifier_event(m, value)
    } else {
        Seq::empty()
    }
}

proof fn lemma_one_if(s: Set<Modifier>, m: Modifier, value: i32)
    ensures
        modifier_events(crate::combo::one_if(s, m), value) == if_there(s, m, value),
{
    let one = seq![m];
    reveal_with_fuel(modifier_events, 2);
    assert(one.drop_last() =~= Seq::empty());
    assert(modifier_events(one, value) =~= modifier_event(m, value));
}

proof fn lemma_listed_in_order(s: Set<Modifier>, value: i32)
    requires
        value == 0 || value == 1,
    ensures
        ({
            let events = modifier_events(in_order(s), value);
            &&& forall|i: int| 0 <= i < events.len() ==> (#[trigger] events[i]).value == value
            &&& forall|i: int, j: int|
                0 <= i < j < events.len() ==> #[trigger] moved_before(events[i], events[j])
        }),
{
    let (a, c, h, t, u) = (
        crate::combo::one_if(s, Modifier::Alt),
        crate::combo::one_if(s, Modifier::Control),
        crate::combo::one_if(s, Modifier::Hyper),
        crate::combo::one_if(s, Modifier::Shift),
        crate::combo::one_if(s, Modifier::Super),
    );
    lemma_events_concat(a + c + h + t, u, value);
    lemma_events_concat(a + c + h, t, value);
    lemma_events_concat(a + c, h, value);
    lemma_events_concat(a, c, value);
    lemma_one_if(s, Modifier::Alt, value);
    lemma_one_if(s, Modifier::Control, value);
    lemma_one_if(s, Modifier::Hyper, value);
    lemma_one_if(s, Modifier::Shift, value);
    lemma_one_if(s, Modifier::Super, value);
    assert(if_there(s, Modifier::Hyper, value) =~= Seq::empty());
    let (ea, ec, et, eu) = (
        if_there(s, Modifier::Alt, value),
        if_there(s, Modifier::Control, value),
        if_there(s, Modifier::Shift, value),
        if_there(s, Modifier::Super, value),
    );
    let events = modifier_events(in_order(s), value);
    assert(events =~= ea + ec + et + eu);
    assert(ea.len() <= 1 && ec.len() <= 1 && et.len() <= 1 && eu.len() <= 1);
}

proof fn lemma_after_concat(down: Set<Key>, a: Seq<OutEvent>, b: Seq<OutEvent>)
    ensures
        os_after(down, a + b) == os_after(os_after(down, a), b),
    decreases b.len(),
{
    if b.len() == 0 {
        assert(a + b =~= a);
    } else {
        assert((a + b).drop_last() =~= a + b.drop_last());
        assert((a + b).last() == b.last());
        lemma_after_concat(down, a, b.drop_last());
    }
}

proof fn lemma_after_one(down: Set<Key>, event: OutEvent)
    ensures
        os_after(down, seq![event]) == os_step(down, event),
{
    reveal_with_fuel(os_after, 2);
    assert(seq![event].drop_last() =~= Seq::empty());
}

/// Events that move modifiers alone leave every other key as it is.
proof fn lemma_only_modifiers_move(down: Set<Key>, events: Seq<OutEvent>, key: Key)
    requires
        only_modifiers(events),
        !sent_as_modifier(key),
    ensures
        os_after(down, events).contains(key) == down.contains(key),
    decreases events.len(),
{
    if events.len() > 0 {
        assert(only_modifiers(events.drop_last())) by {
            assert forall|j: int| 0 <= j < events.drop_last().len() implies sent_as_modifier(
                (#[trigger] events.drop_last()[j]).key,
            ) by {
                assert(events.drop_last()[j] == events[j]);
            }
        }
        assert(sent_as_modifier(events[events.len() - 1].key));
        lemma_only_modifiers_move(down, events.drop_last(), key);
    }
}

/// A chord taps its key under exactly its modifiers and puts the OS back.
proof fn lemma_chord_is_seen(
    down: Set<Key>,
    output: Set<Modifier>,
    combo: ComboView,
    add_shift: bool,
)
    requires
        os_sees(down, output),
        !sent_as_modifier(combo.key),
    ensures
        taps(
            down,
            chord_events(output, combo, add_shift),
            combo.key,
            with_shift(combo.modifiers, add_shift),
        ),
        os_sees(os_after(down, chord_events(output, combo, add_shift)), output),
        !os_after(down, chord_events(output, combo, add_shift)).contains(combo.key),
{
    let events = chord_events(output, combo, add_shift);
    let mods = with_shift(combo.modifiers, add_shift);
    let w = wanted(combo, add_shift);
    let a = switch_events(output, w);
    let b = switch_events(w, output);
    let (p, r) = (OutEvent { key: combo.key, value: 1 }, OutEvent { key: combo.key, value: 0 });
    let i = a.len() as int;
    switches_are_seen(down, output, w);
    let mid = os_after(down, a);
    let end = os_step(os_step(mid, p), r);
    assert(events.take(i) =~= a);
    assert(os_sees(mid, mods));
    assert forall|j: int| 0 <= j < events.len() && (#[trigger] events[j]).key == combo.key implies j
        == i || j == i + 1 by {
        if j < i {
            assert(events[j] == a[j]);
        } else if j > i + 1 {
            assert(events[j] == b[j - i - 2]);
            lemma_modifier_events_move_modifiers(in_order(w.difference(output)), 0);
            lemma_modifier_events_move_modifiers(in_order(output.difference(w)), 1);
        }
    }
    assert(events[i] == p && events[i + 1] == r);
    assert(tapped_under(down, events, combo.key, mods, i));
    assert(events =~= a + (seq![p] + (seq![r] + b)));
    lemma_after_concat(down, a, seq![p] + (seq![r] + b));
    lemma_after_concat(mid, seq![p], seq![r] + b);
    lemma_after_one(mid, p);
    lemma_after_concat(os_step(mid, p), seq![r], b);
    lemma_after_one(os_step(mid, p), r);
    assert(os_sees(end, w));
    switches_are_seen(end, w, output);
    assert(os_after(down, events) == os_after(end, b));
    lemma_only_modifiers_move(end, b, combo.key);
}

// === Steps ===

/// The key a step is to tap and the modifiers to tap it under, by whether a selection is
/// on, which modifiers are physically held, and which key was pressed.
pub open spec fn tap_asked(step: StepView, mark: bool, held: Set<Modifier>, trigger: Key) -> Option<
    (Key, Set<Modifier>),
> {
    match step {
        StepView::Keys(combo) => Some((combo.key, combo.modifiers)),
        StepView::WithMark(combo) => Some((combo.key, with_shift(combo.modifiers, mark))),
        StepView::PassThrough => Some((trigger, held)),
        _ => None,
    }
}

/// The step taps no key that modifiers are sent as.
pub open spec fn taps_plain(step: StepView, trigger: Key) -> bool {
    tap_asked(step, false, Set::empty(), trigger) matches Some(t) ==> !sent_as_modifier(t.0)
}

/// The events, replayed, tap the key that a step asks for under exactly the modifiers it
/// asks for; there are none where it asks for no key.
pub open spec fn does_step(
    down: Set<Key>,
    step: StepView,
    mark: bool,
    held: Set<Modifier>,
    trigger: Key,
    events: Seq<OutEvent>,
) -> bool {
    match tap_asked(step, mark, held, trigger) {
        Some((key, mods)) => taps(down, events, key, mods),
        None => events.len() == 0,
    }
}

/// Whether a selection is on before the step number `j`, where it was `mark` before the
/// first.
pub open spec fn mark_before(mark: bool, steps: Seq<StepView>, j: int) -> bool
    decreases j,
{
    if j <= 0 {
        mark
    } else {
        match steps[j - 1] {
            StepView::SetMark(on) => on,
            _ => mark_before(mark, steps, j - 1),
        }
    }
}

/// The part of the events that is cut out for the step number `j` does what it asks for.
pub open spec fn does_part(
    down: Set<Key>,
    mark: bool,
    held: Set<Modifier>,
    trigger: Key,
    steps: Seq<StepView>,
    events: Seq<OutEvent>,
    cuts: Seq<int>,
    j: int,
) -> bool {
    &&& 0 <= cuts[j] <= cuts[j + 1] <= events.len()
    &&& does_step(
        os_after(down, events.take(cuts[j])),
        steps[j],
        mark_before(mark, steps, j),
        held,
        trigger,
        events.subrange(cuts[j], cuts[j + 1]),
    )
}

/// The events fall into parts, one for each step in order, cut at these numbers, and each
/// part does what its step asks for.
pub open spec fn does_steps(
    down: Set<Key>,
    mark: bool,
    held: Set<Modifier>,
    trigger: Key,
    steps: Seq<StepView>,
    events: Seq<OutEvent>,
    cuts: Seq<int>,
) -> bool {
    &&& cuts.len() == steps.len() + 1
    &&& cuts[0] == 0
    &&& cuts[steps.len() as int] == events.len()
    &&& forall|j: int|
        0 <= j < steps.len() ==> #[trigger] does_part(
            down,
            mark,
            held,
            trigger,
            steps,
            events,
            cuts,
            j,
        )
}

/// The events can be cut so that each part does what its step asks for.
pub open spec fn does_all(
    down: Set<Key>,
    mark: bool,
    held: Set<Modifier>,
    trigger: Key,
    steps: Seq<StepView>,
    events: Seq<OutEvent>,
) -> bool {
    exists|cuts: Seq<int>| does_steps(down, mark, held, trigger, steps, events, cuts)
}

/// A step of a sequence taps what it asks for, under exactly the modifiers it asks for
/// and none that happen to be down, and the OS has the same modifiers down afterwards as
/// before. A step that asks for no key emits nothing.
#[verifier::rlimit(50)]
pub proof fn steps_tap_what_they_ask_for(
    s: StateView,
    down: Set<Key>,
    step: StepView,
    prev: Option<(Side, TileFraction)>,
    trigger: Key,
)
    requires
        os_sees(down, s.output),
        taps_plain(step, trigger),
    ensures
        does_step(
            down,
            step,
            s.mark,
            s.pressed,
            trigger,
            step_run(s, step, prev, trigger).1,
        ),
        os_sees(os_after(down, step_run(s, step, prev, trigger).1), s.output),
        step_run(s, step, prev, trigger).0.mark == (if step is SetMark {
            step->SetMark_0
        } else {
            s.mark
        }),
{
    match step {
        StepView::Keys(combo) => lemma_chord_is_seen(down, s.output, combo, false),
        StepView::WithMark(combo) => lemma_chord_is_seen(down, s.output, combo, s.mark),
        StepView::PassThrough => lemma_chord_is_seen(
            down,
            s.output,
            ComboView { modifiers: s.pressed, key: trigger },
            false,
        ),
        StepView::SetMark(_) => {},
        StepView::Exec(_) => {},
        StepView::Window(_) => {},
    }
}

proof fn lemma_mark_before(mark: bool, steps: Seq<StepView>, j: int)
    requires
        0 <= j < steps.len(),
    ensures
        mark_before(mark, steps, j) == mark_before(mark, steps.drop_last(), j),
    decreases j,
{
    if j > 0 {
        assert(steps[j - 1] == steps.drop_last()[j - 1]);
        lemma_mark_before(mark, steps, j - 1);
    }
}

/// Where the parts of the events do the first steps, and more events do one step more, all
/// of them together do all the steps.
#[verifier::spinoff_prover]
#[verifier::rlimit(40)]
proof fn lemma_one_more_part(
    down: Set<Key>,
    mark: bool,
    held: Set<Modifier>,
    trigger: Key,
    steps: Seq<StepView>,
    before: Seq<OutEvent>,
    more: Seq<OutEvent>,
)
    requires
        steps.len() > 0,
        does_all(down, mark, held, trigger, steps.drop_last(), before),
        does_step(
            os_after(down, before),
            steps.last(),
            mark_before(mark, steps, steps.len() - 1),
            held,
            trigger,
            more,
        ),
    ensures
        does_all(down, mark, held, trigger, steps, before + more),
{
    let init = steps.drop_last();
    let events = before + more;
    let had = choose|cuts: Seq<int>| does_steps(down, mark, held, trigger, init, before, cuts);
    let cuts = had.push(events.len() as int);
    assert forall|j: int| 0 <= j < steps.len() implies #[trigger] does_part(
        down,
        mark,
        held,
        trigger,
        steps,
        events,
        cuts,
        j,
    ) by {
        if j < init.len() {
            assert(does_part(down, mark, held, trigger, init, before, had, j));
            assert(init[j] == steps[j]);
            assert(cuts[j] == had[j] && cuts[j + 1] == had[j + 1]);
            lemma_mark_before(mark, steps, j);
            assert(events.take(cuts[j]) =~= before.take(had[j]));
            assert(events.subrange(cuts[j], cuts[j + 1]) =~= before.subrange(had[j], had[j + 1]));
        } else {
            assert(cuts[j] == before.len());
            assert(events.take(cuts[j]) =~= before);
            assert(events.subrange(cuts[j], cuts[j + 1]) =~= more);
        }
    }
    assert(does_steps(down, mark, held, trigger, steps, events, cuts));
}

/// A sequence of steps does what each of them asks for, one after the other, and leaves
/// the OS with the modifiers it had.
#[verifier::rlimit(50)]
pub proof fn sequences_do_their_steps_in_order(
    s: StateView,
    down: Set<Key>,
    steps: Seq<StepView>,
    prev: Option<(Side, TileFraction)>,
    trigger: Key,
)
    requires
        os_sees(down, s.output),
        forall|j: int| 0 <= j < steps.len() ==> taps_plain(#[trigger] steps[j], trigger),
    ensures
        does_all(
            down,
            s.mark,
            s.pressed,
            trigger,
            steps,
            steps_run(s, steps, prev, trigger).1,
        ),
        os_sees(os_after(down, steps_run(s, steps, prev, trigger).1), s.output),
        steps_run(s, steps, prev, trigger).0.output == s.output,
        steps_run(s, steps, prev, trigger).0.pressed == s.pressed,
        steps_run(s, steps, prev, trigger).0.mark == mark_before(
            s.mark,
            steps,
            steps.len() as int,
        ),
    decreases steps.len(),
{
    if steps.len() == 0 {
        let events = steps_run(s, steps, prev, trigger).1;
        assert(does_steps(down, s.mark, s.pressed, trigger, steps, events, seq![0int]));
    } else {
        let init = steps.drop_last();
        let last = steps.last();
        assert forall|j: int| 0 <= j < init.len() implies taps_plain(
            #[trigger] init[j],
            trigger,
        ) by {
            assert(init[j] == steps[j]);
        }
        sequences_do_their_steps_in_order(s, down, init, prev, trigger);
        let (mid, before) = steps_run(s, init, prev, trigger);
        let more = step_run(mid, last, prev, trigger).1;
        assert(taps_plain(steps[steps.len() - 1], trigger));
        steps_tap_what_they_ask_for(mid, os_after(down, before), last, prev, trigger);
        lemma_after_concat(down, before, more);
        lemma_marks_agree(s.mark, steps);
        lemma_one_more_part(down, s.mark, s.pressed, trigger, steps, before, more);
        lemma_one_more_step(s, steps, prev, trigger);
    }
}

proof fn lemma_marks_agree(mark: bool, steps: Seq<StepView>)
    requires
        steps.len() > 0,
    ensures
        mark_before(mark, steps, steps.len() - 1) == mark_before(
            mark,
            steps.drop_last(),
            steps.len() - 1,
        ),
        mark_before(mark, steps, steps.len() as int) == (match steps.last() {
            StepView::SetMark(on) => on,
            _ => mark_before(mark, steps.drop_last(), steps.len() - 1),
        }),
{
    lemma_mark_before(mark, steps, steps.len() - 1);
}

#[verifier::spinoff_prover]
#[verifier::rlimit(40)]
proof fn lemma_one_more_step(
    s: StateView,
    steps: Seq<StepView>,
    prev: Option<(Side, TileFraction)>,
    trigger: Key,
)
    requires
        steps.len() > 0,
    ensures
        ({
            let (mid, before) = steps_run(s, steps.drop_last(), prev, trigger);
            let (end, more) = step_run(mid, steps.last(), prev, trigger);
            &&& steps_run(s, steps, prev, trigger) == (end, before + more)
            &&& end.output == mid.output && end.pressed == mid.pressed
        }),
{
}

proof fn lemma_concat(a: Seq<OutEvent>, b: Seq<OutEvent>, c: Seq<OutEvent>)
    ensures
        (a + b) + c == a + (b + c),
{
    assert((a + b) + c =~= a + (b + c));
}

/// Running two lists of steps one after the other is running both as one.
#[verifier::spinoff_prover]
#[verifier::rlimit(60)]
pub proof fn sequences_can_be_cut(
    s: StateView,
    a: Seq<StepView>,
    b: Seq<StepView>,
    prev: Option<(Side, TileFraction)>,
    trigger: Key,
)
    ensures
        ({
            let (mid, first) = steps_run(s, a, prev, trigger);
            let (end, rest) = steps_run(mid, b, prev, trigger);
            steps_run(s, a + b, prev, trigger) == (end, first + rest)
        }),
    decreases b.len(),
{
    let (mid, first) = steps_run(s, a, prev, trigger);
    if b.len() == 0 {
        assert(a + b =~= a);
        assert(first + Seq::<OutEvent>::empty() =~= first);
    } else {
        let init = b.drop_last();
        assert((a + b).drop_last() =~= a + init);
        assert((a + b).last() == b.last());
        sequences_can_be_cut(s, a, init, prev, trigger);
        let (near, rest) = steps_run(mid, init, prev, trigger);
        lemma_one_more_step(s, a + b, prev, trigger);
        lemma_one_more_step(mid, b, prev, trigger);
        lemma_concat(first, rest, step_run(near, b.last(), prev, trigger).1);
    }
}

/// A sequence of one step does that step.
#[verifier::rlimit(50)]
pub proof fn single_steps_are_sequences(
    s: StateView,
    step: StepView,
    prev: Option<(Side, TileFraction)>,
    trigger: Key,
)
    ensures
        steps_run(s, seq![step], prev, trigger) == step_run(s, step, prev, trigger),
{
    let one = seq![step];
    assert(one.drop_last() =~= Seq::empty());
    lemma_one_more_step(s, one, prev, trigger);
    assert(steps_run(s, Seq::empty(), prev, trigger) == (s, Seq::<OutEvent>::empty()));
    let events = step_run(s, step, prev, trigger).1;
    assert(Seq::<OutEvent>::empty() + events =~= events);
}

/// A step that launches a program or acts on a window asks for just that, once, after
/// what was asked for before; no other step asks for anything.
#[verifier::rlimit(50)]
pub proof fn steps_ask_for_what_they_name(
    s: StateView,
    step: StepView,
    prev: Option<(Side, TileFraction)>,
    trigger: Key,
)
    ensures
        ({
            let asked = step_run(s, step, prev, trigger).0.effects;
            match step {
                StepView::Exec(program) => asked == s.effects.push(EffectView::Launch(program)),
                StepView::Window(WindowAction::SmartTile { side, .. }) => {
                    &&& asked.len() == s.effects.len() + 1
                    &&& asked.drop_last() == s.effects
                    &&& asked.last() matches EffectView::Window(
                        WindowAction::SmartTile { side: at, .. },
                    ) && at == side
                },
                StepView::Window(action) => asked == s.effects.push(EffectView::Window(action)),
                _ => asked == s.effects,
            }
        }),
{
    assert(s.effects.push(EffectView::Launch(Seq::empty())).drop_last() =~= s.effects);
    match step {
        StepView::Window(WindowAction::SmartTile { side, fraction: _ }) => {
            let asked = step_run(s, step, prev, trigger).0.effects;
            assert(asked.drop_last() =~= s.effects);
        },
        _ => {},
    }
}

// === Bindings ===

/// The key that a press of `raw` stands for is bound, in this application and under the
/// modifiers that are held, to these steps.
pub open spec fn press_finds(
    config: ConfigView,
    s: StateView,
    raw: Key,
    app: Seq<char>,
    found: Option<Seq<StepView>>,
) -> bool {
    &&& tap_hold_of(config.multipurpose, app, raw) is None
    &&& mapped(config.modmap, raw).spec_modifier() is None
    &&& binding_of(
        config.keymaps,
        app,
        ComboView { modifiers: held_now(s), key: mapped(config.modmap, raw) },
    ) == found
}

/// The modifiers that are held when another key comes: those that are pressed, and the
/// one of a tap-hold key that is down and undecided.
pub open spec fn held_now(s: StateView) -> Set<Modifier> {
    match s.pending {
        Some(p) if !p.resolved_hold => s.pressed.insert(p.hold),
        _ => s.pressed,
    }
}

/// A binding that is run as a sequence: any but a single combo, which is held.
pub open spec fn runs_once(steps: Seq<StepView>) -> bool {
    steps.len() != 1 || !(steps[0] is Keys || steps[0] is WithMark)
}

/// The press of a key bound to several steps does each of them in order: what it emits
/// taps, step by step, the keys that the steps ask for under exactly the modifiers they
/// ask for, and the OS has the same modifiers down afterwards as before.
#[verifier::rlimit(50)]
pub proof fn bound_sequences_do_their_steps(
    config: ConfigView,
    s: StateView,
    down: Set<Key>,
    raw: Key,
    app: Seq<char>,
    steps: Seq<StepView>,
)
    requires
        os_sees(down, s.output),
        press_finds(config, s, raw, app, Some(steps)),
        runs_once(steps),
        forall|j: int|
            0 <= j < steps.len() ==> taps_plain(#[trigger] steps[j], mapped(config.modmap, raw)),
    ensures
        ({
            let (after, events) = on_event(config, s, raw, 1, app);
            let key = mapped(config.modmap, raw);
            &&& does_all(down, s.mark, held_now(s), key, steps, events)
            &&& os_sees(os_after(down, events), s.output)
            &&& after.output == s.output
            &&& after.pressed == held_now(s)
            &&& after.mark == mark_before(s.mark, steps, steps.len() as int)
        }),
{
    let key = mapped(config.modmap, raw);
    let s2 = hold_resolved(routed(s, raw, key, 1));
    assert(s2.pressed == held_now(s));
    if steps.len() == 1 && steps[0] is Window && steps[0]->Window_0 is Adjust {
        lemma_lone_move(config, s, raw, app, steps);
        let events = on_event(config, s, raw, 1, app).1;
        let cuts = seq![0int, 0int];
        assert(events.subrange(0, 0) =~= events);
        assert(does_part(down, s.mark, held_now(s), key, steps, events, cuts, 0));
        assert(does_steps(down, s.mark, held_now(s), key, steps, events, cuts));
        reveal_with_fuel(mark_before, 2);
    } else {
        sequences_do_their_steps_in_order(
            StateView { tile: None, ..s2 },
            down,
            steps,
            s2.tile,
            key,
        );
    }
}

#[verifier::rlimit(50)]
proof fn lemma_lone_move(
    config: ConfigView,
    s: StateView,
    raw: Key,
    app: Seq<char>,
    steps: Seq<StepView>,
)
    requires
        press_finds(config, s, raw, app, Some(steps)),
        steps.len() == 1 && steps[0] is Window && steps[0]->Window_0 is Adjust,
    ensures
        ({
            let key = mapped(config.modmap, raw);
            let (after, events) = on_event(config, s, raw, 1, app);
            let action = steps[0]->Window_0;
            &&& events.len() == 0
            &&& after.output == s.output && after.pressed == held_now(s) && after.mark == s.mark
            &&& after.effects == s.effects.push(EffectView::Window(action))
            &&& after.held_window == s.held_window.insert(key, action)
            &&& after.held == s.held && after.passthrough == s.passthrough
            &&& after.routes == s.routes.insert(raw, key)
            &&& after.pending == hold_resolved(s).pending
        }),
{
}

/// What is asked for by an effect is what a step names.
pub open spec fn asks_for(step: StepView, effect: EffectView) -> bool {
    match step {
        StepView::Exec(program) => effect == EffectView::Launch(program),
        StepView::Window(WindowAction::SmartTile { side, .. }) => effect matches EffectView::Window(
            WindowAction::SmartTile { side: at, .. },
        ) && at == side,
        StepView::Window(action) => effect == EffectView::Window(action),
        _ => false,
    }
}

/// The steps that launch a program or act on a window.
pub open spec fn asking(steps: Seq<StepView>) -> Seq<StepView> {
    steps.filter(|step: StepView| step is Exec || step is Window)
}

/// The effects behind the first `n` are those that these steps ask for, in order.
pub open spec fn asks_in_order(steps: Seq<StepView>, effects: Seq<EffectView>, n: nat) -> bool {
    &&& effects.len() == n + asking(steps).len()
    &&& forall|i: int|
        0 <= i < asking(steps).len() ==> asks_for(#[trigger] asking(steps)[i], effects[n + i])
}

#[verifier::rlimit(50)]
proof fn lemma_sequences_ask(
    s: StateView,
    steps: Seq<StepView>,
    prev: Option<(Side, TileFraction)>,
    trigger: Key,
)
    ensures
        asks_in_order(steps, steps_run(s, steps, prev, trigger).0.effects, s.effects.len()),
        s.effects.is_prefix_of(steps_run(s, steps, prev, trigger).0.effects),
    decreases steps.len(),
{
    reveal(Seq::filter);
    if steps.len() > 0 {
        let init = steps.drop_last();
        lemma_sequences_ask(s, init, prev, trigger);
        lemma_one_more_step(s, steps, prev, trigger);
        let mid = steps_run(s, init, prev, trigger).0;
        steps_ask_for_what_they_name(mid, steps.last(), prev, trigger);
        let after = steps_run(s, steps, prev, trigger).0.effects;
        if steps.last() is Exec || steps.last() is Window {
            assert(after.drop_last() =~= mid.effects);
        }
        lemma_one_more_asked(s.effects, steps, mid.effects, after);
    }
}

proof fn lemma_one_more_asked(
    first: Seq<EffectView>,
    steps: Seq<StepView>,
    mid: Seq<EffectView>,
    after: Seq<EffectView>,
)
    requires
        steps.len() > 0,
        asks_in_order(steps.drop_last(), mid, first.len()),
        first.is_prefix_of(mid),
        match steps.last() {
            StepView::Exec(_) | StepView::Window(_) => after.len() == mid.len() + 1
                && after.drop_last() == mid && asks_for(steps.last(), after.last()),
            _ => after == mid,
        },
    ensures
        asks_in_order(steps, after, first.len()),
        first.is_prefix_of(after),
{
    reveal(Seq::filter);
    let n = first.len();
    let before = asking(steps.drop_last());
    if steps.last() is Exec || steps.last() is Window {
        assert(asking(steps) == before.push(steps.last()));
        assert forall|i: int| 0 <= i < asking(steps).len() implies asks_for(
            #[trigger] asking(steps)[i],
            after[n + i],
        ) by {
            if i < before.len() {
                assert(asking(steps)[i] == before[i]);
                assert(after.drop_last()[n + i] == after[n + i]);
            }
        }
        assert forall|i: int| 0 <= i < first.len() implies first[i] == after[i] by {
            assert(after.drop_last()[i] == after[i]);
        }
    } else {
        assert(asking(steps) == before);
    }
}

/// The press of a bound key asks for what its steps name, in order, and for nothing else,
/// behind what was asked for before; a single combo asks for nothing.
#[verifier::rlimit(50)]
pub proof fn bindings_ask_for_what_they_name(
    config: ConfigView,
    s: StateView,
    raw: Key,
    app: Seq<char>,
    steps: Seq<StepView>,
)
    requires
        press_finds(config, s, raw, app, Some(steps)),
    ensures
        asks_in_order(steps, on_event(config, s, raw, 1, app).0.effects, s.effects.len()),
        s.effects.is_prefix_of(on_event(config, s, raw, 1, app).0.effects),
{
    reveal(Seq::filter);
    let key = mapped(config.modmap, raw);
    let s2 = hold_resolved(routed(s, raw, key, 1));
    if steps.len() == 1 {
        assert(steps.drop_last() =~= Seq::empty());
        assert(asking(Seq::empty()).len() == 0);
    }
    if steps.len() == 1 && steps[0] is Window && steps[0]->Window_0 is Adjust {
        lemma_lone_move(config, s, raw, app, steps);
        assert(asking(steps) == Seq::<StepView>::empty().push(steps[0]));
    } else if steps.len() == 1 && (steps[0] is Keys || steps[0] is WithMark) {
        assert(asking(steps).len() == 0);
    } else {
        lemma_sequences_ask(StateView { tile: None, ..s2 }, steps, s2.tile, key);
    }
}

/// A key that asks for one tile asks for a half at first, and pressed again, with no other
/// key in between, for a third, then for two thirds, then for a half again.
#[verifier::rlimit(50)]
pub proof fn tiles_go_half_third_two_thirds(
    config: ConfigView,
    s: StateView,
    raw: Key,
    app: Seq<char>,
    side: Side,
    any: TileFraction,
)
    requires
        press_finds(
            config,
            s,
            raw,
            app,
            Some(seq![StepView::Window(WindowAction::SmartTile { side, fraction: any })]),
        ),
    ensures
        ({
            let after = on_event(config, s, raw, 1, app).0;
            let fraction = if s.tile == Some((side, TileFraction::Half)) {
                TileFraction::Third
            } else if s.tile == Some((side, TileFraction::Third)) {
                TileFraction::TwoThirds
            } else {
                TileFraction::Half
            };
            &&& after.effects == s.effects.push(
                EffectView::Window(WindowAction::SmartTile { side, fraction }),
            )
            &&& after.tile == Some((side, fraction))
        }),
{
    let key = mapped(config.modmap, raw);
    let s2 = hold_resolved(routed(s, raw, key, 1));
    let step = StepView::Window(WindowAction::SmartTile { side, fraction: any });
    single_steps_are_sequences(StateView { tile: None, ..s2 }, step, s2.tile, key);
}

/// What was tiled last is remembered over releases, repeats and modifiers.
#[verifier::rlimit(50)]
pub proof fn tile_chains_outlast_releases(
    config: ConfigView,
    s: StateView,
    raw: Key,
    value: i32,
    app: Seq<char>,
)
    requires
        value == 0 || value == 2 || (mapped(config.modmap, raw).spec_modifier() is Some
            && tap_hold_of(config.multipurpose, app, raw) is None),
    ensures
        on_event(config, s, raw, value, app).0.tile == s.tile,
        on_event(config, s, raw, value, app).0.mark == s.mark,
{
}

/// A sequence is run once: while its key stays down nothing more is emitted or asked for,
/// and neither is when the key comes up.
#[verifier::rlimit(50)]
pub proof fn sequences_do_not_repeat(
    config: ConfigView,
    s: StateView,
    raw: Key,
    app: Seq<char>,
    steps: Seq<StepView>,
)
    requires
        press_finds(config, s, raw, app, Some(steps)),
        steps.len() != 1,
        !(s.pending matches Some(p) && p.src == raw),
        ({
            let key = mapped(config.modmap, raw);
            &&& !s.held.contains_key(key)
            &&& !s.held_window.contains_key(key)
            &&& !s.passthrough.contains(key)
        }),
    ensures
        ({
            let s2 = on_event(config, s, raw, 1, app).0;
            let (s3, more) = on_event(config, s2, raw, 2, app);
            let (s4, last) = on_event(config, s2, raw, 0, app);
            &&& more.len() == 0 && s3.effects == s2.effects
            &&& last.len() == 0 && s4.effects == s2.effects
        }),
{
    let key = mapped(config.modmap, raw);
    let s1 = hold_resolved(routed(s, raw, key, 1));
    lemma_sequences_hold_nothing(StateView { tile: None, ..s1 }, steps, s1.tile, key);
}

#[verifier::rlimit(50)]
proof fn lemma_sequences_hold_nothing(
    s: StateView,
    steps: Seq<StepView>,
    prev: Option<(Side, TileFraction)>,
    trigger: Key,
)
    ensures
        ({
            let after = steps_run(s, steps, prev, trigger).0;
            &&& after.held == s.held && after.held_window == s.held_window
            &&& after.passthrough == s.passthrough && after.routes == s.routes
            &&& after.pending == s.pending
        }),
    decreases steps.len(),
{
    if steps.len() > 0 {
        lemma_sequences_hold_nothing(s, steps.drop_last(), prev, trigger);
    }
}

/// A key bound to a lone move or resize asks for it with its press and again with every
/// repeat, and for nothing more once it is up.
#[verifier::rlimit(50)]
pub proof fn lone_moves_repeat(
    config: ConfigView,
    s: StateView,
    raw: Key,
    app: Seq<char>,
    action: WindowAction,
)
    requires
        press_finds(config, s, raw, app, Some(seq![StepView::Window(action)])),
        action is Adjust,
        !(s.pending matches Some(p) && p.src == raw),
        ({
            let key = mapped(config.modmap, raw);
            &&& !s.held.contains_key(key)
            &&& !s.passthrough.contains(key)
        }),
    ensures
        ({
            let (s2, events) = on_event(config, s, raw, 1, app);
            let (s3, more) = on_event(config, s2, raw, 2, app);
            let (s4, last) = on_event(config, s3, raw, 0, app);
            &&& events.len() == 0 && s2.effects == s.effects.push(EffectView::Window(action))
            &&& more.len() == 0 && s3.effects == s2.effects.push(EffectView::Window(action))
            &&& last.len() == 0 && s4.effects == s3.effects
            &&& !s4.held_window.contains_key(mapped(config.modmap, raw))
        }),
{
    let steps = seq![StepView::Window(action)];
    lemma_lone_move(config, s, raw, app, steps);
}

/// A chord that is let go at once: one with `Super`, and one of a modifier that the OS
/// sees with a function key.
pub open spec fn let_go_at_once(combo: ComboView) -> bool {
    combo.modifiers.contains(Modifier::Super) || (combo.key.spec_function_key() && (
    combo.modifiers.contains(Modifier::Alt) || combo.modifiers.contains(Modifier::Control)
        || combo.modifiers.contains(Modifier::Shift)))
}

proof fn lemma_one_shots(combo: ComboView)
    ensures
        one_shot(combo) == let_go_at_once(combo),
{
    let seen = real_only(combo.modifiers);
    assert(seen.contains(Modifier::Alt) == combo.modifiers.contains(Modifier::Alt));
    assert(seen.contains(Modifier::Control) == combo.modifiers.contains(Modifier::Control));
    assert(seen.contains(Modifier::Shift) == combo.modifiers.contains(Modifier::Shift));
    if !let_go_at_once(combo) && combo.key.spec_function_key() {
        assert forall|m: Modifier| !seen.contains(m) by {
            match m {
                Modifier::Alt => {},
                Modifier::Control => {},
                Modifier::Hyper => {},
                Modifier::Shift => {},
                Modifier::Super => {},
            }
        }
        assert(seen =~= Set::empty());
    }
}

/// A press that switches to some modifiers and then presses a key is seen as that.
proof fn lemma_press_is_seen(down: Set<Key>, from: Set<Modifier>, to: Set<Modifier>, key: Key)
    requires
        os_sees(down, from),
        !sent_as_modifier(key),
    ensures
        ({
            let events = switch_events(from, to).push(OutEvent { key, value: 1 });
            &&& presses(down, events, key, to)
            &&& os_after(down, events).contains(key)
            &&& os_sees(os_after(down, events), to)
        }),
{
    let a = switch_events(from, to);
    let p = OutEvent { key, value: 1 };
    let events = a.push(p);
    switches_are_seen(down, from, to);
    let i = a.len() as int;
    assert(events =~= a + seq![p]);
    assert(events.take(i) =~= a);
    assert forall|j: int|
        0 <= j < events.len() && (#[trigger] events[j]).key == key && j != i implies events[j].value
        == 0 by {
        assert(events[j] == a[j]);
    }
    assert(pressed_under(down, events, key, to, i));
    lemma_after_concat(down, a, seq![p]);
    lemma_after_one(os_after(down, a), p);
}

/// A release that lifts a key and then switches modifiers is seen as that.
proof fn lemma_release_is_seen(down: Set<Key>, from: Set<Modifier>, to: Set<Modifier>, key: Key)
    requires
        os_sees(down, from),
        !sent_as_modifier(key),
    ensures
        ({
            let events = seq![OutEvent { key, value: 0 }] + switch_events(from, to);
            &&& !os_after(down, events).contains(key)
            &&& os_sees(os_after(down, events), to)
        }),
{
    let up = OutEvent { key, value: 0 };
    let rest = switch_events(from, to);
    lemma_after_concat(down, seq![up], rest);
    lemma_after_one(down, up);
    let lifted = os_step(down, up);
    switches_are_seen(lifted, from, to);
    lemma_only_modifiers_move(lifted, rest, key);
}

proof fn lemma_presses_without_hyper(
    down: Set<Key>,
    events: Seq<OutEvent>,
    key: Key,
    combo: ComboView,
    shift: bool,
)
    requires
        presses(down, events, key, wanted(combo, shift)),
    ensures
        presses(down, events, key, with_shift(combo.modifiers, shift)),
{
    let i = choose|i: int| pressed_under(down, events, key, wanted(combo, shift), i);
    assert(pressed_under(down, events, key, with_shift(combo.modifiers, shift), i));
}

/// The press of a key bound to a single combo presses the combo's key once, under exactly
/// the combo's modifiers, with `Shift` added where the combo extends a selection that is
/// on. A shortcut chord is let go at once and the OS has the modifiers it had; any other
/// stays down.
#[verifier::rlimit(50)]
pub proof fn bound_combos_are_pressed_as_bound(
    config: ConfigView,
    s: StateView,
    down: Set<Key>,
    raw: Key,
    app: Seq<char>,
    step: StepView,
    combo: ComboView,
)
    requires
        os_sees(down, s.output),
        step == StepView::Keys(combo) || step == StepView::WithMark(combo),
        press_finds(config, s, raw, app, Some(seq![step])),
        !sent_as_modifier(combo.key),
    ensures
        ({
            let events = on_event(config, s, raw, 1, app).1;
            let mods = with_shift(combo.modifiers, step is WithMark && s.mark);
            let then = os_after(down, events);
            &&& presses(down, events, combo.key, mods)
            &&& then.contains(combo.key) == !let_go_at_once(combo)
            &&& let_go_at_once(combo) ==> taps(down, events, combo.key, mods)
            &&& os_sees(
                then,
                if let_go_at_once(combo) {
                    s.output
                } else {
                    mods
                },
            )
        }),
{
    let shift = step is WithMark && s.mark;
    lemma_single_press(config, s, raw, app, step, combo);
    lemma_one_shots(combo);
    let events = on_event(config, s, raw, 1, app).1;
    if let_go_at_once(combo) {
        lemma_chord_is_seen(down, s.output, combo, shift);
        let mods = with_shift(combo.modifiers, shift);
        let i = choose|i: int| tapped_under(down, events, combo.key, mods, i);
        assert(pressed_under(down, events, combo.key, mods, i));
    } else {
        lemma_press_is_seen(down, s.output, wanted(combo, shift), combo.key);
        lemma_presses_without_hyper(down, events, combo.key, combo, shift);
    }
}

/// What a press bound to a single combo does to the state and emits.
#[verifier::rlimit(50)]
proof fn lemma_single_press(
    config: ConfigView,
    s: StateView,
    raw: Key,
    app: Seq<char>,
    step: StepView,
    combo: ComboView,
)
    requires
        step == StepView::Keys(combo) || step == StepView::WithMark(combo),
        press_finds(config, s, raw, app, Some(seq![step])),
    ensures
        on_event(config, s, raw, 1, app) == single_pressed(
            hold_resolved(routed(s, raw, mapped(config.modmap, raw), 1)),
            mapped(config.modmap, raw),
            combo,
            step is WithMark && s.mark,
        ),
{
    let steps = seq![step];
    assert(steps.len() == 1 && steps[0] == step);
}

/// A key bound to a combo that stays down repeats the combo's key as it repeats itself,
/// and when it is released the combo's key is up and the OS has exactly the modifiers that
/// are physically held.
#[verifier::rlimit(50)]
pub proof fn held_combos_are_let_go(
    config: ConfigView,
    s: StateView,
    down: Set<Key>,
    raw: Key,
    app: Seq<char>,
    step: StepView,
    combo: ComboView,
)
    requires
        os_sees(down, s.output),
        step == StepView::Keys(combo) || step == StepView::WithMark(combo),
        press_finds(config, s, raw, app, Some(seq![step])),
        !(s.pending matches Some(p) && p.src == raw),
        !sent_as_modifier(combo.key),
        !let_go_at_once(combo),
    ensures
        ({
            let (s2, events) = on_event(config, s, raw, 1, app);
            let then = os_after(down, events);
            let (s3, last) = on_event(config, s2, raw, 0, app);
            &&& on_event(config, s2, raw, 2, app).1 == seq![OutEvent { key: combo.key, value: 2 }]
            &&& !os_after(then, last).contains(combo.key)
            &&& os_sees(os_after(then, last), held_now(s))
            &&& s3.pressed == held_now(s)
        }),
{
    let key = mapped(config.modmap, raw);
    let shift = step is WithMark && s.mark;
    lemma_single_press(config, s, raw, app, step, combo);
    lemma_one_shots(combo);
    let w = wanted(combo, shift);
    let rest = real_only(held_now(s));
    let (s2, events) = on_event(config, s, raw, 1, app);
    lemma_press_is_seen(down, s.output, w, combo.key);
    let then = os_after(down, events);
    assert(s2.output == w);
    assert(s2.held.contains_key(key) && s2.held[key].target == combo.key && s2.held[key].resting
        == rest);
    assert(s2.routes.contains_key(raw) && s2.routes[raw] == key);
    let (s3, last) = on_event(config, s2, raw, 0, app);
    assert(last == seq![OutEvent { key: combo.key, value: 0 }] + switch_events(w, rest));
    lemma_release_is_seen(then, w, rest, combo.key);
}

/// A key that nothing is bound to is pressed under exactly the modifiers that are
/// physically held, whatever the OS had, and stays down until it is released.
#[verifier::rlimit(50)]
pub proof fn unbound_keys_are_pressed_as_they_are(
    config: ConfigView,
    s: StateView,
    down: Set<Key>,
    raw: Key,
    app: Seq<char>,
)
    requires
        os_sees(down, s.output),
        press_finds(config, s, raw, app, None),
        !(s.pending matches Some(p) && p.src == raw),
        !s.held.contains_key(mapped(config.modmap, raw)),
    ensures
        ({
            let key = mapped(config.modmap, raw);
            let (s2, events) = on_event(config, s, raw, 1, app);
            let then = os_after(down, events);
            &&& presses(down, events, key, held_now(s))
            &&& then.contains(key)
            &&& os_sees(then, held_now(s))
            &&& on_event(config, s2, raw, 0, app).1 == seq![OutEvent { key, value: 0 }]
        }),
{
    let key = mapped(config.modmap, raw);
    let rest = real_only(held_now(s));
    let events = on_event(config, s, raw, 1, app).1;
    assert(!sent_as_modifier(key));
    lemma_press_is_seen(down, s.output, rest, key);
    let i = choose|i: int| pressed_under(down, events, key, rest, i);
    assert(pressed_under(down, events, key, held_now(s), i));
}

/// A modifier key is seen by the OS as it happens: from its press on it is held and down,
/// from its release on neither, and nothing but modifier keys moves.
#[verifier::rlimit(50)]
pub proof fn modifier_keys_are_forwarded(
    config: ConfigView,
    s: StateView,
    down: Set<Key>,
    raw: Key,
    app: Seq<char>,
    m: Modifier,
)
    requires
        os_sees(down, s.output),
        tap_hold_of(config.multipurpose, app, raw) is None,
        !(s.pending matches Some(p) && p.src == raw),
        mapped(config.modmap, raw).spec_modifier() == Some(m),
    ensures
        ({
            let (s2, events) = on_event(config, s, raw, 1, app);
            let then = os_after(down, events);
            let (s3, last) = on_event(config, s2, raw, 0, app);
            &&& s2.pressed == held_now(s).insert(m)
            &&& os_sees(then, s2.pressed)
            &&& only_modifiers(events)
            &&& s3.pressed == held_now(s).remove(m)
            &&& os_sees(os_after(then, last), s3.pressed)
            &&& only_modifiers(last)
        }),
{
    let (s2, events) = on_event(config, s, raw, 1, app);
    switches_are_seen(down, s.output, real_only(held_now(s).insert(m)));
    let then = os_after(down, events);
    let (s3, last) = on_event(config, s2, raw, 0, app);
    assert(held_now(s).insert(m).remove(m) =~= held_now(s).remove(m));
    switches_are_seen(then, s2.output, real_only(held_now(s).remove(m)));
}

/// A modifier key that repeats changes nothing.
#[verifier::rlimit(50)]
pub proof fn repeated_modifiers_change_nothing(
    config: ConfigView,
    s: StateView,
    raw: Key,
    app: Seq<char>,
    m: Modifier,
)
    requires
        tap_hold_of(config.multipurpose, app, raw) is None,
        mapped(config.modmap, raw).spec_modifier() == Some(m),
    ensures
        ({
            let s2 = on_event(config, s, raw, 1, app).0;
            let (s3, events) = on_event(config, s2, raw, 2, app);
            &&& s3.pressed == s2.pressed && s3.output == s2.output
            &&& events.len() == 0
        }),
{
    let s2 = on_event(config, s, raw, 1, app).0;
    assert(s2.pressed.insert(m) =~= s2.pressed);
    assert(s2.output == real_only(s2.pressed));
    assert(!undecided(s2));
    let none = s2.output.difference(s2.output);
    assert(none =~= Set::empty());
    assert(in_order(none) =~= Seq::empty());
    assert(switch_events(s2.output, s2.output) =~= Seq::empty());
}

/// A tap-hold key that is released with nothing in between taps its tap key under exactly
/// the modifiers that are held. Once the timeout commits it, the OS has its modifier down
/// beside those, until its release.
#[verifier::rlimit(50)]
pub proof fn tap_hold_keys_tap_or_hold(
    config: ConfigView,
    s: StateView,
    down: Set<Key>,
    raw: Key,
    app: Seq<char>,
    tap: Key,
    hold: Modifier,
)
    requires
        os_sees(down, s.output),
        tap_hold_of(config.multipurpose, app, raw) == Some((tap, hold)),
        !sent_as_modifier(tap),
    ensures
        ({
            let (s2, events) = on_event(config, s, raw, 1, app);
            let tapped = on_event(config, s2, raw, 0, app).1;
            let (s3, held) = flushed(s2);
            let then = os_after(down, held);
            let (s4, last) = on_event(config, s3, raw, 0, app);
            &&& events.len() == 0
            &&& taps(down, tapped, tap, s.pressed)
            &&& os_sees(os_after(down, tapped), s.output)
            &&& s3.pressed == s.pressed.insert(hold)
            &&& os_sees(then, s3.pressed)
            &&& s4.pressed == s.pressed.remove(hold)
            &&& os_sees(os_after(then, last), s4.pressed)
            &&& only_modifiers(held) && only_modifiers(last)
        }),
{
    let s2 = on_event(config, s, raw, 1, app).0;
    lemma_chord_is_seen(down, s.output, ComboView { modifiers: s.pressed, key: tap }, false);
    let (s3, held) = flushed(s2);
    switches_are_seen(down, s.output, real_only(s.pressed.insert(hold)));
    let then = os_after(down, held);
    assert(s.pressed.insert(hold).remove(hold) =~= s.pressed.remove(hold));
    switches_are_seen(then, s3.output, real_only(s.pressed.remove(hold)));
}

/// Another key that comes while a tap-hold key is down and undecided is taken under the
/// tap-hold key's modifier.
#[verifier::rlimit(50)]
pub proof fn other_keys_decide_a_tap_hold(
    config: ConfigView,
    s: StateView,
    raw: Key,
    app: Seq<char>,
    tap: Key,
    hold: Modifier,
)
    requires
        tap_hold_of(config.multipurpose, app, raw) == Some((tap, hold)),
    ensures
        held_now(on_event(config, s, raw, 1, app).0) == s.pressed.insert(hold),
        ({
            let s2 = on_event(config, s, raw, 1, app).0;
            mapped(config.modmap, raw).spec_modifier() is None ==> on_event(
                config,
                s2,
                raw,
                2,
                app,
            ).0.pressed == s.pressed.insert(hold)
        }),
{
}

/// Syncing brings the OS to exactly the modifiers that are held, and clearing to none;
/// neither moves any other key.
pub proof fn syncing_and_clearing_are_seen(s: StateView, down: Set<Key>)
    requires
        os_sees(down, s.output),
    ensures
        os_sees(os_after(down, synced_to_held(s).1), s.pressed),
        synced_to_held(s).0.pressed == s.pressed,
        only_modifiers(synced_to_held(s).1),
        os_sees(os_after(down, cleared(s).1), Set::empty()),
        only_modifiers(cleared(s).1),
        cleared(s).0.pressed == Set::<Modifier>::empty(),
        cleared(s).0.output == Set::<Modifier>::empty(),
{
    switches_are_seen(down, s.output, real_only(s.pressed));
    switches_are_seen(down, s.output, Set::empty());
}

/// A key that is mapped to another does what the other does: where neither is a tap-hold
/// key, a press emits the same and asks for the same as a press of the other would if
/// nothing were mapped.
#[verifier::rlimit(50)]
pub proof fn mapped_keys_act_as_what_they_are_mapped_to(
    config: ConfigView,
    s: StateView,
    raw: Key,
    app: Seq<char>,
    to: Key,
)
    requires
        config.modmap.contains_key(raw) && config.modmap[raw] == to,
        tap_hold_of(config.multipurpose, app, raw) is None,
        tap_hold_of(config.multipurpose, app, to) is None,
    ensures
        ({
            let plain = ConfigView { modmap: Map::empty(), ..config };
            let (a, events) = on_event(config, s, raw, 1, app);
            let (b, same) = on_event(plain, s, to, 1, app);
            events == same && a == (StateView { routes: a.routes, ..b })
        }),
{
    let plain = ConfigView { modmap: Map::empty(), ..config };
    let (a, b) = (routed(s, raw, to, 1), routed(s, to, to, 1));
    let (c, d) = (hold_resolved(a), hold_resolved(b));
    if let Some(steps) = binding_of(
        config.keymaps,
        app,
        ComboView { modifiers: c.pressed, key: to },
    ) {
        lemma_routes_do_not_matter(
            StateView { tile: None, ..c },
            StateView { tile: None, ..d },
            steps,
            c.tile,
            to,
        );
    }
}

#[verifier::rlimit(50)]
proof fn lemma_routes_do_not_matter(
    a: StateView,
    b: StateView,
    steps: Seq<StepView>,
    prev: Option<(Side, TileFraction)>,
    trigger: Key,
)
    requires
        a == (StateView { routes: a.routes, ..b }),
    ensures
        steps_run(a, steps, prev, trigger).1 == steps_run(b, steps, prev, trigger).1,
        steps_run(a, steps, prev, trigger).0 == (StateView {
            routes: a.routes,
            ..steps_run(b, steps, prev, trigger).0
        }),
    decreases steps.len(),
{
    if steps.len() > 0 {
        lemma_routes_do_not_matter(a, b, steps.drop_last(), prev, trigger);
    }
}

/// At first nothing is held, nothing is down, no selection is on and nothing is asked for.
pub proof fn sessions_begin_with_nothing()
    ensures
        ({
            let s = initial_state();
            &&& s.pressed == Set::<Modifier>::empty() && s.output == Set::<Modifier>::empty()
            &&& s.held.dom() == Set::<Key>::empty() && s.held_window.dom() == Set::<Key>::empty()
            &&& s.passthrough == Set::<Key>::empty() && s.routes.dom() == Set::<Key>::empty()
            &&& s.pending is None && s.tile is None && !s.mark && s.effects.len() == 0
        }),
{
}

/// A key that nothing is mapped for stands for itself.
pub proof fn other_keys_stand_for_themselves(config: ConfigView, raw: Key)
    ensures
        !config.modmap.contains_key(raw) ==> mapped(config.modmap, raw) == raw,
        config.modmap.contains_key(raw) ==> mapped(config.modmap, raw) == config.modmap[raw],
{
}

} // verus!
