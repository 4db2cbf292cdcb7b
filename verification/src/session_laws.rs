//! What each turn of a session asks for, told by what is on the screen and what is pressed.

use crate::actions::{EffectView, WindowAction};
use crate::element::{kept_of, session_action, Element, HintAction};
use crate::engine_laws::os_after;
use crate::hints::letter_of;
use crate::key::{key_at_evdev, key_at_vk, Key};
use crate::model::{on_event, tracked_raw, undecided};
use crate::output_laws::{held_now, only_modifiers, os_sees, syncing_and_clearing_are_seen};
use crate::overlay_laws::{only_the_typed_element_is_activated, only_the_typed_window_is_chosen};
use crate::picker::{picker_step, shown_chips, PickerStep, PickerView};
use crate::rules::passes_through;
use crate::session::{
    answer_turn, hold_is_due, hold_turn, hook_answer_turn, hook_meaning, hook_turn, key_turn,
    timer_turn, wait, CommandView, KeySeenView, RemapperView, INJECT_MARKER,
};
use vstd::prelude::*;

verus! {

// === Remapping ===

/// The command that an effect calls for: the overlays have their own, all else is done by
/// whoever runs the session.
pub open spec fn calls_for(e: EffectView, c: CommandView) -> bool {
    match e {
        EffectView::Window(WindowAction::FindWindow) => c is OpenWindows,
        EffectView::Window(WindowAction::PickWindow) => c is OpenWindows,
        EffectView::Window(WindowAction::PickElement) => c is Enumerate,
        _ => c == CommandView::Perform(e),
    }
}

/// The application a key is for: the one in focus where the key is pressed and the focus
/// was read, else the one of the last press.
pub open spec fn app_for(r: RemapperView, seen: KeySeenView) -> Seq<char> {
    if seen.value == 1 && seen.focus is Some {
        seen.focus->0
    } else {
        r.app
    }
}

/// With remapping on and nothing on the screen, a key is handed to the engine for the
/// application in focus; what the engine emits comes first, and then one command for each
/// effect it asks for, in order.
#[verifier::rlimit(50)]
pub proof fn keys_are_remapped(r: RemapperView, seen: KeySeenView, key: Key)
    requires
        seen.enabled && !seen.grabbed,
        r.picker is None && r.hints is None && !r.awaiting,
        !passes_through(r.engine.config, "linux"@, app_for(r, seen)),
        key_at_evdev(seen.code) == Some(key),
    ensures
        ({
            let (after, commands) = key_turn(r, seen);
            let (s, out) = on_event(
                r.engine.config,
                r.engine.state,
                key,
                seen.value,
                app_for(r, seen),
            );
            &&& commands.len() == 1 + s.effects.len()
            &&& commands[0] == CommandView::Emit(out)
            &&& forall|i: int|
                0 <= i < s.effects.len() ==> calls_for(
                    #[trigger] s.effects[i],
                    commands[1 + i],
                )
            &&& after.engine.state.effects.len() == 0
            &&& after.engine.state.pressed == s.pressed && after.engine.state.output == s.output
            &&& after.engine.state.held == s.held && after.engine.state.mark == s.mark
            &&& after.engine.config == r.engine.config
            &&& after.app == app_for(r, seen)
            &&& after.awaiting == s.effects.contains(EffectView::Window(WindowAction::PickElement))
            &&& after.picker is None && after.hints is None
        }),
{
}

/// The hook does the same with the keys of Windows, and between what the engine emits and
/// the effects starts or stops the timer, as a tap-hold key becomes undecided or decided.
#[verifier::rlimit(50)]
pub proof fn hooked_keys_are_remapped(
    r: RemapperView,
    vk: u16,
    value: i32,
    app: Seq<char>,
    running: bool,
    key: Key,
)
    requires
        r.picker is None && r.hints is None && !r.awaiting,
        !passes_through(r.engine.config, "windows"@, app),
        key_at_vk(vk) == Some(key),
    ensures
        ({
            let (after, commands, swallow) = hook_turn(r, vk, value, true, app, running);
            let (s, out) = on_event(r.engine.config, r.engine.state, key, value, app);
            let timer: int = if undecided(s) != running {
                1
            } else {
                0
            };
            &&& swallow
            &&& commands.len() == 1 + timer + s.effects.len()
            &&& commands[0] == CommandView::Emit(out)
            &&& undecided(s) && !running ==> commands[1] is StartTimer
            &&& !undecided(s) && running ==> commands[1] is StopTimer
            &&& forall|i: int|
                0 <= i < s.effects.len() ==> calls_for(
                    #[trigger] s.effects[i],
                    commands[1 + timer + i],
                )
            &&& after.engine.state.effects.len() == 0
            &&& after.engine.state.pressed == s.pressed && after.engine.state.output == s.output
            &&& after.engine.state.held == s.held && after.engine.state.mark == s.mark
        }),
{
}

/// A key that has no name is passed on as it came, once the OS has been brought to the
/// modifiers that are held.
#[verifier::rlimit(50)]
pub proof fn nameless_keys_are_passed_on(
    r: RemapperView,
    seen: KeySeenView,
    vk: u16,
    value: i32,
    app: Seq<char>,
    running: bool,
    down: Set<Key>,
)
    requires
        os_sees(down, r.engine.state.output),
        r.picker is None,
    ensures
        seen.enabled && !seen.grabbed && r.hints is None && !r.awaiting && !passes_through(
            r.engine.config,
            "linux"@,
            app_for(r, seen),
        ) && key_at_evdev(seen.code) is None ==> {
            let commands = key_turn(r, seen).1;
            &&& commands.len() == 2
            &&& commands[0] matches CommandView::Emit(out) && only_modifiers(out) && os_sees(
                os_after(down, out),
                r.engine.state.pressed,
            )
            &&& commands[1] == (CommandView::EmitRaw { code: seen.code, value: seen.value })
        },
        key_at_vk(vk) is None ==> {
            let (_, commands, swallow) = hook_turn(r, vk, value, true, app, running);
            &&& swallow
            &&& commands.len() == 2
            &&& commands[0] matches CommandView::Emit(out) && only_modifiers(out) && os_sees(
                os_after(down, out),
                r.engine.state.pressed,
            )
            &&& commands[1] == (CommandView::EmitRaw { code: vk, value })
        },
{
    syncing_and_clearing_are_seen(r.engine.state, down);
}

/// While the keyboard is grabbed, and in an application that gets its keys raw, every key
/// goes through as it came, and nothing else happens.
#[verifier::rlimit(50)]
pub proof fn raw_applications_get_keys_as_they_came(r: RemapperView, seen: KeySeenView)
    requires
        seen.enabled && r.picker is None,
        seen.grabbed || passes_through(r.engine.config, "linux"@, app_for(r, seen)),
    ensures
        key_turn(r, seen).1 == seq![
            CommandView::EmitRaw { code: seen.code, value: seen.value },
        ],
        key_turn(r, seen).0.app == app_for(r, seen),
        key_turn(r, seen).0.hints == r.hints,
        key_turn(r, seen).0.awaiting == r.awaiting,
        key_at_evdev(seen.code) matches Some(key) ==> key_turn(r, seen).0.engine.state
            == tracked_raw(r.engine.config, r.engine.state, key, seen.value),
        key_at_evdev(seen.code) is None ==> key_turn(r, seen).0.engine == r.engine,
{
}

/// The application changes with a press alone.
#[verifier::rlimit(50)]
pub proof fn only_presses_change_the_application(r: RemapperView, seen: KeySeenView)
    requires
        seen.value != 1,
    ensures
        key_turn(r, seen).0.app == r.app,
{
}

// === Picking a window ===

/// Only a press can choose a window. It does so exactly if with it what is typed is the
/// beginning of that window's hint and of no other; then the overlay is taken down first,
/// the OS is left with no modifier, and that window alone is activated.
#[verifier::rlimit(50)]
pub proof fn windows_are_activated_by_their_hint(
    r: RemapperView,
    seen: KeySeenView,
    p: PickerView,
    i: usize,
    down: Set<Key>,
)
    requires
        seen.enabled,
        r.picker == Some(p),
        p.hints.len() <= usize::MAX,
        os_sees(down, r.engine.state.output),
    ensures
        ({
            let (after, commands) = key_turn(r, seen);
            &&& commands.contains(CommandView::ActivateWindow(i)) ==> {
                &&& seen.value != 0 && seen.value != 2
                &&& key_at_evdev(seen.code) matches Some(key) && letter_of(key) matches Some(ch) && {
                    &&& i < p.hints.len()
                    &&& p.prefix.push(ch).is_prefix_of(p.hints[i as int])
                    &&& forall|j: int|
                        0 <= j < p.hints.len() && j != i ==> !p.prefix.push(ch).is_prefix_of(
                            #[trigger] p.hints[j],
                        )
                }
                &&& after.picker is None
                &&& commands.len() == 3 && commands[0] is CloseWindows
                &&& commands[1] matches CommandView::Emit(out) && os_sees(
                    os_after(down, out),
                    Set::empty(),
                )
                &&& commands[2] == CommandView::ActivateWindow(i)
            }
            &&& seen.value == 1 && key_at_evdev(seen.code) is Some && picker_step(
                p,
                key_at_evdev(seen.code),
            ) == PickerStep::Chosen(i) ==> commands.contains(CommandView::ActivateWindow(i))
            &&& seen.value == 1 && key_at_evdev(seen.code) == Some(Key::Esc) ==> {
                &&& after.picker is None
                &&& commands.len() == 2 && commands[0] is CloseWindows
                &&& commands[1] matches CommandView::Emit(out) && os_sees(
                    os_after(down, out),
                    Set::empty(),
                )
            }
            &&& after.picker is Some && seen.value == 1 ==> commands == seq![
                CommandView::ShowWindows(shown_chips(after.picker->Some_0)),
            ]
            &&& seen.value == 2 ==> commands.len() == 0 && after == r
        }),
{
    syncing_and_clearing_are_seen(r.engine.state, down);
    let key = key_at_evdev(seen.code);
    let (after, commands) = key_turn(r, seen);
    if let Some(k) = key {
        only_the_typed_window_is_chosen(p, k);
    }
    if seen.value != 0 && seen.value != 2 {
        if let PickerStep::Chosen(c) = picker_step(p, key) {
            assert(commands[2] == CommandView::ActivateWindow(c));
        }
    }
}

/// A release while windows are picked reaches the engine, so that no modifier stays down.
#[verifier::rlimit(50)]
pub proof fn releases_reach_the_engine_while_picking(
    r: RemapperView,
    seen: KeySeenView,
    key: Key,
)
    requires
        seen.enabled && seen.value == 0,
        r.picker is Some,
        key_at_evdev(seen.code) == Some(key),
    ensures
        ({
            let (after, commands) = key_turn(r, seen);
            let (s, out) = on_event(r.engine.config, r.engine.state, key, 0, r.app);
            &&& commands == seq![CommandView::Emit(out)]
            &&& after.engine.state == s
            &&& after.picker == r.picker
        }),
{
}

/// On Windows a press chooses a window likewise, and a release changes nothing.
#[verifier::rlimit(50)]
pub proof fn hooked_windows_are_activated_by_their_hint(
    r: RemapperView,
    vk: u16,
    value: i32,
    app: Seq<char>,
    running: bool,
    p: PickerView,
    i: usize,
    down: Set<Key>,
)
    requires
        r.picker == Some(p),
        p.hints.len() <= usize::MAX,
        os_sees(down, r.engine.state.output),
    ensures
        ({
            let (after, commands, swallow) = hook_turn(r, vk, value, true, app, running);
            &&& swallow
            &&& value != 1 ==> commands.len() == 0 && after == r
            &&& commands.contains(CommandView::ActivateWindow(i)) <==> value == 1 && picker_step(
                p,
                key_at_vk(vk),
            ) == PickerStep::Chosen(i)
            &&& commands.contains(CommandView::ActivateWindow(i)) ==> {
                &&& key_at_vk(vk) matches Some(key) && letter_of(key) matches Some(ch) && {
                    &&& i < p.hints.len()
                    &&& p.prefix.push(ch).is_prefix_of(p.hints[i as int])
                    &&& forall|j: int|
                        0 <= j < p.hints.len() && j != i ==> !p.prefix.push(ch).is_prefix_of(
                            #[trigger] p.hints[j],
                        )
                }
                &&& after.picker is None
                &&& commands.len() == 3 && commands[0] is CloseWindows
                &&& commands[2] matches CommandView::Emit(out) && os_sees(
                    os_after(down, out),
                    Set::empty(),
                )
            }
            &&& value == 1 && key_at_vk(vk) == Some(Key::Esc) ==> {
                &&& after.picker is None
                &&& commands.len() == 2 && commands[0] is CloseWindows
                &&& commands[1] matches CommandView::Emit(out) && os_sees(
                    os_after(down, out),
                    Set::empty(),
                )
            }
        }),
{
    syncing_and_clearing_are_seen(r.engine.state, down);
    let key = key_at_vk(vk);
    let (after, commands, swallow) = hook_turn(r, vk, value, true, app, running);
    if let Some(k) = key {
        only_the_typed_window_is_chosen(p, k);
    }
    if value == 1 {
        if let PickerStep::Chosen(c) = picker_step(p, key) {
            assert(commands[1] == CommandView::ActivateWindow(c));
        }
    }
}

// === Picking an element ===

/// While elements are picked, a key that is pressed or held activates an element exactly if
/// with it what is typed is the beginning of its label and of no other; then the overlay is
/// taken down first, the OS is left with no modifier, and that element alone is activated.
/// `Esc` takes the overlay down, and a release does nothing.
#[verifier::rlimit(50)]
pub proof fn elements_are_activated_by_their_label(
    r: RemapperView,
    seen: KeySeenView,
    key: Key,
    e: Element,
    down: Set<Key>,
)
    requires
        seen.enabled && !seen.grabbed,
        r.picker is None && r.hints is Some,
        !passes_through(r.engine.config, "linux"@, app_for(r, seen)),
        key_at_evdev(seen.code) == Some(key),
        os_sees(down, r.engine.state.output),
    ensures
        ({
            let (after, commands) = key_turn(r, seen);
            let s = r.hints->Some_0;
            &&& seen.value == 0 ==> commands.len() == 0 && after.hints == r.hints
            &&& commands.contains(CommandView::ActivateElement(e)) <==> seen.value != 0
                && session_action(s, key) == HintAction::Activate(e)
            &&& commands.contains(CommandView::ActivateElement(e)) ==> {
                &&& letter_of(key) is Some
                &&& exists|i: int|
                    {
                        let typed = s.prefix.push(letter_of(key)->Some_0);
                        &&& 0 <= i < s.hints.len()
                        &&& #[trigger] s.hints[i].element == e
                        &&& typed.is_prefix_of(s.hints[i].label)
                        &&& forall|j: int|
                            0 <= j < s.hints.len() && typed.is_prefix_of(
                                (#[trigger] s.hints[j]).label,
                            ) ==> j == i
                    }
                &&& after.hints is None
                &&& commands.len() == 3 && commands[0] is CloseElements
                &&& commands[1] matches CommandView::Emit(out) && os_sees(
                    os_after(down, out),
                    Set::empty(),
                )
            }
            &&& seen.value != 0 && key == Key::Esc ==> {
                &&& after.hints is None
                &&& commands.len() == 2 && commands[0] is CloseElements
                &&& commands[1] matches CommandView::Emit(out) && os_sees(
                    os_after(down, out),
                    Set::empty(),
                )
            }
            &&& after.hints is Some && commands.len() > 0 ==> {
                let t = after.hints->Some_0;
                &&& commands.len() == 1
                &&& commands[0] matches CommandView::ShowElements(shown) && {
                    &&& shown.len() == t.hints.len()
                    &&& forall|i: int|
                        0 <= i < shown.len() ==> #[trigger] shown[i] == t.hints[i].matched
                }
            }
        }),
{
    syncing_and_clearing_are_seen(r.engine.state, down);
    let s = r.hints->Some_0;
    only_the_typed_element_is_activated(s, key);
    let commands = key_turn(r, seen).1;
    if seen.value != 0 {
        if let HintAction::Activate(x) = session_action(s, key) {
            assert(commands[2] == CommandView::ActivateElement(x));
        }
    }
}

/// On Windows elements are activated likewise, once they have been enumerated.
#[verifier::rlimit(50)]
pub proof fn hooked_elements_are_activated_by_their_label(
    r: RemapperView,
    vk: u16,
    value: i32,
    app: Seq<char>,
    running: bool,
    key: Key,
    e: Element,
)
    requires
        r.picker is None && r.hints is Some && !r.awaiting,
        !passes_through(r.engine.config, "windows"@, app),
        key_at_vk(vk) == Some(key),
    ensures
        ({
            let (after, commands, swallow) = hook_turn(r, vk, value, true, app, running);
            let s = r.hints->Some_0;
            &&& swallow
            &&& value == 0 ==> commands.len() == 0 && after == r
            &&& commands.contains(CommandView::ActivateElement(e)) <==> value != 0
                && session_action(s, key) == HintAction::Activate(e)
            &&& commands.contains(CommandView::ActivateElement(e)) ==> after.hints is None
                && commands.len() == 2 && commands[0] is CloseElements
            &&& value != 0 && key == Key::Esc ==> after.hints is None && commands == seq![
                CommandView::CloseElements,
            ]
            &&& after.hints is Some && commands.len() > 0 ==> {
                let t = after.hints->Some_0;
                &&& commands.len() == 1
                &&& commands[0] matches CommandView::ShowElements(shown) && {
                    &&& shown.len() == t.hints.len()
                    &&& forall|i: int|
                        0 <= i < shown.len() ==> #[trigger] shown[i] == t.hints[i].matched
                }
            }
        }),
{
    let s = r.hints->Some_0;
    only_the_typed_element_is_activated(s, key);
    let commands = hook_turn(r, vk, value, true, app, running).1;
    if value != 0 {
        if let HintAction::Activate(x) = session_action(s, key) {
            assert(commands[1] == CommandView::ActivateElement(x));
        }
    }
}

/// While elements are awaited, and before they are there, keys do nothing at all.
pub proof fn keys_wait_for_the_elements(
    r: RemapperView,
    seen: KeySeenView,
    vk: u16,
    value: i32,
    app: Seq<char>,
    running: bool,
)
    requires
        r.picker is None && r.hints is None && r.awaiting,
    ensures
        seen.enabled && !seen.grabbed && !passes_through(
            r.engine.config,
            "linux"@,
            app_for(r, seen),
        ) ==> key_turn(r, seen).1.len() == 0 && key_turn(r, seen).0 == (RemapperView {
            app: app_for(r, seen),
            ..r
        }),
        key_at_vk(vk) is Some && !passes_through(r.engine.config, "windows"@, app) ==> hook_turn(
            r,
            vk,
            value,
            true,
            app,
            running,
        ) == (r, Seq::<CommandView>::empty(), true),
{
}

/// The elements that were asked for are shown, each that is kept with its own label, and
/// nothing is awaited any more; an answer that nothing awaits is dropped.
pub proof fn answers_are_shown(r: RemapperView, elements: Seq<Element>, down: Set<Key>)
    requires
        os_sees(down, r.engine.state.output),
    ensures
        ({
            let (after, commands) = answer_turn(r, elements);
            let kept = kept_of(elements);
            &&& !r.awaiting ==> after == r && commands.len() == 0
            &&& r.awaiting ==> !after.awaiting
            &&& r.awaiting && kept.len() > 0 ==> {
                &&& after.hints matches Some(s) && s.prefix.len() == 0 && s.hints.len()
                    == kept.len()
                &&& commands.len() == 1
                &&& commands[0] matches CommandView::OpenElements(pairs) && pairs.len()
                    == kept.len() && forall|i: int|
                    0 <= i < kept.len() ==> (#[trigger] pairs[i]).0 == kept[i] && pairs[i].1
                        == after.hints->Some_0.hints[i].label && after.hints->Some_0.hints[i].matched
                        && after.hints->Some_0.hints[i].element == kept[i]
            }
            &&& r.awaiting && kept.len() == 0 ==> {
                &&& after.hints == r.hints
                &&& commands.len() == 2 && commands[0] is NoElements
                &&& commands[1] matches CommandView::Emit(out) && os_sees(
                    os_after(down, out),
                    Set::empty(),
                )
            }
        }),
        ({
            let (after, commands) = hook_answer_turn(r, elements);
            let kept = kept_of(elements);
            &&& !after.awaiting
            &&& r.awaiting && kept.len() > 0 ==> {
                &&& after.hints is Some
                &&& commands.len() == 1
                &&& commands[0] matches CommandView::OpenElements(pairs) && pairs.len()
                    == kept.len() && forall|i: int|
                    0 <= i < kept.len() ==> (#[trigger] pairs[i]).0 == kept[i] && pairs[i].1
                        == after.hints->Some_0.hints[i].label
            }
            &&& !r.awaiting || kept.len() == 0 ==> after.hints == r.hints && commands == seq![
                CommandView::NoElements,
            ]
        }),
{
    syncing_and_clearing_are_seen(r.engine.state, down);
}

// === Timing ===

/// A tap-hold key that stays down becomes its modifier when its time is up and not before:
/// the OS then has that modifier down beside those that are held.
pub proof fn holds_take_effect_when_due(
    r: RemapperView,
    since: u64,
    now: u64,
    enabled: bool,
    running: bool,
    down: Set<Key>,
)
    requires
        os_sees(down, r.engine.state.output),
        undecided(r.engine.state),
    ensures
        r.hold_since == Some(since) ==> (hold_is_due(r, now) <==> now - since >= 200),
        !hold_is_due(r, now) ==> hold_turn(r, now, enabled) == (r, Seq::<CommandView>::empty()),
        hold_is_due(r, now) ==> {
            let (after, commands) = hold_turn(r, now, true);
            &&& commands.len() == 1
            &&& commands[0] matches CommandView::Emit(out) && only_modifiers(out) && os_sees(
                os_after(down, out),
                held_now(r.engine.state),
            )
            &&& after.engine.state.pressed == held_now(r.engine.state)
            &&& after.hold_since is None
        },
        hold_is_due(r, now) ==> hold_turn(r, now, false).1.len() == 0,
        ({
            let (after, commands) = timer_turn(r, true, running);
            &&& commands[0] matches CommandView::Emit(out) && only_modifiers(out) && os_sees(
                os_after(down, out),
                held_now(r.engine.state),
            )
            &&& after.engine.state.pressed == held_now(r.engine.state)
            &&& running ==> commands.len() == 2 && commands[1] is StopTimer
            &&& !running ==> commands.len() == 1
        }),
        running ==> timer_turn(r, false, running) == (r, seq![CommandView::StopTimer]),
{
    let resolved = crate::model::hold_resolved(r.engine.state);
    assert(resolved.output == r.engine.state.output);
    syncing_and_clearing_are_seen(resolved, down);
}

/// A session sleeps a second at most, shorter while it awaits elements, and never past the
/// time at which a tap-hold key is due.
pub proof fn sessions_wake_in_time(r: RemapperView, now: u64)
    ensures
        0 <= wait(r, now) <= 1000,
        r.hold_since is None && !r.awaiting ==> wait(r, now) == 1000,
        r.awaiting ==> wait(r, now) <= 50,
        r.hold_since is None && r.awaiting ==> wait(r, now) == 50,
        r.hold_since matches Some(t) && now < t + 200 ==> now + wait(r, now) <= r.hold_since->Some_0
            + 200,
        r.hold_since matches Some(t) && now >= t + 200 ==> wait(r, now) == 0,
        r.hold_since matches Some(t) && t <= now < t + 200 && !r.awaiting ==> now + wait(r, now)
            == r.hold_since->Some_0 + 200,
{
}

/// The hook hears of a key that goes down or up, with or without Alt, and of nothing that
/// was sent by the session itself.
pub proof fn hooks_hear_keys_go_down_and_up(code: i32, message: u32, extra: usize)
    ensures
        code != 0 || extra == INJECT_MARKER ==> hook_meaning(code, message, extra) is None,
        code == 0 && extra != INJECT_MARKER ==> {
            &&& hook_meaning(code, message, extra) == Some(1i32) <==> message == 0x100 || message
                == 0x104
            &&& hook_meaning(code, message, extra) == Some(0i32) <==> message == 0x101 || message
                == 0x105
            &&& hook_meaning(code, message, extra) matches Some(v) ==> v == 0 || v == 1
        },
{
}

} // verus!
