use rightkeys::actions::{Effect, OutEvent, WindowAction};
use rightkeys::config::load;
use rightkeys::element::{Element, Role};
use rightkeys::engine::Engine;
use rightkeys::key::Key;
use rightkeys::session::{hook_value, Command, KeySeen, Remapper, INJECT_MARKER};

const CONFIG: &str = r#"
    modmap { map from="capslock" to="left_hyper"; }
    multipurpose-modmap { map key="space" tap="space" hold="left_shift"; }
    keymap name="global" {
        bind "C+w" { wm action="find-window"; }
        bind "C+a" { keys "home"; }
        bind "C+e" { exec "editor"; }
    }
"#;

fn remapper() -> Remapper {
    Remapper::new(Engine::new(load(CONFIG, "linux").unwrap()))
}

fn seen(key: Key, value: i32) -> KeySeen {
    KeySeen {
        code: key.evdev_code(),
        value,
        enabled: true,
        focus: Some("Editor".to_string()),
        grabbed: false,
        now: 1_000,
    }
}

fn down(key: Key) -> OutEvent {
    OutEvent { key, value: 1 }
}

fn up(key: Key) -> OutEvent {
    OutEvent { key, value: 0 }
}

/// All events among the commands.
fn emitted(commands: &[Command]) -> Vec<OutEvent> {
    let mut out = Vec::new();
    for command in commands {
        if let Command::Emit(events) = command {
            for event in events {
                out.push(OutEvent { key: event.key, value: event.value });
            }
        }
    }
    out
}

fn element(label: &str, x: i32) -> Element {
    Element {
        height: 10,
        label: label.to_string(),
        width: 10,
        x,
        y: 0,
        bus_name: String::new(),
        node_path: String::new(),
        role: Role::PushButton,
    }
}

#[test]
fn paused_keys_are_forwarded_raw() {
    let mut r = remapper();
    let mut event = seen(Key::A, 1);
    event.enabled = false;
    let commands = r.on_key(event);
    assert!(matches!(
        commands.as_slice(),
        [Command::EmitRaw { code, value: 1 }] if *code == Key::A.evdev_code()
    ));
}

#[test]
fn bound_keys_are_remapped_and_effects_performed() {
    let mut r = remapper();
    r.on_key(seen(Key::LeftCtrl, 1));
    let commands = r.on_key(seen(Key::A, 1));
    assert_eq!(emitted(&commands), vec![up(Key::LeftCtrl), down(Key::Home)]);
    r.on_key(seen(Key::A, 0));
    let commands = r.on_key(seen(Key::E, 1));
    match commands.last() {
        Some(Command::Perform(Effect::Launch(program))) => assert_eq!(program, "editor"),
        other => panic!("unexpected {other:?}"),
    }
}

#[test]
fn unknown_keys_keep_held_modifiers() {
    let mut r = remapper();
    r.on_key(seen(Key::LeftCtrl, 1));
    let mut event = seen(Key::A, 1);
    event.code = 240;
    let commands = r.on_key(event);
    assert!(matches!(
        commands.as_slice(),
        [Command::Emit(_), Command::EmitRaw { code: 240, value: 1 }]
    ));
}

#[test]
fn the_focus_is_wanted_on_remapped_presses_only() {
    let mut r = remapper();
    assert!(r.wants_focus(1, true));
    assert!(!r.wants_focus(0, true));
    assert!(!r.wants_focus(2, true));
    assert!(!r.wants_focus(1, false));
    r.open_windows(vec!["a".to_string()]);
    assert!(!r.wants_focus(1, true));
}

#[test]
fn grabs_and_pass_through_apps_receive_keys_raw() {
    let mut r = remapper();
    let mut event = seen(Key::LeftCtrl, 1);
    event.grabbed = true;
    let commands = r.on_key(event);
    assert!(matches!(commands.as_slice(), [Command::EmitRaw { .. }]));

    // The modifier is tracked: with it down, a bound key is remapped afterwards.
    let commands = r.on_key(seen(Key::A, 1));
    assert_eq!(emitted(&commands), vec![up(Key::LeftCtrl), down(Key::Home)]);

    let mut event = seen(Key::A, 1);
    event.focus = Some("VirtualBox Machine".to_string());
    let commands = r.on_key(event);
    assert!(matches!(commands.as_slice(), [Command::EmitRaw { .. }]));
}

#[test]
fn the_window_overlay_captures_presses_until_a_hint_is_typed() {
    let mut r = remapper();
    r.on_key(seen(Key::LeftCtrl, 1));
    let commands = r.on_key(seen(Key::W, 1));
    assert!(matches!(commands.last(), Some(Command::OpenWindows)));
    r.open_windows(vec!["aa".to_string(), "as".to_string()]);
    assert!(r.is_picking());

    // Repeats are dropped, unrelated keys only refresh.
    assert!(r.on_key(seen(Key::W, 2)).is_empty());
    match r.on_key(seen(Key::F1, 1)).as_slice() {
        [Command::ShowWindows(shown)] => assert_eq!(shown, &vec![true, true]),
        other => panic!("unexpected {other:?}"),
    }
    match r.on_key(seen(Key::A, 1)).as_slice() {
        [Command::ShowWindows(shown)] => assert_eq!(shown, &vec![true, true]),
        other => panic!("unexpected {other:?}"),
    }
    let commands = r.on_key(seen(Key::S, 1));
    assert!(matches!(
        commands.as_slice(),
        [Command::CloseWindows, Command::Emit(_), Command::ActivateWindow(1)]
    ));
    // The modifier that opened the overlay was let go.
    assert_eq!(emitted(&commands), vec![up(Key::LeftCtrl)]);
    assert!(!r.is_picking());
    assert!(r.on_key(seen(Key::LeftCtrl, 0)).len() == 1);
}

#[test]
fn escape_cancels_the_window_overlay() {
    let mut r = remapper();
    r.open_windows(vec!["a".to_string(), "s".to_string()]);
    let commands = r.on_key(seen(Key::Esc, 1));
    assert!(matches!(
        commands.as_slice(),
        [Command::CloseWindows, Command::Emit(_)]
    ));
    assert!(!r.is_picking());
}

#[test]
fn releases_pass_the_window_overlay() {
    let mut r = remapper();
    r.on_key(seen(Key::LeftCtrl, 1));
    r.open_windows(vec!["a".to_string(), "s".to_string()]);
    let commands = r.on_key(seen(Key::LeftCtrl, 0));
    assert_eq!(emitted(&commands), vec![up(Key::LeftCtrl)]);
}

#[test]
fn elements_are_awaited_shown_and_picked() {
    let mut r = remapper();
    r.on_key(seen(Key::LeftCtrl, 1));
    r.await_elements();
    assert!(r.is_awaiting());
    // Nothing slips through while the answer is awaited.
    assert!(r.on_key(seen(Key::A, 1)).is_empty());

    let commands = r.on_timeout(2_000, true, Some(vec![element("ok", 0), element("no", 50)]));
    match commands.as_slice() {
        [Command::OpenElements(pairs)] => {
            let labels: Vec<&str> = pairs.iter().map(|(_, l)| l.as_str()).collect();
            assert_eq!(labels, vec!["a", "s"]);
        }
        other => panic!("unexpected {other:?}"),
    }
    assert!(!r.is_awaiting());
    assert!(r.on_key(seen(Key::S, 0)).is_empty());
    let commands = r.on_key(seen(Key::S, 1));
    match commands.as_slice() {
        [Command::CloseElements, Command::Emit(out), Command::ActivateElement(e)] => {
            assert_eq!(e.label, "no");
            assert_eq!(out, &vec![up(Key::LeftCtrl)]);
        }
        other => panic!("unexpected {other:?}"),
    }
}

#[test]
fn empty_answers_do_not_trap_input() {
    let mut r = remapper();
    r.await_elements();
    let commands = r.on_timeout(2_000, true, Some(Vec::new()));
    assert!(matches!(
        commands.as_slice(),
        [Command::NoElements, Command::Emit(_)]
    ));
    assert_eq!(emitted(&r.on_key(seen(Key::B, 1))), vec![down(Key::B)]);
}

#[test]
fn dismissing_the_elements_frees_the_keyboard() {
    let mut r = remapper();
    r.await_elements();
    r.on_timeout(2_000, true, Some(vec![element("ok", 0), element("no", 50)]));
    let commands = r.on_key(seen(Key::Esc, 1));
    assert!(matches!(
        commands.as_slice(),
        [Command::CloseElements, Command::Emit(_)]
    ));
    assert_eq!(emitted(&r.on_key(seen(Key::B, 1))), vec![down(Key::B)]);
}

#[test]
fn held_tap_hold_keys_commit_after_the_timeout() {
    let mut r = remapper();
    assert_eq!(r.wait_ms(1_000), 1_000);
    assert!(emitted(&r.on_key(seen(Key::Space, 1))).is_empty());
    assert_eq!(r.wait_ms(1_000), 200);
    assert_eq!(r.wait_ms(1_150), 50);
    assert_eq!(r.wait_ms(1_500), 0);
    assert!(r.on_timeout(1_199, true, None).is_empty());
    let commands = r.on_timeout(1_200, true, None);
    assert_eq!(emitted(&commands), vec![down(Key::LeftShift)]);
    assert_eq!(r.wait_ms(1_200), 1_000);
    assert_eq!(emitted(&r.on_key(seen(Key::Space, 0))), vec![up(Key::LeftShift)]);
}

#[test]
fn a_pause_drops_the_timeout_without_committing() {
    let mut r = remapper();
    r.on_key(seen(Key::Space, 1));
    assert!(r.on_timeout(1_300, false, None).is_empty());
    assert_eq!(r.wait_ms(1_300), 1_000);
}

#[test]
fn answers_are_polled_for() {
    let mut r = remapper();
    r.await_elements();
    assert_eq!(r.wait_ms(0), 50);
}

#[test]
fn a_reload_applies_to_the_next_key() {
    let mut r = remapper();
    r.reload(load("modmap { map from=\"b\" to=\"c\"; }", "linux").unwrap());
    assert_eq!(emitted(&r.on_key(seen(Key::B, 1))), vec![down(Key::C)]);
}

#[test]
fn hook_messages_are_told_apart() {
    assert_eq!(hook_value(0, 0x100, 0), Some(1));
    assert_eq!(hook_value(0, 0x104, 0), Some(1));
    assert_eq!(hook_value(0, 0x101, 0), Some(0));
    assert_eq!(hook_value(0, 0x105, 0), Some(0));
    assert_eq!(hook_value(0, 0x102, 0), None);
    assert_eq!(hook_value(3, 0x100, 0), None);
    assert_eq!(hook_value(0, 0x100, INJECT_MARKER), None);
}

#[test]
fn the_hook_swallows_what_it_remaps() {
    let mut r = remapper();
    assert!(!r.on_hook(Key::B.win_vk(), 1, false, "editor", false).swallow);
    let reply = r.on_hook(Key::B.win_vk(), 1, true, "editor", false);
    assert!(reply.swallow);
    assert_eq!(emitted(&reply.commands), vec![down(Key::B)]);
    assert!(!r.on_hook(Key::B.win_vk(), 1, true, "vmconnect", false).swallow);
    let reply = r.on_hook(0xE9, 1, true, "editor", false);
    assert!(matches!(
        reply.commands.as_slice(),
        [Command::Emit(_), Command::EmitRaw { code: 0xE9, value: 1 }]
    ));
    assert!(!r.wants_app(0xE9, true));
    assert!(r.wants_app(Key::B.win_vk(), true));
    assert!(!r.wants_app(Key::B.win_vk(), false));
}

#[test]
fn the_hook_starts_and_stops_the_timer() {
    let mut r = remapper();
    let reply = r.on_hook(Key::Space.win_vk(), 1, true, "editor", false);
    assert!(matches!(
        reply.commands.as_slice(),
        [Command::Emit(_), Command::StartTimer]
    ));
    // While the timer runs it is not started again.
    let reply = r.on_hook(Key::Space.win_vk(), 1, true, "editor", true);
    assert!(matches!(reply.commands.as_slice(), [Command::Emit(_)]));
    let commands = r.on_timer(true, true);
    assert!(matches!(
        commands.as_slice(),
        [Command::Emit(_), Command::StopTimer]
    ));
    assert_eq!(emitted(&commands), vec![down(Key::LeftShift)]);
    assert!(matches!(r.on_timer(false, true).as_slice(), [Command::StopTimer]));
    let reply = r.on_hook(Key::Space.win_vk(), 0, true, "editor", true);
    assert!(matches!(
        reply.commands.as_slice(),
        [Command::Emit(_), Command::StopTimer]
    ));
}

#[test]
fn the_hook_routes_keys_to_the_overlays() {
    let mut r = remapper();
    r.open_windows(vec!["a".to_string(), "s".to_string()]);
    let reply = r.on_hook(Key::A.win_vk(), 0, true, "", false);
    assert!(reply.swallow && reply.commands.is_empty());
    assert!(r.on_hook(Key::F1.win_vk(), 1, true, "", false).commands.is_empty());
    let reply = r.on_hook(Key::A.win_vk(), 1, true, "", false);
    assert!(matches!(
        reply.commands.as_slice(),
        [Command::CloseWindows, Command::ActivateWindow(0), Command::Emit(_)]
    ));

    assert!(matches!(
        r.on_hook_answer(Vec::new()).as_slice(),
        [Command::NoElements]
    ));
    r.await_elements();
    assert!(r.on_hook(Key::B.win_vk(), 1, true, "", false).commands.is_empty());
    assert!(matches!(
        r.on_hook_answer(vec![element("ok", 0), element("no", 50)]).as_slice(),
        [Command::OpenElements(_)]
    ));
    assert!(matches!(
        r.on_hook(Key::B.win_vk(), 1, true, "", false).commands.as_slice(),
        [Command::ShowElements(_)]
    ));
    let reply = r.on_hook(Key::Esc.win_vk(), 1, true, "", false);
    assert!(matches!(reply.commands.as_slice(), [Command::CloseElements]));
}

#[test]
fn overlays_are_opened_by_their_actions() {
    let config = load(
        r#"keymap { bind "x" { wm action="find-window"; wm action="center"; }; }"#,
        "linux",
    )
    .unwrap();
    let mut r = Remapper::new(Engine::new(config));
    let commands = r.on_key(seen(Key::X, 1));
    assert!(matches!(
        commands.as_slice(),
        [
            Command::Emit(_),
            Command::OpenWindows,
            Command::Perform(Effect::Window(WindowAction::Center))
        ]
    ));
}
