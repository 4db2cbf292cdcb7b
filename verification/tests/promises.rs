use rightkeys::actions::{OutEvent, Step};
use rightkeys::combo::Combo;
use rightkeys::config::load;
use rightkeys::element::{Element, HintAction, HintSession, Role, HINT_CHARS};
use rightkeys::engine::Engine;
use rightkeys::hints::key_to_hint_char;
use rightkeys::key::{Key, ALL_KEYS};
use rightkeys::path::same_program;
use rightkeys::rect::rect_overlap;

fn engine(text: &str) -> Engine {
    Engine::new(load(text, "linux").unwrap())
}

fn down(key: Key) -> OutEvent {
    OutEvent { key, value: 1 }
}

fn up(key: Key) -> OutEvent {
    OutEvent { key, value: 0 }
}

fn elements(n: i32) -> Vec<Element> {
    (0..n)
        .map(|i| Element {
            height: 5,
            label: format!("element {i}"),
            width: 5,
            x: i * 10,
            y: 0,
            bus_name: String::new(),
            node_path: String::new(),
            role: Role::Link,
        })
        .collect()
}

fn key_for(c: char) -> Key {
    ALL_KEYS
        .iter()
        .copied()
        .find(|k| key_to_hint_char(*k) == Some(c))
        .unwrap()
}

#[test]
fn earlier_keymaps_hide_later_ones() {
    let mut e = engine(
        r#"
        keymap application="Editor" { bind "x" { keys "a"; }; }
        keymap { bind "x" { keys "b"; }; }
        "#,
    );
    assert_eq!(e.on_event(Key::X, 1, "Editor"), vec![down(Key::A)]);
    assert_eq!(e.on_event(Key::X, 0, "Editor"), vec![up(Key::A)]);
    assert_eq!(e.on_event(Key::X, 1, "Shell"), vec![down(Key::B)]);
}

#[test]
fn later_maps_and_bindings_replace_earlier_ones() {
    let config = load(
        r#"
        modmap { map from="a" to="b"; }
        modmap { map from="a" to="c"; }
        keymap { bind "x" { keys "1"; }; bind "x" { keys "2"; }; }
        settings timeout=500
        "#,
        "linux",
    )
    .unwrap();
    assert_eq!(config.modmap.get(&Key::A), Some(&Key::C));
    let steps = config.keymaps[0].bindings.get(&Combo::parse("x").unwrap()).unwrap();
    assert!(matches!(steps.as_slice(), [Step::Keys(c)] if c.key == Key::Num2));
}

#[test]
fn the_first_fault_of_a_document_is_reported() {
    let e = load("modmap { map from=\"a\"; }\nbogus", "linux").unwrap_err();
    assert_eq!(e.message(), "node \"map\" is missing property \"to\"");
}

#[test]
fn keys_are_found_again_by_name_and_code() {
    for key in ALL_KEYS {
        assert_eq!(Key::parse(key.name()), Some(key));
        assert_eq!(Key::parse(&key.name().to_uppercase()), Some(key));
        if key.evdev_code() != 0 {
            assert_eq!(Key::from_evdev_code(key.evdev_code()), Some(key));
        }
        if key.win_vk() != 0 {
            assert_eq!(Key::from_win_vk(key.win_vk()), Some(key));
        }
        assert_eq!(key.label(), format!("{key:?}"));
    }
    assert_eq!(Key::from_evdev_code(0), None);
    assert_eq!(Key::from_win_vk(0), None);
    assert_eq!(Key::from_evdev_code(999), None);
}

#[test]
fn every_element_can_be_picked_by_typing_its_label() {
    for n in [1, 26, 27, 60] {
        let (_, pairs) = HintSession::new(elements(n), HINT_CHARS);
        assert_eq!(pairs.len(), n as usize);
        for (element, label) in &pairs {
            let (mut session, _) = HintSession::new(elements(n), HINT_CHARS);
            let mut picked = None;
            for c in label.chars() {
                if let HintAction::Activate(e) = session.process_key(key_for(c)) {
                    picked = Some(e.label);
                    break;
                }
            }
            assert_eq!(picked.as_deref(), Some(element.label.as_str()));
        }
    }
}

#[test]
fn backspace_brings_hidden_elements_back() {
    let (mut session, _) = HintSession::new(elements(60), HINT_CHARS);
    let shown = |s: &HintSession| s.matched_hints().iter().filter(|(_, _, m)| *m).count();
    assert_eq!(shown(&session), 60);
    assert!(matches!(session.process_key(Key::A), HintAction::Updated));
    assert_eq!(shown(&session), 26);
    assert!(matches!(session.process_key(Key::Backspace), HintAction::Updated));
    assert_eq!(shown(&session), 60);
    assert!(matches!(session.process_key(Key::F1), HintAction::Suppressed));
    assert!(matches!(session.process_key(Key::Esc), HintAction::Dismiss));
}

#[test]
fn clearing_makes_the_late_release_a_no_op() {
    let mut e = engine("");
    e.on_event(Key::LeftCtrl, 1, "");
    assert_eq!(e.clear_modifiers(), vec![up(Key::LeftCtrl)]);
    assert_eq!(e.clear_modifiers(), vec![]);
    assert_eq!(e.on_event(Key::LeftCtrl, 0, ""), vec![]);
    assert_eq!(e.sync_modifiers(), vec![]);
}

#[test]
fn clearing_forgets_modifiers_while_a_tap_hold_is_pending() {
    let text = "multipurpose-modmap { map key=\"a\" tap=\"a\" hold=\"left_alt\"; }";
    let mut e = engine(text);
    e.on_event(Key::LeftCtrl, 1, "");
    assert_eq!(e.on_event(Key::A, 1, ""), vec![]);
    assert_eq!(e.clear_modifiers(), vec![up(Key::LeftCtrl)]);
    assert_eq!(e.on_event(Key::LeftCtrl, 0, ""), vec![]);
    assert!(e.has_pending_hold());
    assert_eq!(e.flush_pending_hold(), vec![down(Key::LeftAlt)]);
    assert_eq!(e.clear_modifiers(), vec![up(Key::LeftAlt)]);
    assert_eq!(e.on_event(Key::A, 0, ""), vec![]);
    assert_eq!(e.sync_modifiers(), vec![]);
}

#[test]
fn raw_modifiers_are_held_until_they_are_up() {
    let mut e = engine("keymap { bind \"C+a\" { keys \"home\"; }; }");
    e.track_passthrough(Key::LeftCtrl, 1);
    assert_eq!(e.sync_modifiers(), vec![]);
    e.track_passthrough(Key::LeftCtrl, 2);
    assert_eq!(
        e.on_event(Key::A, 1, ""),
        vec![up(Key::LeftCtrl), down(Key::Home)]
    );
    assert_eq!(
        e.on_event(Key::A, 0, ""),
        vec![up(Key::Home), down(Key::LeftCtrl)]
    );
    e.track_passthrough(Key::LeftCtrl, 0);
    assert_eq!(e.sync_modifiers(), vec![]);
    assert_eq!(e.on_event(Key::A, 1, ""), vec![down(Key::A)]);
}

#[test]
fn a_flush_commits_once() {
    let mut e = engine("multipurpose-modmap { map key=\"a\" tap=\"a\" hold=\"left_ctrl\"; }");
    assert_eq!(e.on_event(Key::A, 1, ""), vec![]);
    assert!(e.has_pending_hold());
    assert_eq!(e.flush_pending_hold(), vec![down(Key::LeftCtrl)]);
    assert!(!e.has_pending_hold());
    assert_eq!(e.flush_pending_hold(), vec![]);
    assert_eq!(e.on_event(Key::A, 0, ""), vec![up(Key::LeftCtrl)]);
}

#[test]
fn a_reload_keeps_what_is_down() {
    let mut e = engine("keymap { bind \"C+a\" { keys \"home\"; }; }");
    e.on_event(Key::LeftCtrl, 1, "");
    e.on_event(Key::A, 1, "");
    e.set_config(load("", "linux").unwrap());
    assert_eq!(
        e.on_event(Key::A, 0, ""),
        vec![up(Key::Home), down(Key::LeftCtrl)]
    );
}

#[test]
fn a_reload_that_remaps_a_key_does_not_strand_it() {
    let mut e = engine("");
    assert_eq!(e.on_event(Key::A, 1, ""), vec![down(Key::A)]);
    e.set_config(load("modmap { map from=\"a\" to=\"b\"; }", "linux").unwrap());
    assert_eq!(e.on_event(Key::A, 2, ""), vec![OutEvent { key: Key::A, value: 2 }]);
    assert_eq!(e.on_event(Key::A, 0, ""), vec![up(Key::A)]);
    assert_eq!(e.on_event(Key::A, 1, ""), vec![down(Key::B)]);
    e.set_config(load("", "linux").unwrap());
    assert_eq!(e.on_event(Key::A, 0, ""), vec![up(Key::B)]);

    let mut e = engine("modmap { map from=\"capslock\" to=\"left_ctrl\"; }");
    assert_eq!(e.on_event(Key::CapsLock, 1, ""), vec![down(Key::LeftCtrl)]);
    e.set_config(load("", "linux").unwrap());
    assert_eq!(e.on_event(Key::CapsLock, 0, ""), vec![up(Key::LeftCtrl)]);
    assert_eq!(e.on_event(Key::CapsLock, 1, ""), vec![down(Key::CapsLock)]);

    let mut e = engine("modmap { map from=\"capslock\" to=\"left_ctrl\"; }");
    e.on_event(Key::CapsLock, 1, "");
    e.set_config(load("", "linux").unwrap());
    e.track_passthrough(Key::CapsLock, 0);
    assert_eq!(e.on_event(Key::A, 1, ""), vec![down(Key::A)]);
}

#[test]
fn modifier_keys_go_down_and_up_in_turn() {
    let mut e = engine(
        r#"
        modmap { map from="capslock" to="left_hyper"; }
        multipurpose-modmap { map key="enter" tap="enter" hold="right_ctrl"; }
        keymap {
            bind "Hyper+a" { keys "C+M+left"; }
            bind "C+b" { keys "home"; keys "S+end"; }
            bind "M+c" { keys "s+d"; }
        }
        "#,
    );
    let keys = [
        Key::CapsLock,
        Key::A,
        Key::Enter,
        Key::B,
        Key::LeftAlt,
        Key::C,
        Key::RightShift,
        Key::LeftCtrl,
    ];
    let mut out = Vec::new();
    let mut seed: usize = 7;
    for _ in 0..2000 {
        seed = (seed * 1103515245 + 12345) % 2147483648;
        let key = keys[(seed / 65536) % keys.len()];
        out.extend(e.on_event(key, (seed / 1048576 % 3) as i32, ""));
        if seed % 97 == 0 {
            out.extend(e.clear_modifiers());
        }
    }
    for key in [Key::LeftAlt, Key::LeftCtrl, Key::LeftShift, Key::LeftMeta] {
        let moves: Vec<i32> = out.iter().filter(|o| o.key == key).map(|o| o.value).collect();
        assert!(!moves.is_empty());
        assert!(moves.iter().enumerate().all(|(i, v)| *v == if i % 2 == 0 { 1 } else { 0 }));
    }
}

#[test]
fn programs_and_areas_compare_the_same_both_ways() {
    let paths = ["/a/x", "/b/x (deleted)", "/b/y", "/"];
    for a in paths {
        for b in paths {
            assert_eq!(same_program(a, b), same_program(b, a));
        }
    }
    let rects = [(0, 0, 10, 10), (5, -5, 10, 10), (i32::MIN, 0, i32::MAX, 1)];
    for a in rects {
        for b in rects {
            assert_eq!(rect_overlap(a, b), rect_overlap(b, a));
        }
    }
}

#[test]
fn selections_last_until_they_are_cleared() {
    let mut engine = engine(
        r#"
        keymap {
            bind "C+space" { selection "start"; }
            bind "C+g" { selection "clear"; }
            bind "f" { keys "right" extend="selection"; }
        }
        "#,
    );
    let mut tap = |keys: &[(Key, i32)]| -> Vec<OutEvent> {
        keys.iter().flat_map(|(key, value)| engine.on_event(*key, *value, "")).collect()
    };
    let plain = vec![down(Key::Right), up(Key::Right)];
    let extended = vec![
        down(Key::LeftShift),
        down(Key::Right),
        up(Key::Right),
        up(Key::LeftShift),
    ];
    let ctrl = |key| [(Key::LeftCtrl, 1), (key, 1), (key, 0), (Key::LeftCtrl, 0)];
    assert_eq!(tap(&[(Key::F, 1), (Key::F, 0)]), plain);
    tap(&ctrl(Key::Space));
    assert_eq!(tap(&[(Key::F, 1), (Key::F, 0)]), extended);
    assert_eq!(tap(&[(Key::F, 1), (Key::F, 0)]), extended);
    tap(&ctrl(Key::G));
    assert_eq!(tap(&[(Key::F, 1), (Key::F, 0)]), plain);
}
