use rightkeys::actions::{CycleDirection, Effect, OutEvent, Side, Step, TileFraction, WindowAction};
use rightkeys::assoc::AssocMap;
use rightkeys::combo::{Combo, Modifier};
use rightkeys::engine::Engine;
use rightkeys::key::Key;
use rightkeys::rules::{AppMatcher, Config, KeymapRule, MultipurposeRule};

fn keymap(name: &str, matcher: AppMatcher, binds: Vec<(&str, Vec<Step>)>) -> KeymapRule {
    let bindings = AssocMap::from_pairs(
        binds
            .into_iter()
            .map(|(combo, steps)| (Combo::parse(combo).unwrap(), steps))
            .collect(),
    );
    KeymapRule {
        name: name.to_string(),
        matcher,
        bindings,
    }
}

/// The fraction as a number.
fn as_f64(fraction: TileFraction) -> f64 {
    let (num, den) = fraction.ratio();
    f64::from(num) / f64::from(den)
}

fn press(key: Key) -> OutEvent {
    OutEvent { key, value: 1 }
}

fn release(key: Key) -> OutEvent {
    OutEvent { key, value: 0 }
}

#[test]
fn smart_tile_cycles_per_edge_and_resets_on_break() {
    let tile = |side| Step::Window(WindowAction::SmartTile { side, fraction: TileFraction::Half });
    let config = Config {
        keymaps: vec![keymap(
            "g",
            AppMatcher::default(),
            vec![
                ("h", vec![tile(Side::Left)]),
                ("l", vec![tile(Side::Right)]),
                ("0", vec![Step::Window(WindowAction::Maximize)]),
            ],
        )],
        ..Config::default()
    };
    let mut engine = Engine::new(config);

    // Tap a key and return the fraction of the single SmartTile effect it produced.
    fn tap_tile(engine: &mut Engine, key: Key) -> f64 {
        engine.on_event(key, 1, "");
        engine.on_event(key, 0, "");
        match engine.take_effects().as_slice() {
            [Effect::Window(WindowAction::SmartTile { fraction, .. })] => as_f64(*fraction),
            other => panic!("expected one SmartTile effect, got {other:?}"),
        }
    }

    // Consecutive same-edge tiles cycle 1/2 → 1/3 → 2/3 → 1/2.
    assert_eq!(tap_tile(&mut engine, Key::H), 0.5);
    assert_eq!(tap_tile(&mut engine, Key::H), 1.0 / 3.0);
    assert_eq!(tap_tile(&mut engine, Key::H), 2.0 / 3.0);
    assert_eq!(tap_tile(&mut engine, Key::H), 0.5);

    // Switching edge restarts at a half.
    assert_eq!(tap_tile(&mut engine, Key::H), 1.0 / 3.0);
    assert_eq!(tap_tile(&mut engine, Key::L), 0.5);

    // Another action between tiles breaks the chain: the next tile is a half.
    assert_eq!(tap_tile(&mut engine, Key::L), 1.0 / 3.0);
    engine.on_event(Key::Num0, 1, "");
    engine.on_event(Key::Num0, 0, "");
    engine.take_effects();
    assert_eq!(tap_tile(&mut engine, Key::L), 0.5);
}

#[test]
fn passes_through_unbound_keys() {
    let mut engine = Engine::new(Config::default());
    assert_eq!(engine.on_event(Key::A, 1, ""), vec![press(Key::A)]);
    assert_eq!(engine.on_event(Key::A, 0, ""), vec![release(Key::A)]);
}

#[test]
fn remaps_bound_combo_releasing_held_modifier() {
    let config = Config {
        keymaps: vec![keymap(
            "global",
            AppMatcher::default(),
            vec![("C+a", vec![Step::Keys(Combo::parse("home").unwrap())])],
        )],
        ..Config::default()
    };
    let mut engine = Engine::new(config);
    // Ctrl is forwarded eagerly so the OS sees it while held.
    assert_eq!(
        engine.on_event(Key::LeftCtrl, 1, ""),
        vec![press(Key::LeftCtrl)]
    );
    // C-a is bound to Home, which needs no modifiers: Ctrl is released around
    // the Home press, and restored when the held key is lifted.
    assert_eq!(
        engine.on_event(Key::A, 1, ""),
        vec![release(Key::LeftCtrl), press(Key::Home)]
    );
    assert_eq!(
        engine.on_event(Key::A, 0, ""),
        vec![release(Key::Home), press(Key::LeftCtrl)]
    );
}

#[test]
fn single_combo_binding_holds_and_repeats() {
    let config = Config {
        keymaps: vec![keymap(
            "browser",
            AppMatcher::default(),
            vec![("M+S+j", vec![Step::Keys(Combo::parse("down").unwrap())])],
        )],
        ..Config::default()
    };
    let mut engine = Engine::new(config);
    // Both modifiers are forwarded eagerly.
    assert_eq!(
        engine.on_event(Key::LeftAlt, 1, ""),
        vec![press(Key::LeftAlt)]
    );
    assert_eq!(
        engine.on_event(Key::LeftShift, 1, ""),
        vec![press(Key::LeftShift)]
    );
    // M-S-j is bound to bare Down: the held modifiers are released around the
    // Down press, held for repeats, and restored when the key is lifted.
    assert_eq!(
        engine.on_event(Key::J, 1, ""),
        vec![
            release(Key::LeftAlt),
            release(Key::LeftShift),
            press(Key::Down)
        ]
    );
    assert_eq!(
        engine.on_event(Key::J, 2, ""),
        vec![OutEvent {
            key: Key::Down,
            value: 2
        }]
    );
    assert_eq!(
        engine.on_event(Key::J, 0, ""),
        vec![
            release(Key::Down),
            press(Key::LeftAlt),
            press(Key::LeftShift)
        ]
    );
}

#[test]
fn shift_passthrough_syncs_modifier() {
    let mut engine = Engine::new(Config::default());
    // Shift is forwarded on its own press, so an unbound Shift-a rides the
    // already-live modifier state and only adds the `a`.
    assert_eq!(
        engine.on_event(Key::LeftShift, 1, ""),
        vec![press(Key::LeftShift)]
    );
    let out = engine.on_event(Key::A, 1, "");
    assert_eq!(out, vec![press(Key::A)]);
}

#[test]
fn mark_to_binding_holds_and_repeats() {
    let config = Config {
        keymaps: vec![keymap(
            "g",
            AppMatcher::default(),
            vec![("C+f", vec![Step::WithMark(Combo::parse("right").unwrap())])],
        )],
        ..Config::default()
    };
    let mut engine = Engine::new(config);
    assert_eq!(
        engine.on_event(Key::LeftCtrl, 1, ""),
        vec![press(Key::LeftCtrl)]
    );
    // Mark off: plain Right, held down so it auto-repeats. Ctrl is released
    // around the press and restored on release.
    assert_eq!(
        engine.on_event(Key::F, 1, ""),
        vec![release(Key::LeftCtrl), press(Key::Right)]
    );
    assert_eq!(
        engine.on_event(Key::F, 2, ""),
        vec![OutEvent {
            key: Key::Right,
            value: 2
        }]
    );
    assert_eq!(
        engine.on_event(Key::F, 0, ""),
        vec![release(Key::Right), press(Key::LeftCtrl)]
    );
}

#[test]
fn mark_to_extends_selection_when_marked() {
    let config = Config {
        keymaps: vec![keymap(
            "g",
            AppMatcher::default(),
            vec![
                ("C+space", vec![Step::SetMark(true)]),
                ("C+f", vec![Step::WithMark(Combo::parse("right").unwrap())]),
            ],
        )],
        ..Config::default()
    };
    let mut engine = Engine::new(config);
    // Turn the mark on, then C-f holds Shift+Right (extends selection). Ctrl
    // is forwarded eagerly, then swapped for Shift around the Right press.
    assert_eq!(
        engine.on_event(Key::LeftCtrl, 1, ""),
        vec![press(Key::LeftCtrl)]
    );
    engine.on_event(Key::Space, 1, "");
    engine.on_event(Key::Space, 0, "");
    assert_eq!(
        engine.on_event(Key::F, 1, ""),
        vec![
            release(Key::LeftCtrl),
            press(Key::LeftShift),
            press(Key::Right)
        ]
    );
}

#[test]
fn sync_modifiers_is_noop_once_modifier_is_live() {
    // The backend still asks the engine to reassert modifiers before
    // forwarding a key absent from the table. With eager forwarding the
    // modifier is already down, so this is a no-op rather than a re-emit.
    let mut engine = Engine::new(Config::default());
    assert_eq!(
        engine.on_event(Key::LeftShift, 1, ""),
        vec![press(Key::LeftShift)]
    );
    assert!(engine.sync_modifiers().is_empty());
}

#[test]
fn held_modifier_reaches_os_for_mouse_combos() {
    // Regression: a bare held modifier must be forwarded to the OS so a
    // different device (the mouse) sees it, e.g. Shift/Ctrl-click
    // multi-select. The engine never sees the click; what matters is that
    // pressing the modifier emits it and keeps it down, then releasing lifts
    // exactly what was added.
    let mut engine = Engine::new(Config::default());
    assert_eq!(
        engine.on_event(Key::LeftCtrl, 1, ""),
        vec![press(Key::LeftCtrl)]
    );
    assert_eq!(
        engine.on_event(Key::LeftShift, 1, ""),
        vec![press(Key::LeftShift)]
    );
    assert_eq!(
        engine.on_event(Key::LeftShift, 0, ""),
        vec![release(Key::LeftShift)]
    );
    assert_eq!(
        engine.on_event(Key::LeftCtrl, 0, ""),
        vec![release(Key::LeftCtrl)]
    );
}

#[test]
fn clear_modifiers_releases_held_and_forgets_them() {
    // A modifier held to open an overlay (pick-window, pick-element) must be
    // released when the overlay is dismissed, and forgotten so it is neither
    // re-pressed by the next key nor double-released when the physical key
    // comes up.
    let mut engine = Engine::new(Config::default());
    assert_eq!(
        engine.on_event(Key::LeftAlt, 1, ""),
        vec![press(Key::LeftAlt)]
    );
    assert_eq!(engine.clear_modifiers(), vec![release(Key::LeftAlt)]);
    // Already cleared: a second call and the eventual physical release are no-ops.
    assert!(engine.clear_modifiers().is_empty());
    assert!(engine.on_event(Key::LeftAlt, 0, "").is_empty());
}

#[test]
fn passthrough_release_clears_stuck_modifier() {
    // Super+Alt+key focuses a grabbing client (e.g. a VM): the key and the
    // modifier releases are forwarded raw. Tracking them keeps the engine's
    // modifier set accurate so Alt is not left "stuck on" afterwards.
    let mut engine = Engine::new(Config::default());
    // Both modifiers are forwarded eagerly on their presses.
    assert_eq!(engine.on_event(Key::LeftMeta, 1, ""), vec![press(Key::LeftMeta)]);
    assert_eq!(engine.on_event(Key::LeftAlt, 1, ""), vec![press(Key::LeftAlt)]);
    // Grab is now active: the key press and both modifier releases bypass
    // remapping and are forwarded raw.
    engine.track_passthrough(Key::J, 1);
    engine.track_passthrough(Key::J, 0);
    engine.track_passthrough(Key::LeftAlt, 0);
    engine.track_passthrough(Key::LeftMeta, 0);
    // Back to normal: a plain letter types itself with no leftover modifiers.
    assert_eq!(engine.on_event(Key::A, 1, ""), vec![press(Key::A)]);
}

#[test]
fn overlapping_hyper_chords_do_not_stick_a_modifier() {
    // Two held Hyper combos that each carry Alt (word-wise nav). Releasing
    // them out of order must not leave Alt pressed once everything is up.
    let config = Config {
        modmap: AssocMap::from_pairs(vec![(Key::CapsLock, Key::LeftHyper)]),
        keymaps: vec![keymap(
            "global",
            AppMatcher::default(),
            vec![
                ("Hyper+h", vec![Step::Keys(Combo::parse("M+left").unwrap())]),
                ("Hyper+l", vec![Step::Keys(Combo::parse("M+right").unwrap())]),
            ],
        )],
        ..Config::default()
    };
    let mut engine = Engine::new(config);
    engine.on_event(Key::CapsLock, 1, ""); // Hyper down
    engine.on_event(Key::H, 1, ""); // Alt+Left, held
    engine.on_event(Key::L, 1, ""); // Alt+Right, held
    engine.on_event(Key::CapsLock, 0, ""); // Hyper up first
    engine.on_event(Key::H, 0, "");
    engine.on_event(Key::L, 0, "");
    // Everything is physically up: a plain letter must type cleanly, with no
    // leftover Alt resurrected by a stale held-chord snapshot.
    assert_eq!(engine.on_event(Key::A, 1, ""), vec![press(Key::A)]);
}

#[test]
fn synthetic_hyper_is_never_forwarded() {
    // Eager forwarding must not leak the internal-only Hyper modifier: it has
    // no OS key, so its press and release emit nothing.
    let config = Config {
        modmap: AssocMap::from_pairs(vec![(Key::CapsLock, Key::LeftHyper)]),
        ..Config::default()
    };
    let mut engine = Engine::new(config);
    assert!(engine.on_event(Key::CapsLock, 1, "").is_empty());
    assert!(engine.on_event(Key::CapsLock, 0, "").is_empty());
}

#[test]
fn modmap_capslock_to_hyper_is_internal_only() {
    let config = Config {
        modmap: AssocMap::from_pairs(vec![(Key::CapsLock, Key::LeftHyper)]),
        keymaps: vec![keymap(
            "global",
            AppMatcher::default(),
            vec![(
                "Hyper+left",
                vec![Step::Keys(Combo::parse("s+left").unwrap())],
            )],
        )],
        ..Config::default()
    };
    let mut engine = Engine::new(config);
    // CapsLock press maps to Hyper: tracked, nothing emitted.
    assert!(engine.on_event(Key::CapsLock, 1, "").is_empty());
    // The target carries Super, so the chord is emitted one-shot: Super is
    // pressed, Left tapped, and Super released, all on the press. This keeps
    // the modifier state clean for window-manager shortcuts that synthesise
    // further keys. The physical release then emits nothing.
    assert_eq!(
        engine.on_event(Key::Left, 1, ""),
        vec![
            press(Key::LeftMeta),
            press(Key::Left),
            release(Key::Left),
            release(Key::LeftMeta)
        ]
    );
    assert!(engine.on_event(Key::Left, 0, "").is_empty());
}

#[test]
fn super_chord_emits_one_shot_not_held() {
    // A WM-shortcut chord (Hyper+h -> C+M+s+S+h) must release its modifiers
    // immediately, so a shortcut the window manager fires off it sees a clean
    // modifier state. The chord is pressed and released on the press event,
    // and the physical release emits nothing.
    let config = Config {
        modmap: AssocMap::from_pairs(vec![(Key::CapsLock, Key::LeftHyper)]),
        keymaps: vec![keymap(
            "global",
            AppMatcher::default(),
            vec![(
                "Hyper+h",
                vec![Step::Keys(Combo::parse("C+M+s+S+h").unwrap())],
            )],
        )],
        ..Config::default()
    };
    let mut engine = Engine::new(config);
    assert!(engine.on_event(Key::CapsLock, 1, "").is_empty());
    assert_eq!(
        engine.on_event(Key::H, 1, ""),
        vec![
            press(Key::LeftAlt),
            press(Key::LeftCtrl),
            press(Key::LeftShift),
            press(Key::LeftMeta),
            press(Key::H),
            release(Key::H),
            release(Key::LeftAlt),
            release(Key::LeftCtrl),
            release(Key::LeftShift),
            release(Key::LeftMeta),
        ]
    );
    assert!(engine.on_event(Key::H, 0, "").is_empty());
}

#[test]
fn modifier_function_key_emits_one_shot() {
    // A real modifier paired with a function key (e.g. M+f4 to close a
    // window) is a window-manager shortcut, so it is emitted one-shot on the
    // trigger press — not held down. Holding it would leave Alt reported as
    // down while the WM shows its close-confirm dialog, so clicks land as
    // Alt+click (a window drag) and the dialog appears frozen. The trigger
    // release emits nothing; Alt is lifted by its own physical release.
    let config = Config {
        keymaps: vec![keymap(
            "global",
            AppMatcher::default(),
            vec![("M+q", vec![Step::Keys(Combo::parse("M+f4").unwrap())])],
        )],
        ..Config::default()
    };
    let mut engine = Engine::new(config);
    assert_eq!(
        engine.on_event(Key::LeftAlt, 1, ""),
        vec![press(Key::LeftAlt)]
    );
    assert_eq!(
        engine.on_event(Key::Q, 1, ""),
        vec![press(Key::F4), release(Key::F4)]
    );
    assert!(engine.on_event(Key::Q, 0, "").is_empty());
    assert_eq!(
        engine.on_event(Key::LeftAlt, 0, ""),
        vec![release(Key::LeftAlt)]
    );
}

#[test]
fn non_super_chord_still_holds_for_repeat() {
    // A modifier-bearing target without Super (e.g. mark-to C-left) keeps the
    // held-chord behaviour so holding the key auto-repeats word-left.
    let config = Config {
        keymaps: vec![keymap(
            "global",
            AppMatcher::default(),
            vec![("M+b", vec![Step::Keys(Combo::parse("C+left").unwrap())])],
        )],
        ..Config::default()
    };
    let mut engine = Engine::new(config);
    assert_eq!(
        engine.on_event(Key::LeftAlt, 1, ""),
        vec![press(Key::LeftAlt)]
    );
    // M-b is bound to C-left: Alt is swapped for Ctrl around the held Left,
    // and Alt is restored when the key is released.
    assert_eq!(
        engine.on_event(Key::B, 1, ""),
        vec![
            release(Key::LeftAlt),
            press(Key::LeftCtrl),
            press(Key::Left)
        ]
    );
    assert_eq!(
        engine.on_event(Key::B, 2, ""),
        vec![OutEvent {
            key: Key::Left,
            value: 2
        }]
    );
    assert_eq!(
        engine.on_event(Key::B, 0, ""),
        vec![
            release(Key::Left),
            release(Key::LeftCtrl),
            press(Key::LeftAlt)
        ]
    );
}

#[test]
fn tap_hold_taps_when_released_alone() {
    let config = Config {
        multipurpose: vec![MultipurposeRule {
            matcher: AppMatcher::default(),
            map: AssocMap::from_pairs(vec![(Key::LeftAlt, (Key::Esc, Modifier::Alt))]),
        }],
        ..Config::default()
    };
    let mut engine = Engine::new(config);
    assert!(engine.on_event(Key::LeftAlt, 1, "").is_empty());
    let out = engine.on_event(Key::LeftAlt, 0, "");
    assert_eq!(out, vec![press(Key::Esc), release(Key::Esc)]);
}

#[test]
fn tap_hold_holds_when_another_key_pressed() {
    let config = Config {
        multipurpose: vec![MultipurposeRule {
            matcher: AppMatcher::default(),
            map: AssocMap::from_pairs(vec![(Key::LeftAlt, (Key::Esc, Modifier::Alt))]),
        }],
        ..Config::default()
    };
    let mut engine = Engine::new(config);
    assert!(engine.on_event(Key::LeftAlt, 1, "").is_empty());
    // Pressing X while Alt is held resolves Alt to its hold meaning.
    let out = engine.on_event(Key::X, 1, "");
    assert_eq!(out, vec![press(Key::LeftAlt), press(Key::X)]);
}

#[test]
fn tap_hold_timeout_commits_to_modifier() {
    // A tap-hold key held past the timeout with no other key must commit to
    // its hold modifier, so a mouse click (which never reaches the engine)
    // still sees it.
    let config = Config {
        multipurpose: vec![MultipurposeRule {
            matcher: AppMatcher::default(),
            map: AssocMap::from_pairs(vec![(Key::LeftAlt, (Key::Esc, Modifier::Alt))]),
        }],
        ..Config::default()
    };
    let mut engine = Engine::new(config);
    assert!(engine.on_event(Key::LeftAlt, 1, "").is_empty());
    assert!(engine.has_pending_hold());
    // The timeout commits the hold and forwards Alt to the OS.
    assert_eq!(engine.flush_pending_hold(), vec![press(Key::LeftAlt)]);
    assert!(!engine.has_pending_hold());
    // A second flush is a no-op; releasing the key lifts the modifier.
    assert!(engine.flush_pending_hold().is_empty());
    assert_eq!(
        engine.on_event(Key::LeftAlt, 0, ""),
        vec![release(Key::LeftAlt)]
    );
}

#[test]
fn flush_pending_hold_is_noop_without_pending() {
    let mut engine = Engine::new(Config::default());
    assert!(!engine.has_pending_hold());
    assert!(engine.flush_pending_hold().is_empty());
}

#[test]
fn exec_step_records_launch_effect_and_emits_no_keys() {
    let config = Config {
        keymaps: vec![keymap(
            "g",
            AppMatcher::default(),
            vec![("b", vec![Step::Exec("brave".to_string())])],
        )],
        ..Config::default()
    };
    let mut engine = Engine::new(config);
    // The trigger key is swallowed (no keystroke), and a Launch effect is queued.
    assert!(engine.on_event(Key::B, 1, "").is_empty());
    assert_eq!(engine.take_effects(), vec![Effect::Launch("brave".to_string())]);
    // Effects are drained: a second take is empty, and the release emits nothing.
    assert!(engine.take_effects().is_empty());
    assert!(engine.on_event(Key::B, 0, "").is_empty());
}

#[test]
fn exec_keeps_held_modifier_for_chained_combos() {
    // Holding a modifier and firing several combos (leader-key style) must
    // keep the modifier live: launching an app must not wipe it, or the next
    // combo under the same hold would be seen without the modifier and fail.
    let config = Config {
        keymaps: vec![keymap(
            "global",
            AppMatcher::default(),
            vec![
                ("s+g", vec![Step::Exec("app".to_string())]),
                ("s+l", vec![Step::Keys(Combo::parse("down").unwrap())]),
            ],
        )],
        ..Config::default()
    };
    let mut engine = Engine::new(config);
    engine.on_event(Key::LeftMeta, 1, ""); // Super down, kept held
    engine.on_event(Key::G, 1, ""); // exec: queues launch, leaves Super intact
    engine.on_event(Key::G, 0, "");
    assert_eq!(engine.take_effects(), vec![Effect::Launch("app".to_string())]);
    // Still holding Super: s+l resolves as Super+l (-> Down), proving the
    // launch did not drop the held modifier.
    let out = engine.on_event(Key::L, 1, "");
    assert!(out.contains(&press(Key::Down)), "got {out:?}");
}

#[test]
fn window_step_records_window_effect() {
    let config = Config {
        keymaps: vec![keymap(
            "g",
            AppMatcher::default(),
            vec![("0", vec![Step::Window(WindowAction::Maximize)])],
        )],
        ..Config::default()
    };
    let mut engine = Engine::new(config);
    assert!(engine.on_event(Key::Num0, 1, "").is_empty());
    assert_eq!(
        engine.take_effects(),
        vec![Effect::Window(WindowAction::Maximize)]
    );
}

#[test]
fn window_adjust_repeats_while_held() {
    let adjust = WindowAction::Adjust {
        dx: 20,
        dy: 0,
        dw: 0,
        dh: 0,
    };
    let config = Config {
        keymaps: vec![keymap(
            "g",
            AppMatcher::default(),
            vec![("l", vec![Step::Window(adjust)])],
        )],
        ..Config::default()
    };
    let mut engine = Engine::new(config);
    // Press and each auto-repeat queue another move; the key emits no keystroke.
    assert!(engine.on_event(Key::L, 1, "").is_empty());
    assert_eq!(engine.take_effects(), vec![Effect::Window(adjust)]);
    assert!(engine.on_event(Key::L, 2, "").is_empty());
    assert!(engine.on_event(Key::L, 2, "").is_empty());
    assert_eq!(
        engine.take_effects(),
        vec![Effect::Window(adjust), Effect::Window(adjust)]
    );
    // Release stops the repeat: a further (stray) repeat queues nothing.
    assert!(engine.on_event(Key::L, 0, "").is_empty());
    assert!(engine.on_event(Key::L, 2, "").is_empty());
    assert!(engine.take_effects().is_empty());
}

#[test]
fn cycle_direction_steps_and_wraps() {
    // len 3: forward advances, wrapping past the end; backward retreats,
    // wrapping past the start.
    assert_eq!(CycleDirection::Forward.step(0, 3), 1);
    assert_eq!(CycleDirection::Forward.step(2, 3), 0);
    assert_eq!(CycleDirection::Backward.step(2, 3), 1);
    assert_eq!(CycleDirection::Backward.step(0, 3), 2);
}

#[test]
fn pass_through_matches_builtin_vm_classes_and_config() {
    // Built-in VM identifiers match with no config, case-insensitively, so a
    // focused guest receives keys raw out of the box. `qemu` and `virtualbox`
    // are in every platform's set, keeping this test OS-agnostic.
    let engine = Engine::new(Config::default());
    assert!(engine.is_pass_through("linux", "qemu-system-x86_64"));
    assert!(engine.is_pass_through("linux", "VirtualBoxVM"));
    assert!(!engine.is_pass_through("linux", "Alacritty"));
    assert!(!engine.is_pass_through("linux", ""));

    // A user-listed class extends the built-in set.
    let config = Config {
        pass_through: vec!["Remmina".to_string()],
        ..Config::default()
    };
    let engine = Engine::new(config);
    assert!(engine.is_pass_through("linux", "org.remmina.Remmina"));
    assert!(engine.is_pass_through("linux", "qemu")); // built-ins still apply
}
