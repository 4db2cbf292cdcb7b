use rightkeys::actions::{Corner, CycleDirection, Scale, Side, Step, WindowAction, Workspace};
use rightkeys::combo::Combo;
use rightkeys::config::{load, ConfigError};
use rightkeys::key::Key;
use rightkeys::rules::Config;

/// The system the tests lower for.
const THIS: &str = "linux";

/// The number a scale stands for.
fn as_f64(scale: Scale) -> f64 {
    match scale {
        Scale::Float(bits) => f64::from_bits(bits),
        Scale::Integer(i) => i as f64,
    }
}

fn lower_str(text: &str) -> Result<Config, ConfigError> {
    load(text, THIS)
}

#[test]
fn lowers_modmap_and_keymap() {
    let config = lower_str(
        r#"
        modmap {
            map from="capslock" to="left_hyper"
        }
        keymap name="global" {
            bind "Hyper+left" { keys "s+left"; }
            bind "C+a" { keys "home" extend="selection"; }
            bind "C+k" {
                keys "S+end"
                keys "C+x"
                selection "clear"
            }
        }
        "#,
    )
    .unwrap();

    assert_eq!(config.modmap.get(&Key::CapsLock), Some(&Key::LeftHyper));
    let keymap = &config.keymaps[0];
    assert_eq!(keymap.name, "global");
    assert_eq!(keymap.bindings.len(), 3);
    let ck = keymap.bindings.get(&Combo::parse("C+k").unwrap()).unwrap();
    assert_eq!(ck.len(), 3);
}

#[test]
fn rejects_non_modifier_hold() {
    let err = lower_str(
        r#"
        multipurpose-modmap {
            map key="left_alt" tap="esc" hold="a"
        }
        "#,
    )
    .unwrap_err();
    assert!(err.message().contains("not a modifier"));
}

#[test]
fn application_matcher_compiles() {
    let config = lower_str(
        r#"
        keymap application="Firefox|Brave" {
            bind "M+l" { keys "C+l"; }
        }
        "#,
    )
    .unwrap();
    let matcher = &config.keymaps[0].matcher;
    assert!(matcher.matches("Firefox"));
    assert!(!matcher.matches("Code"));
}

#[test]
fn rejects_unknown_top_level_node() {
    assert!(lower_str("bogus-node\n").is_err());
}

#[test]
fn lowers_exec_and_window_steps() {
    let config = lower_str(
        r#"
        keymap name="global" {
            bind "Hyper+b" { exec "brave"; }
            bind "Hyper+0" { wm action="maximize"; }
            bind "Hyper+y" { wm action="adjust" dx=-30; }
            bind "Hyper+6" { wm action="preset" w=0.6 h=0.75; }
        }
        "#,
    )
    .unwrap();
    let bindings = &config.keymaps[0].bindings;
    assert_eq!(bindings.len(), 4);

    let exec = bindings.get(&Combo::parse("Hyper+b").unwrap()).unwrap();
    assert!(matches!(exec.as_slice(), [Step::Exec(p)] if p == "brave"));

    let adjust = bindings.get(&Combo::parse("Hyper+y").unwrap()).unwrap();
    assert!(matches!(
        adjust.as_slice(),
        [Step::Window(WindowAction::Adjust { dx: -30, dy: 0, dw: 0, dh: 0 })]
    ));

    let preset = bindings.get(&Combo::parse("Hyper+6").unwrap()).unwrap();
    assert!(matches!(
        preset.as_slice(),
        [Step::Window(WindowAction::Preset { w, h, anchor: None })] if as_f64(*w) == 0.6 && as_f64(*h) == 0.75
    ));
}

#[test]
fn parses_find_window_action() {
    let config = lower_str(r#"keymap { bind "Hyper+f" { wm action="find-window"; } }"#).unwrap();
    let b = &config.keymaps[0].bindings;
    assert!(matches!(
        b.get(&Combo::parse("Hyper+f").unwrap()).unwrap().as_slice(),
        [Step::Window(WindowAction::FindWindow)]
    ));
}

#[test]
fn rejects_unknown_window_action() {
    assert!(lower_str(r#"keymap { bind "Hyper+x" { wm action="fly"; } }"#).is_err());
}

#[test]
fn lowers_center_corner_smarttile_and_workspaces() {
    let config = lower_str(
        r#"
        keymap {
            bind "Hyper+c" { wm action="center"; }
            bind "Hyper+q" { wm action="corner" to="top-left"; }
            bind "Hyper+a" { wm action="smart-tile" to="left"; }
            bind "C+s+3" { wm action="workspace" to="3"; }
            bind "C+M+s+3" { wm action="move-to-workspace" to="3"; }
            bind "C+s+l" { wm action="workspace" to="next"; }
        }
        "#,
    )
    .unwrap();
    let b = &config.keymaps[0].bindings;

    assert!(matches!(
        b.get(&Combo::parse("Hyper+c").unwrap()).unwrap().as_slice(),
        [Step::Window(WindowAction::Center)]
    ));
    assert!(matches!(
        b.get(&Combo::parse("Hyper+q").unwrap()).unwrap().as_slice(),
        [Step::Window(WindowAction::Corner(Corner::TopLeft))]
    ));
    assert!(matches!(
        b.get(&Combo::parse("Hyper+a").unwrap()).unwrap().as_slice(),
        [Step::Window(WindowAction::SmartTile { side: Side::Left, .. })]
    ));
    assert!(matches!(
        b.get(&Combo::parse("C+s+3").unwrap()).unwrap().as_slice(),
        [Step::Window(WindowAction::Workspace { target: Workspace::Index(3), move_window: false })]
    ));
    assert!(matches!(
        b.get(&Combo::parse("C+M+s+3").unwrap()).unwrap().as_slice(),
        [Step::Window(WindowAction::Workspace { target: Workspace::Index(3), move_window: true })]
    ));
    assert!(matches!(
        b.get(&Combo::parse("C+s+l").unwrap()).unwrap().as_slice(),
        [Step::Window(WindowAction::Workspace { target: Workspace::Next, move_window: false })]
    ));
}

#[test]
fn parses_minimize_always_on_top_and_move_to_monitor() {
    let config = lower_str(
        r#"
        keymap {
            bind "a" { wm action="minimize"; }
            bind "b" { wm action="always-on-top"; }
            bind "c" { wm action="move-to-monitor" to="next"; }
            bind "d" { wm action="move-to-monitor" to="prev"; }
        }
        "#,
    )
    .unwrap();
    let b = &config.keymaps[0].bindings;
    assert!(matches!(
        b.get(&Combo::parse("a").unwrap()).unwrap().as_slice(),
        [Step::Window(WindowAction::Minimize)]
    ));
    assert!(matches!(
        b.get(&Combo::parse("b").unwrap()).unwrap().as_slice(),
        [Step::Window(WindowAction::AlwaysOnTop)]
    ));
    assert!(matches!(
        b.get(&Combo::parse("c").unwrap()).unwrap().as_slice(),
        [Step::Window(WindowAction::MoveToMonitor(CycleDirection::Forward))]
    ));
    assert!(matches!(
        b.get(&Combo::parse("d").unwrap()).unwrap().as_slice(),
        [Step::Window(WindowAction::MoveToMonitor(CycleDirection::Backward))]
    ));
    // move-to-monitor requires a direction.
    assert!(lower_str(r#"keymap { bind "e" { wm action="move-to-monitor"; } }"#).is_err());
}

#[test]
fn cycle_same_app_direction_defaults_to_forward_and_parses_backward() {
    let config = lower_str(
        r#"
        keymap {
            bind "a" { wm action="cycle-same-app"; }
            bind "b" { wm action="cycle-same-app" direction="backward"; }
        }
        "#,
    )
    .unwrap();
    let b = &config.keymaps[0].bindings;
    assert!(matches!(
        b.get(&Combo::parse("a").unwrap()).unwrap().as_slice(),
        [Step::Window(WindowAction::CycleSameApp(CycleDirection::Forward))]
    ));
    assert!(matches!(
        b.get(&Combo::parse("b").unwrap()).unwrap().as_slice(),
        [Step::Window(WindowAction::CycleSameApp(CycleDirection::Backward))]
    ));
    assert!(lower_str(r#"keymap { bind "c" { wm action="cycle-same-app" direction="sideways"; } }"#).is_err());
}

#[test]
fn preset_anchor_defaults_to_center_and_parses_corners() {
    let config = lower_str(
        r#"
        keymap {
            bind "a" { wm action="preset" w=0.87 h=0.81 anchor="top-left"; }
            bind "b" { wm action="preset" w=0.5 h=0.6; }
            bind "c" { wm action="preset" w=0.5 h=0.6 anchor="center"; }
        }
        "#,
    )
    .unwrap();
    let b = &config.keymaps[0].bindings;
    assert!(matches!(
        b.get(&Combo::parse("a").unwrap()).unwrap().as_slice(),
        [Step::Window(WindowAction::Preset { anchor: Some(Corner::TopLeft), .. })]
    ));
    assert!(matches!(
        b.get(&Combo::parse("b").unwrap()).unwrap().as_slice(),
        [Step::Window(WindowAction::Preset { anchor: None, .. })]
    ));
    assert!(matches!(
        b.get(&Combo::parse("c").unwrap()).unwrap().as_slice(),
        [Step::Window(WindowAction::Preset { anchor: None, .. })]
    ));
}

#[test]
fn rejects_unknown_corner_and_workspace() {
    assert!(lower_str(r#"keymap { bind "a" { wm action="corner" to="middle"; } }"#).is_err());
    assert!(lower_str(r#"keymap { bind "a" { wm action="workspace" to="abc"; } }"#).is_err());
}

#[test]
fn exec_resolves_per_os_target_and_skips_other_os_only() {
    let this = THIS;
    let other = if this == "linux" { "windows" } else { "linux" };
    let config = lower_str(&format!(
        r#"
        keymap {{
            bind "a" {{ exec windows="w.exe" linux="l" macos="m"; }}
            bind "b" {{ exec "shared"; }}
            bind "c" {{ exec {other}="only-other"; }}
        }}
        "#
    ))
    .unwrap();
    let b = &config.keymaps[0].bindings;

    // Positional default applies on every OS.
    assert!(matches!(
        b.get(&Combo::parse("b").unwrap()).unwrap().as_slice(),
        [Step::Exec(p)] if p == "shared"
    ));
    // A target listing only the *other* OS is skipped here.
    assert!(!b.contains_key(&Combo::parse("c").unwrap()));
    // The per-OS target resolves to this host's value (when listed).
    if let "windows" | "linux" | "macos" = this {
        let expected = match this {
            "windows" => "w.exe",
            "linux" => "l",
            _ => "m",
        };
        assert!(matches!(
            b.get(&Combo::parse("a").unwrap()).unwrap().as_slice(),
            [Step::Exec(p)] if p == expected
        ));
    }
}

#[test]
fn keys_resolves_per_os_and_skips_other_os_only() {
    let this = THIS;
    let other = if this == "linux" { "windows" } else { "linux" };
    let config = lower_str(&format!(
        r#"
        keymap {{
            bind "a" {{ keys windows="C+a" linux="C+q" macos="s+q"; }}
            bind "b" {{ keys "C+b"; }}
            bind "c" {{ keys {other}="C+c"; }}
        }}
        "#
    ))
    .unwrap();
    let b = &config.keymaps[0].bindings;

    // Positional default applies on every OS.
    let expected_b = Combo::parse("C+b").unwrap();
    assert!(matches!(
        b.get(&Combo::parse("b").unwrap()).unwrap().as_slice(),
        [Step::Keys(c)] if *c == expected_b
    ));
    // A remap listing only the *other* OS is skipped here.
    assert!(!b.contains_key(&Combo::parse("c").unwrap()));
    // The per-OS remap resolves to this host's value.
    let expected_a = match this {
        "windows" => "C+a",
        "macos" => "s+q",
        _ => "C+q",
    };
    let expected_a = Combo::parse(expected_a).unwrap();
    assert!(matches!(
        b.get(&Combo::parse("a").unwrap()).unwrap().as_slice(),
        [Step::Keys(c)] if *c == expected_a
    ));
}

#[test]
fn selection_node_and_keys_extend() {
    let config = lower_str(
        r#"
        keymap {
            bind "a" { selection "start"; }
            bind "b" { selection "clear"; }
            bind "c" { keys "home" extend="selection"; }
            bind "d" { keys "home"; }
        }
        "#,
    )
    .unwrap();
    let bindings = &config.keymaps[0].bindings;
    let get = |c: &str| bindings.get(&Combo::parse(c).unwrap()).unwrap().as_slice();
    let home = Combo::parse("home").unwrap();
    assert!(matches!(get("a"), [Step::SetMark(true)]));
    assert!(matches!(get("b"), [Step::SetMark(false)]));
    assert!(matches!(get("c"), [Step::WithMark(x)] if *x == home));
    assert!(matches!(get("d"), [Step::Keys(x)] if *x == home));
}

#[test]
fn bind_pairs_per_os_keys_and_exec() {
    // A bind may pair a Windows-only `keys` with a Linux-only `exec`; only the
    // step for this OS survives, and the binding still applies.
    let config = lower_str(
        r#"keymap { bind "s+x" { keys windows="C+esc"; exec linux="menu.sh"; } }"#,
    )
    .unwrap();
    let steps = config
        .keymaps[0]
        .bindings
        .get(&Combo::parse("s+x").unwrap())
        .unwrap()
        .as_slice();
    match THIS {
        "linux" => assert!(matches!(steps, [Step::Exec(p)] if p == "menu.sh")),
        "windows" => {
            let esc = Combo::parse("C+esc").unwrap();
            assert!(matches!(steps, [Step::Keys(c)] if *c == esc));
        }
        _ => {}
    }
}
