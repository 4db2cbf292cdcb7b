use rightkeys::combo::{Combo, ComboError};
use rightkeys::config::{load, ConfigError};
use rightkeys::key::Key;

fn rejected(text: &str) -> ConfigError {
    load(text, "linux").unwrap_err()
}

/// A keymap with one binding made of this step.
fn step(step: &str) -> ConfigError {
    rejected(&format!("keymap {{ bind \"a\" {{ {step}; }}; }}"))
}

#[test]
fn syntax_errors_are_reported() {
    let e = rejected("keymap {");
    assert!(matches!(e, ConfigError::Syntax));
    assert_eq!(e.message(), "Failed to parse KDL document");
}

#[test]
fn unknown_top_level_nodes_are_named() {
    let e = rejected("bogus");
    assert!(matches!(&e, ConfigError::UnknownTopLevel(s) if s == "bogus"));
    assert_eq!(e.message(), "unknown top-level node \"bogus\"");
}

#[test]
fn unexpected_children_are_named() {
    let e = rejected("modmap { remap from=\"a\" to=\"b\"; }");
    assert!(matches!(&e, ConfigError::UnexpectedNode { expected, found }
        if expected == "map" && found == "remap"));
    assert_eq!(e.message(), "expected \"map\" node, found \"remap\"");
}

#[test]
fn missing_properties_are_named() {
    let e = rejected("modmap { map from=\"a\"; }");
    assert!(matches!(&e, ConfigError::MissingProperty { node, property }
        if node == "map" && property == "to"));
    assert_eq!(e.message(), "node \"map\" is missing property \"to\"");
}

#[test]
fn unknown_keys_are_named() {
    let e = rejected("modmap { map from=\"nokey\" to=\"b\"; }");
    assert!(matches!(&e, ConfigError::UnknownKey(s) if s == "nokey"));
    assert_eq!(e.message(), "unknown key \"nokey\"");
}

#[test]
fn holds_have_to_be_modifiers() {
    let e = rejected("multipurpose-modmap { map key=\"a\" tap=\"b\" hold=\"page_up\"; }");
    assert!(matches!(e, ConfigError::HoldNotModifier(Key::PageUp)));
    assert_eq!(e.message(), "multipurpose hold PageUp is not a modifier key");
}

#[test]
fn bindings_need_a_trigger() {
    let e = rejected("keymap { bind { keys \"a\"; }; }");
    assert!(matches!(e, ConfigError::MissingTrigger));
    assert_eq!(e.message(), "bind is missing its trigger combo argument");
}

#[test]
fn triggers_have_to_be_combos() {
    let e = rejected("keymap { bind \"X+a\" { keys \"a\"; }; }");
    assert!(matches!(&e, ConfigError::BadCombo(ComboError::UnknownModifier { token, .. })
        if token == "X"));
}

#[test]
fn the_shorthand_is_gone() {
    let e = rejected("keymap { bind \"a\" to=\"b\"; }");
    assert!(matches!(&e, ConfigError::ShorthandRemoved(s) if s == "a"));
    assert!(e.message().starts_with("bind \"a\": the `to=`/`mark-to=` shorthand was removed"));
}

#[test]
fn bindings_need_an_action() {
    let e = rejected("keymap { bind \"a\"; }");
    assert!(matches!(&e, ConfigError::NoAction(s) if s == "a"));
    assert_eq!(e.message(), "bind \"a\" has no action");
}

#[test]
fn only_a_selection_extends() {
    let e = step("keys \"b\" extend=\"more\"");
    assert!(matches!(&e, ConfigError::BadExtend(s) if s == "more"));
    assert_eq!(
        e.message(),
        "keys extend=\"more\" is invalid (only extend=\"selection\")"
    );
}

#[test]
fn selections_start_or_clear() {
    let e = step("selection \"stop\"");
    assert!(matches!(&e, ConfigError::BadSelection(s) if s == "stop"));
    assert_eq!(
        e.message(),
        "selection \"stop\" is invalid (expected \"start\" or \"clear\")"
    );
    let e = step("selection");
    assert!(matches!(e, ConfigError::SelectionNeedsArgument));
    assert_eq!(e.message(), "selection needs an argument: \"start\" or \"clear\"");
}

#[test]
fn unknown_steps_are_named() {
    let e = step("jump");
    assert!(matches!(&e, ConfigError::UnknownStep(s) if s == "jump"));
    assert_eq!(e.message(), "unknown step node \"jump\"");
}

#[test]
fn steps_need_a_target() {
    let e = step("exec");
    assert!(matches!(&e, ConfigError::NeedsTarget(s) if s == "exec"));
    assert_eq!(
        e.message(),
        "exec needs a target: a positional string, or an os property like windows=/linux="
    );
}

#[test]
fn unknown_window_actions_are_named() {
    let e = step("wm action=\"spin\"");
    assert!(matches!(&e, ConfigError::UnknownAction(s) if s == "spin"));
    assert_eq!(e.message(), "unknown window action \"spin\"");
}

#[test]
fn unknown_places_are_named() {
    let e = step("wm action=\"snap\" to=\"middle\"");
    assert!(matches!(&e, ConfigError::UnknownCorner(s) if s == "middle"));
    assert_eq!(
        e.message(),
        "unknown corner \"middle\" (expected top-left/top-right/bottom-left/bottom-right)"
    );
    let e = step("wm action=\"smart-tile\" to=\"up\"");
    assert!(matches!(&e, ConfigError::UnknownSide(s) if s == "up"));
    assert_eq!(e.message(), "unknown side \"up\" (expected left/right/top/bottom)");
    let e = step("wm action=\"cycle-same-app\" direction=\"around\"");
    assert!(matches!(&e, ConfigError::UnknownDirection(s) if s == "around"));
    assert_eq!(
        e.message(),
        "unknown cycle direction \"around\" (expected forward/backward)"
    );
    let e = step("wm action=\"workspace\" to=\"4294967296\"");
    assert!(matches!(&e, ConfigError::BadWorkspace { value, .. } if value == "4294967296"));
    assert_eq!(
        e.message(),
        "workspace \"4294967296\" must be prev/next or a number"
    );
}

#[test]
fn patterns_have_to_compile() {
    let e = rejected("keymap application=\"(\" { }");
    assert!(matches!(&e, ConfigError::BadRegex { pattern, .. } if pattern == "("));
    assert_eq!(e.message(), "invalid regex \"(\"");
    let cause = regex::Regex::new(&"(".to_string()).unwrap_err().to_string();
    assert!(cause.contains("unclosed group"));
    assert_eq!(e.cause().as_deref(), Some(cause.as_str()));
    assert_eq!(e.report(), format!("invalid regex \"(\": {cause}"));
}

#[test]
fn numbers_have_to_be_numbers() {
    let e = step("wm action=\"adjust\" dx=\"ten\"");
    assert!(matches!(&e, ConfigError::NotInteger(s) if s == "dx"));
    assert_eq!(e.message(), "property \"dx\" must be an integer");
    let e = step("wm action=\"adjust\" dx=2147483648");
    assert!(matches!(&e, ConfigError::OutOfRange(s) if s == "dx"));
    assert_eq!(e.message(), "property \"dx\" out of range");
    let cause = i32::try_from(2147483648i64).unwrap_err().to_string();
    assert_eq!(e.report(), format!("property \"dx\" out of range: {cause}"));
    let e = step("wm action=\"preset\" w=\"wide\" h=1");
    assert!(matches!(&e, ConfigError::NotNumber(s) if s == "w"));
    assert_eq!(e.message(), "property \"w\" must be a number");
}

#[test]
fn combos_say_what_is_wrong_with_them() {
    let e = Combo::parse("").unwrap_err();
    assert!(matches!(&e, ComboError::MissingKey { spec } if spec.is_empty()));
    let e = Combo::parse("C+Q+a").unwrap_err();
    assert!(matches!(&e, ComboError::UnknownModifier { spec, token }
        if spec == "C+Q+a" && token == "Q"));
    let e = Combo::parse("C+nothing").unwrap_err();
    assert!(matches!(&e, ComboError::UnknownKey { token, .. } if token == "nothing"));
}

#[test]
fn control_characters_are_escaped_in_messages() {
    let e = rejected("\"a\\tb\"");
    assert_eq!(e.message(), "unknown top-level node \"a\\tb\"");
}

#[test]
fn workspaces_say_why_they_are_no_numbers() {
    for text in ["", "+", "-", "-1", "x", "1x", "4294967296", "42949672960x", "429496729x6"] {
        let e = step(&format!("wm action=\"workspace\" to=\"{text}\""));
        let cause = text.parse::<u32>().unwrap_err().to_string();
        assert_eq!(e.cause(), Some(cause), "{text:?}");
    }
    assert_eq!(rejected("bogus").cause(), None);
    assert_eq!(rejected("bogus").report(), "unknown top-level node \"bogus\"");
}
