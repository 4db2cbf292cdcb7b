use rightkeys::combo::{Combo, Modifier};
use rightkeys::key::Key;

#[test]
fn parses_plain_key() {
    let combo = Combo::parse("home").unwrap();
    assert!(combo.modifiers.is_empty());
    assert_eq!(combo.key, Key::Home);
}

#[test]
fn parses_multi_modifier_combo() {
    let combo = Combo::parse("C+M+s+S+a").unwrap();
    assert_eq!(combo.key, Key::A);
    assert!(combo.modifiers.contains(&Modifier::Control));
    assert!(combo.modifiers.contains(&Modifier::Alt));
    assert!(combo.modifiers.contains(&Modifier::Super));
    assert!(combo.modifiers.contains(&Modifier::Shift));
}

#[test]
fn single_letter_super_and_shift_are_case_sensitive() {
    // S = Shift, s = Super (Emacs-style modifier letters).
    let shift = Combo::parse("C+S+a").unwrap();
    assert!(shift.modifiers.contains(&Modifier::Control));
    assert!(shift.modifiers.contains(&Modifier::Shift));
    assert!(!shift.modifiers.contains(&Modifier::Super));

    let super_ = Combo::parse("C+s+a").unwrap();
    assert!(super_.modifiers.contains(&Modifier::Super));
    assert!(!super_.modifiers.contains(&Modifier::Shift));

    // The 's' key is still a key when it is the final token.
    assert_eq!(Combo::parse("C+s").unwrap().key, Key::S);
}

#[test]
fn parses_literal_symbol_keys() {
    // Punctuation keys are named by their glyph and need no escaping in the
    // combo grammar now that `+` (not `-`) is the separator.
    assert_eq!(Combo::parse("C+-").unwrap().key, Key::Minus);
    assert_eq!(Combo::parse("C+S+=").unwrap().key, Key::Equal);
    assert_eq!(Combo::parse("s+/").unwrap().key, Key::Slash);
    assert_eq!(Combo::parse("[").unwrap().key, Key::LeftBrace);
    assert_eq!(Combo::parse("-").unwrap().key, Key::Minus);
}

#[test]
fn parses_hyper_and_digit() {
    let combo = Combo::parse("Hyper+1").unwrap();
    assert_eq!(combo.key, Key::Num1);
    assert_eq!(
        combo.modifiers.to_vec(),
        vec![Modifier::Hyper]
    );
}

#[test]
fn rejects_unknown_tokens() {
    assert!(Combo::parse("Nope+a").is_err());
    assert!(Combo::parse("C+boguskey").is_err());
    assert!(Combo::parse("").is_err());
}

#[test]
fn error_messages_are_actionable() {
    // A trailing separator leaves the key missing and explains the grammar.
    let empty = Combo::parse("C+").unwrap_err().message();
    assert!(empty.contains("invalid key combo"), "{empty}");
    assert!(empty.contains("the key is missing"), "{empty}");

    // Unknown modifier lists the valid prefixes.
    let modifier = Combo::parse("Ctrl+a").unwrap_err().message();
    assert!(modifier.contains("unknown modifier"), "{modifier}");
    assert!(modifier.contains("Super"), "{modifier}");

    // An unrecognized symbol points at key names.
    let key = Combo::parse("S+s+@").unwrap_err().message();
    assert!(key.contains("unknown key"), "{key}");
}

#[test]
fn modifier_keys_report_themselves() {
    assert_eq!(Key::CapsLock.as_modifier(), None);
    assert_eq!(Key::LeftHyper.as_modifier(), Some(Modifier::Hyper));
    assert_eq!(Key::RightAlt.as_modifier(), Some(Modifier::Alt));
}
