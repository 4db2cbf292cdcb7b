use rightkeys::wmprops::{parse_window_name, parse_wm_class};

#[test]
fn linux_parses_wm_class_pair() {
    assert_eq!(parse_wm_class(b"navigator\0Firefox\0"), "Firefox");
}

#[test]
fn linux_parses_wm_class_single() {
    assert_eq!(parse_wm_class(b"Code\0"), "Code");
}

#[test]
fn linux_parses_wm_class_empty() {
    assert_eq!(parse_wm_class(b""), "");
}

#[test]
fn mod_parses_wm_class_pair() {
    assert_eq!(parse_wm_class(b"navigator\0Firefox\0"), "Firefox");
}

#[test]
fn mod_parses_wm_class_single() {
    assert_eq!(parse_wm_class(b"Code\0"), "Code");
}

#[test]
fn mod_parses_wm_class_empty() {
    assert_eq!(parse_wm_class(b""), "");
}

#[test]
fn parses_window_name_trims_and_drops_nul() {
    assert_eq!(parse_window_name(b"README.md - Editor\0"), "README.md - Editor");
    assert_eq!(parse_window_name(b"  spaced  "), "spaced");
    assert_eq!(parse_window_name(b""), "");
}
