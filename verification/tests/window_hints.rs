use rightkeys::hints::{advance, make_hints, place_hint, rects_overlap, HintMatch, OVERLAY_GAP};
use rightkeys::title::split_app_from_title;

#[test]
fn make_hints_single_char_for_small_counts() {
    let hints = make_hints(3);
    assert_eq!(hints, vec!["a", "s", "d"]);
}

#[test]
fn make_hints_two_chars_when_more_than_26() {
    let hints = make_hints(27);
    assert_eq!(hints.len(), 27);
    assert_eq!(hints[0], "aa");
    assert_eq!(hints[1], "as");
    assert_eq!(hints[26], "sa");
}

#[test]
fn make_hints_empty() {
    assert!(make_hints(0).is_empty());
}

#[test]
fn advance_narrows_then_resolves() {
    let hints = vec!["aa".to_string(), "as".to_string(), "sa".to_string()];
    let mut prefix = String::new();
    // 'a' still matches "aa" and "as": pending, prefix advanced.
    assert!(matches!(advance(&hints, &mut prefix, 'a'), HintMatch::Pending));
    assert_eq!(prefix, "a");
    // A non-matching char is ignored, prefix unchanged.
    assert!(matches!(advance(&hints, &mut prefix, 'z'), HintMatch::Pending));
    assert_eq!(prefix, "a");
    // 's' leaves only "as": done at its index.
    assert!(matches!(advance(&hints, &mut prefix, 's'), HintMatch::Done(1)));
}

#[test]
fn place_hint_keeps_desired_spot_when_free() {
    assert_eq!(place_hint((100, 50), (80, 30), &[], (1920, 1080)), (100, 50));
}

#[test]
fn place_hint_nudges_down_off_a_collision() {
    let placed = [(100, 50, 80, 30)];
    let pos = place_hint((100, 50), (80, 30), &placed, (1920, 1080));
    assert_eq!(pos, (100, 50 + 30 + OVERLAY_GAP));
    assert!(!rects_overlap((pos.0, pos.1, 80, 30), placed[0]));
}

#[test]
fn place_hint_clamps_within_screen() {
    assert_eq!(
        place_hint((1900, 1070), (80, 30), &[], (1920, 1080)),
        (1920 - 80, 1080 - 30)
    );
}

#[test]
fn splits_trailing_and_leading_app_from_title() {
    assert_eq!(
        split_app_from_title("README.md - rightkeys - VSCodium", "VSCodium"),
        ("VSCodium".to_string(), "README.md - rightkeys".to_string())
    );
    assert_eq!(
        split_app_from_title("GitHub — Mozilla Firefox", "firefox"),
        ("Mozilla Firefox".to_string(), "GitHub".to_string())
    );
    assert_eq!(
        split_app_from_title("Visual Studio Code - notes.md", "Visual Studio Code"),
        ("Visual Studio Code".to_string(), "notes.md".to_string())
    );
}

#[test]
fn splits_multi_segment_app_brand_via_tokens() {
    assert_eq!(
        split_app_from_title(
            "[Extension Development Host] all_users [dir] - ZKDual - Visual Studio Code - Insiders",
            "code-insiders",
        ),
        (
            "Visual Studio Code - Insiders".to_string(),
            "[Extension Development Host] all_users [dir] - ZKDual".to_string()
        )
    );
}

#[test]
fn split_app_yields_empty_brand_when_nothing_matches_or_would_empty() {
    assert_eq!(
        split_app_from_title("trung@pc: ~/ws", "Xfce4-terminal"),
        (String::new(), "trung@pc: ~/ws".to_string())
    );
    assert_eq!(
        split_app_from_title("VSCodium", "VSCodium"),
        (String::new(), "VSCodium".to_string())
    );
    assert_eq!(
        split_app_from_title("Some Doc - Thing", ""),
        (String::new(), "Some Doc - Thing".to_string())
    );
}
