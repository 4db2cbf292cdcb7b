use rightkeys::launch::{
    launch_from, parse_launch, quote_params, same_stem, to_wide, to_wide_no_nul,
    window_of_program,
};
use rightkeys::path::{file_name, file_stem, other_instances, same_ignoring_case};
use rightkeys::text::{contains_text, same_text, split_text, trim_range};
use rightkeys::title::split_app_from_title;

#[test]
fn commands_are_split_like_a_shell_does() {
    let launch = parse_launch("/opt/Raise-Or-Run.sh -w 'Brave:Google Scholar' -c run.sh", false)
        .unwrap()
        .unwrap();
    assert_eq!(launch.bin, "/opt/Raise-Or-Run.sh");
    assert_eq!(launch.args, vec!["-w", "Brave:Google Scholar", "-c", "run.sh"]);
    assert_eq!(launch.stem, "raise-or-run.sh");
    assert!(parse_launch("   ", false).unwrap().is_none());
    let e = parse_launch("run 'open", false).unwrap_err();
    assert_eq!(e.message(), "parsing exec command \"run 'open\"");
}

#[test]
fn stems_name_the_windows_of_a_program() {
    let words = |s: &str| vec![s.to_string()];
    assert_eq!(launch_from(words("C:\\Apps\\Brave.exe"), true).unwrap().stem, "Brave");
    assert_eq!(launch_from(words("/usr/bin/\u{c4}pp"), false).unwrap().stem, "\u{e4}pp");
    assert!(launch_from(Vec::new(), true).is_none());
    let list = vec![
        (1, None),
        (2, Some("XTerm".to_string())),
        (3, Some("Brave-browser".to_string())),
        (4, Some("brave".to_string())),
    ];
    assert_eq!(window_of_program(&list, "brave"), Some(3));
    assert_eq!(window_of_program(&list, "vim"), None);
    assert_eq!(same_stem(&list, "BRAVE"), vec![4]);
}

#[test]
fn white_space_is_what_unicode_says() {
    let white = [
        '\t', '\n', '\u{b}', '\u{c}', '\r', ' ', '\u{85}', '\u{a0}', '\u{1680}', '\u{2000}',
        '\u{2001}', '\u{2002}', '\u{2003}', '\u{2004}', '\u{2005}', '\u{2006}', '\u{2007}',
        '\u{2008}', '\u{2009}', '\u{200a}', '\u{2028}', '\u{2029}', '\u{202f}', '\u{205f}',
        '\u{3000}',
    ];
    for c in '\0'..=char::MAX {
        assert_eq!(trim_range(&vec![c], 0, 1).is_empty(), white.contains(&c), "{c:?}");
    }
}

#[test]
fn ascii_titles_are_split_at_their_words() {
    let split = |title: &str, app: &str| split_app_from_title(title, app);
    assert_eq!(split("xy - Ab", "ab"), ("Ab".to_string(), "xy".to_string()));
    for c in (0u8..128).map(char::from) {
        let joined = split(&format!("doc - ab{c}cd"), "ab");
        assert_eq!(joined.0.is_empty(), c.is_ascii_alphanumeric(), "{c:?}");
        let lowered = split(&format!("doc - a{c}"), &format!("a{}", c.to_ascii_lowercase()));
        assert_eq!(lowered.0.is_empty(), !c.is_ascii_alphanumeric(), "{c:?}");
    }
}

#[test]
fn texts_are_the_same_by_their_characters() {
    assert!(same_text("", ""));
    assert!(same_text("h\u{e9}", "h\u{e9}"));
    assert!(!same_text("ab", "abc"));
    assert!(!same_text("abc", "ab"));
    assert!(!same_text("h\u{e9}", "he"));
}

#[test]
fn arguments_with_blanks_are_quoted() {
    let args = |a: &[&str]| a.iter().map(|s| s.to_string()).collect::<Vec<_>>();
    assert_eq!(quote_params(&args(&["-a", "b c", "d\te"])), "-a \"b c\" \"d\te\"");
    assert_eq!(quote_params(&args(&[])), "");
}

#[test]
fn wide_strings_are_utf16() {
    for s in ["", "abc", "h\u{e9}", "\u{1f600}x", "\u{ffff}\u{10000}\u{10ffff}"] {
        assert_eq!(to_wide_no_nul(s), s.encode_utf16().collect::<Vec<_>>());
        let mut with_nul: Vec<u16> = s.encode_utf16().collect();
        with_nul.push(0);
        assert_eq!(to_wide(s), with_nul);
    }
}

#[test]
fn file_names_are_those_of_paths() {
    for p in ["/usr/bin/app", "app", "/usr/bin/", "..", "/", "", "a/..", "a/./", "a/b.c.d", ".rc", "x."] {
        let path = std::path::Path::new(p);
        let name = path.file_name().map(|n| n.to_str().unwrap().to_string());
        let stem = path.file_stem().map(|n| n.to_str().unwrap().to_string());
        assert_eq!(file_name(p, false), name, "{p:?}");
        assert_eq!(file_stem(p, false), stem, "{p:?}");
    }
    assert_eq!(file_name("C:\\Apps\\Code.exe", true).as_deref(), Some("Code.exe"));
    assert_eq!(file_stem("C:/Apps/Code.exe", true).as_deref(), Some("Code"));
}

#[test]
fn windows_prefixes_are_no_names() {
    for (path, name) in [
        (r"C:", None),
        (r"C:app.exe", Some("app.exe")),
        (r"C:.", None),
        (r"C:\", None),
        (r"\\server", Some("server")),
        (r"\\server\", Some("server")),
        (r"\\server\share", None),
        (r"\\server\\share", Some("share")),
        (r"//server/share/a.exe", Some("a.exe")),
        (r"\\\share\a.exe", Some("a.exe")),
        (r"\\.\COM42", None),
        (r"//./COM42/x", Some("x")),
        (r"\\?\C:", None),
        (r"\\?\C:\a\b.exe", Some("b.exe")),
        (r"\\?\C:\a/b.exe", Some("a/b.exe")),
        (r"\\?\C:/b.exe", Some("b.exe")),
        (r"\\?\C:b.exe", None),
        (r"\\?\C:\a\.", None),
        (r"C:\a\.", Some("a")),
        (r"\\?\UNC\server\share", None),
        (r"\\?\UNC\server\share\b.exe", Some("b.exe")),
        (r"\\?\UNC\server", None),
        (r"\\?\name\b.exe", Some("b.exe")),
        (r"//?/C:/b.exe", Some("b.exe")),
        (r"//?/C:", None),
    ] {
        assert_eq!(file_name(path, true).as_deref(), name, "{path:?}");
    }
    assert_eq!(file_stem(r"\\server.local", true).as_deref(), Some("server"));
}

#[test]
fn other_instances_leave_out_oneself() {
    let list = vec![
        (10, "/usr/bin/rightkeys".to_string()),
        (11, "/home/u/rightkeys (deleted)".to_string()),
        (12, "/usr/bin/other".to_string()),
    ];
    assert_eq!(other_instances(&list, 10, "/usr/bin/rightkeys", false), vec![11]);
    let list = vec![
        (0, r"C:\bin\rightkeys.exe".to_string()),
        (4, r"C:\bin\rightkeys.exe".to_string()),
        (8, r"D:\build\RightKeys.exe".to_string()),
        (12, r"C:\bin\other.exe".to_string()),
    ];
    assert_eq!(other_instances(&list, 4, r"C:\bin\rightkeys.exe", true), vec![8]);
    assert!(same_ignoring_case("Code.EXE", "code.exe"));
    assert!(!same_ignoring_case("code", "cod"));
}

#[test]
fn titles_give_up_the_name_of_their_app() {
    assert_eq!(
        split_app_from_title("Inbox - Mozilla Thunderbird", "thunderbird"),
        ("Mozilla Thunderbird".to_string(), "Inbox".to_string())
    );
    assert_eq!(
        split_app_from_title("plain", "app"),
        (String::new(), "plain".to_string())
    );
}

#[test]
fn texts_are_searched_and_split() {
    assert!(contains_text("VirtualBox", "Box"));
    assert!(!contains_text("VirtualBox", "box"));
    assert_eq!(split_text("C+M+a", '+'), vec!["C", "M", "a"]);
    assert_eq!(split_text("", '+'), vec![""]);
}
