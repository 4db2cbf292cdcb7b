use rightkeys::actions::OutEvent;
use rightkeys::key::Key;
use rightkeys::notify::{notify_arguments, sanitized, toast_script};
use rightkeys::reload::{FileWatch, Mailbox};
use rightkeys::startup::{
    default_config_path, device_named, is_alt_tab_window, is_keyboard, needs_attach, other_instances_found, Instances,
};
use rightkeys::trace::{action, format_out};
use rightkeys::tray::{menu_choice, toggle_message, tooltip, MenuChoice};

#[test]
fn notifications_carry_their_icon_and_timeout() {
    assert_eq!(
        notify_arguments("hello", false),
        vec!["-a", "RightKeys", "-i", "rightkeys", "-t", "5000", "hello"]
    );
    assert_eq!(notify_arguments("hello", true)[3], "dialog-warning");
}

#[test]
fn toasts_cannot_be_broken_out_of() {
    assert_eq!(sanitized("it's 'fine'"), "its fine");
    assert_eq!(sanitized("plain"), "plain");
    let script = toast_script("don't");
    assert!(script.contains("CreateTextNode('dont')"));
    assert!(script.ends_with("CreateToastNotifier('RightKeys').Show($n);"));
    assert!(script.starts_with("[Windows.UI.Notifications.ToastNotificationManager, "));
}

#[test]
fn menu_items_do_what_they_say() {
    assert_eq!(menu_choice("enable", true), MenuChoice::SetEnabled(false));
    assert_eq!(menu_choice("enable", false), MenuChoice::SetEnabled(true));
    assert_eq!(menu_choice("reload", true), MenuChoice::Reload);
    assert_eq!(menu_choice("quit", true), MenuChoice::Quit);
    assert_eq!(menu_choice("other", true), MenuChoice::Nothing);
    assert_eq!(tooltip(true), "RightKeys: remapping on");
    assert_eq!(tooltip(false), "RightKeys: remapping paused");
    assert_eq!(toggle_message(true), "RightKeys enabled");
    assert_eq!(toggle_message(false), "RightKeys disabled");
}

#[test]
fn files_are_reread_when_they_change() {
    let mut watch = FileWatch::new(Some(5));
    assert!(!watch.poll(Some(5)));
    assert!(!watch.poll(None));
    assert!(watch.poll(Some(6)));
    assert!(!watch.poll(Some(6)));
    // An older time is a change too.
    assert!(watch.poll(Some(4)));
    assert!(FileWatch::new(None).poll(Some(1)));
}

#[test]
fn an_invalid_edit_keeps_what_waits() {
    let mut mailbox = Mailbox::new();
    assert!(mailbox.take().is_none());
    mailbox.publish("modmap { map from=\"a\" to=\"b\"; }", "linux").unwrap();
    assert!(mailbox.publish("nonsense", "linux").is_err());
    let config = mailbox.take().unwrap();
    assert_eq!(config.modmap.get(&Key::A), Some(&Key::B));
    assert!(mailbox.take().is_none());
}

#[test]
fn events_are_shown_compactly() {
    assert_eq!(format_out(&[]), "(none)");
    let events = [
        OutEvent { key: Key::LeftMeta, value: 1 },
        OutEvent { key: Key::Left, value: 2 },
        OutEvent { key: Key::Num1, value: 0 },
    ];
    assert_eq!(format_out(&events), "+LeftMeta +Left -Num1");
    assert_eq!(
        (action(0), action(1), action(2), action(3)),
        ("release", "press", "repeat", "?")
    );
}

#[test]
fn keyboards_have_letters_and_no_mouse_button() {
    assert!(is_keyboard(&vec![1, 30, 44, 57]));
    assert!(!is_keyboard(&vec![30, 44]));
    assert!(!is_keyboard(&vec![30, 44, 57, 0x110]));
}

#[test]
fn devices_are_found_by_name() {
    let names = vec![None, Some("Mouse".to_string()), Some("Board".to_string())];
    assert_eq!(device_named(&names, "Board"), Some(2));
    assert_eq!(device_named(&names, "board"), None);
}

#[test]
fn running_instances_are_refused_or_replaced() {
    assert_eq!(other_instances_found(&vec![], false), Instances::Alone);
    assert_eq!(other_instances_found(&vec![7], false), Instances::Refuse);
    assert_eq!(other_instances_found(&vec![7], true), Instances::Replace);
}

#[test]
fn only_switchable_windows_are_offered() {
    assert!(is_alt_tab_window(true, 5, 0x100, false, 0));
    assert!(!is_alt_tab_window(false, 5, 0, false, 0));
    assert!(!is_alt_tab_window(true, 0, 0, false, 0));
    assert!(!is_alt_tab_window(true, 5, 0x80, false, 0));
    assert!(!is_alt_tab_window(true, 5, 0, true, 0));
    assert!(!is_alt_tab_window(true, 5, 0, false, 2));
    assert!(needs_attach(3, 4));
    assert!(!needs_attach(0, 4));
    assert!(!needs_attach(4, 4));
}

#[test]
fn the_configuration_is_where_the_environment_says() {
    let path = |windows, appdata, xdg, home| default_config_path(windows, appdata, xdg, home);
    assert_eq!(
        path(false, None, None, Some("/home/me")).as_deref(),
        Some("/home/me/.config/rightkeys/settings.kdl")
    );
    assert_eq!(
        path(false, Some("x"), Some("/cfg/"), Some("/home/me")).as_deref(),
        Some("/cfg/rightkeys/settings.kdl")
    );
    assert_eq!(
        path(false, None, Some(""), None).as_deref(),
        Some("rightkeys/settings.kdl")
    );
    assert_eq!(path(false, Some("x"), None, None), None);
    assert_eq!(
        path(true, Some(r"C:\Users\me\AppData\Roaming"), Some("/cfg"), None).as_deref(),
        Some(r"C:\Users\me\AppData\Roaming\rightkeys\settings.kdl")
    );
    assert_eq!(
        path(true, Some("D:"), None, None).as_deref(),
        Some(r"D:rightkeys\settings.kdl")
    );
    for (base, whole) in [
        (r"\\?\C:\Data", r"\\?\C:\Data\rightkeys\settings.kdl"),
        (r"\\?\C:/Data\\x\", r"\\?\C:\Data\x\rightkeys\settings.kdl"),
        (r"\\?\UNC\server\share", r"\\?\UNC\server\share\rightkeys\settings.kdl"),
        (r"\\server\share\", r"\\server\share\rightkeys\settings.kdl"),
    ] {
        assert_eq!(path(true, Some(base), None, None).as_deref(), Some(whole));
    }
    assert_eq!(path(true, None, Some("/cfg"), Some("/home/me")), None);
}
