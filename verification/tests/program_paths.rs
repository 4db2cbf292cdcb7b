use rightkeys::path::{abbreviate_home, same_program, same_program_windows};

#[test]
fn linux_same_program_matches_across_paths() {
    assert!(same_program(
        "/usr/local/bin/rightkeys",
        "/home/u/rightkeys/target/release/rightkeys",
    ));
}

#[test]
fn linux_same_program_ignores_deleted_suffix() {
    assert!(same_program(
        "/usr/local/bin/rightkeys (deleted)",
        "/usr/local/bin/rightkeys",
    ));
}

#[test]
fn linux_same_program_rejects_other_binaries() {
    assert!(!same_program(
        "/usr/bin/other",
        "/usr/local/bin/rightkeys",
    ));
}

#[test]
fn mod_same_program_matches_across_paths() {
    assert!(same_program(
        "/usr/local/bin/rightkeys",
        "/home/u/rightkeys/target/release/rightkeys",
    ));
}

#[test]
fn mod_same_program_ignores_deleted_suffix() {
    assert!(same_program(
        "/usr/local/bin/rightkeys (deleted)",
        "/usr/local/bin/rightkeys",
    ));
}

#[test]
fn mod_same_program_rejects_other_binaries() {
    assert!(!same_program(
        "/usr/bin/other",
        "/usr/local/bin/rightkeys",
    ));
}

#[test]
fn windows_same_program_matches_across_paths() {
    assert!(same_program_windows(
        r"C:\Program Files\rightkeys\rightkeys.exe",
        r"D:\src\rightkeys\target\release\rightkeys.exe",
    ));
}

#[test]
fn same_program_is_case_insensitive() {
    assert!(same_program_windows(
        r"C:\bin\RightKeys.exe",
        r"C:\other\rightkeys.exe"
    ));
}

#[test]
fn windows_same_program_rejects_other_binaries() {
    assert!(!same_program_windows(r"C:\bin\other.exe", r"C:\bin\rightkeys.exe"));
}

#[test]
fn abbreviates_home_prefix() {
    assert_eq!(
        abbreviate_home(
            "/home/u/.config/rightkeys/config.kdl",
            "/home/u",
        ),
        "~/.config/rightkeys/config.kdl"
    );
}

#[test]
fn leaves_non_home_paths_untouched() {
    assert_eq!(
        abbreviate_home("/etc/rightkeys.kdl", "/home/u"),
        "/etc/rightkeys.kdl"
    );
}
