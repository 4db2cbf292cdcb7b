//! How the keys' names and codes hang together.

use crate::hints::letter_of;
use crate::key::Key;
use crate::overlay_laws::letters_are_key_names;
use crate::rules::{builtin_classes, passes_through, ConfigView};
use crate::text::{lower_ascii, occurs_in};
use vstd::prelude::*;

verus! {

/// The keys of a row have consecutive evdev codes, from a first one on.
pub open spec fn evdev_row(row: Seq<Key>, first: int) -> bool {
    forall|i: int| 0 <= i < row.len() ==> (#[trigger] row[i]).spec_evdev() == first + i
}

/// The keys of a list have consecutive virtual codes, from a first one on.
pub open spec fn vk_row(row: Seq<Key>, first: int) -> bool {
    forall|i: int| 0 <= i < row.len() ==> (#[trigger] row[i]).spec_vk() == first + i
}

/// The codes of Linux follow the rows of the keyboard, from Esc on to the right shift key,
/// and the function keys.
pub proof fn evdev_codes_follow_the_keyboard()
    ensures
        evdev_row(
            seq![
                Key::Esc,
                Key::Num1,
                Key::Num2,
                Key::Num3,
                Key::Num4,
                Key::Num5,
                Key::Num6,
                Key::Num7,
                Key::Num8,
                Key::Num9,
                Key::Num0,
                Key::Minus,
                Key::Equal,
                Key::Backspace,
            ],
            1,
        ),
        evdev_row(
            seq![
                Key::Tab,
                Key::Q,
                Key::W,
                Key::E,
                Key::R,
                Key::T,
                Key::Y,
                Key::U,
                Key::I,
                Key::O,
                Key::P,
                Key::LeftBrace,
                Key::RightBrace,
                Key::Enter,
            ],
            15,
        ),
        evdev_row(
            seq![
                Key::LeftCtrl,
                Key::A,
                Key::S,
                Key::D,
                Key::F,
                Key::G,
                Key::H,
                Key::J,
                Key::K,
                Key::L,
                Key::Semicolon,
                Key::Apostrophe,
                Key::Backtick,
            ],
            29,
        ),
        evdev_row(
            seq![
                Key::LeftShift,
                Key::Backslash,
                Key::Z,
                Key::X,
                Key::C,
                Key::V,
                Key::B,
                Key::N,
                Key::M,
                Key::Comma,
                Key::Dot,
                Key::Slash,
                Key::RightShift,
            ],
            42,
        ),
        evdev_row(seq![Key::LeftAlt, Key::Space, Key::CapsLock], 56),
        evdev_row(
            seq![
                Key::F1,
                Key::F2,
                Key::F3,
                Key::F4,
                Key::F5,
                Key::F6,
                Key::F7,
                Key::F8,
                Key::F9,
                Key::F10,
            ],
            59,
        ),
        evdev_row(seq![Key::F11, Key::F12], 87),
        evdev_row(
            seq![
                Key::Home,
                Key::Up,
                Key::PageUp,
                Key::Left,
                Key::Right,
                Key::End,
                Key::Down,
                Key::PageDown,
            ],
            102,
        ),
        evdev_row(seq![Key::Mute, Key::VolumeDown, Key::VolumeUp], 113),
        evdev_row(seq![Key::LeftMeta, Key::RightMeta], 125),
        evdev_row(seq![Key::NextSong, Key::PlayPause, Key::PreviousSong], 163),
{
}

/// The codes of Windows are the capital of a letter key and the digit of a digit key, and
/// run on over the keys that belong together.
pub proof fn virtual_codes_follow_names_and_groups(key: Key, c: char)
    ensures
        letter_of(key) == Some(c) ==> key.spec_vk() - 'A' as int == c as int - 'a' as int,
        key.spec_name() == seq![c] && 'a' <= c <= 'z' ==> key.spec_vk() - 'A' as int == c as int
            - 'a' as int,
        vk_row(
            seq![
                Key::Num0,
                Key::Num1,
                Key::Num2,
                Key::Num3,
                Key::Num4,
                Key::Num5,
                Key::Num6,
                Key::Num7,
                Key::Num8,
                Key::Num9,
            ],
            '0' as int,
        ),
        vk_row(
            seq![
                Key::F1,
                Key::F2,
                Key::F3,
                Key::F4,
                Key::F5,
                Key::F6,
                Key::F7,
                Key::F8,
                Key::F9,
                Key::F10,
                Key::F11,
                Key::F12,
            ],
            0x70,
        ),
        vk_row(
            seq![
                Key::Space,
                Key::PageUp,
                Key::PageDown,
                Key::End,
                Key::Home,
                Key::Left,
                Key::Up,
                Key::Right,
                Key::Down,
            ],
            ' ' as int,
        ),
        vk_row(
            seq![
                Key::LeftShift,
                Key::RightShift,
                Key::LeftCtrl,
                Key::RightCtrl,
                Key::LeftAlt,
                Key::RightAlt,
            ],
            0xa0,
        ),
        vk_row(seq![Key::LeftMeta, Key::RightMeta], 0x5b),
        vk_row(
            seq![Key::Mute, Key::VolumeDown, Key::VolumeUp, Key::NextSong, Key::PreviousSong],
            0xad,
        ),
        vk_row(
            seq![
                Key::Semicolon,
                Key::Equal,
                Key::Comma,
                Key::Minus,
                Key::Dot,
                Key::Slash,
                Key::Backtick,
            ],
            0xba,
        ),
        vk_row(seq![Key::LeftBrace, Key::Backslash, Key::RightBrace, Key::Apostrophe], 0xdb),
        vk_row(seq![Key::Backspace, Key::Tab], 8),
{
    letters_are_key_names(key, c);
}

/// The function keys are the twelve whose codes on Windows run from that of the first to
/// that of the last.
pub proof fn function_keys_are_the_twelve(key: Key)
    ensures
        key.spec_function_key() <==> 0x70 <= key.spec_vk() <= 0x7b,
{
}

/// A key has a code on Linux exactly if it has one on Windows.
pub proof fn keys_exist_on_both_systems(key: Key)
    ensures
        key.spec_evdev() == 0 <==> key.spec_vk() == 0,
        key.spec_evdev() == 0 <==> key == Key::LeftHyper || key == Key::RightHyper,
{
}

/// A key holds the same modifier on the left and on the right, and no other key holds any.
pub proof fn modifiers_are_on_both_sides(key: Key)
    ensures
        Key::LeftAlt.spec_modifier() == Key::RightAlt.spec_modifier(),
        Key::LeftCtrl.spec_modifier() == Key::RightCtrl.spec_modifier(),
        Key::LeftHyper.spec_modifier() == Key::RightHyper.spec_modifier(),
        Key::LeftMeta.spec_modifier() == Key::RightMeta.spec_modifier(),
        Key::LeftShift.spec_modifier() == Key::RightShift.spec_modifier(),
        key.spec_modifier() is Some <==> {
            ||| key == Key::LeftAlt || key == Key::RightAlt
            ||| key == Key::LeftCtrl || key == Key::RightCtrl
            ||| key == Key::LeftHyper || key == Key::RightHyper
            ||| key == Key::LeftMeta || key == Key::RightMeta
            ||| key == Key::LeftShift || key == Key::RightShift
        },
{
}

// === Applications that get their keys raw ===

/// An application gets its keys raw if its name holds a class that is configured so, or
/// one of a virtual machine or a lock screen, in whatever case either is written.
pub proof fn raw_applications_are_known_by_class(
    config: ConfigView,
    os: Seq<char>,
    app: Seq<char>,
    other: Seq<char>,
    i: int,
)
    ensures
        lower_ascii(app) == lower_ascii(other) ==> passes_through(config, os, app)
            == passes_through(config, os, other),
        0 <= i < config.pass_through.len() && occurs_in(
            lower_ascii(app),
            lower_ascii(config.pass_through[i]),
        ) ==> passes_through(config, os, app),
        0 <= i < builtin_classes(os).len() && occurs_in(lower_ascii(app), builtin_classes(os)[i])
            ==> passes_through(config, os, app),
        config.pass_through.len() == 0 && os != "linux"@ && os != "windows"@ ==> !passes_through(
            config,
            os,
            app,
        ),
        config.pass_through.len() == 0 && passes_through(config, os, app) ==> exists|k: int|
            0 <= k < builtin_classes(os).len() && #[trigger] occurs_in(
                lower_ascii(app),
                builtin_classes(os)[k],
            ),
{
}

/// The machines and screens that get their keys raw, by the classes their windows have.
pub proof fn virtual_machines_and_lock_screens_are_raw(config: ConfigView, app: Seq<char>)
    ensures
        forall|class: Seq<char>|
            {
                ||| class == "gnome-boxes"@ || class == "looking-glass"@ || class == "qemu"@
                ||| class == "remote-viewer"@ || class == "spicy"@ || class == "virt-manager"@
                ||| class == "virt-viewer"@ || class == "virtualbox"@ || class == "vmware"@
                ||| class == "light-locker"@ || class == "xscreensaver"@
                ||| class == "gnome-screensaver"@ || class == "xsecurelock"@ || class == "slock"@
                ||| class == "i3lock"@ || class == "kscreenlocker"@ || class == "lightdm-greeter"@
                ||| class == "gdm"@ || class == "sddm-greeter"@
            } && #[trigger] occurs_in(lower_ascii(app), class) ==> passes_through(
                config,
                "linux"@,
                app,
            ),
        forall|class: Seq<char>|
            {
                ||| class == "qemu"@ || class == "remote-viewer"@ || class == "virt-viewer"@
                ||| class == "virtualbox"@ || class == "vmconnect"@ || class == "vmware"@
            } && #[trigger] occurs_in(lower_ascii(app), class) ==> passes_through(
                config,
                "windows"@,
                app,
            ),
{
    reveal_strlit("linux");
    reveal_strlit("windows");
    assert("linux"@.len() == 5 && "windows"@.len() == 7);
    let on_linux = builtin_classes("linux"@);
    let on_windows = builtin_classes("windows"@);
    assert(on_linux[0] == "gnome-boxes"@ && on_linux[1] == "looking-glass"@);
    assert(on_linux[2] == "qemu"@ && on_linux[3] == "remote-viewer"@);
    assert(on_linux[4] == "spicy"@ && on_linux[5] == "virt-manager"@);
    assert(on_linux[6] == "virt-viewer"@ && on_linux[7] == "virtualbox"@);
    assert(on_linux[8] == "vmware"@ && on_linux[9] == "light-locker"@);
    assert(on_linux[10] == "xscreensaver"@ && on_linux[11] == "gnome-screensaver"@);
    assert(on_linux[12] == "xsecurelock"@ && on_linux[13] == "slock"@);
    assert(on_linux[14] == "i3lock"@ && on_linux[15] == "kscreenlocker"@);
    assert(on_linux[16] == "lightdm-greeter"@ && on_linux[17] == "gdm"@);
    assert(on_linux[18] == "sddm-greeter"@);
    assert(on_windows[0] == "qemu"@ && on_windows[1] == "remote-viewer"@);
    assert(on_windows[2] == "virt-viewer"@ && on_windows[3] == "virtualbox"@);
    assert(on_windows[4] == "vmconnect"@ && on_windows[5] == "vmware"@);
}

} // verus!
