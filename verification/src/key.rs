//! Portable key model: the OS-agnostic [`Key`] / [`Modifier`] / [`Combo`] types
//! that the configuration and the engine speak in.
//!
//! A [`Key`] is a physical key identity (e.g. `A`, `Left`, `VolumeUp`). Each key
//! carries the two per-OS codes it lowers to: a Linux `evdev` code and a Windows
//! virtual-key code.

use crate::assoc::Atom;
use crate::combo::Modifier;
use crate::text::{lower_ascii, same_text, to_lower_ascii};
use vstd::prelude::*;

verus! {

// === Data structures ===

/// An OS-agnostic physical key identity.
#[derive(Clone, Copy, Debug, Eq, Hash, Ord, PartialEq, PartialOrd, Structural)]
pub enum Key {
    // Letters
    A,
    B,
    C,
    D,
    E,
    F,
    G,
    H,
    I,
    J,
    K,
    L,
    M,
    N,
    O,
    P,
    Q,
    R,
    S,
    T,
    U,
    V,
    W,
    X,
    Y,
    Z,
    // Digits
    Num1,
    Num2,
    Num3,
    Num4,
    Num5,
    Num6,
    Num7,
    Num8,
    Num9,
    Num0,
    // Whitespace / editing
    Backspace,
    Delete,
    Enter,
    Esc,
    Space,
    Tab,
    // Navigation
    Down,
    End,
    Home,
    Left,
    PageDown,
    PageUp,
    Right,
    Up,
    // Punctuation (named by the literal unshifted glyph the key produces)
    Apostrophe,
    Backslash,
    Comma,
    Dot,
    Equal,
    Backtick,
    LeftBrace,
    Minus,
    RightBrace,
    Semicolon,
    Slash,
    // Function keys
    F1,
    F2,
    F3,
    F4,
    F5,
    F6,
    F7,
    F8,
    F9,
    F10,
    F11,
    F12,
    // System / media
    CapsLock,
    Mute,
    NextSong,
    Pause,
    PlayPause,
    PreviousSong,
    ScrollLock,
    PrintScreen,
    VolumeDown,
    VolumeUp,
    // Modifier keys
    LeftAlt,
    LeftCtrl,
    LeftHyper,
    LeftMeta,
    LeftShift,
    RightAlt,
    RightCtrl,
    RightHyper,
    RightMeta,
    RightShift,
}

/// How many keys there are.
pub const KEY_COUNT: usize = 93;

/// Every known key, in declaration order; used for reverse lookups.
pub const ALL_KEYS: [Key; 93] = [
    // Letters
    Key::A,
    Key::B,
    Key::C,
    Key::D,
    Key::E,
    Key::F,
    Key::G,
    Key::H,
    Key::I,
    Key::J,
    Key::K,
    Key::L,
    Key::M,
    Key::N,
    Key::O,
    Key::P,
    Key::Q,
    Key::R,
    Key::S,
    Key::T,
    Key::U,
    Key::V,
    Key::W,
    Key::X,
    Key::Y,
    Key::Z,
    // Digits
    Key::Num1,
    Key::Num2,
    Key::Num3,
    Key::Num4,
    Key::Num5,
    Key::Num6,
    Key::Num7,
    Key::Num8,
    Key::Num9,
    Key::Num0,
    // Whitespace / editing
    Key::Backspace,
    Key::Delete,
    Key::Enter,
    Key::Esc,
    Key::Space,
    Key::Tab,
    // Navigation
    Key::Down,
    Key::End,
    Key::Home,
    Key::Left,
    Key::PageDown,
    Key::PageUp,
    Key::Right,
    Key::Up,
    // Punctuation (named by the literal unshifted glyph the key produces)
    Key::Apostrophe,
    Key::Backslash,
    Key::Comma,
    Key::Dot,
    Key::Equal,
    Key::Backtick,
    Key::LeftBrace,
    Key::Minus,
    Key::RightBrace,
    Key::Semicolon,
    Key::Slash,
    // Function keys
    Key::F1,
    Key::F2,
    Key::F3,
    Key::F4,
    Key::F5,
    Key::F6,
    Key::F7,
    Key::F8,
    Key::F9,
    Key::F10,
    Key::F11,
    Key::F12,
    // System / media
    Key::CapsLock,
    Key::Mute,
    Key::NextSong,
    Key::Pause,
    Key::PlayPause,
    Key::PreviousSong,
    Key::ScrollLock,
    Key::PrintScreen,
    Key::VolumeDown,
    Key::VolumeUp,
    // Modifier keys
    Key::LeftAlt,
    Key::LeftCtrl,
    Key::LeftHyper,
    Key::LeftMeta,
    Key::LeftShift,
    Key::RightAlt,
    Key::RightCtrl,
    Key::RightHyper,
    Key::RightMeta,
    Key::RightShift,
];

impl Key {
    /// The name a configuration gives this key.
    pub open spec fn spec_name(self) -> Seq<char> {
        match self {
            // Letters
            Key::A => "a"@,
            Key::B => "b"@,
            Key::C => "c"@,
            Key::D => "d"@,
            Key::E => "e"@,
            Key::F => "f"@,
            Key::G => "g"@,
            Key::H => "h"@,
            Key::I => "i"@,
            Key::J => "j"@,
            Key::K => "k"@,
            Key::L => "l"@,
            Key::M => "m"@,
            Key::N => "n"@,
            Key::O => "o"@,
            Key::P => "p"@,
            Key::Q => "q"@,
            Key::R => "r"@,
            Key::S => "s"@,
            Key::T => "t"@,
            Key::U => "u"@,
            Key::V => "v"@,
            Key::W => "w"@,
            Key::X => "x"@,
            Key::Y => "y"@,
            Key::Z => "z"@,
            // Digits
            Key::Num1 => "1"@,
            Key::Num2 => "2"@,
            Key::Num3 => "3"@,
            Key::Num4 => "4"@,
            Key::Num5 => "5"@,
            Key::Num6 => "6"@,
            Key::Num7 => "7"@,
            Key::Num8 => "8"@,
            Key::Num9 => "9"@,
            Key::Num0 => "0"@,
            // Whitespace / editing
            Key::Backspace => "backspace"@,
            Key::Delete => "delete"@,
            Key::Enter => "enter"@,
            Key::Esc => "esc"@,
            Key::Space => "space"@,
            Key::Tab => "tab"@,
            // Navigation
            Key::Down => "down"@,
            Key::End => "end"@,
            Key::Home => "home"@,
            Key::Left => "left"@,
            Key::PageDown => "page_down"@,
            Key::PageUp => "page_up"@,
            Key::Right => "right"@,
            Key::Up => "up"@,
            // Punctuation (named by the literal unshifted glyph the key produces)
            Key::Apostrophe => "'"@,
            Key::Backslash => "\\"@,
            Key::Comma => ","@,
            Key::Dot => "."@,
            Key::Equal => "="@,
            Key::Backtick => "`"@,
            Key::LeftBrace => "["@,
            Key::Minus => "-"@,
            Key::RightBrace => "]"@,
            Key::Semicolon => ";"@,
            Key::Slash => "/"@,
            // Function keys
            Key::F1 => "f1"@,
            Key::F2 => "f2"@,
            Key::F3 => "f3"@,
            Key::F4 => "f4"@,
            Key::F5 => "f5"@,
            Key::F6 => "f6"@,
            Key::F7 => "f7"@,
            Key::F8 => "f8"@,
            Key::F9 => "f9"@,
            Key::F10 => "f10"@,
            Key::F11 => "f11"@,
            Key::F12 => "f12"@,
            // System / media
            Key::CapsLock => "capslock"@,
            Key::Mute => "mute"@,
            Key::NextSong => "nextsong"@,
            Key::Pause => "pause"@,
            Key::PlayPause => "playpause"@,
            Key::PreviousSong => "previoussong"@,
            Key::ScrollLock => "scrolllock"@,
            Key::PrintScreen => "printscreen"@,
            Key::VolumeDown => "volumedown"@,
            Key::VolumeUp => "volumeup"@,
            // Modifier keys
            Key::LeftAlt => "left_alt"@,
            Key::LeftCtrl => "left_ctrl"@,
            Key::LeftHyper => "left_hyper"@,
            Key::LeftMeta => "left_meta"@,
            Key::LeftShift => "left_shift"@,
            Key::RightAlt => "right_alt"@,
            Key::RightCtrl => "right_ctrl"@,
            Key::RightHyper => "right_hyper"@,
            Key::RightMeta => "right_meta"@,
            Key::RightShift => "right_shift"@,
        }
    }

    /// The Linux `evdev` code of this key; 0 where it has none.
    pub open spec fn spec_evdev(self) -> u16 {
        match self {
            // Letters
            Key::A => 30,
            Key::B => 48,
            Key::C => 46,
            Key::D => 32,
            Key::E => 18,
            Key::F => 33,
            Key::G => 34,
            Key::H => 35,
            Key::I => 23,
            Key::J => 36,
            Key::K => 37,
            Key::L => 38,
            Key::M => 50,
            Key::N => 49,
            Key::O => 24,
            Key::P => 25,
            Key::Q => 16,
            Key::R => 19,
            Key::S => 31,
            Key::T => 20,
            Key::U => 22,
            Key::V => 47,
            Key::W => 17,
            Key::X => 45,
            Key::Y => 21,
            Key::Z => 44,
            // Digits
            Key::Num1 => 2,
            Key::Num2 => 3,
            Key::Num3 => 4,
            Key::Num4 => 5,
            Key::Num5 => 6,
            Key::Num6 => 7,
            Key::Num7 => 8,
            Key::Num8 => 9,
            Key::Num9 => 10,
            Key::Num0 => 11,
            // Whitespace / editing
            Key::Backspace => 14,
            Key::Delete => 111,
            Key::Enter => 28,
            Key::Esc => 1,
            Key::Space => 57,
            Key::Tab => 15,
            // Navigation
            Key::Down => 108,
            Key::End => 107,
            Key::Home => 102,
            Key::Left => 105,
            Key::PageDown => 109,
            Key::PageUp => 104,
            Key::Right => 106,
            Key::Up => 103,
            // Punctuation (named by the literal unshifted glyph the key produces)
            Key::Apostrophe => 40,
            Key::Backslash => 43,
            Key::Comma => 51,
            Key::Dot => 52,
            Key::Equal => 13,
            Key::Backtick => 41,
            Key::LeftBrace => 26,
            Key::Minus => 12,
            Key::RightBrace => 27,
            Key::Semicolon => 39,
            Key::Slash => 53,
            // Function keys
            Key::F1 => 59,
            Key::F2 => 60,
            Key::F3 => 61,
            Key::F4 => 62,
            Key::F5 => 63,
            Key::F6 => 64,
            Key::F7 => 65,
            Key::F8 => 66,
            Key::F9 => 67,
            Key::F10 => 68,
            Key::F11 => 87,
            Key::F12 => 88,
            // System / media
            Key::CapsLock => 58,
            Key::Mute => 113,
            Key::NextSong => 163,
            Key::Pause => 119,
            Key::PlayPause => 164,
            Key::PreviousSong => 165,
            Key::ScrollLock => 70,
            Key::PrintScreen => 99,
            Key::VolumeDown => 114,
            Key::VolumeUp => 115,
            // Modifier keys
            Key::LeftAlt => 56,
            Key::LeftCtrl => 29,
            Key::LeftHyper => 0,
            Key::LeftMeta => 125,
            Key::LeftShift => 42,
            Key::RightAlt => 100,
            Key::RightCtrl => 97,
            Key::RightHyper => 0,
            Key::RightMeta => 126,
            Key::RightShift => 54,
        }
    }

    /// The Windows virtual-key code of this key; 0 where it has none.
    pub open spec fn spec_vk(self) -> u16 {
        match self {
            // Letters
            Key::A => 0x41,
            Key::B => 0x42,
            Key::C => 0x43,
            Key::D => 0x44,
            Key::E => 0x45,
            Key::F => 0x46,
            Key::G => 0x47,
            Key::H => 0x48,
            Key::I => 0x49,
            Key::J => 0x4A,
            Key::K => 0x4B,
            Key::L => 0x4C,
            Key::M => 0x4D,
            Key::N => 0x4E,
            Key::O => 0x4F,
            Key::P => 0x50,
            Key::Q => 0x51,
            Key::R => 0x52,
            Key::S => 0x53,
            Key::T => 0x54,
            Key::U => 0x55,
            Key::V => 0x56,
            Key::W => 0x57,
            Key::X => 0x58,
            Key::Y => 0x59,
            Key::Z => 0x5A,
            // Digits
            Key::Num1 => 0x31,
            Key::Num2 => 0x32,
            Key::Num3 => 0x33,
            Key::Num4 => 0x34,
            Key::Num5 => 0x35,
            Key::Num6 => 0x36,
            Key::Num7 => 0x37,
            Key::Num8 => 0x38,
            Key::Num9 => 0x39,
            Key::Num0 => 0x30,
            // Whitespace / editing
            Key::Backspace => 0x08,
            Key::Delete => 0x2E,
            Key::Enter => 0x0D,
            Key::Esc => 0x1B,
            Key::Space => 0x20,
            Key::Tab => 0x09,
            // Navigation
            Key::Down => 0x28,
            Key::End => 0x23,
            Key::Home => 0x24,
            Key::Left => 0x25,
            Key::PageDown => 0x22,
            Key::PageUp => 0x21,
            Key::Right => 0x27,
            Key::Up => 0x26,
            // Punctuation (named by the literal unshifted glyph the key produces)
            Key::Apostrophe => 0xDE,
            Key::Backslash => 0xDC,
            Key::Comma => 0xBC,
            Key::Dot => 0xBE,
            Key::Equal => 0xBB,
            Key::Backtick => 0xC0,
            Key::LeftBrace => 0xDB,
            Key::Minus => 0xBD,
            Key::RightBrace => 0xDD,
            Key::Semicolon => 0xBA,
            Key::Slash => 0xBF,
            // Function keys
            Key::F1 => 0x70,
            Key::F2 => 0x71,
            Key::F3 => 0x72,
            Key::F4 => 0x73,
            Key::F5 => 0x74,
            Key::F6 => 0x75,
            Key::F7 => 0x76,
            Key::F8 => 0x77,
            Key::F9 => 0x78,
            Key::F10 => 0x79,
            Key::F11 => 0x7A,
            Key::F12 => 0x7B,
            // System / media
            Key::CapsLock => 0x14,
            Key::Mute => 0xAD,
            Key::NextSong => 0xB0,
            Key::Pause => 0x13,
            Key::PlayPause => 0xB3,
            Key::PreviousSong => 0xB1,
            Key::ScrollLock => 0x91,
            Key::PrintScreen => 0x2C,
            Key::VolumeDown => 0xAE,
            Key::VolumeUp => 0xAF,
            // Modifier keys
            Key::LeftAlt => 0xA4,
            Key::LeftCtrl => 0xA2,
            Key::LeftHyper => 0,
            Key::LeftMeta => 0x5B,
            Key::LeftShift => 0xA0,
            Key::RightAlt => 0xA5,
            Key::RightCtrl => 0xA3,
            Key::RightHyper => 0,
            Key::RightMeta => 0x5C,
            Key::RightShift => 0xA1,
        }
    }

    /// The modifier this key acts as, if it is a modifier key.
    pub open spec fn spec_modifier(self) -> Option<Modifier> {
        match self {
            Key::LeftAlt => Some(Modifier::Alt),
            Key::LeftCtrl => Some(Modifier::Control),
            Key::LeftHyper => Some(Modifier::Hyper),
            Key::LeftMeta => Some(Modifier::Super),
            Key::LeftShift => Some(Modifier::Shift),
            Key::RightAlt => Some(Modifier::Alt),
            Key::RightCtrl => Some(Modifier::Control),
            Key::RightHyper => Some(Modifier::Hyper),
            Key::RightMeta => Some(Modifier::Super),
            Key::RightShift => Some(Modifier::Shift),
            _ => None,
        }
    }

    /// Whether this key is one of F1 to F12.
    pub open spec fn spec_function_key(self) -> bool {
        match self {
            Key::F1 | Key::F2 | Key::F3 | Key::F4 | Key::F5 | Key::F6 | Key::F7 | Key::F8 | Key::F9
            | Key::F10 | Key::F11 | Key::F12 => true,
            _ => false,
        }
    }

    /// The identifier of this key in messages.
    pub open spec fn spec_label(self) -> Seq<char> {
        match self {
            Key::A => "A"@,
            Key::B => "B"@,
            Key::C => "C"@,
            Key::D => "D"@,
            Key::E => "E"@,
            Key::F => "F"@,
            Key::G => "G"@,
            Key::H => "H"@,
            Key::I => "I"@,
            Key::J => "J"@,
            Key::K => "K"@,
            Key::L => "L"@,
            Key::M => "M"@,
            Key::N => "N"@,
            Key::O => "O"@,
            Key::P => "P"@,
            Key::Q => "Q"@,
            Key::R => "R"@,
            Key::S => "S"@,
            Key::T => "T"@,
            Key::U => "U"@,
            Key::V => "V"@,
            Key::W => "W"@,
            Key::X => "X"@,
            Key::Y => "Y"@,
            Key::Z => "Z"@,
            Key::Num1 => "Num1"@,
            Key::Num2 => "Num2"@,
            Key::Num3 => "Num3"@,
            Key::Num4 => "Num4"@,
            Key::Num5 => "Num5"@,
            Key::Num6 => "Num6"@,
            Key::Num7 => "Num7"@,
            Key::Num8 => "Num8"@,
            Key::Num9 => "Num9"@,
            Key::Num0 => "Num0"@,
            Key::Backspace => "Backspace"@,
            Key::Delete => "Delete"@,
            Key::Enter => "Enter"@,
            Key::Esc => "Esc"@,
            Key::Space => "Space"@,
            Key::Tab => "Tab"@,
            Key::Down => "Down"@,
            Key::End => "End"@,
            Key::Home => "Home"@,
            Key::Left => "Left"@,
            Key::PageDown => "PageDown"@,
            Key::PageUp => "PageUp"@,
            Key::Right => "Right"@,
            Key::Up => "Up"@,
            Key::Apostrophe => "Apostrophe"@,
            Key::Backslash => "Backslash"@,
            Key::Comma => "Comma"@,
            Key::Dot => "Dot"@,
            Key::Equal => "Equal"@,
            Key::Backtick => "Backtick"@,
            Key::LeftBrace => "LeftBrace"@,
            Key::Minus => "Minus"@,
            Key::RightBrace => "RightBrace"@,
            Key::Semicolon => "Semicolon"@,
            Key::Slash => "Slash"@,
            Key::F1 => "F1"@,
            Key::F2 => "F2"@,
            Key::F3 => "F3"@,
            Key::F4 => "F4"@,
            Key::F5 => "F5"@,
            Key::F6 => "F6"@,
            Key::F7 => "F7"@,
            Key::F8 => "F8"@,
            Key::F9 => "F9"@,
            Key::F10 => "F10"@,
            Key::F11 => "F11"@,
            Key::F12 => "F12"@,
            Key::CapsLock => "CapsLock"@,
            Key::Mute => "Mute"@,
            Key::NextSong => "NextSong"@,
            Key::Pause => "Pause"@,
            Key::PlayPause => "PlayPause"@,
            Key::PreviousSong => "PreviousSong"@,
            Key::ScrollLock => "ScrollLock"@,
            Key::PrintScreen => "PrintScreen"@,
            Key::VolumeDown => "VolumeDown"@,
            Key::VolumeUp => "VolumeUp"@,
            Key::LeftAlt => "LeftAlt"@,
            Key::LeftCtrl => "LeftCtrl"@,
            Key::LeftHyper => "LeftHyper"@,
            Key::LeftMeta => "LeftMeta"@,
            Key::LeftShift => "LeftShift"@,
            Key::RightAlt => "RightAlt"@,
            Key::RightCtrl => "RightCtrl"@,
            Key::RightHyper => "RightHyper"@,
            Key::RightMeta => "RightMeta"@,
            Key::RightShift => "RightShift"@,
        }
    }

    /// Where this key stands in [`ALL_KEYS`].
    pub open spec fn position(self) -> int {
        match self {
            Key::A => 0,
            Key::B => 1,
            Key::C => 2,
            Key::D => 3,
            Key::E => 4,
            Key::F => 5,
            Key::G => 6,
            Key::H => 7,
            Key::I => 8,
            Key::J => 9,
            Key::K => 10,
            Key::L => 11,
            Key::M => 12,
            Key::N => 13,
            Key::O => 14,
            Key::P => 15,
            Key::Q => 16,
            Key::R => 17,
            Key::S => 18,
            Key::T => 19,
            Key::U => 20,
            Key::V => 21,
            Key::W => 22,
            Key::X => 23,
            Key::Y => 24,
            Key::Z => 25,
            Key::Num1 => 26,
            Key::Num2 => 27,
            Key::Num3 => 28,
            Key::Num4 => 29,
            Key::Num5 => 30,
            Key::Num6 => 31,
            Key::Num7 => 32,
            Key::Num8 => 33,
            Key::Num9 => 34,
            Key::Num0 => 35,
            Key::Backspace => 36,
            Key::Delete => 37,
            Key::Enter => 38,
            Key::Esc => 39,
            Key::Space => 40,
            Key::Tab => 41,
            Key::Down => 42,
            Key::End => 43,
            Key::Home => 44,
            Key::Left => 45,
            Key::PageDown => 46,
            Key::PageUp => 47,
            Key::Right => 48,
            Key::Up => 49,
            Key::Apostrophe => 50,
            Key::Backslash => 51,
            Key::Comma => 52,
            Key::Dot => 53,
            Key::Equal => 54,
            Key::Backtick => 55,
            Key::LeftBrace => 56,
            Key::Minus => 57,
            Key::RightBrace => 58,
            Key::Semicolon => 59,
            Key::Slash => 60,
            Key::F1 => 61,
            Key::F2 => 62,
            Key::F3 => 63,
            Key::F4 => 64,
            Key::F5 => 65,
            Key::F6 => 66,
            Key::F7 => 67,
            Key::F8 => 68,
            Key::F9 => 69,
            Key::F10 => 70,
            Key::F11 => 71,
            Key::F12 => 72,
            Key::CapsLock => 73,
            Key::Mute => 74,
            Key::NextSong => 75,
            Key::Pause => 76,
            Key::PlayPause => 77,
            Key::PreviousSong => 78,
            Key::ScrollLock => 79,
            Key::PrintScreen => 80,
            Key::VolumeDown => 81,
            Key::VolumeUp => 82,
            Key::LeftAlt => 83,
            Key::LeftCtrl => 84,
            Key::LeftHyper => 85,
            Key::LeftMeta => 86,
            Key::LeftShift => 87,
            Key::RightAlt => 88,
            Key::RightCtrl => 89,
            Key::RightHyper => 90,
            Key::RightMeta => 91,
            Key::RightShift => 92,
        }
    }

    /// The key with this `evdev` code, for the codes that have one.
    spec fn of_evdev(code: u16) -> Option<Key> {
        if code == 30 {
            Some(Key::A)
        } else if code == 48 {
            Some(Key::B)
        } else if code == 46 {
            Some(Key::C)
        } else if code == 32 {
            Some(Key::D)
        } else if code == 18 {
            Some(Key::E)
        } else if code == 33 {
            Some(Key::F)
        } else if code == 34 {
            Some(Key::G)
        } else if code == 35 {
            Some(Key::H)
        } else if code == 23 {
            Some(Key::I)
        } else if code == 36 {
            Some(Key::J)
        } else if code == 37 {
            Some(Key::K)
        } else if code == 38 {
            Some(Key::L)
        } else if code == 50 {
            Some(Key::M)
        } else if code == 49 {
            Some(Key::N)
        } else if code == 24 {
            Some(Key::O)
        } else if code == 25 {
            Some(Key::P)
        } else if code == 16 {
            Some(Key::Q)
        } else if code == 19 {
            Some(Key::R)
        } else if code == 31 {
            Some(Key::S)
        } else if code == 20 {
            Some(Key::T)
        } else if code == 22 {
            Some(Key::U)
        } else if code == 47 {
            Some(Key::V)
        } else if code == 17 {
            Some(Key::W)
        } else if code == 45 {
            Some(Key::X)
        } else if code == 21 {
            Some(Key::Y)
        } else if code == 44 {
            Some(Key::Z)
        } else if code == 2 {
            Some(Key::Num1)
        } else if code == 3 {
            Some(Key::Num2)
        } else if code == 4 {
            Some(Key::Num3)
        } else if code == 5 {
            Some(Key::Num4)
        } else if code == 6 {
            Some(Key::Num5)
        } else if code == 7 {
            Some(Key::Num6)
        } else if code == 8 {
            Some(Key::Num7)
        } else if code == 9 {
            Some(Key::Num8)
        } else if code == 10 {
            Some(Key::Num9)
        } else if code == 11 {
            Some(Key::Num0)
        } else if code == 14 {
            Some(Key::Backspace)
        } else if code == 111 {
            Some(Key::Delete)
        } else if code == 28 {
            Some(Key::Enter)
        } else if code == 1 {
            Some(Key::Esc)
        } else if code == 57 {
            Some(Key::Space)
        } else if code == 15 {
            Some(Key::Tab)
        } else if code == 108 {
            Some(Key::Down)
        } else if code == 107 {
            Some(Key::End)
        } else if code == 102 {
            Some(Key::Home)
        } else if code == 105 {
            Some(Key::Left)
        } else if code == 109 {
            Some(Key::PageDown)
        } else if code == 104 {
            Some(Key::PageUp)
        } else if code == 106 {
            Some(Key::Right)
        } else if code == 103 {
            Some(Key::Up)
        } else if code == 40 {
            Some(Key::Apostrophe)
        } else if code == 43 {
            Some(Key::Backslash)
        } else if code == 51 {
            Some(Key::Comma)
        } else if code == 52 {
            Some(Key::Dot)
        } else if code == 13 {
            Some(Key::Equal)
        } else if code == 41 {
            Some(Key::Backtick)
        } else if code == 26 {
            Some(Key::LeftBrace)
        } else if code == 12 {
            Some(Key::Minus)
        } else if code == 27 {
            Some(Key::RightBrace)
        } else if code == 39 {
            Some(Key::Semicolon)
        } else if code == 53 {
            Some(Key::Slash)
        } else if code == 59 {
            Some(Key::F1)
        } else if code == 60 {
            Some(Key::F2)
        } else if code == 61 {
            Some(Key::F3)
        } else if code == 62 {
            Some(Key::F4)
        } else if code == 63 {
            Some(Key::F5)
        } else if code == 64 {
            Some(Key::F6)
        } else if code == 65 {
            Some(Key::F7)
        } else if code == 66 {
            Some(Key::F8)
        } else if code == 67 {
            Some(Key::F9)
        } else if code == 68 {
            Some(Key::F10)
        } else if code == 87 {
            Some(Key::F11)
        } else if code == 88 {
            Some(Key::F12)
        } else if code == 58 {
            Some(Key::CapsLock)
        } else if code == 113 {
            Some(Key::Mute)
        } else if code == 163 {
            Some(Key::NextSong)
        } else if code == 119 {
            Some(Key::Pause)
        } else if code == 164 {
            Some(Key::PlayPause)
        } else if code == 165 {
            Some(Key::PreviousSong)
        } else if code == 70 {
            Some(Key::ScrollLock)
        } else if code == 99 {
            Some(Key::PrintScreen)
        } else if code == 114 {
            Some(Key::VolumeDown)
        } else if code == 115 {
            Some(Key::VolumeUp)
        } else if code == 56 {
            Some(Key::LeftAlt)
        } else if code == 29 {
            Some(Key::LeftCtrl)
        } else if code == 125 {
            Some(Key::LeftMeta)
        } else if code == 42 {
            Some(Key::LeftShift)
        } else if code == 100 {
            Some(Key::RightAlt)
        } else if code == 97 {
            Some(Key::RightCtrl)
        } else if code == 126 {
            Some(Key::RightMeta)
        } else if code == 54 {
            Some(Key::RightShift)
        } else {
            None
        }
    }

    /// A number that tells the names apart: length, first and last character.
    spec fn name_code(name: Seq<char>) -> int {
        (name.len() * 1000 + name[0] as int) * 1000 + name.last() as int
    }

    /// The key whose name has this number.
    spec fn of_name_code(code: int) -> Option<Key> {
        if code == 1097097 {
            Some(Key::A)
        } else if code == 1098098 {
            Some(Key::B)
        } else if code == 1099099 {
            Some(Key::C)
        } else if code == 1100100 {
            Some(Key::D)
        } else if code == 1101101 {
            Some(Key::E)
        } else if code == 1102102 {
            Some(Key::F)
        } else if code == 1103103 {
            Some(Key::G)
        } else if code == 1104104 {
            Some(Key::H)
        } else if code == 1105105 {
            Some(Key::I)
        } else if code == 1106106 {
            Some(Key::J)
        } else if code == 1107107 {
            Some(Key::K)
        } else if code == 1108108 {
            Some(Key::L)
        } else if code == 1109109 {
            Some(Key::M)
        } else if code == 1110110 {
            Some(Key::N)
        } else if code == 1111111 {
            Some(Key::O)
        } else if code == 1112112 {
            Some(Key::P)
        } else if code == 1113113 {
            Some(Key::Q)
        } else if code == 1114114 {
            Some(Key::R)
        } else if code == 1115115 {
            Some(Key::S)
        } else if code == 1116116 {
            Some(Key::T)
        } else if code == 1117117 {
            Some(Key::U)
        } else if code == 1118118 {
            Some(Key::V)
        } else if code == 1119119 {
            Some(Key::W)
        } else if code == 1120120 {
            Some(Key::X)
        } else if code == 1121121 {
            Some(Key::Y)
        } else if code == 1122122 {
            Some(Key::Z)
        } else if code == 1049049 {
            Some(Key::Num1)
        } else if code == 1050050 {
            Some(Key::Num2)
        } else if code == 1051051 {
            Some(Key::Num3)
        } else if code == 1052052 {
            Some(Key::Num4)
        } else if code == 1053053 {
            Some(Key::Num5)
        } else if code == 1054054 {
            Some(Key::Num6)
        } else if code == 1055055 {
            Some(Key::Num7)
        } else if code == 1056056 {
            Some(Key::Num8)
        } else if code == 1057057 {
            Some(Key::Num9)
        } else if code == 1048048 {
            Some(Key::Num0)
        } else if code == 9098101 {
            Some(Key::Backspace)
        } else if code == 6100101 {
            Some(Key::Delete)
        } else if code == 5101114 {
            Some(Key::Enter)
        } else if code == 3101099 {
            Some(Key::Esc)
        } else if code == 5115101 {
            Some(Key::Space)
        } else if code == 3116098 {
            Some(Key::Tab)
        } else if code == 4100110 {
            Some(Key::Down)
        } else if code == 3101100 {
            Some(Key::End)
        } else if code == 4104101 {
            Some(Key::Home)
        } else if code == 4108116 {
            Some(Key::Left)
        } else if code == 9112110 {
            Some(Key::PageDown)
        } else if code == 7112112 {
            Some(Key::PageUp)
        } else if code == 5114116 {
            Some(Key::Right)
        } else if code == 2117112 {
            Some(Key::Up)
        } else if code == 1039039 {
            Some(Key::Apostrophe)
        } else if code == 1092092 {
            Some(Key::Backslash)
        } else if code == 1044044 {
            Some(Key::Comma)
        } else if code == 1046046 {
            Some(Key::Dot)
        } else if code == 1061061 {
            Some(Key::Equal)
        } else if code == 1096096 {
            Some(Key::Backtick)
        } else if code == 1091091 {
            Some(Key::LeftBrace)
        } else if code == 1045045 {
            Some(Key::Minus)
        } else if code == 1093093 {
            Some(Key::RightBrace)
        } else if code == 1059059 {
            Some(Key::Semicolon)
        } else if code == 1047047 {
            Some(Key::Slash)
        } else if code == 2102049 {
            Some(Key::F1)
        } else if code == 2102050 {
            Some(Key::F2)
        } else if code == 2102051 {
            Some(Key::F3)
        } else if code == 2102052 {
            Some(Key::F4)
        } else if code == 2102053 {
            Some(Key::F5)
        } else if code == 2102054 {
            Some(Key::F6)
        } else if code == 2102055 {
            Some(Key::F7)
        } else if code == 2102056 {
            Some(Key::F8)
        } else if code == 2102057 {
            Some(Key::F9)
        } else if code == 3102048 {
            Some(Key::F10)
        } else if code == 3102049 {
            Some(Key::F11)
        } else if code == 3102050 {
            Some(Key::F12)
        } else if code == 8099107 {
            Some(Key::CapsLock)
        } else if code == 4109101 {
            Some(Key::Mute)
        } else if code == 8110103 {
            Some(Key::NextSong)
        } else if code == 5112101 {
            Some(Key::Pause)
        } else if code == 9112101 {
            Some(Key::PlayPause)
        } else if code == 12112103 {
            Some(Key::PreviousSong)
        } else if code == 10115107 {
            Some(Key::ScrollLock)
        } else if code == 11112110 {
            Some(Key::PrintScreen)
        } else if code == 10118110 {
            Some(Key::VolumeDown)
        } else if code == 8118112 {
            Some(Key::VolumeUp)
        } else if code == 8108116 {
            Some(Key::LeftAlt)
        } else if code == 9108108 {
            Some(Key::LeftCtrl)
        } else if code == 10108114 {
            Some(Key::LeftHyper)
        } else if code == 9108097 {
            Some(Key::LeftMeta)
        } else if code == 10108116 {
            Some(Key::LeftShift)
        } else if code == 9114116 {
            Some(Key::RightAlt)
        } else if code == 10114108 {
            Some(Key::RightCtrl)
        } else if code == 11114114 {
            Some(Key::RightHyper)
        } else if code == 10114097 {
            Some(Key::RightMeta)
        } else if code == 11114116 {
            Some(Key::RightShift)
        } else {
            None
        }
    }

    /// The key with this virtual-key code, for the codes that have one.
    spec fn of_vk(code: u16) -> Option<Key> {
        if code == 0x41 {
            Some(Key::A)
        } else if code == 0x42 {
            Some(Key::B)
        } else if code == 0x43 {
            Some(Key::C)
        } else if code == 0x44 {
            Some(Key::D)
        } else if code == 0x45 {
            Some(Key::E)
        } else if code == 0x46 {
            Some(Key::F)
        } else if code == 0x47 {
            Some(Key::G)
        } else if code == 0x48 {
            Some(Key::H)
        } else if code == 0x49 {
            Some(Key::I)
        } else if code == 0x4A {
            Some(Key::J)
        } else if code == 0x4B {
            Some(Key::K)
        } else if code == 0x4C {
            Some(Key::L)
        } else if code == 0x4D {
            Some(Key::M)
        } else if code == 0x4E {
            Some(Key::N)
        } else if code == 0x4F {
            Some(Key::O)
        } else if code == 0x50 {
            Some(Key::P)
        } else if code == 0x51 {
            Some(Key::Q)
        } else if code == 0x52 {
            Some(Key::R)
        } else if code == 0x53 {
            Some(Key::S)
        } else if code == 0x54 {
            Some(Key::T)
        } else if code == 0x55 {
            Some(Key::U)
        } else if code == 0x56 {
            Some(Key::V)
        } else if code == 0x57 {
            Some(Key::W)
        } else if code == 0x58 {
            Some(Key::X)
        } else if code == 0x59 {
            Some(Key::Y)
        } else if code == 0x5A {
            Some(Key::Z)
        } else if code == 0x31 {
            Some(Key::Num1)
        } else if code == 0x32 {
            Some(Key::Num2)
        } else if code == 0x33 {
            Some(Key::Num3)
        } else if code == 0x34 {
            Some(Key::Num4)
        } else if code == 0x35 {
            Some(Key::Num5)
        } else if code == 0x36 {
            Some(Key::Num6)
        } else if code == 0x37 {
            Some(Key::Num7)
        } else if code == 0x38 {
            Some(Key::Num8)
        } else if code == 0x39 {
            Some(Key::Num9)
        } else if code == 0x30 {
            Some(Key::Num0)
        } else if code == 0x08 {
            Some(Key::Backspace)
        } else if code == 0x2E {
            Some(Key::Delete)
        } else if code == 0x0D {
            Some(Key::Enter)
        } else if code == 0x1B {
            Some(Key::Esc)
        } else if code == 0x20 {
            Some(Key::Space)
        } else if code == 0x09 {
            Some(Key::Tab)
        } else if code == 0x28 {
            Some(Key::Down)
        } else if code == 0x23 {
            Some(Key::End)
        } else if code == 0x24 {
            Some(Key::Home)
        } else if code == 0x25 {
            Some(Key::Left)
        } else if code == 0x22 {
            Some(Key::PageDown)
        } else if code == 0x21 {
            Some(Key::PageUp)
        } else if code == 0x27 {
            Some(Key::Right)
        } else if code == 0x26 {
            Some(Key::Up)
        } else if code == 0xDE {
            Some(Key::Apostrophe)
        } else if code == 0xDC {
            Some(Key::Backslash)
        } else if code == 0xBC {
            Some(Key::Comma)
        } else if code == 0xBE {
            Some(Key::Dot)
        } else if code == 0xBB {
            Some(Key::Equal)
        } else if code == 0xC0 {
            Some(Key::Backtick)
        } else if code == 0xDB {
            Some(Key::LeftBrace)
        } else if code == 0xBD {
            Some(Key::Minus)
        } else if code == 0xDD {
            Some(Key::RightBrace)
        } else if code == 0xBA {
            Some(Key::Semicolon)
        } else if code == 0xBF {
            Some(Key::Slash)
        } else if code == 0x70 {
            Some(Key::F1)
        } else if code == 0x71 {
            Some(Key::F2)
        } else if code == 0x72 {
            Some(Key::F3)
        } else if code == 0x73 {
            Some(Key::F4)
        } else if code == 0x74 {
            Some(Key::F5)
        } else if code == 0x75 {
            Some(Key::F6)
        } else if code == 0x76 {
            Some(Key::F7)
        } else if code == 0x77 {
            Some(Key::F8)
        } else if code == 0x78 {
            Some(Key::F9)
        } else if code == 0x79 {
            Some(Key::F10)
        } else if code == 0x7A {
            Some(Key::F11)
        } else if code == 0x7B {
            Some(Key::F12)
        } else if code == 0x14 {
            Some(Key::CapsLock)
        } else if code == 0xAD {
            Some(Key::Mute)
        } else if code == 0xB0 {
            Some(Key::NextSong)
        } else if code == 0x13 {
            Some(Key::Pause)
        } else if code == 0xB3 {
            Some(Key::PlayPause)
        } else if code == 0xB1 {
            Some(Key::PreviousSong)
        } else if code == 0x91 {
            Some(Key::ScrollLock)
        } else if code == 0x2C {
            Some(Key::PrintScreen)
        } else if code == 0xAE {
            Some(Key::VolumeDown)
        } else if code == 0xAF {
            Some(Key::VolumeUp)
        } else if code == 0xA4 {
            Some(Key::LeftAlt)
        } else if code == 0xA2 {
            Some(Key::LeftCtrl)
        } else if code == 0x5B {
            Some(Key::LeftMeta)
        } else if code == 0xA0 {
            Some(Key::LeftShift)
        } else if code == 0xA5 {
            Some(Key::RightAlt)
        } else if code == 0xA3 {
            Some(Key::RightCtrl)
        } else if code == 0x5C {
            Some(Key::RightMeta)
        } else if code == 0xA1 {
            Some(Key::RightShift)
        } else {
            None
        }
    }
}

/// The key a name stands for, whatever its case.
pub open spec fn key_named(name: Seq<char>) -> Option<Key> {
    if exists|k: Key| k.spec_name() == lower_ascii(name) {
        Some(choose|k: Key| k.spec_name() == lower_ascii(name))
    } else {
        None
    }
}

/// The key with a Linux code, if there is one; `0` is no code.
pub open spec fn key_at_evdev(code: u16) -> Option<Key> {
    if code != 0 && exists|k: Key| k.spec_evdev() == code {
        Some(choose|k: Key| k.spec_evdev() == code)
    } else {
        None
    }
}

/// The key with a Windows virtual-key code, if there is one; `0` is no code.
pub open spec fn key_at_vk(vk: u16) -> Option<Key> {
    if vk != 0 && exists|k: Key| k.spec_vk() == vk {
        Some(choose|k: Key| k.spec_vk() == vk)
    } else {
        None
    }
}

// === Laws ===

/// Every key stands in the table.
pub proof fn all_keys_are_listed(k: Key)
    ensures
        0 <= k.position() < KEY_COUNT,
        ALL_KEYS@[k.position()] == k,
{
}

/// An `evdev` code other than the placeholder 0 belongs to one key.
pub proof fn evdev_codes_are_distinct(a: Key, b: Key)
    requires
        a.spec_evdev() == b.spec_evdev(),
        a.spec_evdev() != 0,
    ensures
        a == b,
{
    assert(Key::of_evdev(a.spec_evdev()) == Some(a));
    assert(Key::of_evdev(b.spec_evdev()) == Some(b));
}

/// A virtual-key code other than the placeholder 0 belongs to one key.
pub proof fn vk_codes_are_distinct(a: Key, b: Key)
    requires
        a.spec_vk() == b.spec_vk(),
        a.spec_vk() != 0,
    ensures
        a == b,
{
    assert(Key::of_vk(a.spec_vk()) == Some(a));
    assert(Key::of_vk(b.spec_vk()) == Some(b));
}

/// A key is found again by its codes.
pub proof fn keys_are_found_by_their_codes(k: Key)
    ensures
        k.spec_evdev() != 0 ==> key_at_evdev(k.spec_evdev()) == Some(k),
        k.spec_vk() != 0 ==> key_at_vk(k.spec_vk()) == Some(k),
{
    if k.spec_evdev() != 0 {
        let other = choose|o: Key| o.spec_evdev() == k.spec_evdev();
        evdev_codes_are_distinct(k, other);
    }
    if k.spec_vk() != 0 {
        let other = choose|o: Key| o.spec_vk() == k.spec_vk();
        vk_codes_are_distinct(k, other);
    }
}

/// No two keys share a name.
pub proof fn names_are_distinct(a: Key, b: Key)
    requires
        a.spec_name() == b.spec_name(),
    ensures
        a == b,
{
    lemma_name_code(a);
    lemma_name_code(b);
}

proof fn lemma_name_code(k: Key)
    ensures
        Key::of_name_code(Key::name_code(k.spec_name())) == Some(k),
{
    reveal_strlit("a");
    reveal_strlit("b");
    reveal_strlit("c");
    reveal_strlit("d");
    reveal_strlit("e");
    reveal_strlit("f");
    reveal_strlit("g");
    reveal_strlit("h");
    reveal_strlit("i");
    reveal_strlit("j");
    reveal_strlit("k");
    reveal_strlit("l");
    reveal_strlit("m");
    reveal_strlit("n");
    reveal_strlit("o");
    reveal_strlit("p");
    reveal_strlit("q");
    reveal_strlit("r");
    reveal_strlit("s");
    reveal_strlit("t");
    reveal_strlit("u");
    reveal_strlit("v");
    reveal_strlit("w");
    reveal_strlit("x");
    reveal_strlit("y");
    reveal_strlit("z");
    reveal_strlit("1");
    reveal_strlit("2");
    reveal_strlit("3");
    reveal_strlit("4");
    reveal_strlit("5");
    reveal_strlit("6");
    reveal_strlit("7");
    reveal_strlit("8");
    reveal_strlit("9");
    reveal_strlit("0");
    reveal_strlit("backspace");
    reveal_strlit("delete");
    reveal_strlit("enter");
    reveal_strlit("esc");
    reveal_strlit("space");
    reveal_strlit("tab");
    reveal_strlit("down");
    reveal_strlit("end");
    reveal_strlit("home");
    reveal_strlit("left");
    reveal_strlit("page_down");
    reveal_strlit("page_up");
    reveal_strlit("right");
    reveal_strlit("up");
    reveal_strlit("'");
    reveal_strlit("\\");
    reveal_strlit(",");
    reveal_strlit(".");
    reveal_strlit("=");
    reveal_strlit("`");
    reveal_strlit("[");
    reveal_strlit("-");
    reveal_strlit("]");
    reveal_strlit(";");
    reveal_strlit("/");
    reveal_strlit("f1");
    reveal_strlit("f2");
    reveal_strlit("f3");
    reveal_strlit("f4");
    reveal_strlit("f5");
    reveal_strlit("f6");
    reveal_strlit("f7");
    reveal_strlit("f8");
    reveal_strlit("f9");
    reveal_strlit("f10");
    reveal_strlit("f11");
    reveal_strlit("f12");
    reveal_strlit("capslock");
    reveal_strlit("mute");
    reveal_strlit("nextsong");
    reveal_strlit("pause");
    reveal_strlit("playpause");
    reveal_strlit("previoussong");
    reveal_strlit("scrolllock");
    reveal_strlit("printscreen");
    reveal_strlit("volumedown");
    reveal_strlit("volumeup");
    reveal_strlit("left_alt");
    reveal_strlit("left_ctrl");
    reveal_strlit("left_hyper");
    reveal_strlit("left_meta");
    reveal_strlit("left_shift");
    reveal_strlit("right_alt");
    reveal_strlit("right_ctrl");
    reveal_strlit("right_hyper");
    reveal_strlit("right_meta");
    reveal_strlit("right_shift");
}

impl Key {
    /// The name a configuration gives this key.
    pub fn name(self) -> (r: &'static str)
        ensures
            r@ == self.spec_name(),
    {
        match self {
            // Letters
            Key::A => "a",
            Key::B => "b",
            Key::C => "c",
            Key::D => "d",
            Key::E => "e",
            Key::F => "f",
            Key::G => "g",
            Key::H => "h",
            Key::I => "i",
            Key::J => "j",
            Key::K => "k",
            Key::L => "l",
            Key::M => "m",
            Key::N => "n",
            Key::O => "o",
            Key::P => "p",
            Key::Q => "q",
            Key::R => "r",
            Key::S => "s",
            Key::T => "t",
            Key::U => "u",
            Key::V => "v",
            Key::W => "w",
            Key::X => "x",
            Key::Y => "y",
            Key::Z => "z",
            // Digits
            Key::Num1 => "1",
            Key::Num2 => "2",
            Key::Num3 => "3",
            Key::Num4 => "4",
            Key::Num5 => "5",
            Key::Num6 => "6",
            Key::Num7 => "7",
            Key::Num8 => "8",
            Key::Num9 => "9",
            Key::Num0 => "0",
            // Whitespace / editing
            Key::Backspace => "backspace",
            Key::Delete => "delete",
            Key::Enter => "enter",
            Key::Esc => "esc",
            Key::Space => "space",
            Key::Tab => "tab",
            // Navigation
            Key::Down => "down",
            Key::End => "end",
            Key::Home => "home",
            Key::Left => "left",
            Key::PageDown => "page_down",
            Key::PageUp => "page_up",
            Key::Right => "right",
            Key::Up => "up",
            // Punctuation (named by the literal unshifted glyph the key produces)
            Key::Apostrophe => "'",
            Key::Backslash => "\\",
            Key::Comma => ",",
            Key::Dot => ".",
            Key::Equal => "=",
            Key::Backtick => "`",
            Key::LeftBrace => "[",
            Key::Minus => "-",
            Key::RightBrace => "]",
            Key::Semicolon => ";",
            Key::Slash => "/",
            // Function keys
            Key::F1 => "f1",
            Key::F2 => "f2",
            Key::F3 => "f3",
            Key::F4 => "f4",
            Key::F5 => "f5",
            Key::F6 => "f6",
            Key::F7 => "f7",
            Key::F8 => "f8",
            Key::F9 => "f9",
            Key::F10 => "f10",
            Key::F11 => "f11",
            Key::F12 => "f12",
            // System / media
            Key::CapsLock => "capslock",
            Key::Mute => "mute",
            Key::NextSong => "nextsong",
            Key::Pause => "pause",
            Key::PlayPause => "playpause",
            Key::PreviousSong => "previoussong",
            Key::ScrollLock => "scrolllock",
            Key::PrintScreen => "printscreen",
            Key::VolumeDown => "volumedown",
            Key::VolumeUp => "volumeup",
            // Modifier keys
            Key::LeftAlt => "left_alt",
            Key::LeftCtrl => "left_ctrl",
            Key::LeftHyper => "left_hyper",
            Key::LeftMeta => "left_meta",
            Key::LeftShift => "left_shift",
            Key::RightAlt => "right_alt",
            Key::RightCtrl => "right_ctrl",
            Key::RightHyper => "right_hyper",
            Key::RightMeta => "right_meta",
            Key::RightShift => "right_shift",
        }
    }

    /// The Linux `evdev` key code for this key.
    pub fn evdev_code(self) -> (r: u16)
        ensures
            r == self.spec_evdev(),
    {
        match self {
            // Letters
            Key::A => 30,
            Key::B => 48,
            Key::C => 46,
            Key::D => 32,
            Key::E => 18,
            Key::F => 33,
            Key::G => 34,
            Key::H => 35,
            Key::I => 23,
            Key::J => 36,
            Key::K => 37,
            Key::L => 38,
            Key::M => 50,
            Key::N => 49,
            Key::O => 24,
            Key::P => 25,
            Key::Q => 16,
            Key::R => 19,
            Key::S => 31,
            Key::T => 20,
            Key::U => 22,
            Key::V => 47,
            Key::W => 17,
            Key::X => 45,
            Key::Y => 21,
            Key::Z => 44,
            // Digits
            Key::Num1 => 2,
            Key::Num2 => 3,
            Key::Num3 => 4,
            Key::Num4 => 5,
            Key::Num5 => 6,
            Key::Num6 => 7,
            Key::Num7 => 8,
            Key::Num8 => 9,
            Key::Num9 => 10,
            Key::Num0 => 11,
            // Whitespace / editing
            Key::Backspace => 14,
            Key::Delete => 111,
            Key::Enter => 28,
            Key::Esc => 1,
            Key::Space => 57,
            Key::Tab => 15,
            // Navigation
            Key::Down => 108,
            Key::End => 107,
            Key::Home => 102,
            Key::Left => 105,
            Key::PageDown => 109,
            Key::PageUp => 104,
            Key::Right => 106,
            Key::Up => 103,
            // Punctuation (named by the literal unshifted glyph the key produces)
            Key::Apostrophe => 40,
            Key::Backslash => 43,
            Key::Comma => 51,
            Key::Dot => 52,
            Key::Equal => 13,
            Key::Backtick => 41,
            Key::LeftBrace => 26,
            Key::Minus => 12,
            Key::RightBrace => 27,
            Key::Semicolon => 39,
            Key::Slash => 53,
            // Function keys
            Key::F1 => 59,
            Key::F2 => 60,
            Key::F3 => 61,
            Key::F4 => 62,
            Key::F5 => 63,
            Key::F6 => 64,
            Key::F7 => 65,
            Key::F8 => 66,
            Key::F9 => 67,
            Key::F10 => 68,
            Key::F11 => 87,
            Key::F12 => 88,
            // System / media
            Key::CapsLock => 58,
            Key::Mute => 113,
            Key::NextSong => 163,
            Key::Pause => 119,
            Key::PlayPause => 164,
            Key::PreviousSong => 165,
            Key::ScrollLock => 70,
            Key::PrintScreen => 99,
            Key::VolumeDown => 114,
            Key::VolumeUp => 115,
            // Modifier keys
            Key::LeftAlt => 56,
            Key::LeftCtrl => 29,
            Key::LeftHyper => 0,
            Key::LeftMeta => 125,
            Key::LeftShift => 42,
            Key::RightAlt => 100,
            Key::RightCtrl => 97,
            Key::RightHyper => 0,
            Key::RightMeta => 126,
            Key::RightShift => 54,
        }
    }

    /// The Windows virtual-key code for this key.
    pub fn win_vk(self) -> (r: u16)
        ensures
            r == self.spec_vk(),
    {
        match self {
            // Letters
            Key::A => 0x41,
            Key::B => 0x42,
            Key::C => 0x43,
            Key::D => 0x44,
            Key::E => 0x45,
            Key::F => 0x46,
            Key::G => 0x47,
            Key::H => 0x48,
            Key::I => 0x49,
            Key::J => 0x4A,
            Key::K => 0x4B,
            Key::L => 0x4C,
            Key::M => 0x4D,
            Key::N => 0x4E,
            Key::O => 0x4F,
            Key::P => 0x50,
            Key::Q => 0x51,
            Key::R => 0x52,
            Key::S => 0x53,
            Key::T => 0x54,
            Key::U => 0x55,
            Key::V => 0x56,
            Key::W => 0x57,
            Key::X => 0x58,
            Key::Y => 0x59,
            Key::Z => 0x5A,
            // Digits
            Key::Num1 => 0x31,
            Key::Num2 => 0x32,
            Key::Num3 => 0x33,
            Key::Num4 => 0x34,
            Key::Num5 => 0x35,
            Key::Num6 => 0x36,
            Key::Num7 => 0x37,
            Key::Num8 => 0x38,
            Key::Num9 => 0x39,
            Key::Num0 => 0x30,
            // Whitespace / editing
            Key::Backspace => 0x08,
            Key::Delete => 0x2E,
            Key::Enter => 0x0D,
            Key::Esc => 0x1B,
            Key::Space => 0x20,
            Key::Tab => 0x09,
            // Navigation
            Key::Down => 0x28,
            Key::End => 0x23,
            Key::Home => 0x24,
            Key::Left => 0x25,
            Key::PageDown => 0x22,
            Key::PageUp => 0x21,
            Key::Right => 0x27,
            Key::Up => 0x26,
            // Punctuation (named by the literal unshifted glyph the key produces)
            Key::Apostrophe => 0xDE,
            Key::Backslash => 0xDC,
            Key::Comma => 0xBC,
            Key::Dot => 0xBE,
            Key::Equal => 0xBB,
            Key::Backtick => 0xC0,
            Key::LeftBrace => 0xDB,
            Key::Minus => 0xBD,
            Key::RightBrace => 0xDD,
            Key::Semicolon => 0xBA,
            Key::Slash => 0xBF,
            // Function keys
            Key::F1 => 0x70,
            Key::F2 => 0x71,
            Key::F3 => 0x72,
            Key::F4 => 0x73,
            Key::F5 => 0x74,
            Key::F6 => 0x75,
            Key::F7 => 0x76,
            Key::F8 => 0x77,
            Key::F9 => 0x78,
            Key::F10 => 0x79,
            Key::F11 => 0x7A,
            Key::F12 => 0x7B,
            // System / media
            Key::CapsLock => 0x14,
            Key::Mute => 0xAD,
            Key::NextSong => 0xB0,
            Key::Pause => 0x13,
            Key::PlayPause => 0xB3,
            Key::PreviousSong => 0xB1,
            Key::ScrollLock => 0x91,
            Key::PrintScreen => 0x2C,
            Key::VolumeDown => 0xAE,
            Key::VolumeUp => 0xAF,
            // Modifier keys
            Key::LeftAlt => 0xA4,
            Key::LeftCtrl => 0xA2,
            Key::LeftHyper => 0,
            Key::LeftMeta => 0x5B,
            Key::LeftShift => 0xA0,
            Key::RightAlt => 0xA5,
            Key::RightCtrl => 0xA3,
            Key::RightHyper => 0,
            Key::RightMeta => 0x5C,
            Key::RightShift => 0xA1,
        }
    }

    /// The [`Modifier`] this key acts as, if it is a modifier key.
    pub fn as_modifier(self) -> (r: Option<Modifier>)
        ensures
            r == self.spec_modifier(),
    {
        match self {
            Key::LeftAlt => Some(Modifier::Alt),
            Key::LeftCtrl => Some(Modifier::Control),
            Key::LeftHyper => Some(Modifier::Hyper),
            Key::LeftMeta => Some(Modifier::Super),
            Key::LeftShift => Some(Modifier::Shift),
            Key::RightAlt => Some(Modifier::Alt),
            Key::RightCtrl => Some(Modifier::Control),
            Key::RightHyper => Some(Modifier::Hyper),
            Key::RightMeta => Some(Modifier::Super),
            Key::RightShift => Some(Modifier::Shift),
            _ => None,
        }
    }

    /// The identifier of this key in messages.
    pub fn label(self) -> (r: &'static str)
        ensures
            r@ == self.spec_label(),
    {
        match self {
            Key::A => "A",
            Key::B => "B",
            Key::C => "C",
            Key::D => "D",
            Key::E => "E",
            Key::F => "F",
            Key::G => "G",
            Key::H => "H",
            Key::I => "I",
            Key::J => "J",
            Key::K => "K",
            Key::L => "L",
            Key::M => "M",
            Key::N => "N",
            Key::O => "O",
            Key::P => "P",
            Key::Q => "Q",
            Key::R => "R",
            Key::S => "S",
            Key::T => "T",
            Key::U => "U",
            Key::V => "V",
            Key::W => "W",
            Key::X => "X",
            Key::Y => "Y",
            Key::Z => "Z",
            Key::Num1 => "Num1",
            Key::Num2 => "Num2",
            Key::Num3 => "Num3",
            Key::Num4 => "Num4",
            Key::Num5 => "Num5",
            Key::Num6 => "Num6",
            Key::Num7 => "Num7",
            Key::Num8 => "Num8",
            Key::Num9 => "Num9",
            Key::Num0 => "Num0",
            Key::Backspace => "Backspace",
            Key::Delete => "Delete",
            Key::Enter => "Enter",
            Key::Esc => "Esc",
            Key::Space => "Space",
            Key::Tab => "Tab",
            Key::Down => "Down",
            Key::End => "End",
            Key::Home => "Home",
            Key::Left => "Left",
            Key::PageDown => "PageDown",
            Key::PageUp => "PageUp",
            Key::Right => "Right",
            Key::Up => "Up",
            Key::Apostrophe => "Apostrophe",
            Key::Backslash => "Backslash",
            Key::Comma => "Comma",
            Key::Dot => "Dot",
            Key::Equal => "Equal",
            Key::Backtick => "Backtick",
            Key::LeftBrace => "LeftBrace",
            Key::Minus => "Minus",
            Key::RightBrace => "RightBrace",
            Key::Semicolon => "Semicolon",
            Key::Slash => "Slash",
            Key::F1 => "F1",
            Key::F2 => "F2",
            Key::F3 => "F3",
            Key::F4 => "F4",
            Key::F5 => "F5",
            Key::F6 => "F6",
            Key::F7 => "F7",
            Key::F8 => "F8",
            Key::F9 => "F9",
            Key::F10 => "F10",
            Key::F11 => "F11",
            Key::F12 => "F12",
            Key::CapsLock => "CapsLock",
            Key::Mute => "Mute",
            Key::NextSong => "NextSong",
            Key::Pause => "Pause",
            Key::PlayPause => "PlayPause",
            Key::PreviousSong => "PreviousSong",
            Key::ScrollLock => "ScrollLock",
            Key::PrintScreen => "PrintScreen",
            Key::VolumeDown => "VolumeDown",
            Key::VolumeUp => "VolumeUp",
            Key::LeftAlt => "LeftAlt",
            Key::LeftCtrl => "LeftCtrl",
            Key::LeftHyper => "LeftHyper",
            Key::LeftMeta => "LeftMeta",
            Key::LeftShift => "LeftShift",
            Key::RightAlt => "RightAlt",
            Key::RightCtrl => "RightCtrl",
            Key::RightHyper => "RightHyper",
            Key::RightMeta => "RightMeta",
            Key::RightShift => "RightShift",
        }
    }

    /// Look up a key by its name (case-insensitive).
    pub fn parse(name: &str) -> (r: Option<Key>)
        ensures
            r == key_named(name@),
    {
        let lower = to_lower_ascii(name);
        let all = ALL_KEYS;
        let mut i: usize = 0;
        while i < KEY_COUNT
            invariant
                i <= KEY_COUNT,
                all == ALL_KEYS,
                lower@ == lower_ascii(name@),
                forall|j: int| 0 <= j < i ==> (#[trigger] ALL_KEYS@[j]).spec_name() != lower@,
            decreases KEY_COUNT - i,
        {
            let k = all[i];
            if same_text(k.name(), lower.as_str()) {
                proof {
                    let other = choose|o: Key| o.spec_name() == lower_ascii(name@);
                    names_are_distinct(k, other);
                }
                return Some(k);
            }
            i = i + 1;
        }
        proof {
            assert forall|k: Key| k.spec_name() != lower_ascii(name@) by {
                all_keys_are_listed(k);
            }
        }
        None
    }

    /// Whether this key is one of the function keys F1–F12. A real modifier
    /// paired with a function key (e.g. `M+f4` to close a window) is a
    /// window-manager shortcut rather than a repeatable key, so the engine
    /// emits such chords one-shot — holding them would leave the modifier
    /// reported as down while the shortcut's dialog runs.
    pub fn is_function_key(self) -> (r: bool)
        ensures
            r == self.spec_function_key(),
    {
        match self {
            Key::F1 | Key::F2 | Key::F3 | Key::F4 | Key::F5 | Key::F6 | Key::F7 | Key::F8 | Key::F9
            | Key::F10 | Key::F11 | Key::F12 => true,
            _ => false,
        }
    }

    /// Build a key from a raw Linux `evdev` code, or `None` if unknown.
    /// Code `0` (the synthetic `Hyper` placeholder) never matches.
    pub fn from_evdev_code(code: u16) -> (r: Option<Key>)
        ensures
            r == key_at_evdev(code),
    {
        if code == 0 {
            return None;
        }
        let all = ALL_KEYS;
        let mut i: usize = 0;
        while i < KEY_COUNT
            invariant
                i <= KEY_COUNT,
                all == ALL_KEYS,
                code != 0,
                forall|j: int| 0 <= j < i ==> (#[trigger] ALL_KEYS@[j]).spec_evdev() != code,
            decreases KEY_COUNT - i,
        {
            let k = all[i];
            if k.evdev_code() == code {
                proof {
                    let other = choose|o: Key| o.spec_evdev() == code;
                    evdev_codes_are_distinct(k, other);
                }
                return Some(k);
            }
            i = i + 1;
        }
        proof {
            assert forall|k: Key| k.spec_evdev() != code by {
                all_keys_are_listed(k);
            }
        }
        None
    }

    /// Build a key from a raw Windows virtual-key code, or `None` if unknown.
    pub fn from_win_vk(vk: u16) -> (r: Option<Key>)
        ensures
            r == key_at_vk(vk),
    {
        if vk == 0 {
            return None;
        }
        let all = ALL_KEYS;
        let mut i: usize = 0;
        while i < KEY_COUNT
            invariant
                i <= KEY_COUNT,
                all == ALL_KEYS,
                vk != 0,
                forall|j: int| 0 <= j < i ==> (#[trigger] ALL_KEYS@[j]).spec_vk() != vk,
            decreases KEY_COUNT - i,
        {
            let k = all[i];
            if k.win_vk() == vk {
                proof {
                    let other = choose|o: Key| o.spec_vk() == vk;
                    vk_codes_are_distinct(k, other);
                }
                return Some(k);
            }
            i = i + 1;
        }
        proof {
            assert forall|k: Key| k.spec_vk() != vk by {
                all_keys_are_listed(k);
            }
        }
        None
    }
}

impl View for Key {
    type V = Key;

    open spec fn view(&self) -> Key {
        *self
    }
}

impl Atom for Key {
    fn same(&self, other: &Key) -> (r: bool) {
        *self == *other
    }
}

} // verus!
