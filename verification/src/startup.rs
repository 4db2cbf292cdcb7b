//! Decisions made while starting up: where the configuration is, which devices are
//! keyboards, and what to do about instances that already run.

use crate::path::{join, joined};
use crate::text::{owned, same_text};
use vstd::prelude::*;

verus! {

// === Options ===

/// Runtime options passed from the command line to the active backend.
#[derive(Debug, Default)]
pub struct Options {
    /// Explicit device paths/names to grab. Empty means auto-detect.
    pub devices: Vec<String>,
    /// Replace an already-running instance instead of refusing to start.
    pub force: bool,
}

// === Configuration file ===

/// The directory that holds the configurations of all programs: `%APPDATA%` on Windows,
/// elsewhere `$XDG_CONFIG_HOME` or else `.config` in the home directory.
pub open spec fn config_base(
    windows: bool,
    appdata: Option<Seq<char>>,
    xdg: Option<Seq<char>>,
    home: Option<Seq<char>>,
) -> Option<Seq<char>> {
    if windows {
        appdata
    } else if xdg is Some {
        xdg
    } else {
        match home {
            Some(dir) => Some(joined(dir, ".config"@, false)),
            None => None,
        }
    }
}

/// An optional text.
pub open spec fn str_view(s: Option<&str>) -> Option<Seq<char>> {
    match s {
        Some(s) => Some(s@),
        None => None,
    }
}

/// The default per-user config path, from the environment: `settings.kdl` in the
/// program's directory among the configurations; `None` where the environment does not
/// say where those are.
pub fn default_config_path(
    windows: bool,
    appdata: Option<&str>,
    xdg: Option<&str>,
    home: Option<&str>,
) -> (r: Option<String>)
    ensures
        match config_base(windows, str_view(appdata), str_view(xdg), str_view(home)) {
            Some(base) => r matches Some(path) && path@ == joined(
                joined(base, "rightkeys"@, windows),
                "settings.kdl"@,
                windows,
            ),
            None => r is None,
        },
{
    let base = if windows {
        match appdata {
            Some(dir) => owned(dir),
            None => return None,
        }
    } else {
        match xdg {
            Some(dir) => owned(dir),
            None => match home {
                Some(dir) => join(dir, ".config", false),
                None => return None,
            },
        }
    };
    let own = join(base.as_str(), "rightkeys", windows);
    Some(join(own.as_str(), "settings.kdl", windows))
}

// === Devices ===

/// The code of the A key.
pub const CODE_A: u16 = 30;

/// The code of the Z key.
pub const CODE_Z: u16 = 44;

/// The code of the space bar.
pub const CODE_SPACE: u16 = 57;

/// The code of the left mouse button.
pub const CODE_BTN_LEFT: u16 = 0x110;

/// A device that sends these codes is a keyboard: it has letters and a space bar, and
/// is no mouse.
pub open spec fn sends_like_a_keyboard(codes: Seq<u16>) -> bool {
    codes.contains(CODE_A) && codes.contains(CODE_Z) && codes.contains(CODE_SPACE)
        && !codes.contains(CODE_BTN_LEFT)
}

fn has_code(codes: &Vec<u16>, code: u16) -> (r: bool)
    ensures
        r == codes@.contains(code),
{
    let mut i: usize = 0;
    while i < codes.len()
        invariant
            i <= codes@.len(),
            forall|k: int| 0 <= k < i ==> codes@[k] != code,
        decreases codes@.len() - i,
    {
        if codes[i] == code {
            return true;
        }
        i = i + 1;
    }
    false
}

/// Whether a device that sends these codes is a keyboard.
pub fn is_keyboard(codes: &Vec<u16>) -> (r: bool)
    ensures
        r == sends_like_a_keyboard(codes@),
{
    has_code(codes, CODE_A) && has_code(codes, CODE_Z) && has_code(codes, CODE_SPACE) && !has_code(
        codes,
        CODE_BTN_LEFT,
    )
}

/// The device number `i` is the first with a name.
pub open spec fn first_named(names: Seq<Option<String>>, name: Seq<char>, i: int) -> bool {
    &&& 0 <= i < names.len()
    &&& names[i] matches Some(n) && n@ == name
    &&& forall|k: int| 0 <= k < i ==> !((#[trigger] names[k]) matches Some(n) && n@ == name)
}

/// The first device with a name, by its number.
pub fn device_named(names: &Vec<Option<String>>, name: &str) -> (r: Option<usize>)
    ensures
        match r {
            Some(i) => first_named(names@, name@, i as int),
            None => forall|k: int|
                0 <= k < names@.len() ==> !((#[trigger] names@[k]) matches Some(n) && n@ == name@),
        },
{
    let mut i: usize = 0;
    while i < names.len()
        invariant
            i <= names@.len(),
            forall|k: int|
                0 <= k < i ==> !((#[trigger] names@[k]) matches Some(n) && n@ == name@),
        decreases names@.len() - i,
    {
        if let Some(n) = &names[i] {
            if same_text(n.as_str(), name) {
                return Some(i);
            }
        }
        i = i + 1;
    }
    None
}

// === Instances ===

/// What to do about instances that already run.
#[derive(Clone, Copy, Debug, Eq, PartialEq, Structural)]
pub enum Instances {
    /// There are none.
    Alone,
    /// Refuse to start.
    Refuse,
    /// Replace them, so a relaunch just restarts cleanly.
    Replace,
}

/// What to do about instances that already run.
pub fn other_instances_found(others: &Vec<u32>, force: bool) -> (r: Instances)
    ensures
        r == if others@.len() == 0 {
            Instances::Alone
        } else if force {
            Instances::Replace
        } else {
            Instances::Refuse
        },
{
    if others.len() == 0 {
        Instances::Alone
    } else if force {
        Instances::Replace
    } else {
        Instances::Refuse
    }
}

// === Windows ===

/// Whether a window is a normal, user-switchable one: visible, titled, not a tool
/// window, un-owned, and not cloaked (a hidden virtual-desktop shell).
pub fn is_alt_tab_window(
    visible: bool,
    title_len: i32,
    ex_style: u32,
    owned: bool,
    cloaked: u32,
) -> (r: bool)
    ensures
        r == (visible && title_len != 0 && ex_style & 0x80 == 0 && !owned && cloaked == 0),
{
    visible && title_len != 0 && ex_style & 0x80 == 0 && !owned && cloaked == 0
}

/// Whether input has to be attached to the foreground thread for a window to be
/// brought to the front.
pub fn needs_attach(foreground_thread: u32, own_thread: u32) -> (r: bool)
    ensures
        r == (foreground_thread != 0 && foreground_thread != own_thread),
{
    foreground_thread != 0 && foreground_thread != own_thread
}

} // verus!
