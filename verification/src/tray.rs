//! The tray menu: what its items do, and what it says.

use crate::text::same_text;
use vstd::prelude::*;

verus! {

// === Constants ===

/// Hover text for the tray icon while remapping is on.
pub const TOOLTIP_ON: &'static str = "RightKeys: remapping on";

/// Hover text for the tray icon while remapping is paused.
pub const TOOLTIP_OFF: &'static str = "RightKeys: remapping paused";

/// Stable id of the menu item that turns remapping on and off.
pub const ID_ENABLE: &'static str = "enable";

/// Stable id of the menu item that reloads the configuration.
pub const ID_RELOAD: &'static str = "reload";

/// Stable id of the menu item that quits.
pub const ID_QUIT: &'static str = "quit";

// === Menu ===

/// What choosing a menu item asks for.
#[derive(Clone, Copy, Debug, Eq, PartialEq, Structural)]
pub enum MenuChoice {
    /// Turn remapping on (`true`) or off, and say so.
    SetEnabled(bool),
    /// Re-read the configuration.
    Reload,
    /// End the program.
    Quit,
    /// The item is not of this menu.
    Nothing,
}

/// What choosing the item with an id asks for, by whether remapping is on.
pub open spec fn choice_of(id: Seq<char>, enabled: bool) -> MenuChoice {
    if id == ID_ENABLE@ {
        MenuChoice::SetEnabled(!enabled)
    } else if id == ID_RELOAD@ {
        MenuChoice::Reload
    } else if id == ID_QUIT@ {
        MenuChoice::Quit
    } else {
        MenuChoice::Nothing
    }
}

/// What choosing the item with an id asks for, by whether remapping is on.
pub fn menu_choice(id: &str, enabled: bool) -> (r: MenuChoice)
    ensures
        r == choice_of(id@, enabled),
{
    if same_text(id, ID_ENABLE) {
        MenuChoice::SetEnabled(!enabled)
    } else if same_text(id, ID_RELOAD) {
        MenuChoice::Reload
    } else if same_text(id, ID_QUIT) {
        MenuChoice::Quit
    } else {
        MenuChoice::Nothing
    }
}

/// Tooltip text for the given remapping state.
pub fn tooltip(enabled: bool) -> (r: &'static str)
    ensures
        r@ == if enabled {
            TOOLTIP_ON@
        } else {
            TOOLTIP_OFF@
        },
{
    if enabled {
        TOOLTIP_ON
    } else {
        TOOLTIP_OFF
    }
}

/// What is said when remapping is turned on or off.
pub fn toggle_message(enabled: bool) -> (r: &'static str)
    ensures
        r@ == if enabled {
            "RightKeys enabled"@
        } else {
            "RightKeys disabled"@
        },
{
    if enabled {
        "RightKeys enabled"
    } else {
        "RightKeys disabled"
    }
}

/// Choosing the toggle twice brings remapping back to what it was.
pub proof fn toggling_twice_changes_nothing(enabled: bool)
    ensures
        choice_of(ID_ENABLE@, enabled) matches MenuChoice::SetEnabled(now) && choice_of(
            ID_ENABLE@,
            now,
        ) == MenuChoice::SetEnabled(enabled),
{
}

} // verus!
