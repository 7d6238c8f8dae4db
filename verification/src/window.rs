//! Window and tray decisions: the tray menu, closing the main window and
//! toggling the tray popup.
use crate::text::{chars_eq, chars_of};
use vstd::prelude::*;

verus! {

broadcast use vstd::string::group_string_axioms;

/// What a tray-menu entry does.
#[derive(Clone, Copy, Debug, PartialEq, Eq, Structural)]
pub enum MenuAction {
    /// Toggle the tray popup (`widget`).
    ToggleWidget,
    /// Show and focus the main window (`show`).
    ShowMain,
    /// Leave the application (`quit`).
    Quit,
    /// Any other entry: nothing.
    Ignore,
}

pub open spec fn menu_action_of(id: Seq<char>) -> MenuAction {
    if id == "widget"@ {
        MenuAction::ToggleWidget
    } else if id == "show"@ {
        MenuAction::ShowMain
    } else if id == "quit"@ {
        MenuAction::Quit
    } else {
        MenuAction::Ignore
    }
}

fn is_word(a: &Vec<char>, word: &str) -> (r: bool)
    ensures
        r == (a@ == word@),
{
    chars_eq(a, &chars_of(word))
}

/// The action of the tray-menu entry with this id.
pub fn menu_action(id: &str) -> (r: MenuAction)
    ensures
        r == menu_action_of(id@),
{
    let v = chars_of(id);
    if is_word(&v, "widget") {
        MenuAction::ToggleWidget
    } else if is_word(&v, "show") {
        MenuAction::ShowMain
    } else if is_word(&v, "quit") {
        MenuAction::Quit
    } else {
        MenuAction::Ignore
    }
}

/// Closing the main window only hides it (the application stays in the tray);
/// other windows close.
pub fn hides_on_close(label: &str) -> (r: bool)
    ensures
        r == (label@ == "main"@),
{
    is_word(&chars_of(label), "main")
}

/// What toggling the tray popup does.
#[derive(Clone, Copy, Debug, PartialEq, Eq, Structural)]
pub enum PopupToggle {
    /// The popup is shown: remember where it is, then hide it.
    SaveAndHide,
    /// The popup exists but is hidden: show and focus it.
    Show,
    /// There is no popup yet: create it, place it, show and focus it.
    Create,
}

/// What toggling does, given whether the popup exists and, if it does,
/// whether it is visible.
pub open spec fn toggle_of(existing_visible: Option<bool>) -> PopupToggle {
    match existing_visible {
        Some(true) => PopupToggle::SaveAndHide,
        Some(false) => PopupToggle::Show,
        None => PopupToggle::Create,
    }
}

/// Whether the popup is visible after the toggle, when its window operations
/// succeed: hidden after `SaveAndHide`, shown otherwise.
pub open spec fn visible_after(action: PopupToggle) -> bool {
    action != PopupToggle::SaveAndHide
}

/// What toggling does, given whether the popup exists and, if it does,
/// whether it is visible.
pub fn popup_toggle(existing_visible: Option<bool>) -> (r: PopupToggle)
    ensures
        r == toggle_of(existing_visible),
{
    match existing_visible {
        Some(true) => PopupToggle::SaveAndHide,
        Some(false) => PopupToggle::Show,
        None => PopupToggle::Create,
    }
}

/// Toggling flips the popup's visibility, so toggling an existing popup twice
/// restores it; a popup that does not exist yet is shown by the first toggle.
pub proof fn law_toggle_twice_restores(visible: bool)
    ensures
        visible_after(toggle_of(Some(visible))) == !visible,
        visible_after(toggle_of(Some(visible_after(toggle_of(Some(visible)))))) == visible,
        visible_after(toggle_of(None)),
{
}

} // verus!
