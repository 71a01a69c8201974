//! What the tray menu does for a clicked item.

use vstd::prelude::*;

verus! {

/// Id of the menu item that quits the application.
pub const MENU_ITEM_QUIT: &'static str = "quit";

/// Id of the menu item that shows the settings window.
pub const MENU_ITEM_SHOW: &'static str = "show";

/// What a click on a tray menu item does.
#[derive(Debug, Clone, Copy, PartialEq, Eq, Structural)]
pub enum MenuAction {
    /// Exit the application.
    Quit,
    /// Show and focus the main window.
    ShowWindow,
    /// Nothing: the item is not known.
    Ignore,
}

/// What the menu item with id `id` does.
pub open spec fn menu_action_for(id: Seq<char>) -> MenuAction {
    if id == MENU_ITEM_QUIT@ {
        MenuAction::Quit
    } else if id == MENU_ITEM_SHOW@ {
        MenuAction::ShowWindow
    } else {
        MenuAction::Ignore
    }
}

/// What a click on the menu item with id `id` does.
pub fn menu_action(id: &str) -> (r: MenuAction)
    ensures
        r == menu_action_for(id@),
{
    let id = String::from_str(id);
    if id == String::from_str(MENU_ITEM_QUIT) {
        MenuAction::Quit
    } else if id == String::from_str(MENU_ITEM_SHOW) {
        MenuAction::ShowWindow
    } else {
        MenuAction::Ignore
    }
}

/// Whether a click on the tray icon shows the main window: only a double
/// click with the left button does (the right button opens the menu).
pub fn tray_click_shows_window(double_click: bool, left_button: bool) -> (r: bool)
    ensures
        r == (double_click && left_button),
{
    double_click && left_button
}

} // verus!
