use open_in_browser::tray::{menu_action, tray_click_shows_window, MenuAction, MENU_ITEM_QUIT, MENU_ITEM_SHOW};

#[test]
fn menu_items() {
    assert_eq!(menu_action("quit"), MenuAction::Quit);
    assert_eq!(menu_action("show"), MenuAction::ShowWindow);
    assert_eq!(menu_action("Quit"), MenuAction::Ignore);
    assert_eq!(menu_action(""), MenuAction::Ignore);
    assert_eq!(menu_action(MENU_ITEM_QUIT), MenuAction::Quit);
    assert_eq!(menu_action(MENU_ITEM_SHOW), MenuAction::ShowWindow);
}

#[test]
fn only_left_double_click_shows_window() {
    assert!(tray_click_shows_window(true, true));
    assert!(!tray_click_shows_window(true, false));
    assert!(!tray_click_shows_window(false, true));
    assert!(!tray_click_shows_window(false, false));
}
