use highlight_notifier::tray::{menu_action, tray_click_action, MenuAction, TrayAction};

#[test]
fn menu_items() {
    assert_eq!(menu_action("show"), MenuAction::ShowWindow);
    assert_eq!(menu_action("hide"), MenuAction::HideWindow);
    assert_eq!(menu_action("quit"), MenuAction::Quit);
    assert_eq!(menu_action("Show"), MenuAction::Ignore);
    assert_eq!(menu_action("shows"), MenuAction::Ignore);
    assert_eq!(menu_action(""), MenuAction::Ignore);
}

#[test]
fn left_release_toggles() {
    assert_eq!(tray_click_action(true, true, Some(true)), TrayAction::HideWindow);
    assert_eq!(tray_click_action(true, true, Some(false)), TrayAction::ShowWindow);
    assert_eq!(tray_click_action(true, true, None), TrayAction::Ignore);
}

#[test]
fn other_clicks_do_nothing() {
    assert_eq!(tray_click_action(false, true, Some(true)), TrayAction::Ignore);
    assert_eq!(tray_click_action(true, false, Some(false)), TrayAction::Ignore);
}
