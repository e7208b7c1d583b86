use highlight_notifier::window::{
    saved_popup_position, saved_popup_state, should_restore_window_state, window_state_to_save,
    PopupState, WindowState,
};

#[test]
fn ordinary_state_is_saved_and_restored() {
    let s = window_state_to_save(100, 50, 800, 600).unwrap();
    assert_eq!(s, WindowState { x: 100, y: 50, width: 800, height: 600 });
    assert!(should_restore_window_state(&s));
}

#[test]
fn small_or_far_off_states_are_not_saved() {
    assert_eq!(window_state_to_save(-10001, 0, 800, 600), None);
    assert_eq!(window_state_to_save(0, -10001, 800, 600), None);
    assert_eq!(window_state_to_save(0, 0, 199, 600), None);
    assert_eq!(window_state_to_save(0, 0, 800, 299), None);
}

#[test]
fn smallest_saved_state() {
    assert_eq!(
        window_state_to_save(-10000, -10000, 200, 300),
        Some(WindowState { x: -10000, y: -10000, width: 200, height: 300 })
    );
}

#[test]
fn state_at_minus_ten_thousand_is_saved_but_not_restored() {
    let s = window_state_to_save(-10000, 0, 800, 600).unwrap();
    assert!(!should_restore_window_state(&s));
}

#[test]
fn restore_refuses_small_windows() {
    assert!(!should_restore_window_state(&WindowState { x: 0, y: 0, width: 199, height: 600 }));
    assert!(!should_restore_window_state(&WindowState { x: 0, y: 0, width: 800, height: 299 }));
    assert!(should_restore_window_state(&WindowState { x: -9999, y: -9999, width: 200, height: 300 }));
}

#[test]
fn popup_state_needs_all_four_fields() {
    assert_eq!(
        saved_popup_state(Some(10), Some(-20), Some(400), Some(300)),
        Some(PopupState { x: 10, y: -20, width: 400, height: 300 })
    );
    assert_eq!(saved_popup_state(None, Some(-20), Some(400), Some(300)), None);
    assert_eq!(saved_popup_state(Some(10), Some(-20), Some(400), None), None);
}

#[test]
fn popup_state_is_cut_to_width() {
    assert_eq!(
        saved_popup_state(Some(4294967297), Some(-4294967297), Some(4294967301), Some(300)),
        Some(PopupState { x: 1, y: -1, width: 5, height: 300 })
    );
}

#[test]
fn popup_state_round_trip() {
    let s = PopupState { x: -5, y: 7, width: u32::MAX, height: 0 };
    assert_eq!(
        saved_popup_state(Some(s.x as i64), Some(s.y as i64), Some(s.width as u64), Some(s.height as u64)),
        Some(s)
    );
}

#[test]
fn popup_position() {
    assert_eq!(saved_popup_position(Some(3), Some(4)), Some((3, 4)));
    assert_eq!(saved_popup_position(Some(3), None), None);
    assert_eq!(saved_popup_position(Some(2147483648), Some(0)), Some((-2147483648, 0)));
}
