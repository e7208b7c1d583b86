use highlight_notifier::popup::{
    context_window_label, get_existing_popup_count, is_popup_label, popup_label, popup_page_url,
};

#[test]
fn popup_labels_are_numbered() {
    assert_eq!(popup_label(0), "highlight-popup-0");
    assert_eq!(popup_label(42), "highlight-popup-42");
    assert_eq!(popup_label(100), "highlight-popup-100");
    assert_eq!(popup_label(u32::MAX), "highlight-popup-4294967295");
}

#[test]
fn popup_labels_match_decimal_formatting() {
    for n in [1u32, 9, 10, 99, 1000, 65535, 123456789] {
        assert_eq!(popup_label(n), format!("highlight-popup-{}", n));
    }
}

#[test]
fn popup_labels_are_recognised() {
    for n in [0u32, 7, 31337] {
        assert!(is_popup_label(&popup_label(n)));
    }
    assert!(!is_popup_label("main"));
    assert!(!is_popup_label("highlight-popup"));
    assert!(is_popup_label("highlight-popup-"));
}

#[test]
fn distinct_numbers_give_distinct_labels() {
    assert_ne!(popup_label(1), popup_label(10));
    assert_ne!(popup_label(12), popup_label(21));
}

#[test]
fn counts_only_popup_windows() {
    let labels = vec![
        "main".to_string(),
        "highlight-popup-3".to_string(),
        "context-1".to_string(),
        "highlight-popup-x".to_string(),
        "Highlight-popup-4".to_string(),
    ];
    assert_eq!(get_existing_popup_count(&labels), 2);
    assert_eq!(get_existing_popup_count(&[]), 0);
}

#[test]
fn a_new_popup_adds_one() {
    let mut labels = vec!["main".to_string(), popup_label(0)];
    let before = get_existing_popup_count(&labels);
    labels.push(popup_label(1));
    assert_eq!(get_existing_popup_count(&labels), before + 1);
}

#[test]
fn page_and_context_labels() {
    assert_eq!(popup_page_url("highlight-popup-5"), "popup.html#highlight-popup-5");
    assert_eq!(context_window_label("98765"), "context-98765");
    assert_eq!(context_window_label(""), "context-");
}
