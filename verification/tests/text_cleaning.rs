use highlight_notifier::strings::is_white_space;
use highlight_notifier::clipboard::clipboard_payload;
use highlight_notifier::text::clean_text_for_copy;

#[test]
fn drops_zero_width_and_outer_white_space() {
    let input = "\u{200B}\n\t  Hello\u{200D} World \u{FEFF}\n\n".to_string();
    assert_eq!(clean_text_for_copy(input), "Hello World");
}

#[test]
fn keeps_inner_white_space() {
    assert_eq!(clean_text_for_copy("  a \n\n b  ".to_string()), "a \n\n b");
}

#[test]
fn unicode_white_space_is_trimmed() {
    assert_eq!(clean_text_for_copy("\u{3000}\u{A0}abc\u{2003}".to_string()), "abc");
}

#[test]
fn zero_width_between_spaces_goes_before_trimming() {
    assert_eq!(clean_text_for_copy(" \u{200B} x \u{200C} ".to_string()), "x");
}

#[test]
fn all_white_space_becomes_empty() {
    assert_eq!(clean_text_for_copy(" \n\t\u{200B} \r\n".to_string()), "");
    assert_eq!(clean_text_for_copy(String::new()), "");
}

#[test]
fn every_zero_width_character_is_dropped() {
    assert_eq!(clean_text_for_copy("a\u{200B}b\u{200C}c\u{200D}d\u{FEFF}e".to_string()), "abcde");
}

#[test]
fn other_invisible_characters_stay() {
    assert_eq!(clean_text_for_copy("a\u{2060}b".to_string()), "a\u{2060}b");
}

#[test]
fn cleaning_twice_changes_nothing() {
    let inputs = ["  x\u{200B} ", "\u{FEFF} \u{200B}", "a\u{200D} ", " \u{2028}q\u{2029}"];
    for s in inputs {
        let once = clean_text_for_copy(s.to_string());
        let twice = clean_text_for_copy(once.clone());
        assert_eq!(once, twice);
    }
}

#[test]
fn tidy_text_is_kept_as_it_is() {
    assert_eq!(clean_text_for_copy("a  b\nc".to_string()), "a  b\nc");
}

#[test]
fn payload_without_image_is_text_only() {
    let p = clipboard_payload("  hi \u{200B}".to_string(), None);
    assert_eq!(p.text, "hi");
    assert!(p.html.is_none());
}

#[test]
fn payload_with_image_carries_html_of_cleaned_text() {
    let p = clipboard_payload(" <b> ".to_string(), Some(b"foo".as_slice()));
    assert_eq!(p.text, "<b>");
    assert_eq!(
        p.html.unwrap(),
        "<html><body><div style=\"white-space: pre-wrap; font-family: sans-serif; margin: 0; padding: 0;\">&lt;b&gt;</div><img src=\"data:image/jpeg;base64,Zm9v\"></body></html>"
    );
}

#[test]
fn white_space_agrees_with_char_is_whitespace() {
    for code in 0u32..=0x10FFFF {
        if let Some(c) = char::from_u32(code) {
            assert_eq!(is_white_space(c), c.is_whitespace(), "U+{:04X}", code);
        }
    }
}

#[test]
fn single_leading_space_is_dropped() {
    assert_eq!(clean_text_for_copy(" a".to_string()), "a");
}
