use highlight_notifier::html::{clipboard_html, escape_html};

#[test]
fn escapes_the_five_characters() {
    assert_eq!(
        escape_html("<a href=\"x\">Tom & Jerry's</a>"),
        "&lt;a href=&quot;x&quot;&gt;Tom &amp; Jerry&#39;s&lt;/a&gt;"
    );
}

#[test]
fn ampersand_is_escaped_once() {
    assert_eq!(escape_html("&lt;"), "&amp;lt;");
}

#[test]
fn plain_text_is_not_escaped() {
    assert_eq!(escape_html("hello, world 你好"), "hello, world 你好");
    assert_eq!(escape_html(""), "");
}

#[test]
fn escaping_joins() {
    let a = "x<y";
    let b = "'&z";
    assert_eq!(escape_html(&format!("{}{}", a, b)), format!("{}{}", escape_html(a), escape_html(b)));
}

#[test]
fn escaped_text_has_no_markup() {
    let e = escape_html("<<>>\"\"''&");
    assert!(!e.contains('<') && !e.contains('>') && !e.contains('"') && !e.contains('\''));
}

#[test]
fn clipboard_html_document() {
    assert_eq!(
        clipboard_html("a&b", b"fo"),
        "<html><body><div style=\"white-space: pre-wrap; font-family: sans-serif; margin: 0; padding: 0;\">a&amp;b</div><img src=\"data:image/jpeg;base64,Zm8=\"></body></html>"
    );
}
