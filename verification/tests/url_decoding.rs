use highlight_notifier::url::{resolve_image_url, urlencoding_decode};

#[test]
fn decodes_escapes_and_plus() {
    assert_eq!(urlencoding_decode("a%41+b"), "aA b");
    assert_eq!(urlencoding_decode("https%3A%2F%2Fa.com%2Fb.jpg"), "https://a.com/b.jpg");
}

#[test]
fn bytes_become_latin1_characters() {
    assert_eq!(urlencoding_decode("%e9%C3"), "\u{e9}\u{c3}");
}

#[test]
fn invalid_escapes_are_kept() {
    assert_eq!(urlencoding_decode("%zz"), "%zz");
    assert_eq!(urlencoding_decode("%-1"), "%-1");
    assert_eq!(urlencoding_decode("%%41"), "%%41");
    assert_eq!(urlencoding_decode("%+"), "%+");
}

#[test]
fn short_escapes_at_the_end() {
    assert_eq!(urlencoding_decode("100%"), "100%");
    assert_eq!(urlencoding_decode("x%4"), "x\u{4}");
}

#[test]
fn plus_sign_inside_an_escape() {
    assert_eq!(urlencoding_decode("%+f"), "\u{f}");
}

#[test]
fn plain_text_is_not_decoded() {
    assert_eq!(urlencoding_decode("abc/def?x=1&y=2"), "abc/def?x=1&y=2");
    assert_eq!(urlencoding_decode(""), "");
}

#[test]
fn agrees_with_from_str_radix() {
    let probes = ['0', '9', 'a', 'f', 'g', 'A', 'F', 'G', '+', '-', ' ', '%', 'z', '\u{e9}'];
    for a in probes {
        let one: String = [a].iter().collect();
        let expected_one = match u8::from_str_radix(&one, 16) {
            Ok(b) => (b as char).to_string(),
            Err(_) => format!("%{}", one),
        };
        assert_eq!(urlencoding_decode(&format!("%{}", one)), expected_one);
        for b in probes {
            let two: String = [a, b].iter().collect();
            let expected = match u8::from_str_radix(&two, 16) {
                Ok(v) => (v as char).to_string(),
                Err(_) => format!("%{}", two),
            };
            assert_eq!(urlencoding_decode(&format!("%{}", two)), expected);
        }
    }
}

#[test]
fn http_addresses_are_used_as_they_are() {
    assert_eq!(resolve_image_url("http://a.com/x.png".to_string()), "http://a.com/x.png");
    assert_eq!(resolve_image_url("https://a.com/x.png".to_string()), "https://a.com/x.png");
    assert_eq!(resolve_image_url("httpbin".to_string()), "httpbin");
}

#[test]
fn proxy_addresses_are_decoded() {
    assert_eq!(
        resolve_image_url("proxy.php?url=https%3A%2F%2Fimg.example.com%2Fa+b.jpg".to_string()),
        "https://img.example.com/a b.jpg"
    );
    assert_eq!(resolve_image_url("proxy.php?url=".to_string()), "");
}

#[test]
fn other_addresses_get_https() {
    assert_eq!(resolve_image_url("img.example.com/x.jpg".to_string()), "https://img.example.com/x.jpg");
    assert_eq!(resolve_image_url(String::new()), "https://");
    assert_eq!(resolve_image_url("proxy.php?u".to_string()), "https://proxy.php?u");
}

#[test]
fn percent_encoding_round_trip() {
    let texts = ["", "a", "Hello, World!", "%+&=?", "caf\u{e9} \u{ff}\u{0}\u{7f}"];
    for t in texts {
        let e: String = t.chars().map(|c| format!("%{:02X}", c as u32)).collect();
        assert_eq!(urlencoding_decode(&e), t);
    }
    let all: String = (0u32..=0xFF).map(|b| char::from_u32(b).unwrap()).collect();
    let e: String = all.chars().map(|c| format!("%{:02X}", c as u32)).collect();
    assert_eq!(urlencoding_decode(&e), all);
}
