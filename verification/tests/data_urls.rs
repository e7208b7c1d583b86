use highlight_notifier::encoding::image_data_url;

#[test]
fn rfc_4648_vectors() {
    let cases: [(&[u8], &str); 7] = [
        (b"", ""),
        (b"f", "Zg=="),
        (b"fo", "Zm8="),
        (b"foo", "Zm9v"),
        (b"foob", "Zm9vYg=="),
        (b"fooba", "Zm9vYmE="),
        (b"foobar", "Zm9vYmFy"),
    ];
    for (bytes, encoded) in cases {
        assert_eq!(image_data_url(Some("x"), bytes), format!("data:x;base64,{}", encoded));
    }
}

#[test]
fn uses_the_content_type_given() {
    assert_eq!(image_data_url(Some("image/png"), &[0x89, b'P', b'N', b'G']), "data:image/png;base64,iVBORw==");
}

#[test]
fn defaults_to_jpeg() {
    assert_eq!(image_data_url(None, &[0xff, 0xd8, 0xff]), "data:image/jpeg;base64,/9j/");
}

#[test]
fn high_bytes_use_plus_and_slash() {
    assert_eq!(image_data_url(None, &[0xfb, 0xff]), "data:image/jpeg;base64,+/8=");
}
