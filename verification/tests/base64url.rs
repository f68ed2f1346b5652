use doh_tester::base64url::base64url_encode;

#[test]
fn base64url_rfc4648_vectors_without_padding() {
    assert_eq!(base64url_encode(b""), "");
    assert_eq!(base64url_encode(b"f"), "Zg");
    assert_eq!(base64url_encode(b"fo"), "Zm8");
    assert_eq!(base64url_encode(b"foo"), "Zm9v");
    assert_eq!(base64url_encode(b"foob"), "Zm9vYg");
    assert_eq!(base64url_encode(b"fooba"), "Zm9vYmE");
    assert_eq!(base64url_encode(b"foobar"), "Zm9vYmFy");
}

#[test]
fn base64url_uses_url_safe_alphabet() {
    assert_eq!(base64url_encode(&[0xfb, 0xff]), "-_8");
    assert_eq!(base64url_encode(&[0xff, 0xff, 0xff]), "____");
    assert_eq!(base64url_encode(&[0x00, 0x00, 0x00]), "AAAA");
}

#[test]
fn base64url_length_is_ceil_of_eight_sixths() {
    for n in 0..40usize {
        let data: Vec<u8> = (0..n).map(|i| (i * 37 % 256) as u8).collect();
        let e = base64url_encode(&data);
        assert_eq!(e.len(), (8 * n + 5) / 6);
        assert!(e.chars().all(|c| c.is_ascii_alphanumeric() || c == '-' || c == '_'));
    }
}

#[test]
fn base64url_encodes_by_groups_of_three() {
    let whole = base64url_encode(b"foobarx");
    let parts = format!("{}{}", base64url_encode(b"foo"), base64url_encode(b"barx"));
    assert_eq!(whole, parts);
}
