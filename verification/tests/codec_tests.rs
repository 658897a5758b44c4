use setlist_jwt::b64::base64url;
use setlist_jwt::json::push_decimal;
use setlist_jwt::json::push_escaped;

fn b64(input: &[u8]) -> String {
    String::from_utf8(base64url(&input.to_vec())).unwrap()
}

#[test]
fn base64url_known_vectors() {
    assert_eq!(b64(b""), "");
    assert_eq!(b64(b"f"), "Zg");
    assert_eq!(b64(b"fo"), "Zm8");
    assert_eq!(b64(b"foo"), "Zm9v");
    assert_eq!(b64(b"foob"), "Zm9vYg");
    assert_eq!(b64(b"fooba"), "Zm9vYmE");
    assert_eq!(b64(b"foobar"), "Zm9vYmFy");
}

#[test]
fn base64url_uses_url_safe_alphabet() {
    // 0xfb 0xff encodes to bytes 62 and 63 of the alphabet.
    assert_eq!(b64(&[0xfb, 0xef, 0xff]), "--__");
}

#[test]
fn escape_passes_plain_text_through() {
    let mut out: Vec<u8> = Vec::new();
    push_escaped(&mut out, &b"plain text".to_vec());
    assert_eq!(out, b"plain text".to_vec());
}

#[test]
fn escape_quotes_and_backslashes() {
    let mut out: Vec<u8> = Vec::new();
    push_escaped(&mut out, &b"a\"b\\c".to_vec());
    assert_eq!(out, b"a\\\"b\\\\c".to_vec());
}

#[test]
fn escape_control_bytes_as_unicode() {
    let mut out: Vec<u8> = Vec::new();
    push_escaped(&mut out, &b"a\nb\x1fc".to_vec());
    assert_eq!(out, b"a\\u000ab\\u001fc".to_vec());
}

#[test]
fn escape_keeps_multibyte_sequences() {
    let mut out: Vec<u8> = Vec::new();
    let s = "caf\u{e9}".as_bytes().to_vec();
    push_escaped(&mut out, &s);
    assert_eq!(out, s);
}

#[test]
fn decimal_rendering() {
    let cases: Vec<(i64, &str)> = vec![
        (0, "0"),
        (7, "7"),
        (42, "42"),
        (1000, "1000"),
        (-7, "-7"),
        (1716283625000, "1716283625000"),
        (i64::MAX, "9223372036854775807"),
        (i64::MIN + 1, "-9223372036854775807"),
    ];
    for (n, expect) in cases {
        let mut out: Vec<u8> = Vec::new();
        push_decimal(&mut out, n);
        assert_eq!(String::from_utf8(out).unwrap(), expect);
    }
}
