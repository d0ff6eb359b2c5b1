use http_probe::urlencode::decode;
use http_probe::urlencode::encode;

#[test]
fn test_encode() {
    assert_eq!(encode("abcd"), "abcd");
    assert_eq!(encode("http://localhost:8080"), "http%3A%2F%2Flocalhost%3A8080");
    assert_eq!(encode("Hello Günter"), "Hello%20G%C3%BCnter");
    assert_eq!(
        encode("æøåÆØÅ,.-;:_!\"#¤%"),
        "%C3%A6%C3%B8%C3%A5%C3%86%C3%98%C3%85%2C.-%3B%3A_%21%22%23%C2%A4%25"
    );
}

#[test]
fn test_decode() {
    assert_eq!(decode("abcd").unwrap(), "abcd");
    assert_eq!(decode("http%3A%2F%2Flocalhost%3A8080").unwrap(), "http://localhost:8080");
    assert_eq!(decode("Hello%20G%C3%BCnter").unwrap(), "Hello Günter");
    assert_eq!(
        decode("%C3%A6%C3%B8%C3%A5%C3%86%C3%98%C3%85%2C.-%3B%3A_%21%22%23%C2%A4%25").unwrap(),
        "æøåÆØÅ,.-;:_!\"#¤%"
    );
}

#[test]
fn test_percent_round_trip_values() {
    let samples = [
        "",
        "plain",
        "with space",
        "Günter",
        "四文字圏",
        "emoji \u{1F600} end",
        "mixed: a/b?c=d&e=f",
    ];
    for s in samples {
        assert_eq!(decode(&encode(s)).unwrap(), s);
    }
}

#[test]
fn test_decode_lowercase_hex() {
    assert_eq!(decode("%2f").unwrap(), "/");
    assert_eq!(decode("%41").unwrap(), "A");
}

#[test]
fn test_decode_rejects_bad_escape() {
    assert!(decode("%").is_err());
    assert!(decode("%4").is_err());
    assert!(decode("%zz").is_err());
    assert!(decode("abc%4").is_err());
}

#[test]
fn test_decode_rejects_invalid_utf8() {
    // An incomplete multi-byte sequence.
    assert!(decode("%C3").is_err());
    // A continuation byte in place of a second escape.
    assert!(decode("%C3x").is_err());
    // An invalid continuation byte.
    assert!(decode("%C3%C3").is_err());
    // An overlong encoding.
    assert!(decode("%C0%AF").is_err());
    // A surrogate code point.
    assert!(decode("%ED%A0%80").is_err());
    // A bare continuation byte.
    assert!(decode("%80").is_err());
}
