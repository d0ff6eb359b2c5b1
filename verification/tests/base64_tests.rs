use http_probe::base64::base64_encode;

#[test]
fn test_base64_encode() {
    assert_eq!("VGVzdGluZzEwMA==", base64_encode("Testing100"));
    assert_eq!("VGVzdGluZzEw", base64_encode("Testing10"));
    assert_eq!("VGVzdGluZzE=", base64_encode("Testing1"));
    assert_eq!("VGVzdGluZw==", base64_encode("Testing"));
    assert_eq!("VGVzdGlu", base64_encode("Testin"));
    assert_eq!("", base64_encode(""));
    assert_eq!(
        "VGhpcyBpcyBhIHZlcnkgbG9uZyBsaW5lLg==",
        base64_encode("This is a very long line.")
    );
}

#[test]
fn test_base64_encode_non_ascii() {
    // The UTF-8 bytes of the text are encoded, not its characters.
    assert_eq!("R8O8bnRlcg==", base64_encode("Günter"));
}

#[test]
fn test_base64_encode_single_byte() {
    assert_eq!("QQ==", base64_encode("A"));
}
