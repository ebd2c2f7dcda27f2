use hibiscus::base64::base64;

#[test]
fn copied_text_is_encoded_with_padding() {
    assert_eq!(base64(b""), "");
    assert_eq!(base64(b"h"), "aA==");
    assert_eq!(base64(b"hi"), "aGk=");
    assert_eq!(base64(b"https"), "aHR0cHM=");
    assert_eq!(base64(b"\xff\xef\xbe"), "/+++");
}
