use proxier::base64::base64_encode;

#[test]
fn base64_of_credentials() {
    assert_eq!(base64_encode("testuser:testpass"), "dGVzdHVzZXI6dGVzdHBhc3M=");
}

#[test]
fn base64_padding() {
    assert_eq!(base64_encode(""), "");
    assert_eq!(base64_encode("f"), "Zg==");
    assert_eq!(base64_encode("fo"), "Zm8=");
    assert_eq!(base64_encode("foo"), "Zm9v");
    assert_eq!(base64_encode("foob"), "Zm9vYg==");
    assert_eq!(base64_encode("fooba"), "Zm9vYmE=");
    assert_eq!(base64_encode("foobar"), "Zm9vYmFy");
}

#[test]
fn base64_whole_alphabet() {
    assert_eq!(base64_encode("\u{3ff}\u{3fe}>?>"), "z7/Pvj4/Pg==");
    assert_eq!(base64_encode("~~~"), "fn5+");
}
