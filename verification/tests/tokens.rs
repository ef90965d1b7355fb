use volts::token::SecureToken;

#[test]
fn parse_digest_is_sha256_of_the_secret() {
    let t = SecureToken::parse("abc");
    assert_eq!(t.plaintext(), "abc");
    let expected: [u8; 32] = [
        0xba, 0x78, 0x16, 0xbf, 0x8f, 0x01, 0xcf, 0xea, 0x41, 0x41, 0x40, 0xde, 0x5d, 0xae, 0x22,
        0x23, 0xb0, 0x03, 0x61, 0xa3, 0x96, 0x17, 0x7a, 0x9c, 0xb4, 0x10, 0xff, 0x61, 0xf2, 0x00,
        0x15, 0xad,
    ];
    assert_eq!(t.token(), &expected[..]);
}

#[test]
fn new_token_is_32_alphanumerics() {
    let t = SecureToken::new_token();
    assert_eq!(t.plaintext().len(), 32);
    assert!(t.plaintext().chars().all(|c| c.is_ascii_alphanumeric()));
    assert_eq!(SecureToken::parse(t.plaintext()).token(), t.token());
}

#[test]
fn the_digest_of_the_empty_secret() {
    let t = SecureToken::parse("");
    assert_eq!(t.token().len(), 32);
    let hex: String = t.token().iter().map(|b| format!("{b:02x}")).collect();
    assert_eq!(hex, "e3b0c44298fc1c149afbf4c8996fb92427ae41e4649b934ca495991b7852b855");
}
