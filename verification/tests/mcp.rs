use magenta_dj::mcp::{bearer_admits, generate_token, hex_token, persisted_token, Sa3Kind};

#[test]
fn token_is_64_hex_chars_and_unique() {
    let token = generate_token();
    assert_eq!(token.len(), 64); // 32 bytes, two hex chars each
    assert!(token.chars().all(|c| c.is_ascii_hexdigit()));
    // Random: two draws differ.
    assert_ne!(token, generate_token());
}

#[test]
fn hex_tokens_are_lowercase_high_nibble_first() {
    assert_eq!(hex_token(&[0x00, 0x0f, 0xa5, 0xff]), "000fa5ff");
    assert_eq!(hex_token(&[]), "");
}

#[test]
fn the_engines_have_their_wire_names() {
    assert_eq!(Sa3Kind::Sfx.as_str(), "sfx");
    assert_eq!(Sa3Kind::Music.as_str(), "music");
}

#[test]
fn a_persisted_token_is_read_back_trimmed() {
    assert_eq!(persisted_token("  abc123\n"), Some("abc123".to_string()));
    assert_eq!(persisted_token(" \n\t"), None);
    assert_eq!(persisted_token(""), None);
}

#[test]
fn only_the_exact_bearer_header_is_admitted() {
    assert!(bearer_admits(Some("Bearer abc"), "abc"));
    assert!(!bearer_admits(Some("Bearer abcd"), "abc"));
    assert!(!bearer_admits(Some("bearer abc"), "abc"));
    assert!(!bearer_admits(Some("abc"), "abc"));
    assert!(!bearer_admits(None, "abc"));
}
