use base64::Engine;
use wg_peer_adapter::validate_device_id;
use wg_peer_adapter::validate_identifier;
use wg_peer_adapter::validate_key;
use wg_peer_adapter::validate_name;

fn key_of(body: &str) -> String {
    assert_eq!(body.len(), 43);
    format!("{}=", body)
}

#[test]
fn identifier_grammar_accepts_well_formed() {
    assert!(validate_identifier("AB-CD-phone1"));
    assert!(validate_identifier("JANE-DOE-laptop1"));
    assert!(validate_identifier("A-B-x"));
    assert!(validate_identifier(&format!(
        "{}-{}-{}",
        "A".repeat(33),
        "A".repeat(33),
        "a".repeat(32)
    )));
}

#[test]
fn identifier_grammar_rejects_charset_violations() {
    assert!(!validate_identifier("Jane-Doe-laptop1"));
    assert!(!validate_identifier("AB-CD-pho_ne"));
    assert!(!validate_identifier("AB-CD-"));
    assert!(!validate_identifier("ab-CD-phone1"));
    assert!(!validate_identifier("AB-CD-phone1 ; rm -rf /"));
    assert!(!validate_identifier(""));
}

#[test]
fn identifier_grammar_rejects_wrong_token_count() {
    assert!(!validate_identifier("AB-CD"));
    assert!(!validate_identifier("AB-CD-EF-gh"));
    assert!(!validate_identifier("ABCD"));
    assert!(!validate_identifier("-AB-cd"));
}

#[test]
fn identifier_grammar_rejects_over_length() {
    // 60 + 1 + 38 + 1 + 2 = 102 characters: over the router's label limit.
    let long = format!("{}-{}-{}", "A".repeat(60), "A".repeat(38), "aa");
    assert_eq!(long.len(), 102);
    assert!(!validate_identifier(&long));
    // Device tokens stop at 32 characters.
    let device = format!("AB-CD-{}", "a".repeat(33));
    assert!(!validate_identifier(&device));
}

#[test]
fn key_validation_accepts_valid_base64_of_32_bytes() {
    let key = key_of(&"A".repeat(43));
    assert!(validate_key(&key).is_ok());
    // A realistic-looking key: 43 symbols whose last leaves no spare bits.
    let key = key_of("abcdefghijklmnopqrstuvwxyzABCDEFGHIJKLMNOPw");
    assert!(validate_key(&key).is_ok());
}

#[test]
fn key_validation_rejects_wrong_length_and_alphabet() {
    assert!(validate_key("short").is_err());
    assert!(validate_key("").is_err());
    let no_pad = "A".repeat(44);
    assert!(validate_key(&no_pad).is_err());
    let bad_char = key_of(&format!("{}!", "A".repeat(42)));
    assert!(validate_key(&bad_char).is_err());
    // Padding anywhere but the end breaks the shape.
    let early_pad = key_of(&format!("{}={}", "A".repeat(20), "A".repeat(22)));
    assert!(validate_key(&early_pad).is_err());
}

#[test]
fn key_validation_rejects_residual_bits() {
    // The final symbol `B` carries two set trailing bits, so the string is
    // not canonical base64 of 32 bytes.
    let key = key_of(&format!("{}B", "A".repeat(42)));
    assert!(validate_key(&key).is_err());
}

#[test]
fn key_validation_agrees_with_base64_decoding() {
    let engine = &base64::engine::general_purpose::STANDARD;
    let good = key_of(&"A".repeat(43));
    assert!(engine.decode(&good).is_ok_and(|b| b.len() == 32));
    assert!(validate_key(&good).is_ok());
    let bad = key_of(&format!("{}B", "A".repeat(42)));
    assert!(engine.decode(&bad).is_err());
    assert!(validate_key(&bad).is_err());
}

#[test]
fn name_and_device_token_grammars() {
    assert!(validate_name("JANE"));
    assert!(validate_name("A"));
    assert!(!validate_name("Jane"));
    assert!(!validate_name(""));
    assert!(!validate_name(&"A".repeat(34)));
    assert!(validate_device_id("laptop1"));
    assert!(validate_device_id(&"a".repeat(32)));
    assert!(!validate_device_id(&"a".repeat(33)));
    assert!(!validate_device_id("lap top"));
    assert!(!validate_device_id(""));
}
