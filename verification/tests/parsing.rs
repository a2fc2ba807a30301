use core::str::FromStr;

use pillid::{Error, Pillid, PillidBuilder};

#[test]
fn test_parse_round_trip() {
    let pillid = PillidBuilder::default()
        .with_prefix("cycle")
        .unwrap()
        .with_timestamp([0xAB; 8])
        .with_random([0xCD; 16])
        .build();
    let text = pillid.to_text();
    let back = Pillid::parse(&text).unwrap();
    assert_eq!(back, pillid);
    assert_eq!(back.to_text(), text);
}

#[test]
fn test_parse_accepts_up_to_fifty_nine_bytes() {
    let text = "a".repeat(59);
    let parsed = Pillid::parse(&text).unwrap();
    assert_eq!(parsed.to_text(), text);
}

#[test]
fn test_parse_rejects_sixty_bytes() {
    let text = "a".repeat(60);
    assert!(matches!(Pillid::parse(&text), Err(Error::TextTooLong)));
}

#[test]
fn test_from_str_matches_parse() {
    let direct = Pillid::parse("abc_123").unwrap();
    let through_trait = Pillid::from_str("abc_123").unwrap();
    assert_eq!(direct, through_trait);
}

#[test]
fn test_default_pillid_has_empty_text() {
    let pillid = Pillid::default();
    assert_eq!(pillid.to_text(), "");
}

#[test]
fn test_new_uses_prefix_and_widths() {
    let pillid = Pillid::new("session");
    let text = pillid.to_text();
    assert!(text.starts_with("session_"));
    assert_eq!(text.len(), "session".len() + 1 + 6 + 22);
}

#[test]
fn test_full_length_text_does_not_round_trip() {
    // A 31-byte prefix renders a 60-byte text, which fills the buffer up to
    // its zero guard; parsing rejects texts of that length, so this is the
    // one shape of identifier whose text does not parse back.
    let prefix = "p".repeat(31);
    let pillid = PillidBuilder::default().with_prefix(&prefix).unwrap().build();
    let text = pillid.to_text();
    assert_eq!(text.len(), 60);
    assert!(matches!(Pillid::parse(&text), Err(Error::TextTooLong)));
}
