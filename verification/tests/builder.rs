use pillid::{Error, Pillid, PillidBuilder};

#[test]
fn test_default() {
    let pillid = PillidBuilder::default();
    assert_eq!(pillid.prefix(), None);
    assert_eq!(pillid.timestamp(), &[0x00; 8]);
    assert_eq!(pillid.random(), &[0x00; 16]);
}

#[test]
fn test_with_prefix() {
    let pillid = PillidBuilder::default().with_prefix("test").unwrap();
    assert_eq!(pillid.prefix(), Some("test"));
    assert_eq!(pillid.timestamp(), &[0x00; 8]);
    assert_eq!(pillid.random(), &[0x00; 16]);
}

#[test]
fn test_with_prefix_too_long() {
    // 32 long
    PillidBuilder::default()
        .with_prefix("12345678901234567890123456789012")
        .unwrap();

    // 33 long
    assert!(PillidBuilder::default()
        .with_prefix("123456789012345678901234567890123")
        .is_err());
}

#[test]
fn test_with_timestamp() {
    let pillid = PillidBuilder::default().with_timestamp([0xFF; 8]);
    assert_eq!(pillid.prefix(), None);
    assert_eq!(pillid.timestamp(), &[0xFF; 8]);
    assert_eq!(pillid.random(), &[0x00; 16]);
}

#[test]
fn test_with_random() {
    let pillid = PillidBuilder::default().with_random([0xFF; 16]);
    assert_eq!(pillid.prefix(), None);
    assert_eq!(pillid.timestamp(), &[0x00; 8]);
    assert_eq!(pillid.random(), &[0xFF; 16]);
}

#[test]
fn test_display() {
    let pillid = PillidBuilder::default()
        .with_prefix("prefixed")
        .unwrap()
        .with_timestamp([0xFF; 8])
        .with_random([0xFF; 16])
        .build();

    assert_eq!(pillid.to_text(), "prefixed_16AHYF7n42DGM5Tflk9n8mt7Fhc7");
}

#[test]
fn test_set_prefix_rejected_leaves_builder_unchanged() {
    let mut builder = PillidBuilder::default().with_prefix("keep").unwrap();
    let r = builder.set_prefix("123456789012345678901234567890123");
    assert!(matches!(r, Err(Error::PrefixTooLong)));
    assert_eq!(builder.prefix(), Some("keep"));
}

#[test]
fn test_empty_prefix_renders_separator_only() {
    let pillid = PillidBuilder::default().with_prefix("").unwrap();
    assert_eq!(pillid.prefix(), Some(""));
    let text = pillid.build().to_text();
    assert_eq!(text, "_0000000000000000000000000000");
}

#[test]
fn test_default_builder_renders_all_zero_symbols() {
    let text = PillidBuilder::default().build().to_text();
    assert_eq!(text, "0000000000000000000000000000");
    assert!(!text.starts_with('_'));
}

#[test]
fn test_render_is_deterministic() {
    let make = || {
        PillidBuilder::default()
            .with_prefix("fixed")
            .unwrap()
            .with_timestamp([1, 2, 3, 4, 5, 6, 7, 8])
            .with_random([9; 16])
    };
    let first = make().render_text();
    let second = make().render_text();
    assert_eq!(first, second);
    assert_eq!(first, make().build().to_text());
}

#[test]
fn test_builder_is_default() {
    let a = Pillid::builder();
    let b = PillidBuilder::default();
    assert_eq!(a.prefix(), b.prefix());
    assert_eq!(a.timestamp(), b.timestamp());
    assert_eq!(a.random(), b.random());
}

#[test]
fn test_timestamp_ordering_within_prefix() {
    let earlier = PillidBuilder::default()
        .with_prefix("order")
        .unwrap()
        .with_timestamp([0, 0, 0, 0, 0, 0, 0, 1])
        .with_random([0xFF; 16])
        .build();
    let later = PillidBuilder::default()
        .with_prefix("order")
        .unwrap()
        .with_timestamp([0, 0, 0, 0, 0, 0, 0, 2])
        .with_random([0x00; 16])
        .build();
    assert!(earlier.lt(&later));
    assert!(!later.lt(&earlier));
    assert!(earlier < later);
}
