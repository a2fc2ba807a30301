use pillid::typed::{DomainPrefix, TypedPillid};
use pillid::Pillid;

struct Foo;

impl DomainPrefix for Foo {
    fn prefix() -> String {
        "foo".to_string()
    }
}

type FooPillid = TypedPillid<Foo>;

struct Bar;

impl DomainPrefix for Bar {
    fn prefix() -> String {
        String::from("bar").as_str().to_string()
    }
}

type BarPillid = TypedPillid<Bar>;

#[test]
fn test_custom_pillid() {
    let pillid = FooPillid::new();
    assert!(pillid.to_text().starts_with("foo_"));
}

#[test]
fn test_non_literal_custom_pillid() {
    let pillid = BarPillid::new();
    assert!(pillid.to_text().starts_with("bar_"));
}

#[test]
fn test_typed_conversions_are_explicit() {
    let foo = FooPillid::new();
    let raw: Pillid = foo.into_pillid();
    let again = FooPillid::from_pillid(raw);
    assert_eq!(again.to_text(), foo.to_text());

    let through_from: Pillid = Pillid::from(foo);
    assert_eq!(through_from.to_text(), foo.to_text());
    let wrapped: BarPillid = TypedPillid::from(through_from);
    // The bytes travel unchanged; only the type changed, explicitly.
    assert!(wrapped.to_text().starts_with("foo_"));
}

#[test]
fn test_typed_parse_round_trip() {
    let id = FooPillid::new();
    let text = id.to_text();
    let back = FooPillid::parse(&text).unwrap();
    assert_eq!(back.to_text(), text);
    assert!(FooPillid::parse(&"x".repeat(60)).is_err());
}

struct Wide;

impl DomainPrefix for Wide {
    fn prefix() -> String {
        "w".repeat(40)
    }
}

#[test]
fn test_unusable_prefix_builds_bare_identifier() {
    let id = TypedPillid::<Wide>::new();
    let text = id.to_text();
    assert_eq!(text.len(), 28);
    assert!(!text.contains('_'));
}
