use semrel::BumpRule;
use semrel::SimpleVersion;

#[test]
fn test_version_from_str() {
    let cases = [
        ("1.0.0", "1.0.0"),
        ("1.0", "1.0.0"),
        ("1", "1.0.0"),
        ("0.1.0", "0.1.0"),
        ("1.2.3", "1.2.3"),
        ("10.20.30", "10.20.30"),
    ];
    for (input, expected) in cases {
        let version = SimpleVersion::parse(input).unwrap();
        assert_eq!(version.to_text(), expected);
    }
}

#[test]
fn test_version_from_str_invalid() {
    for input in ["1.2.3.4", "a.b.c", "1.2.c", ""] {
        assert!(SimpleVersion::parse(input).is_err(), "expected {input:?} to fail");
    }
}

#[test]
fn test_version_display() {
    let version = SimpleVersion::new(1, 2, 3);
    assert_eq!(version.major(), 1);
    assert_eq!(version.minor(), 2);
    assert_eq!(version.patch(), 3);
    assert_eq!(version.to_text(), "1.2.3");
}

#[test]
fn test_bump_identities() {
    let v = SimpleVersion::new(4, 7, 9);
    assert_eq!(v.bump(BumpRule::NoBump), v);
    assert_eq!(v.bump(BumpRule::Notset), v);
}

#[test]
fn test_bump_major_zeroes_lower_components() {
    let v = SimpleVersion::new(4, 7, 9);
    let bumped = v.bump(BumpRule::Major);
    assert_eq!(bumped, SimpleVersion::new(5, 0, 0));
    assert_eq!(bumped.minor(), 0);
    assert_eq!(bumped.patch(), 0);
}

#[test]
fn test_bump_minor_and_patch() {
    let v = SimpleVersion::new(4, 7, 9);
    assert_eq!(v.bump(BumpRule::Minor), SimpleVersion::new(4, 8, 0));
    assert_eq!(v.bump(BumpRule::Patch), SimpleVersion::new(4, 7, 10));
}

#[test]
fn test_version_order() {
    let a = SimpleVersion::new(1, 0, 0);
    let b = SimpleVersion::new(1, 0, 1);
    let c = SimpleVersion::new(2, 0, 0);
    assert!(a.lt(&b));
    assert!(b.lt(&c));
    assert!(c.ge(&a));
    assert!(a.ge(&a));
}

#[test]
fn test_matches_str() {
    let v = SimpleVersion::new(1, 2, 3);
    assert!(v.matches_str("1.2.3"));
    assert!(!v.matches_str("1.2.4"));
    assert!(!v.matches_str("not a version"));
}

#[test]
fn test_increments() {
    let mut v = SimpleVersion::new(1, 2, 3);
    v.increment_patch();
    assert_eq!(v, SimpleVersion::new(1, 2, 4));
    v.increment_minor();
    assert_eq!(v, SimpleVersion::new(1, 3, 0));
    v.increment_major();
    assert_eq!(v, SimpleVersion::new(2, 0, 0));
}

#[test]
fn test_bump_rule_names() {
    assert_eq!(BumpRule::Major.as_str(), "major");
    assert_eq!(BumpRule::Minor.as_str(), "minor");
    assert_eq!(BumpRule::Patch.as_str(), "patch");
    assert_eq!(BumpRule::NoBump.as_str(), "none");
    assert_eq!(BumpRule::Notset.as_str(), "notset");
}

#[test]
fn test_bump_rule_parse_aliases() {
    assert_eq!(BumpRule::parse("major").unwrap(), BumpRule::Major);
    assert_eq!(BumpRule::parse("M").unwrap(), BumpRule::Major);
    assert_eq!(BumpRule::parse("m").unwrap(), BumpRule::Minor);
    assert_eq!(BumpRule::parse("+++").unwrap(), BumpRule::Major);
    assert_eq!(BumpRule::parse("++").unwrap(), BumpRule::Minor);
    assert_eq!(BumpRule::parse("patch").unwrap(), BumpRule::Patch);
    assert_eq!(BumpRule::parse("+").unwrap(), BumpRule::Patch);
    assert_eq!(BumpRule::parse("none").unwrap(), BumpRule::NoBump);
    assert_eq!(BumpRule::parse("-").unwrap(), BumpRule::NoBump);
    assert_eq!(BumpRule::parse("MAJOR").unwrap(), BumpRule::Major);
    assert!(BumpRule::parse("sideways").is_err());
    assert_eq!(BumpRule::from_name("sideways"), BumpRule::Notset);
}

#[test]
fn test_bump_strength_order() {
    assert!(BumpRule::Notset.rank() < BumpRule::NoBump.rank());
    assert!(BumpRule::NoBump.rank() < BumpRule::Patch.rank());
    assert!(BumpRule::Patch.rank() < BumpRule::Minor.rank());
    assert!(BumpRule::Minor.rank() < BumpRule::Major.rank());
    assert_eq!(BumpRule::Patch.max_with(BumpRule::Minor), BumpRule::Minor);
    assert_eq!(BumpRule::Major.max_with(BumpRule::Notset), BumpRule::Major);
}
