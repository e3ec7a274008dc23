use winbindiff::version::BinaryVersion;
use std::cmp::Ordering;

fn v(major: u32, minor: u32, patch: u32, build: u32) -> BinaryVersion {
    BinaryVersion { unknown: false, major, minor, patch, build }
}

#[test]
fn parse_four_numbers() {
    assert_eq!(BinaryVersion::parse("10.0.19041.1"), Some(v(10, 0, 19041, 1)));
    assert_eq!(BinaryVersion::parse("0.0.0.0"), Some(v(0, 0, 0, 0)));
    assert_eq!(
        BinaryVersion::parse("4294967295.4294967295.4294967295.4294967295"),
        Some(v(u32::MAX, u32::MAX, u32::MAX, u32::MAX))
    );
}

#[test]
fn parse_accepts_plus_and_leading_zeros() {
    assert_eq!(BinaryVersion::parse("+1.02.3.004"), Some(v(1, 2, 3, 4)));
}

#[test]
fn parse_rejects_malformed() {
    for s in [
        "", "1", "1.2.3", "1.2.3.4.5", "1..2.3", "a.b.c.d", "1.2.3.x", "1.2.3.", ".1.2.3",
        "-1.2.3.4", "1.2.3.4294967296", "1.2. 3.4", "+.1.2.3", "1.2.3.4\n",
    ] {
        assert_eq!(BinaryVersion::parse(s), None, "{:?}", s);
    }
}

#[test]
fn format_then_parse_round_trips() {
    for x in [v(1, 0, 0, 1), v(10, 0, 22621, 2506), v(0, 0, 0, 0), v(u32::MAX, 7, 0, 123456)] {
        let text = x.format();
        assert_eq!(BinaryVersion::parse(&text), Some(x));
    }
    assert_eq!(v(10, 0, 22621, 2506).format(), "10.0.22621.2506");
    assert_eq!(BinaryVersion::unknown().format(), "unknown");
}

#[test]
fn order_is_lexicographic() {
    assert_eq!(v(1, 2, 3, 4).compare(&v(1, 2, 3, 5)), Ordering::Less);
    assert_eq!(v(1, 2, 4, 0).compare(&v(1, 2, 3, 9)), Ordering::Greater);
    assert_eq!(v(2, 0, 0, 0).compare(&v(1, 9, 9, 9)), Ordering::Greater);
    assert_eq!(v(1, 3, 0, 0).compare(&v(1, 2, 9, 9)), Ordering::Greater);
    assert_eq!(v(1, 2, 3, 4).compare(&v(1, 2, 3, 4)), Ordering::Equal);
    assert!(v(1, 0, 0, 1).is_before(&v(1, 0, 0, 2)));
    assert!(!v(1, 0, 0, 2).is_before(&v(1, 0, 0, 2)));
    assert!(v(1, 0, 0, 1) < v(1, 0, 0, 2));
}

#[test]
fn unknown_sorts_after_every_known_version() {
    let unknown = BinaryVersion::unknown();
    assert!(unknown.unknown);
    assert_eq!(v(u32::MAX, u32::MAX, u32::MAX, u32::MAX).compare(&unknown), Ordering::Less);
    assert_eq!(unknown.compare(&v(0, 0, 0, 0)), Ordering::Greater);
    assert_eq!(unknown.compare(&BinaryVersion::unknown()), Ordering::Equal);
    assert!(v(u32::MAX, u32::MAX, u32::MAX, u32::MAX) < unknown);
}

#[test]
fn unknown_versions_compare_by_their_numbers() {
    let u1 = BinaryVersion { unknown: true, major: 1, minor: 0, patch: 0, build: 0 };
    let u2 = BinaryVersion { unknown: true, major: 2, minor: 0, patch: 0, build: 0 };
    assert_eq!(u1.compare(&u2), Ordering::Less);
    assert_eq!(u2.compare(&u1), Ordering::Greater);
    assert_eq!(u1.compare(&u1), Ordering::Equal);
    assert_eq!(u1.compare(&u2), u1.cmp(&u2));
    assert_eq!(v(9, 9, 9, 9).compare(&u1), v(9, 9, 9, 9).cmp(&u1));
    assert!(u1 != u2);
}

#[test]
fn compare_agrees_with_equality_and_ord() {
    let all = [
        v(1, 0, 0, 1), v(1, 0, 0, 2), v(1, 0, 1, 0), v(2, 0, 0, 0), v(0, 9, 9, 9),
        BinaryVersion::unknown(),
        BinaryVersion { unknown: true, major: 0, minor: 0, patch: 0, build: 7 },
    ];
    for a in &all {
        for b in &all {
            assert_eq!(a.compare(b), a.cmp(b));
            assert_eq!(a.compare(b) == Ordering::Equal, a == b);
            assert_eq!(a.compare(b), b.compare(a).reverse());
        }
    }
}
