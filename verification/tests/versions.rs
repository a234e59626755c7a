use loose_version::Component;
use loose_version::Version;
use std::cmp::Ordering;

fn parse(input: &str) -> Version {
    Version::from_str(input).unwrap()
}

#[test]
fn test_equals() {
    let expected: Version = parse("1.2");

    assert_eq!(parse("1.2.0"), expected);
    assert_eq!(parse("1.2.0.0.0.0"), expected);
    assert_ne!(parse("1.2.0.0.0.1"), expected);
    assert_ne!(parse("1.2.0.0.0.a"), expected);
}

#[test]
fn test_ordering() {
    let versions: Vec<Version> = vec![
        parse("0.9"),
        parse("1.0.a.2"),
        parse("1.0.b1"),
        parse("1.0"),
        parse("1"),
        parse("1.0.0.0"),
        parse("1.0.1"),
    ];

    let mut versions_sorted = versions.clone();
    versions_sorted.reverse();
    versions_sorted.sort_by(|a, b| a.cmp(b));

    assert_eq!(versions, versions_sorted)
}

/// Some versions have the format "7.4.1 (4452929)", so we must be able to parse the
/// trailing parenthesized component.
#[test]
fn test_calculator_version() {
    Version::from_str("7.4.1 (4452929)").expect("invalid version");
}

/// Some versions have the format "10.0.014 (Isengard_RC01.phone_dynamic)", so we must be
/// able to parse the trailing parenthesized component.
#[test]
fn test_messaging_version() {
    Version::from_str("10.0.014 (Isengard_RC01.phone_dynamic)").expect("invalid version");
}

/// Some vendors sometimes use goofy versions, and we must be able to parse them.
#[test]
fn test_vendor_version() {
    Version::from_str("3.10.6.0004_tacIssue_RIDCrush_Issue_211101_182805")
        .expect("invalid version");
}

#[test]
fn test_version_with_timestamp() {
    Version::from_str("3.10.0+20251203173456").expect("invalid version");
}

#[test]
fn test_default_version_is_all_zeros() {
    assert_eq!(Version::default().render(), "0.0.0");
    assert_eq!(Version::default(), parse("0"));
    assert_eq!(Component::default(), Component::Number(0));
}

#[test]
fn test_version_equals_itself() {
    let v = parse("1.0.b1");
    assert_eq!(v, v.clone());
    assert_eq!(v.cmp(&v), Ordering::Equal);
}

#[test]
fn test_order_flips_with_sides() {
    let a = parse("1.0");
    let b = parse("1.0.1");
    assert!(a < b);
    assert!(b > a);
    assert!(!(b < a));
    assert_eq!(a.cmp(&b), Ordering::Less);
    assert_eq!(b.cmp(&a), Ordering::Greater);
}

#[test]
fn test_trailing_component_decides() {
    assert_eq!(parse("1.2"), parse("1.2.0"));
    assert!(parse("1.2") < parse("1.2.1"));
    assert!(parse("1.2.rc") < parse("1.2"));
}

#[test]
fn test_identifier_sorts_before_number() {
    assert!(parse("1.0.a.2") < parse("1.0.0.0"));
    assert!(parse("1.0.a") < parse("1.0.b"));
    assert!(parse("1.0.9") < parse("1.0.10"));
}

#[test]
fn test_render_canonical_form() {
    assert_eq!(parse("7.4.1 (4452929)").render(), "7.4.1");
    assert_eq!(parse("1.0.b1").render(), "1.0.b.1");
    assert_eq!(parse("3.10.0+20251203173456").render(), "3.10.0.20251203173456");
    assert_eq!(parse("1.2.0").render(), "1.2.0");
}

#[test]
fn test_parse_render_round_trip() {
    let inputs = [
        "1.2",
        "1.0.b1",
        "7.4.1 (4452929)",
        "10.0.014 (Isengard_RC01.phone_dynamic)",
        "3.10.6.0004_tacIssue_RIDCrush_Issue_211101_182805",
        "3.10.0+20251203173456",
        "18446744073709551615",
    ];
    for input in inputs {
        let v = Version::from_str(input).unwrap();
        let again = Version::from_str(v.render().as_str()).unwrap();
        assert_eq!(v, again);
    }
}

#[test]
fn test_bare_separator_fails() {
    let e = Version::from_str("-").unwrap_err();
    assert_eq!(e.remainder(), "-");
    assert_eq!(e.message(), "invalid version: -");
}

#[test]
fn test_unterminated_paren_fails() {
    let e = Version::from_str("1.0 (abc").unwrap_err();
    assert_eq!(e.remainder(), " (abc");
}

#[test]
fn test_overflow_fails() {
    Version::from_str("18446744073709551615").expect("largest value must parse");
    let e = Version::from_str("1.18446744073709551616").unwrap_err();
    assert_eq!(e.remainder(), "18446744073709551616");
}

#[test]
fn test_double_separator_fails() {
    let e = Version::from_str("1..2").unwrap_err();
    assert_eq!(e.remainder(), ".2");
}

#[test]
fn test_empty_input_is_accepted_as_zero() {
    let v = Version::from_str("").unwrap();
    assert_eq!(v, parse("0.0"));
    assert_eq!(v.render(), "");
}
