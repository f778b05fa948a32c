use task_helper::{Version, VersionError};

fn parse_ok(s: &str) -> Version {
    match Version::parse(s) {
        Ok(v) => v,
        Err(e) => panic!("{:?} refused: {:?}", s, e),
    }
}

#[test]
fn full_version_with_description() {
    let v = parse_ok("1.2.3-beta");
    assert_eq!(v.major, 1);
    assert_eq!(v.minor, 2);
    assert_eq!(v.patch, 3);
    assert_eq!(v.description.as_deref(), Some("beta"));
}

#[test]
fn major_only_defaults_rest() {
    let v = parse_ok("2");
    assert_eq!(v.major, 2);
    assert_eq!(v.minor, 0);
    assert_eq!(v.patch, 0);
    assert!(v.description.is_none());
}

#[test]
fn major_and_minor() {
    let v = parse_ok("3.14");
    assert_eq!((v.major, v.minor, v.patch), (3, 14, 0));
    assert!(v.description.is_none());
}

#[test]
fn four_components_rejected() {
    assert!(matches!(Version::parse("1.2.3.4"), Err(VersionError::TooManyComponents)));
}

#[test]
fn two_word_description_rejected() {
    assert!(matches!(Version::parse("1.0.0-two words"), Err(VersionError::InvalidDescription)));
}

#[test]
fn empty_description_rejected() {
    assert!(matches!(Version::parse("1.0.0-"), Err(VersionError::InvalidDescription)));
}

#[test]
fn description_with_unicode_space_rejected() {
    assert!(matches!(Version::parse("1.0.0-a\u{3000}b"), Err(VersionError::InvalidDescription)));
    assert!(matches!(Version::parse("1.0.0-\tb"), Err(VersionError::InvalidDescription)));
}

#[test]
fn description_checked_before_component_count() {
    assert!(matches!(Version::parse("1.2.3.4-two words"), Err(VersionError::InvalidDescription)));
}

#[test]
fn description_keeps_later_hyphens() {
    let v = parse_ok("0.9.1-rc-2");
    assert_eq!((v.major, v.minor, v.patch), (0, 9, 1));
    assert_eq!(v.description.as_deref(), Some("rc-2"));
}

#[test]
fn description_may_be_non_ascii() {
    let v = parse_ok("1-été");
    assert_eq!((v.major, v.minor, v.patch), (1, 0, 0));
    assert_eq!(v.description.as_deref(), Some("été"));
}

#[test]
fn empty_string_rejected() {
    assert!(matches!(Version::parse(""), Err(VersionError::InvalidNumber)));
}

#[test]
fn empty_component_rejected() {
    assert!(matches!(Version::parse("1..2"), Err(VersionError::InvalidNumber)));
    assert!(matches!(Version::parse("1.2."), Err(VersionError::InvalidNumber)));
    assert!(matches!(Version::parse("-beta"), Err(VersionError::InvalidNumber)));
}

#[test]
fn non_digit_component_rejected() {
    assert!(matches!(Version::parse("1.x.3"), Err(VersionError::InvalidNumber)));
    assert!(matches!(Version::parse("1.2.3a"), Err(VersionError::InvalidNumber)));
    assert!(matches!(Version::parse(" 1"), Err(VersionError::InvalidNumber)));
}

#[test]
fn plus_sign_accepted_alone_refused() {
    let v = parse_ok("+1.+2.3");
    assert_eq!((v.major, v.minor, v.patch), (1, 2, 3));
    assert!(matches!(Version::parse("+.1"), Err(VersionError::InvalidNumber)));
    assert!(matches!(Version::parse("++1"), Err(VersionError::InvalidNumber)));
}

#[test]
fn largest_component_accepted() {
    let v = parse_ok("4294967295.0.4294967295");
    assert_eq!((v.major, v.minor, v.patch), (4294967295, 0, 4294967295));
}

#[test]
fn overflowing_component_rejected() {
    assert!(matches!(Version::parse("4294967296"), Err(VersionError::InvalidNumber)));
    assert!(matches!(Version::parse("1.99999999999"), Err(VersionError::InvalidNumber)));
}

#[test]
fn leading_zeros_accepted() {
    let v = parse_ok("007.010.0000000000001");
    assert_eq!((v.major, v.minor, v.patch), (7, 10, 1));
}
