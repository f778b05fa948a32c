use task_helper::{InfoPlist, PackageType, VersionError, PACKAGE_PREFIX};

#[test]
fn plugin_code() {
    assert_eq!(PackageType::Plugin.to_code(), "BNDL");
}

#[test]
fn application_code() {
    assert_eq!(PackageType::Application.to_code(), "APPL");
}

#[test]
fn display_name_defaults_to_name() {
    let p = InfoPlist::new(PackageType::Plugin, "my-synth".to_string(), None, "1.2.3-beta").unwrap();
    assert_eq!(p.display_name, "my-synth");
    assert_eq!(p.package, "my-synth");
}

#[test]
fn display_name_given_is_kept() {
    let p = InfoPlist::new(
        PackageType::Application,
        "my-synth".to_string(),
        Some("My Synth".to_string()),
        "2",
    )
    .unwrap();
    assert_eq!(p.display_name, "My Synth");
    assert_eq!(p.package, "my-synth");
    assert_eq!(p.package_type, "APPL");
}

#[test]
fn record_holds_all_fields() {
    let p = InfoPlist::new(PackageType::Plugin, "pad".to_string(), None, "1.2.3-beta").unwrap();
    assert_eq!(p.package_type, "BNDL");
    assert_eq!(p.package_prefix, "io.jengamon");
    assert_eq!(p.package_prefix, PACKAGE_PREFIX);
    assert_eq!((p.version_major, p.version_minor, p.version_patch), (1, 2, 3));
    assert_eq!(p.version_desc.as_deref(), Some("beta"));
}

#[test]
fn record_version_defaults() {
    let p = InfoPlist::new(PackageType::Plugin, "pad".to_string(), None, "2").unwrap();
    assert_eq!((p.version_major, p.version_minor, p.version_patch), (2, 0, 0));
    assert!(p.version_desc.is_none());
}

#[test]
fn record_refuses_bad_versions() {
    assert!(matches!(
        InfoPlist::new(PackageType::Plugin, "pad".to_string(), None, "1.2.3.4"),
        Err(VersionError::TooManyComponents)
    ));
    assert!(matches!(
        InfoPlist::new(PackageType::Plugin, "pad".to_string(), None, "1.0.0-two words"),
        Err(VersionError::InvalidDescription)
    ));
    assert!(matches!(
        InfoPlist::new(PackageType::Plugin, "pad".to_string(), None, "v1"),
        Err(VersionError::InvalidNumber)
    ));
}
