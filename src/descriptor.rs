use vstd::prelude::*;

use crate::package::PackageType;
use crate::version::{version_of, Version, VersionError};

verus! {

/// The reverse-domain prefix of every bundle identifier.
pub const PACKAGE_PREFIX: &'static str = "io.jengamon";

/// The fields that the `Info.plist` template of a bundle is filled from.
#[derive(Debug)]
pub struct InfoPlist {
    /// Name shown to users.
    pub display_name: String,
    /// Package name, also the last part of the bundle identifier.
    pub package: String,
    /// Bundle package type code, `BNDL` or `APPL`.
    pub package_type: &'static str,
    /// Reverse-domain prefix of the bundle identifier.
    pub package_prefix: &'static str,
    pub version_major: u32,
    pub version_minor: u32,
    pub version_patch: u32,
    /// One-word description that follows the version numbers, if any.
    pub version_desc: Option<String>,
}

/// The display name of a package: the one given, else the package name.
pub open spec fn display_name_of(name: Seq<char>, display_name: Option<Seq<char>>) -> Seq<char> {
    match display_name {
        Some(d) => d,
        None => name,
    }
}

/// The view of an optional string.
pub open spec fn opt_view(s: Option<String>) -> Option<Seq<char>> {
    match s {
        Some(t) => Some(t@),
        None => None,
    }
}

impl InfoPlist {
    /// Gathers the descriptor fields of a package: the display name defaults
    /// to `name`, and `version` is parsed as by [`Version::parse`], whose
    /// error is returned when it is refused.
    pub fn new(
        package_type: PackageType,
        name: String,
        display_name: Option<String>,
        version: &str,
    ) -> (r: Result<InfoPlist, VersionError>)
        ensures
            match version_of(version@) {
                Ok(m) => r matches Ok(p) && {
                    &&& p.display_name@ == display_name_of(name@, opt_view(display_name))
                    &&& p.package@ == name@
                    &&& p.package_type@ == package_type.code()
                    &&& p.package_prefix@ == PACKAGE_PREFIX@
                    &&& p.version_major == m.major
                    &&& p.version_minor == m.minor
                    &&& p.version_patch == m.patch
                    &&& opt_view(p.version_desc) == m.description
                },
                Err(e) => r == Err::<InfoPlist, VersionError>(e),
            },
    {
        let v = match Version::parse(version) {
            Ok(v) => v,
            Err(e) => return Err(e),
        };
        let display_name = match display_name {
            Some(d) => d,
            None => name.clone(),
        };
        Ok(InfoPlist {
            display_name,
            package: name,
            package_type: package_type.to_code(),
            package_prefix: PACKAGE_PREFIX,
            version_major: v.major,
            version_minor: v.minor,
            version_patch: v.patch,
            version_desc: v.description,
        })
    }
}

} // verus!
