//! Building blocks for the `Info.plist` descriptor of an audio-plugin bundle:
//! the package type code, the version string parser and the descriptor record
//! that a template is filled from.
mod descriptor;
mod package;
mod version;

pub use descriptor::{InfoPlist, PACKAGE_PREFIX};
pub use package::PackageType;
pub use version::{Version, VersionError, VersionModel};
