use vstd::prelude::*;

verus! {

/// The kind of bundle a descriptor is written for.
#[derive(Clone, Copy, Debug, PartialEq, Eq, Structural)]
pub enum PackageType {
    /// A plugin bundle loaded by a host.
    Plugin,
    /// A standalone application bundle.
    Application,
}

impl PackageType {
    /// The four-letter bundle package type code of this kind.
    pub open spec fn code(self) -> Seq<char> {
        match self {
            PackageType::Plugin => "BNDL"@,
            PackageType::Application => "APPL"@,
        }
    }

    /// Returns the bundle package type code: `BNDL` for a plugin, `APPL` for
    /// an application.
    pub fn to_code(&self) -> (r: &'static str)
        ensures
            r@ == self.code(),
    {
        match self {
            PackageType::Plugin => "BNDL",
            PackageType::Application => "APPL",
        }
    }
}

} // verus!
