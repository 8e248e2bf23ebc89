//! Common manifest schema items.

use vstd::prelude::*;

verus! {

/// A variable definition in the application manifest.
pub struct Variable {
    /// Whether a value must be supplied.
    pub required: bool,
    /// The default value; if unset, the variable is required.
    pub default: Option<String>,
    /// Whether the value is sensitive and must not be logged.
    pub secret: bool,
}

/// Where a component's code comes from.
pub enum ComponentSource {
    /// A local file path.
    Local(String),
    /// A remote artifact.
    Remote {
        /// Where the artifact can be fetched.
        url: String,
        /// The digest the fetched artifact must have.
        digest: String,
    },
}

/// One filesystem mount granted to a component.
pub enum WasiFilesMount {
    /// A glob pattern of files to mount.
    Pattern(String),
    /// An explicit source-to-destination placement.
    Placement {
        /// The host directory to mount.
        source: String,
        /// The guest path it appears at.
        destination: String,
    },
}

/// A component's build configuration.
pub struct ComponentBuildConfig {
    /// The build command.
    pub command: String,
    /// The working directory of the build, if not the default.
    pub workdir: Option<String>,
    /// Patterns of files whose changes trigger a rebuild.
    pub watch: Vec<String>,
}

/// Whether a flag is false; used when serializing to omit unset
/// flags.
pub fn is_false(v: &bool) -> (r: bool)
    ensures
        r == !*v,
{
    !*v
}

} // verus!
