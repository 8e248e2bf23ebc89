//! Lock-file data items of a fully resolved application.

use vstd::prelude::*;

verus! {

/// A fully resolved component source: its content type and content
/// reference.
pub struct LockedComponentSource {
    /// The source content type.
    pub content_type: String,
    /// Where the content is.
    pub content: ContentRef,
}

/// Content mapped to a guest filesystem path.
pub struct ContentPath {
    /// Where the content is.
    pub content: ContentRef,
    /// The guest mount path.
    pub path: String,
}

/// A reference to content used by the application.  At least one of
/// `source` and `digest` should be set; `inline` short-circuits small
/// content.
pub struct ContentRef {
    /// A URI where the content can be accessed.
    pub source: Option<String>,
    /// The content itself, for small content.
    pub inline: Option<Vec<u8>>,
    /// The digest the content must have, if pinned.
    pub digest: Option<String>,
}

/// A custom configuration variable of a locked application.
pub struct Variable {
    /// The default value; if unset, the variable is required.
    pub default: Option<String>,
    /// Whether the value is sensitive and must not be logged.
    pub secret: bool,
}

/// The lock schema version an application serializes under: the
/// backward-compatible older version exactly when it carries nothing
/// the host must understand and no host requirements, and the newer
/// version otherwise.  `host_requirements_len` is how many host
/// requirements the application carries.
pub fn lock_schema_version(must_understand: &Vec<String>, host_requirements_len: usize) -> (v:
    u64)
    ensures
        must_understand@.len() == 0 && host_requirements_len == 0 ==> v == 0,
        must_understand@.len() > 0 || host_requirements_len > 0 ==> v == 1,
{
    if must_understand.len() == 0 && host_requirements_len == 0 {
        0
    } else {
        1
    }
}

} // verus!
