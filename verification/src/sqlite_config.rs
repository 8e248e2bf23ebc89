//! Location of an in-process relational database.

use vstd::prelude::*;

verus! {

/// The location of an in-process database.
pub enum InProcDatabaseLocation {
    /// An in-memory database.
    InMemory,
    /// The path of the database file.
    Path(String),
}

} // verus!
