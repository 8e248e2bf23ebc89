//! Database values of the embedded relational interface, and how
//! much host memory buffering one costs.
//!
//! Real numbers are carried as their IEEE bit patterns, so the value
//! round-trips without floating-point arithmetic in this crate.

use vstd::prelude::*;

verus! {

/// The UTF-8 byte length of a text value.
pub open spec fn string_byte_len(s: String) -> int {
    vstd::utf8::encode_utf8(s@).len() as int
}

/// The accounting cost of a value besides its variable-length
/// payload.
pub const SQLITE_VALUE_BASE_SIZE: usize = 32;

/// One database value.
pub enum Value {
    /// The SQL null.
    Null,
    /// A signed integer.
    Integer(i64),
    /// A real number, as its IEEE bit pattern.
    Real(u64),
    /// A text value.
    Text(String),
    /// A binary value.
    Blob(Vec<u8>),
}

impl Value {
    /// The buffering cost of this value: the base cost plus the byte
    /// length of a text or binary payload.
    pub open spec fn spec_memory_size(self) -> int {
        match self {
            Value::Null => SQLITE_VALUE_BASE_SIZE as int,
            Value::Integer(_) => SQLITE_VALUE_BASE_SIZE as int,
            Value::Real(_) => SQLITE_VALUE_BASE_SIZE as int,
            Value::Text(t) => SQLITE_VALUE_BASE_SIZE + string_byte_len(t),
            Value::Blob(b) => SQLITE_VALUE_BASE_SIZE + b@.len(),
        }
    }

    /// How much host memory buffering this value costs, counted
    /// against the host buffering ceiling.
    pub fn memory_size(&self) -> (r: usize)
        requires
            self.spec_memory_size() <= usize::MAX,
        ensures
            r == self.spec_memory_size(),
    {
        match self {
            Value::Null => SQLITE_VALUE_BASE_SIZE,
            Value::Integer(_) => SQLITE_VALUE_BASE_SIZE,
            Value::Real(_) => SQLITE_VALUE_BASE_SIZE,
            Value::Text(t) => SQLITE_VALUE_BASE_SIZE + t.as_str().len(),
            Value::Blob(b) => SQLITE_VALUE_BASE_SIZE + b.len(),
        }
    }
}

} // verus!
