//! Database values of the older outbound relational interface, and
//! how much host memory buffering one costs.
//!
//! Floating-point numbers are carried as their IEEE bit patterns, so
//! the value round-trips without floating-point arithmetic in this
//! crate.

use vstd::prelude::*;

use crate::sqlite_values::string_byte_len;

verus! {

/// The accounting cost of a value besides its variable-length
/// payload.
pub const RDBMS_VALUE_BASE_SIZE: usize = 32;

/// One database value of the older interface.
pub enum DbValue {
    /// The SQL null.
    DbNull,
    /// A value of a type this interface does not carry.
    Unsupported,
    /// A boolean.
    Boolean(bool),
    /// An 8-bit signed integer.
    Int8(i8),
    /// A 16-bit signed integer.
    Int16(i16),
    /// A 32-bit signed integer.
    Int32(i32),
    /// A 64-bit signed integer.
    Int64(i64),
    /// An 8-bit unsigned integer.
    Uint8(u8),
    /// A 16-bit unsigned integer.
    Uint16(u16),
    /// A 32-bit unsigned integer.
    Uint32(u32),
    /// A 64-bit unsigned integer.
    Uint64(u64),
    /// A 32-bit floating-point number, as its IEEE bit pattern.
    Floating32(u32),
    /// A 64-bit floating-point number, as its IEEE bit pattern.
    Floating64(u64),
    /// A text value.
    Str(String),
    /// A binary value.
    Binary(Vec<u8>),
}

impl DbValue {
    /// The buffering cost of this value: the base cost plus the byte
    /// length of a text or binary payload.
    pub open spec fn spec_memory_size(self) -> int {
        match self {
            DbValue::Str(s) => RDBMS_VALUE_BASE_SIZE + string_byte_len(s),
            DbValue::Binary(b) => RDBMS_VALUE_BASE_SIZE + b@.len(),
            _ => RDBMS_VALUE_BASE_SIZE as int,
        }
    }

    /// How much host memory buffering this value costs, counted
    /// against the host buffering ceiling.
    pub fn memory_size(&self) -> (r: usize)
        requires
            self.spec_memory_size() <= usize::MAX,
        ensures
            r == self.spec_memory_size(),
    {
        match self {
            DbValue::Str(s) => RDBMS_VALUE_BASE_SIZE + s.as_str().len(),
            DbValue::Binary(b) => RDBMS_VALUE_BASE_SIZE + b.len(),
            _ => RDBMS_VALUE_BASE_SIZE,
        }
    }
}

} // verus!
