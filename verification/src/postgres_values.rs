//! Database values of the current outbound relational interface, and
//! how much host memory buffering one costs.
//!
//! Values that the host cannot compute on are carried as plain
//! integers: floating-point numbers as their IEEE bit patterns, dates
//! and times as epoch-based counts.

use vstd::prelude::*;

use crate::sqlite_values::string_byte_len;

verus! {

/// The accounting cost of a value besides its variable-length
/// payload.
pub const PG_VALUE_BASE_SIZE: usize = 56;

/// The accounting cost of one optional 32-bit array element.
pub const PG_OPTION_I32_SIZE: usize = 8;

/// The accounting cost of one optional 64-bit array element.
pub const PG_OPTION_I64_SIZE: usize = 16;

/// The accounting cost of one optional text array element besides
/// its bytes.
pub const PG_OPTION_STRING_SIZE: usize = 24;

/// One database value of the current interface.
pub enum DbValue {
    /// The SQL null.
    DbNull,
    /// A boolean.
    Boolean(bool),
    /// An 8-bit signed integer.
    Int8(i8),
    /// A 16-bit signed integer.
    Int16(i16),
    /// A 32-bit signed integer.
    Int32(i32),
    /// A 64-bit signed integer.
    Int64(i64),
    /// A 32-bit floating-point number, as its IEEE bit pattern.
    Floating32(u32),
    /// A 64-bit floating-point number, as its IEEE bit pattern.
    Floating64(u64),
    /// A date, as a day count from the epoch.
    Date(i64),
    /// A time of day, as nanoseconds from midnight.
    Time(i64),
    /// A date and time, as nanoseconds from the epoch.
    Datetime(i64),
    /// A timestamp, as seconds from the epoch.
    Timestamp(i64),
    /// A range of 32-bit integers, with optional bounds.
    RangeInt32((Option<i32>, Option<i32>)),
    /// A range of 64-bit integers, with optional bounds.
    RangeInt64((Option<i64>, Option<i64>)),
    /// A range of decimals, with optional bounds in decimal text.
    RangeDecimal((Option<String>, Option<String>)),
    /// An interval, as a microsecond count.
    Interval(i64),
    /// An array of optional 32-bit integers.
    ArrayInt32(Vec<Option<i32>>),
    /// An array of optional 64-bit integers.
    ArrayInt64(Vec<Option<i64>>),
    /// An array of optional decimals in decimal text.
    ArrayDecimal(Vec<Option<String>>),
    /// An array of optional texts.
    ArrayStr(Vec<Option<String>>),
    /// A text value.
    Str(String),
    /// A UUID in text form.
    Uuid(String),
    /// A decimal in text form.
    Decimal(String),
    /// A JSON document in binary form.
    Jsonb(Vec<u8>),
    /// A binary value.
    Binary(Vec<u8>),
    /// A value of a type this interface does not carry, as raw bytes.
    Unsupported(Vec<u8>),
}

/// The accounting cost of a sequence of optional texts.
pub open spec fn opt_strings_size(s: Seq<Option<String>>) -> int
    decreases s.len(),
{
    if s.len() == 0 {
        0
    } else {
        opt_strings_size(s.drop_last()) + PG_OPTION_STRING_SIZE + (match s.last() {
            Some(t) => string_byte_len(t),
            None => 0,
        })
    }
}

/// The cost of a sequence of optional texts is nonnegative.
proof fn lemma_opt_strings_size_nonneg(s: Seq<Option<String>>)
    ensures
        opt_strings_size(s) >= 0,
    decreases s.len(),
{
    if s.len() > 0 {
        lemma_opt_strings_size_nonneg(s.drop_last());
    }
}

/// A prefix of a sequence of optional texts costs no more than the
/// whole.
proof fn lemma_opt_strings_size_prefix(s: Seq<Option<String>>, i: int)
    requires
        0 <= i <= s.len(),
    ensures
        opt_strings_size(s.take(i)) <= opt_strings_size(s),
    decreases s.len(),
{
    if i < s.len() {
        assert(s.drop_last().take(i) =~= s.take(i));
        lemma_opt_strings_size_prefix(s.drop_last(), i);
    } else {
        assert(s.take(i) =~= s);
    }
}

/// Sums the accounting cost of a slice of optional texts.
fn opt_strings_size_exec(v: &Vec<Option<String>>) -> (r: usize)
    requires
        opt_strings_size(v@) <= usize::MAX,
    ensures
        r == opt_strings_size(v@),
{
    let n = v.len();
    let mut acc: usize = 0;
    let mut i: usize = 0;
    while i < n
        invariant
            n == v@.len(),
            i <= n,
            opt_strings_size(v@) <= usize::MAX,
            acc == opt_strings_size(v@.take(i as int)),
        decreases n - i,
    {
        proof {
            assert(v@.take(i + 1).drop_last() =~= v@.take(i as int));
            assert(v@.take(i + 1).last() == v@[i as int]);
            lemma_opt_strings_size_prefix(v@, i + 1);
            lemma_opt_strings_size_nonneg(v@.take(i + 1));
        }
        let extra: usize = match &v[i] {
            Some(t) => PG_OPTION_STRING_SIZE + t.as_str().len(),
            None => PG_OPTION_STRING_SIZE,
        };
        acc = acc + extra;
        i += 1;
    }
    proof {
        assert(v@.take(n as int) =~= v@);
    }
    acc
}

impl DbValue {
    /// The buffering cost of this value: the base cost plus the cost
    /// of its variable-length payload.
    pub open spec fn spec_memory_size(self) -> int {
        match self {
            DbValue::ArrayInt32(v) => PG_VALUE_BASE_SIZE + v@.len() * PG_OPTION_I32_SIZE,
            DbValue::ArrayInt64(v) => PG_VALUE_BASE_SIZE + v@.len() * PG_OPTION_I64_SIZE,
            DbValue::ArrayDecimal(v) => PG_VALUE_BASE_SIZE + opt_strings_size(v@),
            DbValue::ArrayStr(v) => PG_VALUE_BASE_SIZE + opt_strings_size(v@),
            DbValue::Str(s) => PG_VALUE_BASE_SIZE + string_byte_len(s),
            DbValue::Uuid(s) => PG_VALUE_BASE_SIZE + string_byte_len(s),
            DbValue::Decimal(s) => PG_VALUE_BASE_SIZE + string_byte_len(s),
            DbValue::Jsonb(b) => PG_VALUE_BASE_SIZE + b@.len(),
            DbValue::Binary(b) => PG_VALUE_BASE_SIZE + b@.len(),
            DbValue::Unsupported(b) => PG_VALUE_BASE_SIZE + b@.len(),
            _ => PG_VALUE_BASE_SIZE as int,
        }
    }

    /// How much host memory buffering this value costs, counted
    /// against the host buffering ceiling.
    pub fn memory_size(&self) -> (r: usize)
        requires
            self.spec_memory_size() <= usize::MAX,
        ensures
            r == self.spec_memory_size(),
    {
        match self {
            DbValue::ArrayInt32(v) => PG_VALUE_BASE_SIZE + v.len() * PG_OPTION_I32_SIZE,
            DbValue::ArrayInt64(v) => PG_VALUE_BASE_SIZE + v.len() * PG_OPTION_I64_SIZE,
            DbValue::ArrayDecimal(v) => {
                proof {
                    lemma_opt_strings_size_nonneg(v@);
                }
                PG_VALUE_BASE_SIZE + opt_strings_size_exec(v)
            },
            DbValue::ArrayStr(v) => {
                proof {
                    lemma_opt_strings_size_nonneg(v@);
                }
                PG_VALUE_BASE_SIZE + opt_strings_size_exec(v)
            },
            DbValue::Str(s) => PG_VALUE_BASE_SIZE + s.as_str().len(),
            DbValue::Uuid(s) => PG_VALUE_BASE_SIZE + s.as_str().len(),
            DbValue::Decimal(s) => PG_VALUE_BASE_SIZE + s.as_str().len(),
            DbValue::Jsonb(b) => PG_VALUE_BASE_SIZE + b.len(),
            DbValue::Binary(b) => PG_VALUE_BASE_SIZE + b.len(),
            DbValue::Unsupported(b) => PG_VALUE_BASE_SIZE + b.len(),
            _ => PG_VALUE_BASE_SIZE,
        }
    }
}

} // verus!
