use vstd::prelude::*;

verus! {

/// The parts of a date or time that can be extracted.
#[derive(Clone, Copy, Debug, PartialEq, Eq)]
pub enum DatePartUnit {
    Year,
    Quarter,
    Month,
    Week,
    DayOfWeek,
    DayOfYear,
    Day,
    Hour,
    Minute,
    Second,
    Microsecond,
    Millisecond,
    Nanosecond,
    Epoch,
}

/// Where nulls are placed when sorting.
#[derive(Clone, Copy, Debug, PartialEq, Eq)]
pub enum NullsSort {
    NullsFirst,
    NullsLast,
}

/// The kinds of join.
#[derive(Clone, Copy, Debug, PartialEq, Eq)]
pub enum JoinType {
    /// Only used when the capability `relational_query.join.join_types.left` is supported.
    Left,
    /// Only used when the capability `relational_query.join.join_types.right` is supported.
    Right,
    /// Only used when the capability `relational_query.join.join_types.inner` is supported.
    Inner,
    /// Only used when the capability `relational_query.join.join_types.full` is supported.
    Full,
}

/// The types a value can be cast to.
#[derive(Clone, Copy, Debug, PartialEq, Eq)]
pub enum CastType {
    Boolean,
    /// utf-8 encoded string.
    Utf8,
    /// signed 8bit int
    Int8,
    /// signed 16bit int
    Int16,
    /// signed 32bit int
    Int32,
    /// signed 64bit int
    Int64,
    /// unsigned 8bit int
    UInt8,
    /// unsigned 16bit int
    UInt16,
    /// unsigned 32bit int
    UInt32,
    /// unsigned 64bit int
    UInt64,
    /// 32bit float
    Float32,
    /// 64bit float
    Float64,
    /// 128-bit decimal
    Decimal128 { scale: i8, prec: u8 },
    /// 256-bit decimal
    Decimal256 { scale: i8, prec: u8 },
    /// date
    Date,
    /// time
    Time,
    /// ISO 8601 timestamp
    Timestamp,
    /// duration
    Duration,
}

} // verus!
