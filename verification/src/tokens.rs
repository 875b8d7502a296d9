//! The alphabet of lexical units and the ordered date/time fields.

use vstd::prelude::*;

verus! {

/// A lexical unit of an interval literal: a separator, an integer field
/// value, or a fractional-second value already scaled to nanoseconds.
#[derive(Debug, Clone, Copy, PartialEq, Eq, Structural)]
pub enum IntervalToken {
    Dash,
    Space,
    Colon,
    Dot,
    Plus,
    Num(u64),
    Nanos(u32),
}

/// A date/time unit, ordered from most to least significant.
/// `TimezoneOffsetSecond` is only an output location; it is never a valid
/// leading field.
#[derive(Debug, Clone, Copy, PartialEq, Eq, Structural)]
pub enum DateTimeField {
    Year,
    Month,
    Day,
    Hour,
    Minute,
    Second,
    TimezoneOffsetSecond,
}

/// The next field in significance order. `Second` is terminal: the field
/// cursor is never advanced past it, so `Second` maps to itself, and so does
/// `TimezoneOffsetSecond`, which the cursor never reaches.
pub open spec fn spec_next_field(f: DateTimeField) -> DateTimeField {
    match f {
        DateTimeField::Year => DateTimeField::Month,
        DateTimeField::Month => DateTimeField::Day,
        DateTimeField::Day => DateTimeField::Hour,
        DateTimeField::Hour => DateTimeField::Minute,
        DateTimeField::Minute => DateTimeField::Second,
        DateTimeField::Second => DateTimeField::Second,
        DateTimeField::TimezoneOffsetSecond => DateTimeField::TimezoneOffsetSecond,
    }
}

/// Advances the field cursor by one unit of significance.
pub fn next_field(f: DateTimeField) -> (r: DateTimeField)
    ensures
        r == spec_next_field(f),
{
    match f {
        DateTimeField::Year => DateTimeField::Month,
        DateTimeField::Month => DateTimeField::Day,
        DateTimeField::Day => DateTimeField::Hour,
        DateTimeField::Hour => DateTimeField::Minute,
        DateTimeField::Minute => DateTimeField::Second,
        DateTimeField::Second => DateTimeField::Second,
        DateTimeField::TimezoneOffsetSecond => DateTimeField::TimezoneOffsetSecond,
    }
}

} // verus!
