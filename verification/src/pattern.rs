//! The canonical token pattern and the suffix of it that a leading field
//! selects.

use vstd::prelude::*;

use crate::tokens::DateTimeField;
use crate::tokens::IntervalToken;

verus! {

/// The fixed thirteen-token canonical pattern: year, month, day, hour,
/// minute, second and fractional second, with their separators. Numeric
/// positions hold `Num(0)` / `Nanos(0)`; only their kind matters.
pub open spec fn spec_canonical_pattern() -> Seq<IntervalToken> {
    seq![
        IntervalToken::Num(0),
        IntervalToken::Dash,
        IntervalToken::Num(0),
        IntervalToken::Dash,
        IntervalToken::Num(0),
        IntervalToken::Space,
        IntervalToken::Num(0),
        IntervalToken::Colon,
        IntervalToken::Num(0),
        IntervalToken::Colon,
        IntervalToken::Num(0),
        IntervalToken::Dot,
        IntervalToken::Nanos(0),
    ]
}

/// Where in the canonical pattern a literal with this leading field starts.
/// `TimezoneOffsetSecond` is never a legal leading field; the arm exists
/// only to keep the function total, and every user rejects that field first.
pub open spec fn spec_pattern_offset(f: DateTimeField) -> int {
    match f {
        DateTimeField::Year => 0,
        DateTimeField::Month => 2,
        DateTimeField::Day => 4,
        DateTimeField::Hour => 6,
        DateTimeField::Minute => 8,
        DateTimeField::Second => 10,
        DateTimeField::TimezoneOffsetSecond => 0,
    }
}

/// The suffix of the canonical pattern that a literal with leading field `f`
/// may match.
pub open spec fn spec_body_pattern(f: DateTimeField) -> Seq<IntervalToken> {
    spec_canonical_pattern().subrange(spec_pattern_offset(f), 13)
}

/// The fixed pattern a timezone suffix may match.
pub open spec fn spec_timezone_pattern() -> Seq<IntervalToken> {
    seq![
        IntervalToken::Plus,
        IntervalToken::Num(0),
        IntervalToken::Colon,
        IntervalToken::Num(0),
    ]
}

/// The tokens that a literal starting at the given leading field may
/// contain, in canonical order. For example, a literal read with leading
/// field `Month` may still carry days, hours, minutes, seconds and a
/// fraction, so its pattern is the canonical pattern from offset two on.
pub fn potential_interval_tokens(from: &DateTimeField) -> (r: Vec<IntervalToken>)
    requires
        !(*from is TimezoneOffsetSecond),
    ensures
        r@ == spec_body_pattern(*from),
{
    let mut all: Vec<IntervalToken> = Vec::new();
    all.push(IntervalToken::Num(0));
    all.push(IntervalToken::Dash);
    all.push(IntervalToken::Num(0));
    all.push(IntervalToken::Dash);
    all.push(IntervalToken::Num(0));
    all.push(IntervalToken::Space);
    all.push(IntervalToken::Num(0));
    all.push(IntervalToken::Colon);
    all.push(IntervalToken::Num(0));
    all.push(IntervalToken::Colon);
    all.push(IntervalToken::Num(0));
    all.push(IntervalToken::Dot);
    all.push(IntervalToken::Nanos(0));
    proof {
        assert(all@ =~= spec_canonical_pattern());
    }
    let offset: usize = match from {
        DateTimeField::Year => 0,
        DateTimeField::Month => 2,
        DateTimeField::Day => 4,
        DateTimeField::Hour => 6,
        DateTimeField::Minute => 8,
        DateTimeField::Second => 10,
        DateTimeField::TimezoneOffsetSecond => 0,
    };
    let mut r: Vec<IntervalToken> = Vec::new();
    let mut j: usize = offset;
    while j < 13
        invariant
            offset <= j <= 13,
            all@ == spec_canonical_pattern(),
            offset == spec_pattern_offset(*from),
            r@ == all@.subrange(offset as int, j as int),
        decreases 13 - j,
    {
        r.push(all[j]);
        proof {
            assert(all@.subrange(offset as int, j + 1) =~= all@.subrange(offset as int, j as int)
                .push(all@[j as int]));
        }
        j = j + 1;
    }
    r
}

/// The tokens that a timezone suffix may contain, in order.
pub fn potential_timezone_tokens() -> (r: Vec<IntervalToken>)
    ensures
        r@ == spec_timezone_pattern(),
{
    let mut r: Vec<IntervalToken> = Vec::new();
    r.push(IntervalToken::Plus);
    r.push(IntervalToken::Num(0));
    r.push(IntervalToken::Colon);
    r.push(IntervalToken::Num(0));
    proof {
        assert(r@ =~= spec_timezone_pattern());
    }
    r
}

} // verus!
