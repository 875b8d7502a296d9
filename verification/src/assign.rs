//! Zipping actual tokens against the expected pattern and writing numeric
//! values into the structured result.

use vstd::prelude::*;

use crate::pattern::potential_interval_tokens;
use crate::pattern::potential_timezone_tokens;
use crate::pattern::spec_body_pattern;
use crate::pattern::spec_timezone_pattern;
use crate::tokens::next_field;
use crate::tokens::spec_next_field;
use crate::tokens::DateTimeField;
use crate::tokens::IntervalToken;

verus! {

/// The structured result of a parse: an overall sign and independently
/// optional numeric fields. `month` and `day`, when present, are at least
/// one; `nano` is only ever set once a second has been recorded.
#[derive(Debug, Clone, Copy, PartialEq, Eq, Structural)]
pub struct ParsedDateTime {
    pub is_positive: bool,
    pub year: Option<u64>,
    pub month: Option<u64>,
    pub day: Option<u64>,
    pub hour: Option<u64>,
    pub minute: Option<u64>,
    pub second: Option<u64>,
    pub nano: Option<u32>,
    pub timezone_offset_second: Option<i64>,
}

/// A structurally well-tokenized literal that violates a field or pattern
/// constraint.
#[derive(Debug, Clone, Copy, PartialEq, Eq, Structural)]
pub enum ParseError {
    /// A month value below one.
    InvalidMonth { value: u64 },
    /// A day value below one.
    InvalidDay { value: u64 },
    /// A second numeric value destined for the seconds field.
    TooManySeconds { value: u64 },
    /// A token whose kind differs from the pattern's at this pair offset.
    Mismatch { offset: usize, provided: IntervalToken, expected: IntervalToken },
    /// A leading field that no literal may start at.
    InvalidLeadingField,
    /// A timezone offset whose seconds do not fit in `i64`.
    TimezoneOutOfRange,
}

/// The result record with every field unset and the given sign.
pub open spec fn empty_pdt(is_positive: bool) -> ParsedDateTime {
    ParsedDateTime {
        is_positive,
        year: None,
        month: None,
        day: None,
        hour: None,
        minute: None,
        second: None,
        nano: None,
        timezone_offset_second: None,
    }
}

/// One state of the body pass: pair `i` of `actual` zipped against
/// `expected` (the pairing stops at the shorter sequence), with the field
/// cursor, whether a second has been recorded, and the result built so far.
/// Matching punctuation has no effect; a numeric pair writes the cursor's
/// field, subject to its rule, and advances the cursor unless it already
/// rests at `Second`; a nanosecond pair is accepted only after a second.
pub open spec fn spec_assign_body(
    actual: Seq<IntervalToken>,
    expected: Seq<IntervalToken>,
    i: int,
    field: DateTimeField,
    seconds_seen: bool,
    pdt: ParsedDateTime,
) -> Result<ParsedDateTime, ParseError>
    decreases actual.len() - i,
{
    if i < 0 || i >= actual.len() || i >= expected.len() {
        Ok(pdt)
    } else {
        let a = actual[i];
        let e = expected[i];
        match (a, e) {
            (IntervalToken::Dash, IntervalToken::Dash) => spec_assign_body(
                actual,
                expected,
                i + 1,
                field,
                seconds_seen,
                pdt,
            ),
            (IntervalToken::Space, IntervalToken::Space) => spec_assign_body(
                actual,
                expected,
                i + 1,
                field,
                seconds_seen,
                pdt,
            ),
            (IntervalToken::Colon, IntervalToken::Colon) => spec_assign_body(
                actual,
                expected,
                i + 1,
                field,
                seconds_seen,
                pdt,
            ),
            (IntervalToken::Dot, IntervalToken::Dot) => spec_assign_body(
                actual,
                expected,
                i + 1,
                field,
                seconds_seen,
                pdt,
            ),
            (IntervalToken::Num(v), IntervalToken::Num(_)) => match field {
                DateTimeField::Year => spec_assign_body(
                    actual,
                    expected,
                    i + 1,
                    spec_next_field(field),
                    seconds_seen,
                    ParsedDateTime { year: Some(v), ..pdt },
                ),
                DateTimeField::Month => if v < 1 {
                    Err(ParseError::InvalidMonth { value: v })
                } else {
                    spec_assign_body(
                        actual,
                        expected,
                        i + 1,
                        spec_next_field(field),
                        seconds_seen,
                        ParsedDateTime { month: Some(v), ..pdt },
                    )
                },
                DateTimeField::Day => if v < 1 {
                    Err(ParseError::InvalidDay { value: v })
                } else {
                    spec_assign_body(
                        actual,
                        expected,
                        i + 1,
                        spec_next_field(field),
                        seconds_seen,
                        ParsedDateTime { day: Some(v), ..pdt },
                    )
                },
                DateTimeField::Hour => spec_assign_body(
                    actual,
                    expected,
                    i + 1,
                    spec_next_field(field),
                    seconds_seen,
                    ParsedDateTime { hour: Some(v), ..pdt },
                ),
                DateTimeField::Minute => spec_assign_body(
                    actual,
                    expected,
                    i + 1,
                    spec_next_field(field),
                    seconds_seen,
                    ParsedDateTime { minute: Some(v), ..pdt },
                ),
                DateTimeField::Second => if !seconds_seen {
                    spec_assign_body(
                        actual,
                        expected,
                        i + 1,
                        field,
                        true,
                        ParsedDateTime { second: Some(v), ..pdt },
                    )
                } else {
                    Err(ParseError::TooManySeconds { value: v })
                },
                // the cursor starts at a legal leading field and is never
                // advanced past Second, so it cannot rest here
                DateTimeField::TimezoneOffsetSecond => Err(ParseError::InvalidLeadingField),
            },
            (IntervalToken::Nanos(v), IntervalToken::Nanos(_)) => if seconds_seen {
                spec_assign_body(
                    actual,
                    expected,
                    i + 1,
                    field,
                    seconds_seen,
                    ParsedDateTime { nano: Some(v), ..pdt },
                )
            } else {
                Err(ParseError::Mismatch { offset: i as usize, provided: a, expected: e })
            },
            _ => Err(ParseError::Mismatch { offset: i as usize, provided: a, expected: e }),
        }
    }
}

/// One state of the timezone pass: the first numeric value contributes
/// hours, the second minutes, and any later one is ignored; matching
/// punctuation has no effect. The accumulated seconds must stay within
/// `i64`.
pub open spec fn spec_assign_tz_body(
    actual: Seq<IntervalToken>,
    expected: Seq<IntervalToken>,
    i: int,
    hours_seen: bool,
    minutes_seen: bool,
    acc: int,
) -> Result<int, ParseError>
    decreases actual.len() - i,
{
    if i < 0 || i >= actual.len() || i >= expected.len() {
        Ok(acc)
    } else {
        let a = actual[i];
        let e = expected[i];
        match (a, e) {
            (IntervalToken::Dash, IntervalToken::Dash) => spec_assign_tz_body(
                actual,
                expected,
                i + 1,
                hours_seen,
                minutes_seen,
                acc,
            ),
            (IntervalToken::Space, IntervalToken::Space) => spec_assign_tz_body(
                actual,
                expected,
                i + 1,
                hours_seen,
                minutes_seen,
                acc,
            ),
            (IntervalToken::Colon, IntervalToken::Colon) => spec_assign_tz_body(
                actual,
                expected,
                i + 1,
                hours_seen,
                minutes_seen,
                acc,
            ),
            (IntervalToken::Dot, IntervalToken::Dot) => spec_assign_tz_body(
                actual,
                expected,
                i + 1,
                hours_seen,
                minutes_seen,
                acc,
            ),
            (IntervalToken::Plus, IntervalToken::Plus) => spec_assign_tz_body(
                actual,
                expected,
                i + 1,
                hours_seen,
                minutes_seen,
                acc,
            ),
            (IntervalToken::Num(v), IntervalToken::Num(_)) => if !hours_seen {
                if acc + v * 3600 > i64::MAX {
                    Err(ParseError::TimezoneOutOfRange)
                } else {
                    spec_assign_tz_body(actual, expected, i + 1, true, minutes_seen, acc + v * 3600)
                }
            } else if !minutes_seen {
                if acc + v * 60 > i64::MAX {
                    Err(ParseError::TimezoneOutOfRange)
                } else {
                    spec_assign_tz_body(actual, expected, i + 1, true, true, acc + v * 60)
                }
            } else {
                spec_assign_tz_body(actual, expected, i + 1, hours_seen, minutes_seen, acc)
            },
            _ => Err(ParseError::Mismatch { offset: i as usize, provided: a, expected: e }),
        }
    }
}

/// What assigning a timezone suffix yields: an optional leading `Dash`
/// negates the summed offset; `Plus` is ordinary matching punctuation.
pub open spec fn spec_assign_timezone(tz: Seq<IntervalToken>) -> Result<i64, ParseError> {
    let neg = tz.len() > 0 && tz[0] is Dash;
    let rest = if neg {
        tz.drop_first()
    } else {
        tz
    };
    match spec_assign_tz_body(rest, spec_timezone_pattern(), 0, false, false, 0) {
        Ok(acc) => Ok(
            (if neg {
                -acc
            } else {
                acc
            }) as i64,
        ),
        Err(e) => Err(e),
    }
}

/// What assigning body and timezone tokens yields: a leading `Dash` flips
/// the sign, the remaining tokens run through the body pass from the leading
/// field, and a non-empty timezone suffix overwrites the offset with its
/// own. `TimezoneOffsetSecond` is rejected as a leading field.
pub open spec fn spec_build_parsed_datetime(
    tokens: Seq<IntervalToken>,
    leading: DateTimeField,
    tz: Seq<IntervalToken>,
) -> Result<ParsedDateTime, ParseError> {
    if leading is TimezoneOffsetSecond {
        Err(ParseError::InvalidLeadingField)
    } else {
        let neg = tokens.len() > 0 && tokens[0] is Dash;
        let rest = if neg {
            tokens.drop_first()
        } else {
            tokens
        };
        match spec_assign_body(rest, spec_body_pattern(leading), 0, leading, false, empty_pdt(!neg)) {
            Err(e) => Err(e),
            Ok(pdt) => if tz.len() == 0 {
                Ok(pdt)
            } else {
                match spec_assign_timezone(tz) {
                    Err(e) => Err(e),
                    Ok(off) => Ok(ParsedDateTime { timezone_offset_second: Some(off), ..pdt }),
                }
            },
        }
    }
}

/// Sums a timezone suffix's hours and minutes into one signed offset in
/// seconds; exact for every token sequence, per the timezone assignment
/// relation.
pub fn assign_timezone(timezone_tokens: &[IntervalToken]) -> (r: Result<i64, ParseError>)
    ensures
        r == spec_assign_timezone(timezone_tokens@),
{
    let expected = potential_timezone_tokens();
    let tlen = timezone_tokens.len();
    let mut start: usize = 0;
    let mut neg = false;
    if tlen > 0 && matches!(timezone_tokens[0], IntervalToken::Dash) {
        start = 1;
        neg = true;
    }
    let ghost rest = if neg {
        timezone_tokens@.drop_first()
    } else {
        timezone_tokens@
    };
    proof {
        assert(rest =~= timezone_tokens@.subrange(start as int, tlen as int));
    }
    let mut hours_seen = false;
    let mut minutes_seen = false;
    let mut acc: i64 = 0;
    let mut i: usize = 0;
    while start + i < tlen && i < expected.len()
        invariant
            tlen == timezone_tokens@.len(),
            neg == (tlen > 0 && timezone_tokens@[0] is Dash),
            start == (if neg {
                1int
            } else {
                0int
            }),
            start <= tlen || i == 0,
            expected@ == spec_timezone_pattern(),
            rest == (if neg {
                timezone_tokens@.drop_first()
            } else {
                timezone_tokens@
            }),
            rest == timezone_tokens@.subrange(start as int, tlen as int),
            i <= rest.len(),
            0 <= acc <= i64::MAX,
            !hours_seen ==> acc == 0,
            spec_assign_tz_body(rest, spec_timezone_pattern(), 0, false, false, 0)
                == spec_assign_tz_body(
                rest,
                spec_timezone_pattern(),
                i as int,
                hours_seen,
                minutes_seen,
                acc as int,
            ),
        decreases tlen - i,
    {
        let a = timezone_tokens[start + i];
        let e = expected[i];
        proof {
            assert(rest[i as int] == timezone_tokens@[start + i as int]);
        }
        match (a, e) {
            (IntervalToken::Dash, IntervalToken::Dash)
            | (IntervalToken::Space, IntervalToken::Space)
            | (IntervalToken::Colon, IntervalToken::Colon)
            | (IntervalToken::Dot, IntervalToken::Dot)
            | (IntervalToken::Plus, IntervalToken::Plus) => {},
            (IntervalToken::Num(v), IntervalToken::Num(_)) => {
                if !hours_seen {
                    if v > 0x7fff_ffff_ffff_ffffu64 / 3600 {
                        proof {
                            let q = 0x7fff_ffff_ffff_ffffu64 / 3600;
                            assert(i64::MAX == 3600 * (i64::MAX / 3600) + i64::MAX % 3600);
                            assert(v * 3600 >= (q + 1) * 3600) by (nonlinear_arith)
                                requires
                                    v >= q + 1,
                            ;
                        }
                        return Err(ParseError::TimezoneOutOfRange);
                    }
                    proof {
                        let q = 0x7fff_ffff_ffff_ffffu64 / 3600;
                        assert(i64::MAX == 3600 * (i64::MAX / 3600) + i64::MAX % 3600);
                        assert(v * 3600 <= q * 3600) by (nonlinear_arith)
                            requires
                                v <= q,
                        ;
                    }
                    acc = (v * 3600) as i64;
                    hours_seen = true;
                } else if !minutes_seen {
                    if v > 0x7fff_ffff_ffff_ffffu64 / 60 {
                        proof {
                            let q = 0x7fff_ffff_ffff_ffffu64 / 60;
                            assert(i64::MAX == 60 * (i64::MAX / 60) + i64::MAX % 60);
                            assert(v * 60 >= (q + 1) * 60) by (nonlinear_arith)
                                requires
                                    v >= q + 1,
                            ;
                        }
                        return Err(ParseError::TimezoneOutOfRange);
                    }
                    proof {
                        let q = 0x7fff_ffff_ffff_ffffu64 / 60;
                        assert(i64::MAX == 60 * (i64::MAX / 60) + i64::MAX % 60);
                        assert(v * 60 <= q * 60) by (nonlinear_arith)
                            requires
                                v <= q,
                        ;
                    }
                    let add = (v * 60) as i64;
                    if acc > i64::MAX - add {
                        return Err(ParseError::TimezoneOutOfRange);
                    }
                    acc = acc + add;
                    minutes_seen = true;
                }
            },
            _ => {
                return Err(
                    ParseError::Mismatch { offset: i, provided: a, expected: e },
                );
            },
        }
        i = i + 1;
    }
    let total = if neg {
        -acc
    } else {
        acc
    };
    Ok(total)
}

/// Builds the structured result for a literal's tokens: an optional leading
/// `Dash` flips the sign, the remaining tokens are zipped against the
/// expected pattern for the leading field, and a non-empty timezone suffix
/// supplies the offset. Exact for every input, per the assignment relation.
pub fn build_parsed_datetime(
    tokens: &[IntervalToken],
    leading_field: &DateTimeField,
    timezone_tokens: &[IntervalToken],
) -> (r: Result<ParsedDateTime, ParseError>)
    ensures
        r == spec_build_parsed_datetime(tokens@, *leading_field, timezone_tokens@),
{
    if matches!(leading_field, DateTimeField::TimezoneOffsetSecond) {
        return Err(ParseError::InvalidLeadingField);
    }
    let tlen = tokens.len();
    let mut start: usize = 0;
    let mut is_positive = true;
    if tlen > 0 && matches!(tokens[0], IntervalToken::Dash) {
        start = 1;
        is_positive = false;
    }
    let ghost rest = if is_positive {
        tokens@
    } else {
        tokens@.drop_first()
    };
    proof {
        assert(rest =~= tokens@.subrange(start as int, tlen as int));
    }
    let expected = potential_interval_tokens(leading_field);
    let mut pdt = ParsedDateTime {
        is_positive,
        year: None,
        month: None,
        day: None,
        hour: None,
        minute: None,
        second: None,
        nano: None,
        timezone_offset_second: None,
    };
    let mut field = *leading_field;
    let mut seconds_seen = false;
    let mut i: usize = 0;
    while start + i < tlen && i < expected.len()
        invariant
            tlen == tokens@.len(),
            !(*leading_field is TimezoneOffsetSecond),
            is_positive == !(tlen > 0 && tokens@[0] is Dash),
            start == (if is_positive {
                0int
            } else {
                1int
            }),
            start <= tlen || i == 0,
            expected@ == spec_body_pattern(*leading_field),
            rest == (if is_positive {
                tokens@
            } else {
                tokens@.drop_first()
            }),
            rest == tokens@.subrange(start as int, tlen as int),
            i <= rest.len(),
            !(field is TimezoneOffsetSecond),
            spec_assign_body(
                rest,
                spec_body_pattern(*leading_field),
                0,
                *leading_field,
                false,
                empty_pdt(is_positive),
            ) == spec_assign_body(
                rest,
                spec_body_pattern(*leading_field),
                i as int,
                field,
                seconds_seen,
                pdt,
            ),
        decreases tlen - i,
    {
        let a = tokens[start + i];
        let e = expected[i];
        proof {
            assert(rest[i as int] == tokens@[start + i as int]);
        }
        match (a, e) {
            (IntervalToken::Dash, IntervalToken::Dash)
            | (IntervalToken::Space, IntervalToken::Space)
            | (IntervalToken::Colon, IntervalToken::Colon)
            | (IntervalToken::Dot, IntervalToken::Dot) => {},
            (IntervalToken::Num(v), IntervalToken::Num(_)) => {
                match field {
                    DateTimeField::Year => {
                        pdt.year = Some(v);
                        field = next_field(field);
                    },
                    DateTimeField::Month => {
                        if v < 1 {
                            return Err(ParseError::InvalidMonth { value: v });
                        }
                        pdt.month = Some(v);
                        field = next_field(field);
                    },
                    DateTimeField::Day => {
                        if v < 1 {
                            return Err(ParseError::InvalidDay { value: v });
                        }
                        pdt.day = Some(v);
                        field = next_field(field);
                    },
                    DateTimeField::Hour => {
                        pdt.hour = Some(v);
                        field = next_field(field);
                    },
                    DateTimeField::Minute => {
                        pdt.minute = Some(v);
                        field = next_field(field);
                    },
                    DateTimeField::Second => {
                        if seconds_seen {
                            return Err(ParseError::TooManySeconds { value: v });
                        }
                        pdt.second = Some(v);
                        seconds_seen = true;
                    },
                    DateTimeField::TimezoneOffsetSecond => {
                        // excluded by the loop invariant on the cursor
                        return Err(ParseError::InvalidLeadingField);
                    },
                }
            },
            (IntervalToken::Nanos(v), IntervalToken::Nanos(_)) => {
                if !seconds_seen {
                    return Err(
                        ParseError::Mismatch { offset: i, provided: a, expected: e },
                    );
                }
                pdt.nano = Some(v);
            },
            _ => {
                return Err(
                    ParseError::Mismatch { offset: i, provided: a, expected: e },
                );
            },
        }
        i = i + 1;
    }
    if timezone_tokens.len() > 0 {
        match assign_timezone(timezone_tokens) {
            Ok(off) => {
                pdt.timezone_offset_second = Some(off);
            },
            Err(e) => {
                return Err(e);
            },
        }
    }
    Ok(pdt)
}

} // verus!
