use interval_parse::assign::assign_timezone;
use interval_parse::assign::build_parsed_datetime;
use interval_parse::assign::ParseError;
use interval_parse::assign::ParsedDateTime;
use interval_parse::pattern::potential_interval_tokens;
use interval_parse::pattern::potential_timezone_tokens;
use interval_parse::tokenizer::tokenize_interval;
use interval_parse::tokenizer::tokenize_timezone;
use interval_parse::tokenizer::TokenizeError;
use interval_parse::tokens::DateTimeField;
use interval_parse::tokens::DateTimeField::Day;
use interval_parse::tokens::DateTimeField::Year;
use interval_parse::tokens::IntervalToken;
use interval_parse::tokens::IntervalToken::Colon;
use interval_parse::tokens::IntervalToken::Dash;
use interval_parse::tokens::IntervalToken::Dot;
use interval_parse::tokens::IntervalToken::Nanos;
use interval_parse::tokens::IntervalToken::Num;
use interval_parse::tokens::IntervalToken::Space;

fn empty_pdt(is_positive: bool) -> ParsedDateTime {
    ParsedDateTime {
        is_positive,
        year: None,
        month: None,
        day: None,
        hour: None,
        minute: None,
        second: None,
        nano: None,
        timezone_offset_second: None,
    }
}

#[test]
fn test_potential_interval_tokens() {
    assert_eq!(
        potential_interval_tokens(&Year),
        vec![
            Num(0),
            Dash,
            Num(0),
            Dash,
            Num(0),
            Space,
            Num(0),
            Colon,
            Num(0),
            Colon,
            Num(0),
            Dot,
            Nanos(0),
        ]
    );

    assert_eq!(
        potential_interval_tokens(&Day),
        vec![
            Num(0),
            Space,
            Num(0),
            Colon,
            Num(0),
            Colon,
            Num(0),
            Dot,
            Nanos(0),
        ]
    );
}

#[test]
fn potential_timezone_tokens_pattern() {
    assert_eq!(
        potential_timezone_tokens(),
        vec![
            IntervalToken::Plus,
            IntervalToken::Num(0),
            IntervalToken::Colon,
            IntervalToken::Num(0),
        ]
    );
}

#[test]
fn tokenize_interval_body() {
    assert_eq!(
        tokenize_interval("9-5 4:3", false),
        Ok((
            vec![
                IntervalToken::Num(9),
                IntervalToken::Dash,
                IntervalToken::Num(5),
                IntervalToken::Space,
                IntervalToken::Num(4),
                IntervalToken::Colon,
                IntervalToken::Num(3),
            ],
            vec![],
        ))
    );
}

#[test]
fn tokenize_fractional_second() {
    assert_eq!(
        tokenize_interval("5.5", false),
        Ok((
            vec![
                IntervalToken::Num(5),
                IntervalToken::Dot,
                IntervalToken::Nanos(500_000_000),
            ],
            vec![],
        ))
    );
}

#[test]
fn tokenize_fraction_full_width() {
    assert_eq!(
        tokenize_interval("0.123456789", false),
        Ok((
            vec![
                IntervalToken::Num(0),
                IntervalToken::Dot,
                IntervalToken::Nanos(123_456_789),
            ],
            vec![],
        ))
    );
}

#[test]
fn tokenize_splits_timezone() {
    assert_eq!(
        tokenize_interval("4:30+05:15", true),
        Ok((
            vec![
                IntervalToken::Num(4),
                IntervalToken::Colon,
                IntervalToken::Num(30),
            ],
            vec![
                IntervalToken::Plus,
                IntervalToken::Num(5),
                IntervalToken::Colon,
                IntervalToken::Num(15),
            ],
        ))
    );
}

#[test]
fn tokenize_empty_literal() {
    assert_eq!(tokenize_interval("", false), Ok((vec![], vec![])));
}

#[test]
fn tokenize_rejects_invalid_character() {
    assert_eq!(
        tokenize_interval("9x", false),
        Err(TokenizeError::InvalidCharacter { offset: 1, ch: 'x' })
    );
}

#[test]
fn tokenize_rejects_plus_without_time() {
    assert_eq!(
        tokenize_interval("4+05:15", true),
        Err(TokenizeError::InvalidCharacter { offset: 1, ch: '+' })
    );
}

#[test]
fn tokenize_rejects_plus_when_excluded() {
    assert_eq!(
        tokenize_interval("4:30+05:15", false),
        Err(TokenizeError::InvalidCharacter { offset: 4, ch: '+' })
    );
}

#[test]
fn tokenize_rejects_empty_buffer_before_separator() {
    assert_eq!(
        tokenize_interval(" 5", false),
        Err(TokenizeError::InvalidNumber { offset: 0 })
    );
    assert_eq!(
        tokenize_interval(".5", false),
        Err(TokenizeError::InvalidNumber { offset: 0 })
    );
}

#[test]
fn tokenize_rejects_long_fraction() {
    assert_eq!(
        tokenize_interval("0.1234567890", false),
        Err(TokenizeError::InvalidFraction { offset: 12 })
    );
}

#[test]
fn tokenize_rejects_huge_number() {
    assert_eq!(
        tokenize_interval("99999999999999999999", false),
        Err(TokenizeError::InvalidNumber { offset: 20 })
    );
}

#[test]
fn tokenize_timezone_suffix() {
    assert_eq!(
        tokenize_timezone("+05:15"),
        Ok(vec![
            IntervalToken::Plus,
            IntervalToken::Num(5),
            IntervalToken::Colon,
            IntervalToken::Num(15),
        ])
    );
}

#[test]
fn tokenize_timezone_flushes_digits_before_dash() {
    // a pending numeric buffer is flushed, not discarded, when a dash
    // follows it inside a timezone suffix
    assert_eq!(
        tokenize_timezone("5-"),
        Ok(vec![IntervalToken::Num(5), IntervalToken::Dash])
    );
}

#[test]
fn tokenize_timezone_rejects_invalid_character() {
    assert_eq!(
        tokenize_timezone("+0a"),
        Err(TokenizeError::InvalidCharacter { offset: 2, ch: 'a' })
    );
}

#[test]
fn assign_signed_month() {
    let r = build_parsed_datetime(
        &[IntervalToken::Dash, IntervalToken::Num(5)],
        &DateTimeField::Month,
        &[],
    );
    assert_eq!(
        r,
        Ok(ParsedDateTime {
            is_positive: false,
            month: Some(5),
            ..empty_pdt(false)
        })
    );
}

#[test]
fn assign_rejects_month_zero() {
    assert_eq!(
        build_parsed_datetime(&[IntervalToken::Num(0)], &DateTimeField::Month, &[]),
        Err(ParseError::InvalidMonth { value: 0 })
    );
}

#[test]
fn assign_rejects_day_zero() {
    assert_eq!(
        build_parsed_datetime(&[IntervalToken::Num(0)], &DateTimeField::Day, &[]),
        Err(ParseError::InvalidDay { value: 0 })
    );
}

#[test]
fn assign_rejects_timezone_leading_field() {
    assert_eq!(
        build_parsed_datetime(&[], &DateTimeField::TimezoneOffsetSecond, &[]),
        Err(ParseError::InvalidLeadingField)
    );
}

#[test]
fn assign_reports_kind_mismatch() {
    assert_eq!(
        build_parsed_datetime(&[IntervalToken::Colon], &DateTimeField::Year, &[]),
        Err(ParseError::Mismatch {
            offset: 0,
            provided: IntervalToken::Colon,
            expected: IntervalToken::Num(0),
        })
    );
}

#[test]
fn assign_empty_tokens() {
    assert_eq!(
        build_parsed_datetime(&[], &DateTimeField::Year, &[]),
        Ok(empty_pdt(true))
    );
}

#[test]
fn assign_month_led_literal() {
    let (body, tz) = tokenize_interval("9-5 4:3", false).unwrap();
    let r = build_parsed_datetime(&body, &DateTimeField::Month, &tz);
    assert_eq!(
        r,
        Ok(ParsedDateTime {
            month: Some(9),
            day: Some(5),
            hour: Some(4),
            minute: Some(3),
            ..empty_pdt(true)
        })
    );
}

#[test]
fn assign_full_year_literal() {
    let (body, tz) = tokenize_interval("1-2-3 4:5:6.7", false).unwrap();
    let r = build_parsed_datetime(&body, &DateTimeField::Year, &tz);
    assert_eq!(
        r,
        Ok(ParsedDateTime {
            year: Some(1),
            month: Some(2),
            day: Some(3),
            hour: Some(4),
            minute: Some(5),
            second: Some(6),
            nano: Some(700_000_000),
            ..empty_pdt(true)
        })
    );
}

#[test]
fn assign_timezone_offset() {
    let (body, tz) = tokenize_interval("4:30+05:15", true).unwrap();
    let r = build_parsed_datetime(&body, &DateTimeField::Hour, &tz);
    assert_eq!(
        r,
        Ok(ParsedDateTime {
            hour: Some(4),
            minute: Some(30),
            timezone_offset_second: Some(5 * 3600 + 15 * 60),
            ..empty_pdt(true)
        })
    );
}

#[test]
fn assign_timezone_sums_hours_and_minutes() {
    let toks = [
        IntervalToken::Plus,
        IntervalToken::Num(5),
        IntervalToken::Colon,
        IntervalToken::Num(15),
    ];
    assert_eq!(assign_timezone(&toks), Ok(18_900));
}

#[test]
fn assign_timezone_negative_sign() {
    let toks = [
        IntervalToken::Dash,
        IntervalToken::Plus,
        IntervalToken::Num(5),
        IntervalToken::Colon,
        IntervalToken::Num(30),
    ];
    assert_eq!(assign_timezone(&toks), Ok(-19_800));
}

#[test]
fn assign_timezone_ignores_tokens_past_pattern() {
    // the pairing stops at the fixed four-token pattern; later tokens are
    // not validated
    let toks = [
        IntervalToken::Plus,
        IntervalToken::Num(1),
        IntervalToken::Colon,
        IntervalToken::Num(2),
        IntervalToken::Colon,
        IntervalToken::Num(3),
    ];
    assert_eq!(assign_timezone(&toks), Ok(3_720));
}

#[test]
fn assign_timezone_rejects_overflow() {
    let toks = [
        IntervalToken::Plus,
        IntervalToken::Num(u64::MAX),
        IntervalToken::Colon,
        IntervalToken::Num(0),
    ];
    assert_eq!(assign_timezone(&toks), Err(ParseError::TimezoneOutOfRange));
}

#[test]
fn assign_timezone_reports_mismatch() {
    let toks = [IntervalToken::Num(5)];
    assert_eq!(
        assign_timezone(&toks),
        Err(ParseError::Mismatch {
            offset: 0,
            provided: IntervalToken::Num(5),
            expected: IntervalToken::Plus,
        })
    );
}

#[test]
fn assign_second_led_literal_with_timezone_tokens() {
    let tz = [
        IntervalToken::Plus,
        IntervalToken::Num(1),
        IntervalToken::Colon,
        IntervalToken::Num(30),
    ];
    let r = build_parsed_datetime(&[IntervalToken::Num(2)], &DateTimeField::Second, &tz);
    assert_eq!(
        r,
        Ok(ParsedDateTime {
            second: Some(2),
            timezone_offset_second: Some(5_400),
            ..empty_pdt(true)
        })
    );
}

#[test]
fn assign_rejects_second_seconds_number() {
    // the expected pattern holds exactly one slot for seconds, so a literal
    // carrying a further number after it fails on the separator that would
    // precede it
    let toks = [
        IntervalToken::Num(1),
        IntervalToken::Colon,
        IntervalToken::Num(2),
        IntervalToken::Colon,
        IntervalToken::Num(3),
    ];
    assert_eq!(
        build_parsed_datetime(&toks, &DateTimeField::Minute, &[]),
        Err(ParseError::Mismatch {
            offset: 3,
            provided: IntervalToken::Colon,
            expected: IntervalToken::Dot,
        })
    );
}

#[test]
fn assign_rejects_nanos_before_second() {
    // a fractional-second token only pairs against the pattern's final
    // position, which a second value always precedes; a nanosecond token
    // anywhere else is a kind mismatch
    let r = build_parsed_datetime(&[IntervalToken::Nanos(5)], &DateTimeField::Second, &[]);
    assert_eq!(
        r,
        Err(ParseError::Mismatch {
            offset: 0,
            provided: IntervalToken::Nanos(5),
            expected: IntervalToken::Num(0),
        })
    );
}
